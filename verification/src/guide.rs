//! The channel guide: one row per channel, with the schedule along a time axis. Times are
//! counted from 1970-01-01 00:00 UTC: the window starts on a whole second, and what stands
//! on the timeline is placed to the nanosecond.

use crate::channel;
use crate::channel::{find_channel, sort_by_number, Channel};
use crate::preview::{EntryView, PreviewCache, PreviewView};
use crate::text;
use crate::text::{chars_of, front, same_text, text_of};
use vstd::prelude::*;

verus! {

/// The first second of the calendar.
pub const MIN_TIME: i64 = -8_334_601_228_800;

/// The last second of the calendar.
pub const MAX_TIME: i64 = 8_210_266_876_799;

/// The first nanosecond of the calendar.
pub const MIN_NANOS: i128 = -8_334_601_228_800_000_000_000;

/// The last nanosecond of the calendar.
pub const MAX_NANOS: i128 = 8_210_266_876_799_999_999_999;

/// How many nanoseconds a second has.
pub const NANOS: i128 = 1_000_000_000;

/// How many minutes the timeline shows at once.
pub const WINDOW: i64 = 120;

/// How many minutes one nudge moves it.
pub const SCROLL_STEP: i64 = 30;

/// What the guide asks for.
#[derive(Debug)]
pub enum GuideAction {
    Nothing,
    SelectChannel(Box<Channel>),
    /// Switch operator: back to the setup screen.
    ChangeProvider,
}

/// Which channels are listed.
#[derive(Debug)]
pub enum CategoryFilter {
    All,
    Category(String),
}

impl CategoryFilter {
    /// The category that channels must have, where there is one.
    pub open spec fn view(&self) -> Option<Seq<char>> {
        match self {
            CategoryFilter::All => None,
            CategoryFilter::Category(c) => Some(c@),
        }
    }

    /// The filter for a tab: everything, or one category.
    pub fn of_tab(category: &Option<String>) -> (r: CategoryFilter)
        ensures
            r@ == text::opt_text(*category),
    {
        match category {
            None => CategoryFilter::All,
            Some(c) => CategoryFilter::Category(c.clone()),
        }
    }

    /// Whether the filter is the one of a tab.
    pub fn is_of_tab(&self, category: &Option<String>) -> (r: bool)
        ensures
            r == (self@ == text::opt_text(*category)),
    {
        match (self, category) {
            (CategoryFilter::All, None) => true,
            (CategoryFilter::Category(a), Some(b)) => same_text(a.as_str(), b.as_str()),
            _ => false,
        }
    }

    /// Whether a channel of this category is listed.
    pub fn admits(&self, category: &str) -> (r: bool)
        ensures
            r == (self@ is None || self@ == Some(category@)),
    {
        match self {
            CategoryFilter::All => true,
            CategoryFilter::Category(c) => same_text(c.as_str(), category),
        }
    }
}

/// The tabs: everything, then each category.
pub open spec fn tabs(categories: Seq<String>) -> Seq<(Seq<char>, Option<Seq<char>>)> {
    seq![("Tout"@, None::<Seq<char>>)] + categories.map_values(|c: String| (c@, Some(c@)))
}

/// The label and the category of each tab.
pub fn filter_labels(categories: &Vec<String>) -> (r: Vec<(String, Option<String>)>)
    ensures
        r@.map_values(|t: (String, Option<String>)| (t.0@, text::opt_text(t.1))) == tabs(
            categories@,
        ),
{
    let mut r: Vec<(String, Option<String>)> = Vec::new();
    r.push(("Tout".to_owned(), None));
    let mut i: usize = 0;
    assert(r@.map_values(|t: (String, Option<String>)| (t.0@, text::opt_text(t.1))) =~= tabs(
        categories@.take(0),
    ));
    while i < categories.len()
        invariant
            i <= categories@.len(),
            r@.map_values(|t: (String, Option<String>)| (t.0@, text::opt_text(t.1))) == tabs(
                categories@.take(i as int),
            ),
        decreases categories@.len() - i,
    {
        let ghost before = r@;
        r.push((categories[i].clone(), Some(categories[i].clone())));
        i += 1;
        proof {
            let shown = |t: (String, Option<String>)| (t.0@, text::opt_text(t.1));
            let c = categories@[i - 1];
            assert(r@.map_values(shown) =~= before.map_values(shown).push((c@, Some(c@))));
            assert(tabs(categories@.take(i as int)) =~= tabs(categories@.take(i - 1)).push(
                (c@, Some(c@)),
            ));
        }
    }
    assert(categories@.take(i as int) =~= categories@);
    r
}

/// What the arrow keys move within.
#[derive(Debug, Clone, Copy, PartialEq, Eq, Structural)]
pub enum FocusLayer {
    FilterTabs,
    Rows,
}

/// The keys pressed since the last step.
#[derive(Debug, Default, Clone, Copy, PartialEq, Eq)]
pub struct NavInput {
    pub left: bool,
    pub right: bool,
    pub up: bool,
    pub down: bool,
    pub enter: bool,
}

/// What a navigation step decided.
#[derive(Debug, PartialEq, Eq)]
pub enum NavOutcome {
    Nothing,
    /// Tune to this row of the filtered list.
    Select(usize),
    /// Apply the filter of this tab.
    ApplyFilter(usize),
}

/// Where the focus is.
pub struct Cursor {
    pub layer: FocusLayer,
    pub tab: int,
    pub row: int,
    pub programme: int,
    pub window_start: int,
    pub scroll_pending: bool,
}

/// One row up: from the first row to the tabs.
pub open spec fn moved_up(c: Cursor) -> Cursor {
    if c.row == 0 {
        Cursor { layer: FocusLayer::FilterTabs, ..c }
    } else {
        Cursor { row: c.row - 1, programme: 0, scroll_pending: true, ..c }
    }
}

/// One row down, as far as there is one.
pub open spec fn moved_down(c: Cursor, rows: int) -> Cursor {
    if c.row + 1 < rows {
        Cursor { row: c.row + 1, programme: 0, scroll_pending: true, ..c }
    } else {
        c
    }
}

/// One programme to the right; behind the last one the window moves.
pub open spec fn moved_right(c: Cursor, programmes: int) -> Cursor {
    if c.programme + 1 < programmes {
        Cursor { programme: c.programme + 1, ..c }
    } else {
        Cursor { window_start: c.window_start + 60 * SCROLL_STEP, ..c }
    }
}

/// One programme to the left; before the first one the window moves.
pub open spec fn moved_left(c: Cursor) -> Cursor {
    if c.programme > 0 {
        Cursor { programme: c.programme - 1, ..c }
    } else {
        Cursor { window_start: c.window_start - 60 * SCROLL_STEP, ..c }
    }
}

/// The rows under the keys: up, down, right, left, one after the other.
pub open spec fn rows_moved(c: Cursor, input: NavInput, rows: int, programmes: int) -> Cursor {
    let c = walked(c, input, rows);
    let c = if input.right {
        moved_right(c, programmes)
    } else {
        c
    };
    if input.left {
        moved_left(c)
    } else {
        c
    }
}

/// The tabs under the keys: left, right, and down to the rows.
pub open spec fn tabs_moved(c: Cursor, input: NavInput, tabs: int) -> Cursor {
    let tab = if input.left && c.tab > 0 {
        c.tab - 1
    } else {
        c.tab
    };
    let tab = if input.right && tab + 1 < tabs {
        tab + 1
    } else {
        tab
    };
    Cursor {
        tab,
        layer: if input.down {
            FocusLayer::Rows
        } else {
            c.layer
        },
        ..c
    }
}

/// One navigation step.
pub open spec fn moved(
    c: Cursor,
    input: NavInput,
    rows: int,
    tabs: int,
    programmes: int,
) -> Cursor {
    match c.layer {
        FocusLayer::FilterTabs => tabs_moved(c, input, tabs),
        FocusLayer::Rows => rows_moved(c, input, rows, programmes),
    }
}

/// The rows under the keys up and down.
pub open spec fn walked(c: Cursor, input: NavInput, rows: int) -> Cursor {
    let c = if input.up {
        moved_up(c)
    } else {
        c
    };
    if input.down {
        moved_down(c, rows)
    } else {
        c
    }
}

/// Whether the window stays within the calendar where a step scrolls it: to the right behind
/// the last programme, to the left before the first.
pub open spec fn has_room(c: Cursor, input: NavInput, rows: int, programmes: int) -> bool {
    let here = walked(c, input, rows);
    let there = if input.right {
        moved_right(here, programmes)
    } else {
        here
    };
    c.layer is Rows ==> {
        &&& input.right && here.programme + 1 >= programmes ==> here.window_start <= MAX_TIME - 60
            * SCROLL_STEP
        &&& input.left && there.programme == 0 ==> there.window_start >= MIN_TIME + 60
            * SCROLL_STEP
    }
}

/// The channels that a filter lists.
pub open spec fn listed(
    channels: Seq<Channel>,
    show_locked: bool,
    category: Option<Seq<char>>,
) -> Seq<Channel> {
    channels.filter(|c: Channel| is_listed(c, show_locked, category))
}

/// Whether a filter lists a channel.
pub open spec fn is_listed(c: Channel, show_locked: bool, category: Option<Seq<char>>) -> bool {
    (show_locked || !c.locked) && (category is None || category == Some(c.category@))
}

/// The last time of a half hour, not after `t`.
pub fn floor_to_half_hour(t: i64) -> (r: i64)
    requires
        MIN_TIME <= t <= MAX_TIME,
    ensures
        r == t - t as int % 1800,
{
    let up: u64 = (t - MIN_TIME) as u64;
    let r: i64 = t - (up % 1800) as i64;
    assert((t - MIN_TIME) % 1800 == t as int % 1800);
    r
}

/// The guide, with preview frames held as textures.
#[derive(Debug)]
pub struct GuideScreen<T> {
    pub channels: Vec<Channel>,
    pub filter: CategoryFilter,
    pub filter_focus_idx: usize,
    pub focus_layer: FocusLayer,
    pub focused_row: usize,
    pub focused_prog: usize,
    pub window_start: i64,
    pub show_locked: bool,
    /// The channels drawn last, in row order.
    pub visible: Vec<String>,
    /// Which of these is focused.
    pub visible_focus: Option<usize>,
    pub last_focus_row: usize,
    /// Whether the list has yet to follow the focus.
    pub scroll_pending: bool,
    pub previews: PreviewCache<T>,
}

impl<T> GuideScreen<T> {
    /// Where the focus is.
    pub open spec fn cursor(&self) -> Cursor {
        Cursor {
            layer: self.focus_layer,
            tab: self.filter_focus_idx as int,
            row: self.focused_row as int,
            programme: self.focused_prog as int,
            window_start: self.window_start as int,
            scroll_pending: self.scroll_pending,
        }
    }

    /// The channels listed.
    pub open spec fn rows(&self) -> Seq<Channel> {
        listed(self.channels@, self.show_locked, self.filter@)
    }

    /// The guide at time `now`: all channels that are not locked, by number.
    pub fn new(channels: Vec<Channel>, now: i64) -> (r: Self)
        requires
            MIN_TIME <= now <= MAX_TIME,
        ensures
            channel::listed(channel::views(channels@), channel::views(r.channels@)),
            r.filter@ is None,
            !r.show_locked,
            r.visible@.len() == 0,
            r.visible_focus is None,
            r.last_focus_row == 0,
            r.cursor() == (Cursor {
                layer: FocusLayer::Rows,
                tab: 0,
                row: 0,
                programme: 0,
                window_start: now - now as int % 1800,
                scroll_pending: false,
            }),
            r.previews@.wf(),
            r.previews@ == (PreviewView {
                entries: Seq::<EntryView<T>>::empty(),
                in_flight: Seq::empty(),
                failures: Map::empty(),
                last_attempt: Map::empty(),
            }),
    {
        GuideScreen {
            channels: sort_by_number(channels),
            filter: CategoryFilter::All,
            filter_focus_idx: 0,
            focus_layer: FocusLayer::Rows,
            focused_row: 0,
            focused_prog: 0,
            window_start: floor_to_half_hour(now),
            show_locked: false,
            visible: Vec::new(),
            visible_focus: None,
            last_focus_row: 0,
            scroll_pending: false,
            previews: PreviewCache::new(),
        }
    }

    /// All channels, by number.
    pub fn channels(&self) -> (r: &[Channel])
        ensures
            r@ == self.channels@,
    {
        self.channels.as_slice()
    }

    /// The channels on screen, in row order.
    pub fn visible_channel_ids(&self) -> (r: &[String])
        ensures
            r@ == self.visible@,
    {
        self.visible.as_slice()
    }

    /// Which of the channels on screen is focused.
    pub fn visible_focus(&self) -> (r: Option<usize>)
        ensures
            r == self.visible_focus,
    {
        self.visible_focus
    }

    /// One navigation step over `rows` rows, `tabs` tabs and the `programs` programmes of
    /// the focused row.
    pub fn apply_nav(&mut self, input: NavInput, rows: usize, tabs: usize, programs: usize) -> (r:
        NavOutcome)
        requires
            has_room(old(self).cursor(), input, rows as int, programs as int),
        ensures
            final(self).cursor() == moved(
                old(self).cursor(),
                input,
                rows as int,
                tabs as int,
                programs as int,
            ),
            *final(self) == (GuideScreen {
                focus_layer: final(self).focus_layer,
                filter_focus_idx: final(self).filter_focus_idx,
                focused_row: final(self).focused_row,
                focused_prog: final(self).focused_prog,
                window_start: final(self).window_start,
                scroll_pending: final(self).scroll_pending,
                ..*old(self)
            }),
            r == (match old(self).focus_layer {
                FocusLayer::FilterTabs => if input.enter {
                    NavOutcome::ApplyFilter(final(self).filter_focus_idx)
                } else {
                    NavOutcome::Nothing
                },
                FocusLayer::Rows => if input.enter && final(self).focused_row < rows {
                    NavOutcome::Select(final(self).focused_row)
                } else {
                    NavOutcome::Nothing
                },
            }),
    {
        match self.focus_layer {
            FocusLayer::FilterTabs => {
                if input.left && self.filter_focus_idx > 0 {
                    self.filter_focus_idx -= 1;
                }
                if input.right && tabs > 0 && self.filter_focus_idx < tabs - 1 {
                    self.filter_focus_idx += 1;
                }
                if input.down {
                    self.focus_layer = FocusLayer::Rows;
                }
                if input.enter {
                    return NavOutcome::ApplyFilter(self.filter_focus_idx);
                }
                NavOutcome::Nothing
            },
            FocusLayer::Rows => {
                if input.up {
                    if self.focused_row == 0 {
                        self.focus_layer = FocusLayer::FilterTabs;
                    } else {
                        self.focused_row -= 1;
                        self.focused_prog = 0;
                        self.scroll_pending = true;
                    }
                }
                if input.down && rows > 0 && self.focused_row < rows - 1 {
                    self.focused_row += 1;
                    self.focused_prog = 0;
                    self.scroll_pending = true;
                }
                if input.right {
                    if programs > 0 && self.focused_prog < programs - 1 {
                        self.focused_prog += 1;
                    } else {
                        self.window_start += 60 * SCROLL_STEP;
                    }
                }
                if input.left {
                    if self.focused_prog > 0 {
                        self.focused_prog -= 1;
                    } else {
                        self.window_start -= 60 * SCROLL_STEP;
                    }
                }
                if input.enter && self.focused_row < rows {
                    return NavOutcome::Select(self.focused_row);
                }
                NavOutcome::Nothing
            },
        }
    }

    /// Whether the window stays within the calendar in a step of the guide.
    pub fn has_room(&self, input: NavInput, programs: usize) -> (r: bool)
        ensures
            r == has_room(self.cursor(), input, self.rows().len() as int, programs as int),
    {
        if self.focus_layer == FocusLayer::FilterTabs {
            return true;
        }
        let listed = self.filtered();
        assert(listed@.map_values(|c: &Channel| *c).len() == listed@.len());
        let rows: usize = listed.len();
        let mut row: usize = self.focused_row;
        let mut programme: usize = self.focused_prog;
        if input.up && row > 0 {
            row -= 1;
            programme = 0;
        }
        if input.down && rows > 0 && row < rows - 1 {
            programme = 0;
        }
        let mut start: i64 = self.window_start;
        if input.right {
            if programs > 0 && programme < programs - 1 {
                programme += 1;
            } else if start > MAX_TIME - 60 * SCROLL_STEP {
                return false;
            } else {
                start += 60 * SCROLL_STEP;
            }
        }
        !input.left || programme > 0 || start >= MIN_TIME + 60 * SCROLL_STEP
    }

    /// The channels listed.
    pub fn filtered(&self) -> (r: Vec<&Channel>)
        ensures
            r@.map_values(|c: &Channel| *c) == self.rows(),
    {
        let mut r: Vec<&Channel> = Vec::new();
        let mut i: usize = 0;
        let ghost p = |c: Channel| is_listed(c, self.show_locked, self.filter@);
        assert(self.channels@.take(0) =~= Seq::<Channel>::empty());
        assert(self.channels@.take(0).filter(p) =~= Seq::<Channel>::empty()) by {
            reveal(Seq::filter);
        }
        assert(r@.map_values(|c: &Channel| *c) =~= Seq::<Channel>::empty());
        while i < self.channels.len()
            invariant
                i <= self.channels@.len(),
                p == (|c: Channel| is_listed(c, self.show_locked, self.filter@)),
                r@.map_values(|c: &Channel| *c) == self.channels@.take(i as int).filter(p),
            decreases self.channels@.len() - i,
        {
            let c: &Channel = &self.channels[i];
            let ghost before = r@;
            if (self.show_locked || !c.locked) && self.filter.admits(c.category.as_str()) {
                r.push(c);
                assert(r@.map_values(|c: &Channel| *c) =~= before.map_values(
                    |c: &Channel| *c,
                ).push(*c));
            }
            proof {
                let next = self.channels@.take(i + 1);
                assert(next.drop_last() =~= self.channels@.take(i as int));
                assert(next.last() == *c);
                reveal(Seq::filter);
            }
            i += 1;
        }
        assert(self.channels@.take(i as int) =~= self.channels@);
        r
    }

    /// The channel that the cursor is on.
    pub fn focused_channel(&self) -> (r: Option<Channel>)
        ensures
            match r {
                Some(c) => self.focused_row < self.rows().len()
                    && c@ == self.rows()[self.focused_row as int]@,
                None => self.focused_row >= self.rows().len(),
            },
    {
        let rows = self.filtered();
        assert(rows@.map_values(|c: &Channel| *c).len() == rows@.len());
        if self.focused_row < rows.len() {
            assert(rows@.map_values(|c: &Channel| *c)[self.focused_row as int]
                == *rows@[self.focused_row as int]);
            Some(rows[self.focused_row].clone())
        } else {
            None
        }
    }

    /// What the schedule is asked for the focused row: a channel, and the window.
    pub fn programmes_wanted(&self) -> (r: Option<(String, i64, i64)>)
        requires
            MIN_TIME <= self.window_start <= MAX_TIME - 60 * WINDOW,
        ensures
            match r {
                Some((id, start, end)) => {
                    &&& self.focused_row < self.rows().len()
                    &&& id@ == self.rows()[self.focused_row as int]@.id
                    &&& start == self.window_start
                    &&& end == self.window_start + 60 * WINDOW
                },
                None => self.focused_row >= self.rows().len(),
            },
    {
        match self.focused_channel() {
            None => None,
            Some(c) => Some((c.id, self.window_start, self.window_start + 60 * WINDOW)),
        }
    }

    /// What a navigation step leads to. A locked channel cannot be selected; a new filter
    /// starts at its first row.
    pub fn act(&mut self, outcome: NavOutcome, labels: &Vec<(String, Option<String>)>) -> (r:
        GuideAction)
        requires
            outcome matches NavOutcome::ApplyFilter(i) ==> i < labels@.len(),
        ensures
            match outcome {
                NavOutcome::Select(i) => {
                    &&& *final(self) == *old(self)
                    &&& match r {
                        GuideAction::SelectChannel(c) => {
                            &&& i < old(self).rows().len()
                            &&& c@ == old(self).rows()[i as int]@
                            &&& !c.locked
                        },
                        GuideAction::Nothing => i >= old(self).rows().len()
                            || old(self).rows()[i as int].locked,
                        GuideAction::ChangeProvider => false,
                    }
                },
                NavOutcome::ApplyFilter(i) => {
                    &&& r is Nothing
                    &&& final(self).filter@ == text::opt_text(labels@[i as int].1)
                    &&& *final(self) == (GuideScreen {
                        filter: final(self).filter,
                        focused_row: 0,
                        focused_prog: 0,
                        scroll_pending: true,
                        ..*old(self)
                    })
                },
                NavOutcome::Nothing => r is Nothing && *final(self) == *old(self),
            },
    {
        match outcome {
            NavOutcome::Select(i) => {
                let rows = self.filtered();
                assert(rows@.map_values(|c: &Channel| *c).len() == rows@.len());
                if i < rows.len() {
                    assert(rows@.map_values(|c: &Channel| *c)[i as int] == *rows@[i as int]);
                    let c = rows[i];
                    if !c.locked {
                        return GuideAction::SelectChannel(Box::new(c.clone()));
                    }
                }
                GuideAction::Nothing
            },
            NavOutcome::ApplyFilter(i) => {
                self.filter = CategoryFilter::of_tab(&labels[i].1);
                self.focused_row = 0;
                self.focused_prog = 0;
                self.scroll_pending = true;
                GuideAction::Nothing
            },
            NavOutcome::Nothing => GuideAction::Nothing,
        }
    }

    /// One step of the guide under the keys.
    pub fn show(&mut self, input: NavInput, categories: &Vec<String>, programs: usize) -> (r:
        GuideAction)
        requires
            has_room(
                old(self).cursor(),
                input,
                old(self).rows().len() as int,
                programs as int,
            ),
            old(self).filter_focus_idx <= categories@.len() < usize::MAX,
        ensures
            final(self).filter_focus_idx <= categories@.len(),
            ({
                let c = moved(
                    old(self).cursor(),
                    input,
                    old(self).rows().len() as int,
                    (categories@.len() + 1) as int,
                    programs as int,
                );
                let filtering = old(self).focus_layer is FilterTabs && input.enter;
                &&& final(self).cursor() == if filtering {
                    Cursor { row: 0, programme: 0, scroll_pending: true, ..c }
                } else {
                    c
                }
                &&& filtering ==> final(self).filter@ == tabs(categories@)[c.tab].1
                &&& !filtering ==> final(self).filter == old(self).filter
                &&& match r {
                    GuideAction::SelectChannel(chosen) => {
                        &&& old(self).focus_layer is Rows
                        &&& input.enter
                        &&& c.row < old(self).rows().len()
                        &&& !old(self).rows()[c.row].locked
                        &&& chosen@ == old(self).rows()[c.row]@
                    },
                    GuideAction::Nothing => {
                        ||| old(self).focus_layer is FilterTabs
                        ||| !input.enter
                        ||| c.row >= old(self).rows().len()
                        ||| old(self).rows()[c.row].locked
                    },
                    GuideAction::ChangeProvider => false,
                }
            }),
            *final(self) == (GuideScreen {
                filter: final(self).filter,
                focus_layer: final(self).focus_layer,
                filter_focus_idx: final(self).filter_focus_idx,
                focused_row: final(self).focused_row,
                focused_prog: final(self).focused_prog,
                window_start: final(self).window_start,
                scroll_pending: final(self).scroll_pending,
                ..*old(self)
            }),
    {
        let labels = filter_labels(categories);
        let ghost shown = |t: (String, Option<String>)| (t.0@, text::opt_text(t.1));
        assert(labels@.map_values(shown).len() == labels@.len());
        let rows = self.filtered();
        assert(rows@.map_values(|c: &Channel| *c).len() == rows@.len());
        let count: usize = rows.len();
        let outcome = self.apply_nav(input, count, labels.len(), programs);
        assert(self.rows() == old(self).rows());
        proof {
            if let NavOutcome::ApplyFilter(i) = outcome {
                assert(labels@.map_values(shown)[i as int] == shown(labels@[i as int]));
            }
        }
        self.act(outcome, &labels)
    }

    /// Takes in what captures have given since the last step: frames, and the channels
    /// whose capture failed. Says whether the focus has moved to another row meanwhile.
    pub fn collect(&mut self, frames: Vec<(String, T)>, failed: &Vec<String>, now: u64) -> (moved:
        bool)
        requires
            old(self).previews@.wf(),
        ensures
            final(self).previews@.wf(),
            final(self).previews@ == after_failures(
                after_frames(old(self).previews@, frames@, now),
                failed@,
            ),
            moved == (old(self).focused_row != old(self).last_focus_row),
            *final(self) == (GuideScreen {
                previews: final(self).previews,
                last_focus_row: old(self).focused_row,
                ..*old(self)
            }),
    {
        let ghost all = frames@;
        let ghost first = self.previews@;
        let mut rest: Vec<(String, T)> = frames;
        let ghost mut n: int = 0;
        assert(all.take(0) =~= Seq::<(String, T)>::empty());
        while rest.len() > 0
            invariant
                n + rest@.len() == all.len(),
                0 <= n,
                rest@ == all.skip(n),
                self.previews@.wf(),
                self.previews@ == after_frames(first, all.take(n), now),
                *self == (GuideScreen { previews: self.previews, ..*old(self) }),
            decreases rest@.len(),
        {
            let (id, texture) = rest.remove(0);
            self.previews.insert(id.as_str(), texture, now);
            proof {
                n = n + 1;
                assert(rest@ =~= all.skip(n));
                assert(all.take(n).drop_last() =~= all.take(n - 1));
                assert(all.take(n).last() == (id, texture));
            }
        }
        assert(all.take(n) =~= all);
        let ghost second = self.previews@;
        let mut i: usize = 0;
        assert(failed@.take(0) =~= Seq::<String>::empty());
        while i < failed.len()
            invariant
                i <= failed@.len(),
                self.previews@.wf(),
                self.previews@ == after_failures(second, failed@.take(i as int)),
                *self == (GuideScreen { previews: self.previews, ..*old(self) }),
            decreases failed@.len() - i,
        {
            self.previews.mark_failed(failed[i].as_str());
            i += 1;
            assert(failed@.take(i as int).drop_last() =~= failed@.take(i - 1));
        }
        assert(failed@.take(i as int) =~= failed@);
        let moved = self.focused_row != self.last_focus_row;
        self.last_focus_row = self.focused_row;
        moved
    }

    /// What is captured next: nothing while no row is on screen, and otherwise the channel
    /// that the schedule of captures names, if there is one of that identifier.
    pub fn begin_capture(&mut self, target: &Option<String>, now: u64) -> (r: Option<Channel>)
        requires
            old(self).previews@.wf(),
        ensures
            final(self).previews@.wf(),
            match r {
                Some(c) => {
                    &&& old(self).visible@.len() > 0
                    &&& target matches Some(id)
                    &&& channel::position(channel::views(old(self).channels@), id@, 0) matches Some(
                        i,
                    )
                    &&& c@ == old(self).channels@[i]@
                    &&& final(self).previews@ == old(self).previews@.requested(id@, now)
                    &&& *final(self) == (GuideScreen {
                        previews: final(self).previews,
                        ..*old(self)
                    })
                },
                None => {
                    &&& *final(self) == *old(self)
                    &&& {
                        ||| old(self).visible@.len() == 0
                        ||| *target is None
                        ||| channel::position(
                            channel::views(old(self).channels@),
                            target->0@,
                            0,
                        ) is None
                    }
                },
            },
    {
        if self.visible.len() == 0 {
            return None;
        }
        match target {
            None => None,
            Some(id) => match find_channel(self.channels.as_slice(), id.as_str()) {
                None => None,
                Some(i) => {
                    self.previews.mark_requested(id.as_str(), now);
                    Some(self.channels[i].clone())
                },
            },
        }
    }

    /// No capture is waited for any longer.
    pub fn cancel_previews(&mut self)
        requires
            old(self).previews@.wf(),
        ensures
            final(self).previews@.wf(),
            final(self).previews@ == (PreviewView {
                in_flight: Seq::empty(),
                ..old(self).previews@
            }),
            *final(self) == (GuideScreen { previews: final(self).previews, ..*old(self) }),
    {
        self.previews.clear_in_flight();
    }

    /// The rows `from` to `to` are on screen.
    pub fn set_visible(&mut self, from: usize, to: usize)
        requires
            from <= to <= old(self).rows().len(),
        ensures
            final(self).visible@.map_values(|id: String| id@) == old(self).rows().subrange(
                from as int,
                to as int,
            ).map_values(|c: Channel| c@.id),
            final(self).visible_focus == (if from <= old(self).focus_shown() < to {
                Some((old(self).focus_shown() - from) as usize)
            } else {
                None
            }),
            *final(self) == (GuideScreen {
                visible: final(self).visible,
                visible_focus: final(self).visible_focus,
                ..*old(self)
            }),
    {
        let mut visible: Vec<String> = Vec::new();
        let mut focus: Option<usize> = None;
        let rows = self.filtered();
        let ghost listed = self.rows();
        assert(rows@.map_values(|c: &Channel| *c).len() == rows@.len());
        let focused: usize = if rows.len() == 0 {
            0
        } else if self.focused_row < rows.len() {
            self.focused_row
        } else {
            rows.len() - 1
        };
        let mut i: usize = from;
        assert(visible@.map_values(|id: String| id@) =~= listed.subrange(
            from as int,
            from as int,
        ).map_values(|c: Channel| c@.id));
        while i < to
            invariant
                from <= i <= to <= rows@.len(),
                listed == rows@.map_values(|c: &Channel| *c),
                visible@.map_values(|id: String| id@) == listed.subrange(
                    from as int,
                    i as int,
                ).map_values(|c: Channel| c@.id),
                visible@.len() == i - from,
                focus == (if from <= focused < i {
                    Some((focused - from) as usize)
                } else {
                    None
                }),
            decreases to - i,
        {
            if i == focused {
                focus = Some(visible.len());
            }
            let ghost before = visible@;
            visible.push(rows[i].id.clone());
            i += 1;
            proof {
                assert(listed[i - 1] == *rows@[i - 1]);
                assert(visible@.map_values(|id: String| id@) =~= before.map_values(
                    |id: String| id@,
                ).push(listed[i - 1]@.id));
                assert(listed.subrange(from as int, i as int).map_values(|c: Channel| c@.id)
                    =~= listed.subrange(from as int, i - 1).map_values(|c: Channel| c@.id).push(
                    listed[i - 1]@.id,
                ));
            }
        }
        self.visible = visible;
        self.visible_focus = focus;
    }

    /// The row shown as focused: the last one where the cursor is behind it.
    pub open spec fn focus_shown(&self) -> int {
        if self.rows().len() == 0 {
            0
        } else if self.focused_row < self.rows().len() {
            self.focused_row as int
        } else {
            self.rows().len() - 1
        }
    }

    /// Whether a tab has the focus, and whether its filter is the one in force.
    pub fn tab_state(&self, idx: usize, category: &Option<String>) -> (r: (bool, bool))
        ensures
            r.0 == (self.focus_layer is FilterTabs && self.filter_focus_idx == idx),
            r.1 == (self.filter@ == text::opt_text(*category)),
    {
        (
            self.focus_layer == FocusLayer::FilterTabs && self.filter_focus_idx == idx,
            self.filter.is_of_tab(category),
        )
    }
}

/// The previews after frames have been taken in, one after the other.
pub open spec fn after_frames<T>(v: PreviewView<T>, frames: Seq<(String, T)>, now: u64) -> PreviewView<T>
    decreases frames.len(),
{
    if frames.len() == 0 {
        v
    } else {
        after_frames(v, frames.drop_last(), now).captured(
            EntryView {
                id: frames.last().0@,
                texture: frames.last().1,
                captured_at: now,
            },
        )
    }
}

/// The previews after captures have failed, one after the other.
pub open spec fn after_failures<T>(v: PreviewView<T>, failed: Seq<String>) -> PreviewView<T>
    decreases failed.len(),
{
    if failed.len() == 0 {
        v
    } else {
        after_failures(v, failed.drop_last()).failed_again(failed.last()@)
    }
}

/// What a row shows beside the channel's name.
#[derive(Debug, PartialEq, Eq)]
pub enum RowPicture {
    /// The live picture, over the captured one if there is one.
    Live { over_still: bool },
    /// The frame captured last.
    Still,
    /// Neither: the channel's name.
    Name,
}

/// What a row shows. Only the focused row shows the live picture, and only one of its own
/// channel.
pub fn row_picture(focused: bool, live_id: &Option<String>, id: &str, has_still: bool) -> (r:
    RowPicture)
    ensures
        r == (if focused && text::opt_text(*live_id) == Some(id@) {
            RowPicture::Live { over_still: has_still }
        } else if has_still {
            RowPicture::Still
        } else {
            RowPicture::Name
        }),
{
    let live = match live_id {
        Some(l) => focused && same_text(l.as_str(), id),
        None => false,
    };
    if live {
        RowPicture::Live { over_still: has_still }
    } else if has_still {
        RowPicture::Still
    } else {
        RowPicture::Name
    }
}

/// What stands for a logo: the first three characters of the channel's name.
pub fn initials(name: &str) -> (r: String)
    ensures
        r@ == name@.take(if name@.len() < 3 { name@.len() as int } else { 3 }),
{
    let all = chars_of(name);
    let n: usize = if all.len() < 3 {
        all.len()
    } else {
        3
    };
    text_of(front(all.as_slice(), n))
}

/// Whole minutes of a span of nanoseconds, towards zero.
pub open spec fn whole_minutes(nanos: int) -> int {
    if nanos >= 0 {
        nanos / 60_000_000_000
    } else {
        -((-nanos) / 60_000_000_000)
    }
}

/// Whole minutes of a span of nanoseconds.
fn minutes(nanos: i128) -> (r: i64)
    requires
        MIN_NANOS - MAX_NANOS <= nanos <= MAX_NANOS - MIN_NANOS,
    ensures
        r == whole_minutes(nanos as int),
{
    if nanos >= 0 {
        (nanos as u128 / 60_000_000_000) as i64
    } else {
        -(((-nanos) as u128 / 60_000_000_000) as i64)
    }
}

/// Where a programme stands on a timeline: minutes from its left edge, and minutes of its
/// width, cut off at both edges. Its times are in nanoseconds.
pub fn programme_span(start: i128, stop: i128, window_start: i64) -> (r: (i64, i64))
    requires
        MIN_NANOS <= start <= MAX_NANOS,
        MIN_NANOS <= stop <= MAX_NANOS,
        MIN_TIME <= window_start <= MAX_TIME - 60 * WINDOW,
    ensures
        ({
            let from = window_start * NANOS;
            let to = (window_start + 60 * WINDOW) * NANOS;
            let left = if start > from { start as int } else { from };
            let right = if stop < to { stop as int } else { to };
            &&& r.0 == whole_minutes(left - from)
            &&& r.1 == whole_minutes(right - left)
        }),
{
    let from: i128 = window_start as i128 * NANOS;
    let to: i128 = (window_start + 60 * WINDOW) as i128 * NANOS;
    let left: i128 = if start > from {
        start
    } else {
        from
    };
    let right: i128 = if stop < to {
        stop
    } else {
        to
    };
    (minutes(left - from), minutes(right - left))
}

/// How many minutes from the left edge `now` stands, where it is on the timeline; in
/// nanoseconds.
pub fn now_line(now: i128, window_start: i64) -> (r: Option<i64>)
    requires
        MIN_NANOS <= now <= MAX_NANOS,
        MIN_TIME <= window_start <= MAX_TIME - 60 * WINDOW,
    ensures
        r == (if window_start * NANOS <= now <= (window_start + 60 * WINDOW) * NANOS {
            Some(whole_minutes(now - window_start * NANOS) as i64)
        } else {
            None
        }),
{
    let from: i128 = window_start as i128 * NANOS;
    if now >= from && now <= (window_start + 60 * WINDOW) as i128 * NANOS {
        Some(minutes(now - from))
    } else {
        None
    }
}

/// The marks of the ruler: one at each step of the window, with its time.
pub fn ruler_marks(window_start: i64) -> (r: Vec<(i64, i64)>)
    requires
        MIN_TIME <= window_start <= MAX_TIME - 60 * WINDOW,
    ensures
        r@ == Seq::new(
            4,
            |i: int| ((30 * i) as i64, (window_start + 1800 * i) as i64),
        ),
{
    let mut r: Vec<(i64, i64)> = Vec::new();
    let mut at: i64 = 0;
    while at < WINDOW
        invariant
            MIN_TIME <= window_start <= MAX_TIME - 60 * WINDOW,
            at == 30 * r@.len(),
            r@.len() <= 4,
            forall|i: int|
                0 <= i < r@.len() ==> #[trigger] r@[i] == (
                    (30 * i) as i64,
                    (window_start + 1800 * i) as i64,
                ),
        decreases WINDOW - at,
    {
        r.push((at, window_start + 60 * at));
        at += SCROLL_STEP;
    }
    assert(r@ =~= Seq::new(
        4,
        |i: int| ((30 * i) as i64, (window_start + 1800 * i) as i64),
    ));
    r
}

// ---------------------------------------------------------------------------
// Laws of navigation
// ---------------------------------------------------------------------------

/// The cursor stays within the rows, the tabs and the programmes that there are.
pub proof fn cursor_stays_in_bounds(
    c: Cursor,
    input: NavInput,
    rows: int,
    tabs: int,
    programmes: int,
)
    requires
        0 <= c.row,
        c.row < rows || c.row == 0,
        0 <= c.tab < tabs,
        0 <= c.programme,
        c.programme < programmes || c.programme == 0,
    ensures
        0 <= moved(c, input, rows, tabs, programmes).row,
        moved(c, input, rows, tabs, programmes).row < rows || moved(
            c,
            input,
            rows,
            tabs,
            programmes,
        ).row == 0,
        0 <= moved(c, input, rows, tabs, programmes).tab < tabs,
        0 <= moved(c, input, rows, tabs, programmes).programme,
        moved(c, input, rows, tabs, programmes).programme < programmes || moved(
            c,
            input,
            rows,
            tabs,
            programmes,
        ).programme == 0,
{
}

/// The list follows wherever the row has changed, whichever keys are pressed together.
pub proof fn list_follows_the_row(
    c: Cursor,
    input: NavInput,
    rows: int,
    tabs: int,
    programmes: int,
)
    ensures
        moved(c, input, rows, tabs, programmes).row != c.row ==> moved(
            c,
            input,
            rows,
            tabs,
            programmes,
        ).scroll_pending,
{
}

/// The window moves by one step at most, and not at all while the tabs have the focus.
pub proof fn window_moves_by_a_step(
    c: Cursor,
    input: NavInput,
    rows: int,
    tabs: int,
    programmes: int,
)
    ensures
        ({
            let by = moved(c, input, rows, tabs, programmes).window_start - c.window_start;
            &&& by == 0 || by == 60 * SCROLL_STEP || by == -60 * SCROLL_STEP
            &&& c.layer is FilterTabs ==> by == 0
            &&& by > 0 ==> input.right
            &&& by < 0 ==> input.left
        }),
{
}

/// Down undoes up, and up undoes down, as far as the row is concerned.
pub proof fn rows_are_walked_both_ways(c: Cursor, rows: int)
    requires
        0 <= c.row < rows,
    ensures
        c.row > 0 ==> moved_down(moved_up(c), rows).row == c.row,
        c.row + 1 < rows ==> moved_up(moved_down(c, rows)).row == c.row,
        c.row + 1 >= rows ==> moved_down(c, rows) == c,
{
}

/// Right and left undo each other: among the programmes of a row, and beyond the first
/// one, where the window moves there and back.
pub proof fn programmes_are_walked_both_ways(c: Cursor, programmes: int)
    requires
        0 <= c.programme,
    ensures
        c.programme + 1 < programmes ==> moved_left(moved_right(c, programmes)) == c,
        0 < c.programme < programmes ==> moved_right(moved_left(c), programmes) == c,
        programmes <= 1 && c.programme == 0 ==> moved_right(moved_left(c), programmes) == c,
{
}

/// A row that is reached anew starts at its first programme, and the list follows.
pub proof fn new_row_starts_at_its_first_programme(c: Cursor, up: bool, rows: int)
    requires
        0 <= c.row,
        (if up { moved_up(c) } else { moved_down(c, rows) }).row != c.row,
    ensures
        (if up { moved_up(c) } else { moved_down(c, rows) }).programme == 0,
        (if up { moved_up(c) } else { moved_down(c, rows) }).scroll_pending,
{
}

/// Which row the enter key tunes to does not depend on the programme in focus, nor on the
/// window.
pub proof fn enter_tunes_to_the_row(
    c: Cursor,
    other: Cursor,
    input: NavInput,
    rows: int,
    tabs: int,
    programmes: int,
    others: int,
)
    requires
        other == (Cursor {
            programme: other.programme,
            window_start: other.window_start,
            ..c
        }),
    ensures
        moved(c, input, rows, tabs, programmes).row == moved(other, input, rows, tabs, others).row,
        moved(c, input, rows, tabs, programmes).layer == moved(
            other,
            input,
            rows,
            tabs,
            others,
        ).layer,
{
}

/// The tabs are left only by the down key, and reached only by the up key on the first row.
pub proof fn layer_changes(c: Cursor, input: NavInput, rows: int, tabs: int, programmes: int)
    requires
        0 <= c.row,
    ensures
        (moved(c, input, rows, tabs, programmes).layer != c.layer) == (match c.layer {
            FocusLayer::FilterTabs => input.down,
            FocusLayer::Rows => input.up && c.row == 0,
        }),
{
}

/// The window starts on a half hour, and keeps doing so.
pub proof fn window_starts_on_a_half_hour(
    c: Cursor,
    input: NavInput,
    rows: int,
    tabs: int,
    programmes: int,
)
    requires
        c.window_start % 1800 == 0,
    ensures
        moved(c, input, rows, tabs, programmes).window_start % 1800 == 0,
{
}

} // verus!
