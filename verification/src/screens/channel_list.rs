//! The grid of channels, with a filter and a search.

use crate::channel;
use crate::channel::{sort_by_number, Channel, ChannelView};
use crate::guide::{CategoryFilter, NavInput};
use crate::text;
use crate::text::{chars_of, find_chars, push_number, push_text, text_of};
use vstd::prelude::*;

verus! {

/// What the arrow keys move within.
#[derive(Debug, Clone, Copy, PartialEq, Eq, Structural)]
pub enum GridLayer {
    FilterTabs,
    Grid,
}

/// The channels, which of them are shown, and where the focus is.
#[derive(Debug)]
pub struct ChannelListScreen {
    pub channels: Vec<Channel>,
    pub filter: CategoryFilter,
    pub search: String,
    pub show_locked: bool,
    pub focus_layer: GridLayer,
    pub filter_focus_idx: usize,
    pub focused_row: usize,
    pub focused_col: usize,
}

/// What the screen asks for.
#[derive(Debug)]
pub enum ChannelListAction {
    Nothing,
    SelectChannel(Box<Channel>),
    /// Switch operator: back to the setup screen.
    ChangeProvider,
}

// ---------------------------------------------------------------------------
// Search
// ---------------------------------------------------------------------------

/// A text in lower case.
pub uninterp spec fn lowercase(s: Seq<char>) -> Seq<char>;

/// `str::to_lowercase` gives a text in lower case, by the rules of Unicode: the same for the
/// same text.
#[verifier::external_body]
fn to_lowercase(s: &str) -> (r: String)
    ensures
        r@ == lowercase(s@),
{
    s.to_lowercase()
}

/// Whether a channel with this name in lower case, and this number, is found by a search
/// in lower case.
pub open spec fn found(name: Seq<char>, number: Option<u32>, search: Seq<char>) -> bool {
    ||| search.len() == 0
    ||| text::contains(name, search)
    ||| number is Some && text::contains(text::decimal(number->0 as nat), search)
}

/// Whether a channel with this name in lower case, and this number, is found by a search
/// in lower case.
pub fn is_found(name: &str, number: Option<u32>, search: &str) -> (r: bool)
    ensures
        r == found(name@, number, search@),
{
    let wanted = chars_of(search);
    if wanted.len() == 0 {
        return true;
    }
    let all = chars_of(name);
    proof {
        text::found_iff_contained(name@, search@);
    }
    if find_chars(all.as_slice(), wanted.as_slice()).is_some() {
        return true;
    }
    match number {
        None => false,
        Some(n) => {
            let mut digits: Vec<char> = Vec::new();
            push_number(&mut digits, n as u64);
            proof {
                assert(digits@ =~= text::decimal(n as nat));
                text::found_iff_contained(digits@, search@);
            }
            find_chars(digits.as_slice(), wanted.as_slice()).is_some()
        },
    }
}

/// A channel is found by every part of its name, and by every part of its number.
pub proof fn every_part_finds(
    name: Seq<char>,
    number: Option<u32>,
    a: Seq<char>,
    b: Seq<char>,
    c: Seq<char>,
)
    requires
        name == a + b + c || number is Some && text::decimal(number->0 as nat) == a + b + c,
    ensures
        found(name, number, b),
{
    let n = a.len() as int;
    assert((a + b + c).subrange(n, n + b.len()) =~= b);
    assert(text::occurs_at(a + b + c, b, n));
}

/// A channel that is found has the search as a part of its name or of its number.
pub proof fn only_parts_find(name: Seq<char>, number: Option<u32>, search: Seq<char>) -> (r: (
    Seq<char>,
    Seq<char>,
))
    requires
        found(name, number, search),
    ensures
        name == r.0 + search + r.1 || number is Some && text::decimal(number->0 as nat) == r.0
            + search + r.1,
{
    let whole = if search.len() == 0 || text::contains(name, search) {
        name
    } else {
        text::decimal(number->0 as nat)
    };
    let p = if search.len() == 0 {
        0
    } else {
        choose|p: int| text::occurs_at(whole, search, p)
    };
    assert(whole.subrange(p, p + search.len()) =~= search);
    assert(whole =~= whole.take(p) + search + whole.skip(p + search.len()));
    (whole.take(p), whole.skip(p + search.len()))
}

/// Whether a channel is shown.
pub open spec fn is_shown(
    c: Channel,
    show_locked: bool,
    category: Option<Seq<char>>,
    search: Seq<char>,
) -> bool {
    &&& category is None || category == Some(c.category@)
    &&& found(lowercase(c.name@), c.number, lowercase(search))
    &&& show_locked || !c.locked
}

/// The channels shown.
pub open spec fn shown(
    channels: Seq<Channel>,
    show_locked: bool,
    category: Option<Seq<char>>,
    search: Seq<char>,
) -> Seq<Channel> {
    channels.filter(|c: Channel| is_shown(c, show_locked, category, search))
}

// ---------------------------------------------------------------------------
// The grid
// ---------------------------------------------------------------------------

/// How many rows a grid of `count` tiles has: at least one.
pub open spec fn row_count(count: int, cols: int) -> int {
    if count == 0 {
        1
    } else {
        (count + cols - 1) / cols
    }
}

/// How many tiles a row has.
pub open spec fn tiles_in_row(count: int, cols: int, row: int) -> int {
    let left = count - row * cols;
    if left <= 0 {
        0
    } else if left < cols {
        left
    } else {
        cols
    }
}

/// Where the focus is.
pub struct GridCursor {
    pub layer: GridLayer,
    pub tab: int,
    pub row: int,
    pub col: int,
}

/// The grid under the keys: up, down, left, right, one after the other. From the first row
/// the focus goes up to the tabs.
pub open spec fn grid_moved(c: GridCursor, input: NavInput, count: int, cols: int) -> GridCursor {
    let c = if !input.up {
        c
    } else if c.row == 0 {
        GridCursor { layer: GridLayer::FilterTabs, ..c }
    } else {
        GridCursor { row: c.row - 1, ..c }
    };
    let c = if input.down && c.row + 1 < row_count(count, cols) {
        GridCursor { row: c.row + 1, ..c }
    } else {
        c
    };
    let c = if input.left && c.col > 0 {
        GridCursor { col: c.col - 1, ..c }
    } else {
        c
    };
    if input.right && c.col + 1 < tiles_in_row(count, cols, c.row) {
        GridCursor { col: c.col + 1, ..c }
    } else {
        c
    }
}

/// The tabs under the keys: left, right, and down to the first tile.
pub open spec fn tabs_moved(c: GridCursor, input: NavInput, tabs: int) -> GridCursor {
    let tab = if input.left && c.tab > 0 {
        c.tab - 1
    } else {
        c.tab
    };
    let tab = if input.right && tab + 1 < tabs {
        tab + 1
    } else {
        tab
    };
    if input.down {
        GridCursor { layer: GridLayer::Grid, tab, row: 0, col: 0 }
    } else {
        GridCursor { tab, ..c }
    }
}

/// The nearest tile that a grid has.
pub open spec fn clamped(c: GridCursor, count: int, cols: int) -> GridCursor {
    let last = row_count(count, cols) - 1;
    let row = if c.row < last {
        c.row
    } else {
        last
    };
    let tiles = tiles_in_row(count, cols, row);
    let end = if tiles == 0 {
        0
    } else {
        tiles - 1
    };
    GridCursor {
        row,
        col: if c.col < end {
            c.col
        } else {
            end
        },
        ..c
    }
}

/// How many rows a grid has.
fn rows_of(count: usize, cols: usize) -> (r: usize)
    requires
        cols > 0,
    ensures
        r == row_count(count as int, cols as int),
        r > 0,
{
    if count == 0 {
        return 1;
    }
    proof {
        let n = count as int;
        let c = cols as int;
        assert((n + c - 1) / c == (n - 1) / c + 1) by (nonlinear_arith)
            requires
                c > 0,
        ;
        assert(0 <= (n - 1) / c <= n - 1) by (nonlinear_arith)
            requires
                c > 0,
                n >= 1,
        ;
    }
    (count - 1) / cols + 1
}

/// How many tiles a row has.
fn tiles_of(count: usize, cols: usize, row: usize) -> (r: usize)
    requires
        cols > 0,
    ensures
        r == tiles_in_row(count as int, cols as int, row as int),
{
    let start: u128 = first_tile(cols, row);
    let all: u128 = count as u128;
    if start >= all {
        0
    } else if all - start < cols as u128 {
        (all - start) as usize
    } else {
        cols
    }
}

/// The first tile of a row.
fn first_tile(cols: usize, row: usize) -> (r: u128)
    ensures
        r == row * cols,
        r <= 0xffff_ffff_ffff_fffe_0000_0000_0000_0001,
{
    assert(row * cols <= 0xffff_ffff_ffff_fffe_0000_0000_0000_0001) by (nonlinear_arith)
        requires
            row <= 0xffff_ffff_ffff_ffff,
            cols <= 0xffff_ffff_ffff_ffff,
    ;
    assert(row * cols >= 0) by (nonlinear_arith);
    row as u128 * cols as u128
}

impl ChannelListScreen {
    /// Where the focus is.
    pub open spec fn cursor(&self) -> GridCursor {
        GridCursor {
            layer: self.focus_layer,
            tab: self.filter_focus_idx as int,
            row: self.focused_row as int,
            col: self.focused_col as int,
        }
    }

    /// The channels shown.
    pub open spec fn tiles(&self) -> Seq<Channel> {
        shown(self.channels@, self.show_locked, self.filter@, self.search@)
    }

    /// Whether the screen lists channels as it does at first.
    pub open spec fn is_fresh(&self, channels: Seq<ChannelView>) -> bool {
        &&& channel::listed(channels, channel::views(self.channels@))
        &&& self.filter@ is None
        &&& self.search@ == Seq::<char>::empty()
        &&& !self.show_locked
        &&& self.cursor() == (GridCursor { layer: GridLayer::Grid, tab: 0, row: 0, col: 0 })
    }

    /// All channels that are not locked, by number.
    pub fn new(channels: Vec<Channel>) -> (r: Self)
        ensures
            r.is_fresh(channel::views(channels@)),
    {
        ChannelListScreen {
            channels: sort_by_number(channels),
            filter: CategoryFilter::All,
            search: String::new(),
            show_locked: false,
            focus_layer: GridLayer::Grid,
            filter_focus_idx: 0,
            focused_row: 0,
            focused_col: 0,
        }
    }

    /// The channels shown.
    pub fn visible_channels(&self) -> (r: Vec<Channel>)
        ensures
            channel::views(r@) == channel::views(self.tiles()),
            r@.len() == self.tiles().len(),
    {
        let wanted = to_lowercase(self.search.as_str());
        let mut r: Vec<Channel> = Vec::new();
        let mut i: usize = 0;
        let ghost p = |c: Channel| is_shown(c, self.show_locked, self.filter@, self.search@);
        assert(self.channels@.take(0) =~= Seq::<Channel>::empty());
        assert(self.channels@.take(0).filter(p) =~= Seq::<Channel>::empty()) by {
            reveal(Seq::filter);
        }
        assert(channel::views(r@) =~= channel::views(self.channels@.take(0).filter(p)));
        while i < self.channels.len()
            invariant
                i <= self.channels@.len(),
                wanted@ == lowercase(self.search@),
                p == (|c: Channel| is_shown(c, self.show_locked, self.filter@, self.search@)),
                channel::views(r@) == channel::views(self.channels@.take(i as int).filter(p)),
            decreases self.channels@.len() - i,
        {
            let c: &Channel = &self.channels[i];
            let ghost before = r@;
            let ghost kept = self.channels@.take(i as int).filter(p);
            let name = to_lowercase(c.name.as_str());
            if self.filter.admits(c.category.as_str()) && is_found(
                name.as_str(),
                c.number,
                wanted.as_str(),
            ) && (self.show_locked || !c.locked) {
                r.push(c.clone());
                proof {
                    assert(channel::views(r@) =~= channel::views(before).push(c@));
                    assert(channel::views(kept.push(*c)) =~= channel::views(kept).push(c@));
                }
            }
            proof {
                let next = self.channels@.take(i + 1);
                assert(next.drop_last() =~= self.channels@.take(i as int));
                assert(next.last() == *c);
                reveal(Seq::filter);
            }
            i += 1;
        }
        proof {
            assert(self.channels@.take(i as int) =~= self.channels@);
            assert(channel::views(r@).len() == channel::views(self.tiles()).len());
        }
        r
    }

    /// One step of the tabs under the keys. The enter key applies the filter of the tab in
    /// focus, and moves the focus of the grid, of `cols` columns, to a tile that there is.
    /// Nothing happens while the grid has the focus.
    pub fn nav_tabs(
        &mut self,
        input: NavInput,
        labels: &Vec<(String, Option<String>)>,
        cols: usize,
    )
        requires
            cols > 0,
            old(self).filter_focus_idx < labels@.len(),
        ensures
            final(self).filter_focus_idx < labels@.len(),
            ({
                let moved = tabs_moved(old(self).cursor(), input, labels@.len() as int);
                if old(self).focus_layer is Grid {
                    *final(self) == *old(self)
                } else if input.enter {
                    &&& final(self).filter@ == text::opt_text(labels@[moved.tab].1)
                    &&& final(self).cursor() == clamped(
                        moved,
                        final(self).tiles().len() as int,
                        cols as int,
                    )
                } else {
                    &&& final(self).filter == old(self).filter
                    &&& final(self).cursor() == moved
                }
            }),
            *final(self) == (ChannelListScreen {
                filter: final(self).filter,
                focus_layer: final(self).focus_layer,
                filter_focus_idx: final(self).filter_focus_idx,
                focused_row: final(self).focused_row,
                focused_col: final(self).focused_col,
                ..*old(self)
            }),
    {
        match self.focus_layer {
            GridLayer::Grid => {
                return;
            },
            GridLayer::FilterTabs => {},
        }
        if input.left && self.filter_focus_idx > 0 {
            self.filter_focus_idx -= 1;
        }
        if input.right && self.filter_focus_idx < labels.len() - 1 {
            self.filter_focus_idx += 1;
        }
        if input.down {
            self.focus_layer = GridLayer::Grid;
            self.focused_row = 0;
            self.focused_col = 0;
        }
        if input.enter {
            self.filter = CategoryFilter::of_tab(&labels[self.filter_focus_idx].1);
            let count: usize = self.visible_channels().len();
            let last: usize = rows_of(count, cols) - 1;
            if self.focused_row > last {
                self.focused_row = last;
            }
            let tiles: usize = tiles_of(count, cols, self.focused_row);
            let end: usize = if tiles == 0 {
                0
            } else {
                tiles - 1
            };
            if self.focused_col > end {
                self.focused_col = end;
            }
        }
    }

    /// One step of the grid, of `cols` columns, under the keys, where the grid had the focus
    /// when the step began. The enter key selects the tile in focus, unless its channel is
    /// locked.
    pub fn nav_grid(&mut self, input: NavInput, cols: usize) -> (r: ChannelListAction)
        requires
            cols > 0,
        ensures
            final(self).cursor() == grid_moved(
                old(self).cursor(),
                input,
                old(self).tiles().len() as int,
                cols as int,
            ),
            *final(self) == (ChannelListScreen {
                focus_layer: final(self).focus_layer,
                focused_row: final(self).focused_row,
                focused_col: final(self).focused_col,
                ..*old(self)
            }),
            ({
                let at = final(self).focused_row * cols + final(self).focused_col;
                let tiles = old(self).tiles();
                match r {
                    ChannelListAction::SelectChannel(c) => {
                        &&& input.enter
                        &&& at < tiles.len()
                        &&& c@ == tiles[at]@
                        &&& !c.locked
                    },
                    ChannelListAction::Nothing => {
                        ||| !input.enter
                        ||| at >= tiles.len()
                        ||| tiles[at].locked
                    },
                    ChannelListAction::ChangeProvider => false,
                }
            }),
    {
        let visible = self.visible_channels();
        let rows: usize = rows_of(visible.len(), cols);
        if input.up {
            if self.focused_row == 0 {
                self.focus_layer = GridLayer::FilterTabs;
            } else {
                self.focused_row -= 1;
            }
        }
        if input.down && self.focused_row < rows - 1 {
            self.focused_row += 1;
        }
        if input.left && self.focused_col > 0 {
            self.focused_col -= 1;
        }
        if input.right {
            let tiles: usize = tiles_of(visible.len(), cols, self.focused_row);
            if tiles > 0 && self.focused_col < tiles - 1 {
                self.focused_col += 1;
            }
        }
        if input.enter {
            let at: u128 = first_tile(cols, self.focused_row) + self.focused_col as u128;
            if at < visible.len() as u128 {
                let c: &Channel = &visible[at as usize];
                proof {
                    let tiles = old(self).tiles();
                    assert(channel::views(visible@)[at as int] == channel::views(tiles)[at as int]);
                    assert(c@ == tiles[at as int]@);
                }
                if !c.locked {
                    return ChannelListAction::SelectChannel(Box::new(c.clone()));
                }
            }
        }
        ChannelListAction::Nothing
    }

    /// A tab is pressed: its filter applies, and it has the focus.
    pub fn click_tab(&mut self, idx: usize, category: &Option<String>)
        ensures
            final(self).filter@ == text::opt_text(*category),
            *final(self) == (ChannelListScreen {
                filter: final(self).filter,
                focus_layer: GridLayer::FilterTabs,
                filter_focus_idx: idx,
                ..*old(self)
            }),
    {
        self.filter = CategoryFilter::of_tab(category);
        self.focus_layer = GridLayer::FilterTabs;
        self.filter_focus_idx = idx;
    }

    /// A tile, the `i`-th of a grid of `cols` columns, is pressed: it has the focus, and its
    /// channel is selected, unless it is locked.
    pub fn click_tile(&mut self, i: usize, channel: &Channel, cols: usize) -> (r:
        ChannelListAction)
        requires
            cols > 0,
        ensures
            match r {
                ChannelListAction::SelectChannel(c) => {
                    &&& !channel.locked
                    &&& c@ == channel@
                    &&& *final(self) == (ChannelListScreen {
                        focus_layer: GridLayer::Grid,
                        focused_row: (i as int / cols as int) as usize,
                        focused_col: (i as int % cols as int) as usize,
                        ..*old(self)
                    })
                },
                ChannelListAction::Nothing => channel.locked && *final(self) == *old(self),
                ChannelListAction::ChangeProvider => false,
            },
    {
        if channel.locked {
            return ChannelListAction::Nothing;
        }
        self.focus_layer = GridLayer::Grid;
        self.focused_row = i / cols;
        self.focused_col = i % cols;
        ChannelListAction::SelectChannel(Box::new(channel.clone()))
    }

    /// Shows the locked channels, or hides them again.
    pub fn toggle_locked(&mut self)
        ensures
            *final(self) == (ChannelListScreen {
                show_locked: !old(self).show_locked,
                ..*old(self)
            }),
    {
        self.show_locked = !self.show_locked;
    }

    /// How many channels are locked.
    pub fn locked_count(&self) -> (n: usize)
        ensures
            n == self.channels@.filter(|c: Channel| c.locked).len(),
    {
        let mut n: usize = 0;
        let mut i: usize = 0;
        let ghost p = |c: Channel| c.locked;
        assert(self.channels@.take(0) =~= Seq::<Channel>::empty());
        assert(self.channels@.take(0).filter(p).len() == 0) by {
            reveal(Seq::filter);
        }
        while i < self.channels.len()
            invariant
                i <= self.channels@.len(),
                n <= i,
                p == (|c: Channel| c.locked),
                n == self.channels@.take(i as int).filter(p).len(),
            decreases self.channels@.len() - i,
        {
            proof {
                let next = self.channels@.take(i + 1);
                assert(next.drop_last() =~= self.channels@.take(i as int));
                assert(next.last() == self.channels@[i as int]);
                reveal(Seq::filter);
            }
            if self.channels[i].locked {
                n += 1;
            }
            i += 1;
        }
        assert(self.channels@.take(i as int) =~= self.channels@);
        n
    }
}

// ---------------------------------------------------------------------------
// The screen as a whole
// ---------------------------------------------------------------------------

/// What happened on the screen since the last step.
#[derive(Debug)]
pub struct ListEvents {
    /// The keys pressed, unless they are a widget's.
    pub keys: Option<NavInput>,
    /// How many columns fit into the window.
    pub window_cols: usize,
    /// How many columns the grid has.
    pub grid_cols: usize,
    /// Another operator is asked for.
    pub change_provider: bool,
    /// The locked channels are to be shown, or hidden again.
    pub toggle_locked: bool,
    /// The tab pressed.
    pub tab: Option<usize>,
    /// The tile pressed, and its channel.
    pub tile: Option<(usize, Channel)>,
}

/// What is known of a `ChannelListScreen`.
pub struct ListView {
    pub channels: Seq<Channel>,
    pub search: Seq<char>,
    pub filter: Option<Seq<char>>,
    pub show_locked: bool,
    pub cursor: GridCursor,
}

impl ListView {
    /// The channels shown.
    pub open spec fn tiles(self) -> Seq<Channel> {
        shown(self.channels, self.show_locked, self.filter, self.search)
    }
}

impl View for ChannelListScreen {
    type V = ListView;

    open spec fn view(&self) -> ListView {
        ListView {
            channels: self.channels@,
            search: self.search@,
            filter: self.filter@,
            show_locked: self.show_locked,
            cursor: self.cursor(),
        }
    }
}

/// What a `ChannelListAction` asks for.
pub enum ListActionView {
    Nothing,
    SelectChannel(ChannelView),
    ChangeProvider,
}

impl View for ChannelListAction {
    type V = ListActionView;

    open spec fn view(&self) -> ListActionView {
        match self {
            ChannelListAction::Nothing => ListActionView::Nothing,
            ChannelListAction::SelectChannel(c) => ListActionView::SelectChannel(c@),
            ChannelListAction::ChangeProvider => ListActionView::ChangeProvider,
        }
    }
}

/// The screen after keys for the tabs.
pub open spec fn tabs_keyed(
    v: ListView,
    input: NavInput,
    labels: Seq<(String, Option<String>)>,
    cols: int,
) -> ListView {
    let moved = tabs_moved(v.cursor, input, labels.len() as int);
    if input.enter {
        let filtered = ListView { filter: text::opt_text(labels[moved.tab].1), ..v };
        ListView { cursor: clamped(moved, filtered.tiles().len() as int, cols), ..filtered }
    } else {
        ListView { cursor: moved, ..v }
    }
}

/// The screen after keys for the grid.
pub open spec fn grid_keyed(v: ListView, input: NavInput, cols: int) -> ListView {
    ListView { cursor: grid_moved(v.cursor, input, v.tiles().len() as int, cols), ..v }
}

/// What the enter key selects in the grid.
pub open spec fn grid_choice(v: ListView, input: NavInput, cols: int) -> ListActionView {
    let at = v.cursor.row * cols + v.cursor.col;
    if input.enter && at < v.tiles().len() && !v.tiles()[at].locked {
        ListActionView::SelectChannel(v.tiles()[at]@)
    } else {
        ListActionView::Nothing
    }
}

/// The screen after a step, and what it asks for: keys for the tabs, then what was pressed
/// above the grid, then keys for the grid, then a tile that was pressed. Keys act on the
/// layer that had the focus when the step began, and on no other.
pub open spec fn list_stepped(
    v: ListView,
    e: ListEvents,
    labels: Seq<(String, Option<String>)>,
) -> (ListView, ListActionView) {
    let in_grid = v.cursor.layer is Grid;
    let v = match e.keys {
        Some(k) if !in_grid => tabs_keyed(v, k, labels, e.window_cols as int),
        _ => v,
    };
    let v = ListView { show_locked: v.show_locked != e.toggle_locked, ..v };
    let v = match e.tab {
        Some(i) => ListView {
            filter: text::opt_text(labels[i as int].1),
            cursor: GridCursor { layer: GridLayer::FilterTabs, tab: i as int, ..v.cursor },
            ..v
        },
        None => v,
    };
    let asked = if e.change_provider {
        ListActionView::ChangeProvider
    } else {
        ListActionView::Nothing
    };
    let (v, asked) = match e.keys {
        Some(k) if in_grid => {
            let w = grid_keyed(v, k, e.grid_cols as int);
            let chosen = grid_choice(w, k, e.grid_cols as int);
            (w, if chosen is Nothing { asked } else { chosen })
        },
        _ => (v, asked),
    };
    match e.tile {
        Some((i, c)) if !c.locked => (
            ListView {
                cursor: GridCursor {
                    layer: GridLayer::Grid,
                    row: i as int / e.grid_cols as int,
                    col: i as int % e.grid_cols as int,
                    ..v.cursor
                },
                ..v
            },
            ListActionView::SelectChannel(c@),
        ),
        _ => (v, asked),
    }
}

impl ChannelListScreen {
    /// One step of the screen.
    pub fn show(&mut self, events: &ListEvents, labels: &Vec<(String, Option<String>)>) -> (r:
        ChannelListAction)
        requires
            events.window_cols > 0,
            events.grid_cols > 0,
            old(self).filter_focus_idx < labels@.len(),
            events.tab matches Some(i) ==> i < labels@.len(),
        ensures
            final(self).filter_focus_idx < labels@.len(),
            (final(self)@, r@) == list_stepped(old(self)@, *events, labels@),
            *final(self) == (ChannelListScreen {
                filter: final(self).filter,
                show_locked: final(self).show_locked,
                focus_layer: final(self).focus_layer,
                filter_focus_idx: final(self).filter_focus_idx,
                focused_row: final(self).focused_row,
                focused_col: final(self).focused_col,
                ..*old(self)
            }),
    {
        let in_grid = self.focus_layer == GridLayer::Grid;
        match events.keys {
            Some(input) => self.nav_tabs(input, labels, events.window_cols),
            None => {},
        }
        if events.toggle_locked {
            self.toggle_locked();
        }
        match events.tab {
            Some(i) => self.click_tab(i, &labels[i].1),
            None => {},
        }
        let mut action = if events.change_provider {
            ChannelListAction::ChangeProvider
        } else {
            ChannelListAction::Nothing
        };
        if in_grid {
            match events.keys {
                Some(input) => match self.nav_grid(input, events.grid_cols) {
                    ChannelListAction::SelectChannel(c) => {
                        action = ChannelListAction::SelectChannel(c);
                    },
                    _ => {},
                },
                None => {},
            }
        }
        match &events.tile {
            Some((i, channel)) => match self.click_tile(*i, channel, events.grid_cols) {
                ChannelListAction::SelectChannel(c) => {
                    action = ChannelListAction::SelectChannel(c);
                },
                _ => {},
            },
            None => {},
        }
        action
    }
}

// ---------------------------------------------------------------------------
// Texts
// ---------------------------------------------------------------------------

/// What is written on the button for locked channels.
pub fn locked_label(show_locked: bool, count: usize, icon: &str) -> (r: String)
    ensures
        r@ == icon@ + (if show_locked { "  Masquer ("@ } else { "  Afficher ("@ })
            + text::decimal(count as nat) + " canal(s))"@,
{
    let mut out: Vec<char> = chars_of(icon);
    if show_locked {
        push_text(&mut out, "  Masquer (");
    } else {
        push_text(&mut out, "  Afficher (");
    }
    push_number(&mut out, count as u64);
    push_text(&mut out, " canal(s))");
    text_of(out.as_slice())
}

/// What is written under a tile: the number, the name, and an icon where the channel is
/// locked.
pub open spec fn tile_text(
    number: Option<u32>,
    name: Seq<char>,
    locked: bool,
    icon: Seq<char>,
) -> Seq<char> {
    let front = match number {
        Some(n) => text::decimal(n as nat) + " · "@ + name,
        None => name,
    };
    if locked {
        front + "  "@ + icon
    } else {
        front
    }
}

/// What is written under a tile.
pub fn tile_label(channel: &Channel, icon: &str) -> (r: String)
    ensures
        r@ == tile_text(channel@.number, channel@.name, channel@.locked, icon@),
{
    let mut out: Vec<char> = Vec::new();
    match channel.number {
        Some(n) => {
            push_number(&mut out, n as u64);
            push_text(&mut out, " · ");
            push_text(&mut out, channel.name.as_str());
            assert(out@ =~= text::decimal(n as nat) + " · "@ + channel@.name);
        },
        None => {
            push_text(&mut out, channel.name.as_str());
            assert(out@ =~= channel@.name);
        },
    }
    if channel.locked {
        push_text(&mut out, "  ");
        push_text(&mut out, icon);
    }
    text_of(out.as_slice())
}

/// What is shown where no channel is.
pub fn empty_message(search: &str) -> (r: String)
    ensures
        r@ == if search@.len() == 0 {
            "Aucune chaîne dans cette catégorie."@
        } else {
            "Aucun résultat pour « "@ + search@ + " »."@
        },
{
    if chars_of(search).len() == 0 {
        "Aucune chaîne dans cette catégorie.".to_owned()
    } else {
        let front = text::joined("Aucun résultat pour « ", search);
        text::joined(front.as_str(), " ».")
    }
}

// ---------------------------------------------------------------------------
// Laws
// ---------------------------------------------------------------------------

/// The focus stays within the rows that there are, whichever keys are pressed.
pub proof fn focus_stays_in_the_rows(c: GridCursor, input: NavInput, count: int, cols: int)
    requires
        count >= 0,
        cols > 0,
        0 <= c.row < row_count(count, cols),
        0 <= c.col < cols,
    ensures
        0 <= grid_moved(c, input, count, cols).row < row_count(count, cols),
        0 <= grid_moved(c, input, count, cols).col < cols,
{
}

/// After a filter is applied, the focus is on a tile if there is one.
pub proof fn filter_leaves_the_focus_on_a_tile(c: GridCursor, count: int, cols: int)
    requires
        count > 0,
        cols > 0,
        0 <= c.row,
        0 <= c.col,
    ensures
        0 <= clamped(c, count, cols).row * cols + clamped(c, count, cols).col < count,
        clamped(c, count, cols).col < cols,
{
    let row = clamped(c, count, cols).row;
    let last = row_count(count, cols) - 1;
    assert(last * cols < count && last >= 0) by (nonlinear_arith)
        requires
            last == (count + cols - 1) / cols - 1,
            count > 0,
            cols > 0,
    ;
    assert(0 <= row * cols <= last * cols) by (nonlinear_arith)
        requires
            0 <= row <= last,
            cols > 0,
    ;
}

/// Up from the first row reaches the tabs even where no tile is shown, and down leads back
/// to the first tile.
pub proof fn tabs_are_reached_from_an_empty_grid(c: GridCursor, cols: int, tabs: int)
    requires
        cols > 0,
        c.layer is Grid,
        c.row == 0,
    ensures
        ({
            let up = NavInput { left: false, right: false, up: true, down: false, enter: false };
            let down = NavInput { left: false, right: false, up: false, down: true, enter: false };
            let above = grid_moved(c, up, 0, cols);
            &&& above.layer is FilterTabs
            &&& tabs_moved(above, down, tabs) == (GridCursor {
                layer: GridLayer::Grid,
                tab: c.tab,
                row: 0,
                col: 0,
            })
        }),
{
}

/// A key moves one layer: keys for the tabs select no channel, and keys for the grid change
/// neither the filter nor the tab in focus.
pub proof fn keys_move_one_layer(
    v: ListView,
    e: ListEvents,
    labels: Seq<(String, Option<String>)>,
)
    requires
        e.keys is Some,
        e.tab is None,
        e.tile is None,
    ensures
        v.cursor.layer is FilterTabs ==> !(list_stepped(v, e, labels).1 is SelectChannel),
        v.cursor.layer is Grid ==> {
            let after = list_stepped(v, e, labels).0;
            after.filter == v.filter && after.cursor.tab == v.cursor.tab
        },
{
}

/// A locked channel is never selected, by a key or by pressing its tile.
pub proof fn locked_channels_are_not_selected(
    v: ListView,
    e: ListEvents,
    labels: Seq<(String, Option<String>)>,
)
    ensures
        list_stepped(v, e, labels).1 matches ListActionView::SelectChannel(c) ==> !c.locked,
{
}

} // verus!
