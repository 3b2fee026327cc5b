//! What the screens list and how the focus moves on them, and what follows from messages.

use crate::app;
use crate::app::{App, AppMsg, EffectView, Screen};
use crate::auth;
use crate::capture_flow;
use crate::capture_flow::{CaptureActionView, CaptureEvent, CaptureStream, FlowView};
use crate::channel;
use crate::channel::{Channel, ChannelView};
use crate::drm_startup;
use crate::drm_startup::{DrmActionView, DrmEvent, StartupView};
use crate::guide;
use crate::guide::{Cursor, FocusLayer, NavInput};
use crate::license;
use crate::player_control;
use crate::player_control::StepView;
use crate::preview::{EntryView, PreviewView};
use crate::preview_capture;
use crate::screens::channel_list;
use crate::screens::channel_list::{
    GridCursor, GridLayer, ListActionView, ListEvents, ListView,
};
use crate::screens::push_wait;
use crate::text;
use vstd::prelude::*;

verus! {

// ---------------------------------------------------------------------------
// Channels
// ---------------------------------------------------------------------------

/// Channels are listed by number, and those without one behind all others.
pub proof fn channels_are_listed_by_number(
    before: Seq<ChannelView>,
    after: Seq<ChannelView>,
    i: int,
    j: int,
)
    requires
        channel::listed(before, after),
        0 <= i < j < after.len(),
    ensures
        after[i].number is Some && after[j].number is Some ==> after[i].number->0
            <= after[j].number->0,
        after[i].number is None && after[j].number is Some ==> after[j].number->0 == u32::MAX,
{
    assert(channel::rank(after[i]) <= channel::rank(after[j]));
}

/// Listing neither loses a channel nor makes one up, and channels of one number keep their
/// order.
pub proof fn listing_keeps_every_channel(
    before: Seq<ChannelView>,
    after: Seq<ChannelView>,
    c: ChannelView,
)
    requires
        channel::listed(before, after),
    ensures
        before.contains(c) <==> after.contains(c),
        before.filter(|x: ChannelView| x.number == c.number) == after.filter(
            |x: ChannelView| x.number == c.number,
        ),
{
    let k = channel::rank(c);
    let p = |x: ChannelView| channel::rank(x) == k;
    assert(channel::of_rank(after, k) == channel::of_rank(before, k));
    if before.contains(c) {
        let i = choose|i: int| 0 <= i < before.len() && before[i] == c;
        before.lemma_filter_contains(p, i);
        assert(after.filter(p).contains(c));
        after.lemma_filter_contains_rev(p, c);
    }
    if after.contains(c) {
        let i = choose|i: int| 0 <= i < after.len() && after[i] == c;
        after.lemma_filter_contains(p, i);
        assert(before.filter(p).contains(c));
        before.lemma_filter_contains_rev(p, c);
    }
    let q = |x: ChannelView| x.number == c.number;
    filtered_twice(before, p, q);
    filtered_twice(after, p, q);
}

proof fn filtered_twice(
    s: Seq<ChannelView>,
    p: spec_fn(ChannelView) -> bool,
    q: spec_fn(ChannelView) -> bool,
)
    requires
        forall|x: ChannelView| #[trigger] q(x) ==> p(x),
    ensures
        s.filter(p).filter(q) == s.filter(q),
    decreases s.len(),
{
    reveal(Seq::filter);
    if s.len() > 0 {
        filtered_twice(s.drop_last(), p, q);
        let f = s.drop_last().filter(p);
        if p(s.last()) {
            assert(f.push(s.last()).drop_last() =~= f);
        } else {
            assert(!q(s.last()));
        }
    }
}

/// The first channel with an id is the one found.
pub proof fn first_channel_of_an_id_is_found(
    channels: Seq<ChannelView>,
    from: int,
    k: int,
)
    requires
        0 <= from <= k < channels.len(),
        forall|j: int| from <= j < k ==> (#[trigger] channels[j]).id != channels[k].id,
    ensures
        channel::position(channels, channels[k].id, from) == Some(k),
    decreases k - from,
{
    if from < k {
        assert(channels[from].id != channels[k].id);
        first_channel_of_an_id_is_found(channels, from + 1, k);
    }
}

/// A channel that is not there is not found.
pub proof fn unknown_channel_is_not_found(channels: Seq<ChannelView>, id: Seq<char>, from: int)
    requires
        0 <= from <= channels.len(),
        forall|j: int| from <= j < channels.len() ==> (#[trigger] channels[j]).id != id,
    ensures
        channel::position(channels, id, from) is None,
    decreases channels.len() - from,
{
    if from < channels.len() {
        assert(channels[from].id != id);
        unknown_channel_is_not_found(channels, id, from + 1);
    }
}

// ---------------------------------------------------------------------------
// The grid
// ---------------------------------------------------------------------------

/// The grid shows the channels of the category in force that are found by the search, and
/// locked ones only where they are asked for; no other, and each of these.
pub proof fn grid_shows_what_is_asked_for(
    channels: Seq<Channel>,
    show_locked: bool,
    category: Option<Seq<char>>,
    search: Seq<char>,
    c: Channel,
)
    ensures
        channel_list::shown(channels, show_locked, category, search).contains(c) <==> {
            &&& channels.contains(c)
            &&& c.locked ==> show_locked
            &&& category matches Some(k) ==> c.category@ == k
            &&& channel_list::found(
                channel_list::lowercase(c.name@),
                c.number,
                channel_list::lowercase(search),
            )
        },
{
    let p = |c: Channel| channel_list::is_shown(c, show_locked, category, search);
    let all = channel_list::shown(channels, show_locked, category, search);
    if all.contains(c) {
        channels.lemma_filter_contains_rev(p, c);
        let i = choose|i: int| 0 <= i < all.len() && all[i] == c;
        channels.lemma_filter_pred(p, i);
    }
    if channels.contains(c) && p(c) {
        let i = choose|i: int| 0 <= i < channels.len() && channels[i] == c;
        channels.lemma_filter_contains(p, i);
    }
}

/// The grid keeps the order of the channels.
pub proof fn grid_keeps_the_order(
    a: Seq<Channel>,
    b: Seq<Channel>,
    show_locked: bool,
    category: Option<Seq<char>>,
    search: Seq<char>,
)
    ensures
        channel_list::shown(a + b, show_locked, category, search) == channel_list::shown(
            a,
            show_locked,
            category,
            search,
        ) + channel_list::shown(b, show_locked, category, search),
{
    Seq::filter_distributes_over_add(
        a,
        b,
        |c: Channel| channel_list::is_shown(c, show_locked, category, search),
    );
}

/// Every tile stands in one row of the grid, and every place of a row holds one.
pub proof fn every_tile_has_its_place(count: int, cols: int, i: int, row: int, col: int)
    requires
        cols > 0,
        count >= 0,
    ensures
        0 <= i < count ==> {
            &&& 0 <= i / cols < channel_list::row_count(count, cols)
            &&& 0 <= i % cols < channel_list::tiles_in_row(count, cols, i / cols)
            &&& i / cols * cols + i % cols == i
        },
        0 <= row && 0 <= col < channel_list::tiles_in_row(count, cols, row) ==> {
            &&& 0 <= row * cols + col < count
            &&& (row * cols + col) / cols == row
            &&& (row * cols + col) % cols == col
        },
{
    if 0 <= i < count {
        let r = i / cols;
        let c = i % cols;
        assert(r * cols + c == i && 0 <= c < cols && r >= 0) by (nonlinear_arith)
            requires
                r == i / cols,
                c == i % cols,
                cols > 0,
                i >= 0,
        ;
        assert(r < (count + cols - 1) / cols) by (nonlinear_arith)
            requires
                r * cols <= i,
                i < count,
                cols > 0,
        ;
    }
    if 0 <= row && 0 <= col < channel_list::tiles_in_row(count, cols, row) {
        assert(col < cols);
        assert(row * cols >= 0) by (nonlinear_arith)
            requires
                row >= 0,
                cols > 0,
        ;
        let n = row * cols + col;
        assert(n / cols == row && n % cols == col) by (nonlinear_arith)
            requires
                n == row * cols + col,
                0 <= col < cols,
                0 <= row,
        ;
    }
}

/// A key alone.
pub open spec fn key(left: bool, right: bool, up: bool, down: bool) -> NavInput {
    NavInput { left, right, up, down, enter: false }
}

/// In the grid each key moves the focus by one tile, and the opposite key moves it back;
/// where there is no tile it stays.
pub proof fn tiles_are_walked_both_ways(c: GridCursor, count: int, cols: int)
    requires
        cols > 0,
        count > 0,
        c.layer is Grid,
        0 <= c.row < channel_list::row_count(count, cols),
        0 <= c.col < channel_list::tiles_in_row(count, cols, c.row),
    ensures
        ({
            let left = channel_list::grid_moved(c, key(true, false, false, false), count, cols);
            let right = channel_list::grid_moved(c, key(false, true, false, false), count, cols);
            let up = channel_list::grid_moved(c, key(false, false, true, false), count, cols);
            let down = channel_list::grid_moved(c, key(false, false, false, true), count, cols);
            let still = channel_list::grid_moved(c, key(false, false, false, false), count, cols);
            &&& still == c
            &&& left == (GridCursor {
                col: if c.col == 0 {
                    0
                } else {
                    c.col - 1
                },
                ..c
            })
            &&& right == (GridCursor {
                col: if c.row * cols + c.col + 1 < count && c.col + 1 < cols {
                    c.col + 1
                } else {
                    c.col
                },
                ..c
            })
            &&& up == if c.row == 0 {
                GridCursor { layer: GridLayer::FilterTabs, ..c }
            } else {
                GridCursor { row: c.row - 1, ..c }
            }
            &&& down == (GridCursor {
                row: if (c.row + 1) * cols < count {
                    c.row + 1
                } else {
                    c.row
                },
                ..c
            })
        }),
{
    let r = c.row + 1;
    assert((r < (count + cols - 1) / cols) == (r * cols < count)) by (nonlinear_arith)
        requires
            cols > 0,
            count > 0,
            r >= 0,
    ;
}

/// On the tabs the keys move the focus by one tab and stop at both ends, and down leads to the
/// first tile.
pub proof fn tabs_are_walked_both_ways(c: GridCursor, tabs: int)
    requires
        0 <= c.tab < tabs,
    ensures
        channel_list::tabs_moved(c, key(true, false, false, false), tabs) == (GridCursor {
            tab: if c.tab == 0 {
                0
            } else {
                c.tab - 1
            },
            ..c
        }),
        channel_list::tabs_moved(c, key(false, true, false, false), tabs) == (GridCursor {
            tab: if c.tab + 1 == tabs {
                c.tab
            } else {
                c.tab + 1
            },
            ..c
        }),
        channel_list::tabs_moved(c, key(false, false, true, false), tabs) == c,
        channel_list::tabs_moved(c, key(false, false, false, true), tabs) == (GridCursor {
            layer: GridLayer::Grid,
            tab: c.tab,
            row: 0,
            col: 0,
        }),
{
}

/// A focus that is on a tile stays there when a filter is applied; one that is not moves to
/// the last row, or to the last tile of its row.
pub proof fn focus_moves_no_further_than_needed(c: GridCursor, count: int, cols: int)
    requires
        cols > 0,
        count > 0,
        0 <= c.row < channel_list::row_count(count, cols),
    ensures
        0 <= c.col < channel_list::tiles_in_row(count, cols, c.row) ==> channel_list::clamped(
            c,
            count,
            cols,
        ) == c,
        channel_list::clamped(c, count, cols).row == c.row,
        channel_list::clamped(c, count, cols).tab == c.tab,
        channel_list::clamped(c, count, cols).layer == c.layer,
{
}

/// Nothing happens on the screen where nothing is pressed.
pub proof fn nothing_pressed_changes_nothing(
    v: ListView,
    e: ListEvents,
    labels: Seq<(String, Option<String>)>,
)
    requires
        e.keys is None,
        e.tab is None,
        e.tile is None,
        !e.toggle_locked,
    ensures
        channel_list::list_stepped(v, e, labels).0 == v,
        channel_list::list_stepped(v, e, labels).1 == if e.change_provider {
            ListActionView::ChangeProvider
        } else {
            ListActionView::Nothing
        },
{
}

/// A tab that is pressed has the focus, and its category is the one in force.
pub proof fn pressed_tab_is_in_force(
    v: ListView,
    e: ListEvents,
    labels: Seq<(String, Option<String>)>,
    i: usize,
)
    requires
        e.keys is None,
        e.tab == Some(i),
        e.tile is None,
        i < labels.len(),
    ensures
        ({
            let after = channel_list::list_stepped(v, e, labels).0;
            &&& after.filter == text::opt_text(labels[i as int].1)
            &&& after.cursor.tab == i
            &&& after.cursor.layer is FilterTabs
            &&& after.search == v.search
            &&& after.channels == v.channels
        }),
{
}

/// A tile that is pressed has the focus, and its channel is selected, unless it is locked.
pub proof fn pressed_tile_is_selected(
    v: ListView,
    e: ListEvents,
    labels: Seq<(String, Option<String>)>,
    i: usize,
    c: Channel,
)
    requires
        e.grid_cols > 0,
        e.tile == Some((i, c)),
        !c.locked,
    ensures
        ({
            let (after, asked) = channel_list::list_stepped(v, e, labels);
            &&& asked == ListActionView::SelectChannel(c@)
            &&& after.cursor.layer is Grid
            &&& after.cursor.row * e.grid_cols + after.cursor.col == i
            &&& 0 <= after.cursor.col < e.grid_cols
        }),
{
    let n = i as int;
    let k = e.grid_cols as int;
    assert(n / k * k + n % k == n && 0 <= n % k < k) by (nonlinear_arith)
        requires
            k > 0,
            n >= 0,
    ;
}

/// The enter key selects the tile in focus.
pub proof fn enter_selects_the_tile_in_focus(v: ListView, cols: int, i: int)
    requires
        cols > 0,
        v.cursor.row * cols + v.cursor.col == i,
        0 <= i < v.tiles().len(),
        !v.tiles()[i].locked,
    ensures
        channel_list::grid_choice(
            v,
            NavInput { enter: true, ..key(false, false, false, false) },
            cols,
        ) == ListActionView::SelectChannel(v.tiles()[i]@),
        channel_list::grid_choice(v, key(false, false, false, false), cols) is Nothing,
{
}

// ---------------------------------------------------------------------------
// The guide
// ---------------------------------------------------------------------------

/// The guide lists the channels of the category in force, and locked ones only where they are
/// asked for; no other, and each of these.
pub proof fn guide_lists_what_is_asked_for(
    channels: Seq<Channel>,
    show_locked: bool,
    category: Option<Seq<char>>,
    c: Channel,
)
    ensures
        guide::listed(channels, show_locked, category).contains(c) <==> {
            &&& channels.contains(c)
            &&& c.locked ==> show_locked
            &&& category matches Some(k) ==> c.category@ == k
        },
{
    let p = |c: Channel| guide::is_listed(c, show_locked, category);
    let all = guide::listed(channels, show_locked, category);
    if all.contains(c) {
        channels.lemma_filter_contains_rev(p, c);
        let i = choose|i: int| 0 <= i < all.len() && all[i] == c;
        channels.lemma_filter_pred(p, i);
    }
    if channels.contains(c) && p(c) {
        let i = choose|i: int| 0 <= i < channels.len() && channels[i] == c;
        channels.lemma_filter_contains(p, i);
    }
}

/// The guide keeps the order of the channels.
pub proof fn guide_keeps_the_order(
    a: Seq<Channel>,
    b: Seq<Channel>,
    show_locked: bool,
    category: Option<Seq<char>>,
)
    ensures
        guide::listed(a + b, show_locked, category) == guide::listed(a, show_locked, category)
            + guide::listed(b, show_locked, category),
{
    Seq::filter_distributes_over_add(
        a,
        b,
        |c: Channel| guide::is_listed(c, show_locked, category),
    );
}

/// Each key of the guide moves one step: a row, a programme, or half an hour where there is no
/// programme on that side; and a tab on the tabs.
pub proof fn guide_is_walked_step_by_step(c: Cursor, rows: int, tabs: int, programmes: int)
    requires
        0 <= c.row < rows,
        0 <= c.tab < tabs,
        0 <= c.programme,
        c.programme < programmes || c.programme == 0,
    ensures
        ({
            let left = guide::moved(c, key(true, false, false, false), rows, tabs, programmes);
            let right = guide::moved(c, key(false, true, false, false), rows, tabs, programmes);
            let up = guide::moved(c, key(false, false, true, false), rows, tabs, programmes);
            let down = guide::moved(c, key(false, false, false, true), rows, tabs, programmes);
            &&& guide::moved(c, key(false, false, false, false), rows, tabs, programmes) == c
            &&& c.layer is Rows ==> {
                &&& left.row == c.row && right.row == c.row
                &&& left.tab == c.tab && right.tab == c.tab && up.tab == c.tab && down.tab == c.tab
                &&& c.programme > 0 ==> left.programme == c.programme - 1 && left.window_start
                    == c.window_start
                &&& c.programme == 0 ==> left.programme == 0 && left.window_start
                    == c.window_start - 1800
                &&& c.programme + 1 < programmes ==> right.programme == c.programme + 1
                    && right.window_start == c.window_start
                &&& c.programme + 1 >= programmes ==> right.programme == c.programme
                    && right.window_start == c.window_start + 1800
                &&& c.row > 0 ==> up.row == c.row - 1 && up.layer is Rows
                &&& c.row == 0 ==> up.row == 0 && up.layer is FilterTabs
                &&& c.row + 1 < rows ==> down.row == c.row + 1
                &&& c.row + 1 == rows ==> down == c
                &&& up.window_start == c.window_start && down.window_start == c.window_start
            }
            &&& c.layer is FilterTabs ==> {
                &&& left == (Cursor {
                    tab: if c.tab == 0 {
                        0
                    } else {
                        c.tab - 1
                    },
                    ..c
                })
                &&& right == (Cursor {
                    tab: if c.tab + 1 == tabs {
                        c.tab
                    } else {
                        c.tab + 1
                    },
                    ..c
                })
                &&& up == c
                &&& down == (Cursor { layer: FocusLayer::Rows, ..c })
            }
        }),
{
}

/// Whole minutes are those between a time and the one asked for: no more than there are, and
/// less than one missing.
pub proof fn whole_minutes_are_counted(nanos: int)
    ensures
        nanos >= 0 ==> guide::whole_minutes(nanos) * 60_000_000_000 <= nanos < (
        guide::whole_minutes(nanos) + 1) * 60_000_000_000,
        guide::whole_minutes(-nanos) == -guide::whole_minutes(nanos),
{
}

// ---------------------------------------------------------------------------
// Logos
// ---------------------------------------------------------------------------

/// The logo of every channel is fetched, no other, and none twice.
pub proof fn every_logo_is_fetched_once(channels: Seq<ChannelView>, url: Seq<char>)
    ensures
        app::logo_urls(channels).no_duplicates(),
        app::logo_urls(channels).contains(url) <==> exists|i: int|
            0 <= i < channels.len() && (#[trigger] channels[i]).logo_url == Some(url),
    decreases channels.len(),
{
    if channels.len() > 0 {
        let front = channels.drop_last();
        let before = app::logo_urls(front);
        let after = app::logo_urls(channels);
        every_logo_is_fetched_once(front, url);
        let last = channels.last();
        if after.contains(url) {
            let k = choose|k: int| 0 <= k < after.len() && after[k] == url;
            if k < before.len() {
                assert(before[k] == url);
                let i = choose|i: int|
                    0 <= i < front.len() && (#[trigger] front[i]).logo_url == Some(url);
                assert(channels[i].logo_url == Some(url));
            } else {
                assert(channels[channels.len() - 1].logo_url == Some(url));
            }
        }
        if exists|i: int| 0 <= i < channels.len() && (#[trigger] channels[i]).logo_url == Some(
            url,
        ) {
            let i = choose|i: int|
                0 <= i < channels.len() && (#[trigger] channels[i]).logo_url == Some(url);
            if i < front.len() {
                assert(front[i].logo_url == Some(url));
                let k = choose|k: int| 0 <= k < before.len() && before[k] == url;
                assert(after[k] == url);
            } else {
                assert(last.logo_url == Some(url));
                if !before.contains(url) {
                    assert(after[before.len() as int] == url);
                } else {
                    let k = choose|k: int| 0 <= k < before.len() && before[k] == url;
                    assert(after[k] == url);
                }
            }
        }
        match last.logo_url {
            Some(u) if !before.contains(u) => {
                assert forall|a: int, b: int|
                    0 <= a < after.len() && 0 <= b < after.len() && a != b implies after[a]
                    != after[b] by {
                    if a < before.len() && b < before.len() {
                        assert(before[a] != before[b]);
                    } else if a < before.len() {
                        assert(before[a] != u);
                    } else {
                        assert(before[b] != u);
                    }
                }
            },
            _ => {},
        }
    }
}

// ---------------------------------------------------------------------------
// Messages
// ---------------------------------------------------------------------------

/// A failed sign-in is told on the setup screen, with the cause; what was typed there stays.
pub proof fn failed_sign_in_is_told(
    before: App,
    e: String,
    after: App,
    effects: Seq<EffectView>,
)
    requires
        app::responds(before, AppMsg::AuthErr(e), after, effects),
        before.screen is Setup || before.screen is PushWait || before.screen is Otp,
    ensures
        after.screen matches Screen::Setup(s) && {
            &&& s@.error_message matches Some(m) && exists|front: Seq<char>| m == front + e@
            &&& !s@.loading
            &&& before.screen matches Screen::Setup(t) ==> s@ == (crate::screens::setup::SetupView {
                loading: s@.loading,
                error_message: s@.error_message,
                ..t@
            })
        },
        !(before.screen is Setup) ==> effects.contains(EffectView::DropResponder)
            && !after.otp_pending,
        after.channels == before.channels,
        after.current_session == before.current_session,
{
    if !(before.screen is Setup) {
        assert(effects[0] == EffectView::DropResponder);
    }
}

/// When the channels are there they are listed, their logos are fetched, the operator is kept,
/// and the session is saved exactly where there is a token.
pub proof fn channels_are_listed_when_there(
    before: App,
    channels: Vec<Channel>,
    token: Option<String>,
    kind: String,
    username: String,
    after: App,
    effects: Seq<EffectView>,
)
    requires
        app::responds(
            before,
            AppMsg::ChannelsOk {
                channels,
                session_token: token,
                kind_str: kind,
                username,
            },
            after,
            effects,
        ),
    ensures
        after.screen is ChannelList,
        after.channels == channels,
        after.has_operator,
        after.current_session == Some((kind, username)),
        effects.contains(EffectView::KeepOperator),
        effects.contains(EffectView::FetchLogos(app::logo_urls(channel::views(channels@)))),
        token is Some ==> effects.contains(
            EffectView::SaveSession { kind: kind@, username: username@, token: token->0@ },
        ),
        token is None ==> forall|i: int|
            0 <= i < effects.len() ==> !(#[trigger] effects[i] is SaveSession),
{
    assert(effects.last() == EffectView::KeepOperator);
    assert(effects[effects.len() - 2] is FetchLogos);
    if token is Some {
        assert(effects[0] is SaveSession);
    }
}

/// A stream that cannot be played leads back to the list of all channels.
pub proof fn failed_stream_leads_back_to_the_list(
    before: App,
    msg: AppMsg,
    after: App,
    effects: Seq<EffectView>,
)
    requires
        app::responds(before, msg, after, effects),
        msg is StreamErr || msg is DrmProxyErr,
    ensures
        after.screen is ChannelList,
        after.channels == before.channels,
        after.has_operator == before.has_operator,
        after.current_session == before.current_session,
        effects.len() == 0,
{
}

/// A code is asked for where one is needed, and the one who waits for it is kept.
pub proof fn code_is_asked_for(before: App, after: App, effects: Seq<EffectView>)
    requires
        app::responds(before, AppMsg::OtpRequired, after, effects),
    ensures
        after.screen is Otp,
        after.otp_pending,
        effects == seq![EffectView::KeepResponder],
{
}

/// The text of an error names its causes in order.
pub proof fn causes_are_named_in_order(first: Seq<char>, a: Seq<String>, b: Seq<String>)
    ensures
        auth::chain_text(first, a + b) == auth::chain_text(auth::chain_text(first, a), b),
        a.len() == 0 ==> auth::chain_text(first, a) == first,
        a.len() == 1 ==> auth::chain_text(first, a) == first + " → "@ + a[0]@,
    decreases b.len(),
{
    if b.len() == 0 {
        assert(a + b =~= a);
    } else {
        causes_are_named_in_order(first, a, b.drop_last());
        assert((a + b).drop_last() =~= a + b.drop_last());
        assert((a + b).last() == b.last());
    }
    if a.len() == 1 {
        assert(a.drop_last() =~= Seq::empty());
        assert(auth::chain_text(first, a.drop_last()) == first);
    }
}

// ---------------------------------------------------------------------------
// Captures
// ---------------------------------------------------------------------------

/// A protected stream is captured in one order: opening and initialising the module, building
/// the client, fetching and reading the manifest, requesting a license with the operator's data
/// or else with the manifest's, and starting the proxy on that manifest.
pub proof fn protected_capture_runs_in_order(
    f: FlowView,
    stream: CaptureStream,
    url: String,
    mpd: String,
)
    requires
        stream.protection is Some,
    ensures
        ({
            let (s1, a1) = capture_flow::capture_stepped(f, CaptureEvent::Resolved(Ok(stream)));
            let (s2, a2) = capture_flow::capture_stepped(s1, CaptureEvent::CdmOpened(Ok(())));
            let (s3, a3) = capture_flow::capture_stepped(s2, CaptureEvent::CdmInitialized(Ok(())));
            let (s4, a4) = capture_flow::capture_stepped(s3, CaptureEvent::ClientBuilt(Ok(())));
            let (s5, a5) = capture_flow::capture_stepped(s4, CaptureEvent::ManifestFetched(Ok(url)));
            let (s6, a6) = capture_flow::capture_stepped(s5, CaptureEvent::ManifestRead(Ok(mpd)));
            let (s7, a7) = capture_flow::capture_stepped(s6, CaptureEvent::Licensed(Ok(())));
            let given = capture_flow::operator_pssh(stream.protection);
            &&& a1 is OpenCdm
            &&& a2 is InitializeCdm
            &&& a3 is BuildClient
            &&& a4 == CaptureActionView::FetchManifest(stream.url@)
            &&& a5 is ReadManifest
            &&& given is Some ==> a6 == CaptureActionView::AcquireLicense(given->0)
            &&& given is None && license::mpd_pssh(mpd@) is Some ==> a6
                == CaptureActionView::AcquireLicense(license::mpd_pssh(mpd@)->0)
            &&& given is None && license::mpd_pssh(mpd@) is None ==> a6 is Fail
            &&& a7 == (CaptureActionView::StartProxy { mpd_text: mpd@, mpd_url: url@ })
        }),
{
}

/// A stream without protection is captured as it is: the player gets its URL, and its headers
/// are written to the options.
pub proof fn plain_capture_goes_to_the_stream(
    f: FlowView,
    stream: CaptureStream,
    frames: String,
    options: String,
)
    requires
        stream.protection is None,
    ensures
        ({
            let (s1, a1) = capture_flow::capture_stepped(f, CaptureEvent::Resolved(Ok(stream)));
            let (s2, a2) = capture_flow::capture_stepped(s1, CaptureEvent::DirectoryMade(Ok(())));
            let (s3, a3) = capture_flow::capture_stepped(
                s2,
                CaptureEvent::OptionsWritten(Ok((frames, options))),
            );
            &&& a1 is MakeDirectory
            &&& a2 == CaptureActionView::WriteOptions(
                preview_capture::options_text(stream.headers@, text::opt_text(stream.auth)),
            )
            &&& a3 matches CaptureActionView::StartPlayer(args) && args.last() == stream.url@
        }),
{
}

/// The options of headers are written one after the other, each in a line of its own.
pub proof fn headers_are_written_in_order(
    a: Seq<(String, String)>,
    b: Seq<(String, String)>,
)
    ensures
        preview_capture::header_lines(a + b) == preview_capture::header_lines(a)
            + preview_capture::header_lines(b),
    decreases b.len(),
{
    if b.len() == 0 {
        assert(a + b =~= a);
        assert(preview_capture::header_lines(a) + preview_capture::header_lines(b)
            =~= preview_capture::header_lines(a));
    } else {
        headers_are_written_in_order(a, b.drop_last());
        assert((a + b).drop_last() =~= a + b.drop_last());
        assert((a + b).last() == b.last());
        assert(preview_capture::header_lines(a + b) =~= preview_capture::header_lines(a)
            + preview_capture::header_lines(b));
    }
}

/// A header's value stands at the end of its line, as it was given; and the case of its name
/// does not matter to which option it is.
pub proof fn header_keeps_its_value(name: Seq<char>, other: Seq<char>, value: Seq<char>)
    requires
        text::lower(name) == text::lower(other),
    ensures
        exists|front: Seq<char>|
            preview_capture::header_line(name, value) == #[trigger] (front + value) + seq!['\n'],
        player_control::target_of(name) == player_control::target_of(other),
        player_control::target_of(name) is Field ==> preview_capture::header_line(name, value)
            == "http-header-fields-append="@ + name + ": "@ + value + seq!['\n'],
        !(player_control::target_of(name) is Field) ==> preview_capture::header_line(name, value)
            == preview_capture::header_line(other, value),
{
    let line = preview_capture::header_line(name, value);
    let front = if player_control::target_of(name) is Referrer {
        "referrer="@
    } else if player_control::target_of(name) is UserAgent {
        "user-agent="@
    } else {
        "http-header-fields-append="@ + name + ": "@
    };
    assert(line == (front + value) + seq!['\n']);
}

// ---------------------------------------------------------------------------
// Players
// ---------------------------------------------------------------------------

/// The embedded player is told of every header, in order, behind the authorisation; the old
/// ones are cleared first.
pub proof fn every_header_is_told(
    auth: Option<Seq<char>>,
    headers: Seq<(String, String)>,
    i: int,
)
    requires
        0 <= i < headers.len(),
    ensures
        ({
            let steps = player_control::header_steps(auth, headers);
            let n: int = if auth is Some {
                3
            } else {
                2
            };
            let (name, value) = (headers[i].0@, headers[i].1@);
            let low = text::lower(name);
            &&& steps.len() == n + headers.len()
            &&& auth is Some ==> steps[2] == player_control::append_field(
                "Authorization: "@ + auth->0,
            )
            &&& steps[n + i] == if low == "referer"@ || low == "referrer"@ {
                StepView::Property("referrer"@, value)
            } else if low == "user-agent"@ {
                StepView::Property("user-agent"@, value)
            } else {
                player_control::append_field(name + ": "@ + value)
            }
        }),
{
}

/// The player in a window of its own gets the same headers as arguments, and the URL last.
pub proof fn window_gets_the_same_headers(
    url: Seq<char>,
    auth: Option<Seq<char>>,
    headers: Seq<(String, String)>,
    cdm_dir: Option<Seq<char>>,
    i: int,
)
    requires
        0 <= i < headers.len(),
    ensures
        ({
            let args = player_control::window_args(url, auth, headers, cdm_dir);
            let steps = player_control::header_steps(auth, headers);
            let n: int = if auth is Some {
                2
            } else {
                1
            };
            &&& args.last() == url
            &&& auth is Some ==> args[1] == "--http-header-fields=Authorization: "@ + auth->0
            &&& match steps[n + 1 + i] {
                StepView::Property(name, value) => {
                    ||| name == "referrer"@ && args[n + i] == "--referrer="@ + value
                    ||| name == "user-agent"@ && args[n + i] == "--user-agent="@ + value
                },
                StepView::Command(words) => args[n + i] == "--http-header-fields="@ + words.last(),
                StepView::Seconds(..) => false,
            }
        }),
{
}

/// A focus behind the last row moves to the last row.
pub proof fn focus_moves_to_the_last_row(c: GridCursor, count: int, cols: int)
    requires
        cols > 0,
        count > 0,
        c.row * cols >= count,
        0 <= c.row,
        0 <= c.col,
    ensures
        ({
            let after = channel_list::clamped(c, count, cols);
            &&& after.row * cols < count <= (after.row + 1) * cols
            &&& after.row * cols + c.col < count && c.col < cols ==> after.col == c.col
            &&& after.row * cols + c.col >= count ==> after.row * cols + after.col == count - 1
        }),
{
    let last = channel_list::row_count(count, cols) - 1;
    assert(last * cols < count <= (last + 1) * cols) by (nonlinear_arith)
        requires
            last == (count + cols - 1) / cols - 1,
            cols > 0,
            count > 0,
    ;
    assert(c.row >= last) by (nonlinear_arith)
        requires
            last * cols < count,
            c.row * cols >= count,
            cols > 0,
    ;
    assert((last + 1) * cols == last * cols + cols) by (nonlinear_arith);
}

/// Pressing the button for locked channels twice leaves the screen as it was.
pub proof fn locked_channels_are_shown_and_hidden(
    v: ListView,
    e: ListEvents,
    labels: Seq<(String, Option<String>)>,
)
    requires
        e.keys is None,
        e.tab is None,
        e.tile is None,
        e.toggle_locked,
    ensures
        ({
            let once = channel_list::list_stepped(v, e, labels).0;
            &&& once == (ListView { show_locked: !v.show_locked, ..v })
            &&& channel_list::list_stepped(once, e, labels).0 == v
        }),
{
}

/// The enter key on a tab puts its category in force, and the focus of the grid on a tile that
/// there is.
pub proof fn entered_tab_is_in_force(
    v: ListView,
    e: ListEvents,
    labels: Seq<(String, Option<String>)>,
)
    requires
        v.cursor.layer is FilterTabs,
        e.keys == Some(NavInput { enter: true, ..key(false, false, false, false) }),
        e.tab is None,
        e.tile is None,
        !e.toggle_locked,
        e.window_cols > 0,
        0 <= v.cursor.tab < labels.len(),
        0 <= v.cursor.row,
        0 <= v.cursor.col,
    ensures
        ({
            let after = channel_list::list_stepped(v, e, labels).0;
            &&& after.filter == text::opt_text(labels[v.cursor.tab].1)
            &&& after.cursor.tab == v.cursor.tab
            &&& after.cursor.layer is FilterTabs
            &&& after.tiles().len() > 0 ==> 0 <= after.cursor.row * e.window_cols
                + after.cursor.col < after.tiles().len()
        }),
{
    let after = channel_list::list_stepped(v, e, labels).0;
    if after.tiles().len() > 0 {
        channel_list::filter_leaves_the_focus_on_a_tile(
            v.cursor,
            after.tiles().len() as int,
            e.window_cols as int,
        );
    }
}

/// A key of the grid moves its focus, and the enter key selects the tile that it moved to.
pub proof fn grid_key_moves_the_focus(
    v: ListView,
    e: ListEvents,
    labels: Seq<(String, Option<String>)>,
    k: NavInput,
)
    requires
        v.cursor.layer is Grid,
        e.keys == Some(k),
        e.tab is None,
        e.tile is None,
        !e.toggle_locked,
        !e.change_provider,
        e.grid_cols > 0,
    ensures
        ({
            let (after, asked) = channel_list::list_stepped(v, e, labels);
            let at = after.cursor.row * e.grid_cols + after.cursor.col;
            &&& after.cursor == channel_list::grid_moved(
                v.cursor,
                k,
                v.tiles().len() as int,
                e.grid_cols as int,
            )
            &&& after == (ListView { cursor: after.cursor, ..v })
            &&& asked is SelectChannel ==> k.enter && asked == ListActionView::SelectChannel(
                v.tiles()[at]@,
            )
            &&& k.enter && 0 <= at < v.tiles().len() && !v.tiles()[at].locked ==> asked
                is SelectChannel
        }),
{
}

// ---------------------------------------------------------------------------
// Failures
// ---------------------------------------------------------------------------

/// The cause that an event of a capture tells, if it tells one.
pub open spec fn capture_cause(event: CaptureEvent) -> Option<Seq<char>> {
    match event {
        CaptureEvent::Resolved(Err(e)) => Some(e@),
        CaptureEvent::CdmOpened(Err(e)) => Some(e@),
        CaptureEvent::CdmInitialized(Err(e)) => Some(e@),
        CaptureEvent::ClientBuilt(Err(e)) => Some(e@),
        CaptureEvent::ManifestFetched(Err(e)) => Some(e@),
        CaptureEvent::ManifestRead(Err(e)) => Some(e@),
        CaptureEvent::Licensed(Err(e)) => Some(e@),
        CaptureEvent::ProxyStarted(Err(e)) => Some(e@),
        CaptureEvent::DirectoryMade(Err(e)) => Some(e@),
        CaptureEvent::OptionsWritten(Err(e)) => Some(e@),
        CaptureEvent::PlayerStarted(Err(e)) => Some(e@),
        CaptureEvent::PlayerEnded(Err(e)) => Some(e@),
        _ => None,
    }
}

/// A step of a capture that fails ends it, and the cause is told; nothing else is lost.
pub proof fn failed_step_ends_the_capture(f: FlowView, event: CaptureEvent)
    requires
        capture_cause(event) is Some,
    ensures
        capture_flow::capture_stepped(f, event).0 == f,
        ({
            let next = capture_flow::capture_stepped(f, event).1;
            next matches CaptureActionView::Fail(m) && text::ends_with(
                m,
                ": "@ + capture_cause(event)->0,
            )
        }),
{
    let cause = capture_cause(event)->0;
    let tail = ": "@ + cause;
    let m = capture_flow::capture_stepped(f, event).1->Fail_0;
    let n = m.len() - tail.len();
    assert(m.skip(n) =~= tail);
}

/// The cause that an event of the set-up tells, if it tells one.
pub open spec fn startup_cause(event: DrmEvent) -> Option<Seq<char>> {
    match event {
        DrmEvent::CdmOpened(Err(e)) => Some(e@),
        DrmEvent::CdmInitialized(Err(e)) => Some(e@),
        DrmEvent::ClientBuilt(Err(e)) => Some(e@),
        DrmEvent::ManifestFetched(Err(e)) => Some(e@),
        DrmEvent::ManifestRead(Err(e)) => Some(e@),
        DrmEvent::Licensed(Err(e)) => Some(e@),
        DrmEvent::ProxyStarted(Err(e)) => Some(e@),
        _ => None,
    }
}

/// A step of the set-up that fails ends it, and the cause is told; no init segment is no
/// failure.
pub proof fn failed_step_ends_the_startup(s: StartupView, event: DrmEvent)
    ensures
        startup_cause(event) is Some ==> drm_startup::stepped(s, event).0 == s && (
        drm_startup::stepped(s, event).1 matches DrmActionView::Fail(m) && text::ends_with(
            m,
            startup_cause(event)->0,
        )),
        s.operator_pssh is Some ==> drm_startup::stepped(s, DrmEvent::InitFetched(None)).1
            == DrmActionView::AcquireLicense(s.operator_pssh->0),
{
    if let Some(cause) = startup_cause(event) {
        let m = drm_startup::stepped(s, event).1->Fail_0;
        let n = m.len() - cause.len();
        assert(m.skip(n) =~= cause);
    }
}

// ---------------------------------------------------------------------------
// Previews
// ---------------------------------------------------------------------------

/// Asking for a capture notes when, and neither it nor a failure touches a frame that is
/// there; what is noted of other channels stays.
pub proof fn captures_leave_other_channels_alone<T>(
    v: PreviewView<T>,
    id: Seq<char>,
    other: Seq<char>,
    now: u64,
    e: EntryView<T>,
)
    requires
        other != id,
        e.id == id,
    ensures
        v.requested(id, now).entries == v.entries,
        v.failed_again(id).entries == v.entries,
        v.requested(id, now).last_attempt[id] == now,
        v.requested(id, now).last_attempt.contains_key(id),
        v.failed_again(id).last_attempt == v.last_attempt,
        v.captured(e).last_attempt == v.last_attempt,
        v.requested(id, now).last_attempt.contains_key(other)
            == v.last_attempt.contains_key(other),
        v.requested(id, now).last_attempt.contains_key(other)
            ==> v.requested(id, now).last_attempt[other] == v.last_attempt[other],
        v.requested(id, now).failed(other) == v.failed(other),
        v.requested(id, now).failed(id) == v.failed(id),
        v.failed_again(id).failed(other) == v.failed(other),
        v.captured(e).failed(other) == v.failed(other),
        v.captured(e).entries.last() == e,
{
}

/// What captures have given is taken in one after the other, frames before failures.
pub proof fn captures_are_taken_in_order<T>(
    v: PreviewView<T>,
    a: Seq<(String, T)>,
    b: Seq<(String, T)>,
    f: Seq<String>,
    g: Seq<String>,
    now: u64,
)
    ensures
        guide::after_frames(v, a + b, now) == guide::after_frames(
            guide::after_frames(v, a, now),
            b,
            now,
        ),
        guide::after_failures(v, f + g) == guide::after_failures(guide::after_failures(v, f), g),
    decreases b.len() + g.len(),
{
    if b.len() > 0 {
        captures_are_taken_in_order(v, a, b.drop_last(), f, g, now);
        assert((a + b).drop_last() =~= a + b.drop_last());
        assert((a + b).last() == b.last());
    } else {
        assert(a + b =~= a);
    }
    if g.len() > 0 {
        captures_are_taken_in_order(v, a, b, f, g.drop_last(), now);
        assert((f + g).drop_last() =~= f + g.drop_last());
        assert((f + g).last() == g.last());
    } else {
        assert(f + g =~= f);
    }
}

// ---------------------------------------------------------------------------
// Replies of the player
// ---------------------------------------------------------------------------

/// An event is told apart by its name, whatever is said of errors beside it; a reply without
/// one is a refusal unless it tells success.
pub proof fn replies_are_told_apart(name: Seq<char>, error: Option<Seq<char>>, why: Seq<char>)
    ensures
        player_control::kind_of(Some("seek"@), error) is Seek,
        player_control::kind_of(Some("end-file"@), error) is EndOfFile,
        name != "seek"@ && name != "end-file"@ ==> player_control::kind_of(Some(name), error)
            is Nothing,
        player_control::kind_of(None, Some("success"@)) is Nothing,
        why != "success"@ ==> player_control::kind_of(None, Some(why)) is Refused,
        player_control::kind_of(None, None) is Refused,
{
    reveal_strlit("seek");
    reveal_strlit("end-file");
    assert("seek"@.len() != "end-file"@.len());
}

// ---------------------------------------------------------------------------
// Texts and tabs
// ---------------------------------------------------------------------------

/// The first tab is for all channels, and each other one for the category that it names, in
/// order.
pub proof fn tabs_name_their_categories(categories: Seq<String>, i: int)
    requires
        0 <= i < categories.len(),
    ensures
        guide::tabs(categories).len() == categories.len() + 1,
        guide::tabs(categories)[0].1 is None,
        guide::tabs(categories)[i + 1] == (categories[i]@, Some(categories[i]@)),
{
}

/// A tile tells the name of its channel behind its number, and an icon behind both where the
/// channel is locked.
pub proof fn tile_tells_number_name_and_lock(number: u32, name: Seq<char>, icon: Seq<char>)
    ensures
        channel_list::tile_text(None, name, false, icon) == name,
        text::ends_with(channel_list::tile_text(Some(number), name, false, icon), name),
        text::starts_with(
            channel_list::tile_text(Some(number), name, false, icon),
            text::decimal(number as nat),
        ),
        text::starts_with(
            channel_list::tile_text(Some(number), name, true, icon),
            channel_list::tile_text(Some(number), name, false, icon),
        ),
        text::starts_with(channel_list::tile_text(None, name, true, icon), name),
        text::ends_with(channel_list::tile_text(Some(number), name, true, icon), icon),
        text::ends_with(channel_list::tile_text(None, name, true, icon), icon),
{
    let d = text::decimal(number as nat);
    let plain = channel_list::tile_text(Some(number), name, false, icon);
    let locked = channel_list::tile_text(Some(number), name, true, icon);
    let bare = channel_list::tile_text(None, name, true, icon);
    assert(plain.skip(plain.len() - name.len()) =~= name);
    assert(plain.take(d.len() as int) =~= d);
    assert(locked.take(plain.len() as int) =~= plain);
    assert(bare.take(name.len() as int) =~= name);
    assert(locked.skip(locked.len() - icon.len()) =~= icon);
    assert(bare.skip(bare.len() - icon.len()) =~= icon);
}

/// The dots grow by one each half second, and start again after three.
pub proof fn dots_grow_and_start_again(elapsed: u64)
    requires
        elapsed <= u64::MAX - 1_500_000_000,
    ensures
        push_wait::dots((elapsed + 1_500_000_000) as u64) == push_wait::dots(elapsed),
        push_wait::dots(elapsed).len() == 1 + elapsed as int / 500_000_000 % 3,
        forall|i: int|
            0 <= i < push_wait::dots(elapsed).len() ==> #[trigger] push_wait::dots(elapsed)[i]
                == '.',
{
    reveal_strlit(".");
    reveal_strlit("..");
    reveal_strlit("...");
    let e = elapsed as int;
    let phase = e % 1_500_000_000;
    assert((e + 1_500_000_000) % 1_500_000_000 == phase);
    let k = e / 1_500_000_000;
    assert(e == k * 1_500_000_000 + phase);
    assert(e / 500_000_000 == 3 * k + phase / 500_000_000);
    assert((3 * k + phase / 500_000_000) % 3 == phase / 500_000_000);
}

/// The seconds that are left are whole ones, and none is left when the time is over.
pub proof fn seconds_are_counted_down(elapsed: u64)
    ensures
        elapsed <= push_wait::EXPIRY ==> push_wait::seconds_left(elapsed) * 1_000_000_000
            <= push_wait::EXPIRY - elapsed < (push_wait::seconds_left(elapsed) + 1)
            * 1_000_000_000,
        elapsed >= push_wait::EXPIRY ==> push_wait::seconds_left(elapsed) == 0,
{
}

/// The directory of the module is told to each player, and before the stream is loaded.
pub proof fn module_is_told_to_the_players(
    url: Seq<char>,
    auth: Option<Seq<char>>,
    headers: Seq<(String, String)>,
    socket: Seq<char>,
    dir: Seq<char>,
)
    ensures
        ({
            let steps = player_control::embedded_steps(url, auth, headers, Some(dir));
            let without = player_control::embedded_steps(url, auth, headers, None);
            let args = player_control::window_args(url, auth, headers, Some(dir));
            let bare = player_control::window_args(url, auth, headers, None);
            &&& steps[steps.len() - 2] == StepView::Property("cdm-store"@, dir)
            &&& steps.remove(steps.len() - 2) == without
            &&& args[args.len() - 4] == "--cdm-store="@ + dir
            &&& args.remove(args.len() - 4) == bare
            &&& player_control::controlled_args(socket, Some(dir))
                == player_control::controlled_args(socket, None).push("--cdm-store="@ + dir)
            &&& player_control::controlled_args(socket, None).last() == "--input-ipc-server="@
                + socket
        }),
{
    let steps = player_control::embedded_steps(url, auth, headers, Some(dir));
    let without = player_control::embedded_steps(url, auth, headers, None);
    assert(steps.remove(steps.len() - 2) =~= without);
    let args = player_control::window_args(url, auth, headers, Some(dir));
    let bare = player_control::window_args(url, auth, headers, None);
    assert(args.remove(args.len() - 4) =~= bare);
}

/// The authorisation is written before the headers, which are written as without it.
pub proof fn authorisation_is_written_first(headers: Seq<(String, String)>, auth: Seq<char>)
    ensures
        preview_capture::options_text(headers, Some(auth))
            == "http-header-fields-append=Authorization: "@ + auth + seq!['\n']
            + preview_capture::options_text(headers, None),
        preview_capture::options_text(headers, None) == preview_capture::header_lines(headers),
{
    let lines = preview_capture::header_lines(headers);
    assert(Seq::<char>::empty() + lines =~= lines);
}

/// Over a socket a command goes as it is, and a property is set by its name.
pub proof fn properties_are_set_over_the_socket(
    words: Seq<Seq<char>>,
    name: Seq<char>,
    value: Seq<char>,
)
    ensures
        player_control::over_socket(StepView::Command(words)) == words,
        player_control::over_socket(StepView::Property(name, value)) == seq![
            "set_property"@,
            name,
            value,
        ],
{
}

// ---------------------------------------------------------------------------
// Keys pressed together
// ---------------------------------------------------------------------------

/// Keys pressed together act one after the other in the grid: up, down, left, right.
pub proof fn grid_keys_act_one_after_the_other(
    c: GridCursor,
    input: NavInput,
    count: int,
    cols: int,
)
    ensures
        ({
            let up = channel_list::grid_moved(c, key(false, false, input.up, false), count, cols);
            let down = channel_list::grid_moved(
                up,
                key(false, false, false, input.down),
                count,
                cols,
            );
            let left = channel_list::grid_moved(
                down,
                key(input.left, false, false, false),
                count,
                cols,
            );
            channel_list::grid_moved(c, input, count, cols) == channel_list::grid_moved(
                left,
                key(false, input.right, false, false),
                count,
                cols,
            )
        }),
{
}

/// And on the tabs: left, right, down; up does nothing there.
pub proof fn tab_keys_act_one_after_the_other(c: GridCursor, input: NavInput, tabs: int)
    ensures
        ({
            let left = channel_list::tabs_moved(c, key(input.left, false, false, false), tabs);
            let right = channel_list::tabs_moved(left, key(false, input.right, false, false), tabs);
            channel_list::tabs_moved(c, input, tabs) == channel_list::tabs_moved(
                right,
                key(false, false, false, input.down),
                tabs,
            )
        }),
{
}

/// In the rows of the guide: up, down, right, left; and on its tabs: left, right, down.
pub proof fn guide_keys_act_one_after_the_other(
    c: Cursor,
    input: NavInput,
    rows: int,
    tabs: int,
    programmes: int,
)
    ensures
        ({
            let up = guide::rows_moved(c, key(false, false, input.up, false), rows, programmes);
            let down = guide::rows_moved(
                up,
                key(false, false, false, input.down),
                rows,
                programmes,
            );
            let right = guide::rows_moved(
                down,
                key(false, input.right, false, false),
                rows,
                programmes,
            );
            guide::rows_moved(c, input, rows, programmes) == guide::rows_moved(
                right,
                key(input.left, false, false, false),
                rows,
                programmes,
            )
        }),
        ({
            let left = guide::tabs_moved(c, key(input.left, false, false, false), tabs);
            let right = guide::tabs_moved(left, key(false, input.right, false, false), tabs);
            guide::tabs_moved(c, input, tabs) == guide::tabs_moved(
                right,
                key(false, false, false, input.down),
                tabs,
            )
        }),
{
}

// ---------------------------------------------------------------------------
// Streams
// ---------------------------------------------------------------------------

/// A stream that is ready is played on the player's screen, with the channel that it shows; a
/// protected one by the proxy's URL, and the proxy is kept whatever screen is shown.
pub proof fn ready_stream_is_played(
    before: App,
    msg: AppMsg,
    after: App,
    effects: Seq<EffectView>,
)
    requires
        app::responds(before, msg, after, effects),
    ensures
        msg == (AppMsg::StreamOk { protected: false }) && before.screen is Player ==> {
            &&& effects == seq![EffectView::Play]
            &&& after.screen matches Screen::Player(q) && (before.screen matches Screen::Player(p)
                && q.channel == p.channel && q.state is Playing)
        },
        msg == (AppMsg::StreamOk { protected: false }) && !(before.screen is Player)
            ==> effects.len() == 0 && after == before,
        msg is DrmProxyReady ==> effects.len() > 0 && effects[0] == EffectView::KeepProxy,
        msg is DrmProxyReady && effects.len() > 1 ==> effects == seq![
            EffectView::KeepProxy,
            EffectView::PlayProxy(msg->proxy_mpd_url@),
        ] && after.screen is Player,
{
}

/// Channels that cannot be fetched are told on the setup screen, with the cause, where they
/// were waited for; elsewhere nothing changes.
pub proof fn missing_channels_are_told(
    before: App,
    e: String,
    after: App,
    effects: Seq<EffectView>,
)
    requires
        app::responds(before, AppMsg::ChannelsErr(e), after, effects),
    ensures
        effects.len() == 0,
        before.screen is Setup || before.screen is Restoring ==> (after.screen matches Screen::Setup(
            s,
        ) && {
            &&& s@.error_message matches Some(m) && text::ends_with(m, e@)
            &&& !s@.loading
        }),
        !(before.screen is Setup || before.screen is Restoring) ==> after == before,
{
    let front = "Erreur chargement chaînes : "@;
    let m = front + e@;
    assert(m.skip(m.len() - e@.len()) =~= e@);
}

} // verus!
