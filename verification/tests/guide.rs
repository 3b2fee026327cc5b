use chrono::{DateTime, TimeZone, Utc};
use frenchetv::channel::Channel;
use frenchetv::guide::{
    filter_labels, floor_to_half_hour, initials, now_line, programme_span, row_picture,
    ruler_marks, CategoryFilter, FocusLayer, GuideAction, GuideScreen, NavInput, NavOutcome,
    RowPicture, MAX_NANOS, MAX_TIME, MIN_NANOS, MIN_TIME, NANOS, SCROLL_STEP, WINDOW,
};

fn at(year: i32, month: u32, day: u32, hour: u32, min: u32, sec: u32) -> i64 {
    Utc.with_ymd_and_hms(year, month, day, hour, min, sec)
        .unwrap()
        .timestamp()
}

fn chan(id: &str, name: &str, number: u32) -> Channel {
    Channel {
        id: id.into(),
        name: name.into(),
        logo_url: None,
        number: Some(number),
        category: "Generalist".into(),
        locked: false,
    }
}

fn screen(n: usize) -> GuideScreen<u32> {
    let channels = (0..n)
        .map(|i| chan(&format!("c{i}"), &format!("Chaine {i}"), i as u32))
        .collect();
    GuideScreen::new(channels, at(2026, 9, 19, 20, 47, 13))
}

fn key(f: impl FnOnce(&mut NavInput)) -> NavInput {
    let mut i = NavInput::default();
    f(&mut i);
    i
}

#[test]
fn down_moves_through_rows_and_stops_at_the_last() {
    let mut g = screen(3);
    for expected in [1, 2, 2] {
        g.apply_nav(key(|i| i.down = true), 3, 4, 0);
        assert_eq!(g.focused_row, expected);
    }
}

#[test]
fn up_from_the_first_row_reaches_the_filter_tabs() {
    let mut g = screen(3);
    g.apply_nav(key(|i| i.down = true), 3, 4, 0);
    assert_eq!(g.focus_layer, FocusLayer::Rows);

    g.apply_nav(key(|i| i.up = true), 3, 4, 0);
    assert_eq!(g.focused_row, 0);
    // Only from row 0 does Up leave the rows.
    assert_eq!(g.focus_layer, FocusLayer::Rows);

    g.apply_nav(key(|i| i.up = true), 3, 4, 0);
    assert_eq!(g.focus_layer, FocusLayer::FilterTabs);
}

#[test]
fn right_walks_programmes_then_scrolls_the_window() {
    let mut g = screen(2);
    let start = g.window_start;

    // Three programmes in the row: two moves stay put, the third scrolls.
    g.apply_nav(key(|i| i.right = true), 2, 4, 3);
    assert_eq!(g.focused_prog, 1);
    g.apply_nav(key(|i| i.right = true), 2, 4, 3);
    assert_eq!(g.focused_prog, 2);
    assert_eq!(g.window_start, start, "no scroll while cursor can advance");

    g.apply_nav(key(|i| i.right = true), 2, 4, 3);
    assert_eq!(g.focused_prog, 2, "cursor holds at the last programme");
    assert_eq!(g.window_start, start + 60 * SCROLL_STEP);
}

#[test]
fn left_at_the_first_programme_scrolls_backwards() {
    let mut g = screen(2);
    let start = g.window_start;
    g.apply_nav(key(|i| i.left = true), 2, 4, 3);
    assert_eq!(g.focused_prog, 0);
    assert_eq!(g.window_start, start - 60 * SCROLL_STEP);
}

#[test]
fn changing_row_resets_the_programme_cursor() {
    let mut g = screen(3);
    g.apply_nav(key(|i| i.right = true), 3, 4, 5);
    assert_eq!(g.focused_prog, 1);
    g.apply_nav(key(|i| i.down = true), 3, 4, 5);
    assert_eq!(g.focused_prog, 0, "a new row starts at its first programme");
}

#[test]
fn enter_selects_the_row_whatever_the_programme_cursor() {
    let mut g = screen(3);
    g.apply_nav(key(|i| i.down = true), 3, 4, 5);
    g.apply_nav(key(|i| i.right = true), 3, 4, 5);
    assert_eq!(g.focused_prog, 1);
    assert_eq!(
        g.apply_nav(key(|i| i.enter = true), 3, 4, 5),
        NavOutcome::Select(1),
        "Enter tunes the row, not the highlighted programme"
    );
}

#[test]
fn enter_on_an_empty_list_selects_nothing() {
    let mut g = screen(0);
    assert_eq!(
        g.apply_nav(key(|i| i.enter = true), 0, 4, 0),
        NavOutcome::Nothing
    );
}

#[test]
fn filter_tabs_clamp_at_both_ends_and_apply_on_enter() {
    let mut g = screen(2);
    g.apply_nav(key(|i| i.up = true), 2, 4, 0);
    assert_eq!(g.focus_layer, FocusLayer::FilterTabs);

    g.apply_nav(key(|i| i.left = true), 2, 4, 0);
    assert_eq!(g.filter_focus_idx, 0, "clamps at the first tab");

    for expected in [1, 2, 3, 3] {
        g.apply_nav(key(|i| i.right = true), 2, 4, 0);
        assert_eq!(g.filter_focus_idx, expected);
    }

    assert_eq!(
        g.apply_nav(key(|i| i.enter = true), 2, 4, 0),
        NavOutcome::ApplyFilter(3)
    );
}

#[test]
fn down_from_the_tabs_returns_to_the_rows() {
    let mut g = screen(2);
    g.apply_nav(key(|i| i.up = true), 2, 4, 0);
    g.apply_nav(key(|i| i.down = true), 2, 4, 0);
    assert_eq!(g.focus_layer, FocusLayer::Rows);
}

#[test]
fn moving_focus_requests_a_scroll() {
    let mut g = screen(20);
    assert!(!g.scroll_pending);
    g.apply_nav(key(|i| i.down = true), 20, 4, 0);
    assert!(g.scroll_pending, "a row move must ask the list to follow");

    g.scroll_pending = false;
    // Left/Right walk programmes, not rows — no scroll needed.
    g.apply_nav(key(|i| i.right = true), 20, 4, 3);
    assert!(!g.scroll_pending);
}

#[test]
fn floors_to_the_previous_half_hour() {
    let t = at(2026, 9, 19, 20, 47, 13);
    assert_eq!(
        floor_to_half_hour(t),
        at(2026, 9, 19, 20, 30, 0)
    );
    let t = at(2026, 9, 19, 20, 12, 59);
    assert_eq!(
        floor_to_half_hour(t),
        at(2026, 9, 19, 20, 0, 0)
    );
    // Already on a boundary: unchanged.
    let t = at(2026, 9, 19, 21, 0, 0);
    assert_eq!(floor_to_half_hour(t), t);
}

#[test]
fn the_calendar_ends_where_the_clock_does() {
    assert_eq!(DateTime::<Utc>::MIN_UTC.timestamp(), MIN_TIME);
    assert_eq!(DateTime::<Utc>::MAX_UTC.timestamp(), MAX_TIME);
    assert_eq!(MIN_TIME as i128 * NANOS, MIN_NANOS);
    let last = DateTime::<Utc>::MAX_UTC;
    assert_eq!(MAX_TIME as i128 * NANOS + last.timestamp_subsec_nanos() as i128, MAX_NANOS);
}

#[test]
fn the_end_of_the_calendar_stops_only_what_scrolls_past_it() {
    let right = key(|i| i.right = true);
    let left = key(|i| i.left = true);
    let mut g = screen(2);
    g.window_start = MAX_TIME - 60 * SCROLL_STEP + 1;
    assert!(!g.has_room(right, 0));
    assert!(g.has_room(right, 2), "the cursor still moves among the programmes");
    g.apply_nav(right, 2, 4, 2);
    assert_eq!((g.focused_prog, g.window_start), (1, MAX_TIME - 60 * SCROLL_STEP + 1));
    g.focused_prog = 0;
    assert!(g.has_room(left, 0));
    g.apply_nav(left, 2, 4, 0);
    assert_eq!(g.window_start, MAX_TIME - 120 * SCROLL_STEP + 1);

    g.window_start = MIN_TIME;
    assert!(g.has_room(right, 0));
    assert!(!g.has_room(left, 0));
    // Both at once: there and back again.
    assert!(g.has_room(key(|i| (i.left, i.right) = (true, true)), 0));
    // On another row the cursor starts at the first programme, before which the window moves.
    g.focused_prog = 1;
    assert!(g.has_room(left, 2));
    assert!(!g.has_room(key(|i| (i.left, i.down) = (true, true)), 2));
    g.focus_layer = FocusLayer::FilterTabs;
    assert!(g.has_room(left, 0));
}

#[test]
fn half_hours_before_the_epoch_are_floored_too() {
    assert_eq!(floor_to_half_hour(-1), -1800);
    assert_eq!(floor_to_half_hour(-1800), -1800);
    assert_eq!(floor_to_half_hour(MIN_TIME), MIN_TIME);
    assert_eq!(floor_to_half_hour(MAX_TIME), MAX_TIME - 1799);
    let g: GuideScreen<u32> = GuideScreen::new(Vec::new(), at(1969, 12, 31, 23, 59, 59));
    assert_eq!(g.window_start, at(1969, 12, 31, 23, 30, 0));
}

#[test]
fn channels_are_listed_by_number_with_the_unnumbered_last() {
    let mut none = chan("x", "X", 0);
    none.number = None;
    let mut none_too = chan("y", "Y", 0);
    none_too.number = None;
    let g: GuideScreen<u32> = GuideScreen::new(
        vec![none, chan("b", "B", 7), none_too, chan("a", "A", 1), chan("c", "C", 7)],
        0,
    );
    let ids: Vec<&str> = g.channels().iter().map(|c| c.id.as_str()).collect();
    assert_eq!(ids, ["a", "b", "c", "x", "y"]);
}

#[test]
fn locked_channels_are_neither_listed_nor_selected() {
    let mut locked = chan("b", "B", 2);
    locked.locked = true;
    let mut g: GuideScreen<u32> = GuideScreen::new(vec![chan("a", "A", 1), locked], 0);
    assert_eq!(g.filtered().len(), 1);
    g.show_locked = true;
    assert_eq!(g.filtered().len(), 2);

    let enter = key(|i| i.enter = true);
    g.focused_row = 1;
    assert!(matches!(g.show(enter, &Vec::new(), 0), GuideAction::Nothing));
    g.focused_row = 0;
    match g.show(enter, &Vec::new(), 0) {
        GuideAction::SelectChannel(c) => assert_eq!(c.id, "a"),
        other => panic!("{other:?}"),
    }
}

#[test]
fn a_filter_lists_its_category_from_the_first_row() {
    let mut sport = chan("s", "Sport", 3);
    sport.category = "Sport".into();
    let mut g: GuideScreen<u32> =
        GuideScreen::new(vec![chan("a", "A", 1), chan("b", "B", 2), sport], 0);
    let categories = vec!["Generalist".to_string(), "Sport".to_string()];
    let labels = filter_labels(&categories);
    assert_eq!(labels[0], ("Tout".to_string(), None));
    assert_eq!(labels[2], ("Sport".to_string(), Some("Sport".to_string())));

    g.focused_row = 2;
    g.focused_prog = 1;
    g.focus_layer = FocusLayer::FilterTabs;
    g.filter_focus_idx = 2;
    assert_eq!(g.tab_state(2, &labels[2].1), (true, false));
    assert!(matches!(
        g.show(key(|i| i.enter = true), &categories, 0),
        GuideAction::Nothing
    ));
    assert!(matches!(g.filter, CategoryFilter::Category(_)));
    assert_eq!((g.focused_row, g.focused_prog), (0, 0));
    assert!(g.scroll_pending);
    assert_eq!(g.focused_channel().unwrap().id, "s");
    assert_eq!(g.tab_state(2, &labels[2].1), (true, true));
    assert_eq!(g.tab_state(0, &labels[0].1), (false, false));
}

#[test]
fn the_schedule_is_asked_for_two_hours_of_the_focused_row() {
    let mut g = screen(2);
    let start = g.window_start;
    assert_eq!(
        g.programmes_wanted(),
        Some(("c0".to_string(), start, start + 60 * WINDOW))
    );
    g.focused_row = 2;
    assert_eq!(g.programmes_wanted(), None);
}

#[test]
fn rows_on_screen_name_the_focused_one() {
    let mut g = screen(5);
    g.focused_row = 3;
    g.set_visible(2, 5);
    assert_eq!(g.visible_channel_ids(), ["c2", "c3", "c4"]);
    assert_eq!(g.visible_focus(), Some(1));
    g.set_visible(0, 2);
    assert_eq!(g.visible_focus(), None);
    // A cursor behind the last row counts as on it.
    g.focused_row = 9;
    g.set_visible(3, 5);
    assert_eq!(g.visible_focus(), Some(1));
}

#[test]
fn a_capture_is_begun_only_for_a_known_channel_on_screen() {
    let mut g = screen(2);
    let target = Some("c1".to_string());
    assert!(g.begin_capture(&target, 5).is_none(), "no row is on screen");
    g.set_visible(0, 2);
    assert!(g.begin_capture(&None, 5).is_none());
    assert!(g.begin_capture(&Some("zz".to_string()), 5).is_none());
    assert_eq!(g.begin_capture(&target, 5).unwrap().id, "c1");
    assert!(g.previews.in_flight("c1"));
    assert_eq!(g.previews.last_attempt_at("c1"), Some(5));

    g.cancel_previews();
    assert_eq!(g.previews.in_flight_count(), 0);
}

#[test]
fn frames_and_failures_are_collected() {
    let mut g = screen(3);
    g.set_visible(0, 3);
    g.begin_capture(&Some("c0".to_string()), 1);
    g.begin_capture(&Some("c1".to_string()), 1);
    g.focused_row = 1;
    let moved = g.collect(vec![("c0".to_string(), 7)], &vec!["c1".to_string()], 9);
    assert!(moved, "the focus has moved");
    assert_eq!(g.previews.peek("c0"), Some(&7));
    assert_eq!(g.previews.captured_at("c0"), Some(9));
    assert_eq!(g.previews.failures("c1"), 1);
    assert_eq!(g.previews.in_flight_count(), 0);
    assert!(!g.collect(Vec::new(), &Vec::new(), 10));
}

#[test]
fn a_row_shows_live_video_of_its_own_channel_only() {
    let live = Some("a".to_string());
    assert_eq!(
        row_picture(true, &live, "a", true),
        RowPicture::Live { over_still: true }
    );
    assert_eq!(row_picture(true, &live, "b", true), RowPicture::Still);
    assert_eq!(row_picture(false, &live, "a", false), RowPicture::Name);
    assert_eq!(row_picture(true, &None, "a", true), RowPicture::Still);
    assert_eq!(initials("France 2"), "Fra");
    assert_eq!(initials("M6"), "M6");
}

#[test]
fn programmes_are_clipped_to_the_window() {
    let w = at(2026, 9, 19, 20, 0, 0);
    let n = |seconds: i64| seconds as i128 * NANOS;
    assert_eq!(programme_span(n(w - 1800), n(w + 3600), w), (0, 60));
    assert_eq!(programme_span(n(w + 1830), n(w + 99999), w), (30, 89));
    // Fractions of a second count.
    assert_eq!(programme_span(n(w + 60) - 1, n(w + 120), w), (0, 1));
    assert_eq!(programme_span(n(w + 60) + 1, n(w + 120), w), (1, 0));
    assert_eq!(now_line(n(w + 119), w), Some(1));
    assert_eq!(now_line(n(w + 60 * WINDOW), w), Some(120));
    assert_eq!(now_line(n(w + 60 * WINDOW) + NANOS / 2, w), None);
    assert_eq!(now_line(n(w) - 1, w), None);
    // A programme that ends before it begins has a negative width.
    assert_eq!(programme_span(n(w + 600), n(w + 390), w), (10, -3));
    assert_eq!(
        ruler_marks(w),
        [(0, w), (30, w + 1800), (60, w + 3600), (90, w + 5400)]
    );
}
