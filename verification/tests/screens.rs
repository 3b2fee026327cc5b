use frenchetv::channel::Channel;
use frenchetv::guide::{filter_labels, NavInput};
use frenchetv::screens::channel_list::{
    empty_message, is_found, locked_label, tile_label, ChannelListAction, ChannelListScreen,
    GridLayer, ListEvents,
};
use frenchetv::screens::otp::{OtpAction, OtpScreen};
use frenchetv::screens::player::{
    PlayerAction, PlayerKeys, PlayerScreen, PlayerState, INFO_TIME,
};
use frenchetv::screens::push_wait::{PushWaitScreen, SECOND};
use frenchetv::screens::restoring::RestoringScreen;
use frenchetv::screens::setup::{OperatorNeeds, SetupAction, SetupScreen};

fn chan(id: &str, name: &str, number: Option<u32>) -> Channel {
    Channel {
        id: id.into(),
        name: name.into(),
        logo_url: None,
        number,
        category: "Generalist".into(),
        locked: false,
    }
}

fn list(n: u32) -> ChannelListScreen {
    ChannelListScreen::new(
        (0..n)
            .map(|i| chan(&format!("c{i}"), &format!("Chaine {i}"), Some(i)))
            .collect(),
    )
}

fn key(f: impl FnOnce(&mut NavInput)) -> NavInput {
    let mut i = NavInput::default();
    f(&mut i);
    i
}

fn focus(l: &ChannelListScreen) -> (usize, usize) {
    (l.focused_row, l.focused_col)
}

// ── list of channels ─────────────────────────────────────────────────────

#[test]
fn a_search_looks_at_names_and_numbers() {
    let mut l = ChannelListScreen::new(vec![
        chan("a", "ÉQUIPE", Some(21)),
        chan("b", "Arte", Some(7)),
        chan("c", "Local", None),
    ]);
    let ids = |l: &ChannelListScreen| -> Vec<String> {
        l.visible_channels().into_iter().map(|c| c.id).collect()
    };
    assert_eq!(ids(&l), ["b", "a", "c"]);
    l.search = "équ".to_string();
    assert_eq!(ids(&l), ["a"]);
    l.search = "2".to_string();
    assert_eq!(ids(&l), ["a"]);
    l.search = "zz".to_string();
    assert!(ids(&l).is_empty());

    assert!(is_found("arte", Some(7), ""));
    assert!(is_found("arte", Some(17), "7"));
    assert!(!is_found("arte", None, "7"));
}

#[test]
fn locked_channels_are_shown_on_demand() {
    let mut locked = chan("x", "X", Some(1));
    locked.locked = true;
    let mut l = ChannelListScreen::new(vec![chan("a", "A", Some(2)), locked.clone()]);
    assert_eq!(l.locked_count(), 1);
    assert_eq!(l.visible_channels().len(), 1);
    l.toggle_locked();
    assert_eq!(l.visible_channels().len(), 2);
    // A locked channel is not selected.
    assert!(matches!(l.nav_grid(key(|i| i.enter = true), 4), ChannelListAction::Nothing));
    assert!(matches!(l.click_tile(0, &locked, 4), ChannelListAction::Nothing));
    l.focused_col = 1;
    assert!(matches!(l.nav_grid(key(|i| i.enter = true), 4), ChannelListAction::SelectChannel(c) if c.id == "a"));
}

#[test]
fn arrows_move_within_the_grid() {
    // Seven tiles in rows of three.
    let mut l = list(7);
    for expected in [(0, 1), (0, 2), (0, 2)] {
        l.nav_grid(key(|i| i.right = true), 3);
        assert_eq!(focus(&l), expected);
    }
    for expected in [(1, 2), (2, 2), (2, 2)] {
        l.nav_grid(key(|i| i.down = true), 3);
        assert_eq!(focus(&l), expected);
    }
    // The last row has one tile only.
    assert!(matches!(l.nav_grid(key(|i| i.enter = true), 3), ChannelListAction::Nothing));
    l.nav_grid(key(|i| i.left = true), 3);
    l.nav_grid(key(|i| i.left = true), 3);
    assert!(matches!(l.nav_grid(key(|i| i.enter = true), 3), ChannelListAction::SelectChannel(c) if c.id == "c6"));
}

#[test]
fn the_tabs_are_reached_from_an_empty_grid_and_left_again() {
    let mut l = list(0);
    let labels = filter_labels(&vec!["Sport".to_string()]);
    l.nav_grid(key(|i| i.up = true), 3);
    assert_eq!(l.focus_layer, GridLayer::FilterTabs);
    l.nav_tabs(key(|i| i.down = true), &labels, 3);
    assert_eq!(l.focus_layer, GridLayer::Grid);
    // While the grid has the focus, the tabs do not react.
    l.nav_tabs(key(|i| i.right = true), &labels, 3);
    assert_eq!(l.filter_focus_idx, 0);
}

fn events(keys: Option<NavInput>) -> ListEvents {
    ListEvents {
        keys,
        window_cols: 3,
        grid_cols: 3,
        change_provider: false,
        toggle_locked: false,
        tab: None,
        tile: None,
    }
}

#[test]
fn a_key_moves_one_layer_only() {
    let labels = filter_labels(&vec!["Sport".to_string()]);
    let mut l = list(7);
    // Up leaves the first row; the tabs react from the next step on.
    let up_right = key(|i| {
        i.up = true;
        i.right = true;
    });
    assert!(matches!(l.show(&events(Some(up_right)), &labels), ChannelListAction::Nothing));
    assert_eq!((l.focus_layer, l.filter_focus_idx), (GridLayer::FilterTabs, 0));
    assert_eq!(focus(&l), (0, 1));
    // Down leads to the first tile, and no key selects it in the same step.
    let down_enter = key(|i| {
        i.down = true;
        i.enter = true;
    });
    assert!(matches!(l.show(&events(Some(down_enter)), &labels), ChannelListAction::Nothing));
    assert_eq!(l.focus_layer, GridLayer::Grid);
    assert_eq!(focus(&l), (0, 0));
    let enter = key(|i| i.enter = true);
    assert!(matches!(l.show(&events(Some(enter)), &labels), ChannelListAction::SelectChannel(c) if c.id == "c0"));
    // The keys may be a widget's.
    assert!(matches!(l.show(&events(None), &labels), ChannelListAction::Nothing));
}

#[test]
fn what_is_pressed_on_the_list_is_done() {
    let labels = filter_labels(&vec!["Sport".to_string()]);
    let mut l = list(7);
    let mut e = events(None);
    e.change_provider = true;
    e.toggle_locked = true;
    e.tab = Some(1);
    assert!(matches!(l.show(&e, &labels), ChannelListAction::ChangeProvider));
    assert!(l.show_locked);
    assert_eq!((l.focus_layer, l.filter_focus_idx), (GridLayer::FilterTabs, 1));
    assert!(l.visible_channels().is_empty());

    // A tile goes before everything else, unless its channel is locked.
    e.tab = None;
    e.tile = Some((4, chan("c4", "Chaine 4", Some(4))));
    assert!(matches!(l.show(&e, &labels), ChannelListAction::SelectChannel(c) if c.id == "c4"));
    assert_eq!(l.focus_layer, GridLayer::Grid);
    assert_eq!(focus(&l), (1, 1));
    let mut locked = chan("x", "X", None);
    locked.locked = true;
    e.tile = Some((0, locked));
    assert!(matches!(l.show(&e, &labels), ChannelListAction::ChangeProvider));
    assert_eq!(focus(&l), (1, 1));
}

#[test]
fn a_filter_leaves_the_focus_on_a_tile() {
    let mut l = list(9);
    let mut sport = chan("s", "Sport", Some(99));
    sport.category = "Sport".into();
    l.channels.push(sport);
    let labels = filter_labels(&vec!["Sport".to_string()]);
    l.focused_row = 2;
    l.focused_col = 2;
    l.focus_layer = GridLayer::FilterTabs;
    l.nav_tabs(key(|i| i.right = true), &labels, 3);
    l.nav_tabs(key(|i| i.right = true), &labels, 3);
    assert_eq!(l.filter_focus_idx, 1, "clamps at the last tab");
    l.nav_tabs(key(|i| i.enter = true), &labels, 3);
    assert_eq!(l.visible_channels().len(), 1);
    assert_eq!(focus(&l), (0, 0));
    l.click_tab(0, &None);
    assert_eq!((l.filter_focus_idx, l.visible_channels().len()), (0, 10));
}

#[test]
fn a_tile_that_is_pressed_has_the_focus() {
    let mut l = list(7);
    let c = l.visible_channels().remove(5);
    assert!(matches!(l.click_tile(5, &c, 3), ChannelListAction::SelectChannel(c) if c.id == "c5"));
    assert_eq!(focus(&l), (1, 2));
    assert_eq!(l.focus_layer, GridLayer::Grid);
}

#[test]
fn tiles_and_buttons_are_labelled() {
    let mut c = chan("a", "Arte", Some(7));
    assert_eq!(tile_label(&c, "L"), "7 · Arte");
    c.locked = true;
    assert_eq!(tile_label(&c, "L"), "7 · Arte  L");
    c.number = None;
    assert_eq!(tile_label(&c, "L"), "Arte  L");
    assert_eq!(locked_label(false, 3, "L"), "L  Afficher (3 canal(s))");
    assert_eq!(locked_label(true, 3, "L"), "L  Masquer (3 canal(s))");
    assert_eq!(empty_message(""), "Aucune chaîne dans cette catégorie.");
    assert_eq!(empty_message("foo"), "Aucun résultat pour « foo ».");
}

// ── one-time code ────────────────────────────────────────────────────────

#[test]
fn a_code_is_submitted_once_and_trimmed() {
    let mut s = OtpScreen::new();
    assert_eq!(s.show(true, false), OtpAction::Nothing, "nothing was typed");
    s.code = "  ".to_string();
    assert_eq!(s.show(true, false), OtpAction::Nothing);
    s.code = " 123456 ".to_string();
    assert_eq!(s.show(false, false), OtpAction::Nothing);
    assert_eq!(s.show(true, false), OtpAction::Submit("123456".to_string()));
    assert!(s.submitted);
    assert_eq!(s.show(true, true), OtpAction::Nothing, "it is being verified");
    assert_eq!(OtpScreen::default().show(false, true), OtpAction::Cancel);
}

// ── setup ────────────────────────────────────────────────────────────────

#[test]
fn authentication_begins_when_all_is_typed() {
    let needs = OperatorNeeds { auth: true, extra: true };
    let mut s = SetupScreen::new();
    assert!(matches!(s.show(true, needs), SetupAction::Nothing));
    s.select("bouygues");
    s.username = "u".to_string();
    s.password = "p".to_string();
    assert!(matches!(s.show(true, needs), SetupAction::Nothing), "the name is missing");
    s.extra = "Dupont".to_string();
    assert!(matches!(s.show(false, needs), SetupAction::Nothing));
    s.set_error("oops".to_string());
    match s.show(true, needs) {
        SetupAction::StartAuth { operator, username, password, extra } => {
            assert_eq!((operator.as_str(), username.as_str(), password.as_str()), ("bouygues", "u", "p"));
            assert_eq!(extra.as_deref(), Some("Dupont"));
        }
        other => panic!("{other:?}"),
    }
    assert!(s.loading && s.error_message.is_none());
    assert_eq!(s.button_label(), "Connexion…");
    s.set_error("refused".to_string());
    assert!(!s.loading);
    assert_eq!(s.button_label(), "Regarder la TV");

    let plain = OperatorNeeds { auth: true, extra: false };
    assert!(matches!(s.show(true, plain), SetupAction::StartAuth { extra: None, .. }));
    let none = OperatorNeeds { auth: false, extra: false };
    assert!(matches!(s.show(true, none), SetupAction::Nothing));
}

// ── player ───────────────────────────────────────────────────────────────

#[test]
fn the_information_is_shown_for_three_seconds() {
    let mut p = PlayerScreen::new(chan("a", "Arte", Some(7)));
    assert_eq!(p.loading_text(), "Chargement de Arte…");
    assert!(!p.has_frame());
    p.start_playing();
    assert!(p.has_frame() && p.info_visible);
    p.show(PlayerKeys::default(), INFO_TIME - 1);
    assert!(p.info_visible);
    p.show(PlayerKeys::default(), 1);
    assert!(!p.info_visible);
    p.show(PlayerKeys { enter: true, ..PlayerKeys::default() }, 1);
    assert!(p.info_visible);
    p.show(PlayerKeys { enter: true, fullscreen: true, ..PlayerKeys::default() }, 1);
    assert!(!p.info_visible && p.fullscreen);
}

#[test]
fn keys_of_the_player_have_an_order() {
    let mut p = PlayerScreen::new(chan("a", "Arte", Some(7)));
    let all = PlayerKeys { back: true, right: true, left: true, ..PlayerKeys::default() };
    assert_eq!(p.show(all, 0), PlayerAction::Back);
    assert_eq!(p.show(PlayerKeys { back: false, ..all }, 0), PlayerAction::NextChannel);
    assert_eq!(
        p.show(PlayerKeys { back: false, right: false, ..all }, 0),
        PlayerAction::PrevChannel
    );
    assert_eq!(p.show(PlayerKeys::default(), 0), PlayerAction::Nothing);
    p.start_playing();
    p.switch_channel(chan("b", "B", None));
    assert_eq!((p.channel_id(), p.state), ("b", PlayerState::Loading));
}

// ── waiting ──────────────────────────────────────────────────────────────

#[test]
fn the_expiry_is_shown_after_ten_seconds() {
    let mut w = PushWaitScreen::new();
    let t = w.show(SECOND / 4);
    assert_eq!((t.waiting.as_str(), t.expiry), ("En attente.", None));
    assert_eq!(w.show(SECOND / 4).waiting, "En attente..");
    assert_eq!(w.show(SECOND / 2).waiting, "En attente...");
    assert_eq!(w.show(SECOND / 2).waiting, "En attente.");
    assert_eq!(w.show(17 * SECOND / 2).expiry, None);
    assert_eq!(w.show(1).expiry.as_deref(), Some("Expiration dans 79s"));
    assert_eq!(w.show(200 * SECOND).expiry.as_deref(), Some("Expiration dans 0s"));
    assert_eq!(w.show(u64::MAX).expiry.as_deref(), Some("Expiration dans 0s"));
    assert_eq!(RestoringScreen::new().show("*"), "*  Reconnexion en cours…");
}
