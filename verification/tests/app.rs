use frenchetv::app::{restore_candidate, wanted_logos, App, AppMsg, Effect, Screen};
use frenchetv::auth::{
    auth_next, auth_start, channels_message, error_chain, stream_message, AuthAction, AuthEvent,
    AuthPhase, FetchError,
};
use frenchetv::channel::Channel;
use frenchetv::drm_startup::{
    choose_startup_pssh, probe_init_segment_url, DrmAction, DrmEvent, DrmStartup,
};
use frenchetv::license::build_pssh_from_kid;
use frenchetv::screens::channel_list::ChannelListAction;
use frenchetv::screens::otp::OtpAction;
use frenchetv::screens::player::PlayerAction;
use frenchetv::screens::setup::SetupAction;

fn chan(id: &str, logo: Option<&str>) -> Channel {
    Channel {
        id: id.into(),
        name: id.into(),
        logo_url: logo.map(str::to_string),
        number: None,
        category: "Generalist".into(),
        locked: false,
    }
}

fn connected(ids: &[&str]) -> App {
    let mut app = App::new(false);
    app.on_message(AppMsg::ChannelsOk {
        channels: ids.iter().map(|id| chan(id, None)).collect(),
        session_token: None,
        kind_str: "orange".to_string(),
        username: "me".to_string(),
    });
    app
}

fn error_of(app: &App) -> Option<&str> {
    match &app.screen {
        Screen::Setup(s) => s.error_message.as_deref(),
        _ => None,
    }
}

// ── messages ─────────────────────────────────────────────────────────────

#[test]
fn a_session_is_restored_only_where_one_is_configured() {
    assert!(restore_candidate("orange", "me"));
    assert!(!restore_candidate("", "me") && !restore_candidate("orange", ""));
    assert!(matches!(App::new(true).screen, Screen::Restoring(_)));
    assert!(matches!(App::new(false).screen, Screen::Setup(_)));
}

#[test]
fn a_failed_restoration_leads_to_the_setup_screen() {
    let mut app = App::new(true);
    assert!(app.on_message(AppMsg::ChannelsErr("boom".to_string())).is_empty());
    assert_eq!(error_of(&app), Some("Erreur chargement chaînes : boom"));

    let mut app = App::new(true);
    let effects = app.on_message(AppMsg::SessionExpired);
    assert!(matches!(&effects[..], [Effect::DropOperator]));
    assert_eq!(error_of(&app), Some("Session expirée. Veuillez vous reconnecter."));
}

#[test]
fn a_failed_authentication_leads_back() {
    let mut app = App::new(false);
    app.on_message(AppMsg::PushAuthPending);
    assert!(matches!(app.screen, Screen::PushWait(_)));
    let effects = app.on_message(AppMsg::AuthErr("no".to_string()));
    assert!(matches!(&effects[..], [Effect::DropResponder]));
    assert_eq!(error_of(&app), Some("Connexion échouée : no"));
    app.on_message(AppMsg::AuthErr("again".to_string()));
    assert_eq!(error_of(&app), Some("Connexion échouée : again"));

    let mut app = connected(&["a"]);
    assert!(app.on_message(AppMsg::AuthErr("late".to_string())).is_empty());
    assert!(matches!(app.screen, Screen::ChannelList(_)));
}

#[test]
fn channels_are_kept_listed_and_their_logos_fetched() {
    let mut app = App::new(false);
    let effects = app.on_message(AppMsg::ChannelsOk {
        channels: vec![chan("a", Some("u1")), chan("b", None), chan("c", Some("u2")), chan("d", Some("u1"))],
        session_token: Some("t".to_string()),
        kind_str: "orange".to_string(),
        username: "me".to_string(),
    });
    match &effects[..] {
        [Effect::SaveSession { kind, username, token }, Effect::FetchLogos(urls), Effect::KeepOperator] => {
            assert_eq!((kind.as_str(), username.as_str(), token.as_str()), ("orange", "me", "t"));
            assert_eq!(urls, &["u1", "u2"]);
        }
        other => panic!("{other:?}"),
    }
    assert!(app.has_operator);
    assert_eq!(app.channels.len(), 4);
    assert!(matches!(&app.screen, Screen::ChannelList(l) if l.channels.len() == 4));
    assert_eq!(wanted_logos(&app.channels), ["u1", "u2"]);

    let effects = app.on_message(AppMsg::SessionExpired);
    assert!(matches!(&effects[..], [Effect::ClearSession { kind, .. }, Effect::DropOperator] if kind == "orange"));
    assert!(app.channels.is_empty() && app.current_session.is_none() && !app.has_operator);
}

#[test]
fn protected_streams_are_played_through_the_proxy() {
    let mut app = connected(&["a", "b"]);
    assert!(app.on_message(AppMsg::StreamOk { protected: false }).is_empty(), "no player is shown");
    app.on_list(ChannelListAction::SelectChannel(Box::new(chan("a", None))));
    let effects = app.on_message(AppMsg::StreamOk { protected: true });
    assert!(matches!(&effects[..], [Effect::StartDrm]));
    let url = "http://127.0.0.1:9/manifest.mpd".to_string();
    let effects = app.on_message(AppMsg::DrmProxyReady { proxy_mpd_url: url.clone() });
    assert!(matches!(&effects[..], [Effect::KeepProxy, Effect::PlayProxy(u)] if *u == url));
    let effects = app.on_message(AppMsg::DrmProxyReady { proxy_mpd_url: "nonsense".to_string() });
    assert!(matches!(&effects[..], [Effect::KeepProxy]));
    let effects = app.on_message(AppMsg::StreamOk { protected: false });
    assert!(matches!(&effects[..], [Effect::Play]));
    app.on_message(AppMsg::DrmProxyErr("x".to_string()));
    assert!(matches!(app.screen, Screen::ChannelList(_)));
    assert!(app.on_message(AppMsg::WidevineDone).is_empty());
}

#[test]
fn a_code_is_sent_once() {
    let mut app = App::new(false);
    assert!(matches!(&app.on_message(AppMsg::OtpRequired)[..], [Effect::KeepResponder]));
    assert!(matches!(app.on_otp(OtpAction::Submit("1".to_string())), Some(Effect::SendCode(c)) if c == "1"));
    assert!(app.on_otp(OtpAction::Submit("2".to_string())).is_none());
    assert!(app.on_otp(OtpAction::Nothing).is_none());
    assert!(matches!(app.on_otp(OtpAction::Cancel), Some(Effect::DropResponder)));
    assert!(matches!(app.screen, Screen::Setup(_)));
    let start = SetupAction::StartAuth {
        operator: "o".to_string(),
        username: "u".to_string(),
        password: "p".to_string(),
        extra: None,
    };
    assert!(matches!(app.on_setup(start), Some(Effect::StartAuth { .. })));
    assert!(app.on_setup(SetupAction::Nothing).is_none());
}

#[test]
fn channels_have_neighbours_all_the_way_round() {
    let mut app = connected(&["a", "b", "c"]);
    let resolved = |e: Option<Effect>| match e {
        Some(Effect::ResolveStream(c)) => c.id,
        other => panic!("{other:?}"),
    };
    assert_eq!(resolved(app.on_player(PlayerAction::NextChannel, "a")), "b");
    assert_eq!(resolved(app.on_player(PlayerAction::NextChannel, "c")), "a");
    assert_eq!(resolved(app.on_player(PlayerAction::PrevChannel, "a")), "c");
    assert_eq!(resolved(app.on_player(PlayerAction::PrevChannel, "c")), "b");
    assert!(app.on_player(PlayerAction::NextChannel, "zz").is_none());
    assert!(matches!(app.on_player(PlayerAction::Back, "a"), Some(Effect::DropProxy)));
    assert!(matches!(app.on_list(ChannelListAction::ChangeProvider), Some(Effect::DropOperator)));
    assert!(app.on_list(ChannelListAction::SelectChannel(Box::new(chan("a", None)))).is_none());
}

// ── authentication ───────────────────────────────────────────────────────

#[test]
fn authentication_goes_through_its_phases() {
    assert_eq!(auth_start(true), AuthAction::Begin);
    assert_eq!(auth_start(false), AuthAction::Authenticate);
    assert_eq!(auth_next(AuthEvent::Reached(AuthPhase::Password)), AuthAction::SendPassword);
    assert_eq!(auth_next(AuthEvent::Reached(AuthPhase::Push)), AuthAction::AwaitPush);
    assert_eq!(auth_next(AuthEvent::Reached(AuthPhase::Otp)), AuthAction::AskCode);
    assert_eq!(
        auth_next(AuthEvent::Code(Some("1".to_string()))),
        AuthAction::SubmitCode("1".to_string())
    );
    assert_eq!(auth_next(AuthEvent::Code(None)), AuthAction::Stop);
    assert_eq!(auth_next(AuthEvent::Reached(AuthPhase::Done)), AuthAction::FetchChannels);
    assert_eq!(
        auth_next(AuthEvent::Failed("e".to_string())),
        AuthAction::Report("e".to_string())
    );
}

#[test]
fn rejected_sessions_have_expired() {
    let fetched = |r| channels_message(r, None, "k".to_string(), "u".to_string());
    assert!(matches!(fetched(Ok(vec![])), AppMsg::ChannelsOk { .. }));
    assert!(matches!(fetched(Err(FetchError::InvalidCredentials)), AppMsg::SessionExpired));
    assert!(matches!(fetched(Err(FetchError::Other("x".to_string()))), AppMsg::ChannelsErr(m) if m == "x"));
    assert!(matches!(stream_message(Ok(true)), AppMsg::StreamOk { protected: true }));
    assert!(matches!(stream_message(Err(FetchError::InvalidCredentials)), AppMsg::SessionExpired));
    let chain = error_chain("a", &vec!["b".to_string(), "c".to_string()]);
    assert_eq!(chain, "a → b → c");
    assert!(matches!(stream_message(Err(FetchError::Other(chain))), AppMsg::StreamErr(_)));
}

// ── setting up decryption ────────────────────────────────────────────────

const MPD: &str = r#"<MPD><BaseURL> dash/ </BaseURL>
<SegmentTemplate initialization="ch-$RepresentationID$.dash?a=1&amp;b=2"/>
<Representation id="video=1" bandwidth="5"/></MPD>"#;

#[test]
fn the_first_init_segment_is_named() {
    assert_eq!(
        probe_init_segment_url(MPD, "https://cdn/x/m.mpd?u=a/b").as_deref(),
        Some("https://cdn/x/dash/ch-video=1.dash?a=1&b=2")
    );
    let absolute = MPD.replace(" dash/ ", "https://other/y");
    assert_eq!(
        probe_init_segment_url(&absolute, "https://cdn/x/m.mpd").as_deref(),
        Some("https://other/y/ch-video=1.dash?a=1&b=2")
    );
    let none = MPD.replace("<BaseURL> dash/ </BaseURL>", "");
    assert_eq!(
        probe_init_segment_url(&none, "https://cdn/x/m.mpd").as_deref(),
        Some("https://cdn/x/ch-video=1.dash?a=1&b=2")
    );
    assert_eq!(probe_init_segment_url(&MPD.replace("</BaseURL>", ""), "https://cdn/m"), None);
    assert_eq!(probe_init_segment_url("<MPD/>", "https://cdn/m"), None);
}

#[test]
fn the_license_data_of_the_init_segment_goes_first() {
    let pssh = build_pssh_from_kid(&[5; 16]);
    let mut init = (pssh.len() as u32 + 8).to_be_bytes().to_vec();
    init.extend_from_slice(b"moov");
    init.extend_from_slice(&pssh);
    let operator = Some(vec![1]);
    assert_eq!(choose_startup_pssh(&Some(init), &operator, MPD), Some(pssh));
    assert_eq!(choose_startup_pssh(&Some(vec![0]), &operator, MPD), operator);
    assert_eq!(choose_startup_pssh(&None, &None, MPD), None);
}

#[test]
fn decryption_is_set_up_step_by_step() {
    let (mut s, first) = DrmStartup::begin(Some(Some(vec![1, 2])));
    assert!(matches!(first, DrmAction::OpenCdm));
    assert!(matches!(s.step(DrmEvent::CdmOpened(Ok(()))), DrmAction::InitializeCdm));
    assert!(matches!(s.step(DrmEvent::CdmInitialized(Ok(()))), DrmAction::BuildClient));
    assert!(matches!(s.step(DrmEvent::ClientBuilt(Ok(()))), DrmAction::FetchManifest));
    let url = "https://cdn/x/m.mpd".to_string();
    assert!(matches!(s.step(DrmEvent::ManifestFetched(Ok(url.clone()))), DrmAction::ReadManifest));
    match s.step(DrmEvent::ManifestRead(Ok(MPD.to_string()))) {
        DrmAction::FetchInit(u) => assert_eq!(u, "https://cdn/x/dash/ch-video=1.dash?a=1&b=2"),
        other => panic!("{other:?}"),
    }
    assert!(matches!(s.step(DrmEvent::InitFetched(None)), DrmAction::AcquireLicense(p) if p == [1, 2]));
    assert!(matches!(s.step(DrmEvent::Licensed(Ok(()))), DrmAction::StartProxy { mpd_url, mpd_text } if mpd_url == url && mpd_text == MPD));
    assert!(matches!(s.step(DrmEvent::ProxyStarted(Ok("p".to_string()))), DrmAction::Ready(u) if u == "p"));
}

#[test]
fn decryption_fails_with_a_reason() {
    let reason = |a: DrmAction| match a {
        DrmAction::Fail(m) => m,
        other => panic!("{other:?}"),
    };
    let (mut s, first) = DrmStartup::begin(None);
    assert_eq!(reason(first), "stream has no protection data");
    let e = || Err("e".to_string());
    assert_eq!(reason(s.step(DrmEvent::CdmOpened(Err("e".to_string())))), "CDM open failed: e");
    assert_eq!(reason(s.step(DrmEvent::CdmInitialized(Err("e".to_string())))), "CDM init failed: e");
    assert_eq!(reason(s.step(DrmEvent::ClientBuilt(Err("e".to_string())))), "CDN client build failed: e");
    assert_eq!(reason(s.step(DrmEvent::ManifestFetched(e()))), "MPD fetch failed: e");
    assert_eq!(reason(s.step(DrmEvent::ManifestRead(e()))), "MPD read failed: e");
    assert_eq!(
        reason(s.step(DrmEvent::ManifestRead(Ok("<MPD/>".to_string())))),
        "PSSH not found in init segment or MPD"
    );
    assert_eq!(reason(s.step(DrmEvent::Licensed(Err("e".to_string())))), "License exchange failed: e");
    assert_eq!(reason(s.step(DrmEvent::ProxyStarted(e()))), "Proxy start failed: e");
}
