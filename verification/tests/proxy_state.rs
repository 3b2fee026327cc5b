use frenchetv::fmp4::Fmp4Error;
use frenchetv::license::build_pssh_from_kid;
use frenchetv::proxy::HostError;
use frenchetv::proxy_state::{
    ends_header, finish_media, is_media_segment, manifest_reply, manifest_url, not_found_reply,
    request_path, response_bytes, segment_reply, InitError, MpdReply, ProxyState, Route,
    SegmentError, MPD_TTL,
};
use frenchetv::segment_flow::{dump_name, SegmentAction};

const KID: [u8; 16] = [3; 16];

fn bx(fourcc: &[u8; 4], payload: &[u8]) -> Vec<u8> {
    let mut out = (payload.len() as u32 + 8).to_be_bytes().to_vec();
    out.extend_from_slice(fourcc);
    out.extend_from_slice(payload);
    out
}

fn media(size: u32) -> Vec<u8> {
    let mut trun = vec![0, 0, 2, 0, 0, 0, 0, 1];
    trun.extend_from_slice(&size.to_be_bytes());
    let mut senc = vec![0, 0, 0, 0, 0, 0, 0, 1];
    senc.extend_from_slice(&[0xee; 8]);
    let traf = [bx(b"tfhd", &[0; 8]), bx(b"trun", &trun), bx(b"senc", &senc)].concat();
    [bx(b"moof", &bx(b"traf", &traf)), bx(b"mdat", &[1, 2, 3])].concat()
}

fn state() -> ProxyState {
    ProxyState::start(
        "<MPD><BaseURL>https://cdn.fr/a/</BaseURL></MPD>",
        "https://cdn.fr/a/manifest.mpd",
        4321,
    )
}

#[test]
fn requests_are_routed() {
    assert_eq!(request_path("GET /manifest.mpd HTTP/1.1\r\n").as_deref(), Some("/manifest.mpd"));
    assert_eq!(request_path("GET\r\n"), None);
    assert!(ends_header("\r\n") && ends_header("") && !ends_header("Host: x\r\n"));

    let proxy = state();
    assert!(matches!(proxy.route("/manifest.mpd"), Route::Manifest));
    assert!(matches!(proxy.route("/manifest.mpd?x=1"), Route::Manifest));
    assert!(matches!(proxy.route("/cdn/https/cdn.fr/a/s.dash"), Route::Segment(p) if p == "https/cdn.fr/a/s.dash"));
    assert!(matches!(proxy.route("/cdnnum/audio/3"), Route::NotFound));
    assert!(matches!(proxy.route("/other"), Route::NotFound));
}

#[test]
fn answers_are_framed() {
    let bytes = response_bytes(&manifest_reply("<MPD/>"));
    let text = String::from_utf8(bytes).unwrap();
    assert!(text.starts_with("HTTP/1.1 200 OK\r\nContent-Type: application/dash+xml\r\n"), "{text}");
    assert!(text.contains("Content-Length: 6\r\n"));
    assert!(text.ends_with("\r\n\r\n<MPD/>"));
    let bad = segment_reply(Err("no route".to_string()));
    assert_eq!((bad.status.as_str(), bad.body.as_slice()), ("502 Bad Gateway", &b"no route"[..]));
    let good = segment_reply(Ok(vec![1, 2]));
    assert_eq!((good.content_type.as_str(), good.body), ("video/mp4", vec![1, 2]));
    assert_eq!(not_found_reply().status, "404 Not Found");
    assert_eq!(manifest_url(4321), "http://127.0.0.1:4321/manifest.mpd");
}

#[test]
fn only_hosts_of_the_manifest_are_dialled() {
    let proxy = state();
    assert_eq!(proxy.segment_url("https/cdn.fr/a/s.dash").unwrap(), "https://cdn.fr/a/s.dash");
    assert!(matches!(
        proxy.segment_url("https/evil.example/a"),
        Err(SegmentError::Host(HostError::Disallowed(h))) if h == "https://evil.example"
    ));
    assert!(matches!(
        proxy.segment_url("https/"),
        Err(SegmentError::Host(HostError::Unparseable(_)))
    ));
    assert!(matches!(proxy.segment_url("gopher/x"), Err(SegmentError::Path(_))));
}

#[test]
fn the_manifest_is_served_from_memory_for_a_moment() {
    let mut proxy = state();
    assert_eq!(proxy.cached_mpd(0), None);
    let first = proxy.refresh_mpd(&MpdReply::Failed, 10);
    assert_eq!(first, "<MPD><BaseURL>http://127.0.0.1:4321/cdn/https/cdn.fr/a/</BaseURL></MPD>");
    assert_eq!(proxy.cached_mpd(10 + MPD_TTL - 1), Some(first));
    assert_eq!(proxy.cached_mpd(10 + MPD_TTL), None);

    let body = MpdReply::Body {
        text: "<MPD><BaseURL>https://new.fr/</BaseURL></MPD>".to_string(),
        url: "https://new.fr/m.mpd".to_string(),
    };
    let second = proxy.refresh_mpd(&body, 20);
    assert!(second.contains("/cdn/https/new.fr/"));
    assert!(proxy.segment_url("https/new.fr/x").is_ok());
    assert!(proxy.segment_url("https/cdn.fr/x").is_err(), "the hosts are those of the last one");
}

#[test]
fn segments_are_kept_for_a_moment() {
    let mut proxy = state();
    assert_eq!(proxy.cached_segment("p", 0), None);
    proxy.store_segment("p", vec![7], 0);
    assert_eq!(proxy.cached_segment("p", 1), Some(vec![7]));
    assert_eq!(proxy.cached_segment("p", u64::MAX), None);
}

#[test]
fn an_init_segment_gives_the_key() {
    let mut proxy = state();
    assert!(proxy.needs_init());
    assert_eq!(proxy.accept_fetched_init(&[]).unwrap_err(), InitError::NoEncryptionInfo);
    let init = bx(b"moov", &build_pssh_from_kid(&KID));
    let plain = proxy.accept_init(&init);
    assert_eq!(plain, bx(b"moov", &[]));
    assert!(!proxy.needs_init());
    let plan = proxy.plan_media(&media(3)).unwrap();
    assert_eq!(plan.key_id, KID);
}

#[test]
fn a_media_segment_is_planned_and_rebuilt() {
    let mut proxy = state();
    proxy.accept_init(&bx(b"moov", &build_pssh_from_kid(&KID)));
    let data = media(3);
    assert!(is_media_segment(&data) && !is_media_segment(&bx(b"moov", &[])));
    let plan = proxy.plan_media(&data).unwrap();
    assert_eq!(plan.steps.len(), 1);
    assert_eq!(plan.steps[0].data, [1, 2, 3]);
    assert_eq!(plan.steps[0].enc.as_ref().unwrap().iv, [0xee; 8]);
    let rebuilt = finish_media(&data, &plan, &[vec![9, 8, 7]]);
    assert!(rebuilt.ends_with(&bx(b"mdat", &[9, 8, 7])));
    assert!(!rebuilt.windows(4).any(|w| w == b"senc"));

    assert!(matches!(proxy.plan_media(&media(4)), Err(SegmentError::SampleOutOfRange)));
    assert!(matches!(proxy.plan_media(&[]), Err(SegmentError::Parse(Fmp4Error::NoMoof))));
}

#[test]
fn a_segment_begins_in_memory_or_at_its_host() {
    let mut proxy = state();
    assert!(matches!(
        proxy.begin_segment("https/cdn.fr/a/s-1.dash", 0),
        SegmentAction::Fetch(url) if url == "https://cdn.fr/a/s-1.dash"
    ));
    assert!(matches!(
        proxy.begin_segment("https/evil.example/a", 0),
        SegmentAction::Fail(SegmentError::Host(HostError::Disallowed(_)))
    ));
    proxy.store_segment("https/cdn.fr/a/s-1.dash", vec![7], 0);
    assert!(matches!(
        proxy.begin_segment("https/cdn.fr/a/s-1.dash", 1),
        SegmentAction::Serve(data) if data == [7]
    ));
}

#[test]
fn an_init_segment_is_served_clear_and_kept() {
    let mut proxy = state();
    let init = bx(b"moov", &build_pssh_from_kid(&KID));
    let path = "https/cdn.fr/a/s.dash";
    assert!(matches!(
        proxy.segment_fetched(path, "https://cdn.fr/a/s.dash", &init, 0),
        SegmentAction::Serve(plain) if plain == bx(b"moov", &[])
    ));
    assert!(!proxy.needs_init());
    assert!(matches!(
        proxy.begin_segment(path, 1),
        SegmentAction::Serve(plain) if plain == bx(b"moov", &[])
    ));
}

#[test]
fn the_first_media_segment_waits_for_its_init_segment() {
    let mut proxy = state();
    let path = "https/cdn.fr/a/s-12.dash?t=1";
    let url = "https://cdn.fr/a/s-12.dash?t=1";
    assert!(matches!(
        proxy.segment_fetched(path, url, &media(3), 0),
        SegmentAction::FetchInit(u) if u == "https://cdn.fr/a/s.dash?t=1"
    ));
    let init = bx(b"moov", &build_pssh_from_kid(&KID));
    let plan = match proxy.init_fetched(&Some(init), &media(3)) {
        SegmentAction::Decrypt(plan) => plan,
        other => panic!("{other:?}"),
    };
    assert_eq!(plan.key_id, KID);

    let served = proxy.segment_decrypted(path, &media(3), &plan, &[vec![9, 8, 7]], 5);
    assert!(served.ends_with(&bx(b"mdat", &[9, 8, 7])));
    assert!(matches!(proxy.begin_segment(path, 6), SegmentAction::Serve(data) if data == served));
    // The key is known now.
    assert!(matches!(
        proxy.segment_fetched(path, url, &media(3), 7),
        SegmentAction::Decrypt(p) if p.key_id == KID
    ));
}

#[test]
fn a_media_segment_goes_on_without_an_init_segment() {
    let mut proxy = state();
    assert!(matches!(
        proxy.init_fetched(&None, &media(3)),
        SegmentAction::Decrypt(p) if p.key_id == [0; 16]
    ));
    assert!(matches!(
        proxy.segment_fetched("https/cdn.fr/a/s.mp4", "https://cdn.fr/a/s.mp4", &media(3), 0),
        SegmentAction::Decrypt(_)
    ));
    assert!(matches!(
        proxy.init_fetched(&None, &media(4)),
        SegmentAction::Fail(SegmentError::SampleOutOfRange)
    ));
}

#[test]
fn audio_segments_are_kept_under_their_number_and_name() {
    assert_eq!(
        dump_name(7, "media", "https/cdn/x/ch1-audio=96000-12.dash?t=1"),
        Some("00007_media_ch1-audio_96000-12.dash_t_1".to_string())
    );
    assert_eq!(dump_name(123456, "init", "a-audio_\u{e9}"), Some("123456_init_a-audio_\u{e9}".to_string()));
    // The path says what it is, in any of its parts.
    assert_eq!(dump_name(10, "media", "x-audio/"), Some("00010_media_".to_string()));
    assert_eq!(dump_name(0, "media", "https/cdn/ch1-video=1.dash"), None);
}
