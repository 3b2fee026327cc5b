use frenchetv::capture_flow::{CaptureAction, CaptureEvent, CaptureFlow, CaptureStream};
use frenchetv::license::{build_pssh_from_kid, extract_pssh_from_mpd};

fn stream(protection: Option<Option<Vec<u8>>>) -> CaptureStream {
    CaptureStream {
        url: "https://cdn.fr/live.mpd".to_string(),
        headers: vec![("X-Token".to_string(), "secret".to_string())],
        auth: Some("Bearer t".to_string()),
        protection,
    }
}

fn failure(action: CaptureAction) -> String {
    match action {
        CaptureAction::Fail(e) => e.message(),
        other => panic!("{other:?}"),
    }
}

fn broken<T>() -> Result<T, String> {
    Err("x".to_string())
}

#[test]
fn an_unprotected_stream_is_captured_as_it_is() {
    let mut flow = CaptureFlow::new();
    assert!(matches!(flow.step(CaptureEvent::Resolved(Ok(stream(None)))), CaptureAction::MakeDirectory));
    match flow.step(CaptureEvent::DirectoryMade(Ok(()))) {
        CaptureAction::WriteOptions(o) => assert_eq!(
            o,
            "http-header-fields-append=Authorization: Bearer t\nhttp-header-fields-append=X-Token: secret\n"
        ),
        other => panic!("{other:?}"),
    }
    match flow.step(CaptureEvent::OptionsWritten(Ok(("/d".to_string(), "/d/o".to_string())))) {
        CaptureAction::StartPlayer(args) => {
            assert_eq!(args.last().map(String::as_str), Some("https://cdn.fr/live.mpd"));
        }
        other => panic!("{other:?}"),
    }
    assert!(matches!(flow.step(CaptureEvent::PlayerStarted(Ok(()))), CaptureAction::AwaitPlayer));
    assert!(matches!(
        flow.step(CaptureEvent::PlayerEnded(Ok("exit status: 2".to_string()))),
        CaptureAction::ReadFrame
    ));
    assert!(matches!(flow.step(CaptureEvent::FrameRead(Some(vec![1]))), CaptureAction::Decode(p) if p == [1]));
    assert_eq!(
        failure(flow.step(CaptureEvent::FrameRead(None))),
        "mpv produced no frame (exit status: 2)"
    );
}

#[test]
fn a_protected_stream_is_captured_through_its_proxy() {
    let mut flow = CaptureFlow::new();
    assert!(matches!(
        flow.step(CaptureEvent::Resolved(Ok(stream(Some(Some(vec![9])))))),
        CaptureAction::OpenCdm
    ));
    assert!(matches!(flow.step(CaptureEvent::CdmOpened(Ok(()))), CaptureAction::InitializeCdm));
    assert!(matches!(flow.step(CaptureEvent::CdmInitialized(Ok(()))), CaptureAction::BuildClient));
    assert!(matches!(
        flow.step(CaptureEvent::ClientBuilt(Ok(()))),
        CaptureAction::FetchManifest(u) if u == "https://cdn.fr/live.mpd"
    ));
    assert!(matches!(
        flow.step(CaptureEvent::ManifestFetched(Ok("https://edge.fr/live.mpd".to_string()))),
        CaptureAction::ReadManifest
    ));
    assert!(matches!(
        flow.step(CaptureEvent::ManifestRead(Ok("<MPD/>".to_string()))),
        CaptureAction::AcquireLicense(p) if p == [9]
    ));
    assert!(matches!(
        flow.step(CaptureEvent::Licensed(Ok(()))),
        CaptureAction::StartProxy { mpd_text, mpd_url }
            if mpd_text == "<MPD/>" && mpd_url == "https://edge.fr/live.mpd"
    ));
    let proxy = "http://127.0.0.1:1/manifest.mpd";
    assert!(matches!(
        flow.step(CaptureEvent::ProxyStarted(Ok(proxy.to_string()))),
        CaptureAction::MakeDirectory
    ));
    assert!(matches!(
        flow.step(CaptureEvent::DirectoryMade(Ok(()))),
        CaptureAction::WriteOptions(o) if o.is_empty()
    ));
    assert!(matches!(
        flow.step(CaptureEvent::OptionsWritten(Ok(("/d".to_string(), "/d/o".to_string())))),
        CaptureAction::StartPlayer(args) if args.last().map(String::as_str) == Some(proxy)
    ));
}

#[test]
fn the_manifest_may_hold_the_license_request_data() {
    let kid = "00112233-4455-6677-8899-aabbccddeeff";
    let mpd = format!(
        "<MPD><ContentProtection schemeIdUri=\"urn:uuid:edef8ba9-79d6-4ace-a3c8-27dcd51d21ed\" cenc:default_KID=\"{kid}\"></ContentProtection></MPD>"
    );
    let expected = extract_pssh_from_mpd(&mpd).unwrap();
    assert_eq!(expected, build_pssh_from_kid(&[
        0x00, 0x11, 0x22, 0x33, 0x44, 0x55, 0x66, 0x77, 0x88, 0x99, 0xaa, 0xbb, 0xcc, 0xdd, 0xee, 0xff,
    ]));
    let mut flow = CaptureFlow::new();
    flow.step(CaptureEvent::Resolved(Ok(stream(Some(None)))));
    assert!(matches!(
        flow.step(CaptureEvent::ManifestRead(Ok(mpd))),
        CaptureAction::AcquireLicense(p) if p == expected
    ));
    assert_eq!(
        failure(flow.step(CaptureEvent::ManifestRead(Ok("<MPD/>".to_string())))),
        "no PSSH in protection data or MPD"
    );
}

#[test]
fn a_capture_names_the_stage_that_failed() {
    let mut flow = CaptureFlow::new();
    let told: Vec<String> = vec![
        failure(flow.step(CaptureEvent::Resolved(broken()))),
        failure(flow.step(CaptureEvent::CdmOpened(broken()))),
        failure(flow.step(CaptureEvent::CdmInitialized(broken()))),
        failure(flow.step(CaptureEvent::ClientBuilt(broken()))),
        failure(flow.step(CaptureEvent::ManifestFetched(broken()))),
        failure(flow.step(CaptureEvent::ManifestRead(broken()))),
        failure(flow.step(CaptureEvent::Licensed(broken()))),
        failure(flow.step(CaptureEvent::ProxyStarted(broken()))),
        failure(flow.step(CaptureEvent::DirectoryMade(broken()))),
        failure(flow.step(CaptureEvent::OptionsWritten(broken()))),
        failure(flow.step(CaptureEvent::PlayerStarted(broken()))),
        failure(flow.step(CaptureEvent::PlayerEnded(broken()))),
    ];
    assert_eq!(
        told,
        [
            "resolve: x", "CDM open: x", "CDM init: x", "CDN client: x", "MPD fetch: x",
            "MPD read: x", "license: x", "proxy start: x", "workdir: x", "workdir: x",
            "spawn mpv: x", "mpv wait: x",
        ]
    );
}
