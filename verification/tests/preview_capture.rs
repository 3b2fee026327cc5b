use frenchetv::channel::Channel;
use frenchetv::preview::{PREVIEW_HEIGHT, PREVIEW_WIDTH};
use frenchetv::preview_capture::{
    capture_input, decode_logo, decode_preview, header_config, is_frame_file, mpv_args, preview_pssh, report,
    settle, work_dir_name, CaptureError, Engine, MpvPreviewCapture, Outcome,
};

fn channel(id: &str) -> Channel {
    Channel {
        id: id.into(),
        name: id.into(),
        logo_url: None,
        number: None,
        category: "Generalist".into(),
        locked: false,
    }
}

#[test]
fn newest_request_replaces_the_one_waiting() {
    let mut engine = Engine::new();
    engine.post(channel("tf1"));
    engine.post(channel("m6"));

    let (taken, _) = engine.take().expect("a request");
    assert_eq!(taken.id, "m6", "a stale target must not be captured first");
    engine.shutdown();
    assert!(engine.take().is_none(), "nothing else was queued");
}

#[test]
fn cancel_discards_the_queued_request() {
    let mut engine = Engine::new();
    engine.post(channel("tf1"));
    engine.cancel();
    engine.shutdown();

    assert!(engine.take().is_none());
}

#[test]
fn cancel_after_pickup_reaches_the_running_capture() {
    let mut engine = Engine::new();
    engine.post(channel("tf1"));
    let (_, generation) = engine.take().expect("a request");

    engine.cancel();

    assert!(
        engine.has_changed(generation),
        "a cancel landing between pick-up and the first await must not be lost"
    );
}

#[test]
fn cancel_before_a_request_does_not_abandon_it() {
    let mut engine = Engine::new();
    engine.cancel();
    engine.post(channel("tf1"));

    let (_, generation) = engine.take().expect("a request");

    assert!(
        !engine.has_changed(generation),
        "the new request was posted after the cancel and is still wanted"
    );
}

#[test]
fn shutdown_releases_a_waiting_worker() {
    let mut engine = Engine::new();
    assert!(!engine.is_ready(), "the worker waits");
    engine.shutdown();
    assert!(engine.is_ready());
    assert!(engine.take().is_none());
    engine.post(channel("tf1"));
    assert!(engine.take().is_none(), "nothing is queued any more");
}

// ── budget and cancellation ──────────────────────────────────────────────

#[test]
fn work_that_finishes_inside_the_budget_is_delivered() {
    let mut engine = Engine::new();
    engine.post(channel("tf1"));
    let (_, generation) = engine.take().unwrap();

    let out = settle(
        engine.has_changed(generation),
        false,
        Some(Ok::<_, CaptureError>(7u8)),
    );

    assert!(matches!(out, Some(Ok(7))));
}

#[test]
fn work_that_overruns_the_budget_is_abandoned() {
    let mut engine = Engine::new();
    engine.post(channel("tf1"));
    let (_, generation) = engine.take().unwrap();

    let out = settle::<u8>(engine.has_changed(generation), true, None);

    assert!(matches!(out, Some(Err(CaptureError::TimedOut))));
}

#[test]
fn a_cancelled_capture_is_abandoned_even_when_it_has_a_frame_ready() {
    let mut engine = Engine::new();
    engine.post(channel("tf1"));
    let (_, generation) = engine.take().unwrap();
    engine.cancel();

    let out = settle(
        engine.has_changed(generation),
        false,
        Some(Ok::<_, CaptureError>(7u8)),
    );

    assert!(
        matches!(out, Some(Err(CaptureError::Cancelled))),
        "a frame the guide already disowned must not be delivered"
    );
}

#[test]
fn a_cancel_mid_capture_stops_it() {
    let mut engine = Engine::new();
    engine.post(channel("tf1"));
    let (_, generation) = engine.take().unwrap();

    // Nothing has happened yet: the capture goes on.
    assert!(settle::<u8>(engine.has_changed(generation), false, None).is_none());
    engine.cancel();
    let out = settle::<u8>(engine.has_changed(generation), false, None);

    assert!(matches!(out, Some(Err(CaptureError::Cancelled))));
}

// ── command line ─────────────────────────────────────────────────────────

#[test]
fn the_command_line_asks_for_one_silent_downscaled_frame() {
    let args = mpv_args(
        "http://127.0.0.1:9/manifest.mpd",
        "/tmp/cap",
        "/tmp/cap/options.conf",
    );

    assert!(args.contains(&"--frames=1".to_string()));
    assert!(args.contains(&"--no-audio".to_string()));
    assert!(args.contains(&"--no-config".to_string()));
    assert!(args.contains(&"--vo=image".to_string()));
    assert!(args.contains(&"--vo-image-outdir=/tmp/cap".to_string()));
    assert!(args.contains(&"--include=/tmp/cap/options.conf".to_string()));
    // Pinned exactly, not matched loosely: this string was verified against
    // mpv 0.41 by hand, and a stray space from a wrapped `format!` would
    // make mpv reject the whole filter chain and write a full-resolution
    // frame instead — which still "works", just slowly and wrongly.
    let expected_vf = "--vf=lavfi=[scale=256:144:force_original_aspect_ratio=decrease,pad=256:144:(ow-iw)/2:(oh-ih)/2,setsar=1]";
    assert!(
        args.contains(&expected_vf.to_string()),
        "the frame must be downscaled by mpv, not after readback: {args:?}"
    );
}

#[test]
fn the_url_is_the_last_argument_and_cannot_be_read_as_an_option() {
    let args = mpv_args(
        "-weird-url",
        "/tmp/cap",
        "/tmp/o.conf",
    );
    assert_eq!(args[args.len() - 2], "--");
    assert_eq!(args[args.len() - 1], "-weird-url");
}

#[test]
fn credentials_go_in_the_options_file_not_the_command_line() {
    let headers = vec![
        ("Referer".to_string(), "https://tv.example".to_string()),
        ("User-Agent".to_string(), "frenchetv".to_string()),
        ("X-Session".to_string(), "abc123".to_string()),
    ];
    let config = header_config(&headers, &Some("Bearer secret".to_string()));

    assert!(config.contains("http-header-fields-append=Authorization: Bearer secret\n"));
    assert!(config.contains("referrer=https://tv.example\n"));
    assert!(config.contains("user-agent=frenchetv\n"));
    assert!(config.contains("http-header-fields-append=X-Session: abc123\n"));
    // Referer and User-Agent have dedicated options; appending them to the
    // header list as well would send each header twice.
    assert!(!config.contains("http-header-fields-append=Referer"));
    assert!(!config.contains("http-header-fields-append=User-Agent"));
}

#[test]
fn a_proxied_stream_needs_no_options_at_all() {
    assert_eq!(header_config(&Vec::new(), &None), "");
}

// ── frame decode ─────────────────────────────────────────────────────────

fn png_of(width: u32, height: u32) -> Vec<u8> {
    let image =
        image::DynamicImage::ImageRgb8(image::RgbImage::from_fn(width, height, |x, _| {
            image::Rgb([(x % 256) as u8, 0, 0])
        }));
    let mut out = std::io::Cursor::new(Vec::new());
    image
        .write_to(&mut out, image::ImageFormat::Png)
        .expect("encode");
    out.into_inner()
}

#[test]
fn a_correctly_sized_frame_decodes_unchanged() {
    let frame =
        decode_preview(&png_of(PREVIEW_WIDTH as u32, PREVIEW_HEIGHT as u32)).expect("decode");
    assert_eq!(frame.size, [PREVIEW_WIDTH, PREVIEW_HEIGHT]);
}

#[test]
fn an_unscaled_frame_is_brought_back_to_preview_size() {
    // The guard path: mpv rejected the filter chain and wrote full
    // resolution. The cache's texture upload would panic on any other size.
    let frame = decode_preview(&png_of(1280, 720)).expect("decode");
    assert_eq!(frame.size, [PREVIEW_WIDTH, PREVIEW_HEIGHT]);
}

#[test]
fn a_truncated_frame_is_an_error_not_a_panic() {
    assert!(decode_preview(b"not a png at all").is_err());
}

#[test]
fn pixels_of_a_frame_are_those_of_its_picture() {
    let frame = decode_preview(&png_of(256, 144)).expect("decode");
    assert_eq!(frame.rgba.len(), 4 * 256 * 144);
    // The picture grows redder from left to right, opaque everywhere.
    assert_eq!(&frame.rgba[..8], &[0, 0, 0, 255, 1, 0, 0, 255]);
    assert_eq!(&frame.rgba[4 * 255..4 * 256], &[255, 0, 0, 255]);
    // One of half the size is stretched, not copied.
    let small = decode_preview(&png_of(128, 72)).expect("decode");
    assert_eq!(small.rgba.len(), 4 * 256 * 144);
    assert_eq!(small.rgba[4 * 255], 127);
}

#[test]
fn only_what_is_wanted_is_reported() {
    assert!(matches!(
        report("a".to_string(), Ok(5u8)),
        Some(Outcome::Frame { channel_id, image: 5 }) if channel_id == "a"
    ));
    assert!(report::<u8>("a".to_string(), Err(CaptureError::Cancelled)).is_none());
    assert!(matches!(
        report::<u8>("a".to_string(), Err(CaptureError::TimedOut)),
        Some(Outcome::Failed { channel_id }) if channel_id == "a"
    ));
}

#[test]
fn without_a_player_every_request_fails_at_once() {
    let mut capture = MpvPreviewCapture::<u8>::new(false);
    assert!(!capture.is_available());
    assert!(capture.request(&channel("tf1")).is_none());
    assert_eq!(capture.poll_failures(), ["tf1"]);
    assert!(capture.poll_failures().is_empty());

    let mut capture = MpvPreviewCapture::<u8>::new(true);
    assert_eq!(capture.request(&channel("tf1")).unwrap().id, "tf1");
    capture.absorb(Outcome::Frame { channel_id: "tf1".to_string(), image: 3 });
    capture.absorb(Outcome::Failed { channel_id: "m6".to_string() });
    assert_eq!(capture.poll(), [("tf1".to_string(), 3)]);
    assert!(capture.poll().is_empty());
    assert_eq!(capture.poll_failures(), ["m6"]);
}

#[test]
fn failures_say_what_happened() {
    assert_eq!(CaptureError::Cancelled.message(), "cancelled");
    assert_eq!(CaptureError::TimedOut.message(), "timed out after 8s");
    assert_eq!(
        CaptureError::at_stage("license", "no key").message(),
        "license: no key"
    );
}

#[test]
fn a_protected_stream_is_opened_through_its_proxy() {
    let headers = vec![("X-Session".to_string(), "abc".to_string())];
    let input = capture_input(
        Some("http://127.0.0.1:9/manifest.mpd".to_string()),
        "https://cdn/x.mpd".to_string(),
        headers.clone(),
        Some("Bearer s".to_string()),
    );
    assert_eq!(input.url, "http://127.0.0.1:9/manifest.mpd");
    assert_eq!(header_config(&input.headers, &input.auth), "");

    let input = capture_input(None, "https://cdn/x.mpd".to_string(), headers, Some("B".to_string()));
    assert_eq!(input.url, "https://cdn/x.mpd");
    assert_eq!(
        header_config(&input.headers, &input.auth),
        "http-header-fields-append=Authorization: B\nhttp-header-fields-append=X-Session: abc\n"
    );
}

#[test]
fn frames_are_told_by_their_extension() {
    assert_eq!(work_dir_name(12, 3), "frenchetv-preview-12-3");
    for name in ["00000001.png", "a.png", "options.conf", ".png", "png", "x.PNG", "a.b.png", "..png"] {
        let std = std::path::Path::new(name)
            .extension()
            .is_some_and(|e| e == "png");
        assert_eq!(is_frame_file(name), std, "{name}");
    }
}

#[test]
fn the_operators_license_data_goes_before_the_manifests() {
    assert_eq!(
        preview_pssh(&Some(vec![1, 2]), "<MPD></MPD>"),
        Some(vec![1, 2])
    );
    assert_eq!(preview_pssh(&None, "<MPD></MPD>"), None);
}

#[test]
fn a_logo_keeps_its_size() {
    let (width, height, rgba) = decode_logo(&png_of(3, 2)).expect("decode");
    assert_eq!((width, height), (3, 2));
    assert_eq!(rgba[..12], [0, 0, 0, 255, 1, 0, 0, 255, 2, 0, 0, 255]);
    assert_eq!(rgba.len(), 24);
    assert_eq!(decode_logo(b"not a picture"), None);
}
