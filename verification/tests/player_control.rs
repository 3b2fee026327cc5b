use frenchetv::player_control::{
    command_line, connect_step, has_new_frame, header_target, ipc_arguments, ipc_line, ipc_play_commands,
    ipc_stop_command, play_steps, poll_step, read_reply, render_plan, reply_kind, setup_steps, socket_name, supports_cdm,
    window_arguments, ConnectStep, HeaderTarget, PlayerStep, PollStep, RenderPlan, ReplyKind,
};

fn headers() -> Vec<(String, String)> {
    [("REFERER", "https://tv"), ("User-Agent", "frenchetv"), ("X-S", "abc")]
        .map(|(n, v)| (n.to_string(), v.to_string()))
        .to_vec()
}

fn words(list: &[&str]) -> Vec<String> {
    list.iter().map(|w| w.to_string()).collect()
}

#[test]
fn two_headers_have_options_of_their_own() {
    assert_eq!(header_target("referrer"), HeaderTarget::Referrer);
    assert_eq!(header_target("USER-AGENT"), HeaderTarget::UserAgent);
    assert_eq!(header_target("Cookie"), HeaderTarget::Field);
    assert!(supports_cdm("--foo\n --cdm-store String") && !supports_cdm("--foo"));
}

#[test]
fn a_window_is_opened_with_arguments() {
    assert_eq!(
        window_arguments("u", &Some("B".to_string()), &headers(), &Some("/cdm".to_string())),
        words(&[
            "--force-window=yes",
            "--http-header-fields=Authorization: B",
            "--referrer=https://tv",
            "--user-agent=frenchetv",
            "--http-header-fields=X-S: abc",
            "--cdm-store=/cdm",
            "--hwdec=no",
            "--demuxer-lavf-analyzeduration=1",
            "u",
        ])
    );
    assert_eq!(
        window_arguments("u", &None, &Vec::new(), &None),
        words(&["--force-window=yes", "--hwdec=no", "--demuxer-lavf-analyzeduration=1", "u"])
    );
}

#[test]
fn the_embedded_player_is_told_headers_properties_and_stream() {
    let steps = play_steps("u", &Some("B".to_string()), &headers(), &None);
    let command = |w: &[&str]| PlayerStep::Command(words(w));
    let property = |n: &str, v: &str| PlayerStep::Property(n.to_string(), v.to_string());
    assert_eq!(
        steps,
        [
            command(&["stop"]),
            command(&["change-list", "http-header-fields", "clr", ""]),
            command(&["change-list", "http-header-fields", "append", "Authorization: B"]),
            property("referrer", "https://tv"),
            property("user-agent", "frenchetv"),
            command(&["change-list", "http-header-fields", "append", "X-S: abc"]),
            property("hwdec", "no"),
            property("audio-buffer", "0.2"),
            property("cache", "yes"),
            PlayerStep::Seconds("demuxer-readahead-secs".to_string(), 3),
            property("cache-pause", "no"),
            property("audio-stream-silence", "yes"),
            property("loop-file", "no"),
            property("loop-playlist", "no"),
            command(&["loadfile", "u", "replace"]),
        ]
    );
    let with_cdm = play_steps("u", &None, &Vec::new(), &Some("/cdm".to_string()));
    assert_eq!(with_cdm[with_cdm.len() - 2], property("cdm-store", "/cdm"));
    assert_eq!(setup_steps()[0], property("vo", "libmpv"));
}

#[test]
fn the_controlled_player_is_told_the_same_over_its_socket() {
    let commands = ipc_play_commands("u", &None, &headers());
    assert_eq!(
        commands,
        [
            words(&["stop"]),
            words(&["change-list", "http-header-fields", "clr", ""]),
            words(&["set_property", "referrer", "https://tv"]),
            words(&["set_property", "user-agent", "frenchetv"]),
            words(&["change-list", "http-header-fields", "append", "X-S: abc"]),
            words(&["loadfile", "u", "replace"]),
        ]
    );
    assert_eq!(ipc_line(&ipc_stop_command()), "{\"command\":[\"stop\"]}\n");
    assert_eq!(
        ipc_line(&words(&["a\"b", "é\n"])),
        "{\"command\":[\"a\\\"b\",\"é\\n\"]}\n"
    );
    assert_eq!(command_line("[]"), "{\"command\":[]}\n");
    let args = ipc_arguments("/run/s.sock", &None);
    assert_eq!(args.len(), 15);
    assert_eq!(args[14], "--input-ipc-server=/run/s.sock");
    assert_eq!(ipc_arguments("s", &Some("/c".to_string()))[15], "--cdm-store=/c");
    assert_eq!(socket_name(42), "frenchetv-mpv-42.sock");
}

#[test]
fn pictures_are_drawn_no_larger_than_needed() {
    assert_eq!(poll_step(0, 5, true), PollStep::Empty);
    assert_eq!(poll_step(5, 5, false), PollStep::Cached);
    assert_eq!(poll_step(5, 5, true), PollStep::Ask);
    assert!(has_new_frame(3, 1) && !has_new_frame(2, 1));
    assert_eq!(
        render_plan(1920, 1080),
        RenderPlan { width: 1280, height: 720, stride: 5120, bytes: 3_686_400 }
    );
    assert_eq!(
        render_plan(10, 20),
        RenderPlan { width: 10, height: 20, stride: 40, bytes: 800 }
    );
}

#[test]
fn what_the_player_replies_is_told_apart() {
    assert_eq!(read_reply(r#"{"event":"seek"}"#), ReplyKind::Seek);
    assert_eq!(read_reply(r#"{"event":"end-file","reason":"eof"}"#), ReplyKind::EndOfFile);
    assert_eq!(read_reply(r#"{"event":"idle","error":"x"}"#), ReplyKind::Nothing);
    assert_eq!(read_reply(r#"{"request_id":0,"error":"success"}"#), ReplyKind::Nothing);
    assert_eq!(read_reply(r#"{"error":"invalid parameter"}"#), ReplyKind::Refused);
    assert_eq!(read_reply(r#"{"event":7}"#), ReplyKind::Refused);
    assert_eq!(read_reply("[]"), ReplyKind::Refused);
    assert_eq!(read_reply("no JSON"), ReplyKind::Nothing);
    assert_eq!(reply_kind(&None, &Some("success".to_string())), ReplyKind::Nothing);
    assert_eq!(reply_kind(&Some("seek".to_string()), &None), ReplyKind::Seek);
}

#[test]
fn the_socket_is_tried_fifty_times() {
    assert_eq!(connect_step(1), ConnectStep::TryAgain(20));
    assert_eq!(connect_step(49), ConnectStep::TryAgain(20));
    assert_eq!(connect_step(50), ConnectStep::GiveUp);
}
