//! What the players are told: the commands, properties and arguments for a stream, and when
//! a picture is drawn anew.

use crate::text;
use crate::text::{
    chars_of, has_text, push_number, push_text, same_chars, same_text, text_of, to_lower,
};
use vstd::prelude::*;

verus! {

/// How a request header is handed to a player.
#[derive(Debug, Clone, Copy, PartialEq, Eq)]
pub enum HeaderTarget {
    /// By the player's option for the referring page.
    Referrer,
    /// By the player's option for its name.
    UserAgent,
    /// In the list of further headers.
    Field,
}

/// How a request header of this name is handed to a player.
pub open spec fn target_of(name: Seq<char>) -> HeaderTarget {
    if text::lower(name) == "referer"@ || text::lower(name) == "referrer"@ {
        HeaderTarget::Referrer
    } else if text::lower(name) == "user-agent"@ {
        HeaderTarget::UserAgent
    } else {
        HeaderTarget::Field
    }
}

/// How a request header of this name is handed to a player.
pub fn header_target(name: &str) -> (r: HeaderTarget)
    ensures
        r == target_of(name@),
{
    let lowered = to_lower(chars_of(name).as_slice());
    if same_chars(lowered.as_slice(), chars_of("referer").as_slice()) || same_chars(
        lowered.as_slice(),
        chars_of("referrer").as_slice(),
    ) {
        HeaderTarget::Referrer
    } else if same_chars(lowered.as_slice(), chars_of("user-agent").as_slice()) {
        HeaderTarget::UserAgent
    } else {
        HeaderTarget::Field
    }
}

/// The texts of a list.
pub open spec fn texts(list: Seq<String>) -> Seq<Seq<char>> {
    list.map_values(|s: String| s@)
}

/// Three texts, one behind the other.
fn joined3(a: &str, b: &str, c: &str) -> (r: String)
    ensures
        r@ == a@ + b@ + c@,
{
    let mut out: Vec<char> = chars_of(a);
    push_text(&mut out, b);
    push_text(&mut out, c);
    text_of(out.as_slice())
}

/// Whether a player's list of options names the one for the decryption module.
pub fn supports_cdm(options: &str) -> (r: bool)
    ensures
        r == text::contains(options@, "cdm-store"@),
{
    has_text(chars_of(options).as_slice(), "cdm-store")
}

// ---------------------------------------------------------------------------
// A player in a window of its own
// ---------------------------------------------------------------------------

/// The argument for a request header.
pub open spec fn header_arg(name: Seq<char>, value: Seq<char>) -> Seq<char> {
    match target_of(name) {
        HeaderTarget::Referrer => "--referrer="@ + value,
        HeaderTarget::UserAgent => "--user-agent="@ + value,
        HeaderTarget::Field => "--http-header-fields="@ + (name + ": "@ + value),
    }
}

/// The arguments with which a stream is played in a window of its own.
pub open spec fn window_args(
    url: Seq<char>,
    auth: Option<Seq<char>>,
    headers: Seq<(String, String)>,
    cdm_dir: Option<Seq<char>>,
) -> Seq<Seq<char>> {
    let first = seq!["--force-window=yes"@];
    let authorised = match auth {
        Some(a) => first.push("--http-header-fields=Authorization: "@ + a),
        None => first,
    };
    let with_headers = authorised + headers.map_values(
        |h: (String, String)| header_arg(h.0@, h.1@),
    );
    let with_cdm = match cdm_dir {
        Some(d) => with_headers.push("--cdm-store="@ + d),
        None => with_headers,
    };
    with_cdm + seq!["--hwdec=no"@, "--demuxer-lavf-analyzeduration=1"@, url]
}

/// The arguments with which a stream is played in a window of its own.
pub fn window_arguments(
    url: &str,
    auth: &Option<String>,
    headers: &Vec<(String, String)>,
    cdm_dir: &Option<String>,
) -> (r: Vec<String>)
    ensures
        texts(r@) == window_args(
            url@,
            text::opt_text(*auth),
            headers@,
            text::opt_text(*cdm_dir),
        ),
{
    let mut r: Vec<String> = Vec::new();
    r.push("--force-window=yes".to_owned());
    match auth {
        Some(a) => r.push(text::joined("--http-header-fields=Authorization: ", a.as_str())),
        None => {},
    }
    let ghost authorised = texts(r@);
    let ghost arg = |h: (String, String)| header_arg(h.0@, h.1@);
    let mut i: usize = 0;
    assert(texts(r@) =~= authorised + headers@.take(0).map_values(arg));
    while i < headers.len()
        invariant
            i <= headers@.len(),
            arg == (|h: (String, String)| header_arg(h.0@, h.1@)),
            texts(r@) == authorised + headers@.take(i as int).map_values(arg),
        decreases headers@.len() - i,
    {
        let name = headers[i].0.as_str();
        let value = headers[i].1.as_str();
        let ghost before = texts(r@);
        let one = match header_target(name) {
            HeaderTarget::Referrer => text::joined("--referrer=", value),
            HeaderTarget::UserAgent => text::joined("--user-agent=", value),
            HeaderTarget::Field => {
                let field = joined3(name, ": ", value);
                text::joined("--http-header-fields=", field.as_str())
            },
        };
        assert(one@ == header_arg(name@, value@));
        r.push(one);
        i += 1;
        proof {
            assert(texts(r@) =~= before.push(header_arg(name@, value@)));
            assert(headers@.take(i as int).map_values(arg) =~= headers@.take(i - 1).map_values(
                arg,
            ).push(header_arg(name@, value@)));
        }
    }
    assert(headers@.take(i as int) =~= headers@);
    match cdm_dir {
        Some(d) => r.push(text::joined("--cdm-store=", d.as_str())),
        None => {},
    }
    r.push("--hwdec=no".to_owned());
    r.push("--demuxer-lavf-analyzeduration=1".to_owned());
    r.push(url.to_owned());
    proof {
        assert(authorised =~= match text::opt_text(*auth) {
            Some(a) => seq!["--force-window=yes"@].push(
                "--http-header-fields=Authorization: "@ + a,
            ),
            None => seq!["--force-window=yes"@],
        });
        assert(texts(r@) =~= window_args(
            url@,
            text::opt_text(*auth),
            headers@,
            text::opt_text(*cdm_dir),
        ));
    }
    r
}

// ---------------------------------------------------------------------------
// The embedded player
// ---------------------------------------------------------------------------

/// One thing that the embedded player is told.
#[derive(Debug, PartialEq, Eq)]
pub enum PlayerStep {
    /// A command with its arguments.
    Command(Vec<String>),
    /// A property and its value.
    Property(String, String),
    /// A property and its value in seconds.
    Seconds(String, u32),
}

/// What is known of a `PlayerStep`.
pub enum StepView {
    Command(Seq<Seq<char>>),
    Property(Seq<char>, Seq<char>),
    Seconds(Seq<char>, u32),
}

impl PlayerStep {
    pub open spec fn view(&self) -> StepView {
        match self {
            PlayerStep::Command(args) => StepView::Command(texts(args@)),
            PlayerStep::Property(name, value) => StepView::Property(name@, value@),
            PlayerStep::Seconds(name, value) => StepView::Seconds(name@, *value),
        }
    }
}

/// The steps of a list.
pub open spec fn step_views(steps: Seq<PlayerStep>) -> Seq<StepView> {
    steps.map_values(|s: PlayerStep| s@)
}

/// Adds a field to the request headers.
pub open spec fn append_field(field: Seq<char>) -> StepView {
    StepView::Command(seq!["change-list"@, "http-header-fields"@, "append"@, field])
}

/// The step for a request header.
pub open spec fn header_step(name: Seq<char>, value: Seq<char>) -> StepView {
    match target_of(name) {
        HeaderTarget::Referrer => StepView::Property("referrer"@, value),
        HeaderTarget::UserAgent => StepView::Property("user-agent"@, value),
        HeaderTarget::Field => append_field(name + ": "@ + value),
    }
}

/// The steps before a stream is loaded: playback is stopped, and the request headers of the
/// last stream are replaced.
pub open spec fn header_steps(auth: Option<Seq<char>>, headers: Seq<(String, String)>) -> Seq<
    StepView,
> {
    let cleared = seq![
        StepView::Command(seq!["stop"@]),
        StepView::Command(seq!["change-list"@, "http-header-fields"@, "clr"@, ""@]),
    ];
    let authorised = match auth {
        Some(a) => cleared.push(append_field("Authorization: "@ + a)),
        None => cleared,
    };
    authorised + headers.map_values(|h: (String, String)| header_step(h.0@, h.1@))
}

/// What every stream is played with.
pub open spec fn playback_properties() -> Seq<StepView> {
    seq![
        StepView::Property("hwdec"@, "no"@),
        StepView::Property("audio-buffer"@, "0.2"@),
        StepView::Property("cache"@, "yes"@),
        StepView::Seconds("demuxer-readahead-secs"@, 3),
        StepView::Property("cache-pause"@, "no"@),
        StepView::Property("audio-stream-silence"@, "yes"@),
        StepView::Property("loop-file"@, "no"@),
        StepView::Property("loop-playlist"@, "no"@),
    ]
}

/// Loads a stream in place of the last one.
pub open spec fn load_step(url: Seq<char>) -> StepView {
    StepView::Command(seq!["loadfile"@, url, "replace"@])
}

/// A command of one word.
fn command1(a: &str) -> (r: PlayerStep)
    ensures
        r@ == StepView::Command(seq![a@]),
{
    let args: Vec<String> = vec![a.to_owned()];
    assert(texts(args@) =~= seq![a@]);
    PlayerStep::Command(args)
}

/// A command with two arguments.
fn command3(a: &str, b: &str, c: &str) -> (r: PlayerStep)
    ensures
        r@ == StepView::Command(seq![a@, b@, c@]),
{
    let args: Vec<String> = vec![a.to_owned(), b.to_owned(), c.to_owned()];
    assert(texts(args@) =~= seq![a@, b@, c@]);
    PlayerStep::Command(args)
}

/// A command with three arguments.
fn command4(a: &str, b: &str, c: &str, d: &str) -> (r: PlayerStep)
    ensures
        r@ == StepView::Command(seq![a@, b@, c@, d@]),
{
    let args: Vec<String> = vec![a.to_owned(), b.to_owned(), c.to_owned(), d.to_owned()];
    assert(texts(args@) =~= seq![a@, b@, c@, d@]);
    PlayerStep::Command(args)
}

/// A property and its value.
fn set(name: &str, value: &str) -> (r: PlayerStep)
    ensures
        r@ == StepView::Property(name@, value@),
{
    PlayerStep::Property(name.to_owned(), value.to_owned())
}

/// The steps before a stream is loaded.
pub fn request_header_steps(auth: &Option<String>, headers: &Vec<(String, String)>) -> (r: Vec<
    PlayerStep,
>)
    ensures
        step_views(r@) == header_steps(text::opt_text(*auth), headers@),
{
    let mut r: Vec<PlayerStep> = Vec::new();
    r.push(command1("stop"));
    r.push(command4("change-list", "http-header-fields", "clr", ""));
    match auth {
        Some(a) => {
            let field = text::joined("Authorization: ", a.as_str());
            r.push(command4("change-list", "http-header-fields", "append", field.as_str()));
        },
        None => {},
    }
    let ghost authorised = step_views(r@);
    let ghost step = |h: (String, String)| header_step(h.0@, h.1@);
    let mut i: usize = 0;
    assert(step_views(r@) =~= authorised + headers@.take(0).map_values(step));
    while i < headers.len()
        invariant
            i <= headers@.len(),
            step == (|h: (String, String)| header_step(h.0@, h.1@)),
            step_views(r@) == authorised + headers@.take(i as int).map_values(step),
        decreases headers@.len() - i,
    {
        let name = headers[i].0.as_str();
        let value = headers[i].1.as_str();
        let ghost before = step_views(r@);
        let one = match header_target(name) {
            HeaderTarget::Referrer => set("referrer", value),
            HeaderTarget::UserAgent => set("user-agent", value),
            HeaderTarget::Field => {
                let field = joined3(name, ": ", value);
                command4("change-list", "http-header-fields", "append", field.as_str())
            },
        };
        assert(one@ == header_step(name@, value@));
        r.push(one);
        i += 1;
        proof {
            assert(step_views(r@) =~= before.push(header_step(name@, value@)));
            assert(headers@.take(i as int).map_values(step) =~= headers@.take(i - 1).map_values(
                step,
            ).push(header_step(name@, value@)));
        }
    }
    proof {
        assert(headers@.take(i as int) =~= headers@);
        let cleared = seq![
            StepView::Command(seq!["stop"@]),
            StepView::Command(seq!["change-list"@, "http-header-fields"@, "clr"@, ""@]),
        ];
        assert(authorised =~= match text::opt_text(*auth) {
            Some(a) => cleared.push(append_field("Authorization: "@ + a)),
            None => cleared,
        });
    }
    r
}

/// The steps with which the embedded player plays a stream.
pub open spec fn embedded_steps(
    url: Seq<char>,
    auth: Option<Seq<char>>,
    headers: Seq<(String, String)>,
    cdm_dir: Option<Seq<char>>,
) -> Seq<StepView> {
    let ready = header_steps(auth, headers) + playback_properties();
    let with_cdm = match cdm_dir {
        Some(d) => ready.push(StepView::Property("cdm-store"@, d)),
        None => ready,
    };
    with_cdm.push(load_step(url))
}

/// The steps with which the embedded player plays a stream.
pub fn play_steps(
    url: &str,
    auth: &Option<String>,
    headers: &Vec<(String, String)>,
    cdm_dir: &Option<String>,
) -> (r: Vec<PlayerStep>)
    ensures
        step_views(r@) == embedded_steps(
            url@,
            text::opt_text(*auth),
            headers@,
            text::opt_text(*cdm_dir),
        ),
{
    let mut r: Vec<PlayerStep> = request_header_steps(auth, headers);
    let ghost first = step_views(r@);
    r.push(set("hwdec", "no"));
    r.push(set("audio-buffer", "0.2"));
    r.push(set("cache", "yes"));
    r.push(PlayerStep::Seconds("demuxer-readahead-secs".to_owned(), 3));
    r.push(set("cache-pause", "no"));
    r.push(set("audio-stream-silence", "yes"));
    r.push(set("loop-file", "no"));
    r.push(set("loop-playlist", "no"));
    match cdm_dir {
        Some(d) => r.push(set("cdm-store", d.as_str())),
        None => {},
    }
    r.push(command3("loadfile", url, "replace"));
    proof {
        assert forall|i: int| 0 <= i < first.len() implies #[trigger] step_views(r@)[i]
            == first[i] by {}
        assert(step_views(r@) =~= embedded_steps(
            url@,
            text::opt_text(*auth),
            headers@,
            text::opt_text(*cdm_dir),
        ));
    }
    r
}

/// What the embedded player is set to before anything is played.
pub fn setup_steps() -> (r: Vec<PlayerStep>)
    ensures
        step_views(r@) == seq![
            StepView::Property("vo"@, "libmpv"@),
            StepView::Property("loop-file"@, "no"@),
            StepView::Property("loop-playlist"@, "no"@),
            StepView::Property("ao"@, "alsa,pulse,pipewire"@),
        ],
{
    let r: Vec<PlayerStep> = vec![
        set("vo", "libmpv"),
        set("loop-file", "no"),
        set("loop-playlist", "no"),
        set("ao", "alsa,pulse,pipewire"),
    ];
    assert(step_views(r@) =~= seq![
        StepView::Property("vo"@, "libmpv"@),
        StepView::Property("loop-file"@, "no"@),
        StepView::Property("loop-playlist"@, "no"@),
        StepView::Property("ao"@, "alsa,pulse,pipewire"@),
    ]);
    r
}

// ---------------------------------------------------------------------------
// A player in another process, controlled over a socket
// ---------------------------------------------------------------------------

/// The arguments with which the controlled player is started.
pub open spec fn controlled_args(socket: Seq<char>, cdm_dir: Option<Seq<char>>) -> Seq<Seq<char>> {
    let args = seq![
        "--idle=yes"@,
        "--no-config"@,
        "--force-window=yes"@,
        "--title=frenchetv (mpv subprocess diagnostic)"@,
        "--ao=alsa,pulse,pipewire"@,
        "--hwdec=no"@,
        "--cache=yes"@,
        "--demuxer-readahead-secs=3"@,
        "--cache-pause=no"@,
        "--audio-buffer=2.5"@,
        "--audio-stream-silence=yes"@,
        "--demuxer-lavf-o=multiple_requests=1"@,
        "--loop-file=no"@,
        "--loop-playlist=no"@,
        "--input-ipc-server="@ + socket,
    ];
    match cdm_dir {
        Some(d) => args.push("--cdm-store="@ + d),
        None => args,
    }
}

/// The arguments with which the controlled player is started.
pub fn ipc_arguments(socket: &str, cdm_dir: &Option<String>) -> (r: Vec<String>)
    ensures
        texts(r@) == controlled_args(socket@, text::opt_text(*cdm_dir)),
{
    let mut r: Vec<String> = vec![
        "--idle=yes".to_owned(),
        "--no-config".to_owned(),
        "--force-window=yes".to_owned(),
        "--title=frenchetv (mpv subprocess diagnostic)".to_owned(),
        "--ao=alsa,pulse,pipewire".to_owned(),
        "--hwdec=no".to_owned(),
        "--cache=yes".to_owned(),
        "--demuxer-readahead-secs=3".to_owned(),
        "--cache-pause=no".to_owned(),
        "--audio-buffer=2.5".to_owned(),
        "--audio-stream-silence=yes".to_owned(),
        "--demuxer-lavf-o=multiple_requests=1".to_owned(),
        "--loop-file=no".to_owned(),
        "--loop-playlist=no".to_owned(),
        text::joined("--input-ipc-server=", socket),
    ];
    match cdm_dir {
        Some(d) => r.push(text::joined("--cdm-store=", d.as_str())),
        None => {},
    }
    assert(texts(r@) =~= controlled_args(socket@, text::opt_text(*cdm_dir)));
    r
}

/// The name of the socket of a process.
pub fn socket_name(process: u32) -> (r: String)
    ensures
        r@ == "frenchetv-mpv-"@ + text::decimal(process as nat) + ".sock"@,
{
    let mut out: Vec<char> = chars_of("frenchetv-mpv-");
    push_number(&mut out, process as u64);
    push_text(&mut out, ".sock");
    text_of(out.as_slice())
}

/// A step as a command over the socket.
pub open spec fn over_socket(step: StepView) -> Seq<Seq<char>> {
    match step {
        StepView::Command(args) => args,
        StepView::Property(name, value) => seq!["set_property"@, name, value],
        StepView::Seconds(name, value) => seq![
            "set_property"@,
            name,
            text::decimal(value as nat),
        ],
    }
}

/// A step as a command over the socket.
fn socket_command(step: PlayerStep) -> (r: Vec<String>)
    ensures
        texts(r@) == over_socket(step@),
{
    match step {
        PlayerStep::Command(args) => args,
        PlayerStep::Property(name, value) => {
            let r: Vec<String> = vec!["set_property".to_owned(), name, value];
            assert(texts(r@) =~= seq!["set_property"@, name@, value@]);
            r
        },
        PlayerStep::Seconds(name, value) => {
            let mut digits: Vec<char> = Vec::new();
            push_number(&mut digits, value as u64);
            assert(digits@ =~= text::decimal(value as nat));
            let digits = text_of(digits.as_slice());
            let r: Vec<String> = vec!["set_property".to_owned(), name, digits];
            assert(texts(r@) =~= seq!["set_property"@, name@, text::decimal(value as nat)]);
            r
        },
    }
}

/// The commands over the socket that play a stream.
pub open spec fn socket_commands(
    url: Seq<char>,
    auth: Option<Seq<char>>,
    headers: Seq<(String, String)>,
) -> Seq<Seq<Seq<char>>> {
    header_steps(auth, headers).push(load_step(url)).map_values(|s: StepView| over_socket(s))
}

/// The commands over the socket that play a stream.
pub fn ipc_play_commands(url: &str, auth: &Option<String>, headers: &Vec<(String, String)>) -> (r:
    Vec<Vec<String>>)
    ensures
        r@.map_values(|c: Vec<String>| texts(c@)) == socket_commands(
            url@,
            text::opt_text(*auth),
            headers@,
        ),
{
    let mut steps: Vec<PlayerStep> = request_header_steps(auth, headers);
    let ghost first = step_views(steps@);
    steps.push(command3("loadfile", url, "replace"));
    let ghost all = steps@;
    assert(step_views(all) =~= first.push(load_step(url@)));
    let mut r: Vec<Vec<String>> = Vec::new();
    let ghost shown = |c: Vec<String>| texts(c@);
    let ghost sent = |s: PlayerStep| over_socket(s@);
    assert(r@.map_values(shown) =~= all.take(0).map_values(sent));
    while steps.len() > 0
        invariant
            shown == (|c: Vec<String>| texts(c@)),
            sent == (|s: PlayerStep| over_socket(s@)),
            r@.len() + steps@.len() == all.len(),
            steps@ == all.skip(r@.len() as int),
            r@.map_values(shown) == all.take(r@.len() as int).map_values(sent),
        decreases steps@.len(),
    {
        let ghost n = r@.len() as int;
        let ghost before = r@;
        let step = steps.remove(0);
        assert(step == all[n]);
        r.push(socket_command(step));
        proof {
            assert(steps@ =~= all.skip(n + 1));
            assert(r@.map_values(shown) =~= before.map_values(shown).push(over_socket(all[n]@)));
            assert(all.take(n + 1).map_values(sent) =~= all.take(n).map_values(sent).push(
                over_socket(all[n]@),
            ));
        }
    }
    proof {
        assert(all.take(r@.len() as int) =~= all);
        assert(all.map_values(sent) =~= step_views(all).map_values(|s: StepView| over_socket(s)));
    }
    r
}

/// The command over the socket that stops playback.
pub fn ipc_stop_command() -> (r: Vec<String>)
    ensures
        texts(r@) == seq!["stop"@],
{
    let r: Vec<String> = vec!["stop".to_owned()];
    assert(texts(r@) =~= seq!["stop"@]);
    r
}

/// A list of texts as a JSON array.
pub uninterp spec fn json_array(list: Seq<Seq<char>>) -> Seq<char>;

/// `serde_json::to_string` writes a list of texts as a JSON array, the same one for the same
/// texts.
#[verifier::external_body]
fn write_json_array(list: &Vec<String>) -> (r: String)
    ensures
        r@ == json_array(texts(list@)),
{
    serde_json::to_string(list).unwrap_or_default()
}

/// The line for a command whose words are written as this array.
pub fn command_line(array: &str) -> (r: String)
    ensures
        r@ == "{\"command\":"@ + array@ + "}\n"@,
{
    joined3("{\"command\":", array, "}\n")
}

/// The line sent over the socket for a command.
pub fn ipc_line(command: &Vec<String>) -> (r: String)
    ensures
        r@ == "{\"command\":"@ + json_array(texts(command@)) + "}\n"@,
{
    command_line(write_json_array(command).as_str())
}

/// What a line that a player sends over its socket tells.
#[derive(Debug, Clone, Copy, PartialEq, Eq)]
pub enum ReplyKind {
    /// The player has jumped to another time.
    Seek,
    /// The player is at the end of a file.
    EndOfFile,
    /// A command was not carried out.
    Refused,
    /// Nothing that matters.
    Nothing,
}

/// What a reply with these texts under `event` and `error` tells: an event by its name, and
/// anything else whether a command was carried out.
pub open spec fn kind_of(event: Option<Seq<char>>, error: Option<Seq<char>>) -> ReplyKind {
    match event {
        Some(e) => if e == "seek"@ {
            ReplyKind::Seek
        } else if e == "end-file"@ {
            ReplyKind::EndOfFile
        } else {
            ReplyKind::Nothing
        },
        None => if error == Some("success"@) {
            ReplyKind::Nothing
        } else {
            ReplyKind::Refused
        },
    }
}

/// What a reply with these texts under `event` and `error` tells.
pub fn reply_kind(event: &Option<String>, error: &Option<String>) -> (r: ReplyKind)
    ensures
        r == kind_of(text::opt_text(*event), text::opt_text(*error)),
{
    match event {
        Some(e) => if same_text(e.as_str(), "seek") {
            ReplyKind::Seek
        } else if same_text(e.as_str(), "end-file") {
            ReplyKind::EndOfFile
        } else {
            ReplyKind::Nothing
        },
        None => match error {
            Some(e) => if same_text(e.as_str(), "success") {
                ReplyKind::Nothing
            } else {
                ReplyKind::Refused
            },
            None => ReplyKind::Refused,
        },
    }
}

/// The text that a line of JSON holds under a key, if there is one; nothing for a line that
/// is no JSON.
pub uninterp spec fn json_reply(line: Seq<char>, key: Seq<char>) -> Option<Option<Seq<char>>>;

/// `serde_json::from_str` reads a line as JSON, and fails where it is none; `Value::get` finds
/// a key of an object, and `Value::as_str` gives a text. What comes out depends on the line
/// and the key alone.
#[verifier::external_body]
fn read_json_reply(line: &str, key: &str) -> (r: Option<Option<String>>)
    ensures
        match r {
            Some(text) => json_reply(line@, key@) == Some(text::opt_text(text)),
            None => json_reply(line@, key@) is None,
        },
{
    let value = serde_json::from_str::<serde_json::Value>(line).ok()?;
    Some(value.get(key).and_then(|v| v.as_str()).map(|s| s.to_string()))
}

/// What a line tells, given what was read from it under `event` and `error`; a line that is
/// no JSON tells nothing.
pub open spec fn line_kind(
    event: Option<Option<Seq<char>>>,
    error: Option<Option<Seq<char>>>,
) -> ReplyKind {
    match (event, error) {
        (Some(event), Some(error)) => kind_of(event, error),
        _ => ReplyKind::Nothing,
    }
}

/// What a line that a player sends over its socket tells.
pub fn read_reply(line: &str) -> (r: ReplyKind)
    ensures
        r == line_kind(json_reply(line@, "event"@), json_reply(line@, "error"@)),
{
    match (read_json_reply(line, "event"), read_json_reply(line, "error")) {
        (Some(event), Some(error)) => reply_kind(&event, &error),
        _ => ReplyKind::Nothing,
    }
}

/// How often a connection to a player's socket is tried.
pub const CONNECT_TRIES: u32 = 50;

/// How long is waited between two tries, in milliseconds.
pub const CONNECT_WAIT_MILLIS: u64 = 20;

/// What is done after a connection to a player's socket has failed.
#[derive(Debug, Clone, Copy, PartialEq, Eq)]
pub enum ConnectStep {
    /// Try again after so many milliseconds.
    TryAgain(u64),
    GiveUp,
}

/// What is done after so many tries that failed: the player makes its socket some time after
/// it was started.
pub fn connect_step(failed: u32) -> (r: ConnectStep)
    ensures
        r == if failed < CONNECT_TRIES {
            ConnectStep::TryAgain(CONNECT_WAIT_MILLIS)
        } else {
            ConnectStep::GiveUp
        },
{
    if failed < CONNECT_TRIES {
        ConnectStep::TryAgain(CONNECT_WAIT_MILLIS)
    } else {
        ConnectStep::GiveUp
    }
}

/// Both players stop first, are told the same request headers, and load the stream last.
pub proof fn players_are_told_the_same(
    url: Seq<char>,
    auth: Option<Seq<char>>,
    headers: Seq<(String, String)>,
    cdm_dir: Option<Seq<char>>,
)
    ensures
        embedded_steps(url, auth, headers, cdm_dir).take(
            header_steps(auth, headers).len() as int,
        ) == header_steps(auth, headers),
        socket_commands(url, auth, headers).drop_last() == header_steps(auth, headers).map_values(
            |s: StepView| over_socket(s),
        ),
        header_steps(auth, headers)[0] == StepView::Command(seq!["stop"@]),
        embedded_steps(url, auth, headers, cdm_dir).last() == load_step(url),
        socket_commands(url, auth, headers).last() == over_socket(load_step(url)),
{
    let first = header_steps(auth, headers);
    assert(embedded_steps(url, auth, headers, cdm_dir).take(first.len() as int) =~= first);
    assert(socket_commands(url, auth, headers).drop_last() =~= first.map_values(
        |s: StepView| over_socket(s),
    ));
}

// ---------------------------------------------------------------------------
// Drawing
// ---------------------------------------------------------------------------

/// The largest picture that is drawn.
pub const MAX_RENDER_WIDTH: u32 = 1280;

pub const MAX_RENDER_HEIGHT: u32 = 720;

/// What is done for a picture of the size asked for.
#[derive(Debug, PartialEq, Eq)]
pub enum PollStep {
    /// There is no room for one.
    Empty,
    /// The last picture is shown again.
    Cached,
    /// The player is asked whether it has a new one.
    Ask,
}

/// What is done for a picture. The player is asked only after it has given notice.
pub fn poll_step(width: u32, height: u32, notified: bool) -> (r: PollStep)
    ensures
        r == (if width == 0 || height == 0 {
            PollStep::Empty
        } else if notified {
            PollStep::Ask
        } else {
            PollStep::Cached
        }),
{
    if width == 0 || height == 0 {
        PollStep::Empty
    } else if notified {
        PollStep::Ask
    } else {
        PollStep::Cached
    }
}

/// Whether the player's answer, a set of flags, has the one for a new picture.
pub fn has_new_frame(flags: u64, frame_flag: u64) -> (r: bool)
    ensures
        r == (flags & frame_flag != 0),
{
    flags & frame_flag != 0
}

/// A picture to draw: its size, the bytes of a row and of the whole.
#[derive(Debug, Clone, Copy, PartialEq, Eq)]
pub struct RenderPlan {
    pub width: u32,
    pub height: u32,
    pub stride: usize,
    pub bytes: usize,
}

/// The picture drawn for a size: no larger than the largest, four bytes for each pixel.
pub fn render_plan(width: u32, height: u32) -> (r: RenderPlan)
    ensures
        r.width == if width < MAX_RENDER_WIDTH { width } else { MAX_RENDER_WIDTH },
        r.height == if height < MAX_RENDER_HEIGHT { height } else { MAX_RENDER_HEIGHT },
        r.stride == 4 * r.width,
        r.bytes == 4 * r.width * r.height,
{
    let w: u32 = if width < MAX_RENDER_WIDTH {
        width
    } else {
        MAX_RENDER_WIDTH
    };
    let h: u32 = if height < MAX_RENDER_HEIGHT {
        height
    } else {
        MAX_RENDER_HEIGHT
    };
    let stride: usize = w as usize * 4;
    assert(stride * h <= 5120 * 720) by (nonlinear_arith)
        requires
            stride <= 5120,
            h <= 720,
    ;
    assert(stride * h == 4 * w * h) by (nonlinear_arith)
        requires
            stride == 4 * w,
    ;
    RenderPlan { width: w, height: h, stride, bytes: stride * h as usize }
}

} // verus!
