//! How one preview frame is captured, step by step: each step with what the last one gave.

use crate::license;
use crate::preview_capture;
use crate::preview_capture::{
    capture_input, header_config, mpv_args, preview_pssh, CaptureError, CaptureInput,
};
use crate::text;
use crate::text::{chars_of, push_text, text_of};
use vstd::prelude::*;

verus! {

/// A stream as the operator gives it.
#[derive(Debug)]
pub struct CaptureStream {
    pub url: String,
    pub headers: Vec<(String, String)>,
    pub auth: Option<String>,
    /// Where the stream is protected: the operator's license request data, if it gives any.
    pub protection: Option<Option<Vec<u8>>>,
}

/// What is known so far of a capture.
#[derive(Debug)]
pub struct CaptureFlow {
    /// The stream's URL.
    pub url: String,
    /// The operator's license request data, if it gives any.
    pub pssh: Option<Vec<u8>>,
    /// Where the manifest came from, after redirections.
    pub mpd_url: String,
    pub mpd_text: String,
    /// What the player opens.
    pub input: CaptureInput,
    /// How the player ended.
    pub status: String,
}

/// What a step gave. An error is its text.
#[derive(Debug)]
pub enum CaptureEvent {
    Resolved(Result<CaptureStream, String>),
    CdmOpened(Result<(), String>),
    CdmInitialized(Result<(), String>),
    ClientBuilt(Result<(), String>),
    /// The manifest was found at this URL.
    ManifestFetched(Result<String, String>),
    ManifestRead(Result<String, String>),
    Licensed(Result<(), String>),
    /// The proxy serves the manifest at this URL.
    ProxyStarted(Result<String, String>),
    DirectoryMade(Result<(), String>),
    /// The directory for the frame, and the file with the options.
    OptionsWritten(Result<(String, String), String>),
    PlayerStarted(Result<(), String>),
    /// The player has ended, in this way.
    PlayerEnded(Result<String, String>),
    /// The file that the player wrote, if there is one.
    FrameRead(Option<Vec<u8>>),
}

/// What is done next.
#[derive(Debug)]
pub enum CaptureAction {
    OpenCdm,
    InitializeCdm,
    BuildClient,
    /// Fetch the manifest from this URL.
    FetchManifest(String),
    ReadManifest,
    /// Request a license with this data.
    AcquireLicense(Vec<u8>),
    StartProxy { mpd_text: String, mpd_url: String },
    MakeDirectory,
    /// Write these options.
    WriteOptions(String),
    /// Start the player with these arguments.
    StartPlayer(Vec<String>),
    AwaitPlayer,
    ReadFrame,
    /// Decode this file.
    Decode(Vec<u8>),
    Fail(CaptureError),
}

/// What is known of a `CaptureFlow`.
pub struct FlowView {
    pub url: Seq<char>,
    pub pssh: Option<Seq<u8>>,
    pub mpd_url: Seq<char>,
    pub mpd_text: Seq<char>,
    /// What the player opens, with these headers and this authorisation.
    pub input_url: Seq<char>,
    pub input_headers: Seq<(String, String)>,
    pub input_auth: Option<Seq<char>>,
    pub status: Seq<char>,
}

/// What is known of a `CaptureAction`.
pub enum CaptureActionView {
    OpenCdm,
    InitializeCdm,
    BuildClient,
    FetchManifest(Seq<char>),
    ReadManifest,
    AcquireLicense(Seq<u8>),
    StartProxy { mpd_text: Seq<char>, mpd_url: Seq<char> },
    MakeDirectory,
    WriteOptions(Seq<char>),
    StartPlayer(Seq<Seq<char>>),
    AwaitPlayer,
    ReadFrame,
    Decode(Seq<u8>),
    Fail(Seq<char>),
}

/// The operator's license request data of a stream.
pub open spec fn operator_pssh(protection: Option<Option<Vec<u8>>>) -> Option<Seq<u8>> {
    match protection {
        Some(pssh) => license::opt_bytes(pssh),
        None => None,
    }
}

impl View for CaptureFlow {
    type V = FlowView;

    open spec fn view(&self) -> FlowView {
        FlowView {
            url: self.url@,
            pssh: license::opt_bytes(self.pssh),
            mpd_url: self.mpd_url@,
            mpd_text: self.mpd_text@,
            input_url: self.input.url@,
            input_headers: self.input.headers@,
            input_auth: text::opt_text(self.input.auth),
            status: self.status@,
        }
    }
}

impl CaptureAction {
    pub open spec fn view(&self) -> CaptureActionView {
        match self {
            CaptureAction::OpenCdm => CaptureActionView::OpenCdm,
            CaptureAction::InitializeCdm => CaptureActionView::InitializeCdm,
            CaptureAction::BuildClient => CaptureActionView::BuildClient,
            CaptureAction::FetchManifest(u) => CaptureActionView::FetchManifest(u@),
            CaptureAction::ReadManifest => CaptureActionView::ReadManifest,
            CaptureAction::AcquireLicense(p) => CaptureActionView::AcquireLicense(p@),
            CaptureAction::StartProxy { mpd_text, mpd_url } => CaptureActionView::StartProxy {
                mpd_text: mpd_text@,
                mpd_url: mpd_url@,
            },
            CaptureAction::MakeDirectory => CaptureActionView::MakeDirectory,
            CaptureAction::WriteOptions(o) => CaptureActionView::WriteOptions(o@),
            CaptureAction::StartPlayer(args) => CaptureActionView::StartPlayer(
                args@.map_values(|a: String| a@),
            ),
            CaptureAction::AwaitPlayer => CaptureActionView::AwaitPlayer,
            CaptureAction::ReadFrame => CaptureActionView::ReadFrame,
            CaptureAction::Decode(png) => CaptureActionView::Decode(png@),
            CaptureAction::Fail(e) => CaptureActionView::Fail(e.text()),
        }
    }
}

/// A capture that ends at a stage.
pub open spec fn failed_at(stage: Seq<char>, cause: Seq<char>) -> CaptureActionView {
    CaptureActionView::Fail(stage + ": "@ + cause)
}

/// What is known after a step, and what is done next. Of a protected stream the player opens
/// what a proxy serves; of another one, the stream. Whether there is a frame, the file
/// decides, not how the player ended.
pub open spec fn capture_stepped(f: FlowView, event: CaptureEvent) -> (FlowView, CaptureActionView) {
    match event {
        CaptureEvent::Resolved(Ok(stream)) => {
            let known = FlowView { url: stream.url@, pssh: operator_pssh(stream.protection), ..f };
            if stream.protection is Some {
                (known, CaptureActionView::OpenCdm)
            } else {
                (
                    FlowView {
                        input_url: stream.url@,
                        input_headers: stream.headers@,
                        input_auth: text::opt_text(stream.auth),
                        ..known
                    },
                    CaptureActionView::MakeDirectory,
                )
            }
        },
        CaptureEvent::Resolved(Err(e)) => (f, failed_at("resolve"@, e@)),
        CaptureEvent::CdmOpened(Ok(())) => (f, CaptureActionView::InitializeCdm),
        CaptureEvent::CdmOpened(Err(e)) => (f, failed_at("CDM open"@, e@)),
        CaptureEvent::CdmInitialized(Ok(())) => (f, CaptureActionView::BuildClient),
        CaptureEvent::CdmInitialized(Err(e)) => (f, failed_at("CDM init"@, e@)),
        CaptureEvent::ClientBuilt(Ok(())) => (f, CaptureActionView::FetchManifest(f.url)),
        CaptureEvent::ClientBuilt(Err(e)) => (f, failed_at("CDN client"@, e@)),
        CaptureEvent::ManifestFetched(Ok(url)) => (
            FlowView { mpd_url: url@, ..f },
            CaptureActionView::ReadManifest,
        ),
        CaptureEvent::ManifestFetched(Err(e)) => (f, failed_at("MPD fetch"@, e@)),
        CaptureEvent::ManifestRead(Ok(mpd)) => (
            FlowView { mpd_text: mpd@, ..f },
            match f.pssh {
                Some(p) => CaptureActionView::AcquireLicense(p),
                None => match license::mpd_pssh(mpd@) {
                    Some(p) => CaptureActionView::AcquireLicense(p),
                    None => CaptureActionView::Fail("no PSSH in protection data or MPD"@),
                },
            },
        ),
        CaptureEvent::ManifestRead(Err(e)) => (f, failed_at("MPD read"@, e@)),
        CaptureEvent::Licensed(Ok(())) => (
            f,
            CaptureActionView::StartProxy { mpd_text: f.mpd_text, mpd_url: f.mpd_url },
        ),
        CaptureEvent::Licensed(Err(e)) => (f, failed_at("license"@, e@)),
        CaptureEvent::ProxyStarted(Ok(url)) => (
            FlowView {
                input_url: url@,
                input_headers: Seq::empty(),
                input_auth: None,
                ..f
            },
            CaptureActionView::MakeDirectory,
        ),
        CaptureEvent::ProxyStarted(Err(e)) => (f, failed_at("proxy start"@, e@)),
        CaptureEvent::DirectoryMade(Ok(())) => (
            f,
            CaptureActionView::WriteOptions(
                preview_capture::options_text(f.input_headers, f.input_auth),
            ),
        ),
        CaptureEvent::DirectoryMade(Err(e)) => (f, failed_at("workdir"@, e@)),
        CaptureEvent::OptionsWritten(Ok((frames, options))) => (
            f,
            CaptureActionView::StartPlayer(
                preview_capture::capture_args(f.input_url, frames@, options@),
            ),
        ),
        CaptureEvent::OptionsWritten(Err(e)) => (f, failed_at("workdir"@, e@)),
        CaptureEvent::PlayerStarted(Ok(())) => (f, CaptureActionView::AwaitPlayer),
        CaptureEvent::PlayerStarted(Err(e)) => (f, failed_at("spawn mpv"@, e@)),
        CaptureEvent::PlayerEnded(Ok(status)) => (
            FlowView { status: status@, ..f },
            CaptureActionView::ReadFrame,
        ),
        CaptureEvent::PlayerEnded(Err(e)) => (f, failed_at("mpv wait"@, e@)),
        CaptureEvent::FrameRead(Some(png)) => (f, CaptureActionView::Decode(png@)),
        CaptureEvent::FrameRead(None) => (
            f,
            CaptureActionView::Fail("mpv produced no frame ("@ + f.status + ")"@),
        ),
    }
}

/// A capture that ends at a stage.
fn fail(stage: &str, cause: &str) -> (r: CaptureAction)
    ensures
        r@ == failed_at(stage@, cause@),
{
    CaptureAction::Fail(CaptureError::at_stage(stage, cause))
}

impl CaptureFlow {
    /// Nothing is known yet; the stream is to be resolved.
    pub fn new() -> (r: Self)
        ensures
            r@ == (FlowView {
                url: Seq::empty(),
                pssh: None,
                mpd_url: Seq::empty(),
                mpd_text: Seq::empty(),
                input_url: Seq::empty(),
                input_headers: Seq::empty(),
                input_auth: None,
                status: Seq::empty(),
            }),
    {
        CaptureFlow {
            url: String::new(),
            pssh: None,
            mpd_url: String::new(),
            mpd_text: String::new(),
            input: CaptureInput { url: String::new(), headers: Vec::new(), auth: None },
            status: String::new(),
        }
    }

    /// What is done once the manifest is known.
    fn request_license(&self) -> (r: CaptureAction)
        ensures
            r@ == match self@.pssh {
                Some(p) => CaptureActionView::AcquireLicense(p),
                None => match license::mpd_pssh(self@.mpd_text) {
                    Some(p) => CaptureActionView::AcquireLicense(p),
                    None => CaptureActionView::Fail("no PSSH in protection data or MPD"@),
                },
            },
    {
        match preview_pssh(&self.pssh, self.mpd_text.as_str()) {
            Some(p) => CaptureAction::AcquireLicense(p),
            None => CaptureAction::Fail(
                CaptureError::Failed("no PSSH in protection data or MPD".to_owned()),
            ),
        }
    }

    /// Takes in what a step gave, and says what is done next.
    pub fn step(&mut self, event: CaptureEvent) -> (r: CaptureAction)
        ensures
            (final(self)@, r@) == capture_stepped(old(self)@, event),
    {
        match event {
            CaptureEvent::Resolved(Ok(stream)) => {
                self.url = stream.url.clone();
                match stream.protection {
                    Some(pssh) => {
                        self.pssh = pssh;
                        CaptureAction::OpenCdm
                    },
                    None => {
                        self.pssh = None;
                        self.input = capture_input(None, stream.url, stream.headers, stream.auth);
                        CaptureAction::MakeDirectory
                    },
                }
            },
            CaptureEvent::Resolved(Err(e)) => fail("resolve", e.as_str()),
            CaptureEvent::CdmOpened(Ok(())) => CaptureAction::InitializeCdm,
            CaptureEvent::CdmOpened(Err(e)) => fail("CDM open", e.as_str()),
            CaptureEvent::CdmInitialized(Ok(())) => CaptureAction::BuildClient,
            CaptureEvent::CdmInitialized(Err(e)) => fail("CDM init", e.as_str()),
            CaptureEvent::ClientBuilt(Ok(())) => CaptureAction::FetchManifest(
                self.url.clone(),
            ),
            CaptureEvent::ClientBuilt(Err(e)) => fail("CDN client", e.as_str()),
            CaptureEvent::ManifestFetched(Ok(url)) => {
                self.mpd_url = url;
                CaptureAction::ReadManifest
            },
            CaptureEvent::ManifestFetched(Err(e)) => fail("MPD fetch", e.as_str()),
            CaptureEvent::ManifestRead(Ok(mpd)) => {
                self.mpd_text = mpd;
                self.request_license()
            },
            CaptureEvent::ManifestRead(Err(e)) => fail("MPD read", e.as_str()),
            CaptureEvent::Licensed(Ok(())) => CaptureAction::StartProxy {
                mpd_text: self.mpd_text.clone(),
                mpd_url: self.mpd_url.clone(),
            },
            CaptureEvent::Licensed(Err(e)) => fail("license", e.as_str()),
            CaptureEvent::ProxyStarted(Ok(url)) => {
                self.input = capture_input(Some(url), String::new(), Vec::new(), None);
                assert(self.input.headers@ =~= Seq::<(String, String)>::empty());
                CaptureAction::MakeDirectory
            },
            CaptureEvent::ProxyStarted(Err(e)) => fail("proxy start", e.as_str()),
            CaptureEvent::DirectoryMade(Ok(())) => CaptureAction::WriteOptions(
                header_config(&self.input.headers, &self.input.auth),
            ),
            CaptureEvent::DirectoryMade(Err(e)) => fail("workdir", e.as_str()),
            CaptureEvent::OptionsWritten(Ok((frames, options))) => CaptureAction::StartPlayer(
                mpv_args(self.input.url.as_str(), frames.as_str(), options.as_str()),
            ),
            CaptureEvent::OptionsWritten(Err(e)) => fail("workdir", e.as_str()),
            CaptureEvent::PlayerStarted(Ok(())) => CaptureAction::AwaitPlayer,
            CaptureEvent::PlayerStarted(Err(e)) => fail("spawn mpv", e.as_str()),
            CaptureEvent::PlayerEnded(Ok(status)) => {
                self.status = status;
                CaptureAction::ReadFrame
            },
            CaptureEvent::PlayerEnded(Err(e)) => fail("mpv wait", e.as_str()),
            CaptureEvent::FrameRead(Some(png)) => CaptureAction::Decode(png),
            CaptureEvent::FrameRead(None) => {
                let mut out: Vec<char> = chars_of("mpv produced no frame (");
                push_text(&mut out, self.status.as_str());
                push_text(&mut out, ")");
                CaptureAction::Fail(CaptureError::Failed(text_of(out.as_slice())))
            },
        }
    }
}

/// The player is told nothing of a protected stream but where the proxy serves it: the
/// options are empty, whatever headers and authorisation the stream has.
pub proof fn protected_capture_hides_the_stream(
    f: FlowView,
    stream: CaptureStream,
    proxy: String,
    frames: String,
    options: String,
)
    requires
        stream.protection is Some,
    ensures
        ({
            let (known, first) = capture_stepped(f, CaptureEvent::Resolved(Ok(stream)));
            let (served, made) = capture_stepped(known, CaptureEvent::ProxyStarted(Ok(proxy)));
            let (written, put) = capture_stepped(served, CaptureEvent::DirectoryMade(Ok(())));
            let started = capture_stepped(
                written,
                CaptureEvent::OptionsWritten(Ok((frames, options))),
            ).1;
            &&& first is OpenCdm
            &&& put == CaptureActionView::WriteOptions(Seq::empty())
            &&& started == CaptureActionView::StartPlayer(
                preview_capture::capture_args(proxy@, frames@, options@),
            )
        }),
{
}

/// A frame that was written counts, however the player ended.
pub proof fn frame_file_decides(f: FlowView, status: String, other: String, png: Vec<u8>)
    ensures
        capture_stepped(
            capture_stepped(f, CaptureEvent::PlayerEnded(Ok(status))).0,
            CaptureEvent::FrameRead(Some(png)),
        ).1 == CaptureActionView::Decode(png@),
        capture_stepped(
            capture_stepped(f, CaptureEvent::PlayerEnded(Ok(other))).0,
            CaptureEvent::FrameRead(Some(png)),
        ).1 == CaptureActionView::Decode(png@),
{
}

} // verus!
