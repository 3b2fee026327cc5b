//! Capture of preview frames: the queue of requests, what one capture hands to the player
//! that makes the frame, and what becomes of its outcome.

use crate::channel::{Channel, ChannelView};
use crate::license;
use crate::license::extract_pssh_from_mpd;
use crate::preview::{PREVIEW_HEIGHT, PREVIEW_WIDTH};
use crate::text;
use crate::text::{chars_of, has_suffix, push_number, push_text, same_chars, text_of, to_lower};
use vstd::prelude::*;

verus! {

/// How many seconds one capture may take.
pub const CAPTURE_BUDGET_SECS: u64 = 8;

/// After how many seconds the player gives up on a stalled network.
pub const NETWORK_TIMEOUT_SECS: u64 = 5;

// ---------------------------------------------------------------------------
// The queue
// ---------------------------------------------------------------------------

/// The request waiting for the worker, and the signal that abandons captures.
#[derive(Debug)]
pub struct Engine {
    pending: Option<Channel>,
    shutdown: bool,
    generation: u64,
}

/// What is known of an `Engine`.
pub struct EngineView {
    /// The channel to capture next.
    pub pending: Option<ChannelView>,
    /// Whether no capture is wanted any more.
    pub shutdown: bool,
    /// Grows, modulo 2^64, with every cancellation.
    pub generation: u64,
}

/// The generation in which a capture was begun.
#[derive(Debug, Clone, Copy, PartialEq, Eq)]
pub struct Ticket {
    pub generation: u64,
}

/// The generation behind another one.
pub open spec fn next_generation(g: u64) -> u64 {
    if g < u64::MAX {
        (g + 1) as u64
    } else {
        0
    }
}

impl EngineView {
    /// A request takes the place of the one waiting; after shutdown there is none.
    pub open spec fn posted(self, channel: ChannelView) -> EngineView {
        if self.shutdown {
            self
        } else {
            EngineView { pending: Some(channel), ..self }
        }
    }

    /// The request waiting is dropped, and captures in progress are abandoned.
    pub open spec fn cancelled(self) -> EngineView {
        EngineView { pending: None, generation: next_generation(self.generation), ..self }
    }

    /// As for a cancellation, and nothing is captured any more.
    pub open spec fn stopped(self) -> EngineView {
        EngineView { shutdown: true, ..self.cancelled() }
    }

    /// What the worker takes: the request waiting, with the present generation.
    pub open spec fn taken(self) -> Option<(ChannelView, Ticket)> {
        match self.pending {
            Some(c) if !self.shutdown => Some((c, Ticket { generation: self.generation })),
            _ => None,
        }
    }

    /// Whether captures begun with a ticket have been abandoned.
    pub open spec fn has_changed(self, ticket: Ticket) -> bool {
        self.generation != ticket.generation
    }
}

impl View for Engine {
    type V = EngineView;

    closed spec fn view(&self) -> EngineView {
        EngineView {
            pending: match self.pending {
                Some(c) => Some(c@),
                None => None,
            },
            shutdown: self.shutdown,
            generation: self.generation,
        }
    }
}

impl Engine {
    /// No request waits.
    pub fn new() -> (r: Self)
        ensures
            r@ == (EngineView { pending: None, shutdown: false, generation: 0 }),
    {
        Engine { pending: None, shutdown: false, generation: 0 }
    }

    /// Queues a request, in place of the one waiting.
    pub fn post(&mut self, channel: Channel)
        ensures
            final(self)@ == old(self)@.posted(channel@),
    {
        if !self.shutdown {
            self.pending = Some(channel);
        }
    }

    /// Abandons the request waiting and what is in progress.
    pub fn cancel(&mut self)
        ensures
            final(self)@ == old(self)@.cancelled(),
    {
        self.pending = None;
        self.generation = self.generation.wrapping_add(1);
    }

    /// Abandons everything, for good.
    pub fn shutdown(&mut self)
        ensures
            final(self)@ == old(self)@.stopped(),
    {
        self.cancel();
        self.shutdown = true;
    }

    /// Whether the worker has something to do: a request, or to stop.
    pub fn is_ready(&self) -> (r: bool)
        ensures
            r == (self@.shutdown || self@.pending is Some),
    {
        self.shutdown || self.pending.is_some()
    }

    /// Takes the request waiting. After shutdown there is none.
    pub fn take(&mut self) -> (r: Option<(Channel, Ticket)>)
        requires
            old(self)@.shutdown || old(self)@.pending is Some,
        ensures
            old(self)@.taken() == (match r {
                Some((c, t)) => Some((c@, t)),
                None => None,
            }),
            final(self)@ == (EngineView {
                pending: if old(self)@.shutdown { old(self)@.pending } else { None },
                ..old(self)@
            }),
    {
        if self.shutdown {
            return None;
        }
        match self.pending.take() {
            Some(c) => Some((c, Ticket { generation: self.generation })),
            None => None,
        }
    }

    /// Whether captures begun with a ticket have been abandoned.
    pub fn has_changed(&self, ticket: Ticket) -> (r: bool)
        ensures
            r == self@.has_changed(ticket),
    {
        self.generation != ticket.generation
    }
}

/// The newest request is the one taken.
pub proof fn newest_request_wins(e: EngineView, first: ChannelView, second: ChannelView)
    requires
        !e.shutdown,
    ensures
        e.posted(first).posted(second).taken() == Some(
            (second, Ticket { generation: e.generation }),
        ),
{
}

/// Nothing that was queued before a cancellation is taken after it.
pub proof fn cancellation_empties_the_queue(e: EngineView, channel: ChannelView)
    ensures
        e.posted(channel).cancelled().taken() is None,
        e.posted(channel).stopped().taken() is None,
{
}

/// A cancellation reaches the capture in progress, but not one requested afterwards.
pub proof fn cancellation_reaches_what_came_before(e: EngineView, channel: ChannelView, t: Ticket)
    requires
        e.taken() matches Some(taken) && taken.1 == t,
    ensures
        e.cancelled().has_changed(t),
        e.stopped().has_changed(t),
        e.cancelled().posted(channel).taken() matches Some(later)
            && !e.cancelled().posted(channel).has_changed(later.1),
{
}

/// Nothing is taken after shutdown, whatever is posted or cancelled.
pub proof fn shutdown_is_final(e: EngineView, channel: ChannelView)
    requires
        e.shutdown,
    ensures
        e.taken() is None,
        e.posted(channel).shutdown,
        e.cancelled().shutdown,
{
}

// ---------------------------------------------------------------------------
// The outcome of a capture
// ---------------------------------------------------------------------------

/// Why a capture gave no frame.
#[derive(Debug, PartialEq, Eq)]
pub enum CaptureError {
    /// Nobody wants the frame any more.
    Cancelled,
    TimedOut,
    Failed(String),
}

impl CaptureError {
    /// What is shown of the error.
    pub open spec fn text(self) -> Seq<char> {
        match self {
            CaptureError::Cancelled => "cancelled"@,
            CaptureError::TimedOut => "timed out after "@ + text::decimal(
                CAPTURE_BUDGET_SECS as nat,
            ) + "s"@,
            CaptureError::Failed(m) => m@,
        }
    }

    /// What is shown of the error.
    pub fn message(&self) -> (r: String)
        ensures
            r@ == self.text(),
    {
        match self {
            CaptureError::Cancelled => "cancelled".to_owned(),
            CaptureError::TimedOut => {
                let mut out: Vec<char> = chars_of("timed out after ");
                push_number(&mut out, CAPTURE_BUDGET_SECS);
                push_text(&mut out, "s");
                text_of(out.as_slice())
            },
            CaptureError::Failed(m) => m.clone(),
        }
    }

    /// A failure at a stage of the capture.
    pub fn at_stage(stage: &str, cause: &str) -> (r: CaptureError)
        ensures
            r is Failed,
            r.text() == stage@ + ": "@ + cause@,
    {
        let mut out: Vec<char> = chars_of(stage);
        push_text(&mut out, ": ");
        push_text(&mut out, cause);
        CaptureError::Failed(text_of(out.as_slice()))
    }
}

/// How a capture ends, if it does: by a cancellation, even where the frame is there; else
/// at the end of its budget; else with what the work gave.
pub fn settle<T>(cancelled: bool, out_of_budget: bool, work: Option<Result<T, CaptureError>>) -> (r:
    Option<Result<T, CaptureError>>)
    ensures
        r == (if cancelled {
            Some(Err(CaptureError::Cancelled))
        } else if out_of_budget {
            Some(Err(CaptureError::TimedOut))
        } else {
            work
        }),
{
    if cancelled {
        Some(Err(CaptureError::Cancelled))
    } else if out_of_budget {
        Some(Err(CaptureError::TimedOut))
    } else {
        work
    }
}

/// What the guide is told of a capture.
#[derive(Debug)]
pub enum Outcome<T> {
    Frame { channel_id: String, image: T },
    Failed { channel_id: String },
}

/// What the guide is told of a capture: nothing where it was cancelled.
pub fn report<T>(channel_id: String, result: Result<T, CaptureError>) -> (r: Option<Outcome<T>>)
    ensures
        r == (match result {
            Ok(image) => Some(Outcome::Frame { channel_id, image }),
            Err(CaptureError::Cancelled) => None,
            Err(_) => Some(Outcome::Failed { channel_id }),
        }),
{
    match result {
        Ok(image) => Some(Outcome::Frame { channel_id, image }),
        Err(CaptureError::Cancelled) => None,
        Err(_) => Some(Outcome::Failed { channel_id }),
    }
}

/// The outcomes that the guide has not collected yet.
#[derive(Debug)]
pub struct MpvPreviewCapture<T> {
    /// Whether captures can run at all.
    pub available: bool,
    pub ready_frames: Vec<(String, T)>,
    pub ready_failures: Vec<String>,
}

impl<T> MpvPreviewCapture<T> {
    /// Nothing has been captured. Captures run only where the player was found.
    pub fn new(available: bool) -> (r: Self)
        ensures
            r.available == available,
            r.ready_frames@.len() == 0,
            r.ready_failures@.len() == 0,
    {
        MpvPreviewCapture { available, ready_frames: Vec::new(), ready_failures: Vec::new() }
    }

    /// Whether captures can run.
    pub fn is_available(&self) -> (r: bool)
        ensures
            r == self.available,
    {
        self.available
    }

    /// Takes in the outcome of a capture.
    pub fn absorb(&mut self, outcome: Outcome<T>)
        ensures
            match outcome {
                Outcome::Frame { channel_id, image } => {
                    &&& final(self).ready_frames@ == old(self).ready_frames@.push(
                        (channel_id, image),
                    )
                    &&& final(self).ready_failures == old(self).ready_failures
                },
                Outcome::Failed { channel_id } => {
                    &&& final(self).ready_failures@ == old(self).ready_failures@.push(channel_id)
                    &&& final(self).ready_frames == old(self).ready_frames
                },
            },
            final(self).available == old(self).available,
    {
        match outcome {
            Outcome::Frame { channel_id, image } => {
                self.ready_frames.push((channel_id, image));
            },
            Outcome::Failed { channel_id } => {
                self.ready_failures.push(channel_id);
            },
        }
    }

    /// Begins a capture: gives back the channel to queue, or, where captures cannot run,
    /// lists it as failed.
    pub fn request(&mut self, channel: &Channel) -> (r: Option<Channel>)
        ensures
            final(self).available == old(self).available,
            final(self).ready_frames == old(self).ready_frames,
            match r {
                Some(c) => {
                    &&& old(self).available
                    &&& c@ == channel@
                    &&& final(self).ready_failures == old(self).ready_failures
                },
                None => {
                    &&& !old(self).available
                    &&& final(self).ready_failures@.drop_last() == old(self).ready_failures@
                    &&& final(self).ready_failures@.len() == old(self).ready_failures@.len() + 1
                    &&& final(self).ready_failures@.last()@ == channel@.id
                },
            },
    {
        if !self.available {
            self.ready_failures.push(channel.id.clone());
            assert(self.ready_failures@.drop_last() =~= old(self).ready_failures@);
            return None;
        }
        Some(channel.clone())
    }

    /// The frames captured since the last call.
    pub fn poll(&mut self) -> (r: Vec<(String, T)>)
        ensures
            r@ == old(self).ready_frames@,
            final(self).ready_frames@.len() == 0,
            final(self).ready_failures == old(self).ready_failures,
            final(self).available == old(self).available,
    {
        let mut taken: Vec<(String, T)> = Vec::new();
        std::mem::swap(&mut taken, &mut self.ready_frames);
        taken
    }

    /// The channels whose capture failed since the last call.
    pub fn poll_failures(&mut self) -> (r: Vec<String>)
        ensures
            r@ == old(self).ready_failures@,
            final(self).ready_failures@.len() == 0,
            final(self).ready_frames == old(self).ready_frames,
            final(self).available == old(self).available,
    {
        let mut taken: Vec<String> = Vec::new();
        std::mem::swap(&mut taken, &mut self.ready_failures);
        taken
    }
}

// ---------------------------------------------------------------------------
// What the player is given
// ---------------------------------------------------------------------------

/// The license request data of a capture: the operator's, else what the manifest holds.
pub fn preview_pssh(operator: &Option<Vec<u8>>, mpd_text: &str) -> (r: Option<Vec<u8>>)
    ensures
        match *operator {
            Some(p) => r matches Some(d) && d@ == p@,
            None => match r {
                Some(d) => license::mpd_pssh(mpd_text@) == Some(d@),
                None => license::mpd_pssh(mpd_text@) is None,
            },
        },
{
    match operator {
        Some(p) => Some(crate::bytes::copy_bytes(p.as_slice())),
        None => extract_pssh_from_mpd(mpd_text),
    }
}

/// What the player opens: a URL, request headers and an authorisation.
#[derive(Debug)]
pub struct CaptureInput {
    pub url: String,
    pub headers: Vec<(String, String)>,
    pub auth: Option<String>,
}

/// What the player opens. A protected stream is reached through its proxy, without headers
/// or authorisation; another one is opened as the operator gives it.
pub fn capture_input(
    proxy_url: Option<String>,
    url: String,
    headers: Vec<(String, String)>,
    auth: Option<String>,
) -> (r: CaptureInput)
    ensures
        match proxy_url {
            Some(p) => r.url == p && r.headers@.len() == 0 && r.auth is None,
            None => r == (CaptureInput { url, headers, auth }),
        },
{
    match proxy_url {
        Some(p) => CaptureInput { url: p, headers: Vec::new(), auth: None },
        None => CaptureInput { url, headers, auth },
    }
}

/// The arguments for one capture: one silent frame, scaled down and written as an image.
pub open spec fn capture_args(url: Seq<char>, frames_dir: Seq<char>, options_file: Seq<char>) -> Seq<
    Seq<char>,
> {
    seq![
        "--no-config"@,
        "--include="@ + options_file,
        "--no-terminal"@,
        "--no-audio"@,
        "--no-sub"@,
        "--hwdec=no"@,
        "--vd-lavc-threads=1"@,
        "--hls-bitrate=min"@,
        "--network-timeout="@ + text::decimal(NETWORK_TIMEOUT_SECS as nat),
        "--demuxer-readahead-secs=0"@,
        "--vo=image"@,
        "--vo-image-format=png"@,
        "--vo-image-outdir="@ + frames_dir,
        "--frames=1"@,
        "--vf=lavfi=[scale=256:144:force_original_aspect_ratio=decrease,pad=256:144:(ow-iw)/2:(oh-ih)/2,setsar=1]"@,
        "--"@,
        url,
    ]
}

/// The arguments for one capture.
pub fn mpv_args(url: &str, frames_dir: &str, options_file: &str) -> (r: Vec<String>)
    ensures
        r@.map_values(|a: String| a@) == capture_args(url@, frames_dir@, options_file@),
{
    let mut timeout: Vec<char> = chars_of("--network-timeout=");
    push_number(&mut timeout, NETWORK_TIMEOUT_SECS);
    let r: Vec<String> = vec![
        "--no-config".to_owned(),
        text::joined("--include=", options_file),
        "--no-terminal".to_owned(),
        "--no-audio".to_owned(),
        "--no-sub".to_owned(),
        "--hwdec=no".to_owned(),
        "--vd-lavc-threads=1".to_owned(),
        "--hls-bitrate=min".to_owned(),
        text_of(timeout.as_slice()),
        "--demuxer-readahead-secs=0".to_owned(),
        "--vo=image".to_owned(),
        "--vo-image-format=png".to_owned(),
        text::joined("--vo-image-outdir=", frames_dir),
        "--frames=1".to_owned(),
        "--vf=lavfi=[scale=256:144:force_original_aspect_ratio=decrease,pad=256:144:(ow-iw)/2:(oh-ih)/2,setsar=1]".to_owned(),
        "--".to_owned(),
        url.to_owned(),
    ];
    assert(r@.map_values(|a: String| a@) =~= capture_args(url@, frames_dir@, options_file@));
    r
}

/// What the player opens comes last, behind the mark that ends the options.
pub proof fn url_is_no_option(url: Seq<char>, frames_dir: Seq<char>, options_file: Seq<char>)
    ensures
        capture_args(url, frames_dir, options_file).last() == url,
        capture_args(url, frames_dir, options_file).drop_last().last() == "--"@,
{
}

/// The line of the options file for a request header. The player sets two of them by
/// options of their own.
pub open spec fn header_line(name: Seq<char>, value: Seq<char>) -> Seq<char> {
    if text::lower(name) == "referer"@ || text::lower(name) == "referrer"@ {
        "referrer="@ + value + seq!['\n']
    } else if text::lower(name) == "user-agent"@ {
        "user-agent="@ + value + seq!['\n']
    } else {
        "http-header-fields-append="@ + name + ": "@ + value + seq!['\n']
    }
}

/// The lines for request headers.
pub open spec fn header_lines(headers: Seq<(String, String)>) -> Seq<char>
    decreases headers.len(),
{
    if headers.len() == 0 {
        Seq::empty()
    } else {
        header_lines(headers.drop_last()) + header_line(headers.last().0@, headers.last().1@)
    }
}

/// The options file of a capture.
pub open spec fn options_text(headers: Seq<(String, String)>, auth: Option<Seq<char>>) -> Seq<
    char,
> {
    let first = match auth {
        Some(a) => "http-header-fields-append=Authorization: "@ + a + seq!['\n'],
        None => Seq::empty(),
    };
    first + header_lines(headers)
}

/// The contents of the options file of a capture.
pub fn header_config(headers: &Vec<(String, String)>, auth: &Option<String>) -> (r: String)
    ensures
        r@ == options_text(headers@, text::opt_text(*auth)),
{
    let mut out: Vec<char> = Vec::new();
    match auth {
        Some(a) => {
            push_text(&mut out, "http-header-fields-append=Authorization: ");
            push_text(&mut out, a.as_str());
            out.push('\n');
        },
        None => {},
    }
    let ghost first = out@;
    proof {
        assert(first =~= match text::opt_text(*auth) {
            Some(a) => "http-header-fields-append=Authorization: "@ + a + seq!['\n'],
            None => Seq::<char>::empty(),
        });
        assert(headers@.take(0) =~= Seq::<(String, String)>::empty());
        assert(first =~= first + header_lines(headers@.take(0)));
    }
    let mut i: usize = 0;
    while i < headers.len()
        invariant
            i <= headers@.len(),
            out@ == first + header_lines(headers@.take(i as int)),
        decreases headers@.len() - i,
    {
        let name = headers[i].0.as_str();
        let value = headers[i].1.as_str();
        let lowered = to_lower(chars_of(name).as_slice());
        let ghost before = out@;
        if same_chars(lowered.as_slice(), chars_of("referer").as_slice()) || same_chars(
            lowered.as_slice(),
            chars_of("referrer").as_slice(),
        ) {
            push_text(&mut out, "referrer=");
        } else if same_chars(lowered.as_slice(), chars_of("user-agent").as_slice()) {
            push_text(&mut out, "user-agent=");
        } else {
            push_text(&mut out, "http-header-fields-append=");
            push_text(&mut out, name);
            push_text(&mut out, ": ");
        }
        push_text(&mut out, value);
        out.push('\n');
        proof {
            assert(headers@.take(i + 1).drop_last() =~= headers@.take(i as int));
            assert(out@ =~= before + header_line(name@, value@));
            assert(out@ =~= first + header_lines(headers@.take(i + 1)));
        }
        i += 1;
    }
    assert(headers@.take(i as int) =~= headers@);
    text_of(out.as_slice())
}

/// A stream reached through its proxy needs no options at all.
pub proof fn proxied_stream_needs_no_options(input: CaptureInput)
    requires
        input.headers@.len() == 0,
        input.auth is None,
    ensures
        options_text(input.headers@, text::opt_text(input.auth)) == Seq::<char>::empty(),
{
}

/// The name of the directory of a capture.
pub fn work_dir_name(process: u32, capture: u64) -> (r: String)
    ensures
        r@ == "frenchetv-preview-"@ + text::decimal(process as nat) + "-"@ + text::decimal(
            capture as nat,
        ),
{
    let mut out: Vec<char> = chars_of("frenchetv-preview-");
    push_number(&mut out, process as u64);
    push_text(&mut out, "-");
    push_number(&mut out, capture);
    text_of(out.as_slice())
}

/// Whether a file of that directory is a frame: it has a name, and the extension of an
/// image.
pub fn is_frame_file(name: &str) -> (r: bool)
    ensures
        r == (text::ends_with(name@, ".png"@) && name@.len() > 4),
{
    let all = chars_of(name);
    has_suffix(all.as_slice(), ".png") && all.len() > 4
}

// ---------------------------------------------------------------------------
// Decoding the frame
// ---------------------------------------------------------------------------

/// A picture: width, height, and four bytes for each pixel.
pub type Picture = (u32, u32, Vec<u8>);

/// A frame of the preview size.
#[derive(Debug)]
pub struct Frame {
    pub size: [usize; 2],
    pub rgba: Vec<u8>,
}

/// The picture that a PNG file holds.
pub uninterp spec fn png_picture(png: Seq<u8>) -> Option<(u32, u32, Seq<u8>)>;

/// The pixels of a PNG file's picture, scaled to a width and a height.
pub uninterp spec fn png_scaled(png: Seq<u8>, width: u32, height: u32) -> Option<Seq<u8>>;

/// `image::load_from_memory_with_format` decodes a PNG file, `DynamicImage::width` and
/// `height` give its size, and `DynamicImage::to_rgba8` its pixels, four bytes for each.
/// Nothing is said of the text of an error.
#[verifier::external_body]
fn read_png(png: &[u8]) -> (r: Result<Picture, String>)
    ensures
        match r {
            Ok((w, h, rgba)) => {
                &&& png_picture(png@) == Some((w, h, rgba@))
                &&& rgba@.len() == 4 * w * h
            },
            Err(_) => png_picture(png@) is None,
        },
{
    let decoded = image::load_from_memory_with_format(png, image::ImageFormat::Png).map_err(|e| e.to_string())?;
    Ok((decoded.width(), decoded.height(), decoded.to_rgba8().into_raw()))
}

/// `DynamicImage::resize_exact`, with the triangle filter, brings a decoded PNG file to a
/// size; it fails only where the file cannot be decoded. Nothing is said of the text of an
/// error.
#[verifier::external_body]
fn scale_png(png: &[u8], width: u32, height: u32) -> (r: Result<Vec<u8>, String>)
    requires
        width > 0,
        height > 0,
    ensures
        match r {
            Ok(rgba) => {
                &&& png_scaled(png@, width, height) == Some(rgba@)
                &&& rgba@.len() == 4 * width * height
            },
            Err(_) => png_scaled(png@, width, height) is None,
        },
        r is Ok <==> png_picture(png@) is Some,
{
    let decoded = image::load_from_memory_with_format(png, image::ImageFormat::Png).map_err(|e| e.to_string())?;
    let scaled = decoded.resize_exact(width, height, image::imageops::FilterType::Triangle);
    Ok(scaled.to_rgba8().into_raw())
}

/// The picture that a file holds, in whichever format it is.
pub uninterp spec fn picture_of(file: Seq<u8>) -> Option<(u32, u32, Seq<u8>)>;

/// `image::load_from_memory` decodes a file whose format it finds out itself, and fails where
/// it cannot; `DynamicImage::width` and `height` give the picture's size, and
/// `DynamicImage::to_rgba8` its pixels, four bytes for each. All of it depends on the bytes
/// alone.
#[verifier::external_body]
fn read_picture(file: &[u8]) -> (r: Option<Picture>)
    ensures
        match r {
            Some((w, h, rgba)) => {
                &&& picture_of(file@) == Some((w, h, rgba@))
                &&& rgba@.len() == 4 * w * h
            },
            None => picture_of(file@) is None,
        },
{
    let decoded = image::load_from_memory(file).ok()?;
    Some((decoded.width(), decoded.height(), decoded.to_rgba8().into_raw()))
}

/// The picture of a logo; nothing where the file cannot be decoded.
pub fn decode_logo(file: &[u8]) -> (r: Option<Picture>)
    ensures
        match r {
            Some((w, h, rgba)) => {
                &&& picture_of(file@) == Some((w, h, rgba@))
                &&& rgba@.len() == 4 * w * h
            },
            None => picture_of(file@) is None,
        },
{
    read_picture(file)
}

/// Whether a picture has the preview size.
pub fn has_preview_size(width: u32, height: u32) -> (r: bool)
    ensures
        r == (width == PREVIEW_WIDTH && height == PREVIEW_HEIGHT),
{
    width as usize == PREVIEW_WIDTH && height as usize == PREVIEW_HEIGHT
}

/// A frame made of pixels of the preview size.
pub fn frame_of(rgba: Vec<u8>) -> (r: Frame)
    requires
        rgba@.len() == 4 * PREVIEW_WIDTH * PREVIEW_HEIGHT,
    ensures
        r.size@ == seq![PREVIEW_WIDTH, PREVIEW_HEIGHT],
        r.rgba == rgba,
{
    Frame { size: [PREVIEW_WIDTH, PREVIEW_HEIGHT], rgba }
}

/// The frame that a PNG file holds: its picture where that has the preview size, else its
/// picture scaled to it. Fails exactly where the file cannot be decoded.
pub fn decode_preview(png: &[u8]) -> (r: Result<Frame, String>)
    ensures
        match r {
            Ok(frame) => {
                &&& png_picture(png@) matches Some((w, h, pixels))
                &&& frame.size@ == seq![PREVIEW_WIDTH, PREVIEW_HEIGHT]
                &&& frame.rgba@.len() == 4 * PREVIEW_WIDTH * PREVIEW_HEIGHT
                &&& if w == PREVIEW_WIDTH && h == PREVIEW_HEIGHT {
                    frame.rgba@ == pixels
                } else {
                    Some(frame.rgba@) == png_scaled(
                        png@,
                        PREVIEW_WIDTH as u32,
                        PREVIEW_HEIGHT as u32,
                    )
                }
            },
            Err(_) => png_picture(png@) is None,
        },
{
    match read_png(png) {
        Err(e) => Err(e),
        Ok((w, h, rgba)) => {
            if has_preview_size(w, h) {
                return Ok(frame_of(rgba));
            }
            match scale_png(png, PREVIEW_WIDTH as u32, PREVIEW_HEIGHT as u32) {
                Err(e) => Err(e),
                Ok(scaled) => Ok(frame_of(scaled)),
            }
        },
    }
}

} // verus!
