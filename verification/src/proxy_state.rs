//! The decisions of a local HTTP proxy that hands a player decrypted segments.
//!
//! - `GET /manifest.mpd` is answered with the rewritten manifest.
//! - `GET /cdn/https/HOST/PATH` and `GET /cdn/http/HOST/PATH` are answered with what
//!   the network serves at that URL, decrypted.
//! - `GET /cdnnum/REPRESENTATION/NUMBER` stands for the audio segment with that
//!   number.

use crate::bytes::{copy_bytes, push_bytes};
use crate::fmp4::boxes;
use crate::fmp4::boxes::{find_box, MDAT, MOOF};
use crate::fmp4::init;
use crate::fmp4::init::{parse_init_segment, InitInfo, InitView};
use crate::fmp4::media;
use crate::fmp4::media::{
    parse_media_segment, EncView, ParsedSegment, SampleEncInfo, SampleView,
};
use crate::fmp4::rebuild;
use crate::fmp4::rebuild::rebuild_segment;
use crate::fmp4::strip;
use crate::fmp4::strip::strip_encryption_from_init;
use crate::fmp4::Fmp4Error;
use crate::mpd;
use crate::mpd::{cdn_path_to_url, extract_mpd_scheme, CdnPathError};
use crate::numbers;
use crate::numbers::{number_route_to_cdn_path, NumberMappings, NumbersView};
use crate::proxy;
use crate::proxy::{
    ensure_allowed_host, fresh, rewrite_mpd, segment_cache_get, segment_cache_put, HostError,
    SegmentCache,
};
use crate::text;
use crate::text::{
    behind, chars_of, find_one, front, has_prefix, push_number, push_text, same_text, text_of, trim,
};
use crate::text_map::TextSet;
use vstd::prelude::*;

verus! {

// ---------------------------------------------------------------------------
// Requests and responses
// ---------------------------------------------------------------------------

/// The path that a request line asks for: what stands between its first and its
/// second space, or behind the first.
pub open spec fn requested(line: Seq<char>) -> Option<Seq<char>> {
    let s = text::trimmed(line);
    match text::find_char(s, ' ') {
        None => None,
        Some(i) => {
            let rest = s.skip(i + 1);
            match text::find_char(rest, ' ') {
                None => Some(rest),
                Some(j) => Some(rest.take(j)),
            }
        },
    }
}

/// Reads the path from a request line such as `GET /path HTTP/1.1`. There is none in
/// a malformed one.
pub fn request_path(line: &str) -> (r: Option<String>)
    ensures
        text::opt_text(r) == requested(line@),
{
    let all = chars_of(line);
    let s = trim(all.as_slice());
    assert(s.len() == s@.len());
    match find_one(s, ' ') {
        None => None,
        Some(i) => {
            let rest = behind(s, i + 1);
            match find_one(rest, ' ') {
                None => Some(text_of(rest)),
                Some(j) => Some(text_of(front(rest, j))),
            }
        },
    }
}

/// Whether a line ends the header of a request.
pub fn ends_header(line: &str) -> (r: bool)
    ensures
        r == (line@ == "\r\n"@ || line@ == "\n"@ || line@.len() == 0),
{
    same_text(line, "\r\n") || same_text(line, "\n") || chars_of(line).len() == 0
}

/// What a request asks for.
#[derive(Debug)]
pub enum Route {
    Manifest,
    /// A segment, by scheme, host and path.
    Segment(String),
    NotFound,
}

/// What a request asks for.
pub enum RouteView {
    Manifest,
    Segment(Seq<char>),
    NotFound,
}

impl View for Route {
    type V = RouteView;

    open spec fn view(&self) -> RouteView {
        match self {
            Route::Manifest => RouteView::Manifest,
            Route::Segment(p) => RouteView::Segment(p@),
            Route::NotFound => RouteView::NotFound,
        }
    }
}

/// What a path asks for.
pub open spec fn route_of(path: Seq<char>, st: NumbersView) -> RouteView {
    if path == "/manifest.mpd"@ || text::starts_with(path, "/manifest.mpd?"@) {
        RouteView::Manifest
    } else if text::starts_with(path, "/cdnnum/"@) && numbers::numbered_path(
        path.skip("/cdnnum/"@.len() as int),
        st,
    ) is Some {
        RouteView::Segment(numbers::numbered_path(path.skip("/cdnnum/"@.len() as int), st)->0)
    } else if text::starts_with(path, "/cdn/"@) {
        RouteView::Segment(path.skip("/cdn/"@.len() as int))
    } else {
        RouteView::NotFound
    }
}

/// Decides what a path asks for.
pub fn route(path: &str, number_mappings: &NumberMappings) -> (r: Route)
    ensures
        r@ == route_of(path@, number_mappings@),
{
    let all = chars_of(path);
    if same_text(path, "/manifest.mpd") || has_prefix(all.as_slice(), "/manifest.mpd?") {
        return Route::Manifest;
    }
    if has_prefix(all.as_slice(), "/cdnnum/") {
        let rest = text_of(behind(all.as_slice(), chars_of("/cdnnum/").len()));
        match number_route_to_cdn_path(rest.as_str(), number_mappings) {
            Some(p) => {
                return Route::Segment(p);
            },
            None => {},
        }
    }
    if has_prefix(all.as_slice(), "/cdn/") {
        return Route::Segment(text_of(behind(all.as_slice(), chars_of("/cdn/").len())));
    }
    Route::NotFound
}

/// An answer to a request.
#[derive(Debug)]
pub struct Reply {
    pub status: String,
    pub content_type: String,
    pub body: Vec<u8>,
}

/// The answer with a manifest.
pub fn manifest_reply(mpd: &str) -> (r: Reply)
    ensures
        r.status@ == "200 OK"@,
        r.content_type@ == "application/dash+xml"@,
        r.body@ == vstd::utf8::encode_utf8(mpd@),
{
    Reply {
        status: "200 OK".to_owned(),
        content_type: "application/dash+xml".to_owned(),
        body: copy_bytes(mpd.as_bytes()),
    }
}

/// The answer with a segment, or with the reason why there is none.
pub fn segment_reply(segment: Result<Vec<u8>, String>) -> (r: Reply)
    ensures
        match segment {
            Ok(data) => r.status@ == "200 OK"@ && r.content_type@ == "video/mp4"@ && r.body@
                == data@,
            Err(reason) => r.status@ == "502 Bad Gateway"@ && r.content_type@ == "text/plain"@
                && r.body@ == vstd::utf8::encode_utf8(reason@),
        },
{
    match segment {
        Ok(data) => Reply {
            status: "200 OK".to_owned(),
            content_type: "video/mp4".to_owned(),
            body: data,
        },
        Err(reason) => Reply {
            status: "502 Bad Gateway".to_owned(),
            content_type: "text/plain".to_owned(),
            body: copy_bytes(reason.as_str().as_bytes()),
        },
    }
}

/// The answer to a request for anything else.
pub fn not_found_reply() -> (r: Reply)
    ensures
        r.status@ == "404 Not Found"@,
        r.content_type@ == "text/plain"@,
        r.body@ == vstd::utf8::encode_utf8("not found"@),
{
    Reply {
        status: "404 Not Found".to_owned(),
        content_type: "text/plain".to_owned(),
        body: copy_bytes("not found".as_bytes()),
    }
}

/// The head of an HTTP response, up to the empty line that ends it.
pub open spec fn response_head(status: Seq<char>, content_type: Seq<char>, body_len: nat) -> Seq<
    char,
> {
    "HTTP/1.1 "@ + status + "\r\nContent-Type: "@ + content_type + "\r\nContent-Length: "@
        + text::decimal(body_len) + "\r\nConnection: keep-alive\r\n\r\n"@
}

/// The bytes of a response, head and body.
pub fn response_bytes(reply: &Reply) -> (r: Vec<u8>)
    ensures
        r@ == vstd::utf8::encode_utf8(
            response_head(reply.status@, reply.content_type@, reply.body@.len()),
        ) + reply.body@,
{
    let mut head = chars_of("HTTP/1.1 ");
    push_text(&mut head, reply.status.as_str());
    push_text(&mut head, "\r\nContent-Type: ");
    push_text(&mut head, reply.content_type.as_str());
    push_text(&mut head, "\r\nContent-Length: ");
    push_number(&mut head, reply.body.len() as u64);
    push_text(&mut head, "\r\nConnection: keep-alive\r\n\r\n");
    let head = text_of(head.as_slice());
    let mut out = copy_bytes(head.as_str().as_bytes());
    push_bytes(&mut out, reply.body.as_slice());
    out
}

/// The URL at which a player finds the manifest.
pub fn manifest_url(port: u16) -> (url: String)
    ensures
        url@ == "http://127.0.0.1:"@ + text::decimal(port as nat) + "/manifest.mpd"@,
{
    let mut out = chars_of("http://127.0.0.1:");
    push_number(&mut out, port as u64);
    push_text(&mut out, "/manifest.mpd");
    text_of(out.as_slice())
}

// ---------------------------------------------------------------------------
// Decrypting a segment
// ---------------------------------------------------------------------------

/// Why a segment cannot be served.
#[derive(Debug)]
pub enum SegmentError {
    Path(CdnPathError),
    Host(HostError),
    Parse(Fmp4Error),
    /// A sample reaches past the end of the data box.
    SampleOutOfRange,
}

/// A sample: its bytes, how it is encrypted, and its time.
pub struct SampleStepView {
    pub data: Seq<u8>,
    pub enc: Option<EncView>,
    pub time: int,
}

/// A sample to be decrypted, or to be copied if it is a clear one.
#[derive(Debug)]
pub struct SampleStep {
    pub data: Vec<u8>,
    pub enc: Option<SampleEncInfo>,
    pub time: i64,
}

impl View for SampleStep {
    type V = SampleStepView;

    open spec fn view(&self) -> SampleStepView {
        SampleStepView {
            data: self.data@,
            enc: match self.enc {
                Some(e) => Some(e@),
                None => None,
            },
            time: self.time as int,
        }
    }
}

/// What is to be done to decrypt a media segment.
#[derive(Debug)]
pub struct MediaPlan {
    pub key_id: [u8; 16],
    pub scheme: u32,
    pub steps: Vec<SampleStep>,
    pub mdat_box_offset: usize,
    pub mdat_box_size: usize,
}

/// A 64-bit number read as a signed one.
pub open spec fn signed(n: int) -> int {
    if n < 0x8000_0000_0000_0000 {
        n
    } else {
        n - 0x1_0000_0000_0000_0000
    }
}

/// The step for a sample.
pub open spec fn step_of(mdat: Seq<u8>, x: SampleView) -> SampleStepView {
    SampleStepView {
        data: mdat.subrange(x.mdat_offset, x.mdat_offset + x.size),
        enc: x.enc,
        time: signed(x.decode_time),
    }
}

/// Whether every sample lies inside the data box.
pub open spec fn all_inside(samples: Seq<SampleView>, mdat: Seq<u8>) -> bool {
    forall|i: int|
        0 <= i < samples.len() ==> (#[trigger] samples[i]).mdat_offset + samples[i].size
            <= mdat.len()
}

/// The steps for a media segment.
pub open spec fn planned(data: Seq<u8>, iv_size: int) -> Result<Seq<SampleStepView>, Option<
    Fmp4Error,
>> {
    match media::media_samples(data, iv_size) {
        Err(e) => Err(Some(e)),
        Ok(samples) => {
            let mdat = (boxes::child(data, MDAT@)->0).payload;
            if all_inside(samples, mdat) {
                Ok(samples.map_values(|x: SampleView| step_of(mdat, x)))
            } else {
                Err(None)
            }
        },
    }
}

fn to_signed(n: u64) -> (r: i64)
    ensures
        r == signed(n as int),
{
    if n < 0x8000_0000_0000_0000 {
        n as i64
    } else {
        -((0xffff_ffff_ffff_ffff - n) as i64) - 1
    }
}

fn plan_steps(parsed: &ParsedSegment) -> (r: Option<Vec<SampleStep>>)
    ensures
        match r {
            Some(v) => all_inside(parsed.sample_views(), parsed.mdat_payload@) && v@.map_values(
                |x: SampleStep| x@,
            ) == parsed.sample_views().map_values(
                |x: SampleView| step_of(parsed.mdat_payload@, x),
            ),
            None => !all_inside(parsed.sample_views(), parsed.mdat_payload@),
        },
{
    let ghost views = parsed.sample_views();
    let mut steps: Vec<SampleStep> = Vec::new();
    let mut i: usize = 0;
    while i < parsed.samples.len()
        invariant
            i <= parsed.samples@.len(),
            views == parsed.sample_views(),
            steps@.len() == i,
            forall|j: int|
                0 <= j < i ==> (#[trigger] views[j]).mdat_offset + views[j].size
                    <= parsed.mdat_payload@.len(),
            forall|j: int|
                0 <= j < i ==> (#[trigger] steps@[j])@ == step_of(parsed.mdat_payload@, views[j]),
        decreases parsed.samples@.len() - i,
    {
        let sample = &parsed.samples[i];
        assert(views[i as int] == sample@);
        let len: usize = parsed.mdat_payload.len();
        if sample.mdat_offset > len || sample.size > len - sample.mdat_offset {
            return None;
        }
        let data = copy_bytes(
            vstd::slice::slice_subrange(
                parsed.mdat_payload,
                sample.mdat_offset,
                sample.mdat_offset + sample.size,
            ),
        );
        let enc = match &sample.enc {
            Some(e) => Some(e.clone()),
            None => None,
        };
        let step = SampleStep { data, enc, time: to_signed(sample.decode_time) };
        assert(step@ == step_of(parsed.mdat_payload@, views[i as int]));
        steps.push(step);
        i += 1;
    }
    assert(steps@.map_values(|x: SampleStep| x@) =~= views.map_values(
        |x: SampleView| step_of(parsed.mdat_payload@, x),
    ));
    Some(steps)
}

/// Puts a media segment together again from its decrypted samples.
pub fn finish_media(data: &[u8], plan: &MediaPlan, samples: &[Vec<u8>]) -> (r: Vec<u8>)
    requires
        plan.mdat_box_offset <= data@.len(),
        plan.mdat_box_offset + plan.mdat_box_size <= usize::MAX,
    ensures
        r@ == rebuild::rebuilt(
            data@,
            rebuild::joined(samples@),
            plan.mdat_box_offset as int,
            plan.mdat_box_size as int,
        ),
{
    let parsed = ParsedSegment {
        samples: Vec::new(),
        mdat_payload: data,
        mdat_box_offset: plan.mdat_box_offset,
        mdat_box_size: plan.mdat_box_size,
    };
    rebuild_segment(data, samples, &parsed)
}

/// Whether bytes are those of a media segment, and not of an init segment.
pub fn is_media_segment(data: &[u8]) -> (r: bool)
    ensures
        r == (boxes::child(data@, MOOF@) is Some),
{
    find_box(data, &MOOF).is_some()
}

// ---------------------------------------------------------------------------
// The state of the proxy
// ---------------------------------------------------------------------------

/// How long a manifest is served before it is fetched again, in nanoseconds.
pub const MPD_TTL: u64 = 2_000_000_000;

/// What the proxy knows.
pub struct ProxyView {
    /// The first manifest, rewritten.
    pub fallback: Seq<char>,
    pub port: u16,
    /// The encryption scheme that the first manifest names.
    pub scheme: u32,
    /// The manifest served last, and when it was stored.
    pub mpd_cache: Option<(u64, Seq<char>)>,
    /// The hosts that may be asked.
    pub hosts: Set<Seq<char>>,
    pub segments: Map<Seq<char>, (u64, Seq<u8>)>,
    pub init: Option<InitView>,
    pub numbers: NumbersView,
}

/// What the proxy knows. Times are nanoseconds of a clock that does not run
/// backwards.
#[derive(Debug)]
pub struct ProxyState {
    mpd_fallback: String,
    proxy_port: u16,
    mpd_scheme: u32,
    mpd_cache: Option<(u64, String)>,
    allowed_hosts: TextSet,
    segment_cache: SegmentCache,
    init_info: Option<InitInfo>,
    number_mappings: NumberMappings,
}

/// What came back when the manifest was fetched again.
#[derive(Debug)]
pub enum MpdReply {
    /// Its text, and the URL that it came from in the end.
    Body { text: String, url: String },
    Failed,
}

/// The encryption parameters by which media segments are decrypted.
pub struct KeyView {
    pub iv_size: u8,
    pub key_id: Seq<u8>,
    pub scheme: u32,
}

/// The parameters of the init segment or, as long as there is none, an IV size of
/// 8, a key id of zeros and the scheme of the manifest.
pub open spec fn key_of(init: Option<InitView>, scheme: u32) -> KeyView {
    match init {
        Some(i) => KeyView {
            iv_size: i.default_iv_size,
            key_id: i.default_kid,
            scheme: i.encryption_scheme,
        },
        None => KeyView { iv_size: 8, key_id: Seq::new(16, |i: int| 0u8), scheme },
    }
}

/// Where a segment is fetched from: only from hosts that the manifest names.
pub open spec fn is_segment_url(
    proxy: ProxyView,
    cdn_path: Seq<char>,
    url: Result<String, SegmentError>,
) -> bool {
    match url {
        Ok(url) => {
            &&& mpd::cdn_url(cdn_path) == Some(url@)
            &&& proxy::scheme_host(proxy::url_parts(url@)) is Some
            &&& proxy.hosts.contains(proxy::scheme_host(proxy::url_parts(url@))->0)
        },
        Err(SegmentError::Path(CdnPathError::Unrecognised(p))) => {
            &&& mpd::cdn_url(cdn_path) is None
            &&& p@ == cdn_path
        },
        Err(SegmentError::Host(HostError::Disallowed(h))) => {
            &&& mpd::cdn_url(cdn_path) is Some
            &&& proxy::scheme_host(proxy::url_parts(mpd::cdn_url(cdn_path)->0)) == Some(h@)
            &&& !proxy.hosts.contains(h@)
        },
        Err(SegmentError::Host(HostError::Unparseable(u))) => {
            &&& mpd::cdn_url(cdn_path) == Some(u@)
            &&& proxy::scheme_host(proxy::url_parts(u@)) is None
        },
        Err(_) => false,
    }
}

/// How a media segment is decrypted by what the proxy knows, or why it cannot be.
pub open spec fn is_plan(
    proxy: ProxyView,
    data: Seq<u8>,
    plan: Result<MediaPlan, SegmentError>,
) -> bool {
    let key = key_of(proxy.init, proxy.scheme);
    match plan {
        Ok(plan) => {
            &&& planned(data, key.iv_size as int) == Ok::<Seq<SampleStepView>, Option<Fmp4Error>>(
                plan.steps@.map_values(|x: SampleStep| x@),
            )
            &&& plan.key_id@ == key.key_id
            &&& plan.scheme == key.scheme
            &&& boxes::child(data, MDAT@) is Some
            &&& plan.mdat_box_offset == (boxes::child(data, MDAT@)->0).offset
            &&& plan.mdat_box_size == (boxes::child(data, MDAT@)->0).total_size
            &&& plan.mdat_box_offset + plan.mdat_box_size <= data.len()
        },
        Err(SegmentError::Parse(e)) => planned(data, key.iv_size as int) == Err::<
            Seq<SampleStepView>,
            Option<Fmp4Error>,
        >(Some(e)),
        Err(SegmentError::SampleOutOfRange) => planned(data, key.iv_size as int) == Err::<
            Seq<SampleStepView>,
            Option<Fmp4Error>,
        >(None),
        Err(_) => false,
    }
}

/// Why an init segment that was fetched separately is of no use.
#[derive(Debug, PartialEq, Eq, Structural, Clone, Copy)]
pub enum InitError {
    NoEncryptionInfo,
    Parse(Fmp4Error),
}

impl ProxyState {
    pub closed spec fn wf(self) -> bool {
        self.segment_cache.wf()
    }

    pub closed spec fn view(&self) -> ProxyView {
        ProxyView {
            fallback: self.mpd_fallback@,
            port: self.proxy_port,
            scheme: self.mpd_scheme,
            mpd_cache: match self.mpd_cache {
                Some(c) => Some((c.0, c.1@)),
                None => None,
            },
            hosts: self.allowed_hosts@,
            segments: self.segment_cache@,
            init: match self.init_info {
                Some(i) => Some(i@),
                None => None,
            },
            numbers: self.number_mappings@,
        }
    }

    /// Starts from the manifest that was fetched from `mpd_base_url`.
    pub fn start(mpd_text: &str, mpd_base_url: &str, proxy_port: u16) -> (r: Self)
        ensures
            r.wf(),
            ({
                let v = proxy::rewritten(
                    mpd_text@,
                    mpd_base_url@,
                    proxy_port,
                    NumbersView { map: Map::empty(), given_up: Set::empty() },
                );
                r@ == ProxyView {
                    fallback: v.text,
                    port: proxy_port,
                    scheme: mpd::scheme_named(mpd_text@),
                    mpd_cache: None,
                    hosts: v.hosts,
                    segments: Map::empty(),
                    init: None,
                    numbers: v.numbers,
                }
            }),
    {
        let mpd_scheme: u32 = extract_mpd_scheme(mpd_text);
        let mut number_mappings = NumberMappings::new();
        let (mpd_fallback, allowed_hosts) = rewrite_mpd(
            mpd_text,
            mpd_base_url,
            proxy_port,
            &mut number_mappings,
        );
        ProxyState {
            mpd_fallback,
            proxy_port,
            mpd_scheme,
            mpd_cache: None,
            allowed_hosts,
            segment_cache: SegmentCache::new(),
            init_info: None,
            number_mappings,
        }
    }

    /// The manifest served last, if it need not be fetched again yet.
    pub fn cached_mpd(&self, now: u64) -> (r: Option<String>)
        ensures
            match (r, self@.mpd_cache) {
                (Some(s), Some(c)) => s@ == c.1 && proxy::is_fresh(c.0, now, MPD_TTL),
                (None, Some(c)) => !proxy::is_fresh(c.0, now, MPD_TTL),
                (Some(_), None) => false,
                (None, None) => true,
            },
    {
        match &self.mpd_cache {
            Some((at, mpd)) => {
                if fresh(*at, now, MPD_TTL) {
                    Some(mpd.clone())
                } else {
                    None
                }
            },
            None => None,
        }
    }

    /// Takes in what came back when the manifest was fetched again, and returns the
    /// manifest to serve: the new one, rewritten, with the hosts that it names in
    /// place of the old ones; or the first one, if there is no new one.
    pub fn refresh_mpd(&mut self, reply: &MpdReply, now: u64) -> (r: String)
        requires
            old(self).wf(),
        ensures
            final(self).wf(),
            match reply {
                MpdReply::Body { text, url } => {
                    let v = proxy::rewritten(text@, url@, old(self)@.port, old(self)@.numbers);
                    &&& r@ == v.text
                    &&& final(self)@ == ProxyView {
                        hosts: v.hosts,
                        numbers: v.numbers,
                        mpd_cache: Some((now, v.text)),
                        ..old(self)@
                    }
                },
                MpdReply::Failed => {
                    &&& r@ == old(self)@.fallback
                    &&& final(self)@ == ProxyView {
                        mpd_cache: Some((now, old(self)@.fallback)),
                        ..old(self)@
                    }
                },
            },
    {
        let mpd = match reply {
            MpdReply::Body { text, url } => {
                let (rewritten, hosts) = rewrite_mpd(
                    text.as_str(),
                    url.as_str(),
                    self.proxy_port,
                    &mut self.number_mappings,
                );
                self.allowed_hosts = hosts;
                rewritten
            },
            MpdReply::Failed => self.mpd_fallback.clone(),
        };
        self.mpd_cache = Some((now, mpd.clone()));
        mpd
    }

    /// Decides what a path asks for.
    pub fn route(&self, path: &str) -> (r: Route)
        ensures
            r@ == route_of(path@, self@.numbers),
    {
        route(path, &self.number_mappings)
    }

    /// The segment served for a path a moment ago, if there is one. Drops those that
    /// are too old.
    pub fn cached_segment(&mut self, cdn_path: &str, now: u64) -> (r: Option<Vec<u8>>)
        requires
            old(self).wf(),
        ensures
            final(self).wf(),
            final(self)@ == (ProxyView {
                segments: proxy::pruned(old(self)@.segments, now),
                ..old(self)@
            }),
            match r {
                Some(data) => final(self)@.segments.contains_key(cdn_path@)
                    && final(self)@.segments[cdn_path@].1 == data@,
                None => !final(self)@.segments.contains_key(cdn_path@),
            },
    {
        segment_cache_get(&mut self.segment_cache, cdn_path, now)
    }

    /// Keeps a segment for a moment.
    pub fn store_segment(&mut self, cdn_path: &str, data: Vec<u8>, now: u64)
        requires
            old(self).wf(),
        ensures
            final(self).wf(),
            final(self)@ == (ProxyView {
                segments: old(self)@.segments.insert(cdn_path@, (now, data@)),
                ..old(self)@
            }),
    {
        segment_cache_put(&mut self.segment_cache, cdn_path, data, now);
    }

    /// The URL that a segment is fetched from. Only hosts that the manifest names
    /// are asked.
    pub fn segment_url(&self, cdn_path: &str) -> (r: Result<String, SegmentError>)
        ensures
            is_segment_url(self@, cdn_path@, r),
    {
        let url = match cdn_path_to_url(cdn_path) {
            Ok(url) => url,
            Err(e) => return Err(SegmentError::Path(e)),
        };
        match ensure_allowed_host(url.as_str(), &self.allowed_hosts) {
            Ok(()) => Ok(url),
            Err(e) => Err(SegmentError::Host(e)),
        }
    }

    /// Takes in an init segment: keeps its encryption parameters, if it has any, and
    /// returns it in unprotected form.
    pub fn accept_init(&mut self, data: &[u8]) -> (r: Vec<u8>)
        requires
            old(self).wf(),
        ensures
            final(self).wf(),
            r@ == strip::plain_init(data@),
            final(self)@ == (ProxyView {
                init: match init::init_info(data@, old(self)@.scheme) {
                    Ok(Some(v)) => Some(v),
                    _ => old(self)@.init,
                },
                ..old(self)@
            }),
    {
        match parse_init_segment(data, self.mpd_scheme) {
            Ok(Some(info)) => {
                self.init_info = Some(info);
            },
            _ => {},
        }
        strip_encryption_from_init(data)
    }

    /// Whether the init segment is still to be fetched before a media segment can be
    /// decrypted.
    pub fn needs_init(&self) -> (r: bool)
        ensures
            r == (self@.init is None),
    {
        self.init_info.is_none()
    }

    /// Takes in an init segment that was fetched separately.
    pub fn accept_fetched_init(&mut self, data: &[u8]) -> (r: Result<(), InitError>)
        requires
            old(self).wf(),
        ensures
            final(self).wf(),
            match init::init_info(data@, old(self)@.scheme) {
                Ok(Some(v)) => r is Ok && final(self)@ == (ProxyView {
                    init: Some(v),
                    ..old(self)@
                }),
                Ok(None) => r == Err::<(), InitError>(InitError::NoEncryptionInfo) && final(self)@
                    == old(self)@,
                Err(e) => r == Err::<(), InitError>(InitError::Parse(e)) && final(self)@
                    == old(self)@,
            },
    {
        match parse_init_segment(data, self.mpd_scheme) {
            Ok(Some(info)) => {
                self.init_info = Some(info);
                Ok(())
            },
            Ok(None) => Err(InitError::NoEncryptionInfo),
            Err(e) => Err(InitError::Parse(e)),
        }
    }

    /// Plans how a media segment is decrypted.
    pub fn plan_media(&self, data: &[u8]) -> (r: Result<MediaPlan, SegmentError>)
        ensures
            is_plan(self@, data@, r),
    {
        let mut iv_size: u8 = 8;
        let mut key_id: [u8; 16] = [0; 16];
        let mut scheme: u32 = self.mpd_scheme;
        match &self.init_info {
            Some(i) => {
                iv_size = i.default_iv_size;
                key_id = i.default_kid;
                scheme = i.encryption_scheme;
            },
            None => {},
        }
        assert(key_id@ =~= key_of(self@.init, self@.scheme).key_id);
        let parsed = match parse_media_segment(data, iv_size) {
            Ok(p) => p,
            Err(e) => return Err(SegmentError::Parse(e)),
        };
        match plan_steps(&parsed) {
            Some(steps) => Ok(
                MediaPlan {
                    key_id,
                    scheme,
                    steps,
                    mdat_box_offset: parsed.mdat_box_offset,
                    mdat_box_size: parsed.mdat_box_size,
                },
            ),
            None => Err(SegmentError::SampleOutOfRange),
        }
    }
}

} // verus!
