//! How one segment is served: from memory, or fetched and decrypted, each step with what
//! the last one gave.

use crate::bytes::copy_bytes;
use crate::fmp4::boxes;
use crate::fmp4::boxes::MOOF;
use crate::fmp4::init;
use crate::fmp4::rebuild;
use crate::fmp4::strip;
use crate::mpd;
use crate::mpd::derive_init_url;
use crate::proxy;
use crate::proxy_state;
use crate::proxy_state::{
    finish_media, is_media_segment, MediaPlan, ProxyState, ProxyView, SegmentError,
};
use crate::text;
use crate::text::{behind, chars_of, has_text, push_number, push_text, rfind_one, text_of};
use vstd::prelude::*;

verus! {

/// What is done next for a segment.
#[derive(Debug)]
pub enum SegmentAction {
    /// Answer with these bytes.
    Serve(Vec<u8>),
    /// Fetch the segment from this URL.
    Fetch(String),
    /// Fetch the init segment from this URL first.
    FetchInit(String),
    /// Decrypt the samples of the segment.
    Decrypt(MediaPlan),
    /// The segment cannot be served.
    Fail(SegmentError),
}

/// What is done with a media segment: it is decrypted by what the proxy knows.
pub open spec fn decrypts(proxy: ProxyView, data: Seq<u8>, action: SegmentAction) -> bool {
    match action {
        SegmentAction::Decrypt(plan) => proxy_state::is_plan(proxy, data, Ok(plan)),
        SegmentAction::Fail(e) => proxy_state::is_plan(proxy, data, Err(e)),
        _ => false,
    }
}

/// What the proxy knows after it has served a segment.
pub open spec fn with_segment(proxy: ProxyView, cdn_path: Seq<char>, data: Seq<u8>, now: u64) -> ProxyView {
    ProxyView { segments: proxy.segments.insert(cdn_path, (now, data)), ..proxy }
}

impl ProxyState {
    /// A segment is asked for: it is served from memory while it is fresh, and fetched
    /// otherwise, if the manifest names its host.
    pub fn begin_segment(&mut self, cdn_path: &str, now: u64) -> (r: SegmentAction)
        requires
            old(self).wf(),
        ensures
            final(self).wf(),
            final(self)@ == (ProxyView {
                segments: proxy::pruned(old(self)@.segments, now),
                ..old(self)@
            }),
            ({
                let cached = final(self)@.segments;
                match r {
                    SegmentAction::Serve(data) => {
                        &&& cached.contains_key(cdn_path@)
                        &&& cached[cdn_path@].1 == data@
                    },
                    SegmentAction::Fetch(url) => {
                        &&& !cached.contains_key(cdn_path@)
                        &&& proxy_state::is_segment_url(old(self)@, cdn_path@, Ok(url))
                    },
                    SegmentAction::Fail(e) => {
                        &&& !cached.contains_key(cdn_path@)
                        &&& proxy_state::is_segment_url(old(self)@, cdn_path@, Err(e))
                    },
                    _ => false,
                }
            }),
    {
        match self.cached_segment(cdn_path, now) {
            Some(data) => SegmentAction::Serve(data),
            None => match self.segment_url(cdn_path) {
                Ok(url) => SegmentAction::Fetch(url),
                Err(e) => SegmentAction::Fail(e),
            },
        }
    }

    /// How a media segment is decrypted.
    fn decrypt_step(&self, data: &[u8]) -> (r: SegmentAction)
        ensures
            decrypts(self@, data@, r),
    {
        match self.plan_media(data) {
            Ok(plan) => SegmentAction::Decrypt(plan),
            Err(e) => SegmentAction::Fail(e),
        }
    }

    /// A segment was fetched from a URL. An init segment is served in clear form, and its
    /// key remembered. A media segment is decrypted; before the first one, its init segment
    /// is fetched, where its URL can be told from the segment's.
    pub fn segment_fetched(&mut self, cdn_path: &str, url: &str, data: &[u8], now: u64) -> (r:
        SegmentAction)
        requires
            old(self).wf(),
        ensures
            final(self).wf(),
            if boxes::child(data@, MOOF@) is None {
                &&& r matches SegmentAction::Serve(plain)
                &&& plain@ == strip::plain_init(data@)
                &&& final(self)@ == with_segment(
                    ProxyView {
                        init: match init::init_info(data@, old(self)@.scheme) {
                            Ok(Some(v)) => Some(v),
                            _ => old(self)@.init,
                        },
                        ..old(self)@
                    },
                    cdn_path@,
                    plain@,
                    now,
                )
            } else {
                &&& final(self)@ == old(self)@
                &&& if old(self)@.init is None && mpd::init_url(url@) is Some {
                    r matches SegmentAction::FetchInit(u) && mpd::init_url(url@) == Some(u@)
                } else {
                    decrypts(old(self)@, data@, r)
                }
            },
    {
        if !is_media_segment(data) {
            let plain = self.accept_init(data);
            self.store_segment(cdn_path, copy_bytes(plain.as_slice()), now);
            return SegmentAction::Serve(plain);
        }
        if self.needs_init() {
            match derive_init_url(url) {
                Some(u) => {
                    return SegmentAction::FetchInit(u);
                },
                None => {},
            }
        }
        self.decrypt_step(data)
    }

    /// The init segment for a media segment was fetched, or could not be. Its key is
    /// remembered where it names one, and the media segment decrypted either way.
    pub fn init_fetched(&mut self, init: &Option<Vec<u8>>, data: &[u8]) -> (r: SegmentAction)
        requires
            old(self).wf(),
        ensures
            final(self).wf(),
            final(self)@ == (ProxyView {
                init: match init {
                    Some(i) => match init::init_info(i@, old(self)@.scheme) {
                        Ok(Some(v)) => Some(v),
                        _ => old(self)@.init,
                    },
                    None => old(self)@.init,
                },
                ..old(self)@
            }),
            decrypts(final(self)@, data@, r),
    {
        match init {
            Some(i) => {
                let _taken = self.accept_fetched_init(i.as_slice());
            },
            None => {},
        }
        self.decrypt_step(data)
    }

    /// The samples of a media segment were decrypted: it is put together again, served, and
    /// kept for a moment.
    pub fn segment_decrypted(
        &mut self,
        cdn_path: &str,
        data: &[u8],
        plan: &MediaPlan,
        samples: &[Vec<u8>],
        now: u64,
    ) -> (r: Vec<u8>)
        requires
            old(self).wf(),
            plan.mdat_box_offset + plan.mdat_box_size <= data@.len(),
        ensures
            final(self).wf(),
            r@ == rebuild::rebuilt(
                data@,
                rebuild::joined(samples@),
                plan.mdat_box_offset as int,
                plan.mdat_box_size as int,
            ),
            final(self)@ == with_segment(old(self)@, cdn_path@, r@, now),
    {
        assert(data.len() == data@.len());
        let whole = finish_media(data, plan, samples);
        self.store_segment(cdn_path, copy_bytes(whole.as_slice()), now);
        whole
    }
}

// ---------------------------------------------------------------------------
// Segments kept on disk
// ---------------------------------------------------------------------------

/// Whether a character is a letter or a digit, by the rules of Unicode.
pub uninterp spec fn alphanumeric(c: char) -> bool;

/// `char::is_alphanumeric` tells letters and digits, by the rules of Unicode: the same for the
/// same character.
#[verifier::external_body]
fn is_alphanumeric(c: char) -> (r: bool)
    ensures
        r == alphanumeric(c),
{
    c.is_alphanumeric()
}

/// A character as it stands in a file name.
pub open spec fn file_char(c: char, letter: bool) -> char {
    if letter || c == '.' || c == '_' || c == '-' {
        c
    } else {
        '_'
    }
}

/// A character as it stands in a file name, given whether it is a letter or a digit.
pub fn to_file_char(c: char, letter: bool) -> (r: char)
    ensures
        r == file_char(c, letter),
{
    if letter || c == '.' || c == '_' || c == '-' {
        c
    } else {
        '_'
    }
}

/// A number in at least five digits.
pub open spec fn five_digits(n: nat) -> Seq<char> {
    let zeros: nat = if n < 10 {
        4
    } else if n < 100 {
        3
    } else if n < 1000 {
        2
    } else if n < 10000 {
        1
    } else {
        0
    };
    Seq::new(zeros, |i: int| '0') + text::decimal(n)
}

fn push_five_digits(out: &mut Vec<char>, n: u64)
    ensures
        final(out)@ == old(out)@ + five_digits(n as nat),
{
    let ghost before = out@;
    if n < 10000 {
        out.push('0');
    }
    if n < 1000 {
        out.push('0');
    }
    if n < 100 {
        out.push('0');
    }
    if n < 10 {
        out.push('0');
    }
    push_number(out, n);
    assert(out@ =~= before + five_digits(n as nat));
}

/// The last part of a path.
pub open spec fn last_part(path: Seq<char>) -> Seq<char> {
    match text::rfind_char(path, '/') {
        Some(i) => path.skip(i + 1),
        None => path,
    }
}

/// The name under which an audio segment is kept on disk: its number in order, what it is,
/// and the last part of its path. Other segments are not kept.
pub fn dump_name(seq: u64, kind: &str, cdn_path: &str) -> (r: Option<String>)
    ensures
        text::opt_text(r) == if text::contains(cdn_path@, "-audio"@) {
            Some(
                five_digits(seq as nat) + "_"@ + kind@ + "_"@ + last_part(cdn_path@).map_values(
                    |c: char| file_char(c, alphanumeric(c)),
                ),
            )
        } else {
            None
        },
{
    let all = chars_of(cdn_path);
    if !has_text(all.as_slice(), "-audio") {
        return None;
    }
    assert(all.len() == all@.len());
    let stem: &[char] = match rfind_one(all.as_slice(), '/') {
        Some(i) => behind(all.as_slice(), i + 1),
        None => all.as_slice(),
    };
    let mut out: Vec<char> = Vec::new();
    push_five_digits(&mut out, seq);
    push_text(&mut out, "_");
    push_text(&mut out, kind);
    push_text(&mut out, "_");
    let ghost head = out@;
    let ghost cleaned = |c: char| file_char(c, alphanumeric(c));
    let mut i: usize = 0;
    while i < stem.len()
        invariant
            i <= stem@.len(),
            cleaned == (|c: char| file_char(c, alphanumeric(c))),
            out@ == head + stem@.take(i as int).map_values(cleaned),
        decreases stem@.len() - i,
    {
        let c: char = stem[i];
        let letter: bool = is_alphanumeric(c);
        let ghost before = out@;
        out.push(to_file_char(c, letter));
        i += 1;
        assert(stem@.take(i as int).map_values(cleaned) =~= stem@.take(i - 1).map_values(
            cleaned,
        ).push(cleaned(c)));
        assert(out@ =~= head + stem@.take(i as int).map_values(cleaned));
    }
    assert(stem@.take(i as int) =~= stem@);
    assert(head =~= five_digits(seq as nat) + "_"@ + kind@ + "_"@);
    Some(text_of(out.as_slice()))
}

/// A segment that was just served is served again from memory as long as it is fresh.
pub proof fn served_segment_is_kept(
    proxy: ProxyView,
    cdn_path: Seq<char>,
    data: Seq<u8>,
    now: u64,
    later: u64,
)
    requires
        proxy::is_fresh(now, later, proxy::SEGMENT_CACHE_TTL),
    ensures
        proxy::pruned(with_segment(proxy, cdn_path, data, now).segments, later).contains_key(
            cdn_path,
        ),
        proxy::pruned(with_segment(proxy, cdn_path, data, now).segments, later)[cdn_path].1
            == data,
{
}

} // verus!
