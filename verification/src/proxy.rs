//! What the local proxy knows: which hosts may be asked, the rewritten manifest, and
//! the segments served a moment ago.
//!
//! Requests carry the session's credentials to the network, so only hosts that the
//! manifest itself names are ever asked.

use crate::bytes::copy_bytes;
use crate::mpd;
use crate::mpd::{
    extract_cdn_hosts, filter_high_bitrate_representations, remove_content_protection,
    resolve_relative_base_urls, rewrite_cdn_urls,
};
use crate::numbers;
use crate::numbers::{rewrite_audio_templates, NumberMappings, NumbersView};
use crate::text;
use crate::text::{chars_of, push_chars, push_number, push_text, same_text, text_of, to_lower};
use crate::text_map::TextSet;
use crate::xml;
use crate::xml::{read_document, XmlStep, XmlStepView};
use vstd::prelude::*;

verus! {

// ---------------------------------------------------------------------------
// Hosts
// ---------------------------------------------------------------------------

/// Scheme and host of a URL, as the `url` crate reads it; nothing for a text that
/// is no URL.
pub uninterp spec fn url_parts(url: Seq<char>) -> Option<(Seq<char>, Option<Seq<char>>)>;

/// `Url::parse` reads a URL, and fails on a text that is none; `Url::scheme` and
/// `Url::host_str` are its scheme and its host. All of it depends on the text alone.
#[verifier::external_body]
fn parse_url(url: &str) -> (r: Option<(String, Option<String>)>)
    ensures
        match r {
            Some(p) => url_parts(url@) == Some((p.0@, text::opt_text(p.1))),
            None => url_parts(url@) is None,
        },
{
    let parsed = url::Url::parse(url).ok()?;
    Some((parsed.scheme().to_string(), parsed.host_str().map(|h| h.to_string())))
}

/// `scheme://host`, with the host in lower case, if there is a host.
pub open spec fn scheme_host(parts: Option<(Seq<char>, Option<Seq<char>>)>) -> Option<Seq<char>> {
    match parts {
        Some(p) => match p.1 {
            Some(host) => Some(p.0 + "://"@ + text::lower(host)),
            None => None,
        },
        None => None,
    }
}

/// Joins scheme and host.
pub fn join_scheme_host(parts: Option<(String, Option<String>)>) -> (r: Option<String>)
    ensures
        text::opt_text(r) == scheme_host(
            match parts {
                Some(p) => Some((p.0@, text::opt_text(p.1))),
                None => None,
            },
        ),
{
    match parts {
        Some((scheme, Some(host))) => {
            let mut out = chars_of(scheme.as_str());
            push_text(&mut out, "://");
            let host = chars_of(host.as_str());
            let low = to_lower(host.as_slice());
            push_chars(&mut out, low.as_slice());
            Some(text_of(out.as_slice()))
        },
        _ => None,
    }
}

/// Whether a text is a URL.
pub fn is_url(url: &str) -> (r: bool)
    ensures
        r == (url_parts(url@) is Some),
{
    parse_url(url).is_some()
}

/// `scheme://host` of a URL, or nothing if it has none.
pub fn scheme_host_of(url: &str) -> (r: Option<String>)
    ensures
        text::opt_text(r) == scheme_host(url_parts(url@)),
{
    join_scheme_host(parse_url(url))
}

/// Why a host is not asked.
#[derive(Debug)]
pub enum HostError {
    /// The manifest does not name this host.
    Disallowed(String),
    /// The text is no URL with a host; the text.
    Unparseable(String),
}

/// Lets a host pass if it is an allowed one.
pub fn check_host(host: Option<String>, real_url: &str, allowed_hosts: &TextSet) -> (r: Result<
    (),
    HostError,
>)
    ensures
        match r {
            Ok(()) => host is Some && allowed_hosts@.contains((host->0)@),
            Err(HostError::Disallowed(h)) => host is Some && h@ == (host->0)@
                && !allowed_hosts@.contains(h@),
            Err(HostError::Unparseable(u)) => host is None && u@ == real_url@,
        },
{
    match host {
        Some(h) => {
            if allowed_hosts.contains(h.as_str()) {
                Ok(())
            } else {
                Err(HostError::Disallowed(h))
            }
        },
        None => Err(HostError::Unparseable(real_url.to_owned())),
    }
}

/// Refuses every URL whose scheme and host the manifest does not name.
pub fn ensure_allowed_host(real_url: &str, allowed_hosts: &TextSet) -> (r: Result<(), HostError>)
    ensures
        match r {
            Ok(()) => scheme_host(url_parts(real_url@)) is Some && allowed_hosts@.contains(
                scheme_host(url_parts(real_url@))->0,
            ),
            Err(HostError::Disallowed(h)) => scheme_host(url_parts(real_url@)) == Some(h@)
                && !allowed_hosts@.contains(h@),
            Err(HostError::Unparseable(u)) => scheme_host(url_parts(real_url@)) is None && u@
                == real_url@,
        },
{
    check_host(scheme_host_of(real_url), real_url, allowed_hosts)
}

// ---------------------------------------------------------------------------
// The manifest
// ---------------------------------------------------------------------------

/// The highest bandwidth that a representation may have, in bits per second.
pub const MAX_BITRATE: u64 = 2_200_000;

/// Where the proxy serves what comes from the network.
pub open spec fn proxy_base(port: u16) -> Seq<char> {
    "http://127.0.0.1:"@ + text::decimal(port as nat) + "/cdn/"@
}

/// A manifest without protection, with absolute base URLs.
pub open spec fn absolute_mpd(mpd: Seq<char>, base_url: Seq<char>) -> Seq<char> {
    mpd::resolved(mpd::unprotected(mpd), mpd::url_dir(base_url))
}

/// A rewritten manifest, the hosts that may be asked, and the mappings.
pub struct RewriteView {
    pub text: Seq<char>,
    pub hosts: Set<Seq<char>>,
    pub numbers: NumbersView,
}

/// What becomes of an absolute manifest, given its XML events and the host that it
/// was fetched from.
pub open spec fn assembled(
    absolute: Seq<char>,
    base_host: Option<Seq<char>>,
    steps: Seq<XmlStepView>,
    port: u16,
    numbers: NumbersView,
) -> RewriteView {
    let st = numbers::scan(numbers::scan_start(numbers), absolute, steps);
    RewriteView {
        text: mpd::within_bitrate(
            mpd::proxied(numbers::scanned(st, absolute), proxy_base(port)),
            MAX_BITRATE,
        ),
        hosts: match base_host {
            Some(h) => mpd::hosts_named(absolute).insert(h),
            None => mpd::hosts_named(absolute),
        },
        numbers: st.numbers,
    }
}

/// What becomes of a manifest that was fetched from `base_url`.
pub open spec fn rewritten(
    mpd: Seq<char>,
    base_url: Seq<char>,
    port: u16,
    numbers: NumbersView,
) -> RewriteView {
    let absolute = absolute_mpd(mpd, base_url);
    assembled(
        absolute,
        scheme_host(url_parts(base_url)),
        xml::document_events(absolute),
        port,
        numbers,
    )
}

/// Finishes a manifest whose base URLs are absolute, given its XML events and the
/// host that it was fetched from: audio segments by number, URLs through the proxy,
/// no representation that is too fast. Also returns the hosts that may be asked.
pub fn assemble_mpd(
    mpd_abs: &str,
    base_host: &Option<String>,
    steps: &Vec<XmlStep>,
    proxy_port: u16,
    number_mappings: &mut NumberMappings,
) -> (r: (String, TextSet))
    ensures
        ({
            let v = assembled(
                mpd_abs@,
                text::opt_text(*base_host),
                xml::step_views(steps@),
                proxy_port,
                old(number_mappings)@,
            );
            &&& r.0@ == v.text
            &&& r.1@ == v.hosts
            &&& final(number_mappings)@ == v.numbers
        }),
{
    let mut hosts = extract_cdn_hosts(mpd_abs);
    match base_host {
        Some(h) => hosts.insert(h.as_str()),
        None => {},
    }
    let numbered = rewrite_audio_templates(mpd_abs, steps, number_mappings);
    let mut base = chars_of("http://127.0.0.1:");
    push_number(&mut base, proxy_port as u64);
    push_text(&mut base, "/cdn/");
    let base = text_of(base.as_slice());
    let through = rewrite_cdn_urls(numbered.as_str(), base.as_str());
    let slow = filter_high_bitrate_representations(through.as_str(), MAX_BITRATE);
    (slow, hosts)
}

/// Rewrites a manifest that was fetched from `mpd_base_url`: no content protection,
/// absolute base URLs, audio segments by number, URLs through the proxy, and no
/// representation that is too fast. Also returns the hosts that may be asked: those
/// that the manifest names, and the one that it was fetched from.
pub fn rewrite_mpd(
    mpd: &str,
    mpd_base_url: &str,
    proxy_port: u16,
    number_mappings: &mut NumberMappings,
) -> (r: (String, TextSet))
    ensures
        ({
            let v = rewritten(mpd@, mpd_base_url@, proxy_port, old(number_mappings)@);
            &&& r.0@ == v.text
            &&& r.1@ == v.hosts
            &&& final(number_mappings)@ == v.numbers
        }),
{
    let clear = remove_content_protection(mpd);
    let absolute = resolve_relative_base_urls(clear.as_str(), mpd_base_url);
    let base_host = scheme_host_of(mpd_base_url);
    let steps = read_document(absolute.as_str());
    assemble_mpd(absolute.as_str(), &base_host, &steps, proxy_port, number_mappings)
}

// ---------------------------------------------------------------------------
// Segment cache
// ---------------------------------------------------------------------------

/// How long a decrypted segment stays cached, in nanoseconds.
pub const SEGMENT_CACHE_TTL: u64 = 5_000_000_000;

/// Whether something from the time `at` is younger than `ttl` at the time `now`.
pub open spec fn is_fresh(at: u64, now: u64, ttl: u64) -> bool {
    (if now > at {
        now - at
    } else {
        0
    }) < ttl
}

/// Whether something from the time `at` is younger than `ttl` at the time `now`.
pub fn fresh(at: u64, now: u64, ttl: u64) -> (r: bool)
    ensures
        r == is_fresh(at, now, ttl),
{
    now.saturating_sub(at) < ttl
}

#[derive(Debug)]
struct CachedSegment {
    path: String,
    at: u64,
    data: Vec<u8>,
}

/// Decrypted segments, by path, with the time at which each was stored. Times are
/// nanoseconds of a clock that does not run backwards.
#[derive(Debug)]
pub struct SegmentCache {
    entries: Vec<CachedSegment>,
}

impl SegmentCache {
    /// No path occurs twice.
    pub closed spec fn wf(self) -> bool {
        forall|i: int, j: int|
            0 <= i < j < self.entries@.len() ==> (#[trigger] self.entries@[i]).path@ != (
            #[trigger] self.entries@[j]).path@
    }

    /// Whether entry `i` is for a path.
    spec fn is_entry(self, path: Seq<char>, i: int) -> bool {
        0 <= i < self.entries@.len() && self.entries@[i].path@ == path
    }

    /// The time and the bytes stored for each path.
    pub closed spec fn view(&self) -> Map<Seq<char>, (u64, Seq<u8>)> {
        Map::new(
            |p: Seq<char>| exists|i: int| self.is_entry(p, i),
            |p: Seq<char>|
                {
                    let e = self.entries@[choose|i: int| self.is_entry(p, i)];
                    (e.at, e.data@)
                },
        )
    }

    proof fn entry_is_value(self, i: int)
        requires
            self.wf(),
            0 <= i < self.entries@.len(),
        ensures
            self@.contains_key(self.entries@[i].path@),
            self@[self.entries@[i].path@] == (self.entries@[i].at, self.entries@[i].data@),
    {
        let p = self.entries@[i].path@;
        assert(self.is_entry(p, i));
        let k = choose|k: int| self.is_entry(p, k);
        assert(self.is_entry(p, k));
        if k < i {
            assert(self.entries@[k].path@ != self.entries@[i].path@);
        } else if i < k {
            assert(self.entries@[i].path@ != self.entries@[k].path@);
        }
    }

    /// An empty cache.
    pub fn new() -> (c: Self)
        ensures
            c.wf(),
            c@ == Map::<Seq<char>, (u64, Seq<u8>)>::empty(),
    {
        let c = SegmentCache { entries: Vec::new() };
        assert(c@ =~= Map::<Seq<char>, (u64, Seq<u8>)>::empty());
        c
    }
}

/// What is left of a cache when all that is too old is dropped.
pub open spec fn pruned(cache: Map<Seq<char>, (u64, Seq<u8>)>, now: u64) -> Map<
    Seq<char>,
    (u64, Seq<u8>),
> {
    cache.restrict(
        Set::new(|p: Seq<char>| cache.contains_key(p) && is_fresh(cache[p].0, now, SEGMENT_CACHE_TTL)),
    )
}

fn prune(cache: &mut SegmentCache, now: u64)
    requires
        old(cache).wf(),
    ensures
        final(cache).wf(),
        final(cache)@ == pruned(old(cache)@, now),
{
    let mut i: usize = 0;
    while i < cache.entries.len()
        invariant
            cache.wf(),
            i <= cache.entries@.len(),
            pruned(cache@, now) == pruned(old(cache)@, now),
            forall|j: int|
                0 <= j < i ==> is_fresh((#[trigger] cache.entries@[j]).at, now, SEGMENT_CACHE_TTL),
        decreases cache.entries@.len() - i,
    {
        if fresh(cache.entries[i].at, now, SEGMENT_CACHE_TTL) {
            i += 1;
        } else {
            let ghost before = *cache;
            let _stale = cache.entries.remove(i);
            proof {
                dropped(before, *cache, i as int);
                before.entry_is_value(i as int);
                assert(pruned(cache@, now) =~= pruned(before@, now));
            }
        }
    }
    proof {
        assert forall|p: Seq<char>| #[trigger] cache@.contains_key(p) implies is_fresh(
            cache@[p].0,
            now,
            SEGMENT_CACHE_TTL,
        ) by {
            let k = choose|k: int| cache.is_entry(p, k);
            assert(cache.is_entry(p, k));
            cache.entry_is_value(k);
        }
        assert(pruned(cache@, now) =~= cache@);
    }
}

proof fn dropped(a: SegmentCache, b: SegmentCache, i: int)
    requires
        a.wf(),
        0 <= i < a.entries@.len(),
        b.entries@ == a.entries@.remove(i),
    ensures
        b.wf(),
        b@ == a@.remove(a.entries@[i].path@),
{
    let path = a.entries@[i].path@;
    assert forall|x: int, y: int| 0 <= x < y < b.entries@.len() implies (
    #[trigger] b.entries@[x]).path@ != (#[trigger] b.entries@[y]).path@ by {
        let x2 = if x < i {
            x
        } else {
            x + 1
        };
        let y2 = if y < i {
            y
        } else {
            y + 1
        };
        assert(a.entries@[x2].path@ != a.entries@[y2].path@);
    }
    let goal = a@.remove(path);
    assert forall|p: Seq<char>| b@.contains_key(p) == goal.contains_key(p) by {
        if b@.contains_key(p) {
            let k = choose|k: int| b.is_entry(p, k);
            assert(b.is_entry(p, k));
            let k2 = if k < i {
                k
            } else {
                k + 1
            };
            assert(a.is_entry(p, k2));
            if k2 < i {
                assert(a.entries@[k2].path@ != a.entries@[i].path@);
            } else {
                assert(a.entries@[i].path@ != a.entries@[k2].path@);
            }
        }
        if goal.contains_key(p) {
            let k = choose|k: int| a.is_entry(p, k);
            assert(a.is_entry(p, k));
            let k2 = if k < i {
                k
            } else {
                k - 1
            };
            assert(b.is_entry(p, k2));
        }
    }
    assert forall|p: Seq<char>| b@.contains_key(p) implies #[trigger] b@[p] == goal[p] by {
        let k = choose|k: int| b.is_entry(p, k);
        assert(b.is_entry(p, k));
        b.entry_is_value(k);
        let k2 = if k < i {
            k
        } else {
            k + 1
        };
        a.entry_is_value(k2);
    }
    assert(b@ =~= goal);
}

/// The bytes cached for a path, if they are still fresh. Drops all that is not.
pub fn segment_cache_get(cache: &mut SegmentCache, cdn_path: &str, now: u64) -> (r: Option<Vec<u8>>)
    requires
        old(cache).wf(),
    ensures
        final(cache).wf(),
        final(cache)@ == pruned(old(cache)@, now),
        match r {
            Some(data) => final(cache)@.contains_key(cdn_path@) && final(cache)@[cdn_path@].1
                == data@,
            None => !final(cache)@.contains_key(cdn_path@),
        },
{
    prune(cache, now);
    let mut i: usize = 0;
    while i < cache.entries.len()
        invariant
            cache.wf(),
            cache@ == pruned(old(cache)@, now),
            i <= cache.entries@.len(),
            forall|j: int| 0 <= j < i ==> (#[trigger] cache.entries@[j]).path@ != cdn_path@,
        decreases cache.entries@.len() - i,
    {
        if same_text(cache.entries[i].path.as_str(), cdn_path) {
            proof {
                cache.entry_is_value(i as int);
            }
            return Some(copy_bytes(cache.entries[i].data.as_slice()));
        }
        i += 1;
    }
    proof {
        if cache@.contains_key(cdn_path@) {
            let k = choose|k: int| cache.is_entry(cdn_path@, k);
            assert(cache.is_entry(cdn_path@, k));
        }
    }
    None
}

/// Stores the bytes of a path, in place of what was stored for it.
pub fn segment_cache_put(cache: &mut SegmentCache, cdn_path: &str, data: Vec<u8>, now: u64)
    requires
        old(cache).wf(),
    ensures
        final(cache).wf(),
        final(cache)@ == old(cache)@.insert(cdn_path@, (now, data@)),
{
    let ghost all = *cache;
    let mut i: usize = 0;
    while i < cache.entries.len()
        invariant
            *cache == all,
            all == *old(cache),
            cache.wf(),
            i <= cache.entries@.len(),
            forall|j: int| 0 <= j < i ==> (#[trigger] cache.entries@[j]).path@ != cdn_path@,
        decreases cache.entries@.len() - i,
    {
        if same_text(cache.entries[i].path.as_str(), cdn_path) {
            let fresh_entry = CachedSegment { path: cdn_path.to_owned(), at: now, data };
            cache.entries.set(i, fresh_entry);
            proof {
                stored(all, *cache, cdn_path@, i as int);
            }
            return;
        }
        i += 1;
    }
    cache.entries.push(CachedSegment { path: cdn_path.to_owned(), at: now, data });
    proof {
        stored(all, *cache, cdn_path@, all.entries@.len() as int);
    }
}

proof fn stored(a: SegmentCache, b: SegmentCache, path: Seq<char>, i: int)
    requires
        a.wf(),
        0 <= i < b.entries@.len(),
        b.entries@[i].path@ == path,
        a.entries@.len() <= b.entries@.len() <= a.entries@.len() + 1,
        i < a.entries@.len() ==> b.entries@.len() == a.entries@.len() && a.entries@[i].path@
            == path,
        i == a.entries@.len() ==> b.entries@.len() == a.entries@.len() + 1 && forall|j: int|
            0 <= j < a.entries@.len() ==> (#[trigger] a.entries@[j]).path@ != path,
        forall|j: int| 0 <= j < a.entries@.len() && j != i ==> #[trigger] b.entries@[j] == a.entries@[j],
    ensures
        b.wf(),
        b@ == a@.insert(path, (b.entries@[i].at, b.entries@[i].data@)),
{
    assert forall|x: int, y: int| 0 <= x < y < b.entries@.len() implies (
    #[trigger] b.entries@[x]).path@ != (#[trigger] b.entries@[y]).path@ by {
        if x != i && y != i {
            assert(a.entries@[x].path@ != a.entries@[y].path@);
        } else if i < a.entries@.len() {
            assert(a.entries@[x].path@ != a.entries@[y].path@);
        } else {
            assert(a.entries@[x].path@ != path);
        }
    }
    let goal = a@.insert(path, (b.entries@[i].at, b.entries@[i].data@));
    b.entry_is_value(i);
    assert forall|p: Seq<char>| b@.contains_key(p) == goal.contains_key(p) by {
        if b@.contains_key(p) && p != path {
            let k = choose|k: int| b.is_entry(p, k);
            assert(b.is_entry(p, k));
            assert(a.is_entry(p, k));
        }
        if a@.contains_key(p) && p != path {
            let k = choose|k: int| a.is_entry(p, k);
            assert(a.is_entry(p, k));
            assert(b.entries@[k] == a.entries@[k]);
            assert(b.is_entry(p, k));
        }
    }
    assert forall|p: Seq<char>| b@.contains_key(p) implies #[trigger] b@[p] == goal[p] by {
        if p != path {
            let k = choose|k: int| b.is_entry(p, k);
            assert(b.is_entry(p, k));
            b.entry_is_value(k);
            a.entry_is_value(k);
        }
    }
    assert(b@ =~= goal);
}

} // verus!
