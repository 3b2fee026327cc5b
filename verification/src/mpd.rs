//! Rewriting the text of a DASH manifest (MPD).

use crate::text;
use crate::text::{
    behind, chars_of, find_one, find_text, front, has_prefix, has_suffix, has_text,
    is_white_space, parse_u64, push_chars, push_text, replace, rfind_one, text_of, to_lower, trim,
};
use crate::text_map::TextSet;
use vstd::prelude::*;

verus! {

// ---------------------------------------------------------------------------
// Content protection
// ---------------------------------------------------------------------------

/// Where a `ContentProtection` element ends, seen from behind `<ContentProtection`:
/// behind `/>` if no other element starts before it, else behind the closing tag.
/// Without a closing tag it is behind `/>` in any case.
pub open spec fn protection_end(r: Seq<char>) -> Option<int> {
    match (text::find(r, "/>"@), text::find(r, "</ContentProtection>"@)) {
        (Some(e), Some(c)) => if nested_before(r, e) {
            Some(c + "</ContentProtection>"@.len())
        } else {
            Some(e + "/>"@.len())
        },
        (Some(e), None) => Some(e + "/>"@.len()),
        (None, Some(c)) => Some(c + "</ContentProtection>"@.len()),
        (None, None) => None,
    }
}

/// Whether a tag starts before `e`.
pub open spec fn nested_before(r: Seq<char>, e: int) -> bool {
    match text::find_char(r, '<') {
        Some(l) => l < e,
        None => false,
    }
}

/// A manifest without its `ContentProtection` elements. One that never ends takes
/// the rest of the text with it.
pub open spec fn unprotected(s: Seq<char>) -> Seq<char>
    decreases s.len(),
{
    match text::find(s, "<ContentProtection"@) {
        None => s,
        Some(i) => {
            let r = s.skip(i + "<ContentProtection"@.len());
            match protection_end(r) {
                None => s.take(i),
                Some(e) => {
                    proof {
                        protection_shrinks(s);
                    }
                    s.take(i) + unprotected(r.skip(e))
                },
            }
        },
    }
}

/// The text behind a `ContentProtection` element is shorter.
pub proof fn protection_shrinks(s: Seq<char>)
    ensures
        match text::find(s, "<ContentProtection"@) {
            None => true,
            Some(i) => {
                let r = s.skip(i + "<ContentProtection"@.len());
                &&& 0 <= i && i + "<ContentProtection"@.len() <= s.len()
                &&& r.len() < s.len()
                &&& match protection_end(r) {
                    None => true,
                    Some(e) => 0 <= e <= r.len(),
                }
            },
        },
{
    reveal_strlit("<ContentProtection");
    text::find_is_first(s, "<ContentProtection"@, 0);
    match text::find(s, "<ContentProtection"@) {
        None => {},
        Some(i) => {
            let r = s.skip(i + "<ContentProtection"@.len());
            text::find_is_first(r, "/>"@, 0);
            text::find_is_first(r, "</ContentProtection>"@, 0);
        },
    }
}

/// Where a `ContentProtection` element ends, seen from behind its name.
fn find_protection_end(r: &[char]) -> (end: Option<usize>)
    ensures
        match end {
            Some(e) => protection_end(r@) == Some(e as int) && e <= r@.len(),
            None => protection_end(r@) is None,
        },
{
    assert(r.len() == r@.len());
    let close = match find_text(r, "</ContentProtection>") {
        Some(c) => Some(c + chars_of("</ContentProtection>").len()),
        None => None,
    };
    match find_text(r, "/>") {
        None => close,
        Some(e) => {
            let nested: bool = match find_one(r, '<') {
                Some(l) => l < e,
                None => false,
            };
            if nested && close.is_some() {
                close
            } else {
                Some(e + chars_of("/>").len())
            }
        },
    }
}

/// Removes the `ContentProtection` elements from a manifest.
pub fn remove_content_protection(mpd: &str) -> (r: String)
    ensures
        r@ == unprotected(mpd@),
{
    let all = chars_of(mpd);
    let mut out: Vec<char> = Vec::new();
    let mut rest: &[char] = all.as_slice();
    assert(out@ + unprotected(mpd@) =~= unprotected(mpd@));
    loop
        invariant
            out@ + unprotected(rest@) == unprotected(mpd@),
        decreases rest@.len(),
    {
        match find_text(rest, "<ContentProtection") {
            None => {
                push_chars(&mut out, rest);
                return text_of(out.as_slice());
            },
            Some(i) => {
                let ghost before = out@;
                proof {
                    protection_shrinks(rest@);
                    assert(rest.len() == rest@.len());
                }
                push_chars(&mut out, front(rest, i));
                let r = behind(rest, i + chars_of("<ContentProtection").len());
                match find_protection_end(r) {
                    None => {
                        return text_of(out.as_slice());
                    },
                    Some(e) => {
                        let next = behind(r, e);
                        assert(before + (rest@.take(i as int) + unprotected(next@)) =~= out@
                            + unprotected(next@));
                        rest = next;
                    },
                }
            },
        }
    }
}

/// The encryption scheme that a manifest names: 2 for `cbcs`, 1 otherwise.
pub open spec fn scheme_named(s: Seq<char>) -> u32 {
    if text::contains(text::lower(s), "value=\"cbcs\""@) || text::contains(
        text::lower(s),
        "value='cbcs'"@,
    ) {
        2
    } else {
        1
    }
}

/// Reads the encryption scheme from a manifest, in whatever case it is written.
pub fn extract_mpd_scheme(mpd: &str) -> (scheme: u32)
    ensures
        scheme == scheme_named(mpd@),
{
    let all = chars_of(mpd);
    let low = to_lower(all.as_slice());
    if has_text(low.as_slice(), "value=\"cbcs\"") || has_text(low.as_slice(), "value='cbcs'") {
        2
    } else {
        1
    }
}

// ---------------------------------------------------------------------------
// Base URLs
// ---------------------------------------------------------------------------

/// The directory of a URL: everything up to its last slash, or all of it.
pub open spec fn url_dir(url: Seq<char>) -> Seq<char> {
    match text::rfind_char(url, '/') {
        Some(i) => url.take(i + 1),
        None => url,
    }
}

/// The content of a `BaseURL` element, resolved against a directory: a relative
/// value goes behind it, an absolute or empty one stays.
pub open spec fn resolved_base(content: Seq<char>, dir: Seq<char>) -> Seq<char> {
    if content.len() == 0 || text::starts_with(content, "http://"@) || text::starts_with(
        content,
        "https://"@,
    ) {
        content
    } else {
        dir + content
    }
}

/// A manifest with its `BaseURL` elements resolved. An element that never ends
/// stays, with all that follows it.
pub open spec fn resolved(s: Seq<char>, dir: Seq<char>) -> Seq<char>
    decreases s.len(),
{
    match text::find(s, "<BaseURL"@) {
        None => s,
        Some(i) => {
            let tag = s.skip(i);
            match text::find_char(tag, '>') {
                None => s,
                Some(e) => {
                    let r = tag.skip(e + 1);
                    match text::find(r, "</BaseURL>"@) {
                        None => s,
                        Some(c) => {
                            proof {
                                base_url_shrinks(s);
                            }
                            s.take(i) + tag.take(e + 1) + resolved_base(
                                text::trimmed(r.take(c)),
                                dir,
                            ) + "</BaseURL>"@ + resolved(r.skip(c + "</BaseURL>"@.len()), dir)
                        },
                    }
                },
            }
        },
    }
}

/// The places that resolving a `BaseURL` element finds lie in order.
pub proof fn base_url_shrinks(s: Seq<char>)
    ensures
        match text::find(s, "<BaseURL"@) {
            None => true,
            Some(i) => {
                let tag = s.skip(i);
                &&& 0 <= i <= s.len()
                &&& match text::find_char(tag, '>') {
                    None => true,
                    Some(e) => {
                        let r = tag.skip(e + 1);
                        &&& 0 <= e < tag.len()
                        &&& match text::find(r, "</BaseURL>"@) {
                            None => true,
                            Some(c) => 0 <= c && c + "</BaseURL>"@.len() <= r.len(),
                        }
                    },
                }
            },
        },
{
    text::find_is_first(s, "<BaseURL"@, 0);
    match text::find(s, "<BaseURL"@) {
        None => {},
        Some(i) => {
            let tag = s.skip(i);
            text::find_is_first(tag, seq!['>'], 0);
            match text::find_char(tag, '>') {
                None => {},
                Some(e) => {
                    text::find_is_first(tag.skip(e + 1), "</BaseURL>"@, 0);
                },
            }
        },
    }
}

/// Resolves the relative `BaseURL` elements of a manifest against the URL that it
/// was fetched from.
pub fn resolve_relative_base_urls(mpd: &str, mpd_base_url: &str) -> (r: String)
    ensures
        r@ == resolved(mpd@, url_dir(mpd_base_url@)),
{
    let all = chars_of(mpd);
    let url = chars_of(mpd_base_url);
    assert(url.len() == url@.len());
    let dir: &[char] = match rfind_one(url.as_slice(), '/') {
        Some(i) => front(url.as_slice(), i + 1),
        None => url.as_slice(),
    };
    let mut out: Vec<char> = Vec::new();
    let mut rest: &[char] = all.as_slice();
    assert(out@ + resolved(mpd@, dir@) =~= resolved(mpd@, dir@));
    loop
        invariant
            dir@ == url_dir(mpd_base_url@),
            out@ + resolved(rest@, dir@) == resolved(mpd@, dir@),
        decreases rest@.len(),
    {
        let ghost before = out@;
        proof {
            base_url_shrinks(rest@);
            assert(rest.len() == rest@.len());
        }
        let i = match find_text(rest, "<BaseURL") {
            None => {
                push_chars(&mut out, rest);
                return text_of(out.as_slice());
            },
            Some(i) => i,
        };
        let tag = behind(rest, i);
        let e = match find_one(tag, '>') {
            None => {
                push_chars(&mut out, rest);
                return text_of(out.as_slice());
            },
            Some(e) => e,
        };
        let r = behind(tag, e + 1);
        let c = match find_text(r, "</BaseURL>") {
            None => {
                push_chars(&mut out, rest);
                return text_of(out.as_slice());
            },
            Some(c) => c,
        };
        push_chars(&mut out, front(rest, i));
        push_chars(&mut out, front(tag, e + 1));
        let content = trim(front(r, c));
        let ghost head = out@;
        if content.len() > 0 && !has_prefix(content, "http://") && !has_prefix(
            content,
            "https://",
        ) {
            push_chars(&mut out, dir);
        }
        push_chars(&mut out, content);
        assert(out@ =~= head + resolved_base(content@, dir@));
        push_text(&mut out, "</BaseURL>");
        let next = behind(r, c + chars_of("</BaseURL>").len());
        assert(before + (rest@.take(i as int) + tag@.take(e + 1) + resolved_base(content@, dir@)
            + "</BaseURL>"@ + resolved(next@, dir@)) =~= out@ + resolved(next@, dir@));
        rest = next;
    }
}

// ---------------------------------------------------------------------------
// Hosts
// ---------------------------------------------------------------------------

/// Whether a character ends the host part of a URL inside a manifest.
pub open spec fn ends_host(c: char) -> bool {
    c == '/' || c == '"' || c == '\'' || c == '<' || c == '>' || text::is_white(c)
}

/// The length of the host part that `s` starts with.
pub open spec fn host_len(s: Seq<char>) -> int
    decreases s.len(),
{
    if s.len() == 0 || ends_host(s[0]) {
        0
    } else {
        1 + host_len(s.drop_first())
    }
}

/// The host part is the longest start without a character that ends it.
pub proof fn host_len_bounds(s: Seq<char>)
    ensures
        0 <= host_len(s) <= s.len(),
        forall|j: int| 0 <= j < host_len(s) ==> !ends_host(#[trigger] s[j]),
        host_len(s) < s.len() ==> ends_host(s[host_len(s)]),
    decreases s.len(),
{
    if s.len() > 0 && !ends_host(s[0]) {
        let t = s.drop_first();
        host_len_bounds(t);
        assert forall|j: int| 0 <= j < host_len(s) implies !ends_host(#[trigger] s[j]) by {
            if j > 0 {
                assert(t[j - 1] == s[j]);
            }
        }
    }
}

/// The hosts behind each place of `scheme` in `s`, in lower case and with the
/// scheme in front.
pub open spec fn hosts_behind(s: Seq<char>, scheme: Seq<char>) -> Set<Seq<char>>
    decreases s.len(),
{
    match text::find(s, scheme) {
        None => Set::empty(),
        Some(i) => {
            let after = s.skip(i + scheme.len());
            let n = host_len(after);
            proof {
                text::find_is_first(s, scheme, 0);
                host_len_bounds(after);
            }
            if scheme.len() == 0 {
                Set::empty()
            } else if n == 0 {
                hosts_behind(after.skip(n), scheme)
            } else {
                hosts_behind(after.skip(n), scheme).insert(scheme + text::lower(after.take(n)))
            }
        },
    }
}

/// The hosts that a manifest names.
pub open spec fn hosts_named(s: Seq<char>) -> Set<Seq<char>> {
    hosts_behind(s, "https://"@).union(hosts_behind(s, "http://"@))
}

fn host_length(s: &[char]) -> (n: usize)
    ensures
        n == host_len(s@),
        n <= s@.len(),
{
    let mut n: usize = 0;
    assert(s@.skip(0) =~= s@);
    while n < s.len() && !(s[n] == '/' || s[n] == '"' || s[n] == '\'' || s[n] == '<' || s[n] == '>'
        || is_white_space(s[n]))
        invariant
            n <= s@.len(),
            host_len(s@) == n + host_len(s@.skip(n as int)),
        decreases s@.len() - n,
    {
        assert(s@.skip(n as int).drop_first() =~= s@.skip(n + 1));
        n += 1;
    }
    n
}

fn collect_hosts(mpd: &[char], scheme: &str, hosts: &mut TextSet)
    requires
        scheme@.len() > 0,
    ensures
        final(hosts)@ == old(hosts)@.union(hosts_behind(mpd@, scheme@)),
{
    let mut rest: &[char] = mpd;
    loop
        invariant
            scheme@.len() > 0,
            hosts@.union(hosts_behind(rest@, scheme@)) == old(hosts)@.union(
                hosts_behind(mpd@, scheme@),
            ),
        decreases rest@.len(),
    {
        match find_text(rest, scheme) {
            None => {
                assert(hosts@.union(Set::empty()) =~= hosts@);
                return;
            },
            Some(i) => {
                proof {
                    text::find_is_first(rest@, scheme@, 0);
                    assert(rest.len() == rest@.len());
                }
                let after = behind(rest, i + chars_of(scheme).len());
                let n = host_length(after);
                let next = behind(after, n);
                if n > 0 {
                    let mut entry = chars_of(scheme);
                    let low = to_lower(front(after, n));
                    push_chars(&mut entry, low.as_slice());
                    let name = text_of(entry.as_slice());
                    let ghost known = hosts@;
                    hosts.insert(name.as_str());
                    assert(hosts@.union(hosts_behind(next@, scheme@)) =~= known.union(
                        hosts_behind(next@, scheme@).insert(name@),
                    ));
                }
                rest = next;
            },
        }
    }
}

/// Every host that `https://` or `http://` precedes in a manifest, as
/// `scheme://host` in lower case.
pub fn extract_cdn_hosts(mpd: &str) -> (hosts: TextSet)
    ensures
        hosts@ == hosts_named(mpd@),
{
    let all = chars_of(mpd);
    let mut hosts = TextSet::new();
    proof {
        reveal_strlit("https://");
        reveal_strlit("http://");
    }
    collect_hosts(all.as_slice(), "https://", &mut hosts);
    collect_hosts(all.as_slice(), "http://", &mut hosts);
    assert(hosts@ =~= hosts_named(mpd@));
    hosts
}

// ---------------------------------------------------------------------------
// URLs through the proxy
// ---------------------------------------------------------------------------

/// A manifest whose URLs go through the proxy at `proxy_base`: `https://` becomes
/// `<proxy_base>https/`, `http://` becomes `<proxy_base>http/`, and addresses of
/// this machine stay.
pub open spec fn proxied(s: Seq<char>, proxy_base: Seq<char>) -> Seq<char> {
    text::replace_all(
        text::replace_all(
            text::replace_all(s, "https://"@, proxy_base + "https/"@),
            "http://"@,
            proxy_base + "http/"@,
        ),
        proxy_base + "http/"@ + "127.0.0.1"@,
        "http://"@ + "127.0.0.1"@,
    )
}

/// Rewrites the URLs of a manifest so that they go through the proxy.
pub fn rewrite_cdn_urls(mpd: &str, proxy_base: &str) -> (r: String)
    ensures
        r@ == proxied(mpd@, proxy_base@),
{
    proof {
        reveal_strlit("https://");
        reveal_strlit("http://");
        reveal_strlit("127.0.0.1");
    }
    let all = chars_of(mpd);
    let mut https_base = chars_of(proxy_base);
    push_text(&mut https_base, "https/");
    let mut http_base = chars_of(proxy_base);
    push_text(&mut http_base, "http/");
    let step1 = replace(all.as_slice(), "https://", https_base.as_slice());
    let step2 = replace(step1.as_slice(), "http://", http_base.as_slice());
    push_text(&mut http_base, "127.0.0.1");
    let broken = text_of(http_base.as_slice());
    let mut fixed = chars_of("http://");
    push_text(&mut fixed, "127.0.0.1");
    let step3 = replace(step2.as_slice(), broken.as_str(), fixed.as_slice());
    text_of(step3.as_slice())
}

/// What can be wrong with a path of the proxy.
#[derive(Debug)]
pub enum CdnPathError {
    /// The path starts with no known scheme; the path.
    Unrecognised(String),
}

/// The URL that a path behind `/cdn/` stands for.
pub open spec fn cdn_url(path: Seq<char>) -> Option<Seq<char>> {
    if text::starts_with(path, "https/"@) {
        Some("https://"@ + path.skip("https/"@.len() as int))
    } else if text::starts_with(path, "http/"@) {
        Some("http://"@ + path.skip("http/"@.len() as int))
    } else {
        None
    }
}

/// Turns `https/HOST/PATH` or `http/HOST/PATH` into a URL.
pub fn cdn_path_to_url(cdn_path: &str) -> (r: Result<String, CdnPathError>)
    ensures
        match r {
            Ok(url) => cdn_url(cdn_path@) == Some(url@),
            Err(CdnPathError::Unrecognised(p)) => cdn_url(cdn_path@) is None && p@ == cdn_path@,
        },
{
    let path = chars_of(cdn_path);
    if has_prefix(path.as_slice(), "https/") {
        let mut out = chars_of("https://");
        push_chars(&mut out, behind(path.as_slice(), chars_of("https/").len()));
        Ok(text_of(out.as_slice()))
    } else if has_prefix(path.as_slice(), "http/") {
        let mut out = chars_of("http://");
        push_chars(&mut out, behind(path.as_slice(), chars_of("http/").len()));
        Ok(text_of(out.as_slice()))
    } else {
        Err(CdnPathError::Unrecognised(cdn_path.to_owned()))
    }
}

/// The URL of the init segment that goes with the URL of a media segment:
/// `...-DIGITS.dash?q` becomes `....dash?q`.
pub open spec fn init_url(url: Seq<char>) -> Option<Seq<char>> {
    let base = match text::find_char(url, '?') {
        Some(q) => url.take(q),
        None => url,
    };
    let query = match text::find_char(url, '?') {
        Some(q) => url.skip(q + 1),
        None => Seq::empty(),
    };
    if !text::ends_with(base, ".dash"@) {
        None
    } else {
        let stem = base.take(base.len() - ".dash"@.len());
        match text::rfind_char(stem, '-') {
            None => None,
            Some(d) => if d + 1 == stem.len() || !text::all_digits(stem.skip(d + 1)) {
                None
            } else if query.len() == 0 {
                Some(stem.take(d) + ".dash"@)
            } else {
                Some(stem.take(d) + ".dash?"@ + query)
            },
        }
    }
}

fn only_digits(s: &[char]) -> (r: bool)
    ensures
        r == text::all_digits(s@),
{
    let mut i: usize = 0;
    while i < s.len()
        invariant
            i <= s@.len(),
            forall|j: int| 0 <= j < i ==> text::is_digit(#[trigger] s@[j]),
        decreases s@.len() - i,
    {
        if s[i] < '0' || '9' < s[i] {
            assert(!text::is_digit(s@[i as int]));
            return false;
        }
        i += 1;
    }
    true
}

/// Derives the URL of the init segment from the URL of a media segment.
pub fn derive_init_url(media_url: &str) -> (r: Option<String>)
    ensures
        match r {
            Some(u) => init_url(media_url@) == Some(u@),
            None => init_url(media_url@) is None,
        },
{
    let url = chars_of(media_url);
    let mut base: &[char] = url.as_slice();
    let mut query: &[char] = front(url.as_slice(), 0);
    assert(query@ =~= Seq::empty());
    assert(url.len() == url@.len());
    match find_one(url.as_slice(), '?') {
        Some(q) => {
            base = front(url.as_slice(), q);
            query = behind(url.as_slice(), q + 1);
        },
        None => {},
    }
    if !has_suffix(base, ".dash") {
        return None;
    }
    let stem = front(base, base.len() - chars_of(".dash").len());
    let d = match rfind_one(stem, '-') {
        Some(d) => d,
        None => return None,
    };
    let number = behind(stem, d + 1);
    if number.len() == 0 || !only_digits(number) {
        return None;
    }
    let mut out: Vec<char> = Vec::new();
    push_chars(&mut out, front(stem, d));
    assert(out@ =~= stem@.take(d as int));
    if query.len() == 0 {
        push_text(&mut out, ".dash");
    } else {
        push_text(&mut out, ".dash?");
        push_chars(&mut out, query);
    }
    Some(text_of(out.as_slice()))
}

// ---------------------------------------------------------------------------
// Bandwidth filter
// ---------------------------------------------------------------------------

/// The value of `bandwidth="N"` in an opening tag.
pub open spec fn bandwidth_of(tag: Seq<char>) -> Option<u64> {
    match text::find(tag, "bandwidth=\""@) {
        None => None,
        Some(i) => {
            let after = tag.skip(i + "bandwidth=\""@.len());
            match text::find_char(after, '"') {
                None => None,
                Some(e) => text::u64_value(after.take(e)),
            }
        },
    }
}

/// Whether an opening tag names a bandwidth over `max_bps`.
pub open spec fn too_fast(tag: Seq<char>, max_bps: u64) -> bool {
    match bandwidth_of(tag) {
        Some(bps) => bps > max_bps,
        None => false,
    }
}

/// A manifest without the representations over `max_bps`. One whose tag or element
/// never ends stays, with all that follows it.
pub open spec fn within_bitrate(s: Seq<char>, max_bps: u64) -> Seq<char>
    decreases s.len(),
{
    match text::find(s, "<Representation"@) {
        None => s,
        Some(i) => {
            let chunk = s.skip(i);
            match text::find_char(chunk, '>') {
                None => s,
                Some(e) => {
                    let opening = chunk.take(e + 1);
                    proof {
                        representation_shrinks(s);
                    }
                    if !too_fast(opening, max_bps) {
                        s.take(i) + opening + within_bitrate(chunk.skip(e + 1), max_bps)
                    } else if text::ends_with(opening, "/>"@) {
                        s.take(i) + within_bitrate(chunk.skip(e + 1), max_bps)
                    } else {
                        match text::find(chunk, "</Representation>"@) {
                            None => s,
                            Some(c) => s.take(i) + within_bitrate(
                                chunk.skip(c + "</Representation>"@.len()),
                                max_bps,
                            ),
                        }
                    }
                },
            }
        },
    }
}

/// The places that filtering a `Representation` element finds lie in order.
pub proof fn representation_shrinks(s: Seq<char>)
    ensures
        match text::find(s, "<Representation"@) {
            None => true,
            Some(i) => {
                let chunk = s.skip(i);
                &&& 0 <= i <= s.len()
                &&& match text::find_char(chunk, '>') {
                    None => true,
                    Some(e) => 0 <= e < chunk.len(),
                }
                &&& match text::find(chunk, "</Representation>"@) {
                    None => true,
                    Some(c) => 0 <= c && c + "</Representation>"@.len() <= chunk.len(),
                }
            },
        },
        "</Representation>"@.len() == 17,
{
    reveal_strlit("</Representation>");
    text::find_is_first(s, "<Representation"@, 0);
    match text::find(s, "<Representation"@) {
        None => {},
        Some(i) => {
            let chunk = s.skip(i);
            text::find_is_first(chunk, seq!['>'], 0);
            text::find_is_first(chunk, "</Representation>"@, 0);
        },
    }
}

/// Reads `bandwidth="N"` from an opening tag.
fn bandwidth_attr(opening_tag: &[char]) -> (r: Option<u64>)
    ensures
        r == bandwidth_of(opening_tag@),
{
    proof {
        text::find_is_first(opening_tag@, "bandwidth=\""@, 0);
        assert(opening_tag.len() == opening_tag@.len());
    }
    let i = match find_text(opening_tag, "bandwidth=\"") {
        Some(i) => i,
        None => return None,
    };
    let after = behind(opening_tag, i + chars_of("bandwidth=\"").len());
    match find_one(after, '"') {
        Some(e) => parse_u64(front(after, e)),
        None => None,
    }
}

/// Removes every `Representation` element whose bandwidth exceeds `max_bps`.
pub fn filter_high_bitrate_representations(mpd: &str, max_bps: u64) -> (r: String)
    ensures
        r@ == within_bitrate(mpd@, max_bps),
{
    let all = chars_of(mpd);
    let mut out: Vec<char> = Vec::new();
    let mut rest: &[char] = all.as_slice();
    assert(out@ + within_bitrate(mpd@, max_bps) =~= within_bitrate(mpd@, max_bps));
    loop
        invariant
            out@ + within_bitrate(rest@, max_bps) == within_bitrate(mpd@, max_bps),
        decreases rest@.len(),
    {
        let ghost before = out@;
        proof {
            representation_shrinks(rest@);
            assert(rest.len() == rest@.len());
        }
        let i = match find_text(rest, "<Representation") {
            None => {
                push_chars(&mut out, rest);
                return text_of(out.as_slice());
            },
            Some(i) => i,
        };
        let chunk = behind(rest, i);
        let e = match find_one(chunk, '>') {
            None => {
                push_chars(&mut out, rest);
                return text_of(out.as_slice());
            },
            Some(e) => e,
        };
        let opening = front(chunk, e + 1);
        let bps: u64 = match bandwidth_attr(opening) {
            Some(n) => n,
            None => 0,
        };
        let mut next: &[char] = behind(chunk, e + 1);
        if bps > max_bps {
            if !has_suffix(opening, "/>") {
                match find_text(chunk, "</Representation>") {
                    None => {
                        push_chars(&mut out, rest);
                        return text_of(out.as_slice());
                    },
                    Some(c) => {
                        next = behind(chunk, c + chars_of("</Representation>").len());
                    },
                }
            }
            push_chars(&mut out, front(rest, i));
            assert(before + (rest@.take(i as int) + within_bitrate(next@, max_bps)) =~= out@
                + within_bitrate(next@, max_bps));
        } else {
            push_chars(&mut out, front(rest, i));
            push_chars(&mut out, opening);
            assert(before + (rest@.take(i as int) + opening@ + within_bitrate(next@, max_bps))
                =~= out@ + within_bitrate(next@, max_bps));
        }
        rest = next;
    }
}

} // verus!
