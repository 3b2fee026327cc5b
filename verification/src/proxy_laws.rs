//! What holds of the proxy as a whole: across the manifest that it rewrites, the
//! requests that come back for it, and the time in between.

use crate::mpd;
use crate::numbers;
use crate::numbers::{MappingView, NumbersView, ScanView};
use crate::proxy;
use crate::proxy_state;
use crate::proxy_state::{ProxyView, RouteView};
use crate::text;
use crate::text_laws;
use crate::xml::XmlStepView;
use vstd::prelude::*;

verus! {

// ---------------------------------------------------------------------------
// Time
// ---------------------------------------------------------------------------

/// A segment that was stored is found again while it is fresh, and not after; what
/// is stored for one path does not touch another.
pub proof fn stored_segment_is_found_while_fresh(
    cache: Map<Seq<char>, (u64, Seq<u8>)>,
    path: Seq<char>,
    data: Seq<u8>,
    stored: u64,
    now: u64,
    other: Seq<char>,
)
    requires
        stored <= now,
        other != path,
    ensures
        ({
            let after = proxy::pruned(cache.insert(path, (stored, data)), now);
            &&& after.contains_key(path) <==> now - stored < proxy::SEGMENT_CACHE_TTL
            &&& after.contains_key(path) ==> after[path].1 == data
            &&& after.contains_key(other) <==> proxy::pruned(cache, now).contains_key(other)
            &&& after.contains_key(other) ==> after[other] == proxy::pruned(cache, now)[other]
        }),
{
}

/// Nothing that is too old stays in the cache.
pub proof fn pruned_cache_holds_fresh_segments(
    cache: Map<Seq<char>, (u64, Seq<u8>)>,
    now: u64,
    path: Seq<char>,
)
    requires
        proxy::pruned(cache, now).contains_key(path),
    ensures
        cache.contains_key(path),
        proxy::pruned(cache, now)[path] == cache[path],
        proxy::is_fresh(cache[path].0, now, proxy::SEGMENT_CACHE_TTL),
{
}

// ---------------------------------------------------------------------------
// Hosts
// ---------------------------------------------------------------------------

/// Whether the place `p` lies behind the host part of every URL before it.
pub open spec fn starts_afresh(s: Seq<char>, scheme: Seq<char>, p: int) -> bool {
    forall|q: int|
        0 <= q < p && #[trigger] text::occurs_at(s, scheme, q) ==> exists|j: int|
            q + scheme.len() <= j < p && mpd::ends_host(#[trigger] s[j])
}

/// The host of every URL in a manifest is listed, unless the URL starts inside the
/// host part of another one.
pub proof fn every_host_is_listed(s: Seq<char>, scheme: Seq<char>, p: int)
    requires
        scheme.len() > 0,
        text::occurs_at(s, scheme, p),
        mpd::host_len(s.skip(p + scheme.len())) > 0,
        starts_afresh(s, scheme, p),
    ensures
        mpd::hosts_behind(s, scheme).contains(
            scheme + text::lower(
                s.skip(p + scheme.len()).take(mpd::host_len(s.skip(p + scheme.len()))),
            ),
        ),
    decreases s.len(),
{
    text::find_is_first(s, scheme, 0);
    let i = text::find(s, scheme)->0;
    let after = s.skip(i + scheme.len());
    let n = mpd::host_len(after);
    mpd::host_len_bounds(after);
    if p > i {
        let start = i + scheme.len() + n;
        let rest = after.skip(n);
        assert(rest =~= s.skip(start));
        let j = choose|j: int| i + scheme.len() <= j < p && mpd::ends_host(#[trigger] s[j]);
        assert(s[j] == after[j - i - scheme.len()]);
        assert(start <= j);
        assert(rest.subrange(p - start, p - start + scheme.len()) =~= s.subrange(
            p,
            p + scheme.len(),
        ));
        assert(rest.skip(p - start + scheme.len()) =~= s.skip(p + scheme.len()));
        assert forall|q: int|
            0 <= q < p - start && #[trigger] text::occurs_at(rest, scheme, q) implies exists|k: int|
            q + scheme.len() <= k < p - start && mpd::ends_host(#[trigger] rest[k]) by {
            assert(s.subrange(q + start, q + start + scheme.len()) =~= rest.subrange(
                q,
                q + scheme.len(),
            ));
            assert(text::occurs_at(s, scheme, q + start));
            let k = choose|k: int|
                q + start + scheme.len() <= k < p && mpd::ends_host(#[trigger] s[k]);
            assert(rest[k - start] == s[k]);
        }
        every_host_is_listed(rest, scheme, p - start);
    }
}

/// Every host that a manifest names may be asked, and so may the one that it was
/// fetched from; no other may.
pub proof fn allowed_hosts_are_the_named_ones(
    mpd: Seq<char>,
    base_url: Seq<char>,
    port: u16,
    st: NumbersView,
    host: Seq<char>,
)
    ensures
        proxy::rewritten(mpd, base_url, port, st).hosts.contains(host) <==> {
            ||| mpd::hosts_behind(proxy::absolute_mpd(mpd, base_url), "https://"@).contains(host)
            ||| mpd::hosts_behind(proxy::absolute_mpd(mpd, base_url), "http://"@).contains(host)
            ||| proxy::scheme_host(proxy::url_parts(base_url)) == Some(host)
        },
{
}

/// A segment is fetched only from where the manifest names: from a scheme and host that stand
/// in it, or from those that it came from itself.
pub proof fn only_named_hosts_are_asked(
    proxy: ProxyView,
    cdn_path: Seq<char>,
    url: String,
    mpd: Seq<char>,
    base_url: Seq<char>,
    port: u16,
    st: NumbersView,
)
    requires
        proxy.hosts == proxy::rewritten(mpd, base_url, port, st).hosts,
        proxy_state::is_segment_url(proxy, cdn_path, Ok(url)),
    ensures
        ({
            let absolute = proxy::absolute_mpd(mpd, base_url);
            let asked = proxy::scheme_host(proxy::url_parts(url@));
            &&& asked is Some
            &&& {
                ||| mpd::hosts_behind(absolute, "https://"@).contains(asked->0)
                ||| mpd::hosts_behind(absolute, "http://"@).contains(asked->0)
                ||| asked == proxy::scheme_host(proxy::url_parts(base_url))
            }
        }),
{
    allowed_hosts_are_the_named_ones(
        mpd,
        base_url,
        port,
        st,
        proxy::scheme_host(proxy::url_parts(url@))->0,
    );
}

// ---------------------------------------------------------------------------
// Content protection
// ---------------------------------------------------------------------------

/// Whether every tag that is opened in `s` is also closed in it.
pub open spec fn tags_closed(s: Seq<char>) -> bool {
    forall|j: int|
        0 <= j < s.len() && #[trigger] s[j] == '<' ==> exists|k: int|
            j < k < s.len() && #[trigger] s[k] == '>'
}

/// Whether no `ContentProtection` element stands inside another tag.
pub open spec fn protection_between_tags(s: Seq<char>) -> bool
    decreases s.len(),
{
    match text::find(s, "<ContentProtection"@) {
        None => true,
        Some(i) => {
            let r = s.skip(i + "<ContentProtection"@.len());
            tags_closed(s.take(i)) && match mpd::protection_end(r) {
                None => true,
                Some(e) => {
                    proof {
                        mpd::protection_shrinks(s);
                    }
                    protection_between_tags(r.skip(e))
                },
            }
        },
    }
}

/// No `ContentProtection` element is left, unless one stood inside another tag.
pub proof fn no_protection_is_left(s: Seq<char>)
    requires
        protection_between_tags(s),
    ensures
        !text::contains(mpd::unprotected(s), "<ContentProtection"@),
    decreases s.len(),
{
    let pat = "<ContentProtection"@;
    reveal_strlit("<ContentProtection");
    text::find_is_first(s, pat, 0);
    mpd::protection_shrinks(s);
    let out = mpd::unprotected(s);
    match text::find(s, pat) {
        None => {},
        Some(i) => {
            let a = s.take(i);
            let r = s.skip(i + pat.len());
            let rest = match mpd::protection_end(r) {
                None => Seq::empty(),
                Some(e) => {
                    no_protection_is_left(r.skip(e));
                    mpd::unprotected(r.skip(e))
                },
            };
            assert(out =~= a + rest);
            assert forall|p: int| !text::occurs_at(out, pat, p) by {
                if text::occurs_at(out, pat, p) {
                    if p >= i {
                        assert(rest.subrange(p - i, p - i + pat.len()) =~= out.subrange(
                            p,
                            p + pat.len(),
                        ));
                        assert(text::occurs_at(rest, pat, p - i));
                    } else if p + pat.len() <= i {
                        assert(s.subrange(p, p + pat.len()) =~= out.subrange(p, p + pat.len()));
                        assert(text::occurs_at(s, pat, p));
                    } else {
                        assert(out.subrange(p, p + pat.len())[0] == pat[0]);
                        assert(a[p] == '<');
                        let k = choose|k: int| p < k < a.len() && #[trigger] a[k] == '>';
                        assert(out.subrange(p, p + pat.len())[k - p] == '>');
                        assert(pat[k - p] == '>');
                    }
                }
            }
        },
    }
}

/// A manifest without content protection stays as it is.
pub proof fn unprotected_manifest_stays(s: Seq<char>)
    requires
        !text::contains(s, "<ContentProtection"@),
    ensures
        mpd::unprotected(s) == s,
{
    text::found_iff_contained(s, "<ContentProtection"@);
}

// ---------------------------------------------------------------------------
// URLs through the proxy
// ---------------------------------------------------------------------------

/// Whether a character can stand right before a URL in a manifest: a quote, an angle
/// bracket or white space.
pub open spec fn borders_url(c: char) -> bool {
    mpd::ends_host(c) && c != '/'
}

proof fn border_is_apart(c: char, port: u16)
    requires
        borders_url(c),
    ensures
        text_laws::apart_from(c, "https://"@),
        text_laws::apart_from(c, "http://"@),
        text_laws::apart_from(c, proxy::proxy_base(port) + "http/"@ + "127.0.0.1"@),
{
    reveal_strlit("https://");
    reveal_strlit("http://");
    reveal_strlit("http/");
    reveal_strlit("127.0.0.1");
    reveal_strlit("http://127.0.0.1:");
    reveal_strlit("/cdn/");
    text::decimal_reads_back(port as nat);
    let d = text::decimal(port as nat);
    let pat = proxy::proxy_base(port) + "http/"@ + "127.0.0.1"@;
    let a = "http://127.0.0.1:"@;
    assert forall|k: int| 0 <= k < pat.len() implies pat[k] != c by {
        if k < a.len() {
            assert(pat[k] == a[k]);
        } else if k < a.len() + d.len() {
            assert(pat[k] == d[k - a.len()]);
            assert(text::is_digit(d[k - a.len()]));
        }
    }
}

/// A manifest cut before a URL is rewritten part by part.
pub proof fn manifest_is_rewritten_part_by_part(a: Seq<char>, b: Seq<char>, port: u16)
    requires
        a.len() > 0 ==> borders_url(a.last()),
    ensures
        mpd::proxied(a + b, proxy::proxy_base(port)) == mpd::proxied(a, proxy::proxy_base(port))
            + mpd::proxied(b, proxy::proxy_base(port)),
{
    reveal_strlit("https://");
    reveal_strlit("http://");
    reveal_strlit("127.0.0.1");
    let base = proxy::proxy_base(port);
    let p1 = "https://"@;
    let p2 = "http://"@;
    let p3 = base + "http/"@ + "127.0.0.1"@;
    let w1 = base + "https/"@;
    let w2 = base + "http/"@;
    let w3 = "http://"@ + "127.0.0.1"@;
    let a1 = text::replace_all(a, p1, w1);
    let a2 = text::replace_all(a1, p2, w2);
    let b1 = text::replace_all(b, p1, w1);
    let b2 = text::replace_all(b1, p2, w2);
    if a.len() > 0 {
        border_is_apart(a.last(), port);
        text_laws::replacing_keeps_the_end(a, p1, w1);
        text_laws::replacing_keeps_the_end(a1, p2, w2);
    } else {
        text::find_is_first(a, p1, 0);
        text::find_is_first(a, p2, 0);
    }
    text_laws::replacing_splits(a, b, p1, w1);
    text_laws::replacing_splits(a1, b1, p2, w2);
    text_laws::replacing_splits(a2, b2, p3, w3);
}

/// Where `http` stands in `t`, if `t` is put together from parts: `a` and `x`
/// without it, and `u` between them.
proof fn http_stands_in_between(a: Seq<char>, u: Seq<char>, x: Seq<char>, p: int)
    requires
        !text::contains(a, "http"@),
        !text::contains(x, "http"@),
        u.len() > 0,
        u[0] == 'h',
        text::occurs_at(a + u + x, "http"@, p),
    ensures
        a.len() <= p < a.len() + u.len(),
{
    reveal_strlit("http");
    let t = a + u + x;
    let n = a.len() as int;
    let m = n + u.len();
    if p < n {
        if p + 4 <= n {
            assert(a.subrange(p, p + 4) =~= t.subrange(p, p + 4));
            assert(text::occurs_at(a, "http"@, p));
        } else {
            assert(t.subrange(p, p + 4)[n - p] == u[0]);
            assert("http"@[n - p] == 'h');
        }
    } else if p >= m {
        assert(x.subrange(p - m, p - m + 4) =~= t.subrange(p, p + 4));
        assert(text::occurs_at(x, "http"@, p - m));
    }
}

/// A pattern that starts with `http` stands only where that stands.
proof fn http_first(t: Seq<char>, pat: Seq<char>, p: int)
    requires
        pat.len() >= 4,
        pat.take(4) == "http"@,
        text::occurs_at(t, pat, p),
    ensures
        text::occurs_at(t, "http"@, p),
{
    reveal_strlit("http");
    assert(t.subrange(p, p + 4) =~= t.subrange(p, p + pat.len()).take(4));
}

/// The base is `http://` and the address of this machine, in which there is no `h`.
pub proof fn base_parts(port: u16) -> (mid: Seq<char>)
    ensures
        mid == "127.0.0.1"@ + (":"@ + text::decimal(port as nat) + "/cdn/"@),
        proxy::proxy_base(port) == "http://"@ + mid,
        forall|k: int| 0 <= k < mid.len() ==> mid[k] != 'h',
{
    reveal_strlit("http://127.0.0.1:");
    reveal_strlit("http://");
    reveal_strlit("127.0.0.1");
    reveal_strlit(":");
    reveal_strlit("/cdn/");
    let d = text::decimal(port as nat);
    text::decimal_reads_back(port as nat);
    let mid = "127.0.0.1"@ + (":"@ + d + "/cdn/"@);
    assert("http://127.0.0.1:"@ =~= "http://"@ + "127.0.0.1"@ + ":"@);
    assert(proxy::proxy_base(port) =~= "http://"@ + mid);
    assert forall|k: int| 0 <= k < mid.len() implies mid[k] != 'h' by {
        if 10 <= k < 10 + d.len() {
            assert(mid[k] == d[k - 10]);
            assert(text::is_digit(d[k - 10]));
        }
    }
    mid
}

/// First, `https://` becomes the base and `https/`.
proof fn https_is_replaced(a: Seq<char>, x: Seq<char>, base: Seq<char>)
    requires
        !text::contains(a, "http"@),
        !text::contains(x, "http"@),
    ensures
        text::replace_all(a + "https://"@ + x, "https://"@, base + "https/"@) == a + (base
            + "https/"@) + x,
{
    reveal_strlit("https://");
    reveal_strlit("http");
    let n = a.len() as int;
    let p1 = "https://"@;
    let s0 = a + p1 + x;
    assert(p1.take(4) =~= "http"@);
    assert(s0.subrange(n, n + 8) =~= p1);
    assert forall|j: int| 0 <= j < n implies !text::occurs_at(s0, p1, j) by {
        if text::occurs_at(s0, p1, j) {
            http_first(s0, p1, j);
            http_stands_in_between(a, p1, x, j);
        }
    }
    text_laws::replacing_first_place(s0, p1, base + "https/"@, n);
    assert(s0.take(n) =~= a);
    assert(s0.skip(n + 8) =~= x);
    assert(!text::contains(x, p1)) by {
        if text::contains(x, p1) {
            let p = choose|p: int| text::occurs_at(x, p1, p);
            http_first(x, p1, p);
        }
    }
    text_laws::replacing_nothing(x, p1, base + "https/"@);
}

/// Behind `http://`, the base and the URL hold no other `http://`.
proof fn base_is_named_once(mid: Seq<char>, x: Seq<char>)
    requires
        !text::contains(x, "http"@),
        forall|k: int| 0 <= k < mid.len() ==> mid[k] != 'h',
    ensures
        !text::contains(mid + "https/"@ + x, "http://"@),
{
    reveal_strlit("http://");
    reveal_strlit("http");
    reveal_strlit("https/");
    let p2 = "http://"@;
    let r1 = mid + "https/"@ + x;
    let m = mid.len() as int;
    assert forall|p: int| !text::occurs_at(r1, p2, p) by {
        if text::occurs_at(r1, p2, p) {
            assert(r1.subrange(p, p + 7)[0] == 'h');
            assert(r1.subrange(p, p + 7)[4] == ':');
            if p < m {
                assert(r1[p] == mid[p]);
            } else if p < m + 6 {
                assert(r1[p] == "https/"@[p - m]);
                assert(p == m);
                assert(r1[p + 4] == "https/"@[4]);
            } else {
                assert(x.subrange(p - m - 6, p - m - 2) =~= r1.subrange(p, p + 7).take(4));
                assert(p2.take(4) =~= "http"@);
                assert(text::occurs_at(x, "http"@, p - m - 6));
            }
        }
    }
}

/// Then `http://` of the base becomes the base and `http/`.
proof fn base_is_replaced(a: Seq<char>, mid: Seq<char>, x: Seq<char>, with: Seq<char>)
    requires
        !text::contains(a, "http"@),
        !text::contains(x, "http"@),
        forall|k: int| 0 <= k < mid.len() ==> mid[k] != 'h',
    ensures
        text::replace_all(a + ("http://"@ + mid + "https/"@) + x, "http://"@, with) == a + with + (
        mid + "https/"@ + x),
{
    reveal_strlit("http://");
    reveal_strlit("http");
    let n = a.len() as int;
    let p2 = "http://"@;
    let u1 = p2 + mid + "https/"@;
    let s1 = a + u1 + x;
    let r1 = mid + "https/"@ + x;
    assert(p2.take(4) =~= "http"@);
    assert(s1.subrange(n, n + 7) =~= p2);
    assert forall|j: int| 0 <= j < n implies !text::occurs_at(s1, p2, j) by {
        if text::occurs_at(s1, p2, j) {
            http_first(s1, p2, j);
            http_stands_in_between(a, u1, x, j);
        }
    }
    text_laws::replacing_first_place(s1, p2, with, n);
    assert(s1.take(n) =~= a);
    assert(s1.skip(n + 7) =~= r1);
    base_is_named_once(mid, x);
    text_laws::replacing_nothing(r1, p2, with);
}

/// Last, what was put in twice is taken back.
proof fn base_is_restored(a: Seq<char>, p3: Seq<char>, tail: Seq<char>, with: Seq<char>)
    requires
        !text::contains(a, "http"@),
        text::starts_with(p3, "http://"@),
        !text::contains(tail, "http://"@),
    ensures
        text::replace_all(a + p3 + tail, p3, with) == a + with + tail,
{
    reveal_strlit("http://");
    reveal_strlit("http");
    let n = a.len() as int;
    let k = p3.len() as int;
    let s2 = a + p3 + tail;
    assert(p3.take(4) =~= p3.take(7).take(4));
    assert("http://"@.take(4) =~= "http"@);
    assert(p3[0] == p3.take(4)[0]);
    assert(s2.subrange(n, n + k) =~= p3);
    assert forall|j: int| 0 <= j < n implies !text::occurs_at(s2, p3, j) by {
        if text::occurs_at(s2, p3, j) {
            http_first(s2, p3, j);
            if j + 4 <= n {
                assert(a.subrange(j, j + 4) =~= s2.subrange(j, j + 4));
                assert(text::occurs_at(a, "http"@, j));
            } else {
                assert(s2.subrange(j, j + 4)[n - j] == s2[n]);
                assert("http"@[n - j] == 'h');
            }
        }
    }
    text_laws::replacing_first_place(s2, p3, with, n);
    assert(s2.take(n) =~= a);
    assert(s2.skip(n + k) =~= tail);
    assert(!text::contains(tail, p3)) by {
        if text::contains(tail, p3) {
            let p = choose|p: int| text::occurs_at(tail, p3, p);
            assert(tail.subrange(p, p + 7) =~= tail.subrange(p, p + k).take(7));
            assert(text::occurs_at(tail, "http://"@, p));
        }
    }
    text_laws::replacing_nothing(tail, p3, with);
}

/// A URL that starts with `https://` goes through the proxy.
pub proof fn https_url_goes_through_the_proxy(a: Seq<char>, x: Seq<char>, port: u16)
    requires
        !text::contains(a, "http"@),
        !text::contains(x, "http"@),
    ensures
        mpd::proxied(a + "https://"@ + x, proxy::proxy_base(port)) == a + proxy::proxy_base(port)
            + "https/"@ + x,
{
    reveal_strlit("http://");
    let base = proxy::proxy_base(port);
    let mid = base_parts(port);
    let loc = "127.0.0.1"@;
    let p3 = base + "http/"@ + loc;
    let back = ":"@ + text::decimal(port as nat) + "/cdn/"@;
    let r1 = mid + "https/"@ + x;
    let tail = back + "https/"@ + x;
    https_is_replaced(a, x, base);
    base_is_replaced(a, mid, x, base + "http/"@);
    base_is_named_once(mid, x);
    assert(r1 =~= loc + tail);
    assert(a + (base + "http/"@) + r1 =~= a + p3 + tail);
    assert(!text::contains(tail, "http://"@)) by {
        if text::contains(tail, "http://"@) {
            let p = choose|p: int| text::occurs_at(tail, "http://"@, p);
            let q = p + loc.len();
            assert(r1.subrange(q, q + 7) =~= tail.subrange(p, p + 7));
            assert(text::occurs_at(r1, "http://"@, q));
        }
    }
    assert(p3.take(7) =~= "http://"@);
    base_is_restored(a, p3, tail, "http://"@ + loc);
    assert(a + ("http://"@ + loc) + tail =~= a + base + "https/"@ + x);
}

/// A URL that starts with `http://` goes through the proxy, unless it is one of this
/// machine.
#[verifier::rlimit(40)]
pub proof fn http_url_goes_through_the_proxy(a: Seq<char>, x: Seq<char>, port: u16)
    requires
        !text::contains(a, "http"@),
        !text::contains(x, "http"@),
    ensures
        mpd::proxied(a + "http://"@ + x, proxy::proxy_base(port)) == if text::starts_with(
            x,
            "127.0.0.1"@,
        ) {
            a + "http://"@ + x
        } else {
            a + proxy::proxy_base(port) + "http/"@ + x
        },
{
    reveal_strlit("https://");
    reveal_strlit("http://");
    reveal_strlit("http");
    reveal_strlit("http/");
    reveal_strlit("127.0.0.1");
    let base = proxy::proxy_base(port);
    let mid = base_parts(port);
    let n = a.len() as int;
    let p1 = "https://"@;
    let p2 = "http://"@;
    let p3 = base + "http/"@ + "127.0.0.1"@;
    let w1 = base + "https/"@;
    let w2 = base + "http/"@;
    let w3 = "http://"@ + "127.0.0.1"@;
    assert(p1.take(4) =~= "http"@);
    assert(p2.take(4) =~= "http"@);
    assert(p3.take(4) =~= "http"@);
    let s0 = a + p2 + x;
    assert forall|p: int| !text::occurs_at(s0, p1, p) by {
        if text::occurs_at(s0, p1, p) {
            http_first(s0, p1, p);
            http_stands_in_between(a, p2, x, p);
            assert(s0.subrange(p, p + 8)[0] == 'h');
            assert(s0[p] == p2[p - n]);
            assert(p == n);
            assert(s0.subrange(p, p + 8)[4] == p2[4]);
        }
    }
    text_laws::replacing_nothing(s0, p1, w1);
    assert(s0.subrange(n, n + 7) =~= p2);
    assert forall|j: int| 0 <= j < n implies !text::occurs_at(s0, p2, j) by {
        if text::occurs_at(s0, p2, j) {
            http_first(s0, p2, j);
            http_stands_in_between(a, p2, x, j);
        }
    }
    text_laws::replacing_first_place(s0, p2, w2, n);
    assert(s0.take(n) =~= a);
    assert(s0.skip(n + 7) =~= x);
    assert(!text::contains(x, p2)) by {
        if text::contains(x, p2) {
            let p = choose|p: int| text::occurs_at(x, p2, p);
            http_first(x, p2, p);
        }
    }
    text_laws::replacing_nothing(x, p2, w2);
    let s1 = a + w2 + x;
    assert(text::replace_all(s0, p2, w2) =~= s1);
    let k = p3.len() as int;
    let m = w2.len() as int;
    assert forall|p: int| text::occurs_at(s1, p3, p) implies p == n && text::starts_with(
        x,
        "127.0.0.1"@,
    ) by {
        http_first(s1, p3, p);
        http_stands_in_between(a, w2, x, p);
        assert(s1.subrange(p, p + k)[0] == 'h');
        assert(s1[p] == w2[p - n]);
        let q = p - n;
        if q < 7 {
            assert(w2[q] == p2[q]);
            assert(q == 0);
        } else if q < 7 + mid.len() {
            assert(w2[q] == mid[q - 7]);
        } else {
            let h = "http/"@;
            assert(w2[q] == h[q - 7 - mid.len()]);
            assert(q == 7 + mid.len());
            assert(s1.subrange(p, p + k)[4] == p3[4]);
            assert(s1[p + 4] == h[4]);
        }
        assert(p == n);
        assert(s1.subrange(n, n + k).skip(m) =~= x.take(9));
        assert(p3.skip(m) =~= "127.0.0.1"@);
    }
    if text::starts_with(x, "127.0.0.1"@) {
        let tail = x.skip(9);
        assert(x =~= "127.0.0.1"@ + tail);
        assert(s1 =~= a + p3 + tail);
        assert(s1.subrange(n, n + k) =~= p3);
        text_laws::replacing_first_place(s1, p3, w3, n);
        assert(s1.take(n) =~= a);
        assert(s1.skip(n + k) =~= tail);
        assert(!text::contains(tail, p3)) by {
            if text::contains(tail, p3) {
                let p = choose|p: int| text::occurs_at(tail, p3, p);
                http_first(tail, p3, p);
                assert(x.subrange(p + 9, p + 13) =~= tail.subrange(p, p + 4));
                assert(text::occurs_at(x, "http"@, p + 9));
            }
        }
        text_laws::replacing_nothing(tail, p3, w3);
        assert(a + w3 + tail =~= a + p2 + x);
    } else {
        assert(!text::contains(s1, p3));
        text_laws::replacing_nothing(s1, p3, w3);
        assert(s1 =~= a + base + "http/"@ + x);
    }
}

/// What is put in for a URL: `http://` and this machine, and behind it `tail`, stands alone,
/// and names nothing else.
pub proof fn local_url_stands_alone(mid: Seq<char>, tail: Seq<char>)
    requires
        text::starts_with(mid, "127.0.0.1"@),
        forall|k: int| 0 <= k < mid.len() ==> mid[k] != 'h',
        tail.len() == 0 ==> mid == "127.0.0.1"@,
        tail.len() > 0 ==> tail == "https/"@ || tail == "http/"@,
    ensures
        text_laws::stands_alone("http://"@ + mid + tail, "https://"@),
        text_laws::stands_alone("http://"@ + mid + tail, "http://"@),
        !text::contains("http://"@ + mid + tail, "https://"@),
        text_laws::followed("http://"@ + mid + tail, "http://"@, "127.0.0.1"@),
        forall|p: int| #[trigger] text::occurs_at("http://"@ + mid + tail, "http://"@, p) ==> p
            == 0,
{
    reveal_strlit("https://");
    reveal_strlit("http://");
    reveal_strlit("https/");
    reveal_strlit("http/");
    reveal_strlit("127.0.0.1");
    let w = "http://"@ + mid + tail;
    let n = 7 + mid.len() as int;
    assert(mid.take(9) == "127.0.0.1"@);
    assert forall|k: int| 0 < k < w.len() && #[trigger] w[k] == 'h' implies k == n by {
        if 7 <= k < n {
            assert(w[k] == mid[k - 7]);
        } else if k > n {
            assert(w[k] == tail[k - n]);
        }
    }
    if tail.len() == 0 {
        assert(w.last() == mid.take(9)[8]);
    } else {
        assert(w.last() == tail.last());
        assert(w[w.len() - 2] == tail[tail.len() - 2]);
    }
    assert forall|p: int| !text::occurs_at(w, "https://"@, p) by {
        if text::occurs_at(w, "https://"@, p) {
            assert(w.subrange(p, p + 8)[0] == "https://"@[0]);
            assert(w.subrange(p, p + 8)[4] == "https://"@[4]);
        }
    }
    assert forall|p: int| #[trigger] text::occurs_at(w, "http://"@, p) implies text::occurs_at(
        w,
        "http://"@ + "127.0.0.1"@,
        p,
    ) by {
        assert(w.subrange(p, p + 7)[0] == "http://"@[0]);
        assert(w.subrange(p, p + 16) =~= "http://"@ + mid.take(9));
    }
    assert forall|p: int| #[trigger] text::occurs_at(w, "http://"@, p) implies p == 0 by {
        assert(w.subrange(p, p + 7)[0] == "http://"@[0]);
    }
}

/// In a rewritten manifest every URL is one of this machine: there is no `https://`, and
/// behind every `http://` stands the address of this machine.
pub proof fn only_this_machine_is_named(s: Seq<char>, port: u16)
    ensures
        !text::contains(mpd::proxied(s, proxy::proxy_base(port)), "https://"@),
        text_laws::followed(
            mpd::proxied(s, proxy::proxy_base(port)),
            "http://"@,
            "127.0.0.1"@,
        ),
{
    reveal_strlit("https://");
    reveal_strlit("http://");
    reveal_strlit("https/");
    reveal_strlit("http/");
    reveal_strlit("127.0.0.1");
    let base = proxy::proxy_base(port);
    let mid = base_parts(port);
    let loc = "127.0.0.1"@;
    let e = Seq::<char>::empty();
    let r1 = "https://"@;
    let r2 = "http://"@;
    let p3 = base + "http/"@ + loc;
    assert(mid.take(9) =~= loc);
    assert(loc.take(9) =~= loc);
    assert forall|k: int| 0 <= k < loc.len() implies loc[k] != 'h' by {}
    local_url_stands_alone(mid, "https/"@);
    local_url_stands_alone(mid, "http/"@);
    local_url_stands_alone(loc, e);
    assert("http://"@ + mid + "https/"@ == base + "https/"@);
    assert("http://"@ + mid + "http/"@ == base + "http/"@);
    assert("http://"@ + loc + e =~= "http://"@ + loc);
    assert(p3[0] == 'h');
    let s1 = text::replace_all(s, r1, base + "https/"@);
    let s2 = text::replace_all(s1, r2, base + "http/"@);
    text_laws::replacing_brings_none(s, r1, base + "https/"@, r1);
    text_laws::replacing_brings_none(s1, r2, base + "http/"@, r1);
    text_laws::replacing_brings_none(s2, p3, "http://"@ + loc, r1);
    text_laws::replacing_keeps_what_follows(s1, r2, base + "http/"@, r2, loc);
    text_laws::replacing_keeps_what_follows(s2, p3, "http://"@ + loc, r2, loc);
}

/// What a player asks of the proxy for a rewritten URL is the URL that the manifest
/// named.
pub proof fn proxied_url_leads_back(x: Seq<char>, st: NumbersView)
    ensures
        proxy_state::route_of("/cdn/https/"@ + x, st) == RouteView::Segment("https/"@ + x),
        mpd::cdn_url("https/"@ + x) == Some("https://"@ + x),
        proxy_state::route_of("/cdn/http/"@ + x, st) == RouteView::Segment("http/"@ + x),
        mpd::cdn_url("http/"@ + x) == Some("http://"@ + x),
{
    reveal_strlit("/cdn/https/");
    reveal_strlit("/cdn/http/");
    reveal_strlit("/cdn/");
    reveal_strlit("https/");
    reveal_strlit("http/");
    reveal_strlit("/manifest.mpd");
    reveal_strlit("/manifest.mpd?");
    reveal_strlit("/cdnnum/");
    let s = "/cdn/https/"@ + x;
    let h = "/cdn/http/"@ + x;
    assert(s[1] == 'c' && h[1] == 'c');
    assert("/manifest.mpd"@[1] == 'm');
    assert("/manifest.mpd?"@[1] == 'm');
    assert(s != "/manifest.mpd"@);
    assert(h != "/manifest.mpd"@);
    assert(!text::starts_with(s, "/manifest.mpd?"@)) by {
        if text::starts_with(s, "/manifest.mpd?"@) {
            assert(s.take(14)[1] == "/manifest.mpd?"@[1]);
        }
    }
    assert(!text::starts_with(h, "/manifest.mpd?"@)) by {
        if text::starts_with(h, "/manifest.mpd?"@) {
            assert(h.take(14)[1] == "/manifest.mpd?"@[1]);
        }
    }
    assert(!text::starts_with(s, "/cdnnum/"@)) by {
        if text::starts_with(s, "/cdnnum/"@) {
            assert(s.take(8)[4] == "/cdnnum/"@[4]);
        }
    }
    assert(!text::starts_with(h, "/cdnnum/"@)) by {
        if text::starts_with(h, "/cdnnum/"@) {
            assert(h.take(8)[4] == "/cdnnum/"@[4]);
        }
    }
    assert(s.take(5) =~= "/cdn/"@);
    assert(h.take(5) =~= "/cdn/"@);
    assert(s.skip(5) =~= "https/"@ + x);
    assert(h.skip(5) =~= "http/"@ + x);
    let sp = "https/"@ + x;
    let hp = "http/"@ + x;
    assert(sp.take(6) =~= "https/"@);
    assert(sp.skip(6) =~= x);
    assert(hp.take(5) =~= "http/"@);
    assert(hp.skip(5) =~= x);
    assert(!text::starts_with(hp, "https/"@)) by {
        if text::starts_with(hp, "https/"@) {
            assert(hp.take(6)[4] == "https/"@[4]);
        }
    }
}

// ---------------------------------------------------------------------------
// Segments by number
// ---------------------------------------------------------------------------

proof fn step_keeps_mappings(st: ScanView, manifest: Seq<char>, step: XmlStepView, k: Seq<char>)
    ensures
        st.numbers.map.contains_key(k) ==> {
            let after = numbers::scan_step(st, manifest, step).numbers;
            after.map.contains_key(k) && after.map[k] == st.numbers.map[k]
        },
        st.numbers.given_up.contains(k) ==> numbers::scan_step(
            st,
            manifest,
            step,
        ).numbers.given_up.contains(k),
{
    match numbers::single_run(st.set, st.base_url) {
        Some(run) => {
            let (t, d) = run;
            numbers::established_mappings_stay(
                st.numbers,
                st.set.rep_ids,
                d,
                t,
                st.base_url->0 + st.set.media_raw->0,
                k,
            );
        },
        None => {},
    }
}

/// However often the manifest is refreshed, a mapping, once established, stays as it
/// is, and a representation that was given up stays given up.
pub proof fn refresh_keeps_mappings(
    st: ScanView,
    manifest: Seq<char>,
    steps: Seq<XmlStepView>,
    k: Seq<char>,
)
    ensures
        st.numbers.map.contains_key(k) ==> {
            let after = numbers::scan(st, manifest, steps).numbers;
            after.map.contains_key(k) && after.map[k] == st.numbers.map[k]
        },
        st.numbers.given_up.contains(k) ==> numbers::scan(
            st,
            manifest,
            steps,
        ).numbers.given_up.contains(k),
    decreases steps.len(),
{
    if !st.stopped && steps.len() > 0 {
        step_keeps_mappings(st, manifest, steps[0], k);
        refresh_keeps_mappings(
            numbers::scan_step(st, manifest, steps[0]),
            manifest,
            steps.drop_first(),
            k,
        );
    }
}

/// A set with a representation that was given up keeps its template.
pub proof fn given_up_representation_keeps_its_template(
    set: numbers::SetView,
    base_url: Option<Seq<char>>,
    st: NumbersView,
    i: int,
)
    requires
        0 <= i < set.rep_ids.len(),
        st.given_up.contains(set.rep_ids[i]),
    ensures
        numbers::set_template(set, base_url, st).1 is None,
{
    match numbers::single_run(set, base_url) {
        Some(run) => {
            let (t, d) = run;
            given_up_ends_it(st, set.rep_ids, d, t, base_url->0 + set.media_raw->0, i);
        },
        None => {},
    }
}

proof fn given_up_ends_it(
    st: NumbersView,
    reps: Seq<Seq<char>>,
    d: u64,
    t: u64,
    pattern: Seq<char>,
    i: int,
)
    requires
        0 <= i < reps.len(),
        st.given_up.contains(reps[i]),
    ensures
        !numbers::establish(st, reps, d, t, pattern).1,
    decreases reps.len(),
{
    let r = reps[0];
    if i > 0 && !st.given_up.contains(r) {
        let next = if st.map.contains_key(r) {
            st
        } else {
            NumbersView {
                map: st.map.insert(
                    r,
                    MappingView { duration: d, epoch_t: t, media_pattern: pattern },
                ),
                given_up: st.given_up,
            }
        };
        given_up_ends_it(next, reps.drop_first(), d, t, pattern, i - 1);
    }
}

/// A URL with a scheme of letters is asked of the proxy under that scheme.
proof fn scheme_leads_the_path(scheme: Seq<char>, rest: Seq<char>)
    requires
        forall|j: int| 0 <= j < scheme.len() ==> scheme[j] != ':',
    ensures
        text::replace_first(scheme + "://"@ + rest, "://"@, "/"@) == scheme + "/"@ + rest,
{
    reveal_strlit("://");
    let url = scheme + "://"@ + rest;
    let n = scheme.len() as int;
    assert(url.subrange(n, n + 3) =~= "://"@);
    assert forall|j: int| 0 <= j < n implies !text::occurs_at(url, "://"@, j) by {
        if text::occurs_at(url, "://"@, j) {
            assert(url.subrange(j, j + 3)[0] == "://"@[0]);
        }
    }
    text_laws::find_at(url, "://"@, n);
    assert(url.take(n) =~= scheme);
    assert(url.skip(n + 3) =~= rest);
}

/// A segment asked for by number leads to the URL of that segment, through the same
/// door as every other one.
pub proof fn numbered_segment_leads_to_its_url(
    repid: Seq<char>,
    n: u64,
    st: NumbersView,
    rest: Seq<char>,
)
    requires
        forall|j: int| 0 <= j < repid.len() ==> repid[j] != '/',
        st.map.contains_key(repid),
        st.map[repid].time_of(n as int) <= u64::MAX,
    ensures
        ({
            let url = st.map[repid].url_of(repid, n as int);
            let asked = proxy_state::route_of(
                "/cdnnum/"@ + repid + "/"@ + text::decimal(n as nat),
                st,
            );
            &&& url == "https://"@ + rest ==> {
                asked == RouteView::Segment("https/"@ + rest) && mpd::cdn_url("https/"@ + rest)
                    == Some(url)
            }
            &&& url == "http://"@ + rest ==> {
                asked == RouteView::Segment("http/"@ + rest) && mpd::cdn_url("http/"@ + rest)
                    == Some(url)
            }
        }),
{
    reveal_strlit("/");
    reveal_strlit("://");
    reveal_strlit("https");
    reveal_strlit("https://");
    reveal_strlit("https/");
    reveal_strlit("http");
    reveal_strlit("http://");
    reveal_strlit("http/");
    reveal_strlit("/cdnnum/");
    reveal_strlit("/manifest.mpd");
    reveal_strlit("/manifest.mpd?");
    let d = text::decimal(n as nat);
    text::decimal_reads_back(n as nat);
    let path = "/cdnnum/"@ + repid + "/"@ + d;
    let tail = repid + "/"@ + d;
    assert(path[1] == 'c');
    assert("/manifest.mpd"@[1] == 'm');
    assert(path != "/manifest.mpd"@);
    assert(!text::starts_with(path, "/manifest.mpd?"@)) by {
        if text::starts_with(path, "/manifest.mpd?"@) {
            assert(path.take(14)[1] == "/manifest.mpd?"@[1]);
        }
    }
    assert(path.take(8) =~= "/cdnnum/"@);
    assert(path.skip(8) =~= tail);
    let i = repid.len() as int;
    assert(tail[i] == '/');
    text_laws::find_char_at(tail, '/', i);
    assert(tail.take(i) =~= repid);
    assert(tail.skip(i + 1) =~= d);
    scheme_leads_the_path("https"@, rest);
    scheme_leads_the_path("http"@, rest);
    assert("https"@ + "://"@ + rest =~= "https://"@ + rest);
    assert("http"@ + "://"@ + rest =~= "http://"@ + rest);
    assert("https"@ + "/"@ + rest =~= "https/"@ + rest);
    assert("http"@ + "/"@ + rest =~= "http/"@ + rest);
    proxied_url_leads_back(rest, st);
}

// ---------------------------------------------------------------------------
// Init segments
// ---------------------------------------------------------------------------

/// The init segment that goes with `STEM-DIGITS.dash` is `STEM.dash`, and a query stays behind
/// it.
pub proof fn init_url_drops_the_number(stem: Seq<char>, digits: Seq<char>, query: Seq<char>)
    requires
        forall|j: int| 0 <= j < stem.len() ==> stem[j] != '?',
        digits.len() > 0,
        text::all_digits(digits),
    ensures
        mpd::init_url(stem + "-"@ + digits + ".dash"@) == Some(stem + ".dash"@),
        query.len() > 0 ==> mpd::init_url(stem + "-"@ + digits + ".dash?"@ + query) == Some(
            stem + ".dash?"@ + query,
        ),
{
    reveal_strlit("-");
    reveal_strlit(".dash");
    reveal_strlit(".dash?");
    let d = digits;
    let numbered = stem + "-"@ + d;
    let base = numbered + ".dash"@;
    let url = stem + "-"@ + d + ".dash?"@ + query;
    let q = base.len() as int;
    assert forall|j: int| 0 <= j < q implies base[j] != '?' by {
        if stem.len() < j < stem.len() + 1 + d.len() {
            assert(base[j] == d[j - stem.len() - 1]);
            assert(text::is_digit(d[j - stem.len() - 1]));
        }
    }
    text::find_is_first(base, seq!['?'], 0);
    if let Some(j) = text::find_char(base, '?') {
        assert(base.subrange(j, j + 1)[0] == '?');
    }
    assert(url =~= base + seq!['?'] + query);
    assert(url[q] == '?');
    assert forall|j: int| 0 <= j < q implies url[j] != '?' by {
        assert(url[j] == base[j]);
    }
    text_laws::find_char_at(url, '?', q);
    assert(url.take(q) =~= base);
    assert(url.skip(q + 1) =~= query);
    assert(base.skip(q - 5) =~= ".dash"@);
    assert(base.take(q - 5) =~= numbered);
    let i = stem.len() as int;
    assert(numbered[i] == '-');
    assert forall|j: int| i < j < numbered.len() implies numbered[j] != '-' by {
        assert(numbered[j] == d[j - i - 1]);
        assert(text::is_digit(d[j - i - 1]));
    }
    text_laws::rfind_char_at(numbered, '-', i);
    assert(numbered.skip(i + 1) =~= d);
    assert(numbered.take(i) =~= stem);
}

// ---------------------------------------------------------------------------
// Bandwidth
// ---------------------------------------------------------------------------

/// Whether the tag of a representation stands at `p` and names a bandwidth over
/// `max_bps`.
pub open spec fn fast_at(s: Seq<char>, max_bps: u64, p: int) -> bool {
    text::occurs_at(s, "<Representation"@, p) && match text::find_char(s.skip(p), '>') {
        Some(e) => mpd::too_fast(s.skip(p).take(e + 1), max_bps),
        None => false,
    }
}

/// Whether representations stand between tags, have no tag inside their own, and end
/// where they are to be dropped.
pub open spec fn representations_between_tags(s: Seq<char>, max_bps: u64) -> bool
    decreases s.len(),
{
    match text::find(s, "<Representation"@) {
        None => true,
        Some(i) => {
            let chunk = s.skip(i);
            tags_closed(s.take(i)) && match text::find_char(chunk, '>') {
                None => true,
                Some(e) => {
                    let opening = chunk.take(e + 1);
                    proof {
                        mpd::representation_shrinks(s);
                    }
                    &&& forall|j: int| 0 < j <= e ==> chunk[j] != '<'
                    &&& if !mpd::too_fast(opening, max_bps) || text::ends_with(opening, "/>"@) {
                        representations_between_tags(chunk.skip(e + 1), max_bps)
                    } else {
                        match text::find(chunk, "</Representation>"@) {
                            None => false,
                            Some(c) => representations_between_tags(
                                chunk.skip(c + "</Representation>"@.len()),
                                max_bps,
                            ),
                        }
                    }
                },
            }
        },
    }
}

/// No representation over the limit is left, in a manifest whose representations
/// stand between tags and end.
pub proof fn no_fast_representation_is_left(s: Seq<char>, max_bps: u64)
    requires
        representations_between_tags(s, max_bps),
    ensures
        forall|p: int| !fast_at(mpd::within_bitrate(s, max_bps), max_bps, p),
    decreases s.len(),
{
    let pat = "<Representation"@;
    reveal_strlit("<Representation");
    text::find_is_first(s, pat, 0);
    mpd::representation_shrinks(s);
    let out = mpd::within_bitrate(s, max_bps);
    match text::find(s, pat) {
        None => {},
        Some(i) => {
            let a = s.take(i);
            let chunk = s.skip(i);
            text::find_is_first(chunk, seq!['>'], 0);
            assert(!text::contains(a, pat)) by {
                if text::contains(a, pat) {
                    let p = choose|p: int| text::occurs_at(a, pat, p);
                    assert(s.subrange(p, p + pat.len()) =~= a.subrange(p, p + pat.len()));
                    assert(text::occurs_at(s, pat, p));
                }
            }
            match text::find_char(chunk, '>') {
                None => {
                    assert forall|p: int| !fast_at(out, max_bps, p) by {
                        if fast_at(out, max_bps, p) {
                            assert(out =~= a + chunk);
                            nothing_starts_in_front(a, chunk, p);
                            let q = p - i;
                            assert(out.skip(p) =~= chunk.skip(q));
                            text::find_is_first(chunk.skip(q), seq!['>'], 0);
                            let e = text::find_char(chunk.skip(q), '>')->0;
                            assert(chunk.subrange(q + e, q + e + 1) =~= chunk.skip(q).subrange(
                                e,
                                e + 1,
                            ));
                            assert(text::occurs_at(chunk, seq!['>'], q + e));
                        }
                    }
                },
                Some(e) => {
                    let opening = chunk.take(e + 1);
                    assert(chunk.subrange(e, e + 1)[0] == '>');
                    if !mpd::too_fast(opening, max_bps) {
                        let rest = chunk.skip(e + 1);
                        no_fast_representation_is_left(rest, max_bps);
                        let more = mpd::within_bitrate(rest, max_bps);
                        assert(out =~= a + (opening + more));
                        assert forall|p: int| !fast_at(out, max_bps, p) by {
                            if fast_at(out, max_bps, p) {
                                nothing_starts_in_front(a, opening + more, p);
                                let q = p - i;
                                assert(out.subrange(p, p + pat.len())[0] == '<');
                                if q > e {
                                    assert(out.skip(p) =~= more.skip(q - e - 1));
                                    assert(out.subrange(p, p + pat.len()) =~= more.subrange(
                                        q - e - 1,
                                        q - e - 1 + pat.len(),
                                    ));
                                    assert(fast_at(more, max_bps, q - e - 1));
                                } else {
                                    assert(out[p] == chunk[q]);
                                    assert(q == 0);
                                    assert(out.skip(p) =~= opening + more);
                                    assert forall|j: int| 0 <= j < e implies (opening + more)[j]
                                        != '>' by {
                                        if chunk[j] == '>' {
                                            assert(chunk.subrange(j, j + 1) =~= seq!['>']);
                                            assert(text::occurs_at(chunk, seq!['>'], j));
                                        }
                                    }
                                    text_laws::find_char_at(opening + more, '>', e);
                                    assert((opening + more).take(e + 1) =~= opening);
                                }
                            }
                        }
                    } else {
                        let rest = if text::ends_with(opening, "/>"@) {
                            chunk.skip(e + 1)
                        } else {
                            chunk.skip(
                                text::find(chunk, "</Representation>"@)->0
                                    + "</Representation>"@.len(),
                            )
                        };
                        no_fast_representation_is_left(rest, max_bps);
                        let more = mpd::within_bitrate(rest, max_bps);
                        assert(out =~= a + more);
                        assert forall|p: int| !fast_at(out, max_bps, p) by {
                            if fast_at(out, max_bps, p) {
                                nothing_starts_in_front(a, more, p);
                                let q = p - i;
                                assert(out.skip(p) =~= more.skip(q));
                                assert(out.subrange(p, p + pat.len()) =~= more.subrange(
                                    q,
                                    q + pat.len(),
                                ));
                                assert(fast_at(more, max_bps, q));
                            }
                        }
                    }
                },
            }
        },
    }
}

/// No tag of a representation starts in a text without one whose tags are closed.
proof fn nothing_starts_in_front(a: Seq<char>, b: Seq<char>, p: int)
    requires
        tags_closed(a),
        !text::contains(a, "<Representation"@),
        text::occurs_at(a + b, "<Representation"@, p),
    ensures
        p >= a.len(),
{
    let pat = "<Representation"@;
    reveal_strlit("<Representation");
    let t = a + b;
    if p < a.len() {
        if p + pat.len() <= a.len() {
            assert(a.subrange(p, p + pat.len()) =~= t.subrange(p, p + pat.len()));
            assert(text::occurs_at(a, pat, p));
        } else {
            assert(t.subrange(p, p + pat.len())[0] == '<');
            assert(a[p] == '<');
            let k = choose|k: int| p < k < a.len() && #[trigger] a[k] == '>';
            assert(t.subrange(p, p + pat.len())[k - p] == '>');
            assert(pat[k - p] == '>');
        }
    }
}

/// A manifest without a representation over the limit stays as it is.
pub proof fn slow_manifest_stays(s: Seq<char>, max_bps: u64)
    requires
        forall|p: int| !fast_at(s, max_bps, p),
    ensures
        mpd::within_bitrate(s, max_bps) == s,
    decreases s.len(),
{
    let pat = "<Representation"@;
    text::find_is_first(s, pat, 0);
    mpd::representation_shrinks(s);
    match text::find(s, pat) {
        None => {},
        Some(i) => {
            let chunk = s.skip(i);
            match text::find_char(chunk, '>') {
                None => {},
                Some(e) => {
                    assert(!fast_at(s, max_bps, i));
                    let rest = chunk.skip(e + 1);
                    assert forall|p: int| !fast_at(rest, max_bps, p) by {
                        if fast_at(rest, max_bps, p) {
                            let q = p + i + e + 1;
                            assert(s.skip(q) =~= rest.skip(p));
                            assert(s.subrange(q, q + pat.len()) =~= rest.subrange(
                                p,
                                p + pat.len(),
                            ));
                            assert(fast_at(s, max_bps, q));
                        }
                    }
                    slow_manifest_stays(rest, max_bps);
                    assert(s.take(i) + chunk.take(e + 1) + rest =~= s);
                },
            }
        },
    }
}

/// What is served of a manifest: without URLs and audio sets to rewrite, it is the manifest
/// without the representations over the limit.
pub proof fn fast_representations_are_not_served(
    absolute: Seq<char>,
    host: Option<Seq<char>>,
    port: u16,
    st: NumbersView,
)
    requires
        !text::contains(absolute, "https://"@),
        !text::contains(absolute, "http://"@),
        !text::contains(absolute, proxy::proxy_base(port) + "http/"@ + "127.0.0.1"@),
        representations_between_tags(absolute, proxy::MAX_BITRATE),
    ensures
        ({
            let served = proxy::assembled(absolute, host, Seq::empty(), port, st);
            &&& forall|p: int| !fast_at(served.text, proxy::MAX_BITRATE, p)
            &&& served.numbers == st
            &&& (forall|p: int| !fast_at(absolute, proxy::MAX_BITRATE, p)) ==> served.text
                == absolute
            &&& host is Some ==> served.hosts.contains(host->0)
        }),
{
    let base = proxy::proxy_base(port);
    text_laws::replacing_nothing(absolute, "https://"@, base + "https/"@);
    text_laws::replacing_nothing(absolute, "http://"@, base + "http/"@);
    text_laws::replacing_nothing(
        absolute,
        base + "http/"@ + "127.0.0.1"@,
        "http://"@ + "127.0.0.1"@,
    );
    let begun = numbers::scan_start(st);
    assert(numbers::scan(begun, absolute, Seq::empty()) == begun);
    assert(begun.out + absolute.skip(0) =~= absolute);
    no_fast_representation_is_left(absolute, proxy::MAX_BITRATE);
    if forall|p: int| !fast_at(absolute, proxy::MAX_BITRATE, p) {
        slow_manifest_stays(absolute, proxy::MAX_BITRATE);
    }
}

/// Protection is taken out before base URLs are resolved against the directory of the
/// manifest's URL.
pub proof fn manifest_is_made_absolute(mpd: Seq<char>, dir: Seq<char>, file: Seq<char>)
    requires
        text_laws::apart_from('/', file),
    ensures
        !text::contains(mpd::unprotected(mpd), "<BaseURL"@) ==> proxy::absolute_mpd(
            mpd,
            dir + "/"@ + file,
        ) == mpd::unprotected(mpd),
        !text::contains(mpd, "<ContentProtection"@) ==> proxy::absolute_mpd(
            mpd,
            dir + "/"@ + file,
        ) == mpd::resolved(mpd, dir + "/"@),
{
    crate::mpd_laws::directory_goes_up_to_the_last_slash(dir, file);
    text::found_iff_contained(mpd::unprotected(mpd), "<BaseURL"@);
    text::found_iff_contained(mpd, "<ContentProtection"@);
}

/// Whether a segment is fresh: until its time to live is over, to the nanosecond.
pub proof fn freshness_ends_with_the_time_to_live(at: u64, now: u64, ttl: u64)
    ensures
        proxy::is_fresh(at, now, ttl) <==> ttl > 0 && now < at + ttl,
        at + ttl <= u64::MAX && ttl > 0 ==> !proxy::is_fresh(at, (at + ttl) as u64, ttl),
{
}

} // verus!
