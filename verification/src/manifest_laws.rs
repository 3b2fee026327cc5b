//! What holds of the URLs of a rewritten manifest.

use crate::mpd;
use crate::numbers;
use crate::numbers::{NumbersView, ScanView};
use crate::proxy;
use crate::proxy_laws;
use crate::text;
use crate::text_laws;
use crate::xml::XmlStepView;
use vstd::prelude::*;

verus! {

/// Whether a character is one of a plainly written host name: an ASCII letter or
/// digit, a hyphen or a dot.
pub open spec fn names_host(c: char) -> bool {
    ||| 'a' <= c && c <= 'z'
    ||| 'A' <= c && c <= 'Z'
    ||| '0' <= c && c <= '9'
    ||| c == '-'
    ||| c == '.'
}

/// How a URL starts.
pub open spec fn scheme(secure: bool) -> Seq<char> {
    if secure {
        "https://"@
    } else {
        "http://"@
    }
}

/// Whether `h` is a plainly written host and the slash behind it. This machine is
/// no host to be asked without encryption.
pub open spec fn plain_host(h: Seq<char>, secure: bool) -> bool {
    &&& h.len() > 1
    &&& h.last() == '/'
    &&& forall|i: int| 0 <= i < h.len() - 1 ==> names_host(#[trigger] h[i])
    &&& !secure ==> !text::starts_with(h, "127.0.0.1"@)
}

/// Whether `h` is such a host, and one of `hosts`.
pub open spec fn known_host(secure: bool, hosts: Set<Seq<char>>) -> spec_fn(Seq<char>) -> bool {
    |h: Seq<char>|
        plain_host(h, secure) && hosts.contains(scheme(secure) + text::lower(h.drop_last()))
}

/// Whether behind every scheme stands a plainly written host, one of `hosts`.
pub open spec fn names_known_hosts(s: Seq<char>, hosts: Set<Seq<char>>) -> bool {
    &&& text_laws::goes_on(s, "https://"@, known_host(true, hosts))
    &&& text_laws::goes_on(s, "http://"@, known_host(false, hosts))
}

/// A scheme does not start inside a plainly written host.
proof fn host_is_clear(h: Seq<char>, secure: bool, pat: Seq<char>, colon: int)
    requires
        plain_host(h, secure),
        0 <= colon < pat.len(),
        pat[colon] == ':',
        forall|k: int| 0 <= k < colon ==> pat[k] != '/',
    ensures
        text_laws::clear_of(h, pat),
{
    assert forall|j: int| 0 <= j < h.len() implies #[trigger] text_laws::differs_at(h, pat, j) by {
        let last = h.len() - 1;
        if j + colon <= last {
            assert(h[j + colon] != pat[colon]);
        } else {
            assert(h[j + (last - j)] != pat[last - j]);
        }
    }
}

/// Nor does it inside the address of this machine and the scheme in a path.
proof fn lead_is_clear(mid: Seq<char>, lead: Seq<char>)
    requires
        forall|k: int| 0 <= k < mid.len() ==> mid[k] != 'h',
        lead == "https/"@ || lead == "http/"@,
    ensures
        text_laws::clear_of(mid + lead, "http://"@),
{
    reveal_strlit("http://");
    reveal_strlit("https/");
    reveal_strlit("http/");
    let pat = "http://"@;
    let v = mid + lead;
    let m = mid.len() as int;
    assert forall|j: int| 0 <= j < v.len() implies #[trigger] text_laws::differs_at(v, pat, j) by {
        if j == m {
            assert(v[j + 4] != pat[4]);
        } else if j < m {
            assert(v[j + 0] != pat[0]);
        } else {
            assert(v[j + 0] == lead[j - m]);
            assert(v[j + 0] != pat[0]);
        }
    }
}

/// What cannot start in a text cannot go on there either.
proof fn longer_is_clear(h: Seq<char>, pat: Seq<char>, more: Seq<char>)
    requires
        text_laws::clear_of(h, pat),
    ensures
        text_laws::clear_of(h, pat + more),
{
    assert forall|j: int| 0 <= j < h.len() implies #[trigger] text_laws::differs_at(
        h,
        pat + more,
        j,
    ) by {
        assert(text_laws::differs_at(h, pat, j));
        let k = choose|k: int|
            0 <= k < pat.len() && j + k < h.len() && h[j + k] != #[trigger] pat[k];
        assert((pat + more)[k] == pat[k]);
    }
}

/// Whether a text starts with `v`, and behind it stands one of `ok`.
spec fn behind(v: Seq<char>, ok: spec_fn(Seq<char>) -> bool) -> spec_fn(Seq<char>) -> bool {
    |h: Seq<char>| text::starts_with(h, v) && ok(h.skip(v.len() as int))
}

/// What stands behind `http://` when `https://` has been replaced.
spec fn after_first(mid: Seq<char>, hosts: Set<Seq<char>>) -> spec_fn(Seq<char>) -> bool {
    |h: Seq<char>|
        behind(mid + "https/"@, known_host(true, hosts))(h) || known_host(false, hosts)(h)
}

/// What stands behind `http://` in the end: the address of this machine and a path
/// that names a host.
spec fn in_the_end(mid: Seq<char>, hosts: Set<Seq<char>>) -> spec_fn(Seq<char>) -> bool {
    |h: Seq<char>|
        behind(mid + "https/"@, known_host(true, hosts))(h) || behind(
            mid + "http/"@,
            known_host(false, hosts),
        )(h)
}

proof fn known_is_clear(h: Seq<char>, secure: bool, hosts: Set<Seq<char>>)
    requires
        known_host(secure, hosts)(h),
    ensures
        text_laws::clear_of(h, "https://"@),
        text_laws::clear_of(h, "http://"@),
{
    reveal_strlit("https://");
    reveal_strlit("http://");
    host_is_clear(h, secure, "https://"@, 5);
    host_is_clear(h, secure, "http://"@, 4);
}

proof fn behind_is_clear(h: Seq<char>, v: Seq<char>, secure: bool, hosts: Set<Seq<char>>)
    requires
        behind(v, known_host(secure, hosts))(h),
        text_laws::clear_of(v, "http://"@),
    ensures
        text_laws::clear_of(h, "http://"@),
{
    let w = h.skip(v.len() as int);
    known_is_clear(w, secure, hosts);
    text_laws::clear_parts(v, w, "http://"@);
    assert(h.take(v.len() as int) + w =~= h);
}

/// First, `https://` becomes the base and `https/`.
proof fn first_step(s: Seq<char>, mid: Seq<char>, hosts: Set<Seq<char>>)
    requires
        names_known_hosts(s, hosts),
        text::starts_with(mid, "127.0.0.1"@),
        forall|k: int| 0 <= k < mid.len() ==> mid[k] != 'h',
    ensures
        text_laws::goes_on(
            text::replace_all(s, "https://"@, "http://"@ + mid + "https/"@),
            "http://"@,
            after_first(mid, hosts),
        ),
{
    reveal_strlit("https://");
    reveal_strlit("https/");
    let v = mid + "https/"@;
    let r = "http://"@;
    let okp = known_host(true, hosts);
    let ok = known_host(false, hosts);
    let out = after_first(mid, hosts);
    proxy_laws::local_url_stands_alone(mid, "https/"@);
    assert(r + v =~= "http://"@ + mid + "https/"@);
    assert forall|h: Seq<char>| #[trigger] okp(h) implies text_laws::clear_of(h, "https://"@)
        && out(v + h) by {
        known_is_clear(h, true, hosts);
        assert((v + h).take(v.len() as int) =~= v);
        assert((v + h).skip(v.len() as int) =~= h);
    }
    assert forall|h: Seq<char>| #[trigger] ok(h) implies text_laws::clear_of(h, "https://"@)
        && out(h) by {
        known_is_clear(h, false, hosts);
    }
    text_laws::replacing_carries(s, "https://"@, r, v, okp, ok, out);
}

/// Then `http://` becomes the base and `http/`, that of the base too.
proof fn second_step(s: Seq<char>, mid: Seq<char>, hosts: Set<Seq<char>>)
    requires
        text_laws::goes_on(s, "http://"@, after_first(mid, hosts)),
        text::starts_with(mid, "127.0.0.1"@),
        forall|k: int| 0 <= k < mid.len() ==> mid[k] != 'h',
    ensures
        text_laws::goes_on(
            text::replace_all(s, "http://"@, "http://"@ + mid + "http/"@),
            "http://"@,
            behind(mid + "http/"@, after_first(mid, hosts)),
        ),
{
    reveal_strlit("http://");
    reveal_strlit("http/");
    let v = mid + "http/"@;
    let r = "http://"@;
    let okp = after_first(mid, hosts);
    let ok = |h: Seq<char>| false;
    let out = behind(v, okp);
    proxy_laws::local_url_stands_alone(mid, "http/"@);
    assert(r + v =~= "http://"@ + mid + "http/"@);
    lead_is_clear(mid, "https/"@);
    assert forall|h: Seq<char>| #[trigger] okp(h) implies text_laws::clear_of(h, r) && out(
        v + h,
    ) by {
        if behind(mid + "https/"@, known_host(true, hosts))(h) {
            behind_is_clear(h, mid + "https/"@, true, hosts);
        } else {
            known_is_clear(h, false, hosts);
        }
        assert((v + h).take(v.len() as int) =~= v);
        assert((v + h).skip(v.len() as int) =~= h);
    }
    text_laws::replacing_carries(s, r, r, v, okp, ok, out);
}

/// What stands behind `http://` before the last step: where the base was put in
/// twice, and where it was put in once.
proof fn twice_or_once(
    s: Seq<char>,
    mid: Seq<char>,
    back: Seq<char>,
    hosts: Set<Seq<char>>,
    p: int,
)
    requires
        text_laws::goes_on(s, "http://"@, behind(mid + "http/"@, after_first(mid, hosts))),
        mid == "127.0.0.1"@ + back,
        text::occurs_at(s, "http://"@, p),
    ensures
        if text::occurs_at(s, "http://"@ + mid + "http/"@ + "127.0.0.1"@, p) {
            text_laws::goes_on_at(
                s,
                "http://"@ + mid + "http/"@ + "127.0.0.1"@,
                p,
                behind(back + "https/"@, known_host(true, hosts)),
            )
        } else {
            text_laws::goes_on_at(
                s,
                "http://"@,
                p,
                behind(mid + "http/"@, known_host(false, hosts)),
            )
        },
{
    reveal_strlit("127.0.0.1");
    let r = "http://"@;
    let v = mid + "http/"@;
    let loc = "127.0.0.1"@;
    let p3 = r + mid + "http/"@ + loc;
    let h = choose|h: Seq<char>|
        behind(v, after_first(mid, hosts))(h) && #[trigger] text::occurs_at(s, r + h, p);
    let g = h.skip(v.len() as int);
    assert(h =~= v + g) by {
        assert(h.take(v.len() as int) == v);
        assert(h =~= h.take(v.len() as int) + g);
    }
    let front = r + v;
    let at = p + front.len();
    assert(r + h =~= front + g);
    let whole = s.subrange(p, p + (r + h).len());
    assert(s.subrange(at, at + g.len()) =~= g) by {
        assert forall|k: int| 0 <= k < g.len() implies s[at + k] == g[k] by {
            assert(whole[front.len() + k] == (front + g)[front.len() + k]);
        }
    }
    if behind(mid + "https/"@, known_host(true, hosts))(g) {
        let lead = mid + "https/"@;
        let w = g.skip(lead.len() as int);
        let rest = back + "https/"@ + w;
        assert(g =~= lead + w) by {
            assert(g.take(lead.len() as int) == lead);
            assert(g =~= g.take(lead.len() as int) + w);
        }
        assert(r + h =~= p3 + rest);
        assert(s.subrange(p, p + p3.len()) =~= whole.take(p3.len() as int));
        assert((p3 + rest).take(p3.len() as int) =~= p3);
        assert(text::occurs_at(s, p3, p));
        assert(rest.take((back + "https/"@).len() as int) =~= back + "https/"@);
        assert(rest.skip((back + "https/"@).len() as int) =~= w);
        assert(behind(back + "https/"@, known_host(true, hosts))(rest));
        assert(text::occurs_at(s, p3 + rest, p));
    } else {
        assert(known_host(false, hosts)(g));
        if text::occurs_at(s, p3, p) {
            let named = s.subrange(p, p + p3.len());
            assert forall|k: int| 0 <= k < 9 implies s[at + k] == loc[k] by {
                assert(named[front.len() + k] == p3[front.len() + k]);
                assert(p3 =~= front + loc);
            }
            if g.len() >= 9 {
                assert(g.take(9) =~= loc) by {
                    assert forall|k: int| 0 <= k < 9 implies g[k] == loc[k] by {
                        assert(s.subrange(at, at + g.len())[k] == s[at + k]);
                    }
                }
            } else {
                let k = g.len() - 1;
                assert(s.subrange(at, at + g.len())[k as int] == s[at + k]);
                assert(loc[k as int] == '/');
            }
            assert(false);
        }
        assert(h.take(v.len() as int) == v);
        assert(behind(v, known_host(false, hosts))(h));
    }
}

/// Last, the base that was put in twice is put in once.
proof fn last_step(s: Seq<char>, mid: Seq<char>, back: Seq<char>, hosts: Set<Seq<char>>)
    requires
        text_laws::goes_on(s, "http://"@, behind(mid + "http/"@, after_first(mid, hosts))),
        mid == "127.0.0.1"@ + back,
        forall|k: int| 0 <= k < mid.len() ==> mid[k] != 'h',
    ensures
        text_laws::goes_on(
            text::replace_all(
                s,
                "http://"@ + mid + "http/"@ + "127.0.0.1"@,
                "http://"@ + "127.0.0.1"@,
            ),
            "http://"@,
            in_the_end(mid, hosts),
        ),
{
    reveal_strlit("http://");
    reveal_strlit("https/");
    reveal_strlit("127.0.0.1");
    let r = "http://"@;
    let loc = "127.0.0.1"@;
    let p3 = r + mid + "http/"@ + loc;
    let okp = behind(back + "https/"@, known_host(true, hosts));
    let ok = behind(mid + "http/"@, known_host(false, hosts));
    let out = in_the_end(mid, hosts);
    let e = Seq::<char>::empty();
    assert(loc.take(9) =~= loc);
    proxy_laws::local_url_stands_alone(loc, e);
    assert(r + loc + e =~= r + loc);
    assert(p3 =~= r + (mid + "http/"@ + loc));
    assert forall|k: int| 0 <= k < back.len() implies back[k] != 'h' by {
        assert(mid[9 + k] == back[k]);
    }
    lead_is_clear(back, "https/"@);
    lead_is_clear(mid, "http/"@);
    assert forall|h: Seq<char>| #[trigger] okp(h) implies text_laws::clear_of(h, p3) && out(
        loc + h,
    ) by {
        let v = back + "https/"@;
        behind_is_clear(h, v, true, hosts);
        longer_is_clear(h, r, mid + "http/"@ + loc);
        let w = h.skip(v.len() as int);
        assert(h.take(v.len() as int) == v);
        assert((loc + h).take((mid + "https/"@).len() as int) =~= mid + "https/"@) by {
            assert(h =~= v + w);
        }
        assert((loc + h).skip((mid + "https/"@).len() as int) =~= w);
    }
    assert forall|h: Seq<char>| #[trigger] ok(h) implies text_laws::clear_of(h, p3) && out(h) by {
        behind_is_clear(h, mid + "http/"@, false, hosts);
        longer_is_clear(h, r, mid + "http/"@ + loc);
    }
    assert forall|p: int| #[trigger] text::occurs_at(s, p3, p) implies text_laws::goes_on_at(
        s,
        p3,
        p,
        okp,
    ) by {
        assert(s.subrange(p, p + 7) =~= s.subrange(p, p + p3.len()).take(7));
        assert(p3.take(7) =~= r);
        assert(text::occurs_at(s, r, p));
        twice_or_once(s, mid, back, hosts, p);
    }
    assert forall|p: int| #[trigger]
        text::occurs_at(s, r, p) && !text::occurs_at(s, p3, p) implies text_laws::goes_on_at(
        s,
        r,
        p,
        ok,
    ) by {
        twice_or_once(s, mid, back, hosts, p);
    }
    text_laws::replacing_carries(s, p3, r, loc, okp, ok, out);
}

/// In a manifest rewritten to go through the proxy, behind every `http://` stand the
/// address of this machine and a path that names a host.
proof fn rewritten_urls_name_hosts(s: Seq<char>, port: u16, hosts: Set<Seq<char>>) -> (mid: Seq<
    char,
>)
    requires
        names_known_hosts(s, hosts),
    ensures
        proxy::proxy_base(port) == "http://"@ + mid,
        forall|k: int| 0 <= k < mid.len() ==> !mpd::ends_host(mid[k]) || mid[k] == '/',
        text_laws::goes_on(
            mpd::proxied(s, proxy::proxy_base(port)),
            "http://"@,
            in_the_end(mid, hosts),
        ),
{
    reveal_strlit("127.0.0.1");
    reveal_strlit(":");
    reveal_strlit("/cdn/");
    let base = proxy::proxy_base(port);
    let mid = proxy_laws::base_parts(port);
    let d = text::decimal(port as nat);
    let back = ":"@ + d + "/cdn/"@;
    assert(mid.take(9) =~= "127.0.0.1"@);
    text::decimal_reads_back(port as nat);
    assert forall|k: int| 0 <= k < mid.len() implies !mpd::ends_host(mid[k]) || mid[k] == '/' by {
        if 10 <= k < 10 + d.len() {
            assert(mid[k] == d[k - 10]);
            assert(text::is_digit(d[k - 10]));
        }
    }
    let s1 = text::replace_all(s, "https://"@, base + "https/"@);
    let s2 = text::replace_all(s1, "http://"@, base + "http/"@);
    first_step(s, mid, hosts);
    second_step(s1, mid, hosts);
    last_step(s2, mid, back, hosts);
    mid
}

/// What goes on behind a place ends before a character that is none of its own.
pub proof fn ends_in_front(
    t: Seq<char>,
    n: int,
    k: int,
    r: Seq<char>,
    p: int,
    ok: spec_fn(Seq<char>) -> bool,
)
    requires
        r.len() > 0,
        n - 1 <= k <= n,
        0 <= k < t.len(),
        text::occurs_at(t.take(n), r, p),
        text_laws::goes_on(t, r, ok),
        text_laws::apart_from(t[k], r),
        forall|h: Seq<char>| #[trigger] ok(h) ==> text_laws::apart_from(t[k], h),
    ensures
        text_laws::goes_on_at(t.take(n), r, p, ok),
{
    assert(t.subrange(0, n) =~= t.take(n));
    text_laws::part_stands_in_the_whole(t, 0, n, r, p);
    let h = choose|h: Seq<char>| ok(h) && #[trigger] text::occurs_at(t, r + h, p);
    let e = p + (r + h).len();
    if e > n {
        assert(t.subrange(p, e)[k - p] == (r + h)[k - p]);
        if k - p < r.len() {
            assert(r[k - p] == t[k]);
        } else {
            assert(h[k - p - r.len()] == t[k]);
        }
    }
    assert(t.take(n).subrange(p, e) =~= t.subrange(p, e));
    assert(text::occurs_at(t.take(n), r + h, p));
}

/// Whether no URL is cut where a text ends: it ends with a quote, a closing bracket or white
/// space, or with a slash that is not behind a colon, or it is empty.
pub open spec fn ends_cleanly(a: Seq<char>) -> bool {
    ||| a.len() == 0
    ||| proxy_laws::borders_url(a.last()) && a.last() != '<'
    ||| a.last() == '/' && (a.len() == 1 || a[a.len() - 2] != ':')
}

/// Whether no URL is cut in front of any `tag`.
pub open spec fn stands_apart(s: Seq<char>, tag: Seq<char>) -> bool {
    forall|p: int| #[trigger] text::occurs_at(s, tag, p) ==> ends_cleanly(s.take(p))
}

/// Whether no URL is cut in front of any representation.
pub open spec fn representations_apart(s: Seq<char>) -> bool {
    stands_apart(s, "<Representation"@)
}

/// Whether a pattern is like a scheme: no quote, bracket or white space is in it, and only
/// its last slash is not behind a colon.
pub open spec fn like_a_scheme(r: Seq<char>) -> bool {
    &&& r.len() > 0
    &&& forall|c: char| #[trigger] proxy_laws::borders_url(c) ==> text_laws::apart_from(c, r)
    &&& forall|k: int|
        0 <= k < r.len() - 1 && #[trigger] r[k] == '/' ==> k > 0 && r[k - 1] == ':'
}

/// Both schemes are of that kind.
pub proof fn schemes_are_alike()
    ensures
        like_a_scheme("https://"@),
        like_a_scheme("http://"@),
{
    reveal_strlit("https://");
    reveal_strlit("http://");
}

/// Where no URL is cut, a place of a scheme in the whole is a place in one of the parts.
pub proof fn clean_split(a: Seq<char>, b: Seq<char>, r: Seq<char>, p: int)
    requires
        like_a_scheme(r),
        ends_cleanly(a),
        text::occurs_at(a + b, r, p),
    ensures
        text::occurs_at(a, r, p) || text::occurs_at(b, r, p - a.len()),
{
    let t = a + b;
    let n = a.len() as int;
    let here = t.subrange(p, p + r.len());
    if p + r.len() <= n {
        assert(a.subrange(p, p + r.len()) =~= here);
    } else if p >= n {
        assert(b.subrange(p - n, p - n + r.len()) =~= here);
    } else {
        let k = n - 1 - p;
        assert(here[k] == a.last());
        assert(r[k] == a.last());
        if a.last() == '/' {
            assert(here[k - 1] == a[n - 2]);
        }
        assert(false);
    }
}

/// Tags that stand apart still do in the text cut off at its front.
pub proof fn suffix_stays_apart(s: Seq<char>, from: int, tag: Seq<char>)
    requires
        stands_apart(s, tag),
        0 <= from <= s.len(),
    ensures
        stands_apart(s.skip(from), tag),
{
    let t = s.skip(from);
    assert forall|p: int| #[trigger] text::occurs_at(t, tag, p) implies ends_cleanly(
        t.take(p),
    ) by {
        text_laws::suffix_place(s, from, tag, p);
        let whole = s.take(from + p);
        if p > 0 {
            assert(t.take(p).last() == whole.last());
            if p > 1 {
                assert(t.take(p)[p - 2] == whole[whole.len() - 2]);
            }
        }
    }
}

/// What goes on behind every scheme of two texts goes on in both together, where no URL is
/// cut.
pub proof fn joined_goes_on(
    a: Seq<char>,
    b: Seq<char>,
    r: Seq<char>,
    ok: spec_fn(Seq<char>) -> bool,
)
    requires
        like_a_scheme(r),
        ends_cleanly(a),
        text_laws::goes_on(a, r, ok),
        text_laws::goes_on(b, r, ok),
    ensures
        text_laws::goes_on(a + b, r, ok),
{
    let t = a + b;
    let n = a.len() as int;
    assert forall|p: int| #[trigger] text::occurs_at(t, r, p) implies text_laws::goes_on_at(
        t,
        r,
        p,
        ok,
    ) by {
        clean_split(a, b, r, p);
        if text::occurs_at(a, r, p) {
            assert(t.subrange(0, n) =~= a);
            text_laws::part_goes_on(t, 0, n, r, p, ok);
        } else {
            assert(t.subrange(n, t.len() as int) =~= b);
            text_laws::part_goes_on(t, n, t.len() as int, r, p - n, ok);
        }
    }
}

/// What goes on behind every scheme of a text goes on in the text up to a bracket.
pub proof fn front_goes_on(
    s: Seq<char>,
    n: int,
    k: int,
    r: Seq<char>,
    ok: spec_fn(Seq<char>) -> bool,
)
    requires
        like_a_scheme(r),
        text_laws::goes_on(s, r, ok),
        n - 1 <= k <= n,
        0 <= k < s.len(),
        proxy_laws::borders_url(s[k]),
        forall|h: Seq<char>| #[trigger] ok(h) ==> text_laws::apart_from(s[k], h),
    ensures
        text_laws::goes_on(s.take(n), r, ok),
{
    assert forall|p: int| #[trigger] text::occurs_at(s.take(n), r, p) implies
        text_laws::goes_on_at(s.take(n), r, p, ok) by {
        ends_in_front(s, n, k, r, p, ok);
    }
}

/// What goes on behind every scheme of a text goes on in the text cut off at its front.
pub proof fn tail_goes_on(s: Seq<char>, from: int, r: Seq<char>, ok: spec_fn(Seq<char>) -> bool)
    requires
        text_laws::goes_on(s, r, ok),
        0 <= from <= s.len(),
    ensures
        text_laws::goes_on(s.skip(from), r, ok),
{
    assert forall|p: int| #[trigger] text::occurs_at(s.skip(from), r, p) implies
        text_laws::goes_on_at(s.skip(from), r, p, ok) by {
        text_laws::suffix_place(s, from, r, p);
        text_laws::suffix_goes_on(s, from, r, p, ok);
    }
}

/// Dropping fast representations keeps what goes on behind a place, where no
/// angle bracket is part of it.
proof fn dropping_keeps_what_goes_on(
    s: Seq<char>,
    max_bps: u64,
    r: Seq<char>,
    ok: spec_fn(Seq<char>) -> bool,
)
    requires
        like_a_scheme(r),
        text_laws::goes_on(s, r, ok),
        representations_apart(s),
        forall|h: Seq<char>| #[trigger] ok(h) ==> text_laws::apart_from('<', h)
            && text_laws::apart_from('>', h),
    ensures
        text_laws::goes_on(mpd::within_bitrate(s, max_bps), r, ok),
    decreases s.len(),
{
    let pat = "<Representation"@;
    reveal_strlit("<Representation");
    text::find_is_first(s, pat, 0);
    mpd::representation_shrinks(s);
    let out = mpd::within_bitrate(s, max_bps);
    if text::find(s, pat) is Some {
        let i = text::find(s, pat)->0;
        let chunk = s.skip(i);
        text::find_is_first(chunk, seq!['>'], 0);
        assert(s[i] == s.subrange(i, i + pat.len())[0]);
        assert(proxy_laws::borders_url('<') && proxy_laws::borders_url('>'));
        if text::find_char(chunk, '>') is Some {
            let e = text::find_char(chunk, '>')->0;
            let opening = chunk.take(e + 1);
            let c = text::find(chunk, "</Representation>"@);
            text::find_is_first(chunk, "</Representation>"@, 0);
            assert(chunk.subrange(e, e + 1)[0] == s[i + e]);
            let kept = !mpd::too_fast(opening, max_bps);
            let empty = text::ends_with(opening, "/>"@);
            if kept || empty || c is Some {
                let n = if kept {
                    i + e + 1
                } else {
                    i
                };
                let from = if kept || empty {
                    i + e + 1
                } else {
                    i + c->0 + "</Representation>"@.len()
                };
                let x = s.take(n);
                let rest = s.skip(from);
                assert(rest =~= chunk.skip(from - i));
                assert(s.take(i) + opening =~= s.take(i + e + 1));
                let more = mpd::within_bitrate(rest, max_bps);
                assert(out =~= x + more);
                suffix_stays_apart(s, from, pat);
                tail_goes_on(s, from, r, ok);
                dropping_keeps_what_goes_on(rest, max_bps, r, ok);
                assert(ends_cleanly(x)) by {
                    if kept {
                        assert(x.last() == '>');
                    }
                }
                if kept {
                    front_goes_on(s, n, n - 1, r, ok);
                } else {
                    front_goes_on(s, n, n, r, ok);
                }
                joined_goes_on(x, more, r, ok);
            }
        }
    }
}

/// What starts with a representation after replacing did so before.
proof fn replacing_starts_none(s: Seq<char>, pat: Seq<char>, with: Seq<char>)
    requires
        with.len() > 0,
        with[0] == 'h',
        text::occurs_at(text::replace_all(s, pat, with), "<Representation"@, 0),
    ensures
        text::occurs_at(s, "<Representation"@, 0),
{
    let tag = "<Representation"@;
    reveal_strlit("<Representation");
    text::find_is_first(s, pat, 0);
    let out = text::replace_all(s, pat, with);
    if out != s {
        let i = text::find(s, pat)->0;
        if i < 15 {
            assert(out[i] == 'h');
            assert(out.subrange(0, 15)[i] == tag[i]);
        } else {
            assert(s.subrange(0, 15) =~= out.subrange(0, 15));
        }
    }
}

/// Replacing URLs leaves representations apart.
proof fn replacing_stays_apart(s: Seq<char>, pat: Seq<char>, with: Seq<char>)
    requires
        representations_apart(s),
        pat.len() > 1,
        with.len() > 1,
        ends_cleanly(pat) ==> ends_cleanly(with),
        with.last() != ':',
        with[0] == 'h',
        text_laws::apart_from('<', with),
    ensures
        representations_apart(text::replace_all(s, pat, with)),
    decreases s.len(),
{
    let tag = "<Representation"@;
    reveal_strlit("<Representation");
    text::find_is_first(s, pat, 0);
    if text::find(s, pat) is Some {
        let i = text::find(s, pat)->0;
        let cut = i + pat.len();
        let a = s.take(i);
        let tail = s.skip(cut);
        let rest = text::replace_all(tail, pat, with);
        let out = a + with + rest;
        let m = i + with.len();
        suffix_stays_apart(s, cut, tag);
        replacing_stays_apart(tail, pat, with);
        assert forall|p: int| #[trigger] text::occurs_at(out, tag, p) implies ends_cleanly(
            out.take(p),
        ) by {
            let here = out.subrange(p, p + 15);
            assert(here[0] == '<');
            if p < i {
                if p + 15 > i {
                    assert(here[i - p] == with[0]);
                    assert(tag[i - p] == 'h');
                }
                assert(s.subrange(p, p + 15) =~= here);
                assert(text::occurs_at(s, tag, p));
                assert(out.take(p) =~= s.take(p));
            } else if p < m {
                assert(with[p - i] == '<');
            } else {
                let q = p - m;
                let before = out.take(p);
                assert(rest.subrange(q, q + 15) =~= here);
                assert(text::occurs_at(rest, tag, q));
                if q == 0 {
                    replacing_starts_none(tail, pat, with);
                    text_laws::suffix_place(s, cut, tag, 0);
                    let whole = s.take(cut);
                    assert(whole.last() == s.subrange(i, cut)[pat.len() - 1]);
                    assert(whole[cut - 2] == s.subrange(i, cut)[pat.len() - 2]);
                    assert(ends_cleanly(pat));
                    assert(before.last() == with.last());
                    assert(before[p - 2] == with[with.len() - 2]);
                } else {
                    assert(before.last() == rest.take(q).last());
                    if q > 1 {
                        assert(before[p - 2] == rest.take(q)[q - 2]);
                    } else {
                        assert(before[p - 2] == with.last());
                    }
                }
            }
        }
    }
}

proof fn proxied_stays_apart(s: Seq<char>, port: u16)
    requires
        representations_apart(s),
    ensures
        representations_apart(mpd::proxied(s, proxy::proxy_base(port))),
{
    reveal_strlit("https://");
    reveal_strlit("http://");
    reveal_strlit("https/");
    reveal_strlit("http/");
    reveal_strlit("127.0.0.1");
    reveal_strlit(":");
    reveal_strlit("/cdn/");
    let base = proxy::proxy_base(port);
    let mid = proxy_laws::base_parts(port);
    let d = text::decimal(port as nat);
    text::decimal_reads_back(port as nat);
    assert forall|k: int| 0 <= k < mid.len() implies mid[k] != '<' by {
        if 10 <= k < 10 + d.len() {
            assert(mid[k] == d[k - 10]);
            assert(text::is_digit(d[k - 10]));
        }
    }
    let w1 = base + "https/"@;
    let w2 = base + "http/"@;
    let w3 = "http://"@ + "127.0.0.1"@;
    let p3 = base + "http/"@ + "127.0.0.1"@;
    assert(p3.last() == "127.0.0.1"@[8]);
    let s1 = text::replace_all(s, "https://"@, w1);
    let s2 = text::replace_all(s1, "http://"@, w2);
    assert forall|k: int| 0 <= k < w1.len() implies w1[k] != '<' by {
        if 7 <= k < 7 + mid.len() {
            assert(w1[k] == mid[k - 7]);
        }
    }
    assert forall|k: int| 0 <= k < w2.len() implies w2[k] != '<' by {
        if 7 <= k < 7 + mid.len() {
            assert(w2[k] == mid[k - 7]);
        }
    }
    replacing_stays_apart(s, "https://"@, w1);
    replacing_stays_apart(s1, "http://"@, w2);
    replacing_stays_apart(s2, p3, w3);
}

// ---------------------------------------------------------------------------
// What a player asks for
// ---------------------------------------------------------------------------

/// How much of a text belongs to the URL that it starts with.
pub open spec fn url_len(s: Seq<char>) -> int
    decreases s.len(),
{
    if s.len() == 0 || proxy_laws::borders_url(s[0]) {
        0
    } else {
        1 + url_len(s.drop_first())
    }
}

/// The path behind the base of the URL at `q`.
pub open spec fn path_at(t: Seq<char>, q: int, port: u16) -> Seq<char> {
    let behind = t.skip(q + proxy::proxy_base(port).len());
    behind.take(url_len(behind))
}

/// Scheme and host of a URL as they are written, the host in lower case.
pub open spec fn written_host(url: Seq<char>) -> Seq<char> {
    let lead = scheme(text::starts_with(url, "https://"@));
    let after = url.skip(lead.len() as int);
    lead + text::lower(after.take(mpd::host_len(after)))
}

/// Whether the URL at `q` is one of the proxy, and its path stands for a URL whose
/// host, as it is written, is one of `hosts`. Where the host that is read from the
/// URL is the one that is written, it passes the check.
pub open spec fn is_served(t: Seq<char>, q: int, port: u16, hosts: Set<Seq<char>>) -> bool {
    &&& text::occurs_at(t, proxy::proxy_base(port), q)
    &&& match mpd::cdn_url(path_at(t, q, port)) {
        Some(url) => {
            &&& hosts.contains(written_host(url))
            &&& proxy::scheme_host(proxy::url_parts(url)) == Some(written_host(url))
                ==> hosts.contains(proxy::scheme_host(proxy::url_parts(url))->0)
        },
        None => false,
    }
}

proof fn url_len_bounds(s: Seq<char>, n: int)
    requires
        0 <= n <= s.len(),
        forall|k: int| 0 <= k < n ==> !proxy_laws::borders_url(#[trigger] s[k]),
    ensures
        n <= url_len(s) <= s.len(),
    decreases s.len(),
{
    if s.len() > 0 && !proxy_laws::borders_url(s[0]) {
        let t = s.drop_first();
        let m = if n > 0 {
            n - 1
        } else {
            0
        };
        assert forall|k: int| 0 <= k < m implies !proxy_laws::borders_url(#[trigger] t[k]) by {
            assert(t[k] == s[k + 1]);
        }
        url_len_bounds(t, m);
    }
}

/// The host part ends before the slash.
proof fn host_ends_at(s: Seq<char>, n: int)
    requires
        0 <= n < s.len(),
        mpd::ends_host(s[n]),
        forall|k: int| 0 <= k < n ==> !mpd::ends_host(#[trigger] s[k]),
    ensures
        mpd::host_len(s) == n,
{
    mpd::host_len_bounds(s);
    if mpd::host_len(s) < n {
        assert(!mpd::ends_host(s[mpd::host_len(s)]));
    } else if mpd::host_len(s) > n {
        assert(!mpd::ends_host(s[n]));
    }
}

/// A path that names a host leads to it.
proof fn path_leads_to_host(b: Seq<char>, w: Seq<char>, secure: bool, hosts: Set<Seq<char>>)
    requires
        known_host(secure, hosts)(w),
        text::starts_with(
            b,
            (if secure {
                "https/"@
            } else {
                "http/"@
            }) + w,
        ),
    ensures
        mpd::cdn_url(b.take(url_len(b))) is Some,
        hosts.contains(written_host(mpd::cdn_url(b.take(url_len(b)))->0)),
{
    reveal_strlit("https/");
    reveal_strlit("http/");
    reveal_strlit("https://");
    reveal_strlit("http://");
    let lead = if secure {
        "https/"@
    } else {
        "http/"@
    };
    let all = lead + w;
    let n = all.len() as int;
    assert(b.take(n) == all);
    assert forall|k: int| 0 <= k < n implies !proxy_laws::borders_url(#[trigger] b[k]) by {
        assert(b.take(n)[k] == all[k]);
        if lead.len() <= k < n - 1 {
            assert(names_host(w[k - lead.len()]));
        }
    }
    url_len_bounds(b, n);
    let path = b.take(url_len(b));
    assert(path.take(lead.len() as int) =~= lead) by {
        assert forall|k: int| 0 <= k < lead.len() implies path[k] == lead[k] by {
            assert(b.take(n)[k] == all[k]);
        }
    }
    if !secure {
        assert(!text::starts_with(path, "https/"@)) by {
            assert(path.take(lead.len() as int)[4] == '/');
            if text::starts_with(path, "https/"@) {
                assert(path.take(6)[4] == 's');
            }
        }
    }
    let after = path.skip(lead.len() as int);
    let url = scheme(secure) + after;
    assert(mpd::cdn_url(path) == Some(url));
    let h = w.len() - 1;
    assert forall|k: int| 0 <= k < w.len() implies after[k] == w[k] by {
        assert(b.take(n)[lead.len() + k] == all[lead.len() + k]);
    }
    assert forall|k: int| 0 <= k < h implies !mpd::ends_host(#[trigger] after[k]) by {
        assert(names_host(w[k]));
    }
    host_ends_at(after, h as int);
    assert(after.take(h as int) =~= w.drop_last());
    assert(url.skip(scheme(secure).len() as int) =~= after);
    if secure {
        assert(url.take(8) =~= "https://"@);
    } else {
        assert(!text::starts_with(url, "https://"@)) by {
            assert(url[4] == ':');
            if text::starts_with(url, "https://"@) {
                assert(url.take(8)[4] == 's');
            }
        }
    }
}

proof fn named_url_is_served(
    t: Seq<char>,
    q: int,
    port: u16,
    mid: Seq<char>,
    hosts: Set<Seq<char>>,
)
    requires
        proxy::proxy_base(port) == "http://"@ + mid,
        text_laws::goes_on_at(t, "http://"@, q, in_the_end(mid, hosts)),
    ensures
        is_served(t, q, port, hosts),
{
    let r = "http://"@;
    let base = proxy::proxy_base(port);
    let h = choose|h: Seq<char>|
        in_the_end(mid, hosts)(h) && #[trigger] text::occurs_at(t, r + h, q);
    let secure = behind(mid + "https/"@, known_host(true, hosts))(h);
    let lead = if secure {
        "https/"@
    } else {
        "http/"@
    };
    let v = mid + lead;
    let w = h.skip(v.len() as int);
    assert(known_host(secure, hosts)(w));
    assert(h =~= v + w) by {
        assert(h.take(v.len() as int) == v);
        assert(h =~= h.take(v.len() as int) + w);
    }
    let whole = t.subrange(q, q + (r + h).len());
    assert(r + h =~= base + (lead + w));
    assert(t.subrange(q, q + base.len()) =~= base) by {
        assert forall|k: int| 0 <= k < base.len() implies t[q + k] == base[k] by {
            assert(whole[k] == (base + (lead + w))[k]);
        }
    }
    let b = t.skip(q + base.len());
    assert(b.take((lead + w).len() as int) =~= lead + w) by {
        assert forall|k: int| 0 <= k < (lead + w).len() implies b[k] == (lead + w)[k] by {
            assert(whole[base.len() + k] == (base + (lead + w))[base.len() + k]);
        }
    }
    path_leads_to_host(b, w, secure, hosts);
}

/// What a manifest that names known hosts becomes: there is no `https://` in it, and
/// each `http://` is that of a URL that the proxy serves.
proof fn rewritten_urls_are_served(s: Seq<char>, port: u16, hosts: Set<Seq<char>>, q: int)
    requires
        names_known_hosts(s, hosts),
        representations_apart(s),
    ensures
        ({
            let out = mpd::within_bitrate(
                mpd::proxied(s, proxy::proxy_base(port)),
                proxy::MAX_BITRATE,
            );
            &&& !text::occurs_at(out, "https://"@, q)
            &&& text::occurs_at(out, "http://"@, q) ==> is_served(out, q, port, hosts)
        }),
{
    reveal_strlit("https://");
    reveal_strlit("http://");
    reveal_strlit("https/");
    reveal_strlit("http/");
    let t = mpd::proxied(s, proxy::proxy_base(port));
    let mid = rewritten_urls_name_hosts(s, port, hosts);
    let ok = in_the_end(mid, hosts);
    let none = |h: Seq<char>| false;
    proxied_stays_apart(s, port);
    proxy_laws::only_this_machine_is_named(s, port);
    assert(text_laws::goes_on(t, "https://"@, none));
    assert forall|h: Seq<char>| #[trigger] ok(h) implies text_laws::apart_from('<', h)
        && text_laws::apart_from('>', h) by {
        let secure = behind(mid + "https/"@, known_host(true, hosts))(h);
        let lead = if secure {
            "https/"@
        } else {
            "http/"@
        };
        let v = mid + lead;
        let w = h.skip(v.len() as int);
        assert(known_host(secure, hosts)(w));
        assert(h.take(v.len() as int) == v);
        assert forall|k: int| 0 <= k < h.len() implies h[k] != '<' && h[k] != '>' by {
            if k < mid.len() {
                assert(h.take(v.len() as int)[k] == mid[k]);
            } else if k < v.len() {
                assert(h.take(v.len() as int)[k] == lead[k - mid.len()]);
            } else {
                assert(h[k] == w[k - v.len()]);
                if k < h.len() - 1 {
                    assert(names_host(w[k - v.len()]));
                }
            }
        }
    }
    dropping_keeps_what_goes_on(t, proxy::MAX_BITRATE, "https://"@, none);
    dropping_keeps_what_goes_on(t, proxy::MAX_BITRATE, "http://"@, ok);
    let out = mpd::within_bitrate(t, proxy::MAX_BITRATE);
    if text::occurs_at(out, "https://"@, q) {
        assert(text_laws::goes_on_at(out, "https://"@, q, none));
    }
    if text::occurs_at(out, "http://"@, q) {
        named_url_is_served(out, q, port, mid, hosts);
    }
}

// ---------------------------------------------------------------------------
// From the manifest that was fetched
// ---------------------------------------------------------------------------

/// Whether a host is written plainly.
pub open spec fn plainly(secure: bool) -> spec_fn(Seq<char>) -> bool {
    |h: Seq<char>| plain_host(h, secure)
}

/// Whether behind every scheme stands a plainly written host.
pub open spec fn names_plain_hosts(s: Seq<char>) -> bool {
    &&& text_laws::goes_on(s, "https://"@, plainly(true))
    &&& text_laws::goes_on(s, "http://"@, plainly(false))
}

/// The hosts that a manifest names plainly are the ones listed.
proof fn plain_hosts_are_listed(s: Seq<char>, secure: bool, hosts: Set<Seq<char>>)
    requires
        text_laws::goes_on(s, scheme(secure), plainly(secure)),
        mpd::hosts_behind(s, scheme(secure)).subset_of(hosts),
    ensures
        text_laws::goes_on(s, scheme(secure), known_host(secure, hosts)),
{
    reveal_strlit("https://");
    reveal_strlit("http://");
    let sc = scheme(secure);
    let n = sc.len() as int;
    let ok = plainly(secure);
    assert forall|p: int| #[trigger] text::occurs_at(s, sc, p) implies text_laws::goes_on_at(
        s,
        sc,
        p,
        known_host(secure, hosts),
    ) by {
        assert(text_laws::goes_on_at(s, sc, p, ok));
        let h = choose|h: Seq<char>| ok(h) && #[trigger] text::occurs_at(s, sc + h, p);
        let after = s.skip(p + n);
        let e = h.len() - 1;
        assert forall|k: int| 0 <= k < h.len() implies after[k] == h[k] by {
            assert(s.subrange(p, p + (sc + h).len())[n + k] == (sc + h)[n + k]);
        }
        assert forall|k: int| 0 <= k < e implies !mpd::ends_host(#[trigger] after[k]) by {
            assert(names_host(h[k]));
        }
        host_ends_at(after, e as int);
        assert(after.take(e as int) =~= h.drop_last());
        assert forall|q: int| 0 <= q < p && #[trigger] text::occurs_at(s, sc, q) implies exists|
            j: int,
        |
            q + n <= j < p && mpd::ends_host(#[trigger] s[j]) by {
            assert(text_laws::goes_on_at(s, sc, q, ok));
            let g = choose|g: Seq<char>| ok(g) && #[trigger] text::occurs_at(s, sc + g, q);
            let whole = s.subrange(q, q + (sc + g).len());
            let colon: int = if secure {
                5
            } else {
                4
            };
            host_is_clear(g, secure, sc, colon);
            assert(s.subrange(q + n, q + n + g.len()) =~= g) by {
                assert forall|k: int| 0 <= k < g.len() implies s[q + n + k] == g[k] by {
                    assert(whole[n + k] == (sc + g)[n + k]);
                }
            }
            if p < q + n {
                assert(s.subrange(p, p + n)[0] == sc[0]);
                assert(whole[p - q] == sc[p - q]);
            } else if p < q + n + g.len() {
                text_laws::no_place_inside(s, q + n, g, sc, p - q - n);
            }
            let j = q + n + g.len() - 1;
            assert(whole[n + g.len() - 1] == g[g.len() - 1]);
            assert(mpd::ends_host(s[j]));
        }
        proxy_laws::every_host_is_listed(s, sc, p);
        assert(known_host(secure, hosts)(h));
    }
}

/// Whether the template that is being read starts with its tag, and the value that
/// is kept of it is a plain one: no tag is in it, and it names known hosts only.
pub open spec fn template_is_plain(st: ScanView, manifest: Seq<char>, hosts: Set<Seq<char>>) -> bool {
    &&& match st.set.template_span {
        Some(span) => match text::index_at(manifest, span.0 as int) {
            Some(i) => i < manifest.len() && manifest[i] == '<',
            None => true,
        },
        None => true,
    }
    &&& match st.set.init_raw {
        Some(init) => names_known_hosts(init, hosts) && text_laws::apart_from('<', init),
        None => true,
    }
}

/// Whether that holds of every template that is read, from one event to the next.
pub open spec fn templates_are_plain(
    st: ScanView,
    manifest: Seq<char>,
    steps: Seq<XmlStepView>,
    hosts: Set<Seq<char>>,
) -> bool
    decreases steps.len(),
{
    st.stopped || steps.len() == 0 || {
        &&& template_is_plain(st, manifest, hosts)
        &&& templates_are_plain(
            numbers::scan_step(st, manifest, steps[0]),
            manifest,
            steps.drop_first(),
            hosts,
        )
    }
}

/// What the manifest is while it is being read.
spec fn so_far(st: ScanView, manifest: Seq<char>) -> Seq<char> {
    st.out + manifest.skip(st.copied)
}

/// A new template names no host but in the value that it keeps, and holds no other
/// tag.
proof fn template_parts(
    timescale: u64,
    init: Seq<char>,
    d: u64,
    start_number: int,
) -> (parts: (Seq<char>, Seq<char>))
    ensures
        numbers::number_template(timescale, init, d, start_number) == parts.0 + init + parts.1,
        parts.0.len() > 1,
        parts.0[0] == '<',
        parts.0[1] == 'S',
        forall|k: int| 0 <= k < parts.0.len() ==> #[trigger] parts.0[k] != 'h',
        forall|k: int| 0 < k < parts.0.len() ==> #[trigger] parts.0[k] != '<',
        parts.1.len() > 0,
        parts.1[0] == '"',
        parts.1.last() == '>',
        forall|k: int| 0 <= k < parts.1.len() ==> #[trigger] parts.1[k] != 'h' && parts.1[k] != '<',
{
    reveal_strlit("<SegmentTemplate timescale=\"");
    reveal_strlit("\" initialization=\"");
    reveal_strlit("\" media=\"/cdnnum/$RepresentationID$/$Number$\" duration=\"");
    reveal_strlit("\" startNumber=\"");
    reveal_strlit("\"/>");
    let a = "<SegmentTemplate timescale=\""@;
    let b = "\" initialization=\""@;
    let c = "\" media=\"/cdnnum/$RepresentationID$/$Number$\" duration=\""@;
    let e = "\" startNumber=\""@;
    let f = "\"/>"@;
    let x = text::decimal(timescale as nat);
    let y = text::decimal(d as nat);
    let z = text::decimal(start_number as nat);
    text::decimal_reads_back(timescale as nat);
    text::decimal_reads_back(d as nat);
    text::decimal_reads_back(start_number as nat);
    let front = a + x + b;
    let back = c + y + e + z + f;
    assert(numbers::number_template(timescale, init, d, start_number) =~= front + init + back);
    assert forall|k: int| 0 <= k < front.len() implies #[trigger] front[k] != 'h' && (k > 0
        ==> front[k] != '<') by {
        if a.len() <= k < a.len() + x.len() {
            assert(front[k] == x[k - a.len()]);
            assert(text::is_digit(x[k - a.len()]));
        }
    }
    assert forall|k: int| 0 <= k < back.len() implies #[trigger] back[k] != 'h' && back[k]
        != '<' by {
        let m = c.len() + y.len() + e.len();
        if c.len() <= k < c.len() + y.len() {
            assert(back[k] == y[k - c.len()]);
            assert(text::is_digit(y[k - c.len()]));
        } else if m <= k < m + z.len() {
            assert(back[k] == z[k - m]);
            assert(text::is_digit(z[k - m]));
        }
    }
    (front, back)
}

/// Behind every scheme in a new template goes on what goes on behind it in the value
/// that is kept.
proof fn template_goes_on(
    front: Seq<char>,
    init: Seq<char>,
    back: Seq<char>,
    r: Seq<char>,
    ok: spec_fn(Seq<char>) -> bool,
)
    requires
        forall|k: int| 0 <= k < front.len() ==> #[trigger] front[k] != 'h',
        forall|k: int| 0 <= k < back.len() ==> #[trigger] back[k] != 'h',
        back.len() > 0,
        back[0] == '"',
        r.len() > 0,
        r[0] == 'h',
        text_laws::apart_from('"', r),
        text_laws::goes_on(init, r, ok),
    ensures
        text_laws::goes_on(front + init + back, r, ok),
{
    let t = front + init + back;
    let n = front.len() as int;
    let m = n + init.len();
    assert forall|p: int| #[trigger] text::occurs_at(t, r, p) implies text_laws::goes_on_at(
        t,
        r,
        p,
        ok,
    ) by {
        let here = t.subrange(p, p + r.len());
        assert(here[0] == r[0]);
        if p < n {
            assert(front[p] == 'h');
        } else if p >= m {
            assert(back[p - m] == 'h');
        } else {
            if p + r.len() > m {
                assert(here[m - p] == back[0]);
                assert(r[m - p] == '"');
            }
            assert(init.subrange(p - n, p - n + r.len()) =~= here);
            assert(text::occurs_at(init, r, p - n));
            assert(t.subrange(n, m) =~= init);
            text_laws::part_goes_on(t, n, m, r, p - n, ok);
        }
    }
}

/// A place in two parts, the second of which starts with a character that is none of
/// the pattern's, is a place in one of them.
pub proof fn place_splits(a: Seq<char>, b: Seq<char>, pat: Seq<char>, p: int)
    requires
        b.len() > 0,
        pat.len() > 0,
        forall|k: int| 0 < k < pat.len() ==> #[trigger] pat[k] != b[0],
        text::occurs_at(a + b, pat, p),
    ensures
        text::occurs_at(a, pat, p) || text::occurs_at(b, pat, p - a.len()),
{
    let t = a + b;
    let n = a.len() as int;
    let here = t.subrange(p, p + pat.len());
    if p + pat.len() <= n {
        assert(a.subrange(p, p + pat.len()) =~= here);
    } else if p >= n {
        assert(b.subrange(p - n, p - n + pat.len()) =~= here);
    } else {
        assert(here[n - p] == b[0]);
        assert(pat[n - p] == b[0]);
    }
}

/// Putting a new template in keeps what goes on behind every scheme.
proof fn splicing_keeps_what_goes_on(
    cur: Seq<char>,
    n: int,
    template: Seq<char>,
    manifest: Seq<char>,
    j: int,
    r: Seq<char>,
    ok: spec_fn(Seq<char>) -> bool,
)
    requires
        0 <= n < cur.len(),
        cur[n] == '<',
        0 <= j <= manifest.len(),
        template.len() > 0,
        template[0] == '<',
        template.last() == '>',
        r.len() > 0,
        text_laws::apart_from('<', r),
        text_laws::apart_from('>', r),
        text_laws::goes_on(cur, r, ok),
        text_laws::goes_on(template, r, ok),
        text_laws::goes_on(manifest, r, ok),
        forall|h: Seq<char>| #[trigger] ok(h) ==> text_laws::apart_from('<', h),
    ensures
        text_laws::goes_on(cur.take(n) + template + manifest.skip(j), r, ok),
{
    let a = cur.take(n);
    let rest = manifest.skip(j);
    let b = template + rest;
    let t = a + template + rest;
    let m = n + template.len();
    assert(t =~= a + b);
    assert forall|p: int| #[trigger] text::occurs_at(t, r, p) implies text_laws::goes_on_at(
        t,
        r,
        p,
        ok,
    ) by {
        place_splits(a, b, r, p);
        if text::occurs_at(a, r, p) {
            ends_in_front(cur, n, n, r, p, ok);
            assert(t.subrange(0, n) =~= a);
            text_laws::part_goes_on(t, 0, n, r, p, ok);
        } else {
            text_laws::occurrence_splits(template, rest, r, p - n);
            if text::occurs_at(template, r, p - n) {
                assert(t.subrange(n, m) =~= template);
                text_laws::part_goes_on(t, n, m, r, p - n, ok);
            } else {
                text_laws::suffix_place(manifest, j, r, p - m);
                text_laws::suffix_goes_on(manifest, j, r, p - m, ok);
                assert(t.subrange(m, t.len() as int) =~= rest);
                text_laws::part_goes_on(t, m, t.len() as int, r, p - m, ok);
            }
        }
    }
}

/// Putting a new template in leaves representations apart.
proof fn splicing_stays_apart(
    cur: Seq<char>,
    n: int,
    template: Seq<char>,
    manifest: Seq<char>,
    j: int,
)
    requires
        0 <= n <= cur.len(),
        0 <= j <= manifest.len(),
        template.len() > 1,
        template[0] == '<',
        template[1] == 'S',
        forall|k: int| 0 < k < template.len() ==> #[trigger] template[k] != '<',
        template.last() == '>',
        representations_apart(cur),
        representations_apart(manifest),
    ensures
        representations_apart(cur.take(n) + template + manifest.skip(j)),
{
    let tag = "<Representation"@;
    reveal_strlit("<Representation");
    let a = cur.take(n);
    let rest = manifest.skip(j);
    let b = template + rest;
    let t = a + template + rest;
    let m = n + template.len();
    assert(t =~= a + b);
    assert forall|p: int| #[trigger] text::occurs_at(t, tag, p) implies ends_cleanly(
        t.take(p),
    ) by {
        place_splits(a, b, tag, p);
        if text::occurs_at(a, tag, p) {
            assert(cur.subrange(0, n) =~= a);
            text_laws::part_stands_in_the_whole(cur, 0, n, tag, p);
            assert(t.take(p) =~= cur.take(p));
        } else {
            text_laws::occurrence_splits(template, rest, tag, p - n);
            if text::occurs_at(template, tag, p - n) {
                let here = template.subrange(p - n, p - n + 15);
                assert(here[0] == '<');
                assert(here[1] == 'R');
            } else {
                let q = p - m;
                text_laws::suffix_place(manifest, j, tag, q);
                let whole = manifest.take(j + q);
                let before = t.take(p);
                if q == 0 {
                    assert(before.last() == template.last());
                } else {
                    assert(before.last() == whole.last());
                    if q > 1 {
                        assert(before[p - 2] == whole[whole.len() - 2]);
                    } else {
                        assert(before[p - 2] == template.last());
                    }
                }
            }
        }
    }
}

proof fn known_host_is_apart(secure: bool, hosts: Set<Seq<char>>, h: Seq<char>)
    requires
        known_host(secure, hosts)(h),
    ensures
        text_laws::apart_from('<', h),
{
    assert forall|k: int| 0 <= k < h.len() implies h[k] != '<' by {
        if k < h.len() - 1 {
            assert(names_host(h[k]));
        }
    }
}

/// The end of a set keeps that the manifest so far names known hosts, and that its
/// representations stand apart.
proof fn set_end_keeps_hosts(st: ScanView, manifest: Seq<char>, hosts: Set<Seq<char>>)
    requires
        0 <= st.copied <= manifest.len(),
        names_known_hosts(manifest, hosts),
        representations_apart(manifest),
        names_known_hosts(so_far(st, manifest), hosts),
        representations_apart(so_far(st, manifest)),
        template_is_plain(st, manifest, hosts),
    ensures
        ({
            let after = numbers::scan_set_end(st, manifest);
            &&& 0 <= after.copied <= manifest.len()
            &&& names_known_hosts(so_far(after, manifest), hosts)
            &&& representations_apart(so_far(after, manifest))
        }),
{
    reveal_strlit("https://");
    reveal_strlit("http://");
    let (nums, made) = numbers::set_template(st.set, st.base_url, st.numbers);
    let after = numbers::scan_set_end(st, manifest);
    if st.set.is_audio && made is Some && after.stopped == st.stopped {
        let template = made->0;
        let span = st.set.template_span->0;
        let at = text::index_at(manifest, span.0 as int);
        let to = text::index_at(manifest, span.1 as int);
        if at is Some && to is Some && st.copied <= at->0 <= to->0 {
            let i = at->0;
            let j = to->0;
            assert(text::is_offset(manifest, span.1 as int, j));
            let cur = so_far(st, manifest);
            let n = st.out.len() + i - st.copied;
            assert(cur[n] == manifest[i]);
            assert(cur.take(n) =~= st.out + manifest.subrange(st.copied, i));
            assert(so_far(after, manifest) =~= cur.take(n) + template + manifest.skip(j));
            let set = st.set;
            let (t, d) = numbers::single_run(set, st.base_url)->0;
            let number = nums.map[set.rep_ids[0]].number_of(t as int);
            let init = set.init_raw->0;
            let (front, back) = template_parts(set.timescale->0, init, d, number);
            assert(template == front + init + back);
            assert forall|k: int| 0 < k < template.len() implies #[trigger] template[k] != '<' by {
                if k < front.len() {
                    assert(template[k] == front[k]);
                } else if k < front.len() + init.len() {
                    assert(template[k] == init[k - front.len()]);
                } else {
                    assert(template[k] == back[k - front.len() - init.len()]);
                }
            }
            let tls = known_host(true, hosts);
            let clear = known_host(false, hosts);
            assert forall|h: Seq<char>| #[trigger] tls(h) implies text_laws::apart_from('<', h) by {
                known_host_is_apart(true, hosts, h);
            }
            assert forall|h: Seq<char>| #[trigger] clear(h) implies text_laws::apart_from(
                '<',
                h,
            ) by {
                known_host_is_apart(false, hosts, h);
            }
            template_goes_on(front, init, back, "https://"@, tls);
            template_goes_on(front, init, back, "http://"@, clear);
            splicing_keeps_what_goes_on(cur, n, template, manifest, j, "https://"@, tls);
            splicing_keeps_what_goes_on(cur, n, template, manifest, j, "http://"@, clear);
            splicing_stays_apart(cur, n, template, manifest, j);
        }
    }
}

/// Reading a manifest to its end keeps both.
proof fn reading_keeps_hosts(
    st: ScanView,
    manifest: Seq<char>,
    steps: Seq<XmlStepView>,
    hosts: Set<Seq<char>>,
)
    requires
        0 <= st.copied <= manifest.len(),
        names_known_hosts(manifest, hosts),
        representations_apart(manifest),
        names_known_hosts(so_far(st, manifest), hosts),
        representations_apart(so_far(st, manifest)),
        templates_are_plain(st, manifest, steps, hosts),
    ensures
        ({
            let text = numbers::scanned(numbers::scan(st, manifest, steps), manifest);
            names_known_hosts(text, hosts) && representations_apart(text)
        }),
    decreases steps.len(),
{
    if !st.stopped && steps.len() > 0 {
        let next = numbers::scan_step(st, manifest, steps[0]);
        set_end_keeps_hosts(st, manifest, hosts);
        reading_keeps_hosts(next, manifest, steps.drop_first(), hosts);
    }
}

/// A manifest that names its hosts plainly, when it has been rewritten: there is no
/// `https://` left in it, every URL is one of the proxy, and the path behind stands
/// for a URL whose host passes the check. The host that the manifest was fetched
/// from passes too.
pub proof fn every_url_of_a_manifest_is_served(
    absolute: Seq<char>,
    base_host: Option<Seq<char>>,
    steps: Seq<XmlStepView>,
    port: u16,
    st: NumbersView,
    q: int,
)
    requires
        names_plain_hosts(absolute),
        representations_apart(absolute),
        templates_are_plain(
            numbers::scan_start(st),
            absolute,
            steps,
            mpd::hosts_named(absolute),
        ),
    ensures
        ({
            let v = proxy::assembled(absolute, base_host, steps, port, st);
            &&& !text::occurs_at(v.text, "https://"@, q)
            &&& text::occurs_at(v.text, "http://"@, q) ==> is_served(v.text, q, port, v.hosts)
            &&& base_host is Some ==> v.hosts.contains(base_host->0)
        }),
{
    let named = mpd::hosts_named(absolute);
    let v = proxy::assembled(absolute, base_host, steps, port, st);
    let start = numbers::scan_start(st);
    assert(mpd::hosts_behind(absolute, "https://"@).subset_of(named));
    assert(mpd::hosts_behind(absolute, "http://"@).subset_of(named));
    plain_hosts_are_listed(absolute, true, named);
    plain_hosts_are_listed(absolute, false, named);
    assert(so_far(start, absolute) =~= absolute);
    reading_keeps_hosts(start, absolute, steps, named);
    let read = numbers::scanned(numbers::scan(start, absolute, steps), absolute);
    rewritten_urls_are_served(read, port, named, q);
}

} // verus!
