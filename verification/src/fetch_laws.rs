//! What holds of a manifest on its way from the network to the player: without content
//! protection, with absolute base URLs, and rewritten.

use crate::manifest_laws;
use crate::manifest_laws::{ends_cleanly, like_a_scheme, plainly, representations_apart, stands_apart};
use crate::mpd;
use crate::numbers;
use crate::numbers::NumbersView;
use crate::proxy;
use crate::proxy_laws;
use crate::text;
use crate::text_laws;
use crate::xml;
use vstd::prelude::*;

verus! {

/// Whether no quote, bracket or white space is part of what may go on.
spec fn unbordered(ok: spec_fn(Seq<char>) -> bool) -> bool {
    forall|h: Seq<char>, c: char|
        #![trigger ok(h), proxy_laws::borders_url(c)]
        ok(h) && proxy_laws::borders_url(c) ==> text_laws::apart_from(c, h)
}

proof fn plain_hosts_are_unbordered(secure: bool)
    ensures
        unbordered(plainly(secure)),
{
    let ok = plainly(secure);
    assert forall|h: Seq<char>, c: char|
        #![trigger ok(h), proxy_laws::borders_url(c)]
        ok(h) && proxy_laws::borders_url(c) implies text_laws::apart_from(c, h) by {
        assert forall|k: int| 0 <= k < h.len() implies h[k] != c by {
            if k < h.len() - 1 {
                assert(manifest_laws::names_host(h[k]));
            }
        }
    }
}

// ---------------------------------------------------------------------------
// Without content protection
// ---------------------------------------------------------------------------

/// Taking content protection out keeps what goes on behind every scheme.
proof fn unprotected_goes_on(s: Seq<char>, r: Seq<char>, ok: spec_fn(Seq<char>) -> bool)
    requires
        like_a_scheme(r),
        unbordered(ok),
        text_laws::goes_on(s, r, ok),
        stands_apart(s, "<ContentProtection"@),
    ensures
        text_laws::goes_on(mpd::unprotected(s), r, ok),
    decreases s.len(),
{
    let tag = "<ContentProtection"@;
    reveal_strlit("<ContentProtection");
    mpd::protection_shrinks(s);
    text::find_is_first(s, tag, 0);
    if text::find(s, tag) is Some {
        let i = text::find(s, tag)->0;
        let r0 = s.skip(i + tag.len());
        assert(s[i] == s.subrange(i, i + tag.len())[0]);
        assert(proxy_laws::borders_url(s[i]));
        manifest_laws::front_goes_on(s, i, i, r, ok);
        if mpd::protection_end(r0) is Some {
            let e = mpd::protection_end(r0)->0;
            let from = i + tag.len() + e;
            assert(r0.skip(e) =~= s.skip(from));
            manifest_laws::tail_goes_on(s, from, r, ok);
            manifest_laws::suffix_stays_apart(s, from, tag);
            unprotected_goes_on(s.skip(from), r, ok);
            manifest_laws::joined_goes_on(s.take(i), mpd::unprotected(s.skip(from)), r, ok);
        }
    }
}

/// Two texts in which tags stand apart, where no URL is cut between them.
proof fn joined_stays_apart(a: Seq<char>, b: Seq<char>, tag: Seq<char>)
    requires
        tag.len() > 0,
        ends_cleanly(a),
        a.len() > 0 ==> text_laws::apart_from(a.last(), tag),
        stands_apart(a, tag),
        stands_apart(b, tag),
    ensures
        stands_apart(a + b, tag),
{
    let t = a + b;
    let n = a.len() as int;
    assert forall|p: int| #[trigger] text::occurs_at(t, tag, p) implies ends_cleanly(
        t.take(p),
    ) by {
        text_laws::occurrence_splits(a, b, tag, p);
        let before = t.take(p);
        if text::occurs_at(a, tag, p) {
            assert(before =~= a.take(p));
        } else {
            let q = p - n;
            if q == 0 {
                assert(before =~= a);
            } else {
                assert(before.last() == b.take(q).last());
                if q > 1 {
                    assert(before[p - 2] == b.take(q)[q - 2]);
                } else if n > 0 {
                    assert(before[p - 2] == a.last());
                }
            }
        }
    }
}

/// What ends cleanly does not end inside the tag of a representation.
proof fn clean_end_is_apart(a: Seq<char>)
    requires
        ends_cleanly(a),
        a.len() > 0,
    ensures
        text_laws::apart_from(a.last(), "<Representation"@),
{
    reveal_strlit("<Representation");
}

/// The front of a text in which tags stand apart.
proof fn front_stays_apart(s: Seq<char>, n: int, tag: Seq<char>)
    requires
        stands_apart(s, tag),
        0 <= n <= s.len(),
    ensures
        stands_apart(s.take(n), tag),
{
    let a = s.take(n);
    assert(s.subrange(0, n) =~= a);
    assert forall|p: int| #[trigger] text::occurs_at(a, tag, p) implies ends_cleanly(
        a.take(p),
    ) by {
        text_laws::part_stands_in_the_whole(s, 0, n, tag, p);
        assert(a.take(p) =~= s.take(p));
    }
}

/// Taking content protection out leaves representations apart.
proof fn unprotected_stays_apart(s: Seq<char>)
    requires
        representations_apart(s),
        stands_apart(s, "<ContentProtection"@),
    ensures
        representations_apart(mpd::unprotected(s)),
    decreases s.len(),
{
    let tag = "<ContentProtection"@;
    reveal_strlit("<ContentProtection");
    reveal_strlit("<Representation");
    mpd::protection_shrinks(s);
    text::find_is_first(s, tag, 0);
    if text::find(s, tag) is Some {
        let i = text::find(s, tag)->0;
        let r0 = s.skip(i + tag.len());
        let a = s.take(i);
        front_stays_apart(s, i, "<Representation"@);
        if mpd::protection_end(r0) is Some {
            let e = mpd::protection_end(r0)->0;
            let from = i + tag.len() + e;
            assert(r0.skip(e) =~= s.skip(from));
            manifest_laws::suffix_stays_apart(s, from, tag);
            manifest_laws::suffix_stays_apart(s, from, "<Representation"@);
            unprotected_stays_apart(s.skip(from));
            if a.len() > 0 {
                clean_end_is_apart(a);
            }
            joined_stays_apart(a, mpd::unprotected(s.skip(from)), "<Representation"@);
        }
    }
}

// ---------------------------------------------------------------------------
// With absolute base URLs
// ---------------------------------------------------------------------------

/// Where a trimmed text lies in the text: behind it stands white space, or nothing.
proof fn trimmed_is_a_part(s: Seq<char>) -> (part: (int, int))
    ensures
        0 <= part.0 <= part.1 <= s.len(),
        text::trimmed(s) == s.subrange(part.0, part.1),
        part.1 < s.len() ==> text::is_white(s[part.1]),
{
    let u = trimmed_start_is_a_part(s);
    let t = text::trimmed_start(s);
    let v = trimmed_end_is_a_part(t);
    assert(t.take(v) =~= s.subrange(u, u + v));
    if v < t.len() {
        assert(t[v] == s[u + v]);
    }
    (u, u + v)
}

proof fn trimmed_start_is_a_part(s: Seq<char>) -> (u: int)
    ensures
        0 <= u <= s.len(),
        text::trimmed_start(s) == s.skip(u),
    decreases s.len(),
{
    if s.len() > 0 && text::is_white(s[0]) {
        let u = trimmed_start_is_a_part(s.drop_first());
        assert(s.drop_first().skip(u) =~= s.skip(u + 1));
        u + 1
    } else {
        assert(s.skip(0) =~= s);
        0
    }
}

proof fn trimmed_end_is_a_part(s: Seq<char>) -> (v: int)
    ensures
        0 <= v <= s.len(),
        text::trimmed_end(s) == s.take(v),
        v < s.len() ==> text::is_white(s[v]),
    decreases s.len(),
{
    if s.len() > 0 && text::is_white(s.last()) {
        let v = trimmed_end_is_a_part(s.drop_last());
        assert(s.drop_last().take(v) =~= s.take(v));
        v
    } else {
        assert(s.take(s.len() as int) =~= s);
        s.len() as int
    }
}

/// Whether a directory can stand in front of a path: it ends with a slash that is not behind
/// a colon, and holds no tag.
pub open spec fn plain_dir(dir: Seq<char>) -> bool {
    &&& dir.len() > 1
    &&& dir.last() == '/'
    &&& dir[dir.len() - 2] != ':'
    &&& text_laws::apart_from('<', dir)
}

/// What the content of a `BaseURL` element becomes: what goes on behind every scheme of the
/// content and of the directory goes on there.
proof fn base_goes_on(content: Seq<char>, dir: Seq<char>, r: Seq<char>, ok: spec_fn(Seq<char>) -> bool)
    requires
        like_a_scheme(r),
        plain_dir(dir),
        text_laws::goes_on(content, r, ok),
        text_laws::goes_on(dir, r, ok),
    ensures
        text_laws::goes_on(mpd::resolved_base(content, dir), r, ok),
{
    manifest_laws::joined_goes_on(dir, content, r, ok);
}

/// The closing tag of a `BaseURL` element, and what follows it.
proof fn closing_goes_on(
    a: Seq<char>,
    more: Seq<char>,
    r: Seq<char>,
    ok: spec_fn(Seq<char>) -> bool,
)
    requires
        like_a_scheme(r),
        r[0] == 'h',
        text_laws::goes_on(a, r, ok),
        text_laws::goes_on(more, r, ok),
    ensures
        text_laws::goes_on(a + "</BaseURL>"@ + more, r, ok),
{
    reveal_strlit("</BaseURL>");
    let l = "</BaseURL>"@;
    let b = l + more;
    let t = a + l + more;
    let n = a.len() as int;
    assert(t =~= a + b);
    assert(proxy_laws::borders_url('<'));
    assert forall|p: int| #[trigger] text::occurs_at(l, r, p) implies text_laws::goes_on_at(
        l,
        r,
        p,
        ok,
    ) by {
        assert(l.subrange(p, p + r.len())[0] == 'h');
    }
    assert(l.last() == '>');
    manifest_laws::joined_goes_on(l, more, r, ok);
    assert forall|p: int| #[trigger] text::occurs_at(t, r, p) implies text_laws::goes_on_at(
        t,
        r,
        p,
        ok,
    ) by {
        manifest_laws::place_splits(a, b, r, p);
        if text::occurs_at(a, r, p) {
            assert(t.subrange(0, n) =~= a);
            text_laws::part_goes_on(t, 0, n, r, p, ok);
        } else {
            assert(t.subrange(n, t.len() as int) =~= b);
            text_laws::part_goes_on(t, n, t.len() as int, r, p - n, ok);
        }
    }
}

/// Resolving base URLs keeps what goes on behind every scheme.
proof fn resolved_goes_on(
    s: Seq<char>,
    dir: Seq<char>,
    r: Seq<char>,
    ok: spec_fn(Seq<char>) -> bool,
)
    requires
        like_a_scheme(r),
        r[0] == 'h',
        unbordered(ok),
        plain_dir(dir),
        text_laws::goes_on(dir, r, ok),
        text_laws::goes_on(s, r, ok),
    ensures
        text_laws::goes_on(mpd::resolved(s, dir), r, ok),
    decreases s.len(),
{
    reveal_strlit("</BaseURL>");
    let close = "</BaseURL>"@;
    mpd::base_url_shrinks(s);
    text::find_is_first(s, "<BaseURL"@, 0);
    if text::find(s, "<BaseURL"@) is Some {
        let i = text::find(s, "<BaseURL"@)->0;
        let tag = s.skip(i);
        text::find_is_first(tag, seq!['>'], 0);
        if text::find_char(tag, '>') is Some {
            let e = text::find_char(tag, '>')->0;
            let r0 = tag.skip(e + 1);
            text::find_is_first(r0, close, 0);
            if text::find(r0, close) is Some {
                let c = text::find(r0, close)->0;
                let n = i + e + 1;
                let raw = r0.take(c);
                let (u, v) = trimmed_is_a_part(raw);
                let content = text::trimmed(raw);
                let from = n + c + close.len();
                let front = s.take(n);
                assert(tag.subrange(e, e + 1)[0] == s[n - 1]);
                assert(r0.subrange(c, c + close.len())[0] == s[n + c]);
                assert(proxy_laws::borders_url('<') && proxy_laws::borders_url('>'));
                if v < raw.len() {
                    assert(raw[v] == s[n + v]);
                }
                assert(proxy_laws::borders_url(s[n + v]));
                manifest_laws::front_goes_on(s, n + v, n + v, r, ok);
                manifest_laws::tail_goes_on(s.take(n + v), n + u, r, ok);
                assert(s.take(n + v).skip(n + u) =~= content);
                manifest_laws::front_goes_on(s, n, n - 1, r, ok);
                base_goes_on(content, dir, r, ok);
                let base = mpd::resolved_base(content, dir);
                assert(front.last() == '>');
                manifest_laws::joined_goes_on(front, base, r, ok);
                let rest = s.skip(from);
                assert(r0.skip(c + close.len()) =~= rest);
                manifest_laws::tail_goes_on(s, from, r, ok);
                resolved_goes_on(rest, dir, r, ok);
                let more = mpd::resolved(rest, dir);
                closing_goes_on(front + base, more, r, ok);
                assert(s.take(i) + tag.take(e + 1) =~= front);
                assert(mpd::resolved(s, dir) =~= front + base + close + more);
            }
        }
    }
}

/// The closing tag of a `BaseURL` element, and what follows it, leave representations apart.
proof fn closing_stays_apart(a: Seq<char>, more: Seq<char>)
    requires
        representations_apart(a),
        representations_apart(more),
    ensures
        representations_apart(a + "</BaseURL>"@ + more),
{
    reveal_strlit("</BaseURL>");
    reveal_strlit("<Representation");
    let tag = "<Representation"@;
    let l = "</BaseURL>"@;
    let al = a + l;
    assert(al.last() == '>');
    assert forall|p: int| #[trigger] text::occurs_at(al, tag, p) implies ends_cleanly(
        al.take(p),
    ) by {
        manifest_laws::place_splits(a, l, tag, p);
        if text::occurs_at(a, tag, p) {
            assert(al.take(p) =~= a.take(p));
        } else {
            let q = p - a.len();
            assert(l.subrange(q, q + 15)[0] == '<');
        }
    }
    clean_end_is_apart(al);
    joined_stays_apart(al, more, tag);
}

/// Resolving base URLs leaves representations apart.
proof fn resolved_stays_apart(s: Seq<char>, dir: Seq<char>)
    requires
        plain_dir(dir),
        representations_apart(s),
    ensures
        representations_apart(mpd::resolved(s, dir)),
    decreases s.len(),
{
    reveal_strlit("</BaseURL>");
    reveal_strlit("<Representation");
    let rep = "<Representation"@;
    let close = "</BaseURL>"@;
    mpd::base_url_shrinks(s);
    text::find_is_first(s, "<BaseURL"@, 0);
    if text::find(s, "<BaseURL"@) is Some {
        let i = text::find(s, "<BaseURL"@)->0;
        let tag = s.skip(i);
        text::find_is_first(tag, seq!['>'], 0);
        if text::find_char(tag, '>') is Some {
            let e = text::find_char(tag, '>')->0;
            let r0 = tag.skip(e + 1);
            text::find_is_first(r0, close, 0);
            if text::find(r0, close) is Some {
                let c = text::find(r0, close)->0;
                let n = i + e + 1;
                let raw = r0.take(c);
                let (u, v) = trimmed_is_a_part(raw);
                let content = text::trimmed(raw);
                let from = n + c + close.len();
                let front = s.take(n);
                assert(tag.subrange(e, e + 1)[0] == s[n - 1]);
                assert(front.last() == '>');
                front_stays_apart(s, n + v, rep);
                manifest_laws::suffix_stays_apart(s.take(n + v), n + u, rep);
                assert(s.take(n + v).skip(n + u) =~= content);
                front_stays_apart(s, n, rep);
                assert forall|p: int| #[trigger] text::occurs_at(dir, rep, p) implies
                    ends_cleanly(dir.take(p)) by {
                    assert(dir.subrange(p, p + 15)[0] == '<');
                }
                clean_end_is_apart(dir);
                joined_stays_apart(dir, content, rep);
                let base = mpd::resolved_base(content, dir);
                clean_end_is_apart(front);
                joined_stays_apart(front, base, rep);
                let rest = s.skip(from);
                assert(r0.skip(c + close.len()) =~= rest);
                manifest_laws::suffix_stays_apart(s, from, rep);
                resolved_stays_apart(rest, dir);
                let more = mpd::resolved(rest, dir);
                closing_stays_apart(front + base, more);
                assert(s.take(i) + tag.take(e + 1) =~= front);
                assert(mpd::resolved(s, dir) =~= front + base + close + more);
            }
        }
    }
}

// ---------------------------------------------------------------------------
// From the network to the player
// ---------------------------------------------------------------------------

/// Whether a URL is one that a manifest can be fetched from: it starts with a scheme, names
/// hosts plainly and holds no tag, and its directory does not end behind a colon.
pub open spec fn plain_fetch_url(url: Seq<char>) -> bool {
    &&& text::starts_with(url, "https://"@) || text::starts_with(url, "http://"@)
    &&& manifest_laws::names_plain_hosts(url)
    &&& text_laws::apart_from('<', url)
    &&& !text::ends_with(mpd::url_dir(url), ":/"@)
}

/// The last slash is the one behind which there is none.
proof fn last_slash(s: Seq<char>) -> (l: int)
    requires
        exists|i: int| 0 <= i < s.len() && #[trigger] s[i] == '/',
    ensures
        0 <= l < s.len(),
        s[l] == '/',
        forall|j: int| l < j < s.len() ==> s[j] != '/',
        text::rfind_char(s, '/') == Some(l),
    decreases s.len(),
{
    if s.last() == '/' {
        s.len() - 1
    } else {
        let i = choose|i: int| 0 <= i < s.len() && #[trigger] s[i] == '/';
        assert(s.drop_last()[i] == '/');
        let front = s.drop_last();
        let l = last_slash(front);
        assert forall|j: int| l < j < s.len() implies s[j] != '/' by {
            if j < front.len() {
                assert(front[j] == s[j]);
            }
        }
        l
    }
}

/// The directory of a URL names the hosts that the URL names.
proof fn dir_goes_on(url: Seq<char>, l: int, r: Seq<char>, secure: bool)
    requires
        text_laws::goes_on(url, r, plainly(secure)),
        0 <= l < url.len(),
        forall|j: int| l < j < url.len() ==> url[j] != '/',
    ensures
        text_laws::goes_on(url.take(l + 1), r, plainly(secure)),
{
    let dir = url.take(l + 1);
    let ok = plainly(secure);
    assert(url.subrange(0, l + 1) =~= dir);
    assert forall|p: int| #[trigger] text::occurs_at(dir, r, p) implies text_laws::goes_on_at(
        dir,
        r,
        p,
        ok,
    ) by {
        text_laws::part_stands_in_the_whole(url, 0, l + 1, r, p);
        let h = choose|h: Seq<char>| ok(h) && #[trigger] text::occurs_at(url, r + h, p);
        let e = p + (r + h).len();
        assert(url.subrange(p, e)[e - 1 - p] == (r + h).last());
        assert(url[e - 1] == '/');
        assert(dir.subrange(p, e) =~= url.subrange(p, e));
        assert(text::occurs_at(dir, r + h, p));
    }
}

/// The directory of a URL that a manifest can be fetched from.
proof fn dir_is_plain(url: Seq<char>)
    requires
        plain_fetch_url(url),
    ensures
        plain_dir(mpd::url_dir(url)),
        manifest_laws::names_plain_hosts(mpd::url_dir(url)),
{
    reveal_strlit("https://");
    reveal_strlit("http://");
    reveal_strlit(":/");
    let secure = text::starts_with(url, "https://"@);
    let sc = manifest_laws::scheme(secure);
    let n = sc.len() as int;
    assert(url.subrange(0, n) =~= url.take(n));
    assert(text::occurs_at(url, sc, 0));
    assert(url.take(n)[n - 1] == url[n - 1]);
    let l = last_slash(url);
    let dir = url.take(l + 1);
    assert(mpd::url_dir(url) == dir);
    assert(n - 1 <= l);
    dir_goes_on(url, l, "https://"@, true);
    dir_goes_on(url, l, "http://"@, false);
    if dir[dir.len() - 2] == ':' {
        assert(dir.skip(dir.len() - 2) =~= ":/"@);
    }
}

/// A manifest that names its hosts plainly, fetched from a URL that does: without content
/// protection, and with absolute base URLs, it still does, and its representations still
/// stand apart.
pub proof fn absolute_manifest_names_plain_hosts(mpd: Seq<char>, base_url: Seq<char>)
    requires
        manifest_laws::names_plain_hosts(mpd),
        plain_fetch_url(base_url),
        stands_apart(mpd, "<ContentProtection"@),
    ensures
        manifest_laws::names_plain_hosts(proxy::absolute_mpd(mpd, base_url)),
        representations_apart(mpd) ==> representations_apart(proxy::absolute_mpd(mpd, base_url)),
{
    reveal_strlit("https://");
    reveal_strlit("http://");
    let dir = mpd::url_dir(base_url);
    let clear = mpd::unprotected(mpd);
    manifest_laws::schemes_are_alike();
    plain_hosts_are_unbordered(true);
    plain_hosts_are_unbordered(false);
    dir_is_plain(base_url);
    unprotected_goes_on(mpd, "https://"@, plainly(true));
    unprotected_goes_on(mpd, "http://"@, plainly(false));
    resolved_goes_on(clear, dir, "https://"@, plainly(true));
    resolved_goes_on(clear, dir, "http://"@, plainly(false));
    if representations_apart(mpd) {
        unprotected_stays_apart(mpd);
        resolved_stays_apart(clear, dir);
    }
}

/// A manifest that names its hosts plainly, fetched from a URL that does, no URL of which is
/// cut in front of an element that may be dropped, when it has been rewritten: there is no
/// `https://` left in it, every URL is one of the proxy, and the path behind stands for a URL
/// whose host passes the check. The host that the manifest was fetched from passes too.
pub proof fn every_url_of_a_fetched_manifest_is_served(
    mpd: Seq<char>,
    base_url: Seq<char>,
    port: u16,
    st: NumbersView,
    q: int,
)
    requires
        manifest_laws::names_plain_hosts(mpd),
        plain_fetch_url(base_url),
        stands_apart(mpd, "<ContentProtection"@),
        representations_apart(mpd),
    ensures
        ({
            let absolute = proxy::absolute_mpd(mpd, base_url);
            let v = proxy::rewritten(mpd, base_url, port, st);
            manifest_laws::templates_are_plain(
                numbers::scan_start(st),
                absolute,
                xml::document_events(absolute),
                mpd::hosts_named(absolute),
            ) ==> {
                &&& !text::occurs_at(v.text, "https://"@, q)
                &&& text::occurs_at(v.text, "http://"@, q) ==> manifest_laws::is_served(
                    v.text,
                    q,
                    port,
                    v.hosts,
                )
            }
        }),
        proxy::scheme_host(proxy::url_parts(base_url)) is Some ==> proxy::rewritten(
            mpd,
            base_url,
            port,
            st,
        ).hosts.contains(proxy::scheme_host(proxy::url_parts(base_url))->0),
{
    let absolute = proxy::absolute_mpd(mpd, base_url);
    let steps = xml::document_events(absolute);
    absolute_manifest_names_plain_hosts(mpd, base_url);
    if manifest_laws::templates_are_plain(
        numbers::scan_start(st),
        absolute,
        steps,
        mpd::hosts_named(absolute),
    ) {
        manifest_laws::every_url_of_a_manifest_is_served(
            absolute,
            proxy::scheme_host(proxy::url_parts(base_url)),
            steps,
            port,
            st,
            q,
        );
    }
}

} // verus!
