//! What the steps that rewrite a manifest make of the elements in it.

use crate::mpd;
use crate::text;
use crate::text_laws;
use vstd::prelude::*;

verus! {

/// Where a pattern first stands in a text: behind a part without it that it cannot start in.
pub proof fn found_behind(a: Seq<char>, pat: Seq<char>, b: Seq<char>)
    requires
        pat.len() > 0,
        !text::contains(a, pat),
        forall|k: int| 0 < k < pat.len() ==> #[trigger] pat[k] != pat[0],
    ensures
        text::find(a + pat + b, pat) == Some(a.len() as int),
{
    let s = a + pat + b;
    let n = a.len() as int;
    assert(s.subrange(n, n + pat.len()) =~= pat);
    assert forall|j: int| 0 <= j < n implies !text::occurs_at(s, pat, j) by {
        if text::occurs_at(s, pat, j) {
            let here = s.subrange(j, j + pat.len());
            if j + pat.len() <= n {
                assert(a.subrange(j, j + pat.len()) =~= here);
                assert(text::occurs_at(a, pat, j));
            } else {
                assert(here[n - j] == pat[0]);
                assert(pat[n - j] == pat[0]);
            }
        }
    }
    text_laws::find_at(s, pat, n);
}

// ---------------------------------------------------------------------------
// Content protection
// ---------------------------------------------------------------------------

/// A `ContentProtection` element with content: `lead` is the text before its first tag.
pub open spec fn protection_element(
    attrs: Seq<char>,
    lead: Seq<char>,
    body: Seq<char>,
) -> Seq<char> {
    "<ContentProtection"@ + attrs + ">"@ + lead + body + "</ContentProtection>"@
}

/// What stands outside `ContentProtection` elements is kept: one with content goes as a
/// whole, and no more.
#[verifier::rlimit(80)]
#[verifier::spinoff_prover]
pub proof fn protection_element_goes_alone(
    a: Seq<char>,
    attrs: Seq<char>,
    lead: Seq<char>,
    body: Seq<char>,
    b: Seq<char>,
)
    requires
        !text::contains(a, "<ContentProtection"@),
        text_laws::apart_from('<', attrs),
        text_laws::apart_from('>', attrs),
        attrs.len() > 0 ==> attrs.last() != '/',
        text_laws::apart_from('<', lead),
        text_laws::apart_from('>', lead),
        body.len() > 0 ==> body[0] == '<',
        !text::contains(body, "</ContentProtection>"@),
    ensures
        mpd::unprotected(a + protection_element(attrs, lead, body) + b) == a + mpd::unprotected(b),
{
    reveal_strlit("<ContentProtection");
    reveal_strlit("</ContentProtection>");
    reveal_strlit(">");
    reveal_strlit("/>");
    let open = "<ContentProtection"@;
    let close = "</ContentProtection>"@;
    let s = a + protection_element(attrs, lead, body) + b;
    let front = attrs + ">"@ + lead;
    let r = front + body + close + b;
    let n = a.len() as int;
    assert(s =~= a + open + r);
    found_behind(a, open, r);
    assert(s.skip(n + open.len()) =~= r);
    assert(s.take(n) =~= a);
    // the closing tag
    let inner = front + body;
    assert(!text::contains(inner, close)) by {
        if text::contains(inner, close) {
            let j = choose|j: int| text::occurs_at(inner, close, j);
            let here = inner.subrange(j, j + close.len());
            assert(here[0] == '<');
            if j < front.len() {
                assert(inner[j] == front[j]);
                if j < attrs.len() {
                    assert(front[j] == attrs[j]);
                } else if j > attrs.len() {
                    assert(front[j] == lead[j - attrs.len() - 1]);
                }
            } else {
                let q = j - front.len();
                assert(body.subrange(q, q + close.len()) =~= here);
                assert(text::occurs_at(body, close, q));
            }
        }
    }
    found_behind(inner, close, b);
    let c = inner.len() as int;
    assert(r =~= inner + close + b);
    // the first tag inside
    let l = front.len() as int;
    assert(r[l] == '<') by {
        if body.len() > 0 {
            assert(r[l] == body[0]);
        } else {
            assert(r[l] == close[0]);
        }
    }
    assert forall|j: int| 0 <= j < l implies r[j] != '<' && (r[j] == '>' ==> j == attrs.len()) by {
        assert(r[j] == front[j]);
        if j < attrs.len() {
            assert(front[j] == attrs[j]);
        } else if j > attrs.len() {
            assert(front[j] == lead[j - attrs.len() - 1]);
        }
    }
    text_laws::find_char_at(r, '<', l);
    text::find_is_first(r, "/>"@, 0);
    if let Some(e) = text::find(r, "/>"@) {
        let here = r.subrange(e, e + 2);
        assert(here[0] == '/' && here[1] == '>');
        assert(r[e] == '/' && r[e + 1] == '>');
        if e < l {
            if e + 1 < l {
                assert(e + 1 == attrs.len());
                assert(attrs.last() == front[e]);
            }
        }
        assert(l < e);
    }
    assert(mpd::protection_end(r) == Some(c + close.len()));
    assert(r.skip(c + close.len()) =~= b);
}

/// One without content goes as a whole, and no more.
pub proof fn empty_protection_element_goes_alone(a: Seq<char>, attrs: Seq<char>, b: Seq<char>)
    requires
        !text::contains(a, "<ContentProtection"@),
        text_laws::apart_from('<', attrs),
        text_laws::apart_from('>', attrs),
    ensures
        mpd::unprotected(a + ("<ContentProtection"@ + attrs + "/>"@) + b) == a + mpd::unprotected(
            b,
        ),
{
    reveal_strlit("<ContentProtection");
    reveal_strlit("</ContentProtection>");
    reveal_strlit("/>");
    let open = "<ContentProtection"@;
    let s = a + (open + attrs + "/>"@) + b;
    let r = attrs + "/>"@ + b;
    let n = a.len() as int;
    let e = attrs.len() as int;
    assert(s =~= a + open + r);
    found_behind(a, open, r);
    assert(s.skip(n + open.len()) =~= r);
    assert(s.take(n) =~= a);
    assert(!text::contains(attrs, "/>"@)) by {
        if text::contains(attrs, "/>"@) {
            let j = choose|j: int| text::occurs_at(attrs, "/>"@, j);
            assert(attrs.subrange(j, j + 2)[1] == '>');
        }
    }
    found_behind(attrs, "/>"@, b);
    text::find_is_first(r, seq!['<'], 0);
    if let Some(l) = text::find_char(r, '<') {
        assert(r.subrange(l, l + 1)[0] == '<');
        assert(r[l] == '<');
        if l < e {
            assert(r[l] == attrs[l]);
        } else if l == e {
            assert(r[l] == '/');
        }
    }
    assert(mpd::protection_end(r) == Some(e + 2));
    assert(r.skip(e + 2) =~= b);
}

// ---------------------------------------------------------------------------
// Base URLs
// ---------------------------------------------------------------------------

/// The directory of a URL is what stands before its last part, with the slash.
pub proof fn directory_goes_up_to_the_last_slash(dir: Seq<char>, file: Seq<char>)
    requires
        text_laws::apart_from('/', file),
    ensures
        mpd::url_dir(dir + "/"@ + file) == dir + "/"@,
{
    reveal_strlit("/");
    let u = dir + "/"@ + file;
    let n = dir.len() as int;
    assert(u[n] == '/');
    assert forall|j: int| n < j < u.len() implies u[j] != '/' by {
        assert(u[j] == file[j - n - 1]);
    }
    text_laws::rfind_char_at(u, '/', n);
    assert(u.take(n + 1) =~= dir + "/"@);
}

/// Whether a text is white space.
pub open spec fn is_blank(s: Seq<char>) -> bool {
    forall|i: int| 0 <= i < s.len() ==> text::is_white(#[trigger] s[i])
}

/// White space around a text that has none at its ends is cut off.
pub proof fn blanks_are_cut_off(w: Seq<char>, x: Seq<char>, v: Seq<char>)
    requires
        is_blank(w),
        is_blank(v),
        x.len() > 0 ==> !text::is_white(x[0]) && !text::is_white(x.last()),
    ensures
        text::trimmed(w + x + v) == x,
    decreases w.len() + v.len(),
{
    let s = w + x + v;
    if w.len() > 0 {
        let t = w.drop_first();
        assert(text::is_white(w[0]));
        assert(s[0] == w[0]);
        assert(s.drop_first() =~= t + x + v);
        assert forall|i: int| 0 <= i < t.len() implies text::is_white(#[trigger] t[i]) by {
            assert(t[i] == w[i + 1]);
        }
        blanks_are_cut_off(t, x, v);
    } else if x.len() == 0 {
        assert(s =~= v);
        if v.len() > 0 {
            let t = v.drop_first();
            assert(text::is_white(v[0]));
            assert forall|i: int| 0 <= i < t.len() implies text::is_white(#[trigger] t[i]) by {
                assert(t[i] == v[i + 1]);
            }
            assert(s.drop_first() =~= w + x + t);
            blanks_are_cut_off(w, x, t);
        } else {
            assert(s =~= x);
        }
    } else {
        assert(s =~= x + v);
        assert(s[0] == x[0]);
        assert(text::trimmed_start(s) == s);
        end_is_cut_off(x, v);
    }
}

proof fn end_is_cut_off(x: Seq<char>, v: Seq<char>)
    requires
        is_blank(v),
        x.len() > 0,
        !text::is_white(x.last()),
    ensures
        text::trimmed_end(x + v) == x,
    decreases v.len(),
{
    if v.len() > 0 {
        let t = v.drop_last();
        assert(text::is_white(v[v.len() - 1]));
        assert((x + v).last() == v.last());
        assert((x + v).drop_last() =~= x + t);
        assert forall|i: int| 0 <= i < t.len() implies text::is_white(#[trigger] t[i]) by {
            assert(t[i] == v[i]);
        }
        end_is_cut_off(x, t);
    } else {
        assert(x + v =~= x);
    }
}

/// Whether a base URL needs no directory: it is empty, or starts with a scheme.
pub open spec fn is_absolute(x: Seq<char>) -> bool {
    ||| x.len() == 0
    ||| exists|rest: Seq<char>| x == "http://"@ + rest
    ||| exists|rest: Seq<char>| x == "https://"@ + rest
}

/// A URL is absolute where it is empty or has a scheme as its prefix.
pub proof fn absolute_by_prefix(url: Seq<char>)
    ensures
        is_absolute(url) == (url.len() == 0 || text::starts_with(url, "http://"@)
            || text::starts_with(url, "https://"@)),
{
    reveal_strlit("http://");
    reveal_strlit("https://");
    if text::starts_with(url, "http://"@) {
        assert(url =~= "http://"@ + url.skip(7));
    }
    if text::starts_with(url, "https://"@) {
        assert(url =~= "https://"@ + url.skip(8));
    }
    if exists|rest: Seq<char>| url == "http://"@ + rest {
        let rest = choose|rest: Seq<char>| url == "http://"@ + rest;
        assert(url.take(7) =~= "http://"@);
    }
    if exists|rest: Seq<char>| url == "https://"@ + rest {
        let rest = choose|rest: Seq<char>| url == "https://"@ + rest;
        assert(url.take(8) =~= "https://"@);
    }
}

/// A `BaseURL` element gets the directory in front of a relative URL, and loses the white
/// space around it; all else stays as it is, and what follows is resolved on its own.
#[verifier::rlimit(80)]
#[verifier::spinoff_prover]
pub proof fn base_url_is_resolved(
    a: Seq<char>,
    attrs: Seq<char>,
    w: Seq<char>,
    url: Seq<char>,
    v: Seq<char>,
    b: Seq<char>,
    dir: Seq<char>,
)
    requires
        !text::contains(a, "<BaseURL"@),
        text_laws::apart_from('>', attrs),
        is_blank(w),
        is_blank(v),
        url.len() > 0 ==> !text::is_white(url[0]) && !text::is_white(url.last()),
        text_laws::apart_from('<', url),
    ensures
        mpd::resolved(
            a + ("<BaseURL"@ + attrs + ">"@) + (w + url + v) + "</BaseURL>"@ + b,
            dir,
        ) == a + ("<BaseURL"@ + attrs + ">"@) + (if is_absolute(url) {
            url
        } else {
            dir + url
        }) + "</BaseURL>"@ + mpd::resolved(b, dir),
{
    reveal_strlit("<BaseURL");
    reveal_strlit("</BaseURL>");
    reveal_strlit(">");
    reveal_strlit("http://");
    reveal_strlit("https://");
    let open = "<BaseURL"@;
    let close = "</BaseURL>"@;
    let content = w + url + v;
    let s = a + (open + attrs + ">"@) + content + close + b;
    let n = a.len() as int;
    let behind = attrs + ">"@ + content + close + b;
    assert(s =~= a + open + behind);
    found_behind(a, open, behind);
    let tag = s.skip(n);
    let e = open.len() + attrs.len() as int;
    assert(tag =~= open + behind);
    assert(tag[e] == '>');
    assert forall|j: int| 0 <= j < e implies tag[j] != '>' by {
        if j >= open.len() {
            assert(tag[j] == attrs[j - open.len()]);
        }
    }
    text_laws::find_char_at(tag, '>', e);
    let r = tag.skip(e + 1);
    assert(r =~= content + close + b);
    assert(!text::contains(content, close)) by {
        if text::contains(content, close) {
            let j = choose|j: int| text::occurs_at(content, close, j);
            assert(content.subrange(j, j + close.len())[0] == '<');
            assert(content[j] == '<');
            if j < w.len() {
                assert(text::is_white(w[j]));
            } else if j < w.len() + url.len() {
                assert(content[j] == url[j - w.len()]);
            } else {
                assert(content[j] == v[j - w.len() - url.len()]);
                assert(text::is_white(v[j - w.len() - url.len()]));
            }
        }
    }
    found_behind(content, close, b);
    let c = content.len() as int;
    assert(r.take(c) =~= content);
    assert(r.skip(c + close.len()) =~= b);
    blanks_are_cut_off(w, url, v);
    absolute_by_prefix(url);
    let base = mpd::resolved_base(url, dir);
    let more = mpd::resolved(b, dir);
    assert(s.take(n) =~= a);
    assert(tag.take(e + 1) =~= open + attrs + ">"@);
    assert(mpd::resolved(s, dir) == s.take(n) + tag.take(e + 1) + base + close + more);
}

// ---------------------------------------------------------------------------
// Scheme
// ---------------------------------------------------------------------------

/// A manifest names the scheme `cbcs` exactly where it holds `value="cbcs"`, with either
/// quote and in any case; otherwise it is `cenc`.
pub proof fn scheme_is_named_in_any_case(s: Seq<char>)
    ensures
        mpd::scheme_named(s) == 2 <==> exists|a: Seq<char>, v: Seq<char>, b: Seq<char>|
            s == #[trigger] (a + v + b) && (text::lower(v) == "value=\"cbcs\""@ || text::lower(v)
                == "value='cbcs'"@),
        mpd::scheme_named(s) == 1 || mpd::scheme_named(s) == 2,
{
    let one = "value=\"cbcs\""@;
    let two = "value='cbcs'"@;
    let low = text::lower(s);
    if text::contains(low, one) {
        let p = choose|p: int| text::occurs_at(low, one, p);
        named_at(s, one, p);
    }
    if text::contains(low, two) {
        let p = choose|p: int| text::occurs_at(low, two, p);
        named_at(s, two, p);
    }
    if exists|a: Seq<char>, v: Seq<char>, b: Seq<char>|
        s == #[trigger] (a + v + b) && (text::lower(v) == one || text::lower(v) == two) {
        let (a, v, b) = choose|a: Seq<char>, v: Seq<char>, b: Seq<char>|
            s == #[trigger] (a + v + b) && (text::lower(v) == one || text::lower(v) == two);
        let p = a.len() as int;
        assert(low.subrange(p, p + v.len()) =~= text::lower(v));
        if text::lower(v) == one {
            assert(text::occurs_at(low, one, p));
        } else {
            assert(text::occurs_at(low, two, p));
        }
    }
}

proof fn named_at(s: Seq<char>, pat: Seq<char>, p: int)
    requires
        text::occurs_at(text::lower(s), pat, p),
    ensures
        ({
            let a = s.take(p);
            let v = s.subrange(p, p + pat.len());
            let b = s.skip(p + pat.len());
            s == a + v + b && text::lower(v) == pat
        }),
{
    let v = s.subrange(p, p + pat.len());
    assert(s =~= s.take(p) + v + s.skip(p + pat.len()));
    assert(text::lower(v) =~= text::lower(s).subrange(p, p + pat.len()));
}

// ---------------------------------------------------------------------------
// Hosts
// ---------------------------------------------------------------------------

/// A host that is listed stands behind a scheme somewhere, up to a slash, a quote, a bracket
/// or white space, or up to the end.
pub proof fn listed_hosts_are_named(s: Seq<char>, scheme: Seq<char>, host: Seq<char>) -> (p: int)
    requires
        scheme.len() > 0,
        mpd::hosts_behind(s, scheme).contains(host),
    ensures
        text::occurs_at(s, scheme, p),
        mpd::host_len(s.skip(p + scheme.len())) > 0,
        host == scheme + text::lower(
            s.skip(p + scheme.len()).take(mpd::host_len(s.skip(p + scheme.len()))),
        ),
    decreases s.len(),
{
    text::find_is_first(s, scheme, 0);
    let i = text::find(s, scheme)->0;
    let after = s.skip(i + scheme.len());
    let n = mpd::host_len(after);
    mpd::host_len_bounds(after);
    if n > 0 && host == scheme + text::lower(after.take(n)) {
        i
    } else {
        let from = i + scheme.len() + n;
        assert(after.skip(n) =~= s.skip(from));
        let q = listed_hosts_are_named(s.skip(from), scheme, host);
        text_laws::suffix_place(s, from, scheme, q);
        assert(s.skip(from).skip(q + scheme.len()) =~= s.skip(from + q + scheme.len()));
        from + q
    }
}

// ---------------------------------------------------------------------------
// Bandwidth
// ---------------------------------------------------------------------------

/// The inside of a tag that names a bandwidth.
pub open spec fn with_bandwidth(x: Seq<char>, bps: u64, y: Seq<char>) -> Seq<char> {
    x + "bandwidth=\""@ + text::decimal(bps as nat) + "\""@ + y
}

proof fn bandwidth_is_read(x: Seq<char>, bps: u64, y: Seq<char>)
    requires
        !text::contains(x, "bandwidth=\""@),
    ensures
        mpd::bandwidth_of(with_bandwidth(x, bps, y)) == Some(bps),
{
    reveal_strlit("bandwidth=\"");
    reveal_strlit("\"");
    let pat = "bandwidth=\""@;
    let d = text::decimal(bps as nat);
    let s = with_bandwidth(x, bps, y);
    let rest = d + "\""@ + y;
    assert(s =~= x + pat + rest);
    found_behind(x, pat, rest);
    let after = s.skip(x.len() + pat.len() as int);
    assert(after =~= rest);
    text::decimal_reads_back(bps as nat);
    assert forall|j: int| 0 <= j < d.len() implies after[j] != '"' by {
        assert(after[j] == d[j]);
        assert(text::is_digit(d[j]));
    }
    assert(after[d.len() as int] == '"');
    text_laws::find_char_at(after, '"', d.len() as int);
    assert(after.take(d.len() as int) =~= d);
}

proof fn no_bracket_inside(x: Seq<char>, bps: u64, y: Seq<char>, c: char)
    requires
        c == '<' || c == '>',
        text_laws::apart_from(c, x),
        text_laws::apart_from(c, y),
    ensures
        text_laws::apart_from(c, with_bandwidth(x, bps, y)),
{
    reveal_strlit("bandwidth=\"");
    reveal_strlit("\"");
    let pat = "bandwidth=\""@;
    let d = text::decimal(bps as nat);
    let s = with_bandwidth(x, bps, y);
    text::decimal_reads_back(bps as nat);
    let n = x.len() as int;
    let m = n + pat.len();
    let k = m + d.len();
    assert forall|j: int| 0 <= j < s.len() implies #[trigger] s[j] != c by {
        if j < n {
            assert(s[j] == x[j]);
        } else if j < m {
            assert(s[j] == pat[j - n]);
        } else if j < k {
            assert(s[j] == d[j - m]);
            assert(text::is_digit(d[j - m]));
        } else if j == k {
            assert(s[j] == '"');
        } else {
            assert(s[j] == y[j - k - 1]);
        }
    }
}

/// The opening tag of a representation is read up to its bracket, and its bandwidth with it.
proof fn opening_tag_is_read(x: Seq<char>, bps: u64, y: Seq<char>, rest: Seq<char>)
    requires
        !text::contains("<Representation"@ + x, "bandwidth=\""@),
        text_laws::apart_from('<', x),
        text_laws::apart_from('>', x),
        text_laws::apart_from('<', y),
        text_laws::apart_from('>', y),
        y.len() > 0 ==> y.last() != '/',
    ensures
        ({
            let tag = "<Representation"@ + with_bandwidth(x, bps, y) + ">"@;
            &&& text::find_char(tag + rest, '>') == Some(tag.len() - 1)
            &&& (tag + rest).take(tag.len() as int) == tag
            &&& (tag + rest).skip(tag.len() as int) == rest
            &&& mpd::bandwidth_of(tag) == Some(bps)
            &&& !text::ends_with(tag, "/>"@)
        }),
{
    reveal_strlit("<Representation");
    reveal_strlit("\"");
    reveal_strlit(">");
    reveal_strlit("/>");
    let open = "<Representation"@;
    let inside = with_bandwidth(x, bps, y);
    let tag = open + inside + ">"@;
    let chunk = tag + rest;
    let m = open.len() as int;
    let e = tag.len() - 1;
    no_bracket_inside(x, bps, y, '>');
    assert forall|j: int| 0 <= j < e implies chunk[j] != '>' by {
        assert(chunk[j] == tag[j]);
        if j < m {
            assert(tag[j] == open[j]);
        } else {
            assert(tag[j] == inside[j - m]);
        }
    }
    assert(chunk[e as int] == '>');
    text_laws::find_char_at(chunk, '>', e as int);
    assert(chunk.take(tag.len() as int) =~= tag);
    assert(chunk.skip(tag.len() as int) =~= rest);
    assert(tag =~= with_bandwidth(open + x, bps, y + ">"@));
    bandwidth_is_read(open + x, bps, y + ">"@);
    if text::ends_with(tag, "/>"@) {
        assert(tag.skip(tag.len() - 2)[0] == '/');
        assert(tag[tag.len() - 2] == inside.last());
        if y.len() > 0 {
            assert(inside.last() == y.last());
        } else {
            assert(inside.last() == '"');
        }
    }
}

/// A representation's opening tag holds no part of a closing one.
proof fn tag_does_not_close(x: Seq<char>, bps: u64, y: Seq<char>, body: Seq<char>)
    requires
        text_laws::apart_from('<', x),
        text_laws::apart_from('<', y),
        !text::contains(body, "</Representation>"@),
    ensures
        !text::contains(
            "<Representation"@ + with_bandwidth(x, bps, y) + ">"@ + body,
            "</Representation>"@,
        ),
{
    reveal_strlit("<Representation");
    reveal_strlit("</Representation>");
    reveal_strlit(">");
    let open = "<Representation"@;
    let close = "</Representation>"@;
    let inside = with_bandwidth(x, bps, y);
    let tag = open + inside + ">"@;
    let inner = tag + body;
    let m = open.len() as int;
    no_bracket_inside(x, bps, y, '<');
    if text::contains(inner, close) {
        let j = choose|j: int| text::occurs_at(inner, close, j);
        let here = inner.subrange(j, j + close.len());
        assert(here[0] == '<' && here[1] == '/');
        if j < tag.len() {
            assert(inner[j] == tag[j]);
            if j == 0 {
                assert(inner[1] == open[1]);
            } else if j < m {
                assert(tag[j] == open[j]);
            } else if j < tag.len() - 1 {
                assert(tag[j] == inside[j - m]);
            }
        } else {
            let q = j - tag.len();
            assert(body.subrange(q, q + close.len()) =~= here);
            assert(text::occurs_at(body, close, q));
        }
    }
}

/// A representation over the limit goes, with all that it holds, and nothing else; one that
/// is not keeps its tag.
#[verifier::rlimit(80)]
#[verifier::spinoff_prover]
pub proof fn representation_goes_alone(
    a: Seq<char>,
    x: Seq<char>,
    bps: u64,
    y: Seq<char>,
    body: Seq<char>,
    b: Seq<char>,
    max_bps: u64,
)
    requires
        !text::contains(a, "<Representation"@),
        !text::contains("<Representation"@ + x, "bandwidth=\""@),
        text_laws::apart_from('<', x),
        text_laws::apart_from('>', x),
        text_laws::apart_from('<', y),
        text_laws::apart_from('>', y),
        y.len() > 0 ==> y.last() != '/',
        !text::contains(body, "</Representation>"@),
    ensures
        ({
            let tag = "<Representation"@ + with_bandwidth(x, bps, y) + ">"@;
            let close = "</Representation>"@;
            mpd::within_bitrate(a + tag + body + close + b, max_bps) == if bps > max_bps {
                a + mpd::within_bitrate(b, max_bps)
            } else {
                a + tag + mpd::within_bitrate(body + close + b, max_bps)
            }
        }),
{
    reveal_strlit("<Representation");
    reveal_strlit("</Representation>");
    reveal_strlit("bandwidth=\"");
    reveal_strlit("\"");
    reveal_strlit(">");
    reveal_strlit("/>");
    let open = "<Representation"@;
    let close = "</Representation>"@;
    let inside = with_bandwidth(x, bps, y);
    let tag = open + inside + ">"@;
    let s = a + tag + body + close + b;
    let n = a.len() as int;
    let behind = inside + ">"@ + body + close + b;
    assert(s =~= a + open + behind);
    found_behind(a, open, behind);
    let chunk = s.skip(n);
    assert(chunk =~= tag + body + close + b);
    opening_tag_is_read(x, bps, y, body + close + b);
    assert(chunk =~= tag + (body + close + b));
    let e = tag.len() - 1;
    let rest = body + close + b;
    assert(chunk.skip(e + 1) =~= rest);
    let inner = tag + body;
    tag_does_not_close(x, bps, y, body);
    found_behind(inner, close, b);
    let c = inner.len() as int;
    assert(chunk =~= inner + close + b);
    assert(chunk.skip(c + close.len()) =~= b);
    assert(s.take(n) =~= a);
}

// ---------------------------------------------------------------------------
// URLs
// ---------------------------------------------------------------------------

/// A path without a scheme stands for no URL.
pub proof fn path_needs_a_scheme(path: Seq<char>)
    requires
        path.len() < 5 || path[0] != 'h' || (path[4] != '/' && path[4] != 's'),
    ensures
        mpd::cdn_url(path) is None,
{
    reveal_strlit("https/");
    reveal_strlit("http/");
    if text::starts_with(path, "https/"@) {
        assert(path.take(6)[0] == 'h' && path.take(6)[4] == 's');
    }
    if text::starts_with(path, "http/"@) {
        assert(path.take(5)[0] == 'h' && path.take(5)[4] == '/');
    }
}

/// A media URL that does not end in a number, or has another ending, has no init segment.
#[verifier::rlimit(80)]
#[verifier::spinoff_prover]
pub proof fn only_numbered_segments_have_an_init_url(stem: Seq<char>, tail: Seq<char>, k: int)
    requires
        text_laws::apart_from('?', stem),
        text_laws::apart_from('?', tail),
        text_laws::apart_from('-', tail),
    ensures
        tail.len() == 0 ==> mpd::init_url(stem + "-"@ + tail + ".dash"@) is None,
        0 <= k < tail.len() && !text::is_digit(tail[k]) ==> mpd::init_url(
            stem + "-"@ + tail + ".dash"@,
        ) is None,
        mpd::init_url(tail + ".dash"@) is None,
        tail.len() >= 5 && tail.last() != 'h' ==> mpd::init_url(stem + "-"@ + tail) is None,
{
    reveal_strlit("-");
    reveal_strlit(".dash");
    let s = stem + "-"@ + tail;
    let n = stem.len() as int;
    assert(s[n] == '-');
    assert forall|j: int| n < j < s.len() implies s[j] != '-' by {
        assert(s[j] == tail[j - n - 1]);
    }
    text_laws::rfind_char_at(s, '-', n);
    assert(s.skip(n + 1) =~= tail);
    let url = s + ".dash"@;
    assert forall|j: int| 0 <= j < url.len() implies url[j] != '?' by {
        if j < n {
            assert(url[j] == stem[j]);
        } else if n < j < s.len() {
            assert(url[j] == tail[j - n - 1]);
        } else if j >= s.len() {
            assert(url[j] == ".dash"@[j - s.len()]);
        }
    }
    no_query(url);
    assert(url.take(url.len() - 5) =~= s);
    let short = tail + ".dash"@;
    assert forall|j: int| 0 <= j < short.len() implies short[j] != '?' by {
        if j < tail.len() {
            assert(short[j] == tail[j]);
        } else {
            assert(short[j] == ".dash"@[j - tail.len()]);
        }
    }
    no_query(short);
    assert(short.take(short.len() - 5) =~= tail);
    no_hyphen(tail);
    assert forall|j: int| 0 <= j < s.len() implies s[j] != '?' by {
        assert(s[j] == url[j]);
    }
    no_query(s);
    if tail.len() >= 5 && text::ends_with(s, ".dash"@) {
        assert(s.skip(s.len() - 5)[4] == 'h');
        assert(s.last() == tail.last());
    }
}

proof fn no_query(url: Seq<char>)
    requires
        forall|j: int| 0 <= j < url.len() ==> url[j] != '?',
    ensures
        text::find_char(url, '?') is None,
{
    text::find_is_first(url, seq!['?'], 0);
    if let Some(q) = text::find_char(url, '?') {
        assert(url.subrange(q, q + 1)[0] == '?');
    }
}

proof fn no_hyphen(s: Seq<char>)
    requires
        text_laws::apart_from('-', s),
    ensures
        text::rfind_char(s, '-') is None,
    decreases s.len(),
{
    if s.len() > 0 {
        assert(s[s.len() - 1] != '-');
        no_hyphen(s.drop_last());
    }
}

// ---------------------------------------------------------------------------
// Elements that do not end
// ---------------------------------------------------------------------------

/// A `ContentProtection` element that does not end takes all that follows with it.
pub proof fn open_protection_takes_the_rest(a: Seq<char>, b: Seq<char>)
    requires
        !text::contains(a, "<ContentProtection"@),
        !text::contains(b, "/>"@),
        !text::contains(b, "</ContentProtection>"@),
    ensures
        mpd::unprotected(a + "<ContentProtection"@ + b) == a,
{
    reveal_strlit("<ContentProtection");
    let open = "<ContentProtection"@;
    let s = a + open + b;
    found_behind(a, open, b);
    assert(s.skip(a.len() + open.len() as int) =~= b);
    text::found_iff_contained(b, "/>"@);
    text::found_iff_contained(b, "</ContentProtection>"@);
    assert(s.take(a.len() as int) =~= a);
}

/// A `BaseURL` element that does not end stays as it is, with all that follows.
pub proof fn open_base_url_stays(a: Seq<char>, b: Seq<char>, dir: Seq<char>)
    requires
        !text::contains(a, "<BaseURL"@),
        !text::contains(b, "</BaseURL>"@),
    ensures
        mpd::resolved(a + "<BaseURL"@ + b, dir) == a + "<BaseURL"@ + b,
        mpd::resolved(a, dir) == a,
{
    reveal_strlit("<BaseURL");
    reveal_strlit("</BaseURL>");
    let open = "<BaseURL"@;
    let close = "</BaseURL>"@;
    let s = a + open + b;
    let n = a.len() as int;
    text::found_iff_contained(a, open);
    found_behind(a, open, b);
    let tag = s.skip(n);
    assert(tag =~= open + b);
    text::find_is_first(tag, seq!['>'], 0);
    if let Some(e) = text::find_char(tag, '>') {
        assert(tag.subrange(e, e + 1)[0] == '>');
        let m = open.len() as int;
        if e < m {
            assert(tag[e] == open[e]);
        }
        let r = tag.skip(e + 1);
        assert(!text::contains(r, close)) by {
            if text::contains(r, close) {
                let p = choose|p: int| text::occurs_at(r, close, p);
                let q = p + e + 1 - m;
                assert(b.subrange(q, q + close.len()) =~= r.subrange(p, p + close.len()));
                assert(text::occurs_at(b, close, q));
            }
        }
        text::found_iff_contained(r, close);
    }
}

/// A representation without content goes alone too, where it is over the limit.
pub proof fn empty_representation_goes_alone(
    a: Seq<char>,
    x: Seq<char>,
    bps: u64,
    y: Seq<char>,
    b: Seq<char>,
    max_bps: u64,
)
    requires
        !text::contains(a, "<Representation"@),
        !text::contains("<Representation"@ + x, "bandwidth=\""@),
        text_laws::apart_from('>', x),
        text_laws::apart_from('>', y),
    ensures
        ({
            let tag = "<Representation"@ + with_bandwidth(x, bps, y) + "/>"@;
            mpd::within_bitrate(a + tag + b, max_bps) == if bps > max_bps {
                a + mpd::within_bitrate(b, max_bps)
            } else {
                a + tag + mpd::within_bitrate(b, max_bps)
            }
        }),
{
    reveal_strlit("<Representation");
    reveal_strlit("/>");
    let open = "<Representation"@;
    let inside = with_bandwidth(x, bps, y);
    let tag = open + inside + "/>"@;
    let s = a + tag + b;
    let n = a.len() as int;
    assert(s =~= a + open + (inside + "/>"@ + b));
    found_behind(a, open, inside + "/>"@ + b);
    let chunk = s.skip(n);
    assert(chunk =~= tag + b);
    let m = open.len() as int;
    let e = tag.len() - 1;
    no_bracket_inside(x, bps, y, '>');
    assert forall|j: int| 0 <= j < e implies chunk[j] != '>' by {
        assert(chunk[j] == tag[j]);
        if j < m {
            assert(tag[j] == open[j]);
        } else if j < e - 1 {
            assert(tag[j] == inside[j - m]);
        }
    }
    assert(chunk[e as int] == '>');
    text_laws::find_char_at(chunk, '>', e as int);
    assert(chunk.take(e + 1) =~= tag);
    assert(chunk.skip(e + 1) =~= b);
    assert(tag =~= with_bandwidth(open + x, bps, y + "/>"@));
    bandwidth_is_read(open + x, bps, y + "/>"@);
    assert(tag.skip(tag.len() - 2) =~= "/>"@);
    assert(s.take(n) =~= a);
}

/// A tag without a bandwidth, or with one that is not closed or no number, names none.
pub proof fn other_tags_name_no_bandwidth(x: Seq<char>, value: Seq<char>, y: Seq<char>)
    requires
        !text::contains(x, "bandwidth=\""@),
        text_laws::apart_from('"', value),
    ensures
        mpd::bandwidth_of(x) is None,
        mpd::bandwidth_of(x + "bandwidth=\""@ + value) is None,
        text::u64_value(value) is None ==> mpd::bandwidth_of(
            x + "bandwidth=\""@ + (value + "\""@ + y),
        ) is None,
{
    reveal_strlit("bandwidth=\"");
    reveal_strlit("\"");
    let pat = "bandwidth=\""@;
    text::found_iff_contained(x, pat);
    let n = x.len() + pat.len() as int;
    found_behind(x, pat, value);
    assert((x + pat + value).skip(n) =~= value);
    text::find_is_first(value, seq!['"'], 0);
    if let Some(q) = text::find_char(value, '"') {
        assert(value.subrange(q, q + 1)[0] == '"');
    }
    let rest = value + "\""@ + y;
    found_behind(x, pat, rest);
    assert((x + pat + rest).skip(n) =~= rest);
    let e = value.len() as int;
    assert(rest[e] == '"');
    assert forall|j: int| 0 <= j < e implies rest[j] != '"' by {
        assert(rest[j] == value[j]);
    }
    text_laws::find_char_at(rest, '"', e);
    assert(rest.take(e) =~= value);
}

/// Whether a text can be the host of a URL in a manifest, with or without a port.
pub open spec fn is_host(h: Seq<char>) -> bool {
    &&& h.len() > 0
    &&& forall|i: int|
        0 <= i < h.len() ==> {
            &&& #[trigger] h[i] != '/'
            &&& h[i] != '"'
            &&& h[i] != '\''
            &&& h[i] != '<'
            &&& h[i] != '>'
            &&& !text::is_white(h[i])
        }
}

/// The host of a URL is listed whole, in lower case: up to a slash, a quote, a bracket, white
/// space or the end; and what follows is searched on its own.
pub proof fn host_is_listed_whole(
    a: Seq<char>,
    scheme: Seq<char>,
    host: Seq<char>,
    c: char,
    b: Seq<char>,
)
    requires
        scheme.len() > 0,
        !text::contains(a, scheme),
        a.len() > 0 ==> text_laws::apart_from(a.last(), scheme),
        is_host(host),
        c == '/' || c == '"' || c == '\'' || c == '<' || c == '>' || text::is_white(c),
    ensures
        mpd::hosts_behind(a + scheme + host + seq![c] + b, scheme) == mpd::hosts_behind(
            seq![c] + b,
            scheme,
        ).insert(scheme + text::lower(host)),
        mpd::hosts_behind(a + scheme + host, scheme) == set![scheme + text::lower(host)],
{
    let tail = seq![c] + b;
    let none = Seq::<char>::empty();
    host_at(a, scheme, host, tail);
    host_at(a, scheme, host, none);
    assert(a + scheme + host + tail =~= a + scheme + host + seq![c] + b);
    assert(a + scheme + host + none =~= a + scheme + host);
    text::find_is_first(none, scheme, 0);
    assert(mpd::hosts_behind(none, scheme) =~= Set::empty());
    assert(mpd::hosts_behind(a + scheme + host, scheme) =~= set![scheme + text::lower(host)]);
}

proof fn host_at(a: Seq<char>, scheme: Seq<char>, host: Seq<char>, tail: Seq<char>)
    requires
        scheme.len() > 0,
        !text::contains(a, scheme),
        a.len() > 0 ==> text_laws::apart_from(a.last(), scheme),
        is_host(host),
        tail.len() > 0 ==> mpd::ends_host(tail[0]),
    ensures
        mpd::hosts_behind(a + scheme + host + tail, scheme) == mpd::hosts_behind(
            tail,
            scheme,
        ).insert(scheme + text::lower(host)),
{
    let rest = scheme + host + tail;
    let s = a + scheme + host + tail;
    assert(s =~= a + rest);
    let n = a.len() as int;
    assert(s.subrange(n, n + scheme.len()) =~= scheme);
    assert forall|j: int| 0 <= j < n implies !text::occurs_at(s, scheme, j) by {
        text_laws::occurrence_splits(a, rest, scheme, j);
    }
    text_laws::find_at(s, scheme, n);
    let after = s.skip(n + scheme.len());
    assert(after =~= host + tail);
    host_goes_up_to(host, tail);
    let m = host.len() as int;
    assert(after.take(m) =~= host);
    assert(after.skip(m) =~= tail);
}

proof fn host_goes_up_to(host: Seq<char>, tail: Seq<char>)
    requires
        host.len() > 0 ==> is_host(host),
        tail.len() > 0 ==> mpd::ends_host(tail[0]),
    ensures
        mpd::host_len(host + tail) == host.len(),
    decreases host.len(),
{
    let s = host + tail;
    if host.len() > 0 {
        let t = host.drop_first();
        assert(host[0] != '/');
        assert(s[0] == host[0]);
        assert(s.drop_first() =~= t + tail);
        if t.len() > 0 {
            assert forall|i: int| 0 <= i < t.len() implies {
                &&& #[trigger] t[i] != '/'
                &&& t[i] != '"'
                &&& t[i] != '\''
                &&& t[i] != '<'
                &&& t[i] != '>'
                &&& !text::is_white(t[i])
            } by {
                assert(t[i] == host[i + 1]);
            }
        }
        host_goes_up_to(t, tail);
    } else {
        assert(s =~= tail);
    }
}

} // verus!
