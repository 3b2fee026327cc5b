//! Which init segment is fetched for a manifest of which the parts are known.

use crate::drm_startup;
use crate::mpd_laws;
use crate::text;
use crate::text_laws;
use vstd::prelude::*;

verus! {

/// The directory of a URL goes up to the last slash of its path: neither the file nor the
/// query counts.
pub proof fn directory_drops_file_and_query(
    dir: Seq<char>,
    file: Seq<char>,
    query: Option<Seq<char>>,
)
    requires
        text_laws::apart_from('?', dir),
        text_laws::apart_from('?', file),
        text_laws::apart_from('/', file),
    ensures
        drm_startup::directory(
            dir + "/"@ + file + (match query {
                Some(q) => "?"@ + q,
                None => Seq::empty(),
            }),
        ) == dir + "/"@,
{
    reveal_strlit("/");
    reveal_strlit("?");
    let path = dir + "/"@ + file;
    let tail = match query {
        Some(q) => "?"@ + q,
        None => Seq::empty(),
    };
    let url = path + tail;
    let n = path.len() as int;
    let i = dir.len() as int;
    assert forall|j: int| 0 <= j < n implies url[j] != '?' by {
        if j < i {
            assert(url[j] == dir[j]);
        } else if j > i {
            assert(url[j] == file[j - i - 1]);
        }
    }
    let seen = if query is Some {
        assert(url[n] == '?');
        text_laws::find_char_at(url, '?', n);
        url.take(n)
    } else {
        text::find_is_first(url, seq!['?'], 0);
        if let Some(q) = text::find_char(url, '?') {
            assert(url.subrange(q, q + 1)[0] == '?');
        }
        url
    };
    assert(seen =~= path);
    assert(path[i] == '/');
    assert forall|j: int| i < j < path.len() implies path[j] != '/' by {
        assert(path[j] == file[j - i - 1]);
    }
    text_laws::rfind_char_at(path, '/', i);
    assert(url.take(i + 1) =~= dir + "/"@);
}

/// Whether the first character of a text stands nowhere else in it.
pub open spec fn starts_once(open: Seq<char>) -> bool {
    forall|k: int| 0 < k < open.len() ==> #[trigger] open[k] != open[0]
}

/// A text in which a value stands between an opening text and a closing one, behind a part
/// without the opening text.
pub open spec fn holds(
    s: Seq<char>,
    a: Seq<char>,
    open: Seq<char>,
    value: Seq<char>,
    close: Seq<char>,
    b: Seq<char>,
) -> bool {
    &&& s == a + open + value + close + b
    &&& open.len() > 0
    &&& close.len() > 0
    &&& !text::contains(a, open)
    &&& a.len() > 0 ==> text_laws::apart_from(a.last(), open) || starts_once(open)
    &&& text_laws::apart_from(close[0], value)
}

/// The first value between an opening text and a closing one is the one read.
pub proof fn first_value_is_read(
    s: Seq<char>,
    a: Seq<char>,
    open: Seq<char>,
    value: Seq<char>,
    close: Seq<char>,
    b: Seq<char>,
)
    requires
        holds(s, a, open, value, close, b),
    ensures
        drm_startup::between(s, open, close) == Some(value),
        text::contains(s, open),
{
    let rest = open + value + close + b;
    assert(s =~= a + rest);
    let n = a.len() as int;
    assert(s.subrange(n, n + open.len()) =~= open);
    assert(text::occurs_at(s, open, n));
    assert forall|j: int| 0 <= j < n implies !text::occurs_at(s, open, j) by {
        if starts_once(open) {
            if text::occurs_at(s, open, j) {
                let here = s.subrange(j, j + open.len());
                if j + open.len() <= n {
                    assert(a.subrange(j, j + open.len()) =~= here);
                    assert(text::occurs_at(a, open, j));
                } else {
                    assert(here[n - j] == open[0]);
                    assert(open[n - j] == open[0]);
                }
            }
        } else {
            text_laws::occurrence_splits(a, rest, open, j);
        }
    }
    text_laws::find_at(s, open, n);
    let after = s.skip(n + open.len());
    let m = value.len() as int;
    assert(after =~= value + close + b);
    assert(after.subrange(m, m + close.len()) =~= close);
    assert forall|j: int| 0 <= j < m implies !text::occurs_at(after, close, j) by {
        if text::occurs_at(after, close, j) {
            assert(after.subrange(j, j + close.len())[0] == value[j]);
        }
    }
    text_laws::find_at(after, close, m);
    assert(after.take(m) =~= value);
}

/// A text with one place for a pattern: what stands before and behind it stays.
proof fn one_place_is_replaced(a: Seq<char>, pat: Seq<char>, b: Seq<char>, with: Seq<char>)
    requires
        pat.len() > 0,
        text_laws::apart_from(pat[0], a),
        text_laws::apart_from(pat[0], b),
    ensures
        text::replace_all(a + pat + b, pat, with) == a + with + b,
{
    let s = a + pat + b;
    let n = a.len() as int;
    assert(s.subrange(n, n + pat.len()) =~= pat);
    assert forall|j: int| 0 <= j < n implies !text::occurs_at(s, pat, j) by {
        if text::occurs_at(s, pat, j) {
            assert(s.subrange(j, j + pat.len())[0] == a[j]);
        }
    }
    text_laws::find_at(s, pat, n);
    text_laws::replacing_first_place(s, pat, with, n);
    assert(s.skip(n + pat.len()) =~= b);
    assert(s.take(n) =~= a);
    assert(!text::contains(b, pat)) by {
        if text::contains(b, pat) {
            let p = choose|p: int| text::occurs_at(b, pat, p);
            assert(b.subrange(p, p + pat.len())[0] == b[p]);
        }
    }
    text_laws::replacing_nothing(b, pat, with);
}

/// A text without the first character of a pattern is left as it is.
proof fn nothing_is_replaced(a: Seq<char>, pat: Seq<char>, with: Seq<char>)
    requires
        pat.len() > 0,
        text_laws::apart_from(pat[0], a),
    ensures
        text::replace_all(a, pat, with) == a,
{
    assert(!text::contains(a, pat)) by {
        if text::contains(a, pat) {
            let p = choose|p: int| text::occurs_at(a, pat, p);
            assert(a.subrange(p, p + pat.len())[0] == a[p]);
        }
    }
    text_laws::replacing_nothing(a, pat, with);
}

/// A text and a slash, where it does not end in one.
pub open spec fn with_slash(s: Seq<char>) -> Seq<char> {
    if s.len() > 0 && s.last() == '/' {
        s
    } else {
        s + "/"@
    }
}

proof fn slash_is_seen(s: Seq<char>)
    ensures
        text::ends_with(s, "/"@) == (s.len() > 0 && s.last() == '/'),
{
    reveal_strlit("/");
    if s.len() > 0 {
        assert(s.skip(s.len() - 1) =~= seq![s.last()]);
        assert("/"@ =~= seq!['/']);
        if s.skip(s.len() - 1) == "/"@ {
            assert(s.skip(s.len() - 1)[0] == '/');
        }
    }
}

/// Without a base element, segments lie beside the manifest.
pub proof fn segments_lie_beside_the_manifest(mpd: Seq<char>, mpd_url: Seq<char>)
    requires
        !text::contains(mpd, "<BaseURL>"@),
    ensures
        drm_startup::base_of(mpd, mpd_url) == Some(with_slash(drm_startup::directory(mpd_url))),
{
    reveal_strlit("http://");
    reveal_strlit("https://");
    let dir = drm_startup::directory(mpd_url);
    assert(!drm_startup::is_absolute(Seq::<char>::empty()));
    assert(dir + Seq::<char>::empty() =~= dir);
    slash_is_seen(dir);
}

/// The first base element says where segments lie: from the manifest's directory on, unless
/// it names a scheme.
pub proof fn base_element_counts(
    mpd: Seq<char>,
    a: Seq<char>,
    w: Seq<char>,
    base: Seq<char>,
    v: Seq<char>,
    b: Seq<char>,
    mpd_url: Seq<char>,
)
    requires
        holds(mpd, a, "<BaseURL>"@, w + base + v, "</BaseURL>"@, b),
        mpd_laws::is_blank(w),
        mpd_laws::is_blank(v),
        base.len() > 0,
        !text::is_white(base[0]),
        !text::is_white(base.last()),
    ensures
        drm_startup::base_of(mpd, mpd_url) == Some(
            with_slash(
                if mpd_laws::is_absolute(base) {
                    base
                } else {
                    drm_startup::directory(mpd_url) + base
                },
            ),
        ),
{
    first_value_is_read(mpd, a, "<BaseURL>"@, w + base + v, "</BaseURL>"@, b);
    mpd_laws::blanks_are_cut_off(w, base, v);
    mpd_laws::absolute_by_prefix(base);
    let joined = if drm_startup::is_absolute(base) {
        base
    } else {
        drm_startup::directory(mpd_url) + base
    };
    slash_is_seen(joined);
}

/// The init segment that is fetched: the first template, with the first representation's id in
/// its place, behind the base.
pub proof fn first_init_segment_is_named(
    mpd: Seq<char>,
    mpd_url: Seq<char>,
    base: Seq<char>,
    a: Seq<char>,
    x: Seq<char>,
    y: Seq<char>,
    b: Seq<char>,
    c: Seq<char>,
    id: Seq<char>,
    d: Seq<char>,
)
    requires
        drm_startup::base_of(mpd, mpd_url) == Some(base),
        holds(mpd, a, "initialization=\""@, x + "$RepresentationID$"@ + y, "\""@, b),
        holds(mpd, c, "<Representation id=\""@, id, "\""@, d),
        text_laws::apart_from('&', x),
        text_laws::apart_from('&', y),
        text_laws::apart_from('$', x),
        text_laws::apart_from('$', y),
        !mpd_laws::is_absolute(x + id + y),
        (x + id + y).len() > 0,
    ensures
        drm_startup::init_segment_url(mpd, mpd_url) == Some(base + x + id + y),
{
    reveal_strlit("&amp;");
    reveal_strlit("$RepresentationID$");
    let pat = "$RepresentationID$"@;
    let template = x + pat + y;
    first_value_is_read(mpd, a, "initialization=\""@, template, "\""@, b);
    first_value_is_read(mpd, c, "<Representation id=\""@, id, "\""@, d);
    assert forall|k: int| 0 <= k < template.len() implies template[k] != '&' by {
        let n = x.len() as int;
        if k < n {
            assert(template[k] == x[k]);
        } else if k < n + pat.len() {
            assert(template[k] == pat[k - n]);
        } else {
            assert(template[k] == y[k - n - pat.len()]);
        }
    }
    nothing_is_replaced(template, "&amp;"@, "&"@);
    one_place_is_replaced(x, pat, y, id);
    mpd_laws::absolute_by_prefix(x + id + y);
    assert(base + (x + id + y) =~= base + x + id + y);
}

/// An escaped ampersand of a template is read as one.
pub proof fn template_is_unescaped(
    mpd: Seq<char>,
    mpd_url: Seq<char>,
    base: Seq<char>,
    a: Seq<char>,
    x: Seq<char>,
    y: Seq<char>,
    b: Seq<char>,
    c: Seq<char>,
    id: Seq<char>,
    d: Seq<char>,
)
    requires
        drm_startup::base_of(mpd, mpd_url) == Some(base),
        holds(mpd, a, "initialization=\""@, x + "&amp;"@ + y, "\""@, b),
        holds(mpd, c, "<Representation id=\""@, id, "\""@, d),
        text_laws::apart_from('&', x),
        text_laws::apart_from('&', y),
        text_laws::apart_from('$', x),
        text_laws::apart_from('$', y),
        !mpd_laws::is_absolute(x + "&"@ + y),
    ensures
        drm_startup::init_segment_url(mpd, mpd_url) == Some(base + x + "&"@ + y),
{
    reveal_strlit("&amp;");
    reveal_strlit("&");
    reveal_strlit("$RepresentationID$");
    first_value_is_read(mpd, a, "initialization=\""@, x + "&amp;"@ + y, "\""@, b);
    first_value_is_read(mpd, c, "<Representation id=\""@, id, "\""@, d);
    one_place_is_replaced(x, "&amp;"@, y, "&"@);
    let named = x + "&"@ + y;
    assert forall|k: int| 0 <= k < named.len() implies named[k] != '$' by {
        let n = x.len() as int;
        if k < n {
            assert(named[k] == x[k]);
        } else if k > n {
            assert(named[k] == y[k - n - 1]);
        }
    }
    nothing_is_replaced(named, "$RepresentationID$"@, id);
    mpd_laws::absolute_by_prefix(named);
    assert(base + named =~= base + x + "&"@ + y);
}

/// A manifest without a template, or without a representation, names no init segment.
pub proof fn without_a_template_none_is_fetched(mpd: Seq<char>, mpd_url: Seq<char>)
    requires
        !text::contains(mpd, "initialization=\""@) || !text::contains(
            mpd,
            "<Representation id=\""@,
        ),
    ensures
        drm_startup::init_segment_url(mpd, mpd_url) is None,
{
    text::found_iff_contained(mpd, "initialization=\""@);
    text::found_iff_contained(mpd, "<Representation id=\""@);
}

/// A template that is absolute is used as it is.
pub proof fn absolute_template_needs_no_base(
    mpd: Seq<char>,
    mpd_url: Seq<char>,
    base: Seq<char>,
    a: Seq<char>,
    x: Seq<char>,
    y: Seq<char>,
    b: Seq<char>,
    c: Seq<char>,
    id: Seq<char>,
    d: Seq<char>,
)
    requires
        drm_startup::base_of(mpd, mpd_url) == Some(base),
        holds(mpd, a, "initialization=\""@, x + "$RepresentationID$"@ + y, "\""@, b),
        holds(mpd, c, "<Representation id=\""@, id, "\""@, d),
        text_laws::apart_from('&', x),
        text_laws::apart_from('&', y),
        text_laws::apart_from('$', x),
        text_laws::apart_from('$', y),
        mpd_laws::is_absolute(x + id + y),
        (x + id + y).len() > 0,
    ensures
        drm_startup::init_segment_url(mpd, mpd_url) == Some(x + id + y),
{
    reveal_strlit("&amp;");
    reveal_strlit("$RepresentationID$");
    let pat = "$RepresentationID$"@;
    let template = x + pat + y;
    first_value_is_read(mpd, a, "initialization=\""@, template, "\""@, b);
    first_value_is_read(mpd, c, "<Representation id=\""@, id, "\""@, d);
    assert forall|k: int| 0 <= k < template.len() implies template[k] != '&' by {
        let n = x.len() as int;
        if k < n {
            assert(template[k] == x[k]);
        } else if k < n + pat.len() {
            assert(template[k] == pat[k - n]);
        } else {
            assert(template[k] == y[k - n - pat.len()]);
        }
    }
    nothing_is_replaced(template, "&amp;"@, "&"@);
    one_place_is_replaced(x, pat, y, id);
    mpd_laws::absolute_by_prefix(x + id + y);
}

/// A base element that does not end says nothing, and no init segment is fetched.
pub proof fn open_base_element_names_nothing(
    mpd: Seq<char>,
    a: Seq<char>,
    b: Seq<char>,
    mpd_url: Seq<char>,
)
    requires
        mpd == a + "<BaseURL>"@ + b,
        !text::contains(a, "<BaseURL>"@),
        !text::contains(b, "</BaseURL>"@),
    ensures
        drm_startup::init_segment_url(mpd, mpd_url) is None,
{
    reveal_strlit("<BaseURL>");
    let open = "<BaseURL>"@;
    mpd_laws::found_behind(a, open, b);
    let n = a.len() as int;
    assert(mpd.subrange(n, n + open.len()) =~= open);
    assert(text::occurs_at(mpd, open, n));
    assert(mpd.skip(n + open.len()) =~= b);
    text::found_iff_contained(b, "</BaseURL>"@);
}

} // verus!
