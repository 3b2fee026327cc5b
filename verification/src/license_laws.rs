//! What is read from manifests of which a part is known.

use crate::fmp4::boxes;
use crate::fmp4::boxes::PSSH;
use crate::fmp4::init;
use crate::license;
use crate::mpd_laws;
use crate::text;
use crate::text_laws;
use vstd::prelude::*;

verus! {

// ---------------------------------------------------------------------------
// Widevine elements
// ---------------------------------------------------------------------------

/// The lower-case form of two texts put together.
pub proof fn lower_of_parts(a: Seq<char>, b: Seq<char>)
    ensures
        text::lower(a + b) == text::lower(a) + text::lower(b),
{
    assert(text::lower(a + b) =~= text::lower(a) + text::lower(b));
}

/// Whether a text names the Widevine system, in any case.
pub open spec fn names_widevine(s: Seq<char>) -> bool {
    text::contains(text::lower(s), "edef8ba9"@)
}

/// A character that no spelling of the system's name holds.
pub open spec fn ends_outside(s: Seq<char>) -> bool {
    s.len() > 0 ==> text_laws::apart_from(text::lower_char(s.last()), "edef8ba9"@)
}

/// Where the system is first named behind a text that does not name it.
proof fn found_behind_others(a: Seq<char>, s: Seq<char>)
    requires
        !names_widevine(a),
        ends_outside(a),
    ensures
        text::find(text::lower(a + s), "edef8ba9"@) == (match text::find(
            text::lower(s),
            "edef8ba9"@,
        ) {
            Some(i) => Some(a.len() + i),
            None => None,
        }),
{
    reveal_strlit("edef8ba9");
    let pat = "edef8ba9"@;
    let la = text::lower(a);
    let ls = text::lower(s);
    lower_of_parts(a, s);
    if a.len() > 0 {
        assert(la.last() == text::lower_char(a.last()));
    }
    assert forall|p: int| text::occurs_at(la + ls, pat, p) <==> #[trigger] text::occurs_at(
        ls,
        pat,
        p - a.len(),
    ) by {
        text_laws::occurrence_splits(la, ls, pat, p);
    }
    text::find_is_first(ls, pat, 0);
    text::find_is_first(la + ls, pat, 0);
    match text::find(ls, pat) {
        Some(i) => {
            let p = a.len() + i;
            assert(text::occurs_at(ls, pat, p - a.len()));
            assert forall|j: int| 0 <= j < p implies !text::occurs_at(la + ls, pat, j) by {
                text_laws::occurrence_splits(la, ls, pat, j);
                if j >= a.len() {
                    assert(!text::occurs_at(ls, pat, j - a.len()));
                }
            }
            text_laws::find_at(la + ls, pat, p);
        },
        None => {
            if let Some(p) = text::find(la + ls, pat) {
                text_laws::occurrence_splits(la, ls, pat, p);
                assert(text::occurs_at(ls, pat, p - a.len()));
            }
        },
    }
}

/// What another system's element holds is never taken: with such an element put in front of a
/// manifest, or any text that does not name Widevine and ends in a bracket, what is found
/// stays the same.
pub proof fn other_systems_are_passed_over(other: Seq<char>, s: Seq<char>)
    requires
        !names_widevine(other),
        other.len() > 0,
        other.last() == '>',
    ensures
        license::widevine_blocks(other + s) == license::widevine_blocks(s),
        license::encoded_pssh(other + s) == license::encoded_pssh(s),
{
    reveal_strlit("edef8ba9");
    found_behind_others(other, s);
    match text::find(text::lower(s), "edef8ba9"@) {
        Some(i) => {
            text::find_is_first(text::lower(s), "edef8ba9"@, 0);
            assert((other + s).skip(other.len() + i) =~= s.skip(i));
        },
        None => {},
    }
}

/// Whether a manifest without the system's name gives anything.
pub proof fn without_widevine_nothing_is_found(s: Seq<char>)
    requires
        !names_widevine(s),
    ensures
        license::encoded_pssh(s) == (None::<Seq<char>>, None::<Seq<char>>),
{
    text::found_iff_contained(text::lower(s), "edef8ba9"@);
}

/// A tag that names the system: the text before the name, the name in any case, and the rest
/// of the tag.
pub open spec fn is_widevine_tag(a: Seq<char>, id: Seq<char>, attrs: Seq<char>) -> bool {
    &&& !names_widevine(a)
    &&& ends_outside(a)
    &&& text::lower(id) == "edef8ba9"@
    &&& text_laws::apart_from('>', attrs)
}

proof fn tag_is_found(a: Seq<char>, id: Seq<char>, attrs: Seq<char>, b: Seq<char>)
    requires
        is_widevine_tag(a, id, attrs),
    ensures
        ({
            let s = a + id + attrs + ">"@ + b;
            let i = a.len() as int;
            let e = id.len() + attrs.len() as int;
            &&& text::find(text::lower(s), "edef8ba9"@) == Some(i)
            &&& text::find_char(s.skip(i), '>') == Some(e)
            &&& s.skip(i).take(e + 1) == id + attrs + ">"@
            &&& s.skip(i).skip(e + 1) == b
        }),
{
    reveal_strlit("edef8ba9");
    reveal_strlit(">");
    let s = a + id + attrs + ">"@ + b;
    let r = id + attrs + ">"@ + b;
    let pat = "edef8ba9"@;
    assert(s =~= a + r);
    found_behind_others(a, r);
    let lr = text::lower(r);
    assert(lr.subrange(0, 8) =~= text::lower(id));
    assert(text::occurs_at(lr, pat, 0));
    text_laws::find_at(lr, pat, 0);
    let tag = s.skip(a.len() as int);
    assert(tag =~= r);
    let e = id.len() + attrs.len() as int;
    assert(id.len() == 8) by {
        assert(text::lower(id).len() == id.len());
    }
    assert forall|j: int| 0 <= j < e implies tag[j] != '>' by {
        if j < id.len() {
            assert(tag[j] == id[j]);
            assert(text::lower(id)[j] == text::lower_char(id[j]));
            assert(pat[j] != '>');
        } else {
            assert(tag[j] == attrs[j - id.len()]);
        }
    }
    text_laws::find_char_at(tag, '>', e);
    assert(tag.take(e + 1) =~= id + attrs + ">"@);
    assert(tag.skip(e + 1) =~= b);
}

/// A Widevine element gives the text between its tags, and what follows it is searched on its
/// own.
#[verifier::rlimit(80)]
#[verifier::spinoff_prover]
pub proof fn widevine_element_gives_its_text(
    a: Seq<char>,
    id: Seq<char>,
    attrs: Seq<char>,
    body: Seq<char>,
    b: Seq<char>,
)
    requires
        is_widevine_tag(a, id, attrs),
        attrs.len() > 0 ==> attrs.last() != '/',
        !text::contains(body, "</ContentProtection>"@),
    ensures
        license::widevine_blocks(a + id + attrs + ">"@ + (body + "</ContentProtection>"@ + b))
            == seq![body] + license::widevine_blocks(b),
{
    reveal_strlit("edef8ba9");
    reveal_strlit("</ContentProtection>");
    reveal_strlit(">");
    reveal_strlit("/>");
    let close = "</ContentProtection>"@;
    let rest = body + close + b;
    let s = a + id + attrs + ">"@ + rest;
    tag_is_found(a, id, attrs, rest);
    let opening = id + attrs + ">"@;
    assert(!text::ends_with(opening, "/>"@)) by {
        if text::ends_with(opening, "/>"@) {
            assert(opening.skip(opening.len() - 2)[0] == '/');
            if attrs.len() > 0 {
                assert(opening[opening.len() - 2] == attrs.last());
            } else {
                assert(opening[opening.len() - 2] == id.last());
                assert(text::lower(id)[id.len() - 1] == text::lower_char(id.last()));
                assert("edef8ba9"@[7] == '9');
            }
        }
    }
    mpd_laws::found_behind(body, close, b);
    let c = body.len() as int;
    assert(rest.take(c) =~= body);
    assert(rest.skip(c) =~= close + b);
    assert(!names_widevine(close)) by {
        let l = text::lower(close);
        if text::contains(l, "edef8ba9"@) {
            let p = choose|p: int| text::occurs_at(l, "edef8ba9"@, p);
            assert(l.subrange(p, p + 8)[7] == '9');
            assert(l[p + 7] == text::lower_char(close[p + 7]));
        }
    }
    other_systems_are_passed_over(close, b);
}

/// A Widevine element without content gives nothing.
pub proof fn empty_widevine_element_gives_nothing(
    a: Seq<char>,
    id: Seq<char>,
    attrs: Seq<char>,
    b: Seq<char>,
)
    requires
        is_widevine_tag(a, id, attrs),
        attrs.len() > 0,
        attrs.last() == '/',
    ensures
        license::widevine_blocks(a + id + attrs + ">"@ + b) == license::widevine_blocks(b),
{
    reveal_strlit(">");
    reveal_strlit("/>");
    tag_is_found(a, id, attrs, b);
    let opening = id + attrs + ">"@;
    assert(opening.skip(opening.len() - 2) =~= "/>"@);
}

/// The value of an element is the text between its tags, without the white space around it.
pub proof fn element_value_is_read(
    x: Seq<char>,
    open: Seq<char>,
    w: Seq<char>,
    value: Seq<char>,
    v: Seq<char>,
    close: Seq<char>,
    y: Seq<char>,
)
    requires
        open.len() > 0,
        close.len() > 0,
        forall|k: int| 0 < k < open.len() ==> #[trigger] open[k] != open[0],
        forall|k: int| 0 < k < close.len() ==> #[trigger] close[k] != close[0],
        !text::contains(x, open),
        mpd_laws::is_blank(w),
        mpd_laws::is_blank(v),
        value.len() > 0 ==> !text::is_white(value[0]) && !text::is_white(value.last()),
        !text::contains(w + value + v, close),
    ensures
        license::element_text(x + open + (w + value + v) + close + y, open, close) == Some(value),
{
    let content = w + value + v;
    let s = x + open + content + close + y;
    let rest = content + close + y;
    assert(s =~= x + open + rest);
    mpd_laws::found_behind(x, open, rest);
    assert(s.skip(x.len() + open.len() as int) =~= rest);
    mpd_laws::found_behind(content, close, y);
    assert(rest.take(content.len() as int) =~= content);
    mpd_laws::blanks_are_cut_off(w, value, v);
}

/// The box of the first Widevine element that holds one is the one found: what stands before
/// it does not name the system, and what follows it does not matter.
#[verifier::rlimit(80)]
#[verifier::spinoff_prover]
pub proof fn first_widevine_box_is_found(
    a: Seq<char>,
    id: Seq<char>,
    attrs: Seq<char>,
    x: Seq<char>,
    value: Seq<char>,
    y: Seq<char>,
    b: Seq<char>,
)
    requires
        is_widevine_tag(a, id, attrs),
        attrs.len() > 0 ==> attrs.last() != '/',
        !text::contains(x, "<cenc:pssh>"@),
        !text::contains(x, "</ContentProtection>"@),
        !text::contains(y, "</ContentProtection>"@),
        text_laws::apart_from('<', value),
        value.len() > 0 ==> !text::is_white(value[0]) && !text::is_white(value.last()),
    ensures
        license::encoded_pssh(
            a + id + attrs + ">"@ + ((x + "<cenc:pssh>"@ + value + "</cenc:pssh>"@ + y)
                + "</ContentProtection>"@ + b),
        ).0 == Some(value),
{
    reveal_strlit("<cenc:pssh>");
    reveal_strlit("</cenc:pssh>");
    reveal_strlit("</ContentProtection>");
    let open = "<cenc:pssh>"@;
    let shut = "</cenc:pssh>"@;
    let close = "</ContentProtection>"@;
    let body = x + open + value + shut + y;
    assert(!text::contains(body, close)) by {
        if text::contains(body, close) {
            let p = choose|p: int| text::occurs_at(body, close, p);
            let n = x.len() as int;
            let m = n + open.len();
            let k = m + value.len();
            let l = k + shut.len();
            let here = body.subrange(p, p + close.len());
            assert(here[0] == '<' && here[1] == '/' && here[2] == 'C');
            if p < n {
                if p + close.len() <= n {
                    assert(x.subrange(p, p + close.len()) =~= here);
                    assert(text::occurs_at(x, close, p));
                } else {
                    assert(here[n - p] == open[0]);
                    assert(close[n - p] == '<');
                }
            } else if p < m {
                assert(body[p] == open[p - n]);
                assert(body[p + 1] == here[1]);
                assert(p == n);
                assert(body[p + 1] == open[1]);
            } else if p < k {
                assert(body[p] == value[p - m]);
            } else if p < l {
                assert(body[p] == shut[p - k]);
                assert(p == k);
                assert(body[p + 2] == shut[2]);
            } else {
                assert(y.subrange(p - l, p - l + close.len()) =~= here);
                assert(text::occurs_at(y, close, p - l));
            }
        }
    }
    widevine_element_gives_its_text(a, id, attrs, body, b);
    let none = Seq::<char>::empty();
    assert(none + value + none =~= value);
    assert(body =~= x + open + (none + value + none) + shut + y);
    assert(!text::contains(none + value + none, shut)) by {
        if text::contains(value, shut) {
            let p = choose|p: int| text::occurs_at(value, shut, p);
            assert(value.subrange(p, p + shut.len())[0] == '<');
        }
    }
    element_value_is_read(x, open, none, value, none, shut, y);
}

// ---------------------------------------------------------------------------
// Key ids
// ---------------------------------------------------------------------------

/// The hexadecimal digit of a number below sixteen, in either case.
pub open spec fn hex_char(n: int, upper: bool) -> char {
    if n < 10 {
        ('0' as int + n) as char
    } else if upper {
        ('A' as int + n - 10) as char
    } else {
        ('a' as int + n - 10) as char
    }
}

/// Bytes in hexadecimal, two digits each, the high one first.
pub open spec fn hex_text(bytes: Seq<u8>, upper: bool) -> Seq<char>
    decreases bytes.len(),
{
    if bytes.len() == 0 {
        Seq::empty()
    } else {
        hex_text(bytes.drop_last(), upper) + seq![
            hex_char(bytes.last() as int / 16, upper),
            hex_char(bytes.last() as int % 16, upper),
        ]
    }
}

proof fn digit_is_read(n: int, upper: bool)
    requires
        0 <= n < 16,
    ensures
        license::is_hex(hex_char(n, upper)),
        license::hex_value(hex_char(n, upper)) == n,
{
}

/// Hexadecimal text is all digits, and each pair has the value of its byte.
proof fn hex_text_is_read(bytes: Seq<u8>, upper: bool)
    ensures
        license::hex_digits(hex_text(bytes, upper)) == hex_text(bytes, upper),
        hex_text(bytes, upper).len() == 2 * bytes.len(),
        forall|i: int|
            0 <= i < bytes.len() ==> license::hex_value(hex_text(bytes, upper)[2 * i]) * 16
                + license::hex_value(hex_text(bytes, upper)[2 * i + 1]) == #[trigger] bytes[i],
    decreases bytes.len(),
{
    let t = hex_text(bytes, upper);
    if bytes.len() > 0 {
        let front = bytes.drop_last();
        let b = bytes.last() as int;
        hex_text_is_read(front, upper);
        digit_is_read(b / 16, upper);
        digit_is_read(b % 16, upper);
        let u = hex_text(front, upper);
        let high = hex_char(b / 16, upper);
        let low = hex_char(b % 16, upper);
        assert(t.drop_last() =~= u.push(high));
        assert(u.push(high).drop_last() =~= u);
        assert(license::hex_digits(u.push(high)) =~= u.push(high));
        assert(t =~= u.push(high).push(low));
        assert forall|i: int| 0 <= i < bytes.len() implies license::hex_value(t[2 * i]) * 16
            + license::hex_value(t[2 * i + 1]) == #[trigger] bytes[i] by {
            if i < front.len() {
                assert(front[i] == bytes[i]);
                assert(t[2 * i] == u[2 * i]);
                assert(t[2 * i + 1] == u[2 * i + 1]);
            } else {
                assert(t[2 * i] == high);
                assert(t[2 * i + 1] == low);
            }
        }
    }
}

/// What is no digit is passed over, wherever it stands.
pub proof fn digits_of_parts(a: Seq<char>, b: Seq<char>)
    ensures
        license::hex_digits(a + b) == license::hex_digits(a) + license::hex_digits(b),
    decreases b.len(),
{
    if b.len() == 0 {
        assert(a + b =~= a);
        assert(license::hex_digits(a) + license::hex_digits(b) =~= license::hex_digits(a));
    } else {
        digits_of_parts(a, b.drop_last());
        assert((a + b).drop_last() =~= a + b.drop_last());
        assert((a + b).last() == b.last());
        assert(license::hex_digits(a + b) =~= license::hex_digits(a) + license::hex_digits(b));
    }
}

/// A key id in the usual form: groups of digits with hyphens between them.
pub open spec fn uuid_text(kid: Seq<u8>, upper: bool) -> Seq<char> {
    hex_text(kid.subrange(0, 4), upper) + "-"@ + hex_text(kid.subrange(4, 6), upper) + "-"@
        + hex_text(kid.subrange(6, 8), upper) + "-"@ + hex_text(kid.subrange(8, 10), upper) + "-"@
        + hex_text(kid.subrange(10, 16), upper)
}

/// The digits of two byte strings put together.
proof fn hex_text_of_parts(a: Seq<u8>, b: Seq<u8>, upper: bool)
    ensures
        hex_text(a + b, upper) == hex_text(a, upper) + hex_text(b, upper),
    decreases b.len(),
{
    if b.len() == 0 {
        assert(a + b =~= a);
        assert(hex_text(a, upper) + hex_text(b, upper) =~= hex_text(a, upper));
    } else {
        hex_text_of_parts(a, b.drop_last(), upper);
        assert((a + b).drop_last() =~= a + b.drop_last());
        assert((a + b).last() == b.last());
        assert(hex_text(a + b, upper) =~= hex_text(a, upper) + hex_text(b, upper));
    }
}

/// A key id without hyphens is read back.
pub proof fn plain_key_id_reads_back(kid: Seq<u8>, upper: bool)
    requires
        kid.len() == 16,
    ensures
        license::uuid_bytes(hex_text(kid, upper)) == Some(kid),
{
    hex_text_is_read(kid, upper);
    let h = hex_text(kid, upper);
    let read = Seq::new(
        16,
        |i: int| (license::hex_value(h[2 * i]) * 16 + license::hex_value(h[2 * i + 1])) as u8,
    );
    assert forall|i: int| 0 <= i < 16 implies read[i] == kid[i] by {
        let b = kid[i];
    }
    assert(read =~= kid);
}

/// A key id in the usual form is read back, in either case.
#[verifier::rlimit(80)]
#[verifier::spinoff_prover]
pub proof fn key_id_reads_back(kid: Seq<u8>, upper: bool)
    requires
        kid.len() == 16,
    ensures
        license::uuid_bytes(uuid_text(kid, upper)) == Some(kid),
{
    reveal_strlit("-");
    let p = kid.subrange(0, 4);
    let q = kid.subrange(4, 6);
    let r = kid.subrange(6, 8);
    let s = kid.subrange(8, 10);
    let t = kid.subrange(10, 16);
    let (tp, tq, tr, ts, tt) = (
        hex_text(p, upper),
        hex_text(q, upper),
        hex_text(r, upper),
        hex_text(s, upper),
        hex_text(t, upper),
    );
    let dash = "-"@;
    assert(license::hex_digits(dash) =~= Seq::empty()) by {
        assert(!license::is_hex(dash.last()));
        assert(dash.drop_last() =~= Seq::empty());
        assert(license::hex_digits(dash.drop_last()) =~= Seq::empty());
    }
    hex_text_is_read(p, upper);
    hex_text_is_read(q, upper);
    hex_text_is_read(r, upper);
    hex_text_is_read(s, upper);
    hex_text_is_read(t, upper);
    digits_of_parts(tp, dash);
    digits_of_parts(tp + dash, tq);
    digits_of_parts(tp + dash + tq, dash);
    digits_of_parts(tp + dash + tq + dash, tr);
    digits_of_parts(tp + dash + tq + dash + tr, dash);
    digits_of_parts(tp + dash + tq + dash + tr + dash, ts);
    digits_of_parts(tp + dash + tq + dash + tr + dash + ts, dash);
    digits_of_parts(tp + dash + tq + dash + tr + dash + ts + dash, tt);
    hex_text_of_parts(p, q, upper);
    hex_text_of_parts(p + q, r, upper);
    hex_text_of_parts(p + q + r, s, upper);
    hex_text_of_parts(p + q + r + s, t, upper);
    assert(p + q + r + s + t =~= kid);
    assert(license::hex_digits(uuid_text(kid, upper)) =~= hex_text(kid, upper));
    hex_text_is_read(kid, upper);
    plain_key_id_reads_back(kid, upper);
}

/// The key id that the first attribute of a name holds.
pub proof fn attribute_key_id_is_read(
    a: Seq<char>,
    attr: Seq<char>,
    kid: Seq<u8>,
    upper: bool,
    b: Seq<char>,
)
    requires
        attr.len() > 0,
        kid.len() == 16,
        !text::contains(a, attr),
        a.len() > 0 ==> text_laws::apart_from(a.last(), attr),
    ensures
        license::attr_kid(a + attr + uuid_text(kid, upper) + "\""@ + b, attr) == Some(kid),
{
    reveal_strlit("\"");
    let u = uuid_text(kid, upper);
    let rest = attr + u + "\""@ + b;
    let s = a + attr + u + "\""@ + b;
    assert(s =~= a + rest);
    let n = a.len() as int;
    assert(s.subrange(n, n + attr.len()) =~= attr);
    assert forall|j: int| 0 <= j < n implies !text::occurs_at(s, attr, j) by {
        text_laws::occurrence_splits(a, rest, attr, j);
    }
    text_laws::find_at(s, attr, n);
    let after = s.skip(n + attr.len());
    assert(after =~= u + "\""@ + b);
    uuid_text_holds_no_quote(kid, upper);
    assert forall|j: int| 0 <= j < u.len() implies after[j] != '"' by {
        assert(after[j] == u[j]);
    }
    assert(after[u.len() as int] == '"');
    text_laws::find_char_at(after, '"', u.len() as int);
    assert(after.take(u.len() as int) =~= u);
    key_id_reads_back(kid, upper);
}

proof fn hex_text_is_plain(bytes: Seq<u8>, upper: bool)
    ensures
        forall|i: int|
            0 <= i < hex_text(bytes, upper).len() ==> license::is_hex(
                #[trigger] hex_text(bytes, upper)[i],
            ),
    decreases bytes.len(),
{
    if bytes.len() > 0 {
        hex_text_is_plain(bytes.drop_last(), upper);
        digit_is_read(bytes.last() as int / 16, upper);
        digit_is_read(bytes.last() as int % 16, upper);
        let t = hex_text(bytes, upper);
        let u = hex_text(bytes.drop_last(), upper);
        assert forall|i: int| 0 <= i < t.len() implies license::is_hex(#[trigger] t[i]) by {
            if i < u.len() {
                assert(t[i] == u[i]);
            }
        }
    }
}

proof fn uuid_text_holds_no_quote(kid: Seq<u8>, upper: bool)
    requires
        kid.len() == 16,
    ensures
        text_laws::apart_from('"', uuid_text(kid, upper)),
{
    reveal_strlit("-");
    hex_text_is_plain(kid.subrange(0, 4), upper);
    hex_text_is_plain(kid.subrange(4, 6), upper);
    hex_text_is_plain(kid.subrange(6, 8), upper);
    hex_text_is_plain(kid.subrange(8, 10), upper);
    hex_text_is_plain(kid.subrange(10, 16), upper);
    assert(!license::is_hex('"'));
}

/// The key id in the attribute of the manifest's `cenc` name space is taken before any other.
pub proof fn prefixed_key_id_comes_first(
    a: Seq<char>,
    kid: Seq<u8>,
    upper: bool,
    b: Seq<char>,
)
    requires
        kid.len() == 16,
        !text::contains(a, "cenc:default_KID=\""@),
        a.len() > 0 ==> text::is_white(a.last()),
    ensures
        license::default_kid(
            a + "cenc:default_KID=\""@ + uuid_text(kid, upper) + "\""@ + b,
        ) == Some(kid),
{
    reveal_strlit("cenc:default_KID=\"");
    attribute_key_id_is_read(a, "cenc:default_KID=\""@, kid, upper, b);
}

/// The key id in an attribute without a prefix is taken where no attribute of the `cenc` name
/// space is there.
pub proof fn plain_attribute_is_read(a: Seq<char>, kid: Seq<u8>, upper: bool, b: Seq<char>)
    requires
        kid.len() == 16,
        !text::contains(a, "default_KID=\""@),
        !text::contains(
            a + "default_KID=\""@ + uuid_text(kid, upper) + "\""@ + b,
            "cenc:default_KID=\""@,
        ),
        a.len() > 0 ==> text::is_white(a.last()),
    ensures
        license::default_kid(a + "default_KID=\""@ + uuid_text(kid, upper) + "\""@ + b) == Some(
            kid,
        ),
{
    reveal_strlit("default_KID=\"");
    let s = a + "default_KID=\""@ + uuid_text(kid, upper) + "\""@ + b;
    text::found_iff_contained(s, "cenc:default_KID=\""@);
    attribute_key_id_is_read(a, "default_KID=\""@, kid, upper, b);
}

/// The lower-case spellings come last: they are read where no other is there.
pub proof fn lower_case_attribute_is_read(
    a: Seq<char>,
    prefixed: bool,
    kid: Seq<u8>,
    upper: bool,
    b: Seq<char>,
)
    requires
        kid.len() == 16,
        a.len() > 0 ==> text::is_white(a.last()),
        ({
            let attr = if prefixed {
                "cenc:default_kid=\""@
            } else {
                "default_kid=\""@
            };
            let s = a + attr + uuid_text(kid, upper) + "\""@ + b;
            &&& !text::contains(a, attr)
            &&& !text::contains(s, "cenc:default_KID=\""@)
            &&& !text::contains(s, "default_KID=\""@)
            &&& !prefixed ==> !text::contains(s, "cenc:default_kid=\""@)
        }),
    ensures
        ({
            let attr = if prefixed {
                "cenc:default_kid=\""@
            } else {
                "default_kid=\""@
            };
            license::default_kid(a + attr + uuid_text(kid, upper) + "\""@ + b) == Some(kid)
        }),
{
    reveal_strlit("cenc:default_kid=\"");
    reveal_strlit("default_kid=\"");
    let attr = if prefixed {
        "cenc:default_kid=\""@
    } else {
        "default_kid=\""@
    };
    let s = a + attr + uuid_text(kid, upper) + "\""@ + b;
    text::found_iff_contained(s, "cenc:default_KID=\""@);
    text::found_iff_contained(s, "default_KID=\""@);
    if !prefixed {
        text::found_iff_contained(s, "cenc:default_kid=\""@);
    }
    attribute_key_id_is_read(a, attr, kid, upper, b);
}

// ---------------------------------------------------------------------------
// License responses
// ---------------------------------------------------------------------------

/// The first license that was found is taken, whatever was found behind it; where none was,
/// the answer itself.
pub proof fn first_license_is_taken(found: Seq<Option<Seq<u8>>>, raw: Seq<u8>, k: int)
    requires
        0 <= k <= found.len(),
        forall|j: int| 0 <= j < k ==> (#[trigger] found[j]) is None,
        k < found.len() ==> found[k] is Some,
    ensures
        license::first_license(found, raw) == if k < found.len() {
            found[k]->0
        } else {
            raw
        },
    decreases k,
{
    if k > 0 {
        let t = found.drop_first();
        assert(found[0] is None);
        assert forall|j: int| 0 <= j < k - 1 implies (#[trigger] t[j]) is None by {
            assert(t[j] == found[j + 1]);
        }
        first_license_is_taken(t, raw, k - 1);
    }
}

/// An answer is looked into where its content type names JSON anywhere, or where it starts
/// with a brace; any other is the license as it is.
pub proof fn plain_answer_is_the_license(
    a: Seq<char>,
    b: Seq<char>,
    content_type: Seq<char>,
    raw: Seq<u8>,
    rest: Seq<u8>,
)
    ensures
        license::may_be_json(a + "json"@ + b, raw),
        license::may_be_json(content_type, seq![0x7bu8] + rest),
        !text::contains(content_type, "json"@) && (raw.len() == 0 || raw[0] != 0x7b)
            ==> license::license_in(content_type, raw) == raw,
{
    let s = a + "json"@ + b;
    let n = a.len() as int;
    assert(s.subrange(n, n + "json"@.len()) =~= "json"@);
    assert(text::occurs_at(s, "json"@, n));
    assert((seq![0x7bu8] + rest)[0] == 0x7b);
}

/// The data that a manifest holds in a box goes before the data made from a key id, and a box
/// of the `cenc` name space before one without.
pub proof fn boxes_go_before_key_ids(
    cenc: Seq<u8>,
    plain: Option<Seq<u8>>,
    other: Seq<u8>,
    kid: Option<Seq<u8>>,
)
    ensures
        license::chosen_pssh(Some(cenc), plain, kid) == Some(cenc),
        license::chosen_pssh(None, Some(other), kid) == Some(other),
        license::chosen_pssh(None, None, kid) is Some <==> kid is Some,
        kid is Some && (kid->0).len() == 16 ==> init::pssh_kid(
            (boxes::child(license::chosen_pssh(None, None, kid)->0, PSSH@)->0).payload,
        ) == kid,
{
    if let Some(k) = kid {
        if k.len() == 16 {
            license::built_pssh_holds_its_key_id(k);
        }
    }
}

/// A Widevine element that does not end gives all that follows its tag.
pub proof fn open_widevine_element_gives_the_rest(
    a: Seq<char>,
    id: Seq<char>,
    attrs: Seq<char>,
    b: Seq<char>,
)
    requires
        is_widevine_tag(a, id, attrs),
        attrs.len() > 0,
        attrs.last() != '/',
        !text::contains(b, "</ContentProtection>"@),
    ensures
        license::widevine_blocks(a + id + attrs + ">"@ + b) == seq![b],
{
    reveal_strlit(">");
    reveal_strlit("/>");
    tag_is_found(a, id, attrs, b);
    text::found_iff_contained(b, "</ContentProtection>"@);
    let opening = id + attrs + ">"@;
    if text::ends_with(opening, "/>"@) {
        assert(opening.skip(opening.len() - 2)[0] == '/');
        assert(opening[opening.len() - 2] == attrs.last());
    }
}

/// Where the first Widevine element holds no box, the one of the next is taken.
pub proof fn next_widevine_element_counts(
    a: Seq<char>,
    id: Seq<char>,
    attrs: Seq<char>,
    body: Seq<char>,
    b: Seq<char>,
)
    requires
        is_widevine_tag(a, id, attrs),
        attrs.len() > 0 ==> attrs.last() != '/',
        !text::contains(body, "</ContentProtection>"@),
        !text::contains(body, "<cenc:pssh>"@),
        !text::contains(body, "<pssh>"@),
    ensures
        license::encoded_pssh(a + id + attrs + ">"@ + (body + "</ContentProtection>"@ + b))
            == license::encoded_pssh(b),
{
    widevine_element_gives_its_text(a, id, attrs, body, b);
    text::found_iff_contained(body, "<cenc:pssh>"@);
    text::found_iff_contained(body, "<pssh>"@);
    let rest = license::widevine_blocks(b);
    assert((seq![body] + rest).drop_first() =~= rest);
}

/// A box without the name space is found as well.
pub proof fn plain_widevine_box_is_found(
    a: Seq<char>,
    id: Seq<char>,
    attrs: Seq<char>,
    x: Seq<char>,
    value: Seq<char>,
    y: Seq<char>,
    b: Seq<char>,
)
    requires
        is_widevine_tag(a, id, attrs),
        attrs.len() > 0 ==> attrs.last() != '/',
        !text::contains(x, "<pssh>"@),
        !text::contains(x + "<pssh>"@ + value + "</pssh>"@ + y, "</ContentProtection>"@),
        text_laws::apart_from('<', value),
        value.len() > 0 ==> !text::is_white(value[0]) && !text::is_white(value.last()),
    ensures
        license::encoded_pssh(
            a + id + attrs + ">"@ + ((x + "<pssh>"@ + value + "</pssh>"@ + y)
                + "</ContentProtection>"@ + b),
        ).1 == Some(value),
{
    reveal_strlit("<pssh>");
    reveal_strlit("</pssh>");
    let open = "<pssh>"@;
    let shut = "</pssh>"@;
    let body = x + open + value + shut + y;
    widevine_element_gives_its_text(a, id, attrs, body, b);
    let none = Seq::<char>::empty();
    assert(none + value + none =~= value);
    assert(body =~= x + open + (none + value + none) + shut + y);
    assert(!text::contains(none + value + none, shut)) by {
        if text::contains(value, shut) {
            let p = choose|p: int| text::occurs_at(value, shut, p);
            assert(value.subrange(p, p + shut.len())[0] == '<');
        }
    }
    element_value_is_read(x, open, none, value, none, shut, y);
}

} // verus!
