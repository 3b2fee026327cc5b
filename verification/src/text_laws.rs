//! What holds of searching and replacing in texts put together from parts.

use crate::text;
use vstd::prelude::*;

verus! {

/// A text without the pattern is left as it is.
pub proof fn replacing_nothing(s: Seq<char>, pat: Seq<char>, with: Seq<char>)
    requires
        !text::contains(s, pat),
    ensures
        text::replace_all(s, pat, with) == s,
        text::replace_first(s, pat, with) == s,
{
    text::found_iff_contained(s, pat);
}

/// The first place is the one before which there is none.
pub proof fn find_at(s: Seq<char>, pat: Seq<char>, i: int)
    requires
        text::occurs_at(s, pat, i),
        forall|j: int| 0 <= j < i ==> !text::occurs_at(s, pat, j),
    ensures
        text::find(s, pat) == Some(i),
{
    text::find_is_first(s, pat, 0);
    let r = text::find(s, pat);
    assert(r is Some) by {
        if r is None {
            assert(!text::occurs_at(s, pat, i));
        }
    }
}

/// A character is found at its first place.
pub proof fn find_char_at(s: Seq<char>, c: char, i: int)
    requires
        0 <= i < s.len(),
        s[i] == c,
        forall|j: int| 0 <= j < i ==> s[j] != c,
    ensures
        text::find_char(s, c) == Some(i),
{
    let p = seq![c];
    assert(s.subrange(i, i + 1) =~= p);
    assert forall|j: int| 0 <= j < i implies !text::occurs_at(s, p, j) by {
        if text::occurs_at(s, p, j) {
            assert(s.subrange(j, j + 1)[0] == p[0]);
        }
    }
    find_at(s, p, i);
}

/// The last place of a character is the one behind which there is none.
pub proof fn rfind_char_at(s: Seq<char>, c: char, i: int)
    requires
        0 <= i < s.len(),
        s[i] == c,
        forall|j: int| i < j < s.len() ==> s[j] != c,
    ensures
        text::rfind_char(s, c) == Some(i),
    decreases s.len(),
{
    if i < s.len() - 1 {
        assert(s.last() != c);
        rfind_char_at(s.drop_last(), c, i);
    }
}

/// Whether a character is none of the pattern's.
pub open spec fn apart_from(c: char, pat: Seq<char>) -> bool {
    forall|k: int| 0 <= k < pat.len() ==> pat[k] != c
}

/// Behind a character that is none of the pattern's, a place in the whole is a
/// place in one of the parts.
pub proof fn occurrence_splits(a: Seq<char>, b: Seq<char>, pat: Seq<char>, p: int)
    requires
        a.len() > 0 ==> apart_from(a.last(), pat),
        pat.len() > 0,
    ensures
        text::occurs_at(a + b, pat, p) <==> text::occurs_at(a, pat, p) || text::occurs_at(
            b,
            pat,
            p - a.len(),
        ),
{
    let s = a + b;
    let n = a.len() as int;
    if text::occurs_at(a, pat, p) {
        assert(s.subrange(p, p + pat.len()) =~= a.subrange(p, p + pat.len()));
    }
    if text::occurs_at(b, pat, p - n) {
        assert(s.subrange(p, p + pat.len()) =~= b.subrange(p - n, p - n + pat.len()));
    }
    if text::occurs_at(s, pat, p) {
        if p >= n {
            assert(b.subrange(p - n, p - n + pat.len()) =~= s.subrange(p, p + pat.len()));
        } else if p + pat.len() <= n {
            assert(a.subrange(p, p + pat.len()) =~= s.subrange(p, p + pat.len()));
        } else {
            assert(s.subrange(p, p + pat.len())[n - 1 - p] == a.last());
            assert(pat[n - 1 - p] == a.last());
        }
    }
}

/// Replacing in a text cut behind a character that is none of the pattern's is
/// replacing in each part.
pub proof fn replacing_splits(a: Seq<char>, b: Seq<char>, pat: Seq<char>, with: Seq<char>)
    requires
        a.len() > 0 ==> apart_from(a.last(), pat),
        pat.len() > 0,
    ensures
        text::replace_all(a + b, pat, with) == text::replace_all(a, pat, with)
            + text::replace_all(b, pat, with),
    decreases a.len(),
{
    let s = a + b;
    let n = a.len() as int;
    text::find_is_first(a, pat, 0);
    text::find_is_first(b, pat, 0);
    text::find_is_first(s, pat, 0);
    assert forall|p: int| text::occurs_at(s, pat, p) <==> text::occurs_at(a, pat, p)
        || #[trigger] text::occurs_at(b, pat, p - n) by {
        occurrence_splits(a, b, pat, p);
    }
    match text::find(a, pat) {
        Some(i) => {
            occurrence_splits(a, b, pat, i);
            assert forall|j: int| 0 <= j < i implies !text::occurs_at(s, pat, j) by {
                occurrence_splits(a, b, pat, j);
            }
            find_at(s, pat, i);
            let rest = a.skip(i + pat.len());
            assert(s.skip(i + pat.len()) =~= rest + b);
            assert(s.take(i) =~= a.take(i));
            if rest.len() > 0 {
                assert(rest.last() == a.last());
            }
            replacing_splits(rest, b, pat, with);
            assert(a.take(i) + with + (text::replace_all(rest, pat, with) + text::replace_all(
                b,
                pat,
                with,
            )) =~= (a.take(i) + with + text::replace_all(rest, pat, with)) + text::replace_all(
                b,
                pat,
                with,
            ));
        },
        None => {
            match text::find(b, pat) {
                Some(i) => {
                    occurrence_splits(a, b, pat, n + i);
                    assert forall|j: int| 0 <= j < n + i implies !text::occurs_at(s, pat, j) by {
                        occurrence_splits(a, b, pat, j);
                    }
                    find_at(s, pat, n + i);
                    assert(s.take(n + i) =~= a + b.take(i));
                    assert(s.skip(n + i + pat.len()) =~= b.skip(i + pat.len()));
                    assert((a + b.take(i)) + with + text::replace_all(
                        b.skip(i + pat.len()),
                        pat,
                        with,
                    ) =~= a + (b.take(i) + with + text::replace_all(
                        b.skip(i + pat.len()),
                        pat,
                        with,
                    )));
                },
                None => {
                    match text::find(s, pat) {
                        Some(p) => {
                            occurrence_splits(a, b, pat, p);
                        },
                        None => {},
                    }
                },
            }
        },
    }
}

/// Replacing keeps a last character that is none of the pattern's.
pub proof fn replacing_keeps_the_end(a: Seq<char>, pat: Seq<char>, with: Seq<char>)
    requires
        a.len() > 0,
        apart_from(a.last(), pat),
        pat.len() > 0,
    ensures
        text::replace_all(a, pat, with).len() > 0,
        text::replace_all(a, pat, with).last() == a.last(),
    decreases a.len(),
{
    text::find_is_first(a, pat, 0);
    match text::find(a, pat) {
        Some(i) => {
            let rest = a.skip(i + pat.len());
            if rest.len() == 0 {
                assert(a.subrange(i, i + pat.len())[pat.len() - 1] == a.last());
                assert(pat[pat.len() - 1] == a.last());
            } else {
                assert(rest.last() == a.last());
                replacing_keeps_the_end(rest, pat, with);
            }
        },
        None => {},
    }
}

/// Replacing at a first place: what stands before it stays, and what stands behind
/// it is replaced on its own.
pub proof fn replacing_first_place(s: Seq<char>, pat: Seq<char>, with: Seq<char>, i: int)
    requires
        pat.len() > 0,
        text::occurs_at(s, pat, i),
        forall|j: int| 0 <= j < i ==> !text::occurs_at(s, pat, j),
    ensures
        text::replace_all(s, pat, with) == s.take(i) + with + text::replace_all(
            s.skip(i + pat.len()),
            pat,
            with,
        ),
{
    find_at(s, pat, i);
}

/// Whether no place of `r` can lie partly inside `w`, whatever stands around `w`: `r` does
/// not go on as `w` begins, nor begin as `w` ends.
pub open spec fn stands_alone(w: Seq<char>, r: Seq<char>) -> bool {
    &&& 2 <= r.len() <= w.len()
    &&& forall|k: int| 0 < k < r.len() ==> #[trigger] r[k] != w[0]
    &&& forall|k: int|
        0 <= k < r.len() - 1 && #[trigger] r[k] == w.last() ==> k > 0 && r[k - 1] != w[w.len() - 2]
}

/// A place in a text put together from parts is a place in one of them, if the middle one
/// stands alone.
pub proof fn place_in_a_part(a: Seq<char>, w: Seq<char>, b: Seq<char>, r: Seq<char>, p: int)
    requires
        stands_alone(w, r),
        text::occurs_at(a + w + b, r, p),
    ensures
        text::occurs_at(a, r, p) || text::occurs_at(w, r, p - a.len()) || text::occurs_at(
            b,
            r,
            p - a.len() - w.len(),
        ),
{
    let t = a + w + b;
    let n = a.len() as int;
    let m = n + w.len();
    let e = p + r.len();
    let at = t.subrange(p, e);
    if e <= n {
        assert(a.subrange(p, e) =~= at);
    } else if p < n {
        assert(at[n - p] == w[0]);
    } else if e <= m {
        assert(w.subrange(p - n, e - n) =~= at);
    } else if p < m {
        let k = m - 1 - p;
        assert(at[k] == w.last());
        if k > 0 {
            assert(at[k - 1] == w[w.len() - 2]);
        }
    } else {
        assert(b.subrange(p - m, e - m) =~= at);
    }
}

/// What stands in a part stands in the whole.
pub proof fn part_stands_in_the_whole(t: Seq<char>, from: int, to: int, r: Seq<char>, p: int)
    requires
        0 <= from <= to <= t.len(),
        text::occurs_at(t.subrange(from, to), r, p),
    ensures
        text::occurs_at(t, r, from + p),
{
    assert(t.subrange(from, to).subrange(p, p + r.len()) =~= t.subrange(
        from + p,
        from + p + r.len(),
    ));
}

/// Replacing brings no `r` into a text that has none, and leaves none where `r` is what is
/// replaced.
pub proof fn replacing_brings_none(
    s: Seq<char>,
    pat: Seq<char>,
    with: Seq<char>,
    r: Seq<char>,
)
    requires
        pat.len() > 0,
        stands_alone(with, r),
        !text::contains(with, r),
        r == pat || !text::contains(s, r),
    ensures
        !text::contains(text::replace_all(s, pat, with), r),
    decreases s.len(),
{
    text::find_is_first(s, pat, 0);
    text::found_iff_contained(s, pat);
    match text::find(s, pat) {
        None => {},
        Some(i) => {
            let a = s.take(i);
            let tail = s.skip(i + pat.len());
            assert(a =~= s.subrange(0, i));
            assert(tail =~= s.subrange(i + pat.len(), s.len() as int));
            if r != pat {
                assert forall|p: int| !text::occurs_at(tail, r, p) by {
                    if text::occurs_at(tail, r, p) {
                        part_stands_in_the_whole(s, i + pat.len(), s.len() as int, r, p);
                    }
                }
            }
            replacing_brings_none(tail, pat, with, r);
            let rest = text::replace_all(tail, pat, with);
            assert forall|p: int| !text::occurs_at(a + with + rest, r, p) by {
                if text::occurs_at(a + with + rest, r, p) {
                    place_in_a_part(a, with, rest, r, p);
                    if text::occurs_at(a, r, p) {
                        part_stands_in_the_whole(s, 0, i, r, p);
                    }
                }
            }
        },
    }
}

/// Whether `next` stands behind every place of `r`.
pub open spec fn followed(s: Seq<char>, r: Seq<char>, next: Seq<char>) -> bool {
    forall|p: int| #[trigger] text::occurs_at(s, r, p) ==> text::occurs_at(s, r + next, p)
}

/// Replacing keeps `next` behind every `r`, if it stands so in what is put in, and in the
/// text, unless `r` is what is replaced.
pub proof fn replacing_keeps_what_follows(
    s: Seq<char>,
    pat: Seq<char>,
    with: Seq<char>,
    r: Seq<char>,
    next: Seq<char>,
)
    requires
        pat.len() > 0,
        stands_alone(with, r),
        followed(with, r, next),
        r == pat || followed(s, r, next) && apart_from(pat[0], next),
    ensures
        followed(text::replace_all(s, pat, with), r, next),
    decreases s.len(),
{
    text::find_is_first(s, pat, 0);
    match text::find(s, pat) {
        None => {},
        Some(i) => {
            let a = s.take(i);
            let tail = s.skip(i + pat.len());
            assert(a =~= s.subrange(0, i));
            assert(tail =~= s.subrange(i + pat.len(), s.len() as int));
            if r != pat {
                assert forall|p: int| #[trigger] text::occurs_at(tail, r, p) implies
                    text::occurs_at(tail, r + next, p) by {
                    let q = i + pat.len() + p;
                    part_stands_in_the_whole(s, i + pat.len(), s.len() as int, r, p);
                    assert(text::occurs_at(s, r + next, q));
                    assert(tail.subrange(p, p + (r + next).len()) =~= s.subrange(
                        q,
                        q + (r + next).len(),
                    ));
                }
            }
            replacing_keeps_what_follows(tail, pat, with, r, next);
            let rest = text::replace_all(tail, pat, with);
            let out = a + with + rest;
            let n = a.len() as int;
            let m = n + with.len();
            assert forall|p: int| #[trigger] text::occurs_at(out, r, p) implies text::occurs_at(
                out,
                r + next,
                p,
            ) by {
                place_in_a_part(a, with, rest, r, p);
                if text::occurs_at(a, r, p) {
                    part_stands_in_the_whole(s, 0, i, r, p);
                    assert(text::occurs_at(s, r + next, p));
                    let e = p + (r + next).len();
                    if e > i {
                        let k = i - p - r.len();
                        assert(s.subrange(i, i + pat.len())[0] == pat[0]);
                        assert(s.subrange(p, e)[i - p] == (r + next)[i - p]);
                        assert(next[k] == pat[0]);
                    }
                    assert(out.subrange(p, e) =~= s.subrange(p, e));
                } else if text::occurs_at(with, r, p - n) {
                    assert(out.subrange(n, m) =~= with);
                    part_stands_in_the_whole(out, n, m, r + next, p - n);
                } else {
                    assert(out.subrange(m, out.len() as int) =~= rest);
                    part_stands_in_the_whole(out, m, out.len() as int, r + next, p - m);
                }
            }
        },
    }
}

/// Whether behind the place `p` of `r` stands one of `ok`.
pub open spec fn goes_on_at(
    s: Seq<char>,
    r: Seq<char>,
    p: int,
    ok: spec_fn(Seq<char>) -> bool,
) -> bool {
    exists|h: Seq<char>| ok(h) && #[trigger] text::occurs_at(s, r + h, p)
}

/// Whether behind every place of `r` stands one of `ok`.
pub open spec fn goes_on(s: Seq<char>, r: Seq<char>, ok: spec_fn(Seq<char>) -> bool) -> bool {
    forall|p: int| #[trigger] text::occurs_at(s, r, p) ==> goes_on_at(s, r, p, ok)
}

/// Whether no place of `pat` starts inside `h`, whatever stands behind `h`.
pub open spec fn clear_of(h: Seq<char>, pat: Seq<char>) -> bool {
    forall|j: int| 0 <= j < h.len() ==> #[trigger] differs_at(h, pat, j)
}

/// Whether `h` from `j` on is unlike `pat`.
pub open spec fn differs_at(h: Seq<char>, pat: Seq<char>, j: int) -> bool {
    exists|k: int| 0 <= k < pat.len() && j + k < h.len() && h[j + k] != #[trigger] pat[k]
}

/// Where the text differs from a pattern, the pattern does not stand.
pub proof fn no_place_inside(t: Seq<char>, at: int, h: Seq<char>, pat: Seq<char>, j: int)
    requires
        text::occurs_at(t, h, at),
        clear_of(h, pat),
        0 <= j < h.len(),
    ensures
        !text::occurs_at(t, pat, at + j),
{
    if text::occurs_at(t, pat, at + j) {
        assert(differs_at(h, pat, j));
        let k = choose|k: int|
            0 <= k < pat.len() && j + k < h.len() && h[j + k] != #[trigger] pat[k];
        assert(t.subrange(at, at + h.len())[j + k] == h[j + k]);
        assert(t.subrange(at + j, at + j + pat.len())[k] == pat[k]);
    }
}

/// Two parts that a pattern cannot start in make a whole that it cannot start in.
pub proof fn clear_parts(a: Seq<char>, b: Seq<char>, pat: Seq<char>)
    requires
        clear_of(a, pat),
        clear_of(b, pat),
    ensures
        clear_of(a + b, pat),
{
    assert forall|j: int| 0 <= j < (a + b).len() implies #[trigger] differs_at(a + b, pat, j) by {
        if j < a.len() {
            assert(differs_at(a, pat, j));
            let k = choose|k: int|
                0 <= k < pat.len() && j + k < a.len() && a[j + k] != #[trigger] pat[k];
            assert((a + b)[j + k] != pat[k]);
        } else {
            let i = j - a.len();
            assert(differs_at(b, pat, i));
            let k = choose|k: int|
                0 <= k < pat.len() && i + k < b.len() && b[i + k] != #[trigger] pat[k];
            assert((a + b)[j + k] == b[i + k]);
        }
    }
}

/// What a pattern cannot start in stays, in front of what is replaced.
pub proof fn replacing_keeps_the_front(
    h: Seq<char>,
    x: Seq<char>,
    pat: Seq<char>,
    with: Seq<char>,
)
    requires
        pat.len() > 0,
        clear_of(h, pat),
    ensures
        text::replace_all(h + x, pat, with) == h + text::replace_all(x, pat, with),
{
    let t = h + x;
    let n = h.len() as int;
    assert(t.subrange(0, n) =~= h);
    text::find_is_first(x, pat, 0);
    text::find_is_first(t, pat, 0);
    match text::find(x, pat) {
        Some(i) => {
            assert(t.subrange(n + i, n + i + pat.len()) =~= x.subrange(i, i + pat.len()));
            assert forall|j: int| 0 <= j < n + i implies !text::occurs_at(t, pat, j) by {
                if j < n {
                    no_place_inside(t, 0, h, pat, j);
                } else if text::occurs_at(t, pat, j) {
                    assert(x.subrange(j - n, j - n + pat.len()) =~= t.subrange(j, j + pat.len()));
                    assert(text::occurs_at(x, pat, j - n));
                }
            }
            find_at(t, pat, n + i);
            assert(t.take(n + i) =~= h + x.take(i));
            assert(t.skip(n + i + pat.len()) =~= x.skip(i + pat.len()));
            let rest = text::replace_all(x.skip(i + pat.len()), pat, with);
            assert((h + x.take(i)) + with + rest =~= h + (x.take(i) + with + rest));
        },
        None => {
            match text::find(t, pat) {
                Some(p) => {
                    if p < n {
                        no_place_inside(t, 0, h, pat, p);
                    } else {
                        assert(x.subrange(p - n, p - n + pat.len()) =~= t.subrange(
                            p,
                            p + pat.len(),
                        ));
                        assert(text::occurs_at(x, pat, p - n));
                    }
                },
                None => {},
            }
        },
    }
}

/// What goes on behind a place goes on behind it in the text cut before it.
pub proof fn suffix_goes_on(
    s: Seq<char>,
    from: int,
    r: Seq<char>,
    p: int,
    ok: spec_fn(Seq<char>) -> bool,
)
    requires
        0 <= from <= s.len(),
        0 <= p,
        goes_on_at(s, r, from + p, ok),
    ensures
        goes_on_at(s.skip(from), r, p, ok),
{
    let h = choose|h: Seq<char>| ok(h) && #[trigger] text::occurs_at(s, r + h, from + p);
    let n = (r + h).len();
    assert(s.skip(from).subrange(p, p + n) =~= s.subrange(from + p, from + p + n));
    assert(text::occurs_at(s.skip(from), r + h, p));
}

/// What stands in a text cut off at its front stands in the text.
pub proof fn suffix_place(s: Seq<char>, from: int, r: Seq<char>, p: int)
    requires
        0 <= from <= s.len(),
        0 <= p,
    ensures
        text::occurs_at(s.skip(from), r, p) == text::occurs_at(s, r, from + p),
{
    if from + p + r.len() <= s.len() {
        assert(s.skip(from).subrange(p, p + r.len()) =~= s.subrange(
            from + p,
            from + p + r.len(),
        ));
    }
}

/// What goes on behind a place goes on behind it in a longer text.
pub proof fn part_goes_on(
    t: Seq<char>,
    from: int,
    to: int,
    r: Seq<char>,
    p: int,
    ok: spec_fn(Seq<char>) -> bool,
)
    requires
        0 <= from <= to <= t.len(),
        goes_on_at(t.subrange(from, to), r, p, ok),
    ensures
        goes_on_at(t, r, from + p, ok),
{
    let h = choose|h: Seq<char>| ok(h) && #[trigger] text::occurs_at(
        t.subrange(from, to),
        r + h,
        p,
    );
    part_stands_in_the_whole(t, from, to, r + h, p);
}

/// Replacing `pat` by a text that starts with `r`: what went on behind `pat` goes on
/// behind the new text, and what went on behind another `r` still does.
pub proof fn replacing_carries(
    s: Seq<char>,
    pat: Seq<char>,
    r: Seq<char>,
    v: Seq<char>,
    okp: spec_fn(Seq<char>) -> bool,
    ok: spec_fn(Seq<char>) -> bool,
    out: spec_fn(Seq<char>) -> bool,
)
    requires
        pat.len() > 0,
        stands_alone(r + v, r),
        forall|p: int| #[trigger] text::occurs_at(r + v, r, p) ==> p == 0,
        goes_on(s, pat, okp),
        forall|p: int| #[trigger]
            text::occurs_at(s, r, p) && !text::occurs_at(s, pat, p) ==> goes_on_at(s, r, p, ok),
        forall|h: Seq<char>| #[trigger] okp(h) ==> clear_of(h, pat) && out(v + h),
        forall|h: Seq<char>| #[trigger] ok(h) ==> clear_of(h, pat) && out(h),
    ensures
        goes_on(text::replace_all(s, pat, r + v), r, out),
    decreases s.len(),
{
    let with = r + v;
    text::find_is_first(s, pat, 0);
    match text::find(s, pat) {
        None => {
            assert forall|p: int| #[trigger] text::occurs_at(s, r, p) implies goes_on_at(
                s,
                r,
                p,
                out,
            ) by {
                assert(!text::occurs_at(s, pat, p));
                let h = choose|h: Seq<char>| ok(h) && #[trigger] text::occurs_at(s, r + h, p);
                assert(out(h) && text::occurs_at(s, r + h, p));
            }
        },
        Some(i) => {
            let cut = i + pat.len();
            let a = s.take(i);
            let tail = s.skip(cut);
            assert forall|p: int| #[trigger] text::occurs_at(tail, pat, p) implies goes_on_at(
                tail,
                pat,
                p,
                okp,
            ) by {
                suffix_place(s, cut, pat, p);
                suffix_goes_on(s, cut, pat, p, okp);
            }
            assert forall|p: int| #[trigger]
                text::occurs_at(tail, r, p) && !text::occurs_at(tail, pat, p) implies goes_on_at(
                tail,
                r,
                p,
                ok,
            ) by {
                suffix_place(s, cut, r, p);
                suffix_place(s, cut, pat, p);
                suffix_goes_on(s, cut, r, p, ok);
            }
            replacing_carries(tail, pat, r, v, okp, ok, out);
            let rest = text::replace_all(tail, pat, with);
            let h0 = choose|h: Seq<char>| okp(h) && #[trigger] text::occurs_at(s, pat + h, i);
            assert(goes_on_at(s, pat, i, okp));
            let x = tail.skip(h0.len() as int);
            assert(tail =~= h0 + x) by {
                assert(s.subrange(i, i + (pat + h0).len()) == pat + h0);
                assert forall|k: int| 0 <= k < h0.len() implies tail[k] == h0[k] by {
                    assert(s.subrange(i, i + (pat + h0).len())[pat.len() + k] == h0[k]);
                }
            }
            replacing_keeps_the_front(h0, x, pat, with);
            let o = a + with + rest;
            let n = a.len() as int;
            let m = n + with.len();
            assert forall|p: int| #[trigger] text::occurs_at(o, r, p) implies goes_on_at(
                o,
                r,
                p,
                out,
            ) by {
                place_in_a_part(a, with, rest, r, p);
                if text::occurs_at(a, r, p) {
                    carried_in_front(s, i, pat, r, p, ok);
                    let h = choose|h: Seq<char>| ok(h) && #[trigger] text::occurs_at(a, r + h, p);
                    assert(o.subrange(0, n) =~= a);
                    part_stands_in_the_whole(o, 0, n, r + h, p);
                    assert(out(h));
                } else if text::occurs_at(with, r, p - n) {
                    assert(p == n);
                    assert(o.subrange(n, n + (r + (v + h0)).len()) =~= r + (v + h0));
                    assert(out(v + h0));
                    assert(text::occurs_at(o, r + (v + h0), p));
                } else {
                    assert(o.subrange(m, o.len() as int) =~= rest);
                    part_goes_on(o, m, o.len() as int, r, p - m, out);
                }
            }
        },
    }
}

/// What goes on behind a place ends before the next pattern starts.
proof fn carried_in_front(
    s: Seq<char>,
    i: int,
    pat: Seq<char>,
    r: Seq<char>,
    p: int,
    ok: spec_fn(Seq<char>) -> bool,
)
    requires
        text::occurs_at(s, pat, i),
        forall|j: int| 0 <= j < i ==> !text::occurs_at(s, pat, j),
        text::occurs_at(s.take(i), r, p),
        r.len() > 0,
        text::occurs_at(s, r, p) && !text::occurs_at(s, pat, p) ==> goes_on_at(s, r, p, ok),
        forall|h: Seq<char>| #[trigger] ok(h) ==> clear_of(h, pat),
    ensures
        goes_on_at(s.take(i), r, p, ok),
{
    let a = s.take(i);
    assert(s.subrange(0, i) =~= a);
    part_stands_in_the_whole(s, 0, i, r, p);
    let h = choose|h: Seq<char>| ok(h) && #[trigger] text::occurs_at(s, r + h, p);
    let e = p + (r + h).len();
    if e > i {
        let at = p + r.len();
        assert(s.subrange(at, at + h.len()) =~= s.subrange(p, e).skip(r.len() as int));
        assert((r + h).skip(r.len() as int) =~= h);
        no_place_inside(s, at, h, pat, i - at);
    }
    assert(a.subrange(p, e) =~= s.subrange(p, e));
    assert(text::occurs_at(a, r + h, p));
}

/// The values of digits do not depend on zeros before them or on a plus sign; and a text with
/// anything else in it has none.
pub proof fn numbers_are_read_from_digits(d: Seq<char>, k: int)
    requires
        d.len() > 0,
    ensures
        text::all_digits(d) ==> text::u64_value(seq!['0'] + d) == text::u64_value(d),
        text::all_digits(d) ==> text::u64_value(seq!['+'] + d) == text::u64_value(d),
        0 < k < d.len() && !text::is_digit(d[k]) ==> text::u64_value(d) is None,
        !text::is_digit(d[0]) && d[0] != '+' ==> text::u64_value(d) is None,
        text::u64_value(Seq::empty()) is None,
        text::u64_value(seq!['+']) is None,
{
    let z = seq!['0'] + d;
    let p = seq!['+'] + d;
    assert(p.drop_first() =~= d);
    assert(seq!['+'].drop_first() =~= Seq::<char>::empty());
    if text::all_digits(d) {
        assert(text::is_digit(d[0]));
        assert forall|i: int| 0 <= i < z.len() implies text::is_digit(#[trigger] z[i]) by {
            if i > 0 {
                assert(z[i] == d[i - 1]);
            }
        }
        leading_zero_counts_nothing(d);
    }
    if 0 < k < d.len() && !text::is_digit(d[k]) {
        let u = text::unsigned_digits(d);
        if d[0] == '+' {
            assert(u[k - 1] == d[k]);
        } else {
            assert(u[k] == d[k]);
        }
    }
}

proof fn leading_zero_counts_nothing(d: Seq<char>)
    ensures
        text::dec_value(seq!['0'] + d) == text::dec_value(d),
    decreases d.len(),
{
    let z = seq!['0'] + d;
    if d.len() > 0 {
        leading_zero_counts_nothing(d.drop_last());
        assert(z.drop_last() =~= seq!['0'] + d.drop_last());
        assert(z.last() == d.last());
    } else {
        assert(z.drop_last() =~= Seq::<char>::empty());
        assert(text::dec_value(Seq::<char>::empty()) == 0);
    }
}

/// The lower-case form changes the letters of the alphabet, each to its own, and nothing else.
pub proof fn letters_are_lowered(k: int, c: char)
    requires
        0 <= k < 26,
    ensures
        text::lower_char(('A' as int + k) as char) == ('a' as int + k) as char,
        text::lower_char(('a' as int + k) as char) == ('a' as int + k) as char,
        !('A' <= c && c <= 'Z') ==> text::lower_char(c) == c,
        text::lower_char(text::lower_char(c)) == text::lower_char(c),
{
}

/// The length of a text in bytes is that of its encoding.
pub proof fn byte_length_is_that_of_the_encoding(s: Seq<char>)
    ensures
        text::byte_len(s) == vstd::utf8::encode_utf8(s).len(),
    decreases s.len(),
{
    if s.len() > 0 {
        let rest = s.drop_first();
        byte_length_is_that_of_the_encoding(rest);
        bytes_of_parts(seq![s[0]], rest);
        assert(seq![s[0]] + rest =~= s);
        assert(seq![s[0]].drop_last() =~= Seq::empty());
        assert(text::byte_len(seq![s[0]].drop_last()) == 0);
        let c = s[0];
        character_length(c);
    }
}

proof fn character_length(c: char)
    ensures
        vstd::utf8::encode_scalar(c as u32).len() == text::utf8_len(c),
{
    let n = c as u32;
    vstd::utf8::char_is_scalar(c);
    if n < 0x80 {
        assert(vstd::utf8::has_width_1_encoding(n));
    } else if n < 0x800 {
        assert(vstd::utf8::has_width_2_encoding(n));
    } else if n < 0x1_0000 {
        assert(vstd::utf8::has_width_3_encoding(n));
    }
}

/// The length of two texts put together.
pub proof fn bytes_of_parts(a: Seq<char>, b: Seq<char>)
    ensures
        text::byte_len(a + b) == text::byte_len(a) + text::byte_len(b),
    decreases b.len(),
{
    if b.len() > 0 {
        bytes_of_parts(a, b.drop_last());
        assert((a + b).drop_last() =~= a + b.drop_last());
        assert((a + b).last() == b.last());
    } else {
        assert(a + b =~= a);
    }
}

/// A byte offset falls between the characters whose encodings meet there.
pub proof fn offset_falls_between_parts(a: Seq<char>, b: Seq<char>)
    ensures
        text::index_at(a + b, vstd::utf8::encode_utf8(a).len() as int) == Some(a.len() as int),
{
    byte_length_is_that_of_the_encoding(a);
    let n = a.len() as int;
    let offset = vstd::utf8::encode_utf8(a).len() as int;
    assert((a + b).take(n) =~= a);
    assert(text::is_offset(a + b, offset, n));
    text::offset_is_unique(a + b, offset, n, text::index_at(a + b, offset)->0);
}

} // verus!
