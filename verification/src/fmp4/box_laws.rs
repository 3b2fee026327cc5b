//! What holds of boxes that were written one after the other.

use crate::fmp4::boxes;
use crate::fmp4::boxes::BoxView;
use crate::fmp4::laws;
use crate::bytes;
use vstd::prelude::*;

verus! {

/// Boxes, each with its type and its payload, written one after the other.
pub open spec fn written(items: Seq<(Seq<u8>, Seq<u8>)>) -> Seq<u8>
    decreases items.len(),
{
    if items.len() == 0 {
        Seq::empty()
    } else {
        boxes::iso_box(items[0].0, items[0].1) + written(items.drop_first())
    }
}

/// Whether the boxes can be written: each type has four bytes, and all of it has a 32-bit
/// size.
pub open spec fn can_be_written(items: Seq<(Seq<u8>, Seq<u8>)>) -> bool {
    &&& forall|i: int| 0 <= i < items.len() ==> (#[trigger] items[i]).0.len() == 4
    &&& written(items).len() < 0x1_0000_0000
}

/// Whether box `k` is the first one of a type.
pub open spec fn is_first(items: Seq<(Seq<u8>, Seq<u8>)>, fourcc: Seq<u8>, k: int) -> bool {
    &&& 0 <= k < items.len()
    &&& items[k].0 == fourcc
    &&& forall|j: int| 0 <= j < k ==> (#[trigger] items[j]).0 != fourcc
}

/// Whether there is no box of a type.
pub open spec fn has_none(items: Seq<(Seq<u8>, Seq<u8>)>, fourcc: Seq<u8>) -> bool {
    forall|j: int| 0 <= j < items.len() ==> (#[trigger] items[j]).0 != fourcc
}

/// Boxes read the same behind other bytes: each has its type and its payload.
#[verifier::rlimit(80)]
#[verifier::spinoff_prover]
pub proof fn boxes_read_behind(pre: Seq<u8>, s: Seq<u8>, pos: int)
    requires
        0 <= pos,
    ensures
        ({
            let far = boxes::box_list_from(pre + s, pre.len() + pos);
            let near = boxes::box_list_from(s, pos);
            &&& far.len() == near.len()
            &&& forall|i: int|
                0 <= i < near.len() ==> {
                    &&& (#[trigger] far[i]).fourcc == near[i].fourcc
                    &&& far[i].payload == near[i].payload
                    &&& far[i].total_size == near[i].total_size
                    &&& far[i].offset == pre.len() + near[i].offset
                }
        }),
    decreases s.len() - pos,
{
    let t = pre + s;
    let n = pre.len() as int;
    if pos + 8 <= s.len() {
        assert(forall|k: int| 0 <= k < s.len() ==> t[n + k] == s[k]);
        assert(t[n + pos] == s[pos] && t[n + pos + 1] == s[pos + 1] && t[n + pos + 2] == s[pos + 2]
            && t[n + pos + 3] == s[pos + 3]) by {
            assert(t[n + (pos + 1)] == s[pos + 1]);
            assert(t[n + (pos + 2)] == s[pos + 2]);
            assert(t[n + (pos + 3)] == s[pos + 3]);
        }
        assert(bytes::be32(t, n + pos) == bytes::be32(s, pos));
        assert(t.subrange(n + pos + 4, n + pos + 8) =~= s.subrange(pos + 4, pos + 8));
        if bytes::be32(s, pos) == 1 && pos + 16 <= s.len() {
            assert(t[n + (pos + 8)] == s[pos + 8] && t[n + (pos + 9)] == s[pos + 9]);
            assert(t[n + (pos + 10)] == s[pos + 10] && t[n + (pos + 11)] == s[pos + 11]);
            assert(t[n + (pos + 12)] == s[pos + 12] && t[n + (pos + 13)] == s[pos + 13]);
            assert(t[n + (pos + 14)] == s[pos + 14] && t[n + (pos + 15)] == s[pos + 15]);
            assert(bytes::be64(t, n + pos + 8) == bytes::be64(s, pos + 8)) by {
                assert(t[n + pos + 8] == s[pos + 8] && t[n + pos + 9] == s[pos + 9]);
                assert(t[n + pos + 10] == s[pos + 10] && t[n + pos + 11] == s[pos + 11]);
                assert(t[n + pos + 12] == s[pos + 12] && t[n + pos + 13] == s[pos + 13]);
                assert(t[n + pos + 14] == s[pos + 14] && t[n + pos + 15] == s[pos + 15]);
            }
        }
        if let Some(b) = boxes::box_at(s, pos) {
            let c = boxes::box_at(t, n + pos)->0;
            assert(c.payload =~= b.payload);
            boxes_read_behind(pre, s, pos + b.total_size);
            let far = boxes::box_list_from(t, n + pos);
            let near = boxes::box_list_from(s, pos);
            let far_rest = boxes::box_list_from(t, n + (pos + b.total_size));
            let near_rest = boxes::box_list_from(s, pos + b.total_size);
            assert(far =~= seq![c] + far_rest);
            assert forall|i: int| 0 <= i < near.len() implies {
                &&& (#[trigger] far[i]).fourcc == near[i].fourcc
                &&& far[i].payload == near[i].payload
                &&& far[i].total_size == near[i].total_size
                &&& far[i].offset == pre.len() + near[i].offset
            } by {
                if i > 0 {
                    assert(near[i] == near_rest[i - 1]);
                    assert(far[i] == far_rest[i - 1]);
                }
            }
        }
    }
}

/// Boxes that were written are read, each with its type and its payload, and nothing else.
#[verifier::rlimit(80)]
#[verifier::spinoff_prover]
pub proof fn written_boxes_are_listed(items: Seq<(Seq<u8>, Seq<u8>)>)
    requires
        can_be_written(items),
    ensures
        ({
            let bs = boxes::box_list(written(items));
            &&& bs.len() == items.len()
            &&& forall|i: int|
                0 <= i < items.len() ==> {
                    &&& (#[trigger] bs[i]).fourcc == items[i].0
                    &&& bs[i].payload == items[i].1
                    &&& boxes::raw_box(written(items), bs[i]) == boxes::iso_box(
                        items[i].0,
                        items[i].1,
                    )
                }
        }),
    decreases items.len(),
{
    let s = written(items);
    if items.len() == 0 {
        assert(boxes::box_at(s, 0) is None);
    } else {
        let x = boxes::iso_box(items[0].0, items[0].1);
        let tail = items.drop_first();
        let rest = written(tail);
        assert(items[0].0.len() == 4);
        assert(can_be_written(tail)) by {
            assert forall|i: int| 0 <= i < tail.len() implies (#[trigger] tail[i]).0.len() == 4 by {
                assert(tail[i] == items[i + 1]);
            }
        }
        written_boxes_are_listed(tail);
        laws::written_box_reads_back(items[0].0, items[0].1);
        let e = Seq::<u8>::empty();
        laws::box_reads_anywhere(e, x, rest, items[0].0, items[0].1);
        assert(e + x + rest =~= s);
        boxes_read_behind(x, rest, 0);
        let bs = boxes::box_list(s);
        let b = boxes::box_at(s, 0)->0;
        let far = boxes::box_list_from(s, x.len() as int);
        let near = boxes::box_list(rest);
        assert(bs =~= seq![b] + far);
        assert(boxes::raw_box(s, b) =~= x);
        assert forall|i: int| 0 <= i < items.len() implies {
            &&& (#[trigger] bs[i]).fourcc == items[i].0
            &&& bs[i].payload == items[i].1
            &&& boxes::raw_box(s, bs[i]) == boxes::iso_box(items[i].0, items[i].1)
        } by {
            if i > 0 {
                assert(bs[i] == far[i - 1]);
                assert(tail[i - 1] == items[i]);
                let c = near[i - 1];
                boxes::boxes_in_bounds(rest, 0, i - 1);
                assert(boxes::raw_box(s, far[i - 1]) =~= boxes::raw_box(rest, c));
            }
        }
    }
}

/// The first box of a type among boxes that were written.
pub proof fn written_child(items: Seq<(Seq<u8>, Seq<u8>)>, fourcc: Seq<u8>, k: int)
    requires
        can_be_written(items),
        is_first(items, fourcc, k),
    ensures
        boxes::child(written(items), fourcc) is Some,
        (boxes::child(written(items), fourcc)->0).payload == items[k].1,
{
    written_boxes_are_listed(items);
    let bs = boxes::box_list(written(items));
    first_is(bs, fourcc, k);
}

/// There is no box of a type that was not written.
pub proof fn no_written_child(items: Seq<(Seq<u8>, Seq<u8>)>, fourcc: Seq<u8>)
    requires
        can_be_written(items),
        has_none(items, fourcc),
    ensures
        boxes::child(written(items), fourcc) is None,
{
    written_boxes_are_listed(items);
    let bs = boxes::box_list(written(items));
    if boxes::first_of(bs, fourcc) is Some {
        let i = boxes::first_of_is_member(bs, fourcc);
        assert(items[i].0 == fourcc);
    }
}

proof fn first_is(bs: Seq<BoxView>, fourcc: Seq<u8>, k: int)
    requires
        0 <= k < bs.len(),
        bs[k].fourcc == fourcc,
        forall|j: int| 0 <= j < k ==> (#[trigger] bs[j]).fourcc != fourcc,
    ensures
        boxes::first_of(bs, fourcc) == Some(bs[k]),
    decreases k,
{
    if k > 0 {
        assert(bs[0].fourcc != fourcc);
        let t = bs.drop_first();
        assert forall|j: int| 0 <= j < k - 1 implies (#[trigger] t[j]).fourcc != fourcc by {
            assert(t[j] == bs[j + 1]);
        }
        first_is(t, fourcc, k - 1);
    }
}

/// A box inside others takes less room than they do.
pub proof fn written_item_fits(items: Seq<(Seq<u8>, Seq<u8>)>, k: int)
    requires
        can_be_written(items),
        0 <= k < items.len(),
    ensures
        items[k].1.len() + 8 <= written(items).len(),
{
    written_boxes_are_listed(items);
    boxes::boxes_in_bounds(written(items), 0, k);
}

/// Boxes written in two parts are written one after the other.
pub proof fn written_of_parts(a: Seq<(Seq<u8>, Seq<u8>)>, b: Seq<(Seq<u8>, Seq<u8>)>)
    ensures
        written(a + b) == written(a) + written(b),
    decreases a.len(),
{
    if a.len() == 0 {
        assert(a + b =~= b);
        assert(written(a) + written(b) =~= written(b));
    } else {
        written_of_parts(a.drop_first(), b);
        assert((a + b).drop_first() =~= a.drop_first() + b);
        assert(written(a + b) =~= written(a) + written(b));
    }
}

/// The boxes before and behind a box.
pub struct Around {
    pub before: Seq<(Seq<u8>, Seq<u8>)>,
    pub behind: Seq<(Seq<u8>, Seq<u8>)>,
}

/// A box with others around it.
pub open spec fn around(a: Around, fourcc: Seq<u8>, payload: Seq<u8>) -> Seq<(Seq<u8>, Seq<u8>)> {
    a.before + seq![(fourcc, payload)] + a.behind
}

/// The others alone.
pub open spec fn others(a: Around) -> Seq<(Seq<u8>, Seq<u8>)> {
    a.before + a.behind
}

/// Whether the boxes around have types, and none of them this one.
pub open spec fn stands_alone(a: Around, fourcc: Seq<u8>) -> bool {
    &&& forall|i: int| 0 <= i < others(a).len() ==> (#[trigger] others(a)[i]).0.len() == 4
    &&& has_none(others(a), fourcc)
}

/// What a box with others around it is made of, and how long it is.
pub proof fn around_parts(a: Around, fourcc: Seq<u8>, payload: Seq<u8>)
    requires
        fourcc.len() == 4,
    ensures
        written(around(a, fourcc, payload)) == written(a.before) + boxes::iso_box(fourcc, payload)
            + written(a.behind),
        written(others(a)) == written(a.before) + written(a.behind),
        written(around(a, fourcc, payload)).len() == written(others(a)).len() + 8 + payload.len(),
{
    let one = seq![(fourcc, payload)];
    written_of_parts(a.before + one, a.behind);
    written_of_parts(a.before, one);
    written_of_parts(a.before, a.behind);
    assert(one.drop_first() =~= Seq::empty());
    assert(written(one) =~= boxes::iso_box(fourcc, payload)) by {
        assert(written(one.drop_first()) =~= Seq::empty());
    }
}

/// A box with others around it can be written, and is the first of its type.
pub proof fn around_is_first(a: Around, fourcc: Seq<u8>, payload: Seq<u8>)
    requires
        fourcc.len() == 4,
        stands_alone(a, fourcc),
        written(around(a, fourcc, payload)).len() < 0x1_0000_0000,
    ensures
        can_be_written(around(a, fourcc, payload)),
        is_first(around(a, fourcc, payload), fourcc, a.before.len() as int),
        around(a, fourcc, payload)[a.before.len() as int] == (fourcc, payload),
{
    let items = around(a, fourcc, payload);
    let n = a.before.len() as int;
    assert forall|i: int| 0 <= i < items.len() implies (#[trigger] items[i]).0.len() == 4 && (i
        != n ==> items[i].0 != fourcc) by {
        if i < n {
            assert(items[i] == others(a)[i]);
        } else if i > n {
            assert(items[i] == others(a)[i - 1]);
        }
    }
}

/// The one box of a type is found among others.
pub proof fn child_around(a: Around, fourcc: Seq<u8>, payload: Seq<u8>)
    requires
        fourcc.len() == 4,
        stands_alone(a, fourcc),
        written(around(a, fourcc, payload)).len() < 0x1_0000_0000,
    ensures
        boxes::child(written(around(a, fourcc, payload)), fourcc) is Some,
        (boxes::child(written(around(a, fourcc, payload)), fourcc)->0).payload == payload,
{
    around_is_first(a, fourcc, payload);
    written_child(around(a, fourcc, payload), fourcc, a.before.len() as int);
}

/// A rewriting that keeps the boxes from some place on writes them again.
proof fn kept_boxes(
    items: Seq<(Seq<u8>, Seq<u8>)>,
    bs: Seq<BoxView>,
    f: spec_fn(BoxView) -> Seq<u8>,
    g: spec_fn(int) -> Seq<u8>,
    k: int,
)
    requires
        bs.len() == items.len(),
        0 <= k <= bs.len(),
        forall|i: int|
            0 <= i < bs.len() ==> #[trigger] f(bs[i]) == g(i),
    ensures
        boxes::concat_boxes(bs.skip(k), f) == listed(g, k, bs.len() as int),
    decreases bs.len() - k,
{
    let t = bs.skip(k);
    if k < bs.len() {
        kept_boxes(items, bs, f, g, k + 1);
        assert(t.drop_first() =~= bs.skip(k + 1));
        assert(t[0] == bs[k]);
        assert(f(bs[k]) == g(k));
    }
}

/// What `g` gives for each place from `k` on, one after the other.
spec fn listed(g: spec_fn(int) -> Seq<u8>, k: int, n: int) -> Seq<u8>
    decreases n - k,
{
    if k >= n {
        Seq::empty()
    } else {
        g(k) + listed(g, k + 1, n)
    }
}

proof fn listed_boxes(items: Seq<(Seq<u8>, Seq<u8>)>, g: spec_fn(int) -> Seq<u8>, k: int, n: int)
    requires
        0 <= k <= n <= items.len(),
        forall|i: int| k <= i < n ==> #[trigger] g(i) == boxes::iso_box(items[i].0, items[i].1),
    ensures
        listed(g, k, n) == written(items.subrange(k, n)),
    decreases n - k,
{
    let t = items.subrange(k, n);
    if k < n {
        listed_boxes(items, g, k + 1, n);
        assert(t.drop_first() =~= items.subrange(k + 1, n));
        assert(g(k) == boxes::iso_box(items[k].0, items[k].1));
        assert(t[0] == items[k]);
    }
}

proof fn listed_in_two(g: spec_fn(int) -> Seq<u8>, k: int, m: int, n: int)
    requires
        0 <= k <= m <= n,
    ensures
        listed(g, k, n) == listed(g, k, m) + listed(g, m, n),
    decreases m - k,
{
    if k < m {
        listed_in_two(g, k + 1, m, n);
        assert(listed(g, k, n) =~= listed(g, k, m) + listed(g, m, n));
    } else {
        assert(listed(g, k, m) + listed(g, m, n) =~= listed(g, m, n));
    }
}

/// A rewriting that changes boxes of one type changes the one box of that type, and leaves
/// the others as they were written.
pub proof fn rewriting_around(
    a: Around,
    fourcc: Seq<u8>,
    payload: Seq<u8>,
    f: spec_fn(BoxView) -> Seq<u8>,
    new: Seq<u8>,
)
    requires
        fourcc.len() == 4,
        stands_alone(a, fourcc),
        written(around(a, fourcc, payload)).len() < 0x1_0000_0000,
        ({
            let s = written(around(a, fourcc, payload));
            forall|b: BoxView|
                {
                    &&& b.fourcc != fourcc && is_other(a, b.fourcc) ==> #[trigger] f(b)
                        == boxes::raw_box(s, b)
                    &&& b.fourcc == fourcc && b.payload == payload ==> f(b) == new
                }
        }),
    ensures
        boxes::concat_boxes(boxes::box_list(written(around(a, fourcc, payload))), f) == written(
            a.before,
        ) + new + written(a.behind),
{
    let items = around(a, fourcc, payload);
    let s = written(items);
    let bs = boxes::box_list(s);
    let n = a.before.len() as int;
    let m = items.len() as int;
    around_is_first(a, fourcc, payload);
    written_boxes_are_listed(items);
    let g = |i: int|
        if i == n {
            new
        } else {
            boxes::iso_box(items[i].0, items[i].1)
        };
    assert forall|i: int| 0 <= i < bs.len() implies #[trigger] f(bs[i]) == g(i) by {
        assert(bs[i].fourcc == items[i].0);
        assert(bs[i].payload == items[i].1);
        if i < n {
            assert(items[i] == others(a)[i]);
        } else if i > n {
            assert(items[i] == others(a)[i - 1]);
        }
    }
    kept_boxes(items, bs, f, g, 0);
    assert(bs.skip(0) =~= bs);
    listed_in_two(g, 0, n, m);
    listed_in_two(g, n, n + 1, m);
    listed_boxes(items, g, 0, n);
    listed_boxes(items, g, n + 1, m);
    assert(items.subrange(0, n) =~= a.before);
    assert(items.subrange(n + 1, m) =~= a.behind);
    assert(listed(g, n + 1, n + 1) =~= Seq::empty());
    assert(listed(g, n, n + 1) =~= new) by {
        assert(listed(g, n, n + 1) == g(n) + listed(g, n + 1, n + 1));
    }
    assert(written(a.before) + (new + written(a.behind)) =~= written(a.before) + new + written(
        a.behind,
    ));
}

/// A rewriting that copies each of the boxes gives them as they were.
pub proof fn kept_boxes_stay(items: Seq<(Seq<u8>, Seq<u8>)>, f: spec_fn(BoxView) -> Seq<u8>)
    requires
        can_be_written(items),
        forall|b: BoxView|
            (exists|j: int| 0 <= j < items.len() && (#[trigger] items[j]).0 == b.fourcc)
                ==> #[trigger] f(b) == boxes::raw_box(written(items), b),
    ensures
        boxes::concat_boxes(boxes::box_list(written(items)), f) == written(items),
{
    let bs = boxes::box_list(written(items));
    written_boxes_are_listed(items);
    let g = |i: int| boxes::iso_box(items[i].0, items[i].1);
    assert forall|i: int| 0 <= i < bs.len() implies #[trigger] f(bs[i]) == g(i) by {
        assert(bs[i].fourcc == items[i].0);
    }
    kept_boxes(items, bs, f, g, 0);
    assert(bs.skip(0) =~= bs);
    listed_boxes(items, g, 0, items.len() as int);
    assert(items.subrange(0, items.len() as int) =~= items);
}

/// Whether a type is that of one of the boxes around.
pub open spec fn is_other(a: Around, fourcc: Seq<u8>) -> bool {
    exists|i: int| 0 <= i < others(a).len() && (#[trigger] others(a)[i]).0 == fourcc
}

/// A box with a 64-bit size.
pub open spec fn large_box(fourcc: Seq<u8>, payload: Seq<u8>) -> Seq<u8> {
    let n = 16 + payload.len() as int;
    bytes::be32_bytes(1) + fourcc + bytes::be32_bytes(n / 0x1_0000_0000) + bytes::be32_bytes(
        n % 0x1_0000_0000,
    ) + payload
}

/// A box with a 64-bit size is read, whatever follows it.
pub proof fn large_box_is_read(fourcc: Seq<u8>, payload: Seq<u8>, rest: Seq<u8>)
    requires
        fourcc.len() == 4,
        16 + payload.len() < 0x1_0000_0000_0000_0000,
    ensures
        ({
            let s = large_box(fourcc, payload) + rest;
            &&& boxes::box_at(s, 0) is Some
            &&& (boxes::box_at(s, 0)->0).fourcc == fourcc
            &&& (boxes::box_at(s, 0)->0).payload == payload
            &&& boxes::raw_box(s, boxes::box_at(s, 0)->0) == large_box(fourcc, payload)
        }),
{
    let n = 16 + payload.len() as int;
    let s = large_box(fourcc, payload) + rest;
    let high = bytes::be32_bytes(n / 0x1_0000_0000);
    let low = bytes::be32_bytes(n % 0x1_0000_0000);
    bytes::be32_round_trip(1, fourcc + high + low + payload + rest);
    assert(s =~= bytes::be32_bytes(1) + (fourcc + high + low + payload + rest));
    bytes::be32_round_trip(n / 0x1_0000_0000, low);
    bytes::be32_round_trip(n % 0x1_0000_0000, payload);
    assert(s[8] == high[0] && s[9] == high[1] && s[10] == high[2] && s[11] == high[3]);
    assert(s[12] == low[0] && s[13] == low[1] && s[14] == low[2] && s[15] == low[3]);
    assert((high + low)[0] == high[0] && (high + low)[1] == high[1] && (high + low)[2] == high[2]
        && (high + low)[3] == high[3]);
    assert((low + payload)[0] == low[0] && (low + payload)[1] == low[1] && (low + payload)[2]
        == low[2] && (low + payload)[3] == low[3]);
    assert(bytes::be32(s, 8) == n / 0x1_0000_0000);
    assert(bytes::be32(s, 12) == n % 0x1_0000_0000);
    assert(bytes::be64(s, 8) == n);
    assert(s.subrange(4, 8) =~= fourcc);
    assert(s.subrange(16, n) =~= payload);
    assert(s.subrange(0, n) =~= large_box(fourcc, payload));
}

/// A box of size zero reaches to the end.
pub proof fn unsized_box_takes_the_rest(fourcc: Seq<u8>, payload: Seq<u8>)
    requires
        fourcc.len() == 4,
    ensures
        ({
            let s = seq![0u8, 0, 0, 0] + fourcc + payload;
            let bs = boxes::box_list(s);
            &&& bs.len() == 1
            &&& bs[0].fourcc == fourcc
            &&& bs[0].payload == payload
        }),
{
    let s = seq![0u8, 0, 0, 0] + fourcc + payload;
    assert(s[0] == 0 && s[1] == 0 && s[2] == 0 && s[3] == 0);
    assert(bytes::be32(s, 0) == 0);
    assert(s.subrange(4, 8) =~= fourcc);
    assert(s.subrange(8, s.len() as int) =~= payload);
    assert(boxes::box_at(s, s.len() as int) is None);
    assert(boxes::box_list_from(s, s.len() as int) =~= Seq::empty());
    assert(boxes::box_list(s) =~= seq![boxes::box_at(s, 0)->0]);
}

/// The first box of a type, wherever it stands: one that comes first is found; the boxes of a
/// container are looked at before those behind it, and the payload of any other box is not
/// looked at.
pub proof fn boxes_are_searched_in_depth(
    first: Seq<u8>,
    payload: Seq<u8>,
    rest: Seq<u8>,
    fourcc: Seq<u8>,
)
    requires
        first.len() == 4,
        8 + payload.len() < 0x1_0000_0000,
    ensures
        laws::payload_of(
            boxes::deep_first_from(boxes::iso_box(first, payload) + rest, 0, fourcc),
        ) == if first == fourcc {
            Some(payload)
        } else if boxes::is_container(first) && boxes::deep_first_from(payload, 0, fourcc)
            is Some {
            laws::payload_of(boxes::deep_first_from(payload, 0, fourcc))
        } else {
            laws::payload_of(boxes::deep_first_from(rest, 0, fourcc))
        },
{
    let x = boxes::iso_box(first, payload);
    let s = x + rest;
    let e = Seq::<u8>::empty();
    laws::written_box_reads_back(first, payload);
    laws::box_reads_anywhere(e, x, rest, first, payload);
    assert(e + x + rest =~= s);
    searched_behind(x, rest, 0, fourcc);
}

proof fn searched_behind(pre: Seq<u8>, s: Seq<u8>, pos: int, fourcc: Seq<u8>)
    requires
        0 <= pos,
        pre.len() > 0,
    ensures
        laws::payload_of(boxes::deep_first_from(pre + s, pre.len() + pos, fourcc))
            == laws::payload_of(boxes::deep_first_from(s, pos, fourcc)),
    decreases s.len() - pos,
{
    let t = pre + s;
    let n = pre.len() as int;
    boxes_read_behind(pre, s, pos);
    let far = boxes::box_list_from(t, n + pos);
    let near = boxes::box_list_from(s, pos);
    match boxes::box_at(s, pos) {
        None => {
            assert(near.len() == 0);
            if boxes::box_at(t, n + pos) is Some {
                assert(far.len() > 0);
            }
        },
        Some(b) => {
            assert(near[0] == b);
            assert(far.len() > 0);
            let c = boxes::box_at(t, n + pos)->0;
            assert(far[0] == c);
            searched_behind(pre, s, pos + b.total_size, fourcc);
        },
    }
}

} // verus!
