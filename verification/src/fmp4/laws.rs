//! What holds of boxes that are read, rewritten and read again, and of a rewritten
//! init segment.

use crate::bytes;
use crate::fmp4::boxes;
use crate::fmp4::boxes::{BoxView, MOOV, PSSH, TRAK};
use crate::fmp4::init;
use crate::fmp4::strip;
use vstd::prelude::*;

verus! {

/// The boxes of a buffer lie end to end, from its start.
pub proof fn boxes_lie_end_to_end(s: Seq<u8>, i: int)
    requires
        0 <= i < boxes::box_list(s).len(),
    ensures
        boxes::box_list(s)[i].offset == if i == 0 {
            0
        } else {
            boxes::box_list(s)[i - 1].offset + boxes::box_list(s)[i - 1].total_size
        },
        boxes::box_list(s)[i].offset + boxes::box_list(s)[i].total_size <= s.len(),
{
    boxes::boxes_in_bounds(s, 0, i);
    end_to_end_from(s, 0, i);
}

proof fn end_to_end_from(s: Seq<u8>, pos: int, i: int)
    requires
        0 <= pos,
        0 <= i < boxes::box_list_from(s, pos).len(),
    ensures
        boxes::box_list_from(s, pos)[i].offset == if i == 0 {
            pos
        } else {
            boxes::box_list_from(s, pos)[i - 1].offset + boxes::box_list_from(
                s,
                pos,
            )[i - 1].total_size
        },
    decreases i,
{
    let b = boxes::box_at(s, pos)->0;
    if i > 0 {
        end_to_end_from(s, pos + b.total_size, i - 1);
    }
}

/// Whether `x` is one whole box.
pub open spec fn reads_as(x: Seq<u8>, fourcc: Seq<u8>, payload: Seq<u8>) -> bool {
    boxes::box_at(x, 0) == Some(
        BoxView { fourcc, payload, offset: 0, total_size: x.len() as int },
    )
}

/// Whether the box at `pos` has a size of its own, and does not just reach to the
/// end of its buffer.
pub open spec fn sized_at(s: Seq<u8>, pos: int) -> bool {
    bytes::be32(s, pos) != 0
}

/// A box reads the same wherever it stands, if it has a size of its own or nothing
/// stands behind it.
pub proof fn box_reads_anywhere(
    pre: Seq<u8>,
    x: Seq<u8>,
    rest: Seq<u8>,
    fourcc: Seq<u8>,
    payload: Seq<u8>,
)
    requires
        reads_as(x, fourcc, payload),
        sized_at(x, 0) || rest.len() == 0,
    ensures
        boxes::box_at(pre + x + rest, pre.len() as int) == Some(
            BoxView {
                fourcc,
                payload,
                offset: pre.len() as int,
                total_size: x.len() as int,
            },
        ),
{
    let t = pre + x + rest;
    let n = pre.len() as int;
    assert(forall|i: int| 0 <= i < x.len() ==> t[n + i] == x[i]);
    assert(x.len() >= 8);
    assert(bytes::be32(t, n) == bytes::be32(x, 0)) by {
        assert(t[n] == t[n + 0]);
        assert(t[n + 0] == x[0] && t[n + 1] == x[1] && t[n + 2] == x[2] && t[n + 3] == x[3]);
    }
    let header: int = if bytes::be32(x, 0) == 1 {
        16
    } else {
        8
    };
    if bytes::be32(x, 0) == 1 {
        assert(bytes::be64(t, n + 8) == bytes::be64(x, 8)) by {
            assert(t[n + 8] == x[8] && t[n + 9] == x[9] && t[n + 10] == x[10] && t[n + 11]
                == x[11]);
            assert(t[n + 12] == x[12] && t[n + 13] == x[13] && t[n + 14] == x[14] && t[n + 15]
                == x[15]);
        }
    }
    assert(t.subrange(n + 4, n + 8) =~= x.subrange(4, 8));
    assert(t.subrange(n + header, n + x.len()) =~= x.subrange(header, x.len() as int));
}

/// A box that was written reads back as it was written.
pub proof fn written_box_reads_back(fourcc: Seq<u8>, payload: Seq<u8>)
    requires
        fourcc.len() == 4,
        8 + payload.len() < 0x1_0000_0000,
    ensures
        reads_as(boxes::iso_box(fourcc, payload), fourcc, payload),
        sized_at(boxes::iso_box(fourcc, payload), 0),
        boxes::iso_box(fourcc, payload).len() == 8 + payload.len(),
{
    let x = boxes::iso_box(fourcc, payload);
    bytes::be32_round_trip(8 + payload.len() as int, fourcc + payload);
    assert(x =~= bytes::be32_bytes(8 + payload.len() as int) + (fourcc + payload));
    assert(x.subrange(4, 8) =~= fourcc);
    assert(x.subrange(8, x.len() as int) =~= payload);
}

/// The bytes of a box, taken out of its buffer, are that box.
pub proof fn raw_box_reads_back(s: Seq<u8>, pos: int)
    requires
        0 <= pos,
        boxes::box_at(s, pos) is Some,
    ensures
        reads_as(
            boxes::raw_box(s, boxes::box_at(s, pos)->0),
            (boxes::box_at(s, pos)->0).fourcc,
            (boxes::box_at(s, pos)->0).payload,
        ),
        sized_at(boxes::raw_box(s, boxes::box_at(s, pos)->0), 0) == sized_at(s, pos),
        boxes::raw_box(s, boxes::box_at(s, pos)->0).len() == (boxes::box_at(s, pos)->0).total_size,
{
    let b = boxes::box_at(s, pos)->0;
    let x = boxes::raw_box(s, b);
    assert(forall|i: int| 0 <= i < x.len() ==> x[i] == s[pos + i]);
    assert(x.len() >= 8);
    assert(bytes::be32(x, 0) == bytes::be32(s, pos)) by {
        assert(s[pos] == s[pos + 0]);
        assert(x[0] == s[pos + 0] && x[1] == s[pos + 1] && x[2] == s[pos + 2] && x[3] == s[pos
            + 3]);
    }
    let header: int = if bytes::be32(s, pos) == 1 {
        16
    } else {
        8
    };
    if bytes::be32(s, pos) == 1 {
        assert(bytes::be64(x, 8) == bytes::be64(s, pos + 8)) by {
            assert(x[8] == s[pos + 8] && x[9] == s[pos + 9] && x[10] == s[pos + 10] && x[11]
                == s[pos + 11]);
            assert(x[12] == s[pos + 12] && x[13] == s[pos + 13] && x[14] == s[pos + 14] && x[15]
                == s[pos + 15]);
        }
    }
    assert(x.subrange(4, 8) =~= s.subrange(pos + 4, pos + 8));
    assert(x.subrange(header, x.len() as int) =~= s.subrange(pos + header, pos + b.total_size));
}

/// Only the last box of a list can lack a size of its own.
pub proof fn only_the_last_is_unsized(s: Seq<u8>, pos: int, i: int)
    requires
        0 <= pos,
        0 <= i < boxes::box_list_from(s, pos).len() - 1,
    ensures
        sized_at(s, boxes::box_list_from(s, pos)[i].offset),
    decreases i,
{
    let b = boxes::box_at(s, pos)->0;
    if i > 0 {
        only_the_last_is_unsized(s, pos + b.total_size, i - 1);
    } else {
        assert(boxes::box_list_from(s, pos + b.total_size).len() > 0);
    }
}

/// Whether `f` writes, for each box of a list, what `g` names: nothing, or one box
/// of that type with that payload, which has a size of its own unless it is the
/// last.
pub open spec fn writes(
    bs: Seq<BoxView>,
    f: spec_fn(BoxView) -> Seq<u8>,
    g: spec_fn(BoxView) -> Option<(Seq<u8>, Seq<u8>)>,
) -> bool {
    forall|i: int|
        0 <= i < bs.len() ==> match g(#[trigger] bs[i]) {
            None => f(bs[i]).len() == 0,
            Some(w) => {
                &&& reads_as(f(bs[i]), w.0, w.1)
                &&& sized_at(f(bs[i]), 0) || i == bs.len() - 1
            },
        }
}

/// Whether what `f` writes for the last box of a list has a size of its own.
pub open spec fn last_is_sized(
    bs: Seq<BoxView>,
    f: spec_fn(BoxView) -> Seq<u8>,
    g: spec_fn(BoxView) -> Option<(Seq<u8>, Seq<u8>)>,
) -> bool {
    bs.len() > 0 && g(bs.last()) is Some ==> sized_at(f(bs.last()), 0)
}

/// The boxes that `g` names, placed one after the other from `pos` on.
pub open spec fn placed(
    bs: Seq<BoxView>,
    f: spec_fn(BoxView) -> Seq<u8>,
    g: spec_fn(BoxView) -> Option<(Seq<u8>, Seq<u8>)>,
    pos: int,
) -> Seq<BoxView>
    decreases bs.len(),
{
    if bs.len() == 0 {
        Seq::empty()
    } else {
        match g(bs[0]) {
            None => placed(bs.drop_first(), f, g, pos),
            Some(w) => seq![
                BoxView {
                    fourcc: w.0,
                    payload: w.1,
                    offset: pos,
                    total_size: f(bs[0]).len() as int,
                },
            ] + placed(bs.drop_first(), f, g, pos + f(bs[0]).len()),
        }
    }
}

/// What was written box by box reads back box by box, up to what follows it.
pub proof fn rewritten_boxes_read_back(
    pre: Seq<u8>,
    bs: Seq<BoxView>,
    f: spec_fn(BoxView) -> Seq<u8>,
    g: spec_fn(BoxView) -> Option<(Seq<u8>, Seq<u8>)>,
    rest: Seq<u8>,
)
    requires
        writes(bs, f, g),
        last_is_sized(bs, f, g) || rest.len() == 0,
    ensures
        boxes::box_list_from(pre + boxes::concat_boxes(bs, f) + rest, pre.len() as int) == placed(
            bs,
            f,
            g,
            pre.len() as int,
        ) + boxes::box_list_from(
            pre + boxes::concat_boxes(bs, f) + rest,
            (pre + boxes::concat_boxes(bs, f)).len() as int,
        ),
    decreases bs.len(),
{
    let t = pre + boxes::concat_boxes(bs, f) + rest;
    let n = pre.len() as int;
    if bs.len() == 0 {
        assert(t =~= pre + rest);
        assert(placed(bs, f, g, n) + boxes::box_list_from(t, n) =~= boxes::box_list_from(t, n));
    } else {
        let x = f(bs[0]);
        let more = boxes::concat_boxes(bs.drop_first(), f);
        let tail = bs.drop_first();
        assert(writes(tail, f, g)) by {
            assert forall|i: int| 0 <= i < tail.len() implies (match g(#[trigger] tail[i]) {
                None => f(tail[i]).len() == 0,
                Some(w) => {
                    &&& reads_as(f(tail[i]), w.0, w.1)
                    &&& sized_at(f(tail[i]), 0) || i == tail.len() - 1
                },
            }) by {
                assert(tail[i] == bs[i + 1]);
            }
        }
        if tail.len() > 0 {
            assert(tail.last() == bs.last());
        }
        match g(bs[0]) {
            None => {
                assert(x =~= Seq::empty());
                assert(pre + boxes::concat_boxes(bs, f) =~= pre + more);
                rewritten_boxes_read_back(pre, tail, f, g, rest);
            },
            Some(w) => {
                assert(reads_as(f(bs[0]), w.0, w.1));
                if !sized_at(x, 0) {
                    assert(tail.len() == 0);
                    assert(more =~= Seq::empty());
                    assert(bs.last() == bs[0]);
                }
                box_reads_anywhere(pre, x, more + rest, w.0, w.1);
                assert(t =~= pre + x + (more + rest));
                assert(t =~= (pre + x) + more + rest);
                assert(pre + boxes::concat_boxes(bs, f) =~= (pre + x) + more);
                rewritten_boxes_read_back(pre + x, tail, f, g, rest);
                let b = boxes::box_at(t, n)->0;
                assert(boxes::box_list_from(t, n) =~= seq![b] + boxes::box_list_from(
                    t,
                    n + x.len(),
                ));
                let q = (pre + boxes::concat_boxes(bs, f)).len() as int;
                assert(boxes::box_list_from(t, n) =~= placed(bs, f, g, n) + boxes::box_list_from(
                    t,
                    q,
                ));
            },
        }
    }
}

/// The payload of the first box of a type that `g` names.
pub open spec fn first_named(
    bs: Seq<BoxView>,
    g: spec_fn(BoxView) -> Option<(Seq<u8>, Seq<u8>)>,
    fourcc: Seq<u8>,
) -> Option<Seq<u8>>
    decreases bs.len(),
{
    if bs.len() == 0 {
        None
    } else {
        match g(bs[0]) {
            None => first_named(bs.drop_first(), g, fourcc),
            Some(w) => if w.0 == fourcc {
                Some(w.1)
            } else {
                first_named(bs.drop_first(), g, fourcc)
            },
        }
    }
}

/// The payload of a box that may be missing.
pub open spec fn payload_of(b: Option<BoxView>) -> Option<Seq<u8>> {
    match b {
        Some(b) => Some(b.payload),
        None => None,
    }
}

pub proof fn first_of_placed(
    bs: Seq<BoxView>,
    f: spec_fn(BoxView) -> Seq<u8>,
    g: spec_fn(BoxView) -> Option<(Seq<u8>, Seq<u8>)>,
    pos: int,
    fourcc: Seq<u8>,
)
    ensures
        payload_of(boxes::first_of(placed(bs, f, g, pos), fourcc)) == first_named(bs, g, fourcc),
    decreases bs.len(),
{
    if bs.len() > 0 {
        match g(bs[0]) {
            None => first_of_placed(bs.drop_first(), f, g, pos, fourcc),
            Some(w) => {
                let rest = placed(bs.drop_first(), f, g, pos + f(bs[0]).len());
                assert(placed(bs, f, g, pos).drop_first() =~= rest);
                first_of_placed(bs.drop_first(), f, g, pos + f(bs[0]).len(), fourcc);
            },
        }
    }
}

/// The first box of a type in what was written is the first that was named.
pub proof fn rewritten_child(
    bs: Seq<BoxView>,
    f: spec_fn(BoxView) -> Seq<u8>,
    g: spec_fn(BoxView) -> Option<(Seq<u8>, Seq<u8>)>,
    fourcc: Seq<u8>,
)
    requires
        writes(bs, f, g),
    ensures
        payload_of(boxes::child(boxes::concat_boxes(bs, f), fourcc)) == first_named(bs, g, fourcc),
{
    let e = Seq::<u8>::empty();
    let t = boxes::concat_boxes(bs, f);
    rewritten_boxes_read_back(e, bs, f, g, e);
    assert(e + t + e =~= t);
    assert(e + t =~= t);
    assert(boxes::box_at(t, t.len() as int) is None);
    assert(boxes::box_list(t) =~= placed(bs, f, g, 0));
    first_of_placed(bs, f, g, 0, fourcc);
}

/// Where a type is always named with the same payload, and no other box is named
/// so, the first one named is the first one of the list.
pub proof fn named_is_first(
    bs: Seq<BoxView>,
    g: spec_fn(BoxView) -> Option<(Seq<u8>, Seq<u8>)>,
    h: spec_fn(Seq<u8>) -> Seq<u8>,
    fourcc: Seq<u8>,
)
    requires
        forall|i: int|
            0 <= i < bs.len() ==> match g(#[trigger] bs[i]) {
                None => bs[i].fourcc != fourcc,
                Some(w) => w.0 == bs[i].fourcc && (w.0 == fourcc ==> w.1 == h(bs[i].payload)),
            },
    ensures
        first_named(bs, g, fourcc) == match boxes::first_of(bs, fourcc) {
            Some(b) => Some(h(b.payload)),
            None => None,
        },
    decreases bs.len(),
{
    if bs.len() > 0 {
        let _ = bs[0];
        assert forall|i: int| 0 <= i < bs.drop_first().len() implies (match g(
            #[trigger] bs.drop_first()[i],
        ) {
            None => bs.drop_first()[i].fourcc != fourcc,
            Some(w) => w.0 == bs.drop_first()[i].fourcc && (w.0 == fourcc ==> w.1 == h(
                bs.drop_first()[i].payload,
            )),
        }) by {
            assert(bs.drop_first()[i] == bs[i + 1]);
        }
        named_is_first(bs.drop_first(), g, h, fourcc);
        match g(bs[0]) {
            None => {},
            Some(w) => {},
        }
    }
}

/// Where a type is never named, it is not found.
pub proof fn never_named(
    bs: Seq<BoxView>,
    g: spec_fn(BoxView) -> Option<(Seq<u8>, Seq<u8>)>,
    fourcc: Seq<u8>,
)
    requires
        forall|i: int|
            0 <= i < bs.len() ==> match g(#[trigger] bs[i]) {
                None => true,
                Some(w) => w.0 != fourcc,
            },
    ensures
        first_named(bs, g, fourcc) is None,
    decreases bs.len(),
{
    if bs.len() > 0 {
        let _ = bs[0];
        assert forall|i: int| 0 <= i < bs.drop_first().len() implies (match g(
            #[trigger] bs.drop_first()[i],
        ) {
            None => true,
            Some(w) => w.0 != fourcc,
        }) by {
            assert(bs.drop_first()[i] == bs[i + 1]);
        }
        never_named(bs.drop_first(), g, fourcc);
        match g(bs[0]) {
            None => {},
            Some(w) => {},
        }
    }
}

/// Whether `f` writes no more for a box than the box takes.
pub open spec fn never_grows(bs: Seq<BoxView>, f: spec_fn(BoxView) -> Seq<u8>) -> bool {
    forall|i: int| 0 <= i < bs.len() ==> f(#[trigger] bs[i]).len() <= bs[i].total_size
}

/// What is written box by box takes no more room than the boxes did.
pub proof fn concat_fits(s: Seq<u8>, pos: int, f: spec_fn(BoxView) -> Seq<u8>)
    requires
        0 <= pos <= s.len(),
        never_grows(boxes::box_list_from(s, pos), f),
    ensures
        boxes::concat_boxes(boxes::box_list_from(s, pos), f).len() <= s.len() - pos,
    decreases s.len() - pos,
{
    let bs = boxes::box_list_from(s, pos);
    if bs.len() > 0 {
        let b = boxes::box_at(s, pos)->0;
        let rest = boxes::box_list_from(s, pos + b.total_size);
        assert(bs.drop_first() =~= rest);
        assert(f(bs[0]).len() <= bs[0].total_size);
        assert forall|i: int| 0 <= i < rest.len() implies f(#[trigger] rest[i]).len()
            <= rest[i].total_size by {
            assert(bs[i + 1] == rest[i]);
        }
        concat_fits(s, pos + b.total_size, f);
    }
}

/// A written box takes eight bytes more than its payload.
pub proof fn iso_box_len(fourcc: Seq<u8>, payload: Seq<u8>)
    requires
        fourcc.len() == 4,
    ensures
        boxes::iso_box(fourcc, payload).len() == 8 + payload.len(),
{
}

proof fn plain_entry_fits(payload: Seq<u8>, fixed: int)
    requires
        0 <= fixed,
        strip::plain_entry(payload, fixed) is Some,
    ensures
        (strip::plain_entry(payload, fixed)->0).len() <= 8 + payload.len(),
{
    let children = payload.skip(fixed);
    let f = strip::drop_sinf(children);
    let bs = boxes::box_list(children);
    assert forall|i: int| 0 <= i < bs.len() implies f(#[trigger] bs[i]).len()
        <= bs[i].total_size by {
        boxes::boxes_in_bounds(children, 0, i);
    }
    concat_fits(children, 0, f);
    let sinf = init::protection(payload, fixed)->0;
    let frma = boxes::child(sinf.payload, boxes::FRMA@)->0;
    iso_box_len(
        frma.payload.take(4),
        payload.take(fixed) + boxes::concat_boxes(bs, f),
    );
}

proof fn plain_stsd_fits(payload: Seq<u8>)
    ensures
        strip::plain_stsd(payload).len() <= payload.len(),
{
    if payload.len() >= 8 {
        let entries = payload.skip(8);
        let f = strip::rewrite_entry(entries);
        let bs = boxes::box_list(entries);
        assert forall|i: int| 0 <= i < bs.len() implies f(#[trigger] bs[i]).len()
            <= bs[i].total_size by {
            boxes::boxes_in_bounds(entries, 0, i);
            let b = bs[i];
            if strip::plain_entry(b.payload, init::VISUAL_FIXED as int) is Some {
                plain_entry_fits(b.payload, init::VISUAL_FIXED as int);
            }
            if strip::plain_entry(b.payload, init::AUDIO_FIXED as int) is Some {
                plain_entry_fits(b.payload, init::AUDIO_FIXED as int);
            }
        }
        concat_fits(entries, 0, f);
    }
}

proof fn plain_path_fits(s: Seq<u8>, chain: Seq<[u8; 4]>)
    ensures
        boxes::concat_boxes(boxes::box_list(s), strip::rewrite_on_path(s, chain)).len() <= s.len(),
    decreases chain.len(),
{
    let f = strip::rewrite_on_path(s, chain);
    let bs = boxes::box_list(s);
    assert forall|i: int| 0 <= i < bs.len() implies f(#[trigger] bs[i]).len()
        <= bs[i].total_size by {
        boxes::boxes_in_bounds(s, 0, i);
        let b = bs[i];
        if chain.len() > 0 && b.fourcc == chain[0]@ {
            if chain.len() == 1 {
                plain_stsd_fits(b.payload);
                iso_box_len(b.fourcc, strip::plain_stsd(b.payload));
            } else {
                plain_path_fits(b.payload, chain.drop_first());
                iso_box_len(
                    b.fourcc,
                    boxes::concat_boxes(
                        boxes::box_list(b.payload),
                        strip::rewrite_on_path(b.payload, chain.drop_first()),
                    ),
                );
            }
        }
    }
    concat_fits(s, 0, f);
}

proof fn plain_moov_fits(s: Seq<u8>)
    ensures
        strip::plain_moov(s).len() <= s.len(),
{
    let f = strip::rewrite_in_moov(s);
    let bs = boxes::box_list(s);
    assert forall|i: int| 0 <= i < bs.len() implies f(#[trigger] bs[i]).len()
        <= bs[i].total_size by {
        boxes::boxes_in_bounds(s, 0, i);
        plain_path_fits(bs[i].payload, strip::stsd_path());
        iso_box_len(bs[i].fourcc, strip::plain_trak(bs[i].payload));
    }
    concat_fits(s, 0, f);
}

/// A rewritten init segment is no longer than the segment was.
pub proof fn stripped_init_is_no_longer(s: Seq<u8>)
    ensures
        strip::plain_init(s).len() <= s.len(),
{
    let f = strip::rewrite_in_init(s);
    let bs = boxes::box_list(s);
    assert forall|i: int| 0 <= i < bs.len() implies f(#[trigger] bs[i]).len()
        <= bs[i].total_size by {
        boxes::boxes_in_bounds(s, 0, i);
        plain_moov_fits(bs[i].payload);
        iso_box_len(bs[i].fourcc, strip::plain_moov(bs[i].payload));
    }
    concat_fits(s, 0, f);
}

/// What a rewritten `moov` payload is made of.
spec fn named_in_moov() -> spec_fn(BoxView) -> Option<(Seq<u8>, Seq<u8>)> {
    |b: BoxView|
        if b.fourcc == PSSH@ {
            None
        } else if b.fourcc == TRAK@ {
            Some((b.fourcc, strip::plain_trak(b.payload)))
        } else {
            Some((b.fourcc, b.payload))
        }
}

/// What a rewritten init segment is made of.
spec fn named_in_init() -> spec_fn(BoxView) -> Option<(Seq<u8>, Seq<u8>)> {
    |b: BoxView|
        if b.fourcc == MOOV@ {
            Some((b.fourcc, strip::plain_moov(b.payload)))
        } else {
            Some((b.fourcc, b.payload))
        }
}

/// A raw copy of a box of a list is written as `writes` asks.
pub proof fn raw_is_written(s: Seq<u8>, i: int)
    requires
        0 <= i < boxes::box_list(s).len(),
    ensures
        reads_as(
            boxes::raw_box(s, boxes::box_list(s)[i]),
            boxes::box_list(s)[i].fourcc,
            boxes::box_list(s)[i].payload,
        ),
        sized_at(boxes::raw_box(s, boxes::box_list(s)[i]), 0) || i == boxes::box_list(s).len() - 1,
        sized_at(boxes::raw_box(s, boxes::box_list(s)[i]), 0) == sized_at(
            s,
            boxes::box_list(s)[i].offset,
        ),
{
    boxes::boxes_in_bounds(s, 0, i);
    raw_box_reads_back(s, boxes::box_list(s)[i].offset);
    if i < boxes::box_list(s).len() - 1 {
        only_the_last_is_unsized(s, 0, i);
    }
}

proof fn moov_rewrite_writes(s: Seq<u8>)
    requires
        s.len() < 0x1_0000_0000,
    ensures
        writes(boxes::box_list(s), strip::rewrite_in_moov(s), named_in_moov()),
{
    let bs = boxes::box_list(s);
    let f = strip::rewrite_in_moov(s);
    let g = named_in_moov();
    assert forall|i: int| 0 <= i < bs.len() implies (match g(#[trigger] bs[i]) {
        None => f(bs[i]).len() == 0,
        Some(w) => {
            &&& reads_as(f(bs[i]), w.0, w.1)
            &&& sized_at(f(bs[i]), 0) || i == bs.len() - 1
        },
    }) by {
        let b = bs[i];
        boxes::boxes_in_bounds(s, 0, i);
        raw_is_written(s, i);
        plain_path_fits(b.payload, strip::stsd_path());
        if b.fourcc == TRAK@ {
            written_box_reads_back(b.fourcc, strip::plain_trak(b.payload));
        }
    }
}

/// After rewriting, `moov` is where it was and holds no `pssh` box, so no
/// Widevine initialisation data can be found any more; its other boxes, tracks
/// aside, are unchanged.
pub proof fn stripped_init_has_no_pssh(s: Seq<u8>, fourcc: Seq<u8>)
    requires
        s.len() < 0x1_0000_0000,
    ensures
        init::widevine_pssh(strip::plain_init(s)) is None,
        match (boxes::child(s, MOOV@), boxes::child(strip::plain_init(s), MOOV@)) {
            (Some(old_moov), Some(new_moov)) => {
                &&& boxes::child(new_moov.payload, PSSH@) is None
                &&& fourcc != PSSH@ && fourcc != TRAK@ ==> payload_of(
                    boxes::child(new_moov.payload, fourcc),
                ) == payload_of(boxes::child(old_moov.payload, fourcc))
            },
            (None, None) => true,
            _ => false,
        },
{
    if boxes::child(s, MOOV@) is Some {
        stripped_init_moov(s);
        let old_moov = boxes::child(s, MOOV@)->0;
        let new_moov = boxes::child(strip::plain_init(s), MOOV@)->0;
        assert(new_moov.payload == strip::plain_moov(old_moov.payload));
        boxes::child_in_bounds(s, MOOV@);
        let mp = old_moov.payload;
        moov_rewrite_writes(mp);
        let mf = strip::rewrite_in_moov(mp);
        let mg = named_in_moov();
        rewritten_child(boxes::box_list(mp), mf, mg, PSSH@);
        never_named(boxes::box_list(mp), mg, PSSH@);
        no_pssh_no_widevine(new_moov.payload, boxes::box_list(new_moov.payload));
        if fourcc != PSSH@ && fourcc != TRAK@ {
            rewritten_child(boxes::box_list(mp), mf, mg, fourcc);
            let same = |p: Seq<u8>| p;
            named_is_first(boxes::box_list(mp), mg, same, fourcc);
        }
    }
}

proof fn no_pssh_no_widevine(s: Seq<u8>, bs: Seq<BoxView>)
    requires
        boxes::first_of(bs, PSSH@) is None,
    ensures
        init::first_widevine(s, bs) is None,
    decreases bs.len(),
{
    if bs.len() > 0 {
        no_pssh_no_widevine(s, bs.drop_first());
    }
}

/// The type of a sample entry before protection, as `sinf/frma` names it.
pub open spec fn plain_type(payload: Seq<u8>, fixed: int) -> Seq<u8> {
    (boxes::child(
        (init::protection(payload, fixed)->0).payload,
        boxes::FRMA@,
    )->0).payload.take(4)
}

/// What the child boxes of an unprotected sample entry are.
spec fn named_in_entry() -> spec_fn(BoxView) -> Option<(Seq<u8>, Seq<u8>)> {
    |b: BoxView|
        if b.fourcc == boxes::SINF@ {
            None
        } else {
            Some((b.fourcc, b.payload))
        }
}

/// An unprotected sample entry is a box of the plain codec's type, with the same
/// fixed fields and, behind them, the same child boxes without `sinf`.
#[verifier::rlimit(80)]
#[verifier::spinoff_prover]
pub proof fn unprotected_entry_has_no_sinf(payload: Seq<u8>, fixed: int, fourcc: Seq<u8>)
    requires
        0 <= fixed,
        payload.len() + 8 < 0x1_0000_0000,
        strip::plain_entry(payload, fixed) is Some,
    ensures
        boxes::box_at(strip::plain_entry(payload, fixed)->0, 0) is Some,
        ({
            let b = boxes::box_at(strip::plain_entry(payload, fixed)->0, 0)->0;
            &&& b.fourcc == plain_type(payload, fixed)
            &&& reads_as(strip::plain_entry(payload, fixed)->0, b.fourcc, b.payload)
            &&& sized_at(strip::plain_entry(payload, fixed)->0, 0)
            &&& b.payload.take(fixed) == payload.take(fixed)
            &&& boxes::child(b.payload.skip(fixed), boxes::SINF@) is None
            &&& fourcc != boxes::SINF@ ==> payload_of(
                boxes::child(b.payload.skip(fixed), fourcc),
            ) == payload_of(boxes::child(payload.skip(fixed), fourcc))
        }),
{
    let children = payload.skip(fixed);
    let f = strip::drop_sinf(children);
    let g = named_in_entry();
    let bs = boxes::box_list(children);
    let kept = boxes::concat_boxes(bs, f);
    let body = payload.take(fixed) + kept;
    assert forall|i: int| 0 <= i < bs.len() implies (match g(#[trigger] bs[i]) {
        None => f(bs[i]).len() == 0,
        Some(w) => {
            &&& reads_as(f(bs[i]), w.0, w.1)
            &&& sized_at(f(bs[i]), 0) || i == bs.len() - 1
        },
    }) by {
        raw_is_written(children, i);
    }
    rewritten_child(bs, f, g, boxes::SINF@);
    never_named(bs, g, boxes::SINF@);
    if fourcc != boxes::SINF@ {
        rewritten_child(bs, f, g, fourcc);
        let same = |p: Seq<u8>| p;
        named_is_first(bs, g, same, fourcc);
    }
    plain_entry_fits(payload, fixed);
    iso_box_len(plain_type(payload, fixed), body);
    written_box_reads_back(plain_type(payload, fixed), body);
    assert(body.take(fixed) =~= payload.take(fixed));
    assert(body.skip(fixed) =~= kept);
}

/// Whether every protected entry of a sample description can be unprotected, to a
/// type that is not itself a protected one.
pub open spec fn unprotectable(entries: Seq<u8>) -> bool {
    forall|i: int|
        0 <= i < boxes::box_list(entries).len() ==> {
            let b = #[trigger] boxes::box_list(entries)[i];
            &&& b.fourcc == boxes::ENCV@ ==> becomes_plain(b.payload, init::VISUAL_FIXED as int)
            &&& b.fourcc == boxes::ENCA@ ==> becomes_plain(b.payload, init::AUDIO_FIXED as int)
        }
}

/// Whether a protected entry can be unprotected, to a type that is not itself a
/// protected one.
pub open spec fn becomes_plain(payload: Seq<u8>, fixed: int) -> bool {
    &&& strip::plain_entry(payload, fixed) is Some
    &&& plain_type(payload, fixed) != boxes::ENCV@
    &&& plain_type(payload, fixed) != boxes::ENCA@
}

/// What a rewritten sample description is made of.
spec fn named_in_stsd() -> spec_fn(BoxView) -> Option<(Seq<u8>, Seq<u8>)> {
    |b: BoxView|
        if b.fourcc == boxes::ENCV@ && strip::plain_entry(
            b.payload,
            init::VISUAL_FIXED as int,
        ) is Some {
            let x = boxes::box_at(
                strip::plain_entry(b.payload, init::VISUAL_FIXED as int)->0,
                0,
            )->0;
            Some((x.fourcc, x.payload))
        } else if b.fourcc == boxes::ENCA@ && strip::plain_entry(
            b.payload,
            init::AUDIO_FIXED as int,
        ) is Some {
            let x = boxes::box_at(
                strip::plain_entry(b.payload, init::AUDIO_FIXED as int)->0,
                0,
            )->0;
            Some((x.fourcc, x.payload))
        } else {
            Some((b.fourcc, b.payload))
        }
}

proof fn stsd_is_clear(payload: Seq<u8>)
    requires
        8 <= payload.len() < 0x1_0000_0000,
        unprotectable(payload.skip(8)),
    ensures
        strip::plain_stsd(payload).len() >= 8,
        boxes::child(strip::plain_stsd(payload).skip(8), boxes::ENCV@) is None,
        boxes::child(strip::plain_stsd(payload).skip(8), boxes::ENCA@) is None,
{
    let entries = payload.skip(8);
    let f = strip::rewrite_entry(entries);
    let g = named_in_stsd();
    let bs = boxes::box_list(entries);
    assert forall|i: int| 0 <= i < bs.len() implies (match g(#[trigger] bs[i]) {
        None => f(bs[i]).len() == 0,
        Some(w) => {
            &&& reads_as(f(bs[i]), w.0, w.1)
            &&& sized_at(f(bs[i]), 0) || i == bs.len() - 1
            &&& w.0 != boxes::ENCV@ && w.0 != boxes::ENCA@
        },
    }) by {
        let b = bs[i];
        assert(b == boxes::box_list(entries)[i]);
        boxes::boxes_in_bounds(entries, 0, i);
        raw_is_written(entries, i);
        if b.fourcc == boxes::ENCV@ {
            assert(becomes_plain(b.payload, init::VISUAL_FIXED as int));
            unprotected_entry_has_no_sinf(b.payload, init::VISUAL_FIXED as int, b.fourcc);
        } else if b.fourcc == boxes::ENCA@ {
            assert(becomes_plain(b.payload, init::AUDIO_FIXED as int));
            unprotected_entry_has_no_sinf(b.payload, init::AUDIO_FIXED as int, b.fourcc);
        }
    }
    rewritten_child(bs, f, g, boxes::ENCV@);
    rewritten_child(bs, f, g, boxes::ENCA@);
    never_named(bs, g, boxes::ENCV@);
    never_named(bs, g, boxes::ENCA@);
    assert(strip::plain_stsd(payload).skip(8) =~= boxes::concat_boxes(bs, f));
}

/// What a container rewritten on the way to the sample descriptions is made of.
spec fn named_on_path(chain: Seq<[u8; 4]>) -> spec_fn(BoxView) -> Option<(Seq<u8>, Seq<u8>)> {
    |b: BoxView|
        if chain.len() > 0 && b.fourcc == chain[0]@ {
            Some((b.fourcc, inner_on_path(b.payload, chain)))
        } else {
            Some((b.fourcc, b.payload))
        }
}

spec fn inner_on_path(payload: Seq<u8>, chain: Seq<[u8; 4]>) -> Seq<u8> {
    if chain.len() == 1 {
        strip::plain_stsd(payload)
    } else {
        boxes::concat_boxes(
            boxes::box_list(payload),
            strip::rewrite_on_path(payload, chain.drop_first()),
        )
    }
}

proof fn path_rewrite_writes(s: Seq<u8>, chain: Seq<[u8; 4]>)
    requires
        chain.len() > 0,
        s.len() < 0x1_0000_0000,
    ensures
        writes(
            boxes::box_list(s),
            strip::rewrite_on_path(s, chain),
            named_on_path(chain),
        ),
{
    let bs = boxes::box_list(s);
    let f = strip::rewrite_on_path(s, chain);
    let g = named_on_path(chain);
    assert forall|i: int| 0 <= i < bs.len() implies (match g(#[trigger] bs[i]) {
        None => f(bs[i]).len() == 0,
        Some(w) => {
            &&& reads_as(f(bs[i]), w.0, w.1)
            &&& sized_at(f(bs[i]), 0) || i == bs.len() - 1
        },
    }) by {
        let b = bs[i];
        boxes::boxes_in_bounds(s, 0, i);
        raw_is_written(s, i);
        if b.fourcc == chain[0]@ {
            if chain.len() == 1 {
                plain_stsd_fits(b.payload);
            } else {
                plain_path_fits(b.payload, chain.drop_first());
            }
            written_box_reads_back(b.fourcc, inner_on_path(b.payload, chain));
        }
    }
}

proof fn path_child(s: Seq<u8>, chain: Seq<[u8; 4]>)
    requires
        chain.len() > 0,
        s.len() < 0x1_0000_0000,
    ensures
        payload_of(
            boxes::child(
                boxes::concat_boxes(boxes::box_list(s), strip::rewrite_on_path(s, chain)),
                chain[0]@,
            ),
        ) == match boxes::child(s, chain[0]@) {
            Some(b) => Some(inner_on_path(b.payload, chain)),
            None => None,
        },
        boxes::child(s, chain[0]@) is Some ==> (boxes::child(s, chain[0]@)->0).payload.len()
            < s.len(),
{
    let bs = boxes::box_list(s);
    let f = strip::rewrite_on_path(s, chain);
    let g = named_on_path(chain);
    path_rewrite_writes(s, chain);
    rewritten_child(bs, f, g, chain[0]@);
    let h = |p: Seq<u8>| inner_on_path(p, chain);
    named_is_first(bs, g, h, chain[0]@);
    if boxes::child(s, chain[0]@) is Some {
        boxes::child_in_bounds(s, chain[0]@);
    }
}

/// The sample description entries of a track.
pub open spec fn track_entries(trak: Seq<u8>) -> Option<Seq<u8>> {
    match boxes::box_on_path(trak, seq![&boxes::MDIA, &boxes::MINF, &boxes::STBL, &boxes::STSD]) {
        Some(stsd) => if stsd.payload.len() >= 8 {
            Some(stsd.payload.skip(8))
        } else {
            None
        },
        None => None,
    }
}

/// Whether rewriting can clear a track.
pub open spec fn track_unprotectable(trak: Seq<u8>) -> bool {
    match track_entries(trak) {
        Some(entries) => unprotectable(entries),
        None => true,
    }
}

/// A rewritten track whose protected entries can be unprotected names no
/// encryption parameters.
#[verifier::rlimit(80)]
#[verifier::spinoff_prover]
pub proof fn stripped_track_is_clear(trak: Seq<u8>)
    requires
        trak.len() < 0x1_0000_0000,
        track_unprotectable(trak),
    ensures
        init::trak_tenc(strip::plain_trak(trak)) is None,
{
    let c0 = strip::stsd_path();
    let c1 = c0.drop_first();
    let c2 = c1.drop_first();
    let c3 = c2.drop_first();
    let refs = seq![&boxes::MDIA, &boxes::MINF, &boxes::STBL, &boxes::STSD];
    assert(refs.drop_first() =~= seq![&boxes::MINF, &boxes::STBL, &boxes::STSD]);
    assert(refs.drop_first().drop_first() =~= seq![&boxes::STBL, &boxes::STSD]);
    assert(refs.drop_first().drop_first().drop_first() =~= seq![&boxes::STSD]);
    reveal_with_fuel(boxes::box_on_path, 5);
    path_child(trak, c0);
    if boxes::child(trak, boxes::MDIA@) is Some {
        let mdia = (boxes::child(trak, boxes::MDIA@)->0).payload;
        path_child(mdia, c1);
        if boxes::child(mdia, boxes::MINF@) is Some {
            let minf = (boxes::child(mdia, boxes::MINF@)->0).payload;
            path_child(minf, c2);
            if boxes::child(minf, boxes::STBL@) is Some {
                let stbl = (boxes::child(minf, boxes::STBL@)->0).payload;
                path_child(stbl, c3);
                if boxes::child(stbl, boxes::STSD@) is Some {
                    let stsd = (boxes::child(stbl, boxes::STSD@)->0).payload;
                    if stsd.len() >= 8 {
                        stsd_is_clear(stsd);
                    }
                }
            }
        }
    }
}

/// Whether rewriting can clear every track of a `moov` payload.
pub open spec fn tracks_unprotectable(bs: Seq<BoxView>) -> bool {
    forall|i: int|
        0 <= i < bs.len() && (#[trigger] bs[i]).fourcc == TRAK@ ==> track_unprotectable(
            bs[i].payload,
        )
}

proof fn no_track_info(bs: Seq<BoxView>)
    requires
        forall|i: int|
            0 <= i < bs.len() && (#[trigger] bs[i]).fourcc == TRAK@ ==> init::trak_tenc(
                bs[i].payload,
            ) is None,
        forall|i: int| 0 <= i < bs.len() ==> (#[trigger] bs[i]).fourcc != PSSH@,
    ensures
        init::traks_info(bs) == Ok::<Option<init::InitView>, crate::fmp4::Fmp4Error>(None),
        init::first_pssh_kid(bs) is None,
    decreases bs.len(),
{
    if bs.len() > 0 {
        let tail = bs.drop_first();
        assert forall|i: int|
            0 <= i < tail.len() && (#[trigger] tail[i]).fourcc == TRAK@ implies init::trak_tenc(
            tail[i].payload,
        ) is None by {
            assert(tail[i] == bs[i + 1]);
        }
        assert forall|i: int| 0 <= i < tail.len() implies (#[trigger] tail[i]).fourcc
            != PSSH@ by {
            assert(tail[i] == bs[i + 1]);
        }
        assert(bs[0].fourcc != PSSH@);
        no_track_info(tail);
    }
}

/// Each placed box stands for a box that it was named after.
pub proof fn placed_from(
    bs: Seq<BoxView>,
    f: spec_fn(BoxView) -> Seq<u8>,
    g: spec_fn(BoxView) -> Option<(Seq<u8>, Seq<u8>)>,
    pos: int,
    i: int,
) -> (k: int)
    requires
        0 <= i < placed(bs, f, g, pos).len(),
    ensures
        0 <= k < bs.len(),
        g(bs[k]) == Some((placed(bs, f, g, pos)[i].fourcc, placed(bs, f, g, pos)[i].payload)),
        placed(bs, f, g, pos)[i].total_size == f(bs[k]).len(),
    decreases bs.len(),
{
    match g(bs[0]) {
        None => placed_from(bs.drop_first(), f, g, pos, i) + 1,
        Some(w) => {
            if i == 0 {
                0
            } else {
                placed_from(bs.drop_first(), f, g, pos + f(bs[0]).len(), i - 1) + 1
            }
        },
    }
}

/// A rewritten init segment is a clear one, if its protected entries can be
/// unprotected.
#[verifier::rlimit(80)]
#[verifier::spinoff_prover]
pub proof fn stripped_init_is_clear(s: Seq<u8>, scheme_hint: u32)
    requires
        s.len() < 0x1_0000_0000,
        match boxes::child(s, MOOV@) {
            Some(moov) => tracks_unprotectable(boxes::box_list(moov.payload)),
            None => true,
        },
    ensures
        init::init_info(strip::plain_init(s), scheme_hint) == Ok::<
            Option<init::InitView>,
            crate::fmp4::Fmp4Error,
        >(None),
{
    if boxes::child(s, MOOV@) is Some {
        stripped_init_moov(s);
        boxes::child_in_bounds(s, MOOV@);
        let mp = (boxes::child(s, MOOV@)->0).payload;
        let bs = boxes::box_list(mp);
        let f = strip::rewrite_in_moov(mp);
        let g = named_in_moov();
        moov_rewrite_writes(mp);
        let e = Seq::<u8>::empty();
        let t = strip::plain_moov(mp);
        rewritten_boxes_read_back(e, bs, f, g, e);
        assert(e + t + e =~= t);
        assert(e + t =~= t);
        assert(boxes::box_at(t, t.len() as int) is None);
        let list = boxes::box_list(t);
        assert(list =~= placed(bs, f, g, 0));
        assert forall|i: int|
            0 <= i < list.len() && (#[trigger] list[i]).fourcc == TRAK@ implies init::trak_tenc(
            list[i].payload,
        ) is None by {
            let k = placed_from(bs, f, g, 0, i);
            boxes::boxes_in_bounds(mp, 0, k);
            assert(bs[k].fourcc == TRAK@);
            stripped_track_is_clear(bs[k].payload);
        }
        assert forall|i: int| 0 <= i < list.len() implies (#[trigger] list[i]).fourcc
            != PSSH@ by {
            let k = placed_from(bs, f, g, 0, i);
        }
        no_track_info(list);
    }
}

proof fn init_rewrite_writes(s: Seq<u8>)
    requires
        s.len() < 0x1_0000_0000,
    ensures
        writes(boxes::box_list(s), strip::rewrite_in_init(s), named_in_init()),
{
    let bs = boxes::box_list(s);
    let f = strip::rewrite_in_init(s);
    let g = named_in_init();
    assert forall|i: int| 0 <= i < bs.len() implies (match g(#[trigger] bs[i]) {
        None => f(bs[i]).len() == 0,
        Some(w) => {
            &&& reads_as(f(bs[i]), w.0, w.1)
            &&& sized_at(f(bs[i]), 0) || i == bs.len() - 1
        },
    }) by {
        let b = bs[i];
        boxes::boxes_in_bounds(s, 0, i);
        raw_is_written(s, i);
        plain_moov_fits(b.payload);
        if b.fourcc == MOOV@ {
            written_box_reads_back(b.fourcc, strip::plain_moov(b.payload));
        }
    }
}

proof fn stripped_init_moov(s: Seq<u8>)
    requires
        s.len() < 0x1_0000_0000,
        boxes::child(s, MOOV@) is Some,
    ensures
        boxes::child(strip::plain_init(s), MOOV@) is Some,
        (boxes::child(strip::plain_init(s), MOOV@)->0).payload == strip::plain_moov(
            (boxes::child(s, MOOV@)->0).payload,
        ),
{
    let bs = boxes::box_list(s);
    let f = strip::rewrite_in_init(s);
    let g = named_in_init();
    init_rewrite_writes(s);
    rewritten_child(bs, f, g, MOOV@);
    let h = |p: Seq<u8>| strip::plain_moov(p);
    named_is_first(bs, g, h, MOOV@);
}

/// Where the walk over the boxes of `s` from `pos` on stops.
pub open spec fn walk_end(s: Seq<u8>, pos: int) -> int
    decreases s.len() - pos,
{
    match boxes::box_at(s, pos) {
        None => pos,
        Some(b) => walk_end(s, pos + b.total_size),
    }
}

/// Whether `s` is made of whole boxes and nothing else.
pub open spec fn tiled(s: Seq<u8>) -> bool {
    walk_end(s, 0) == s.len()
}

/// What was written box by box is made of whole boxes and nothing else.
pub proof fn rewritten_boxes_tile(
    pre: Seq<u8>,
    bs: Seq<BoxView>,
    f: spec_fn(BoxView) -> Seq<u8>,
    g: spec_fn(BoxView) -> Option<(Seq<u8>, Seq<u8>)>,
)
    requires
        writes(bs, f, g),
    ensures
        walk_end(pre + boxes::concat_boxes(bs, f), pre.len() as int) == (pre
            + boxes::concat_boxes(bs, f)).len(),
    decreases bs.len(),
{
    let t = pre + boxes::concat_boxes(bs, f);
    let n = pre.len() as int;
    if bs.len() == 0 {
        assert(boxes::box_at(t, n) is None);
    } else {
        let x = f(bs[0]);
        let tail = bs.drop_first();
        let more = boxes::concat_boxes(tail, f);
        assert forall|i: int| 0 <= i < tail.len() implies (match g(#[trigger] tail[i]) {
            None => f(tail[i]).len() == 0,
            Some(w) => {
                &&& reads_as(f(tail[i]), w.0, w.1)
                &&& sized_at(f(tail[i]), 0) || i == tail.len() - 1
            },
        }) by {
            assert(tail[i] == bs[i + 1]);
        }
        match g(bs[0]) {
            None => {
                assert(x =~= Seq::empty());
                assert(t =~= pre + more);
                rewritten_boxes_tile(pre, tail, f, g);
            },
            Some(w) => {
                assert(reads_as(f(bs[0]), w.0, w.1));
                if !sized_at(x, 0) {
                    assert(more =~= Seq::empty());
                }
                box_reads_anywhere(pre, x, more, w.0, w.1);
                assert(t =~= pre + x + more);
                rewritten_boxes_tile(pre + x, tail, f, g);
            },
        }
    }
}

/// Where every box is written as it stands, what is written is the buffer as far
/// as its boxes reach.
pub proof fn copied_boxes(s: Seq<u8>, pos: int, f: spec_fn(BoxView) -> Seq<u8>)
    requires
        0 <= pos <= s.len(),
        forall|i: int|
            0 <= i < boxes::box_list_from(s, pos).len() ==> f(
                #[trigger] boxes::box_list_from(s, pos)[i],
            ) == boxes::raw_box(s, boxes::box_list_from(s, pos)[i]),
    ensures
        pos <= walk_end(s, pos) <= s.len(),
        boxes::concat_boxes(boxes::box_list_from(s, pos), f) == s.subrange(pos, walk_end(s, pos)),
    decreases s.len() - pos,
{
    if boxes::box_at(s, pos) is Some {
        let b = boxes::box_at(s, pos)->0;
        let bs = boxes::box_list_from(s, pos);
        let rest = boxes::box_list_from(s, pos + b.total_size);
        assert(bs.drop_first() =~= rest);
        assert(f(bs[0]) == boxes::raw_box(s, bs[0]));
        assert forall|i: int| 0 <= i < rest.len() implies f(#[trigger] rest[i]) == boxes::raw_box(
            s,
            rest[i],
        ) by {
            assert(bs[i + 1] == rest[i]);
        }
        copied_boxes(s, pos + b.total_size, f);
        assert(boxes::concat_boxes(bs, f) =~= s.subrange(pos, walk_end(s, pos)));
    } else {
        assert(boxes::concat_boxes(boxes::box_list_from(s, pos), f) =~= s.subrange(pos, pos));
    }
}

/// Each placed box stands in what was written with the bytes written for it.
proof fn placed_bytes(
    pre: Seq<u8>,
    bs: Seq<BoxView>,
    f: spec_fn(BoxView) -> Seq<u8>,
    g: spec_fn(BoxView) -> Option<(Seq<u8>, Seq<u8>)>,
    i: int,
) -> (k: int)
    requires
        writes(bs, f, g),
        0 <= i < placed(bs, f, g, pre.len() as int).len(),
    ensures
        0 <= k < bs.len(),
        g(bs[k]) == Some(
            (
                placed(bs, f, g, pre.len() as int)[i].fourcc,
                placed(bs, f, g, pre.len() as int)[i].payload,
            ),
        ),
        boxes::raw_box(
            pre + boxes::concat_boxes(bs, f),
            placed(bs, f, g, pre.len() as int)[i],
        ) == f(bs[k]),
    decreases bs.len(),
{
    let t = pre + boxes::concat_boxes(bs, f);
    let x = f(bs[0]);
    let tail = bs.drop_first();
    assert forall|j: int| 0 <= j < tail.len() implies (match g(#[trigger] tail[j]) {
        None => f(tail[j]).len() == 0,
        Some(w) => {
            &&& reads_as(f(tail[j]), w.0, w.1)
            &&& sized_at(f(tail[j]), 0) || j == tail.len() - 1
        },
    }) by {
        assert(tail[j] == bs[j + 1]);
    }
    let more = boxes::concat_boxes(tail, f);
    match g(bs[0]) {
        None => {
            assert(x =~= Seq::empty());
            assert(t =~= pre + more);
            placed_bytes(pre, tail, f, g, i) + 1
        },
        Some(w) => {
            assert(t =~= (pre + x) + more);
            if i == 0 {
                assert(boxes::raw_box(t, placed(bs, f, g, pre.len() as int)[0]) =~= x);
                0
            } else {
                placed_bytes(pre + x, tail, f, g, i - 1) + 1
            }
        },
    }
}

/// Whether box `i` of what was written is the one written for box `k` of the list.
spec fn written_for(
    bs: Seq<BoxView>,
    f: spec_fn(BoxView) -> Seq<u8>,
    g: spec_fn(BoxView) -> Option<(Seq<u8>, Seq<u8>)>,
    i: int,
    k: int,
) -> bool {
    let t = boxes::concat_boxes(bs, f);
    let b = boxes::box_list(t)[i];
    &&& 0 <= i < boxes::box_list(t).len()
    &&& 0 <= k < bs.len()
    &&& g(bs[k]) == Some((b.fourcc, b.payload))
    &&& boxes::raw_box(t, b) == f(bs[k])
}

/// Where each box that was written is written again as it stands, writing again
/// changes nothing.
proof fn written_again(
    bs: Seq<BoxView>,
    f: spec_fn(BoxView) -> Seq<u8>,
    g: spec_fn(BoxView) -> Option<(Seq<u8>, Seq<u8>)>,
    again: spec_fn(BoxView) -> Seq<u8>,
)
    requires
        writes(bs, f, g),
        forall|i: int, k: int| #[trigger]
            written_for(bs, f, g, i, k) ==> again(
                boxes::box_list(boxes::concat_boxes(bs, f))[i],
            ) == f(bs[k]),
    ensures
        boxes::concat_boxes(boxes::box_list(boxes::concat_boxes(bs, f)), again)
            == boxes::concat_boxes(bs, f),
{
    let e = Seq::<u8>::empty();
    let t = boxes::concat_boxes(bs, f);
    rewritten_boxes_read_back(e, bs, f, g, e);
    rewritten_boxes_tile(e, bs, f, g);
    assert(e + t + e =~= t);
    assert(e + t =~= t);
    assert(boxes::box_at(t, t.len() as int) is None);
    let list = boxes::box_list(t);
    assert(list =~= placed(bs, f, g, 0));
    assert forall|i: int| 0 <= i < list.len() implies again(#[trigger] list[i]) == boxes::raw_box(
        t,
        list[i],
    ) by {
        let k = placed_bytes(e, bs, f, g, i);
        assert(written_for(bs, f, g, i, k));
    }
    copied_boxes(t, 0, again);
    assert(t.subrange(0, t.len() as int) =~= t);
}

/// Whether no entry of a sample description that can be unprotected names a
/// protected type as its plain one.
pub open spec fn entries_name_plain(entries: Seq<u8>) -> bool {
    forall|i: int|
        0 <= i < boxes::box_list(entries).len() ==> {
            let b = #[trigger] boxes::box_list(entries)[i];
            &&& b.fourcc == boxes::ENCV@ && strip::plain_entry(
                b.payload,
                init::VISUAL_FIXED as int,
            ) is Some ==> becomes_plain(b.payload, init::VISUAL_FIXED as int)
            &&& b.fourcc == boxes::ENCA@ && strip::plain_entry(
                b.payload,
                init::AUDIO_FIXED as int,
            ) is Some ==> becomes_plain(b.payload, init::AUDIO_FIXED as int)
        }
}

/// Whether that holds of every sample description at the end of a way.
pub open spec fn path_names_plain(s: Seq<u8>, chain: Seq<[u8; 4]>) -> bool
    decreases chain.len(),
{
    forall|i: int|
        0 <= i < boxes::box_list(s).len() && chain.len() > 0 && (#[trigger] boxes::box_list(
            s,
        )[i]).fourcc == chain[0]@ ==> if chain.len() == 1 {
            boxes::box_list(s)[i].payload.len() >= 8 ==> entries_name_plain(
                boxes::box_list(s)[i].payload.skip(8),
            )
        } else {
            path_names_plain(boxes::box_list(s)[i].payload, chain.drop_first())
        }
}

/// Whether that holds of every track of a `moov` payload.
pub open spec fn moov_names_plain(s: Seq<u8>) -> bool {
    forall|i: int|
        0 <= i < boxes::box_list(s).len() && (#[trigger] boxes::box_list(s)[i]).fourcc == TRAK@
            ==> path_names_plain(boxes::box_list(s)[i].payload, strip::stsd_path())
}

/// Whether that holds of every `moov` box of an init segment.
pub open spec fn init_names_plain(s: Seq<u8>) -> bool {
    forall|i: int|
        0 <= i < boxes::box_list(s).len() && (#[trigger] boxes::box_list(s)[i]).fourcc == MOOV@
            ==> moov_names_plain(boxes::box_list(s)[i].payload)
}

proof fn entries_rewrite_writes(entries: Seq<u8>)
    requires
        entries.len() < 0x1_0000_0000,
    ensures
        writes(boxes::box_list(entries), strip::rewrite_entry(entries), named_in_stsd()),
{
    let f = strip::rewrite_entry(entries);
    let g = named_in_stsd();
    let bs = boxes::box_list(entries);
    assert forall|i: int| 0 <= i < bs.len() implies (match g(#[trigger] bs[i]) {
        None => f(bs[i]).len() == 0,
        Some(w) => {
            &&& reads_as(f(bs[i]), w.0, w.1)
            &&& sized_at(f(bs[i]), 0) || i == bs.len() - 1
        },
    }) by {
        let b = bs[i];
        boxes::boxes_in_bounds(entries, 0, i);
        raw_is_written(entries, i);
        if strip::plain_entry(b.payload, init::VISUAL_FIXED as int) is Some {
            unprotected_entry_has_no_sinf(b.payload, init::VISUAL_FIXED as int, b.fourcc);
        }
        if strip::plain_entry(b.payload, init::AUDIO_FIXED as int) is Some {
            unprotected_entry_has_no_sinf(b.payload, init::AUDIO_FIXED as int, b.fourcc);
        }
    }
}

proof fn entries_settle(entries: Seq<u8>)
    requires
        entries.len() < 0x1_0000_0000,
        entries_name_plain(entries),
    ensures
        ({
            let c = boxes::concat_boxes(boxes::box_list(entries), strip::rewrite_entry(entries));
            boxes::concat_boxes(boxes::box_list(c), strip::rewrite_entry(c)) == c
        }),
{
    let f = strip::rewrite_entry(entries);
    let g = named_in_stsd();
    let bs = boxes::box_list(entries);
    let c = boxes::concat_boxes(bs, f);
    let again = strip::rewrite_entry(c);
    let list = boxes::box_list(c);
    let video = init::VISUAL_FIXED as int;
    let audio = init::AUDIO_FIXED as int;
    entries_rewrite_writes(entries);
    assert forall|i: int, k: int| #[trigger] written_for(bs, f, g, i, k) implies again(
        list[i],
    ) == f(bs[k]) by {
        let b = bs[k];
        boxes::boxes_in_bounds(entries, 0, k);
        if b.fourcc == boxes::ENCV@ && strip::plain_entry(b.payload, video) is Some {
            assert(becomes_plain(b.payload, video));
            unprotected_entry_has_no_sinf(b.payload, video, b.fourcc);
        } else if b.fourcc == boxes::ENCA@ && strip::plain_entry(b.payload, audio) is Some {
            assert(becomes_plain(b.payload, audio));
            unprotected_entry_has_no_sinf(b.payload, audio, b.fourcc);
        }
    }
    written_again(bs, f, g, again);
}

proof fn stsd_settles(payload: Seq<u8>)
    requires
        payload.len() < 0x1_0000_0000,
        payload.len() >= 8 ==> entries_name_plain(payload.skip(8)),
    ensures
        strip::plain_stsd(strip::plain_stsd(payload)) == strip::plain_stsd(payload),
{
    if payload.len() >= 8 {
        let entries = payload.skip(8);
        let out = strip::plain_stsd(payload);
        entries_settle(entries);
        assert(out.skip(8) =~= boxes::concat_boxes(
            boxes::box_list(entries),
            strip::rewrite_entry(entries),
        ));
        assert(out.take(8) =~= payload.take(8));
    }
}

proof fn path_settles(s: Seq<u8>, chain: Seq<[u8; 4]>)
    requires
        chain.len() > 0,
        s.len() < 0x1_0000_0000,
        path_names_plain(s, chain),
    ensures
        ({
            let c = boxes::concat_boxes(boxes::box_list(s), strip::rewrite_on_path(s, chain));
            boxes::concat_boxes(boxes::box_list(c), strip::rewrite_on_path(c, chain)) == c
        }),
    decreases chain.len(),
{
    let f = strip::rewrite_on_path(s, chain);
    let g = named_on_path(chain);
    let bs = boxes::box_list(s);
    let c = boxes::concat_boxes(bs, f);
    let again = strip::rewrite_on_path(c, chain);
    let list = boxes::box_list(c);
    path_rewrite_writes(s, chain);
    assert forall|i: int, k: int| #[trigger] written_for(bs, f, g, i, k) implies again(
        list[i],
    ) == f(bs[k]) by {
        let b = bs[k];
        boxes::boxes_in_bounds(s, 0, k);
        if b.fourcc == chain[0]@ {
            if chain.len() == 1 {
                stsd_settles(b.payload);
            } else {
                path_settles(b.payload, chain.drop_first());
            }
            assert(inner_on_path(list[i].payload, chain) == list[i].payload);
        }
    }
    written_again(bs, f, g, again);
}

#[verifier::rlimit(80)]
#[verifier::spinoff_prover]
proof fn moov_settles(s: Seq<u8>)
    requires
        s.len() < 0x1_0000_0000,
        moov_names_plain(s),
    ensures
        strip::plain_moov(strip::plain_moov(s)) == strip::plain_moov(s),
{
    let f = strip::rewrite_in_moov(s);
    let g = named_in_moov();
    let bs = boxes::box_list(s);
    let c = boxes::concat_boxes(bs, f);
    let again = strip::rewrite_in_moov(c);
    let list = boxes::box_list(c);
    moov_rewrite_writes(s);
    assert forall|i: int, k: int| #[trigger] written_for(bs, f, g, i, k) implies again(
        list[i],
    ) == f(bs[k]) by {
        let b = bs[k];
        boxes::boxes_in_bounds(s, 0, k);
        if b.fourcc == TRAK@ {
            path_settles(b.payload, strip::stsd_path());
        }
    }
    written_again(bs, f, g, again);
}

/// Stripping an init segment twice is the same as stripping it once.
#[verifier::rlimit(80)]
#[verifier::spinoff_prover]
pub proof fn stripping_twice_is_stripping_once(s: Seq<u8>)
    requires
        s.len() < 0x1_0000_0000,
        init_names_plain(s),
    ensures
        strip::plain_init(strip::plain_init(s)) == strip::plain_init(s),
{
    if boxes::child(s, MOOV@) is Some {
        stripped_init_moov(s);
        let f = strip::rewrite_in_init(s);
        let g = named_in_init();
        let bs = boxes::box_list(s);
        let c = boxes::concat_boxes(bs, f);
        let again = strip::rewrite_in_init(c);
        let list = boxes::box_list(c);
        init_rewrite_writes(s);
        assert forall|i: int, k: int| #[trigger] written_for(bs, f, g, i, k) implies again(
            list[i],
        ) == f(bs[k]) by {
            let b = bs[k];
            boxes::boxes_in_bounds(s, 0, k);
            if b.fourcc == MOOV@ {
                moov_settles(b.payload);
            }
        }
        written_again(bs, f, g, again);
    }
}

} // verus!
