//! What becomes of a media segment whose boxes are known.

use crate::bytes;
use crate::fmp4::box_laws;
use crate::fmp4::box_laws::{around, stands_alone, written, Around};
use crate::fmp4::boxes;
use crate::fmp4::boxes::{MDAT, MOOF, SAIO, SAIZ, SENC, TRAF, TRUN};
use crate::fmp4::media;
use crate::fmp4::media_laws;
use crate::fmp4::media_laws::{RunFields, RunSample};
use crate::fmp4::rebuild;
use crate::fmp4::rebuild_laws;
use vstd::prelude::*;

verus! {

/// The data offset of a run is lowered by what was taken out; all else in the run stays.
pub proof fn shifted_run_has_its_offset_lowered(
    version: u8,
    offset: int,
    first_flags: Option<u32>,
    fields: RunFields,
    run: Seq<RunSample>,
    rest: Seq<u8>,
    removed: int,
)
    requires
        -0x8000_0000 <= offset < 0x8000_0000,
        0 <= removed,
        -0x8000_0000 <= offset - removed,
    ensures
        rebuild::shifted_trun(
            media_laws::trun_payload(version, Some(offset), first_flags, fields, run) + rest,
            removed,
        ) == media_laws::trun_payload(version, Some(offset - removed), first_flags, fields, run)
            + rest,
{
    let p = media_laws::trun_payload(version, Some(offset), first_flags, fields, run) + rest;
    let q = media_laws::trun_payload(version, Some(offset - removed), first_flags, fields, run)
        + rest;
    let flags = media_laws::run_flags(fields, true, first_flags is Some);
    assert(p[1] == 0 && p[2] == flags[0] && p[3] == flags[1]);
    media_laws::run_flags_are_read(p, fields, true, first_flags is Some);
    let n = media_laws::two_complement(offset);
    let m = media_laws::two_complement(offset - removed);
    bytes::be32_round_trip(n, Seq::empty());
    assert(p.subrange(8, 12) =~= bytes::be32_bytes(n));
    media_laws::be32_is_read(p, 8, n);
    assert(bytes::be32(p, 8) == n);
    assert((n - removed) % 0x1_0000_0000 == m);
    assert(p.skip(12) =~= q.skip(12));
    assert(p.take(8) =~= q.take(8));
    assert(q =~= q.take(8) + bytes::be32_bytes(m) + q.skip(12));
}

/// A run without a data offset stays as it is.
pub proof fn run_without_offset_stays(
    version: u8,
    first_flags: Option<u32>,
    fields: RunFields,
    run: Seq<RunSample>,
    rest: Seq<u8>,
    removed: int,
)
    ensures
        rebuild::shifted_trun(
            media_laws::trun_payload(version, None, first_flags, fields, run) + rest,
            removed,
        ) == media_laws::trun_payload(version, None, first_flags, fields, run) + rest,
{
    let p = media_laws::trun_payload(version, None, first_flags, fields, run) + rest;
    let flags = media_laws::run_flags(fields, false, first_flags is Some);
    assert(p[1] == 0 && p[2] == flags[0] && p[3] == flags[1]);
    media_laws::run_flags_are_read(p, fields, false, first_flags is Some);
}

/// Whether a box holds encryption metadata.
pub open spec fn is_metadata(fourcc: Seq<u8>) -> bool {
    fourcc == SENC@ || fourcc == SAIZ@ || fourcc == SAIO@
}

/// How many bytes the boxes with encryption metadata take.
pub open spec fn metadata_len(items: Seq<(Seq<u8>, Seq<u8>)>) -> int
    decreases items.len(),
{
    if items.len() == 0 {
        0
    } else {
        (if is_metadata(items[0].0) {
            8 + items[0].1.len() as int
        } else {
            0
        }) + metadata_len(items.drop_first())
    }
}

/// The boxes without encryption metadata, with the data offsets of the runs lowered.
pub open spec fn without_metadata(items: Seq<(Seq<u8>, Seq<u8>)>, removed: int) -> Seq<
    (Seq<u8>, Seq<u8>),
>
    decreases items.len(),
{
    if items.len() == 0 {
        Seq::empty()
    } else {
        let rest = without_metadata(items.drop_first(), removed);
        if is_metadata(items[0].0) {
            rest
        } else if items[0].0 == TRUN@ {
            seq![(TRUN@, rebuild::shifted_trun(items[0].1, removed))] + rest
        } else {
            seq![items[0]] + rest
        }
    }
}

/// The boxes without encryption metadata.
spec fn kept(items: Seq<(Seq<u8>, Seq<u8>)>) -> Seq<(Seq<u8>, Seq<u8>)>
    decreases items.len(),
{
    if items.len() == 0 {
        Seq::empty()
    } else if is_metadata(items[0].0) {
        kept(items.drop_first())
    } else {
        seq![items[0]] + kept(items.drop_first())
    }
}

/// The boxes with the data offsets of the runs lowered.
spec fn lowered(items: Seq<(Seq<u8>, Seq<u8>)>, removed: int) -> Seq<(Seq<u8>, Seq<u8>)>
    decreases items.len(),
{
    if items.len() == 0 {
        Seq::empty()
    } else if items[0].0 == TRUN@ {
        seq![(TRUN@, rebuild::shifted_trun(items[0].1, removed))] + lowered(
            items.drop_first(),
            removed,
        )
    } else {
        seq![items[0]] + lowered(items.drop_first(), removed)
    }
}

proof fn lowered_kept(items: Seq<(Seq<u8>, Seq<u8>)>, removed: int)
    ensures
        lowered(kept(items), removed) == without_metadata(items, removed),
        kept(items).len() == without_metadata(items, removed).len(),
        written(kept(items)).len() <= written(items).len(),
        removed % 0x1_0000_0000 == 0 ==> kept(items) == without_metadata(items, removed),
    decreases items.len(),
{
    if items.len() > 0 {
        let t = items.drop_first();
        lowered_kept(t, removed);
        if !is_metadata(items[0].0) {
            let k = seq![items[0]] + kept(t);
            assert(k.drop_first() =~= kept(t));
            if removed % 0x1_0000_0000 == 0 {
                rebuild_laws::unshifted_trun(items[0].1, removed);
                if items[0].0 == TRUN@ {
                    assert((TRUN@, items[0].1) == items[0]);
                }
            }
        }
    }
}

proof fn kept_can_be_written(items: Seq<(Seq<u8>, Seq<u8>)>)
    requires
        forall|i: int| 0 <= i < items.len() ==> (#[trigger] items[i]).0.len() == 4,
    ensures
        forall|i: int| 0 <= i < kept(items).len() ==> (#[trigger] kept(items)[i]).0.len() == 4,
    decreases items.len(),
{
    if items.len() > 0 {
        let t = items.drop_first();
        assert forall|i: int| 0 <= i < t.len() implies (#[trigger] t[i]).0.len() == 4 by {
            assert(t[i] == items[i + 1]);
        }
        kept_can_be_written(t);
        let k = kept(items);
        assert forall|i: int| 0 <= i < k.len() implies (#[trigger] k[i]).0.len() == 4 by {
            if !is_metadata(items[0].0) {
                if i > 0 {
                    assert(k[i] == kept(t)[i - 1]);
                }
            } else {
                assert(k[i] == kept(t)[i]);
            }
        }
    }
}

/// What is taken out of a track fragment is what its metadata takes.
proof fn removed_len(items: Seq<(Seq<u8>, Seq<u8>)>, bs: Seq<boxes::BoxView>, k: int)
    requires
        bs.len() == items.len(),
        0 <= k <= items.len(),
        forall|i: int|
            0 <= i < items.len() ==> (#[trigger] bs[i]).fourcc == items[i].0 && bs[i].total_size
                == 8 + items[i].1.len(),
    ensures
        rebuild::enc_size(bs.skip(k)) == metadata_len(items.skip(k)),
    decreases items.len() - k,
{
    if k < items.len() {
        removed_len(items, bs, k + 1);
        assert(bs.skip(k).drop_first() =~= bs.skip(k + 1));
        assert(items.skip(k).drop_first() =~= items.skip(k + 1));
        assert(bs.skip(k)[0] == bs[k]);
    }
}

proof fn kept_from(
    items: Seq<(Seq<u8>, Seq<u8>)>,
    bs: Seq<boxes::BoxView>,
    f: spec_fn(boxes::BoxView) -> Seq<u8>,
    k: int,
)
    requires
        bs.len() == items.len(),
        0 <= k <= bs.len(),
        forall|i: int|
            0 <= i < bs.len() ==> #[trigger] f(bs[i]) == if is_metadata(items[i].0) {
                Seq::empty()
            } else {
                boxes::iso_box(items[i].0, items[i].1)
            },
    ensures
        boxes::concat_boxes(bs.skip(k), f) == written(kept(items.skip(k))),
    decreases bs.len() - k,
{
    if k < bs.len() {
        kept_from(items, bs, f, k + 1);
        let t = items.skip(k);
        assert(bs.skip(k).drop_first() =~= bs.skip(k + 1));
        assert(t.drop_first() =~= items.skip(k + 1));
        assert(bs.skip(k)[0] == bs[k]);
        let more = kept(items.skip(k + 1));
        if is_metadata(items[k].0) {
            assert(f(bs[k]) + written(more) =~= written(more));
        } else {
            assert((seq![items[k]] + more).drop_first() =~= more);
            assert(f(bs[k]) == boxes::iso_box(items[k].0, items[k].1));
        }
    }
}

proof fn lowered_from(
    items: Seq<(Seq<u8>, Seq<u8>)>,
    bs: Seq<boxes::BoxView>,
    f: spec_fn(boxes::BoxView) -> Seq<u8>,
    removed: int,
    k: int,
)
    requires
        bs.len() == items.len(),
        0 <= k <= bs.len(),
        forall|i: int|
            0 <= i < bs.len() ==> #[trigger] f(bs[i]) == if items[i].0 == TRUN@ {
                boxes::iso_box(TRUN@, rebuild::shifted_trun(items[i].1, removed))
            } else {
                boxes::iso_box(items[i].0, items[i].1)
            },
    ensures
        boxes::concat_boxes(bs.skip(k), f) == written(lowered(items.skip(k), removed)),
    decreases bs.len() - k,
{
    if k < bs.len() {
        lowered_from(items, bs, f, removed, k + 1);
        let t = items.skip(k);
        assert(bs.skip(k).drop_first() =~= bs.skip(k + 1));
        assert(t.drop_first() =~= items.skip(k + 1));
        assert(bs.skip(k)[0] == bs[k]);
        let more = lowered(items.skip(k + 1), removed);
        let one = lowered(t, removed)[0];
        assert((seq![one] + more).drop_first() =~= more);
        assert(lowered(t, removed) =~= seq![one] + more);
        assert(f(bs[k]) == boxes::iso_box(one.0, one.1));
    }
}

/// A track fragment loses its encryption metadata, and nothing else: its other boxes are there
/// in order, as they were written, but for the data offsets of its runs, which are lowered by
/// the length of what was taken out.
#[verifier::rlimit(80)]
#[verifier::spinoff_prover]
pub proof fn fragment_loses_its_metadata(items: Seq<(Seq<u8>, Seq<u8>)>)
    requires
        box_laws::can_be_written(items),
        exists|i: int| 0 <= i < items.len() && !is_metadata((#[trigger] items[i]).0),
    ensures
        rebuild::clear_traf(written(items)) == written(
            without_metadata(items, metadata_len(items)),
        ),
{
    let s = written(items);
    let bs = boxes::box_list(s);
    let removed = metadata_len(items);
    box_laws::written_boxes_are_listed(items);
    assert forall|i: int| 0 <= i < items.len() implies (#[trigger] bs[i]).fourcc == items[i].0
        && bs[i].total_size == 8 + items[i].1.len() by {
        boxes::boxes_in_bounds(s, 0, i);
        assert(boxes::raw_box(s, bs[i]).len() == bs[i].total_size);
        assert(items[i].0.len() == 4);
        assert(boxes::iso_box(items[i].0, items[i].1).len() == 8 + items[i].1.len());
    }
    removed_len(items, bs, 0);
    assert(bs.skip(0) =~= bs);
    assert(items.skip(0) =~= items);
    let f = rebuild::drop_enc(s);
    assert forall|i: int| 0 <= i < bs.len() implies #[trigger] f(bs[i]) == (if is_metadata(
        items[i].0,
    ) {
        Seq::empty()
    } else {
        boxes::iso_box(items[i].0, items[i].1)
    }) by {
        assert(bs[i].fourcc == items[i].0);
    }
    kept_from(items, bs, f, 0);
    let k = kept(items);
    assert(rebuild::kept_in_traf(s) == written(k));
    lowered_kept(items, removed);
    kept_can_be_written(items);
    let i = choose|i: int| 0 <= i < items.len() && !is_metadata((#[trigger] items[i]).0);
    kept_is_there(items, i);
    box_laws::written_boxes_are_listed(k);
    box_laws::written_item_fits(k, 0);
    if removed % 0x1_0000_0000 != 0 {
        let cs = boxes::box_list(written(k));
        let g = rebuild::shift_truns(written(k), removed);
        assert forall|i: int| 0 <= i < cs.len() implies #[trigger] g(cs[i]) == (if k[i].0
            == TRUN@ {
            boxes::iso_box(TRUN@, rebuild::shifted_trun(k[i].1, removed))
        } else {
            boxes::iso_box(k[i].0, k[i].1)
        }) by {
            assert(cs[i].fourcc == k[i].0);
            assert(cs[i].payload == k[i].1);
        }
        lowered_from(k, cs, g, removed, 0);
        assert(cs.skip(0) =~= cs);
        assert(k.skip(0) =~= k);
    }
}

proof fn kept_is_there(items: Seq<(Seq<u8>, Seq<u8>)>, i: int)
    requires
        0 <= i < items.len(),
        !is_metadata(items[i].0),
    ensures
        kept(items).len() > 0,
    decreases i,
{
    if i > 0 {
        kept_is_there(items.drop_first(), i - 1);
    }
}

/// Only track fragments change in a fragment.
pub proof fn only_the_track_fragment_changes(a: Around, traf: Seq<u8>)
    requires
        stands_alone(a, TRAF@),
        written(around(a, TRAF@, traf)).len() < 0x1_0000_0000,
    ensures
        rebuild::clear_moof(written(around(a, TRAF@, traf))) == written(
            around(a, TRAF@, rebuild::clear_traf(traf)),
        ),
{
    let s = written(around(a, TRAF@, traf));
    let new = rebuild::clear_traf(traf);
    box_laws::around_is_first(a, TRAF@, traf);
    box_laws::written_boxes_are_listed(around(a, TRAF@, traf));
    box_laws::rewriting_around(
        a,
        TRAF@,
        traf,
        rebuild::clear_trafs(s),
        boxes::iso_box(TRAF@, new),
    );
    box_laws::around_parts(a, TRAF@, new);
}

/// A rebuilt segment holds what stood before its data, with the fragment cleared, the new
/// data, and what stood behind.
pub proof fn rebuilt_segment_keeps_the_rest(
    a: Around,
    moof: Seq<u8>,
    mdat: Seq<u8>,
    behind: Seq<u8>,
    data: Seq<u8>,
)
    requires
        stands_alone(a, MOOF@),
        written(around(a, MOOF@, moof)).len() < 0x1_0000_0000,
    ensures
        ({
            let head = written(around(a, MOOF@, moof));
            let s = head + boxes::iso_box(MDAT@, mdat) + behind;
            rebuild::rebuilt(s, data, head.len() as int, 8 + mdat.len() as int) == written(
                around(a, MOOF@, rebuild::clear_moof(moof)),
            ) + boxes::iso_box(MDAT@, data) + behind
        }),
{
    let head = written(around(a, MOOF@, moof));
    let s = head + boxes::iso_box(MDAT@, mdat) + behind;
    let new = rebuild::clear_moof(moof);
    assert(s.take(head.len() as int) =~= head);
    box_laws::around_is_first(a, MOOF@, moof);
    box_laws::written_boxes_are_listed(around(a, MOOF@, moof));
    box_laws::rewriting_around(
        a,
        MOOF@,
        moof,
        rebuild::clear_moofs(head),
        boxes::iso_box(MOOF@, new),
    );
    box_laws::around_parts(a, MOOF@, new);
    let end = head.len() + 8 + mdat.len() as int;
    if end < s.len() {
        assert(s.skip(end) =~= behind);
    } else {
        assert(behind =~= Seq::empty());
    }
}

} // verus!
