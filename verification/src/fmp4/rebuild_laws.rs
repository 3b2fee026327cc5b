//! What holds of a rebuilt media segment.

use crate::bytes;
use crate::fmp4::boxes;
use crate::fmp4::boxes::{BoxView, MDAT, MOOF, SENC, TFDT, TFHD, TRAF, TRUN};
use crate::fmp4::laws;
use crate::fmp4::media;
use crate::fmp4::media::SampleView;
use crate::fmp4::rebuild;
use crate::fmp4::Fmp4Error;
use vstd::prelude::*;

verus! {

/// What a `traf` payload without encryption metadata is made of.
spec fn named_kept() -> spec_fn(BoxView) -> Option<(Seq<u8>, Seq<u8>)> {
    |b: BoxView|
        if rebuild::is_enc_type(b.fourcc) {
            None
        } else {
            Some((b.fourcc, b.payload))
        }
}

/// What a `traf` payload with shifted data offsets is made of.
spec fn named_shifted(removed: int) -> spec_fn(BoxView) -> Option<(Seq<u8>, Seq<u8>)> {
    |b: BoxView|
        if b.fourcc == TRUN@ {
            Some((b.fourcc, rebuild::shifted_trun(b.payload, removed)))
        } else {
            Some((b.fourcc, b.payload))
        }
}

/// What a cleared `moof` payload is made of.
spec fn named_cleared() -> spec_fn(BoxView) -> Option<(Seq<u8>, Seq<u8>)> {
    |b: BoxView|
        if b.fourcc == TRAF@ {
            Some((b.fourcc, rebuild::clear_traf(b.payload)))
        } else {
            Some((b.fourcc, b.payload))
        }
}

/// What the cleared head of a segment is made of.
spec fn named_head() -> spec_fn(BoxView) -> Option<(Seq<u8>, Seq<u8>)> {
    |b: BoxView|
        if b.fourcc == MOOF@ {
            Some((b.fourcc, rebuild::clear_moof(b.payload)))
        } else {
            Some((b.fourcc, b.payload))
        }
}

proof fn shifted_trun_len(p: Seq<u8>, removed: int)
    ensures
        rebuild::shifted_trun(p, removed).len() == p.len(),
{
}

proof fn kept_children(p: Seq<u8>, fourcc: Seq<u8>)
    ensures
        rebuild::is_enc_type(fourcc) ==> boxes::child(rebuild::kept_in_traf(p), fourcc) is None,
        !rebuild::is_enc_type(fourcc) ==> laws::payload_of(
            boxes::child(rebuild::kept_in_traf(p), fourcc),
        ) == laws::payload_of(boxes::child(p, fourcc)),
        rebuild::kept_in_traf(p).len() <= p.len(),
{
    let bs = boxes::box_list(p);
    let f = rebuild::drop_enc(p);
    let g = named_kept();
    assert forall|i: int| 0 <= i < bs.len() implies (match g(#[trigger] bs[i]) {
        None => f(bs[i]).len() == 0,
        Some(w) => {
            &&& laws::reads_as(f(bs[i]), w.0, w.1)
            &&& laws::sized_at(f(bs[i]), 0) || i == bs.len() - 1
        },
    }) by {
        laws::raw_is_written(p, i);
    }
    laws::rewritten_child(bs, f, g, fourcc);
    if rebuild::is_enc_type(fourcc) {
        laws::never_named(bs, g, fourcc);
    } else {
        let same = |q: Seq<u8>| q;
        laws::named_is_first(bs, g, same, fourcc);
    }
    assert forall|i: int| 0 <= i < bs.len() implies f(#[trigger] bs[i]).len()
        <= bs[i].total_size by {
        boxes::boxes_in_bounds(p, 0, i);
    }
    laws::concat_fits(p, 0, f);
}

proof fn shifted_children(p: Seq<u8>, removed: int, fourcc: Seq<u8>)
    requires
        p.len() < 0x1_0000_0000,
    ensures
        laws::payload_of(
            boxes::child(
                boxes::concat_boxes(boxes::box_list(p), rebuild::shift_truns(p, removed)),
                fourcc,
            ),
        ) == match boxes::child(p, fourcc) {
            Some(b) => Some(
                if fourcc == TRUN@ {
                    rebuild::shifted_trun(b.payload, removed)
                } else {
                    b.payload
                },
            ),
            None => None,
        },
        boxes::concat_boxes(boxes::box_list(p), rebuild::shift_truns(p, removed)).len() <= p.len(),
{
    let bs = boxes::box_list(p);
    let f = rebuild::shift_truns(p, removed);
    let g = named_shifted(removed);
    assert forall|i: int| 0 <= i < bs.len() implies (match g(#[trigger] bs[i]) {
        None => f(bs[i]).len() == 0,
        Some(w) => {
            &&& laws::reads_as(f(bs[i]), w.0, w.1)
            &&& laws::sized_at(f(bs[i]), 0) || i == bs.len() - 1
        },
    }) by {
        let b = bs[i];
        boxes::boxes_in_bounds(p, 0, i);
        laws::raw_is_written(p, i);
        if b.fourcc == TRUN@ {
            shifted_trun_len(b.payload, removed);
            laws::written_box_reads_back(b.fourcc, rebuild::shifted_trun(b.payload, removed));
        }
    }
    laws::rewritten_child(bs, f, g, fourcc);
    let h = |q: Seq<u8>|
        if fourcc == TRUN@ {
            rebuild::shifted_trun(q, removed)
        } else {
            q
        };
    laws::named_is_first(bs, g, h, fourcc);
    assert forall|i: int| 0 <= i < bs.len() implies f(#[trigger] bs[i]).len()
        <= bs[i].total_size by {
        let b = bs[i];
        boxes::boxes_in_bounds(p, 0, i);
        shifted_trun_len(b.payload, removed);
        laws::iso_box_len(b.fourcc, rebuild::shifted_trun(b.payload, removed));
    }
    laws::concat_fits(p, 0, f);
}

/// A data offset lowered by nothing is as it was.
pub proof fn unshifted_trun(p: Seq<u8>, removed: int)
    requires
        removed % 0x1_0000_0000 == 0,
    ensures
        rebuild::shifted_trun(p, removed) == p,
{
    if p.len() >= 12 && media::has_flag(bytes::be24(p, 1), 0x1) {
        let n = bytes::be32(p, 8);
        assert(0 <= n < 0x1_0000_0000);
        assert((n - removed) % 0x1_0000_0000 == n) by {
            let k = removed / 0x1_0000_0000;
            assert(removed == k * 0x1_0000_0000);
        }
        assert(n / 0x100_0000 % 0x100 == p[8]);
        assert(n / 0x1_0000 % 0x100 == p[9]);
        assert(n / 0x100 % 0x100 == p[10]);
        assert(n % 0x100 == p[11]);
        assert(rebuild::shifted_trun(p, removed) =~= p);
    }
}

/// A cleared track fragment has lost its encryption metadata and nothing else: the
/// boxes of every other type are there, with the data offset of a `trun` box
/// smaller by what was taken out.
pub proof fn cleared_traf_keeps_the_rest(p: Seq<u8>, fourcc: Seq<u8>)
    requires
        p.len() < 0x1_0000_0000,
        rebuild::kept_in_traf(p).len() > 0,
    ensures
        rebuild::is_enc_type(fourcc) ==> boxes::child(rebuild::clear_traf(p), fourcc) is None,
        !rebuild::is_enc_type(fourcc) && fourcc != TRUN@ ==> laws::payload_of(
            boxes::child(rebuild::clear_traf(p), fourcc),
        ) == laws::payload_of(boxes::child(p, fourcc)),
        laws::payload_of(boxes::child(rebuild::clear_traf(p), TRUN@)) == match boxes::child(
            p,
            TRUN@,
        ) {
            Some(b) => Some(
                rebuild::shifted_trun(b.payload, rebuild::enc_size(boxes::box_list(p))),
            ),
            None => None,
        },
        rebuild::clear_traf(p).len() <= p.len(),
{
    let removed = rebuild::enc_size(boxes::box_list(p));
    let kept = rebuild::kept_in_traf(p);
    kept_children(p, fourcc);
    kept_children(p, TRUN@);
    if removed % 0x1_0000_0000 == 0 {
        if boxes::child(p, TRUN@) is Some {
            unshifted_trun((boxes::child(p, TRUN@)->0).payload, removed);
        }
    } else {
        shifted_children(kept, removed, fourcc);
        shifted_children(kept, removed, TRUN@);
    }
}

proof fn sizes_unmoved(
    p: Seq<u8>,
    q: Seq<u8>,
    at: int,
    record: int,
    has_size: bool,
    skip: int,
    n: int,
)
    requires
        p.len() == q.len(),
        12 <= at,
        0 <= record,
        has_size ==> 0 <= skip && skip + 4 <= record,
        forall|i: int| 12 <= i < p.len() ==> p[i] == q[i],
    ensures
        media::sizes_from(p, at, record, has_size, skip, n) == media::sizes_from(
            q,
            at,
            record,
            has_size,
            skip,
            n,
        ),
    decreases n,
{
    if n > 0 && at + record <= p.len() {
        sizes_unmoved(p, q, at + record, record, has_size, skip, n - 1);
    }
}

/// Shifting the data offset leaves the sample sizes as they are.
pub proof fn shifted_trun_keeps_sizes(p: Seq<u8>, removed: int)
    ensures
        media::trun_sizes(rebuild::shifted_trun(p, removed)) == media::trun_sizes(p),
{
    let q = rebuild::shifted_trun(p, removed);
    shifted_trun_len(p, removed);
    if p.len() >= 12 && media::has_flag(bytes::be24(p, 1), 0x1) {
        assert(forall|i: int| 0 <= i < 8 ==> q[i] == p[i]);
        assert(forall|i: int| 12 <= i < p.len() ==> q[i] == p[i]);
        let flags = bytes::be24(p, 1);
        assert(q[1] == p[1] && q[2] == p[2] && q[3] == p[3]);
        assert(q[4] == p[4] && q[5] == p[5] && q[6] == p[6] && q[7] == p[7]);
        sizes_unmoved(
            p,
            q,
            8 + media::field_size(flags, 0x1) + media::field_size(flags, 0x4),
            media::field_size(flags, 0x100) + media::field_size(flags, 0x200) + media::field_size(
                flags,
                0x400,
            ) + media::field_size(flags, 0x800),
            media::has_flag(flags, 0x200),
            media::field_size(flags, 0x100),
            bytes::be32(p, 4),
        );
    }
}

/// The same samples, all of them clear.
pub open spec fn cleared(samples: Seq<SampleView>) -> Seq<SampleView> {
    samples.map_values(|x: SampleView| SampleView { enc: None, ..x })
}

/// A cleared track fragment lists the same samples, all of them clear.
pub proof fn cleared_traf_lists_clear_samples(p: Seq<u8>, iv_size: int, new_iv_size: int)
    requires
        p.len() < 0x1_0000_0000,
        media::traf_samples(p, iv_size, true) is Ok,
    ensures
        media::traf_samples(rebuild::clear_traf(p), new_iv_size, true) == Ok::<
            Seq<SampleView>,
            Fmp4Error,
        >(cleared(media::traf_samples(p, iv_size, true)->Ok_0)),
{
    kept_children(p, TFHD@);
    let kept = rebuild::kept_in_traf(p);
    assert(kept.len() > 0) by {
        assert(boxes::child(kept, TFHD@) is Some);
        boxes::child_in_bounds(kept, TFHD@);
    }
    cleared_traf_keeps_the_rest(p, TFHD@);
    cleared_traf_keeps_the_rest(p, TFDT@);
    cleared_traf_keeps_the_rest(p, SENC@);
    let trun = (boxes::child(p, TRUN@)->0).payload;
    shifted_trun_keeps_sizes(trun, rebuild::enc_size(boxes::box_list(p)));
    let sizes = media::trun_sizes(trun)->Ok_0;
    let base = media::base_time(p);
    assert(media::base_time(rebuild::clear_traf(p)) == base);
    let infos = match boxes::child(p, SENC@) {
        None => Seq::<media::EncView>::empty(),
        Some(senc) => media::senc_infos(senc.payload, iv_size, sizes.len() as int)->Ok_0,
    };
    assert(media::samples_of(sizes, Seq::empty(), base) =~= cleared(
        media::samples_of(sizes, infos, base),
    ));
}

/// The boxes before the box at `q` are those of the buffer that ends there.
proof fn boxes_before(s: Seq<u8>, pos: int, k: int)
    requires
        0 <= pos,
        0 <= k < boxes::box_list_from(s, pos).len(),
    ensures
        ({
            let q = boxes::box_list_from(s, pos)[k].offset;
            boxes::box_list_from(s.take(q), pos) == boxes::box_list_from(s, pos).take(k)
        }),
        forall|i: int|
            0 <= i < k ==> laws::sized_at(
                s.take(boxes::box_list_from(s, pos)[k].offset),
                (#[trigger] boxes::box_list_from(s, pos)[i]).offset,
            ),
    decreases k,
{
    let all = boxes::box_list_from(s, pos);
    let q = all[k].offset;
    let t = s.take(q);
    boxes::boxes_in_bounds(s, pos, k);
    if k == 0 {
        assert(q == pos);
        assert(boxes::box_at(t, pos) is None);
        assert(boxes::box_list_from(t, pos) =~= all.take(0));
    } else {
        let b = boxes::box_at(s, pos)->0;
        let next = pos + b.total_size;
        let rest = boxes::box_list_from(s, next);
        assert(all =~= seq![b] + rest);
        assert(rest[k - 1] == all[k]);
        boxes_before(s, next, k - 1);
        boxes::boxes_in_bounds(s, next, k - 1);
        laws::only_the_last_is_unsized(s, pos, 0);
        let x = boxes::raw_box(s, b);
        laws::raw_box_reads_back(s, pos);
        laws::box_reads_anywhere(s.take(pos), x, s.subrange(next, q), b.fourcc, b.payload);
        assert(s.take(pos) + x + s.subrange(next, q) =~= t);
        assert(boxes::box_at(t, pos) == Some(b));
        assert(boxes::box_list_from(t, pos) =~= seq![b] + rest.take(k - 1));
        assert(all.take(k) =~= seq![b] + rest.take(k - 1));
        assert(bytes::be32(t, pos) == bytes::be32(s, pos));
        assert forall|i: int| 0 <= i < k implies laws::sized_at(
            t,
            (#[trigger] all[i]).offset,
        ) by {
            if i > 0 {
                assert(all[i] == rest[i - 1]);
            }
        }
    }
}

proof fn cleared_moof_children(p: Seq<u8>)
    requires
        p.len() < 0x1_0000_0000,
        boxes::child(p, TRAF@) is Some,
        rebuild::kept_in_traf((boxes::child(p, TRAF@)->0).payload).len() > 0,
    ensures
        laws::payload_of(boxes::child(rebuild::clear_moof(p), TRAF@)) == Some(
            rebuild::clear_traf((boxes::child(p, TRAF@)->0).payload),
        ),
{
    let bs = boxes::box_list(p);
    let f = rebuild::clear_trafs(p);
    let g = named_cleared();
    let k = boxes::first_of_is_member(bs, TRAF@);
    assert forall|i: int| 0 <= i < bs.len() implies (match g(#[trigger] bs[i]) {
        None => f(bs[i]).len() == 0,
        Some(w) => {
            &&& laws::reads_as(f(bs[i]), w.0, w.1)
            &&& laws::sized_at(f(bs[i]), 0) || i == bs.len() - 1
        },
    }) by {
        let b = bs[i];
        boxes::boxes_in_bounds(p, 0, i);
        laws::raw_is_written(p, i);
        if b.fourcc == TRAF@ {
            clear_traf_fits(b.payload);
            laws::written_box_reads_back(b.fourcc, rebuild::clear_traf(b.payload));
        }
    }
    laws::rewritten_child(bs, f, g, TRAF@);
    let h = |q: Seq<u8>| rebuild::clear_traf(q);
    laws::named_is_first(bs, g, h, TRAF@);
}

proof fn clear_traf_fits(p: Seq<u8>)
    requires
        p.len() < 0x1_0000_0000,
    ensures
        rebuild::clear_traf(p).len() <= p.len(),
{
    if rebuild::kept_in_traf(p).len() > 0 {
        cleared_traf_keeps_the_rest(p, TRUN@);
    }
}

proof fn clear_moof_fits(p: Seq<u8>)
    requires
        p.len() < 0x1_0000_0000,
    ensures
        rebuild::clear_moof(p).len() <= p.len(),
{
    let bs = boxes::box_list(p);
    let f = rebuild::clear_trafs(p);
    assert forall|i: int| 0 <= i < bs.len() implies f(#[trigger] bs[i]).len()
        <= bs[i].total_size by {
        let b = bs[i];
        boxes::boxes_in_bounds(p, 0, i);
        clear_traf_fits(b.payload);
        laws::iso_box_len(b.fourcc, rebuild::clear_traf(b.payload));
    }
    laws::concat_fits(p, 0, f);
}

/// A segment rebuilt around new data, read again: the data box holds the new data,
/// and the samples are those of the segment, all of them clear.
///
/// The fragment's `moof` stands before its data box.
#[verifier::rlimit(80)]
#[verifier::spinoff_prover]
pub proof fn rebuilt_segment_is_clear(s: Seq<u8>, data: Seq<u8>, iv_size: int, new_iv_size: int)
    requires
        s.len() < 0x1_0000_0000,
        data.len() + 8 < 0x1_0000_0000,
        media::media_samples(s, iv_size) is Ok,
        (boxes::child(s, MOOF@)->0).offset < (boxes::child(s, MDAT@)->0).offset,
    ensures
        ({
            let mdat = boxes::child(s, MDAT@)->0;
            let out = rebuild::rebuilt(s, data, mdat.offset, mdat.total_size);
            &&& laws::payload_of(boxes::child(out, MDAT@)) == Some(data)
            &&& media::media_samples(out, new_iv_size) == Ok::<Seq<SampleView>, Fmp4Error>(
                cleared(media::media_samples(s, iv_size)->Ok_0),
            )
        }),
{
    let all = boxes::box_list(s);
    let mdat = boxes::child(s, MDAT@)->0;
    let moof = boxes::child(s, MOOF@)->0;
    let traf = boxes::child(moof.payload, TRAF@)->0;
    let m = boxes::first_of_is_member(all, MDAT@);
    let h = boxes::first_of_is_member(all, MOOF@);
    boxes::boxes_in_bounds(s, 0, m);
    boxes::boxes_in_bounds(s, 0, h);
    boxes::child_in_bounds(moof.payload, TRAF@);
    boxes_before(s, 0, m);
    let head = s.take(mdat.offset);
    let bs = boxes::box_list(head);
    assert(bs == all.take(m));
    // the `moof` is among them
    assert(h < m) by {
        if h > m {
            offsets_grow(s, m, h);
        }
    }
    let f = rebuild::clear_moofs(head);
    let g = named_head();
    assert forall|i: int| 0 <= i < bs.len() implies (match g(#[trigger] bs[i]) {
        None => f(bs[i]).len() == 0,
        Some(w) => {
            &&& laws::reads_as(f(bs[i]), w.0, w.1)
            &&& laws::sized_at(f(bs[i]), 0)
        },
    }) by {
        let b = bs[i];
        assert(b == all[i]);
        boxes::boxes_in_bounds(head, 0, i);
        laws::raw_is_written(head, i);
        if b.fourcc == MOOF@ {
            clear_moof_fits(b.payload);
            laws::written_box_reads_back(b.fourcc, rebuild::clear_moof(b.payload));
        }
    }
    let tail = if mdat.offset + mdat.total_size < s.len() {
        s.skip(mdat.offset + mdat.total_size)
    } else {
        Seq::empty()
    };
    let x = boxes::iso_box(MDAT@, data);
    let c = boxes::concat_boxes(bs, f);
    let e = Seq::<u8>::empty();
    let out = rebuild::rebuilt(s, data, mdat.offset, mdat.total_size);
    assert(out =~= e + c + (x + tail));
    assert(out =~= c + x + tail);
    assert(e + c =~= c);
    laws::rewritten_boxes_read_back(e, bs, f, g, x + tail);
    laws::written_box_reads_back(MDAT@, data);
    laws::box_reads_anywhere(c, x, tail, MDAT@, data);
    let front = laws::placed(bs, f, g, 0);
    let rest = boxes::box_list_from(out, c.len() as int);
    assert(boxes::box_list(out) == front + rest);
    // the data box
    laws::first_of_placed(bs, f, g, 0, MDAT@);
    assert(forall|i: int| 0 <= i < bs.len() ==> (#[trigger] bs[i]) == all[i]);
    laws::never_named(bs, g, MDAT@);
    first_of_append(front, rest, MDAT@);
    // the fragment
    laws::first_of_placed(bs, f, g, 0, MOOF@);
    let clear = |q: Seq<u8>| rebuild::clear_moof(q);
    laws::named_is_first(bs, g, clear, MOOF@);
    first_of_take(all, m, h, MOOF@);
    first_of_append(front, rest, MOOF@);
    cleared_traf_lists_clear_samples(traf.payload, iv_size, new_iv_size);
    kept_children(traf.payload, TFHD@);
    assert(rebuild::kept_in_traf(traf.payload).len() > 0) by {
        boxes::child_in_bounds(rebuild::kept_in_traf(traf.payload), TFHD@);
    }
    cleared_moof_children(moof.payload);
}

proof fn offsets_grow(s: Seq<u8>, i: int, j: int)
    requires
        0 <= i < j < boxes::box_list(s).len(),
    ensures
        boxes::box_list(s)[i].offset < boxes::box_list(s)[j].offset,
    decreases j - i,
{
    laws::boxes_lie_end_to_end(s, j);
    boxes::boxes_in_bounds(s, 0, j - 1);
    if i < j - 1 {
        offsets_grow(s, i, j - 1);
    }
}

proof fn first_of_append(a: Seq<BoxView>, b: Seq<BoxView>, fourcc: Seq<u8>)
    ensures
        boxes::first_of(a + b, fourcc) == if boxes::first_of(a, fourcc) is Some {
            boxes::first_of(a, fourcc)
        } else {
            boxes::first_of(b, fourcc)
        },
    decreases a.len(),
{
    if a.len() == 0 {
        assert(a + b =~= b);
    } else {
        assert((a + b).drop_first() =~= a.drop_first() + b);
        first_of_append(a.drop_first(), b, fourcc);
    }
}

proof fn first_of_take(bs: Seq<BoxView>, m: int, h: int, fourcc: Seq<u8>)
    requires
        0 <= h < m <= bs.len(),
        bs[h].fourcc == fourcc,
        forall|j: int| 0 <= j < h ==> (#[trigger] bs[j]).fourcc != fourcc,
    ensures
        boxes::first_of(bs.take(m), fourcc) == Some(bs[h]),
    decreases h,
{
    if h > 0 {
        assert(bs[0].fourcc != fourcc);
        let t = bs.drop_first();
        assert(bs.take(m).drop_first() =~= t.take(m - 1));
        assert forall|j: int| 0 <= j < h - 1 implies (#[trigger] t[j]).fourcc != fourcc by {
            assert(t[j] == bs[j + 1]);
        }
        first_of_take(t, m - 1, h - 1, fourcc);
    }
}

/// In joined sample data each sample lies where the sample list puts it, if it has
/// the size listed.
pub proof fn joined_samples_are_in_place(
    samples: Seq<Vec<u8>>,
    sizes: Seq<u32>,
    infos: Seq<media::EncView>,
    base: int,
    i: int,
)
    requires
        samples.len() == sizes.len(),
        0 <= i < samples.len(),
        forall|j: int| 0 <= j < sizes.len() ==> (#[trigger] samples[j])@.len() == sizes[j],
    ensures
        ({
            let place = media::samples_of(sizes, infos, base)[i];
            &&& 0 <= place.mdat_offset
            &&& place.mdat_offset + place.size <= rebuild::joined(samples).len()
            &&& rebuild::joined(samples).subrange(
                place.mdat_offset,
                place.mdat_offset + place.size,
            ) == samples[i]@
        }),
    decreases samples.len(),
{
    let last = samples.len() - 1;
    joined_len(samples.drop_last(), sizes.drop_last());
    assert(samples[last as int]@.len() == sizes[last as int]);
    if i == last {
        assert(sizes.take(i) =~= sizes.drop_last());
        assert(rebuild::joined(samples).subrange(
            media::sum_sizes(sizes.take(i)),
            media::sum_sizes(sizes.take(i)) + sizes[i],
        ) =~= samples[i]@);
    } else {
        let front = samples.drop_last();
        let front_sizes = sizes.drop_last();
        assert forall|j: int| 0 <= j < front_sizes.len() implies (#[trigger] front[j])@.len()
            == front_sizes[j] by {
            assert(front[j] == samples[j]);
        }
        joined_samples_are_in_place(front, front_sizes, infos, base, i);
        assert(front_sizes.take(i) =~= sizes.take(i));
        let a = media::sum_sizes(sizes.take(i));
        assert(rebuild::joined(samples).subrange(a, a + sizes[i]) =~= rebuild::joined(
            front,
        ).subrange(a, a + sizes[i]));
    }
}

proof fn joined_len(samples: Seq<Vec<u8>>, sizes: Seq<u32>)
    requires
        samples.len() == sizes.len(),
        forall|j: int| 0 <= j < sizes.len() ==> (#[trigger] samples[j])@.len() == sizes[j],
    ensures
        rebuild::joined(samples).len() == media::sum_sizes(sizes),
    decreases samples.len(),
{
    if samples.len() > 0 {
        let front = samples.drop_last();
        assert forall|j: int| 0 <= j < sizes.drop_last().len() implies (
        #[trigger] front[j])@.len() == sizes.drop_last()[j] by {
            assert(front[j] == samples[j]);
        }
        assert(samples[samples.len() - 1]@.len() == sizes[samples.len() - 1]);
        joined_len(front, sizes.drop_last());
    }
}

/// Whether the boxes of a type have the short header of eight bytes.
pub open spec fn short_headers(bs: Seq<BoxView>, fourcc: Seq<u8>) -> bool {
    forall|i: int|
        0 <= i < bs.len() && (#[trigger] bs[i]).fourcc == fourcc ==> bs[i].total_size
            == bs[i].payload.len() + 8
}

/// The number of boxes of a type.
pub open spec fn count_of(bs: Seq<BoxView>, fourcc: Seq<u8>) -> int
    decreases bs.len(),
{
    if bs.len() == 0 {
        0
    } else {
        (if bs[0].fourcc == fourcc {
            1int
        } else {
            0
        }) + count_of(bs.drop_first(), fourcc)
    }
}

proof fn kept_len(s: Seq<u8>, pos: int)
    requires
        0 <= pos <= s.len(),
    ensures
        boxes::concat_boxes(boxes::box_list_from(s, pos), rebuild::drop_enc(s)).len()
            == laws::walk_end(s, pos) - pos - rebuild::enc_size(boxes::box_list_from(s, pos)),
    decreases s.len() - pos,
{
    if boxes::box_at(s, pos) is Some {
        let b = boxes::box_at(s, pos)->0;
        let bs = boxes::box_list_from(s, pos);
        assert(bs.drop_first() =~= boxes::box_list_from(s, pos + b.total_size));
        kept_len(s, pos + b.total_size);
    }
}

proof fn same_len(s: Seq<u8>, pos: int, f: spec_fn(BoxView) -> Seq<u8>)
    requires
        0 <= pos <= s.len(),
        forall|i: int|
            0 <= i < boxes::box_list_from(s, pos).len() ==> f(
                #[trigger] boxes::box_list_from(s, pos)[i],
            ).len() == boxes::box_list_from(s, pos)[i].total_size,
    ensures
        boxes::concat_boxes(boxes::box_list_from(s, pos), f).len() == laws::walk_end(s, pos) - pos,
    decreases s.len() - pos,
{
    if boxes::box_at(s, pos) is Some {
        let b = boxes::box_at(s, pos)->0;
        let bs = boxes::box_list_from(s, pos);
        let rest = boxes::box_list_from(s, pos + b.total_size);
        assert(bs.drop_first() =~= rest);
        assert(f(bs[0]).len() == bs[0].total_size);
        assert forall|i: int| 0 <= i < rest.len() implies f(#[trigger] rest[i]).len()
            == rest[i].total_size by {
            assert(bs[i + 1] == rest[i]);
        }
        same_len(s, pos + b.total_size, f);
    }
}

/// A cleared track fragment is shorter by exactly what its data offsets lose.
#[verifier::rlimit(80)]
#[verifier::spinoff_prover]
pub proof fn cleared_traf_shrinks_by_the_shift(p: Seq<u8>)
    requires
        p.len() < 0x1_0000_0000,
        laws::tiled(p),
        short_headers(boxes::box_list(p), TRUN@),
        rebuild::kept_in_traf(p).len() > 0,
    ensures
        rebuild::clear_traf(p).len() == p.len() - rebuild::enc_size(boxes::box_list(p)),
{
    let removed = rebuild::enc_size(boxes::box_list(p));
    let kept = rebuild::kept_in_traf(p);
    kept_len(p, 0);
    if removed % 0x1_0000_0000 != 0 {
        let bs = boxes::box_list(p);
        let f = rebuild::drop_enc(p);
        let g = named_kept();
        assert forall|i: int| 0 <= i < bs.len() implies (match g(#[trigger] bs[i]) {
            None => f(bs[i]).len() == 0,
            Some(w) => {
                &&& laws::reads_as(f(bs[i]), w.0, w.1)
                &&& laws::sized_at(f(bs[i]), 0) || i == bs.len() - 1
            },
        }) by {
            laws::raw_is_written(p, i);
        }
        let e = Seq::<u8>::empty();
        laws::rewritten_boxes_read_back(e, bs, f, g, e);
        laws::rewritten_boxes_tile(e, bs, f, g);
        assert(e + kept + e =~= kept);
        assert(e + kept =~= kept);
        assert(boxes::box_at(kept, kept.len() as int) is None);
        let list = boxes::box_list(kept);
        assert(list =~= laws::placed(bs, f, g, 0));
        let shift = rebuild::shift_truns(kept, removed);
        assert forall|i: int| 0 <= i < list.len() implies shift(#[trigger] list[i]).len()
            == list[i].total_size by {
            boxes::boxes_in_bounds(kept, 0, i);
            let k = laws::placed_from(bs, f, g, 0, i);
            boxes::boxes_in_bounds(p, 0, k);
            if list[i].fourcc == TRUN@ {
                assert(bs[k].fourcc == TRUN@);
                shifted_trun_len(list[i].payload, removed);
                laws::iso_box_len(
                    list[i].fourcc,
                    rebuild::shifted_trun(list[i].payload, removed),
                );
            }
        }
        same_len(kept, 0, shift);
    }
}

proof fn cleared_moof_len(s: Seq<u8>, pos: int)
    requires
        0 <= pos <= s.len() < 0x1_0000_0000,
        short_headers(boxes::box_list_from(s, pos), TRAF@),
        count_of(boxes::box_list_from(s, pos), TRAF@) <= 1,
        forall|i: int|
            0 <= i < boxes::box_list_from(s, pos).len() && (#[trigger] boxes::box_list_from(
                s,
                pos,
            )[i]).fourcc == TRAF@ ==> {
                let traf = boxes::box_list_from(s, pos)[i].payload;
                &&& laws::tiled(traf)
                &&& short_headers(boxes::box_list(traf), TRUN@)
                &&& rebuild::kept_in_traf(traf).len() > 0
            },
    ensures
        boxes::concat_boxes(boxes::box_list_from(s, pos), rebuild::clear_trafs(s)).len()
            == laws::walk_end(s, pos) - pos - match boxes::first_of(
            boxes::box_list_from(s, pos),
            TRAF@,
        ) {
            Some(b) => rebuild::enc_size(boxes::box_list(b.payload)),
            None => 0,
        },
    decreases s.len() - pos,
{
    if boxes::box_at(s, pos) is Some {
        let b = boxes::box_at(s, pos)->0;
        let bs = boxes::box_list_from(s, pos);
        let rest = boxes::box_list_from(s, pos + b.total_size);
        assert(bs.drop_first() =~= rest);
        assert forall|i: int| 0 <= i < rest.len() implies #[trigger] rest[i] == bs[i + 1] by {
        }
        assert(bs[0] == b);
        cleared_moof_len(s, pos + b.total_size);
        if b.fourcc == TRAF@ {
            no_more(rest, TRAF@);
            cleared_traf_shrinks_by_the_shift(b.payload);
            laws::iso_box_len(b.fourcc, rebuild::clear_traf(b.payload));
        }
    }
}

proof fn no_more(bs: Seq<BoxView>, fourcc: Seq<u8>)
    requires
        count_of(bs, fourcc) <= 0,
    ensures
        boxes::first_of(bs, fourcc) is None,
        count_of(bs, fourcc) == 0,
    decreases bs.len(),
{
    count_nonneg(bs, fourcc);
    if bs.len() > 0 {
        count_nonneg(bs.drop_first(), fourcc);
        no_more(bs.drop_first(), fourcc);
    }
}

proof fn count_nonneg(bs: Seq<BoxView>, fourcc: Seq<u8>)
    ensures
        count_of(bs, fourcc) >= 0,
    decreases bs.len(),
{
    if bs.len() > 0 {
        count_nonneg(bs.drop_first(), fourcc);
    }
}

/// A cleared fragment with one track fragment is shorter by exactly what its data
/// offsets lose, so that they point at the same sample data as before.
#[verifier::rlimit(80)]
#[verifier::spinoff_prover]
pub proof fn cleared_moof_shrinks_by_the_shift(p: Seq<u8>)
    requires
        p.len() < 0x1_0000_0000,
        laws::tiled(p),
        short_headers(boxes::box_list(p), TRAF@),
        count_of(boxes::box_list(p), TRAF@) == 1,
        boxes::child(p, TRAF@) is Some,
        laws::tiled((boxes::child(p, TRAF@)->0).payload),
        short_headers(boxes::box_list((boxes::child(p, TRAF@)->0).payload), TRUN@),
        rebuild::kept_in_traf((boxes::child(p, TRAF@)->0).payload).len() > 0,
    ensures
        rebuild::clear_moof(p).len() == p.len() - rebuild::enc_size(
            boxes::box_list((boxes::child(p, TRAF@)->0).payload),
        ),
{
    let bs = boxes::box_list(p);
    let k = boxes::first_of_is_member(bs, TRAF@);
    assert forall|i: int| 0 <= i < bs.len() && (#[trigger] bs[i]).fourcc == TRAF@ implies i
        == k by {
        if i != k {
            two_counted(bs, k, i, TRAF@);
        }
    }
    cleared_moof_len(p, 0);
}

proof fn two_counted(bs: Seq<BoxView>, i: int, j: int, fourcc: Seq<u8>)
    requires
        0 <= i < bs.len(),
        0 <= j < bs.len(),
        i != j,
        bs[i].fourcc == fourcc,
        bs[j].fourcc == fourcc,
    ensures
        count_of(bs, fourcc) >= 2,
    decreases bs.len(),
{
    let t = bs.drop_first();
    if i == 0 {
        assert(t[j - 1] == bs[j]);
        one_counted(t, j - 1, fourcc);
    } else if j == 0 {
        assert(t[i - 1] == bs[i]);
        one_counted(t, i - 1, fourcc);
    } else {
        assert(t[i - 1] == bs[i] && t[j - 1] == bs[j]);
        two_counted(t, i - 1, j - 1, fourcc);
    }
}

proof fn one_counted(bs: Seq<BoxView>, i: int, fourcc: Seq<u8>)
    requires
        0 <= i < bs.len(),
        bs[i].fourcc == fourcc,
    ensures
        count_of(bs, fourcc) >= 1,
    decreases bs.len(),
{
    let t = bs.drop_first();
    if i == 0 {
        count_nonneg(t, fourcc);
    } else {
        assert(t[i - 1] == bs[i]);
        one_counted(t, i - 1, fourcc);
    }
}

/// Whether a box has a header of eight bytes that says how long the box is.
pub open spec fn plain_header(s: Seq<u8>, b: BoxView) -> bool {
    bytes::be32(s, b.offset) == b.payload.len() + 8
}

/// Whether a payload is made of whole boxes and nothing else, or holds no box.
pub open spec fn whole(p: Seq<u8>) -> bool {
    boxes::box_list(p).len() == 0 || laws::tiled(p)
}

/// Whether a track fragment holds whole boxes, and no encryption metadata.
pub open spec fn traf_is_clear(p: Seq<u8>) -> bool {
    &&& whole(p)
    &&& forall|i: int|
        0 <= i < boxes::box_list(p).len() ==> !rebuild::is_enc_type(
            (#[trigger] boxes::box_list(p)[i]).fourcc,
        )
}

/// Whether a fragment holds whole boxes, and its track fragments are clear.
pub open spec fn moof_is_clear(p: Seq<u8>) -> bool {
    &&& whole(p)
    &&& forall|i: int|
        0 <= i < boxes::box_list(p).len() && (#[trigger] boxes::box_list(p)[i]).fourcc == TRAF@
            ==> plain_header(p, boxes::box_list(p)[i]) && traf_is_clear(
            boxes::box_list(p)[i].payload,
        )
}

/// Whether the fragments of a buffer are clear.
pub open spec fn moofs_are_clear(s: Seq<u8>) -> bool {
    forall|i: int|
        0 <= i < boxes::box_list(s).len() && (#[trigger] boxes::box_list(s)[i]).fourcc == MOOF@
            ==> plain_header(s, boxes::box_list(s)[i]) && moof_is_clear(
            boxes::box_list(s)[i].payload,
        )
}

/// Whether `samples` are the bytes that a sample list says, out of `data`, and
/// there is no more data than theirs.
pub open spec fn samples_fill(
    samples: Seq<Vec<u8>>,
    listed: Seq<SampleView>,
    data: Seq<u8>,
) -> bool {
    &&& samples.len() == listed.len()
    &&& forall|i: int|
        0 <= i < samples.len() ==> (#[trigger] samples[i])@ == data.subrange(
            listed[i].mdat_offset,
            listed[i].mdat_offset + listed[i].size,
        )
    &&& data.len() == if listed.len() == 0 {
        0
    } else {
        listed.last().mdat_offset + listed.last().size
    }
}

#[verifier::rlimit(80)]
#[verifier::spinoff_prover]
proof fn plain_box_is_written(s: Seq<u8>, i: int)
    requires
        0 <= i < boxes::box_list(s).len(),
        plain_header(s, boxes::box_list(s)[i]),
    ensures
        boxes::iso_box(boxes::box_list(s)[i].fourcc, boxes::box_list(s)[i].payload)
            == boxes::raw_box(s, boxes::box_list(s)[i]),
{
    let b = boxes::box_list(s)[i];
    boxes::boxes_in_bounds(s, 0, i);
    four_bytes_are_written(s, b.offset);
    assert(boxes::iso_box(b.fourcc, b.payload) =~= boxes::raw_box(s, b));
}

/// A number that was read from four bytes is written as these bytes.
proof fn four_bytes_are_written(s: Seq<u8>, at: int)
    requires
        0 <= at,
        at + 4 <= s.len(),
    ensures
        bytes::be32_bytes(bytes::be32(s, at)) == s.subrange(at, at + 4),
{
    let n = bytes::be32(s, at);
    let a = s[at] as int;
    let b = s[at + 1] as int;
    let c = s[at + 2] as int;
    let d = s[at + 3] as int;
    assert(n / 0x100_0000 == a);
    assert(n / 0x1_0000 == a * 0x100 + b);
    assert(n / 0x100 == (a * 0x100 + b) * 0x100 + c);
    assert(n % 0x100 == d);
    assert(bytes::be32_bytes(n) =~= s.subrange(at, at + 4));
}

proof fn clear_traf_stays(p: Seq<u8>)
    requires
        traf_is_clear(p),
    ensures
        rebuild::clear_traf(p) == p,
{
    if rebuild::kept_in_traf(p).len() > 0 {
        laws::copied_boxes(p, 0, rebuild::drop_enc(p));
        assert(p.subrange(0, p.len() as int) =~= p);
        nothing_encrypted(boxes::box_list(p));
    }
}

proof fn nothing_encrypted(bs: Seq<BoxView>)
    requires
        forall|i: int| 0 <= i < bs.len() ==> !rebuild::is_enc_type((#[trigger] bs[i]).fourcc),
    ensures
        rebuild::enc_size(bs) == 0,
    decreases bs.len(),
{
    if bs.len() > 0 {
        assert(!rebuild::is_enc_type(bs[0].fourcc));
        assert forall|i: int| 0 <= i < bs.drop_first().len() implies !rebuild::is_enc_type(
            (#[trigger] bs.drop_first()[i]).fourcc,
        ) by {
            assert(bs.drop_first()[i] == bs[i + 1]);
        }
        nothing_encrypted(bs.drop_first());
    }
}

proof fn clear_moof_stays(p: Seq<u8>)
    requires
        moof_is_clear(p),
    ensures
        rebuild::clear_moof(p) == p,
{
    let bs = boxes::box_list(p);
    let f = rebuild::clear_trafs(p);
    if bs.len() > 0 {
        assert forall|i: int| 0 <= i < bs.len() implies f(#[trigger] bs[i]) == boxes::raw_box(
            p,
            bs[i],
        ) by {
            if bs[i].fourcc == TRAF@ {
                plain_box_is_written(p, i);
                clear_traf_stays(bs[i].payload);
            }
        }
        laws::copied_boxes(p, 0, f);
        assert(p.subrange(0, p.len() as int) =~= p);
    }
}

/// The walk over the boxes ends where the last one ends.
proof fn walk_ends_behind_the_last(s: Seq<u8>, pos: int)
    requires
        0 <= pos,
    ensures
        laws::walk_end(s, pos) == if boxes::box_list_from(s, pos).len() == 0 {
            pos
        } else {
            boxes::box_list_from(s, pos).last().offset + boxes::box_list_from(
                s,
                pos,
            ).last().total_size
        },
    decreases s.len() - pos,
{
    if boxes::box_at(s, pos) is Some {
        let b = boxes::box_at(s, pos)->0;
        let rest = boxes::box_list_from(s, pos + b.total_size);
        walk_ends_behind_the_last(s, pos + b.total_size);
        if rest.len() > 0 {
            assert(boxes::box_list_from(s, pos).last() == rest.last());
        } else {
            assert(boxes::box_list_from(s, pos).last() == b);
        }
    }
}

proof fn clear_head_stays(s: Seq<u8>, m: int)
    requires
        0 <= m < boxes::box_list(s).len(),
        moofs_are_clear(s.take(boxes::box_list(s)[m].offset)),
    ensures
        rebuild::clear_head(s.take(boxes::box_list(s)[m].offset)) == s.take(
            boxes::box_list(s)[m].offset,
        ),
{
    let all = boxes::box_list(s);
    let head = s.take(all[m].offset);
    let bs = boxes::box_list(head);
    let f = rebuild::clear_moofs(head);
    boxes::boxes_in_bounds(s, 0, m);
    boxes_before(s, 0, m);
    if bs.len() > 0 {
        assert forall|i: int| 0 <= i < bs.len() implies f(#[trigger] bs[i]) == boxes::raw_box(
            head,
            bs[i],
        ) by {
            if bs[i].fourcc == MOOF@ {
                plain_box_is_written(head, i);
                clear_moof_stays(bs[i].payload);
            }
        }
        laws::copied_boxes(head, 0, f);
        walk_ends_behind_the_last(head, 0);
        laws::boxes_lie_end_to_end(s, m);
        assert(bs.last() == all[m - 1]);
        assert(head.subrange(0, head.len() as int) =~= head);
    }
}

proof fn sums_grow(sizes: Seq<u32>, i: int, j: int)
    requires
        0 <= i <= j <= sizes.len(),
    ensures
        0 <= media::sum_sizes(sizes.take(i)) <= media::sum_sizes(sizes.take(j)),
    decreases j,
{
    if j > 0 {
        assert(sizes.take(j).drop_last() =~= sizes.take(j - 1));
        if i < j {
            sums_grow(sizes, i, j - 1);
        } else {
            sums_grow(sizes, i - 1, j - 1);
        }
    }
}

proof fn joined_slices(
    samples: Seq<Vec<u8>>,
    sizes: Seq<u32>,
    infos: Seq<media::EncView>,
    base: int,
    data: Seq<u8>,
    n: int,
)
    requires
        samples_fill(samples, media::samples_of(sizes, infos, base), data),
        0 <= n <= samples.len(),
    ensures
        media::sum_sizes(sizes.take(n)) <= data.len(),
        rebuild::joined(samples.take(n)) == data.take(media::sum_sizes(sizes.take(n))),
        n == samples.len() ==> media::sum_sizes(sizes.take(n)) == data.len(),
    decreases n,
{
    let last = sizes.len() - 1;
    if sizes.len() > 0 {
        assert(sizes.take(last + 1).drop_last() =~= sizes.take(last as int));
        sums_grow(sizes, n, last + 1);
        assert(media::samples_of(sizes, infos, base).last().size == sizes[last as int]);
        assert(media::sum_sizes(sizes.take(last + 1)) == data.len());
    }
    sums_grow(sizes, 0, n);
    if n == 0 {
        assert(rebuild::joined(samples.take(n)) =~= data.take(0));
    } else {
        joined_slices(samples, sizes, infos, base, data, n - 1);
        assert(samples.take(n).drop_last() =~= samples.take(n - 1));
        assert(sizes.take(n).drop_last() =~= sizes.take(n - 1));
        let a = media::sum_sizes(sizes.take(n - 1));
        sums_grow(sizes, 0, n - 1);
        assert(media::sum_sizes(sizes.take(n)) == a + sizes[n - 1]);
        assert(samples[n - 1]@ == data.subrange(a, a + sizes[n - 1]));
        assert(data.take(a) + data.subrange(a, a + sizes[n - 1]) =~= data.take(a + sizes[n - 1]));
    }
}

/// A clear segment rebuilt from its own samples is the same segment.
#[verifier::rlimit(80)]
#[verifier::spinoff_prover]
pub proof fn clear_segment_comes_back(s: Seq<u8>, samples: Seq<Vec<u8>>, iv_size: int)
    requires
        media::media_samples(s, iv_size) is Ok,
        plain_header(s, boxes::child(s, MDAT@)->0),
        moofs_are_clear(s.take((boxes::child(s, MDAT@)->0).offset)),
        samples_fill(
            samples,
            media::media_samples(s, iv_size)->Ok_0,
            (boxes::child(s, MDAT@)->0).payload,
        ),
    ensures
        rebuild::rebuilt(
            s,
            rebuild::joined(samples),
            (boxes::child(s, MDAT@)->0).offset,
            (boxes::child(s, MDAT@)->0).total_size,
        ) == s,
{
    let mdat = boxes::child(s, MDAT@)->0;
    let m = boxes::first_of_is_member(boxes::box_list(s), MDAT@);
    boxes::boxes_in_bounds(s, 0, m);
    clear_head_stays(s, m);
    plain_box_is_written(s, m);
    let traf = (boxes::child((boxes::child(s, MOOF@)->0).payload, TRAF@)->0).payload;
    let sizes = media::trun_sizes((boxes::child(traf, TRUN@)->0).payload)->Ok_0;
    let infos = match boxes::child(traf, SENC@) {
        None => Seq::<media::EncView>::empty(),
        Some(senc) => media::senc_infos(senc.payload, iv_size, sizes.len() as int)->Ok_0,
    };
    joined_slices(
        samples,
        sizes,
        infos,
        media::base_time(traf),
        mdat.payload,
        samples.len() as int,
    );
    assert(samples.take(samples.len() as int) =~= samples);
    assert(rebuild::joined(samples) =~= mdat.payload);
    let end = mdat.offset + mdat.total_size;
    let tail = if end < s.len() {
        s.skip(end)
    } else {
        Seq::empty()
    };
    assert(s.take(mdat.offset) + boxes::raw_box(s, mdat) + tail =~= s);
}

} // verus!
