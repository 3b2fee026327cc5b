//! Rebuilding a media segment around decrypted samples.

use crate::bytes;
use crate::bytes::{copy_bytes, push_be32, push_bytes, read_be24, read_be32};
use crate::fmp4::boxes;
use crate::fmp4::boxes::{
    boxes, push_box, push_iso_box, same_type, BoxView, MDAT, MOOF, SAIO, SAIZ, SENC, TRAF, TRUN,
};
use crate::fmp4::media;
use crate::fmp4::media::ParsedSegment;
use vstd::prelude::*;

verus! {

/// Whether boxes of this type carry per-sample encryption metadata.
pub open spec fn is_enc_type(fourcc: Seq<u8>) -> bool {
    fourcc == SENC@ || fourcc == SAIZ@ || fourcc == SAIO@
}

/// Keeps every box but those with encryption metadata.
pub open spec fn drop_enc(s: Seq<u8>) -> spec_fn(BoxView) -> Seq<u8> {
    |b: BoxView|
        if is_enc_type(b.fourcc) {
            Seq::empty()
        } else {
            boxes::raw_box(s, b)
        }
}

/// The total size of the boxes with encryption metadata.
pub open spec fn enc_size(bs: Seq<BoxView>) -> int
    decreases bs.len(),
{
    if bs.len() == 0 {
        0
    } else {
        (if is_enc_type(bs[0].fourcc) {
            bs[0].total_size
        } else {
            0
        }) + enc_size(bs.drop_first())
    }
}

/// A `traf` payload without encryption metadata.
pub open spec fn kept_in_traf(payload: Seq<u8>) -> Seq<u8> {
    boxes::concat_boxes(boxes::box_list(payload), drop_enc(payload))
}

/// A `trun` payload whose data offset, where there is one, is smaller by `removed`
/// modulo 2^32.
pub open spec fn shifted_trun(p: Seq<u8>, removed: int) -> Seq<u8> {
    if p.len() < 12 || !media::has_flag(bytes::be24(p, 1), 0x1) {
        p
    } else {
        p.take(8) + bytes::be32_bytes((bytes::be32(p, 8) - removed) % 0x1_0000_0000) + p.skip(12)
    }
}

/// Shifts the data offset of each `trun` box.
pub open spec fn shift_truns(s: Seq<u8>, removed: int) -> spec_fn(BoxView) -> Seq<u8> {
    |b: BoxView|
        if b.fourcc == TRUN@ {
            boxes::iso_box(b.fourcc, shifted_trun(b.payload, removed))
        } else {
            boxes::raw_box(s, b)
        }
}

/// A `traf` payload with the data offsets shifted by `removed`.
pub open spec fn shifted_traf(payload: Seq<u8>, removed: int) -> Seq<u8> {
    if removed % 0x1_0000_0000 == 0 {
        payload
    } else {
        boxes::concat_boxes(boxes::box_list(payload), shift_truns(payload, removed))
    }
}

/// A `traf` payload without encryption metadata, its data offsets shifted by what
/// was taken out. A payload that nothing would be left of stays as it is.
pub open spec fn clear_traf(payload: Seq<u8>) -> Seq<u8> {
    if kept_in_traf(payload).len() == 0 {
        payload
    } else {
        shifted_traf(kept_in_traf(payload), enc_size(boxes::box_list(payload)))
    }
}

/// Clears each `traf` box.
pub open spec fn clear_trafs(s: Seq<u8>) -> spec_fn(BoxView) -> Seq<u8> {
    |b: BoxView|
        if b.fourcc == TRAF@ {
            boxes::iso_box(b.fourcc, clear_traf(b.payload))
        } else {
            boxes::raw_box(s, b)
        }
}

/// A `moof` payload with its `traf` boxes cleared; one without boxes stays.
pub open spec fn clear_moof(payload: Seq<u8>) -> Seq<u8> {
    if boxes::box_list(payload).len() == 0 {
        payload
    } else {
        boxes::concat_boxes(boxes::box_list(payload), clear_trafs(payload))
    }
}

/// Clears each `moof` box.
pub open spec fn clear_moofs(s: Seq<u8>) -> spec_fn(BoxView) -> Seq<u8> {
    |b: BoxView|
        if b.fourcc == MOOF@ {
            boxes::iso_box(b.fourcc, clear_moof(b.payload))
        } else {
            boxes::raw_box(s, b)
        }
}

/// What stands before the data box, with its `moof` boxes cleared; bytes that hold
/// no box stay.
pub open spec fn clear_head(s: Seq<u8>) -> Seq<u8> {
    if boxes::box_list(s).len() == 0 {
        s
    } else {
        boxes::concat_boxes(boxes::box_list(s), clear_moofs(s))
    }
}

/// The samples, one after the other.
pub open spec fn joined(samples: Seq<Vec<u8>>) -> Seq<u8>
    decreases samples.len(),
{
    if samples.len() == 0 {
        Seq::empty()
    } else {
        joined(samples.drop_last()) + samples.last()@
    }
}

/// A media segment rebuilt around new sample data.
pub open spec fn rebuilt(s: Seq<u8>, data: Seq<u8>, mdat_offset: int, mdat_size: int) -> Seq<u8> {
    clear_head(s.take(mdat_offset)) + boxes::iso_box(MDAT@, data) + (if mdat_offset + mdat_size
        < s.len() {
        s.skip(mdat_offset + mdat_size)
    } else {
        Seq::empty()
    })
}

fn is_enc_box(t: &[u8; 4]) -> (r: bool)
    ensures
        r == is_enc_type(t@),
{
    same_type(t, &SENC) || same_type(t, &SAIZ) || same_type(t, &SAIO)
}

/// Subtracts `removed` from the data offset of a `trun` payload, if it has one.
fn adjust_trun_data_offset(payload: &[u8], removed: usize) -> (r: Vec<u8>)
    ensures
        r@ == shifted_trun(payload@, removed as int),
{
    if payload.len() < 12 {
        return copy_bytes(payload);
    }
    let flags: u32 = read_be24(payload, 1);
    if flags % 2 == 0 {
        return copy_bytes(payload);
    }
    let old_offset: u32 = read_be32(payload, 8);
    let less: u64 = removed as u64 % 0x1_0000_0000;
    let new_offset: u64 = (old_offset as u64 + 0x1_0000_0000 - less) % 0x1_0000_0000;
    let mut out = copy_bytes(vstd::slice::slice_subrange(payload, 0, 8));
    push_be32(&mut out, new_offset as u32);
    push_bytes(&mut out, vstd::slice::slice_subrange(payload, 12, payload.len()));
    proof {
        assert(new_offset == (old_offset - removed) % 0x1_0000_0000);
        assert(out@ =~= shifted_trun(payload@, removed as int));
    }
    out
}

/// Subtracts `removed` from the data offset of each `trun` box of a `traf` payload.
///
/// The data offset is relative to the start of the enclosing `moof` box, so it
/// shrinks by as much as that box does.
fn fix_traf_trun_offset(traf_payload: &[u8], removed: usize) -> (r: Vec<u8>)
    ensures
        r@ == shifted_traf(traf_payload@, removed as int),
{
    if removed as u64 % 0x1_0000_0000 == 0 {
        return copy_bytes(traf_payload);
    }
    let mut out: Vec<u8> = Vec::new();
    let ghost f = shift_truns(traf_payload@, removed as int);
    let ghost all = boxes::concat_boxes(boxes::box_list(traf_payload@), f);
    let mut it = boxes(traf_payload);
    assert(out@ + all =~= all);
    loop
        invariant
            it.data() == traf_payload@,
            f == shift_truns(traf_payload@, removed as int),
            out@ + boxes::concat_boxes(it.remaining(), f) == all,
            all == shifted_traf(traf_payload@, removed as int),
        decreases it.remaining().len(),
    {
        let ghost before = it.remaining();
        match it.next() {
            None => {
                assert(out@ + Seq::<u8>::empty() =~= out@);
                return out;
            },
            Some(b) => {
                proof {
                    boxes::concat_step(out@, before, it.remaining(), f);
                }
                if same_type(&b.fourcc, &TRUN) {
                    let fixed = adjust_trun_data_offset(b.payload, removed);
                    push_iso_box(&mut out, &b.fourcc, fixed.as_slice());
                } else {
                    push_box(&mut out, traf_payload, &b);
                }
            },
        }
    }
}

/// Removes the boxes with encryption metadata from a `traf` payload. Returns what
/// is left and how many bytes went.
fn remove_enc_boxes_from_traf(traf_payload: &[u8]) -> (r: (Vec<u8>, usize))
    ensures
        kept_in_traf(traf_payload@).len() == 0 ==> r.0@ == traf_payload@ && r.1 == 0,
        kept_in_traf(traf_payload@).len() > 0 ==> r.0@ == kept_in_traf(traf_payload@) && r.1
            == enc_size(boxes::box_list(traf_payload@)),
{
    let mut out: Vec<u8> = Vec::new();
    let mut removed: usize = 0;
    let ghost f = drop_enc(traf_payload@);
    let ghost all = boxes::concat_boxes(boxes::box_list(traf_payload@), f);
    let mut it = boxes(traf_payload);
    assert(out@ + all =~= all);
    loop
        invariant
            it.data() == traf_payload@,
            f == drop_enc(traf_payload@),
            all == kept_in_traf(traf_payload@),
            out@ + boxes::concat_boxes(it.remaining(), f) == all,
            removed + enc_size(it.remaining()) == enc_size(boxes::box_list(traf_payload@)),
            removed <= it.position() <= traf_payload@.len(),
        decreases it.remaining().len(),
    {
        let ghost before = it.remaining();
        match it.next() {
            None => {
                assert(out@ + Seq::<u8>::empty() =~= out@);
                if out.len() == 0 {
                    return (copy_bytes(traf_payload), 0);
                }
                return (out, removed);
            },
            Some(b) => {
                proof {
                    boxes::concat_step(out@, before, it.remaining(), f);
                    assert(before.drop_first() =~= it.remaining());
                    assert(traf_payload.len() == traf_payload@.len());
                }
                if is_enc_box(&b.fourcc) {
                    removed += b.total_size;
                    assert(out@ + Seq::<u8>::empty() =~= out@);
                } else {
                    push_box(&mut out, traf_payload, &b);
                }
            },
        }
    }
}

/// Clears the `traf` boxes of a `moof` payload.
fn remove_senc_from_traf(moof_payload: &[u8]) -> (r: Vec<u8>)
    ensures
        r@ == clear_moof(moof_payload@),
{
    let mut out: Vec<u8> = Vec::new();
    let ghost f = clear_trafs(moof_payload@);
    let ghost all = boxes::concat_boxes(boxes::box_list(moof_payload@), f);
    let mut it = boxes(moof_payload);
    assert(out@ + all =~= all);
    loop
        invariant
            it.data() == moof_payload@,
            f == clear_trafs(moof_payload@),
            all == boxes::concat_boxes(boxes::box_list(moof_payload@), f),
            out@ + boxes::concat_boxes(it.remaining(), f) == all,
            out@.len() == 0 ==> it.position() == 0,
            out@.len() > 0 ==> boxes::box_list(moof_payload@).len() > 0,
        decreases it.remaining().len(),
    {
        let ghost before = it.remaining();
        match it.next() {
            None => {
                assert(out@ + Seq::<u8>::empty() =~= out@);
                if out.len() == 0 {
                    return copy_bytes(moof_payload);
                }
                return out;
            },
            Some(b) => {
                proof {
                    boxes::concat_step(out@, before, it.remaining(), f);
                }
                if same_type(&b.fourcc, &TRAF) {
                    let kept = remove_enc_boxes_from_traf(b.payload);
                    let inner = fix_traf_trun_offset(kept.0.as_slice(), kept.1);
                    push_iso_box(&mut out, &b.fourcc, inner.as_slice());
                } else {
                    push_box(&mut out, moof_payload, &b);
                }
            },
        }
    }
}

/// Clears the `moof` boxes of what stands before the data box.
fn remove_senc_from_moof(moof_region: &[u8]) -> (r: Vec<u8>)
    ensures
        r@ == clear_head(moof_region@),
{
    let mut out: Vec<u8> = Vec::new();
    let ghost f = clear_moofs(moof_region@);
    let ghost all = boxes::concat_boxes(boxes::box_list(moof_region@), f);
    let mut it = boxes(moof_region);
    assert(out@ + all =~= all);
    loop
        invariant
            it.data() == moof_region@,
            f == clear_moofs(moof_region@),
            all == boxes::concat_boxes(boxes::box_list(moof_region@), f),
            out@ + boxes::concat_boxes(it.remaining(), f) == all,
            out@.len() == 0 ==> it.position() == 0,
            out@.len() > 0 ==> boxes::box_list(moof_region@).len() > 0,
        decreases it.remaining().len(),
    {
        let ghost before = it.remaining();
        match it.next() {
            None => {
                assert(out@ + Seq::<u8>::empty() =~= out@);
                if out.len() == 0 {
                    return copy_bytes(moof_region);
                }
                return out;
            },
            Some(b) => {
                proof {
                    boxes::concat_step(out@, before, it.remaining(), f);
                }
                if same_type(&b.fourcc, &MOOF) {
                    let inner = remove_senc_from_traf(b.payload);
                    push_iso_box(&mut out, &b.fourcc, inner.as_slice());
                } else {
                    push_box(&mut out, moof_region, &b);
                }
            },
        }
    }
}

/// Rebuilds a media segment around decrypted sample data: the data box holds the
/// samples one after the other, and the `senc`, `saiz` and `saio` boxes are gone.
/// All other boxes are preserved.
pub fn rebuild_segment(
    original: &[u8],
    decrypted_samples: &[Vec<u8>],
    parsed: &ParsedSegment,
) -> (r: Vec<u8>)
    requires
        parsed.mdat_box_offset <= original@.len(),
        parsed.mdat_box_offset + parsed.mdat_box_size <= usize::MAX,
    ensures
        r@ == rebuilt(
            original@,
            joined(decrypted_samples@),
            parsed.mdat_box_offset as int,
            parsed.mdat_box_size as int,
        ),
{
    let mut data: Vec<u8> = Vec::new();
    let mut i: usize = 0;
    assert(decrypted_samples@.take(0) =~= Seq::empty());
    while i < decrypted_samples.len()
        invariant
            i <= decrypted_samples@.len(),
            data@ == joined(decrypted_samples@.take(i as int)),
        decreases decrypted_samples@.len() - i,
    {
        assert(decrypted_samples@.take(i + 1).drop_last() =~= decrypted_samples@.take(i as int));
        push_bytes(&mut data, decrypted_samples[i].as_slice());
        i += 1;
    }
    assert(decrypted_samples@.take(i as int) =~= decrypted_samples@);
    let head = vstd::slice::slice_subrange(original, 0, parsed.mdat_box_offset);
    assert(head@ =~= original@.take(parsed.mdat_box_offset as int));
    let mut out = remove_senc_from_moof(head);
    push_iso_box(&mut out, &MDAT, data.as_slice());
    let after: usize = parsed.mdat_box_offset + parsed.mdat_box_size;
    if after < original.len() {
        let tail = vstd::slice::slice_subrange(original, after, original.len());
        assert(tail@ =~= original@.skip(after as int));
        push_bytes(&mut out, tail);
    } else {
        assert(out@ + Seq::<u8>::empty() =~= out@);
    }
    out
}

} // verus!
