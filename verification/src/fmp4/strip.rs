//! Rewriting an init segment to its unprotected form.

use crate::bytes::{copy_bytes, push_bytes};
use crate::fmp4::boxes;
use crate::fmp4::boxes::{
    boxes, find_box, push_box, push_iso_box, same_type, BoxView, ENCA, ENCV, FRMA, MDIA,
    MINF, MOOV, PSSH, SINF, STBL, STSD, TRAK,
};
use crate::fmp4::init;
use crate::fmp4::init::{find_protection, AUDIO_FIXED, VISUAL_FIXED};
use vstd::prelude::*;

verus! {

/// Keeps every box but `sinf`.
pub open spec fn drop_sinf(s: Seq<u8>) -> spec_fn(BoxView) -> Seq<u8> {
    |b: BoxView|
        if b.fourcc == SINF@ {
            Seq::empty()
        } else {
            boxes::raw_box(s, b)
        }
}

/// The plain-codec form of a protected sample entry: the type that `sinf/frma`
/// names, the same fixed fields, and the child boxes without `sinf`.
pub open spec fn plain_entry(payload: Seq<u8>, fixed: int) -> Option<Seq<u8>> {
    if payload.len() < fixed {
        None
    } else {
        match init::protection(payload, fixed) {
            None => None,
            Some(sinf) => match boxes::child(sinf.payload, FRMA@) {
                None => None,
                Some(frma) => if frma.payload.len() < 4 {
                    None
                } else {
                    let children = payload.skip(fixed);
                    Some(
                        boxes::iso_box(
                            frma.payload.take(4),
                            payload.take(fixed) + boxes::concat_boxes(
                                boxes::box_list(children),
                                drop_sinf(children),
                            ),
                        ),
                    )
                },
            },
        }
    }
}

/// Rewrites a sample entry: a protected one to its plain form where that can be
/// made; anything else stays.
pub open spec fn rewrite_entry(entries: Seq<u8>) -> spec_fn(BoxView) -> Seq<u8> {
    |b: BoxView|
        if b.fourcc == ENCV@ && plain_entry(b.payload, VISUAL_FIXED as int) is Some {
            plain_entry(b.payload, VISUAL_FIXED as int)->0
        } else if b.fourcc == ENCA@ && plain_entry(b.payload, AUDIO_FIXED as int) is Some {
            plain_entry(b.payload, AUDIO_FIXED as int)->0
        } else {
            boxes::raw_box(entries, b)
        }
}

/// A rewritten `stsd` payload: version, flags and entry count, then the entries.
pub open spec fn plain_stsd(payload: Seq<u8>) -> Seq<u8> {
    if payload.len() < 8 {
        payload
    } else {
        let entries = payload.skip(8);
        payload.take(8) + boxes::concat_boxes(boxes::box_list(entries), rewrite_entry(entries))
    }
}

/// Rewrites the boxes of type `chain[0]`, and under them those of the rest of the
/// chain, down to the `stsd` box that ends it.
pub open spec fn rewrite_on_path(s: Seq<u8>, chain: Seq<[u8; 4]>) -> spec_fn(BoxView) -> Seq<u8>
    decreases chain.len(),
{
    |b: BoxView|
        if chain.len() > 0 && b.fourcc == chain[0]@ {
            boxes::iso_box(
                b.fourcc,
                if chain.len() == 1 {
                    plain_stsd(b.payload)
                } else {
                    boxes::concat_boxes(
                        boxes::box_list(b.payload),
                        rewrite_on_path(b.payload, chain.drop_first()),
                    )
                },
            )
        } else {
            boxes::raw_box(s, b)
        }
}

/// The way from a track to its sample descriptions.
pub open spec fn stsd_path() -> Seq<[u8; 4]> {
    seq![MDIA, MINF, STBL, STSD]
}

/// A rewritten `trak` payload.
pub open spec fn plain_trak(payload: Seq<u8>) -> Seq<u8> {
    boxes::concat_boxes(boxes::box_list(payload), rewrite_on_path(payload, stsd_path()))
}

/// Drops `pssh` boxes and rewrites tracks.
pub open spec fn rewrite_in_moov(s: Seq<u8>) -> spec_fn(BoxView) -> Seq<u8> {
    |b: BoxView|
        if b.fourcc == PSSH@ {
            Seq::empty()
        } else if b.fourcc == TRAK@ {
            boxes::iso_box(b.fourcc, plain_trak(b.payload))
        } else {
            boxes::raw_box(s, b)
        }
}

/// A rewritten `moov` payload.
pub open spec fn plain_moov(payload: Seq<u8>) -> Seq<u8> {
    boxes::concat_boxes(boxes::box_list(payload), rewrite_in_moov(payload))
}

/// Rewrites `moov` boxes.
pub open spec fn rewrite_in_init(s: Seq<u8>) -> spec_fn(BoxView) -> Seq<u8> {
    |b: BoxView|
        if b.fourcc == MOOV@ {
            boxes::iso_box(b.fourcc, plain_moov(b.payload))
        } else {
            boxes::raw_box(s, b)
        }
}

/// A rewritten init segment; one without `moov` stays as it is.
pub open spec fn plain_init(s: Seq<u8>) -> Seq<u8> {
    if boxes::child(s, MOOV@) is None {
        s
    } else {
        boxes::concat_boxes(boxes::box_list(s), rewrite_in_init(s))
    }
}

/// Converts an `encv` or `enca` payload to its plain-codec form, a whole box.
fn unprotect_sample_entry(payload: &[u8], is_visual: bool) -> (r: Option<Vec<u8>>)
    ensures
        match r {
            Some(v) => plain_entry(
                payload@,
                if is_visual {
                    VISUAL_FIXED as int
                } else {
                    AUDIO_FIXED as int
                },
            ) == Some(v@),
            None => plain_entry(
                payload@,
                if is_visual {
                    VISUAL_FIXED as int
                } else {
                    AUDIO_FIXED as int
                },
            ) is None,
        },
{
    let fixed: usize = if is_visual {
        VISUAL_FIXED
    } else {
        AUDIO_FIXED
    };
    if payload.len() < fixed {
        return None;
    }
    let sinf = match find_protection(payload, fixed) {
        Some(b) => b,
        None => return None,
    };
    let frma = match find_box(sinf.payload, &FRMA) {
        Some(b) => b,
        None => return None,
    };
    if frma.payload.len() < 4 {
        return None;
    }
    let plain_type: [u8; 4] = [
        frma.payload[0],
        frma.payload[1],
        frma.payload[2],
        frma.payload[3],
    ];
    assert(plain_type@ =~= frma.payload@.take(4));
    let children = vstd::slice::slice_subrange(payload, fixed, payload.len());
    assert(children@ =~= payload@.skip(fixed as int));
    let mut body = copy_bytes(vstd::slice::slice_subrange(payload, 0, fixed));
    assert(body@ =~= payload@.take(fixed as int));
    let mut it = boxes(children);
    loop
        invariant
            it.data() == children@,
            body@ + boxes::concat_boxes(it.remaining(), drop_sinf(children@)) == payload@.take(
                fixed as int,
            ) + boxes::concat_boxes(boxes::box_list(children@), drop_sinf(children@)),
            children@ == payload@.skip(fixed as int),
            payload@.len() >= fixed,
            fixed == if is_visual { VISUAL_FIXED } else { AUDIO_FIXED },
            init::protection(payload@, fixed as int) is Some,
            (init::protection(payload@, fixed as int)->0).payload == sinf.payload@,
            boxes::child(sinf.payload@, FRMA@) == Some(frma@),
            frma.payload@.len() >= 4,
            plain_type@ == frma.payload@.take(4),
        decreases it.remaining().len(),
    {
        let ghost before = it.remaining();
        let ghost written = body@;
        match it.next() {
            None => {
                assert(body@ + Seq::<u8>::empty() =~= body@);
                let mut out: Vec<u8> = Vec::new();
                push_iso_box(&mut out, &plain_type, body.as_slice());
                assert(out@ =~= boxes::iso_box(plain_type@, body@));
                return Some(out);
            },
            Some(b) => {
                proof {
                    boxes::concat_step(written, before, it.remaining(), drop_sinf(children@));
                }
                if !same_type(&b.fourcc, &SINF) {
                    push_box(&mut body, children, &b);
                } else {
                    assert(body@ + Seq::<u8>::empty() =~= body@);
                }
            },
        }
    }
}

/// Rewrites a `stsd` payload: protected entries to plain codec form.
fn strip_enc_stsd(payload: &[u8]) -> (r: Vec<u8>)
    ensures
        r@ == plain_stsd(payload@),
{
    if payload.len() < 8 {
        return copy_bytes(payload);
    }
    let mut out = copy_bytes(vstd::slice::slice_subrange(payload, 0, 8));
    assert(out@ =~= payload@.take(8));
    let entries = vstd::slice::slice_subrange(payload, 8, payload.len());
    assert(entries@ =~= payload@.skip(8));
    let mut it = boxes(entries);
    loop
        invariant
            it.data() == entries@,
            payload@.len() >= 8,
            out@ + boxes::concat_boxes(it.remaining(), rewrite_entry(entries@)) == plain_stsd(
                payload@,
            ),
        decreases it.remaining().len(),
    {
        let ghost before = it.remaining();
        match it.next() {
            None => {
                assert(out@ + Seq::<u8>::empty() =~= out@);
                return out;
            },
            Some(b) => {
                proof {
                    boxes::concat_step(out@, before, it.remaining(), rewrite_entry(entries@));
                }
                let mut plain: Option<Vec<u8>> = None;
                if same_type(&b.fourcc, &ENCV) {
                    plain = unprotect_sample_entry(b.payload, true);
                } else if same_type(&b.fourcc, &ENCA) {
                    plain = unprotect_sample_entry(b.payload, false);
                }
                match plain {
                    Some(v) => push_bytes(&mut out, v.as_slice()),
                    None => push_box(&mut out, entries, &b),
                }
            },
        }
    }
}

/// Walks a chain of container boxes from `chain[i]` on and passes unrelated boxes
/// through verbatim. The last type of the chain is `stsd`.
fn strip_enc_path(payload: &[u8], chain: &[[u8; 4]], i: usize) -> (r: Vec<u8>)
    requires
        i < chain@.len(),
    ensures
        r@ == boxes::concat_boxes(
            boxes::box_list(payload@),
            rewrite_on_path(payload@, chain@.skip(i as int)),
        ),
    decreases chain@.len() - i,
{
    let mut out: Vec<u8> = Vec::new();
    let ghost f = rewrite_on_path(payload@, chain@.skip(i as int));
    let mut it = boxes(payload);
    assert(out@ + boxes::concat_boxes(it.remaining(), f) =~= boxes::concat_boxes(
        it.remaining(),
        f,
    ));
    loop
        invariant
            it.data() == payload@,
            i < chain@.len(),
            f == rewrite_on_path(payload@, chain@.skip(i as int)),
            out@ + boxes::concat_boxes(it.remaining(), f) == boxes::concat_boxes(
                boxes::box_list(payload@),
                f,
            ),
        decreases it.remaining().len(),
    {
        let ghost before = it.remaining();
        match it.next() {
            None => {
                assert(out@ + Seq::<u8>::empty() =~= out@);
                return out;
            },
            Some(b) => {
                proof {
                    boxes::concat_step(out@, before, it.remaining(), f);
                    assert(chain@.skip(i as int).drop_first() =~= chain@.skip(i + 1));
                }
                if same_type(&b.fourcc, &chain[i]) {
                    let inner = if i + 1 == chain.len() {
                        strip_enc_stsd(b.payload)
                    } else {
                        strip_enc_path(b.payload, chain, i + 1)
                    };
                    push_iso_box(&mut out, &b.fourcc, inner.as_slice());
                } else {
                    push_box(&mut out, payload, &b);
                }
            },
        }
    }
}

/// Rewrites a `moov` payload: no `pssh`, and each track rewritten.
fn strip_enc_moov(payload: &[u8]) -> (r: Vec<u8>)
    ensures
        r@ == plain_moov(payload@),
{
    let mut out: Vec<u8> = Vec::new();
    let mut it = boxes(payload);
    assert(out@ + plain_moov(payload@) =~= plain_moov(payload@));
    loop
        invariant
            it.data() == payload@,
            out@ + boxes::concat_boxes(it.remaining(), rewrite_in_moov(payload@)) == plain_moov(
                payload@,
            ),
        decreases it.remaining().len(),
    {
        let ghost before = it.remaining();
        match it.next() {
            None => {
                assert(out@ + Seq::<u8>::empty() =~= out@);
                return out;
            },
            Some(b) => {
                proof {
                    boxes::concat_step(out@, before, it.remaining(), rewrite_in_moov(payload@));
                }
                if same_type(&b.fourcc, &PSSH) {
                    assert(out@ + Seq::<u8>::empty() =~= out@);
                } else if same_type(&b.fourcc, &TRAK) {
                    let chain: [[u8; 4]; 4] = [MDIA, MINF, STBL, STSD];
                    assert(chain@.skip(0) =~= stsd_path());
                    let inner = strip_enc_path(b.payload, chain.as_slice(), 0);
                    push_iso_box(&mut out, &b.fourcc, inner.as_slice());
                } else {
                    push_box(&mut out, payload, &b);
                }
            },
        }
    }
}

/// Rewrites an init segment: replaces `encv` / `enca` sample entries with their
/// plain codec equivalents, without `sinf`, and removes `pssh` boxes from `moov`,
/// so that a player reads codec parameters as if the stream had never been
/// encrypted. A segment without `moov` comes back unchanged.
pub fn strip_encryption_from_init(data: &[u8]) -> (r: Vec<u8>)
    ensures
        r@ == plain_init(data@),
{
    if find_box(data, &MOOV).is_none() {
        return copy_bytes(data);
    }
    let mut out: Vec<u8> = Vec::new();
    let mut it = boxes(data);
    assert(out@ + plain_init(data@) =~= plain_init(data@));
    loop
        invariant
            it.data() == data@,
            out@ + boxes::concat_boxes(it.remaining(), rewrite_in_init(data@)) == plain_init(
                data@,
            ),
        decreases it.remaining().len(),
    {
        let ghost before = it.remaining();
        match it.next() {
            None => {
                assert(out@ + Seq::<u8>::empty() =~= out@);
                return out;
            },
            Some(b) => {
                proof {
                    boxes::concat_step(out@, before, it.remaining(), rewrite_in_init(data@));
                }
                if same_type(&b.fourcc, &MOOV) {
                    let inner = strip_enc_moov(b.payload);
                    push_iso_box(&mut out, &b.fourcc, inner.as_slice());
                } else {
                    push_box(&mut out, data, &b);
                }
            },
        }
    }
}

} // verus!
