//! What is read from, and what becomes of, an init segment whose boxes are known.

use crate::fmp4::box_laws;
use crate::fmp4::box_laws::{around, others, stands_alone, written, Around};
use crate::fmp4::boxes;
use crate::fmp4::boxes::{
    CBCS, ENCA, ENCV, FRMA, MDIA, MINF, MOOV, PSSH, SCHI, SCHM, SINF, STBL, STSD, TENC, TRAK,
    WV_SYSTEM_ID,
};
use crate::fmp4::init;
use crate::fmp4::init::InitView;
use crate::fmp4::strip;
use crate::fmp4::Fmp4Error;
use vstd::prelude::*;

verus! {

// ---------------------------------------------------------------------------
// Tracks
// ---------------------------------------------------------------------------

/// The parts of a track with a sample entry: what stands around each box on the way to it,
/// the fields before its child boxes, and what stands around its `sinf` box.
pub struct TrackParts {
    pub trak: Around,
    pub mdia: Around,
    pub minf: Around,
    pub stbl: Around,
    pub head: Seq<u8>,
    pub stsd: Around,
    pub fixed: Seq<u8>,
    pub entry: Around,
}

/// The payload of a sample entry with a `sinf` box.
pub open spec fn protected_entry(t: TrackParts, sinf: Seq<u8>) -> Seq<u8> {
    t.fixed + written(around(t.entry, SINF@, sinf))
}

/// The payload of the same sample entry without one.
pub open spec fn clear_entry(t: TrackParts) -> Seq<u8> {
    t.fixed + written(others(t.entry))
}

/// The payload of a track whose sample description holds an entry.
pub open spec fn track(t: TrackParts, fourcc: Seq<u8>, entry: Seq<u8>) -> Seq<u8> {
    let stsd = t.head + written(around(t.stsd, fourcc, entry));
    let stbl = written(around(t.stbl, STSD@, stsd));
    let minf = written(around(t.minf, STBL@, stbl));
    let mdia = written(around(t.mdia, MINF@, minf));
    written(around(t.trak, MDIA@, mdia))
}

/// Whether the parts make a track: each box on the way is the only one of its type, the
/// description has eight bytes before its entries, and the fields of an entry start with six
/// zero bytes.
pub open spec fn is_track(t: TrackParts, audio: bool) -> bool {
    &&& stands_alone(t.trak, MDIA@)
    &&& stands_alone(t.mdia, MINF@)
    &&& stands_alone(t.minf, STBL@)
    &&& stands_alone(t.stbl, STSD@)
    &&& t.head.len() == 8
    &&& stands_alone(t.stsd, ENCV@)
    &&& stands_alone(t.stsd, ENCA@)
    &&& t.fixed.len() == fixed_len(audio)
    &&& forall|i: int| 0 <= i < 6 ==> #[trigger] t.fixed[i] == 0
    &&& stands_alone(t.entry, SINF@)
}

/// The type of a protected sample entry.
pub open spec fn entry_type(audio: bool) -> Seq<u8> {
    if audio {
        ENCA@
    } else {
        ENCV@
    }
}

/// How many bytes the fields before the child boxes of an entry take.
pub open spec fn fixed_len(audio: bool) -> int {
    if audio {
        28
    } else {
        78
    }
}

/// Every box of a track is shorter than the track.
proof fn inner_lengths(t: TrackParts, fourcc: Seq<u8>, entry: Seq<u8>)
    requires
        fourcc.len() == 4,
    ensures
        ({
            let entries = written(around(t.stsd, fourcc, entry));
            let stsd = t.head + entries;
            let stbl = written(around(t.stbl, STSD@, stsd));
            let minf = written(around(t.minf, STBL@, stbl));
            let mdia = written(around(t.mdia, MINF@, minf));
            let n = track(t, fourcc, entry).len();
            &&& mdia.len() < n
            &&& minf.len() < n
            &&& stbl.len() < n
            &&& stsd.len() < n
            &&& entries.len() < n
            &&& entry.len() < n
        }),
{
    let entries = written(around(t.stsd, fourcc, entry));
    let stsd = t.head + entries;
    let stbl = written(around(t.stbl, STSD@, stsd));
    let minf = written(around(t.minf, STBL@, stbl));
    let mdia = written(around(t.mdia, MINF@, minf));
    box_laws::around_parts(t.stsd, fourcc, entry);
    box_laws::around_parts(t.stbl, STSD@, stsd);
    box_laws::around_parts(t.minf, STBL@, stbl);
    box_laws::around_parts(t.mdia, MINF@, minf);
    box_laws::around_parts(t.trak, MDIA@, mdia);
}

/// The sample description of a track is found.
proof fn description_is_found(t: TrackParts, fourcc: Seq<u8>, entry: Seq<u8>)
    requires
        fourcc.len() == 4,
        stands_alone(t.trak, MDIA@),
        stands_alone(t.mdia, MINF@),
        stands_alone(t.minf, STBL@),
        stands_alone(t.stbl, STSD@),
        track(t, fourcc, entry).len() < 0x1_0000_0000,
    ensures
        ({
            let found = boxes::box_on_path(
                track(t, fourcc, entry),
                seq![&MDIA, &MINF, &STBL, &STSD],
            );
            &&& found is Some
            &&& (found->0).payload == t.head + written(around(t.stsd, fourcc, entry))
        }),
{
    let entries = written(around(t.stsd, fourcc, entry));
    let stsd = t.head + entries;
    let stbl = written(around(t.stbl, STSD@, stsd));
    let minf = written(around(t.minf, STBL@, stbl));
    let mdia = written(around(t.mdia, MINF@, minf));
    let trak = written(around(t.trak, MDIA@, mdia));
    inner_lengths(t, fourcc, entry);
    box_laws::child_around(t.trak, MDIA@, mdia);
    box_laws::child_around(t.mdia, MINF@, minf);
    box_laws::child_around(t.minf, STBL@, stbl);
    box_laws::child_around(t.stbl, STSD@, stsd);
    let p1: Seq<&[u8; 4]> = seq![&MDIA, &MINF, &STBL, &STSD];
    let p2: Seq<&[u8; 4]> = seq![&MINF, &STBL, &STSD];
    let p3: Seq<&[u8; 4]> = seq![&STBL, &STSD];
    let p4: Seq<&[u8; 4]> = seq![&STSD];
    assert(p1.drop_first() =~= p2);
    assert(p2.drop_first() =~= p3);
    assert(p3.drop_first() =~= p4);
    assert(boxes::box_on_path(stbl, p4) == boxes::child(stbl, STSD@));
    assert(boxes::box_on_path(minf, p3) == boxes::box_on_path(stbl, p4));
    assert(boxes::box_on_path(mdia, p2) == boxes::box_on_path(minf, p3));
    assert(boxes::box_on_path(trak, p1) == boxes::box_on_path(mdia, p2));
}

/// Fields that start with zero bytes are no boxes of their own.
proof fn fields_hold_no_sinf(payload: Seq<u8>)
    requires
        payload.len() >= 8,
        forall|i: int| 0 <= i < 6 ==> #[trigger] payload[i] == 0,
    ensures
        boxes::child(payload, SINF@) is None,
{
    let rest = payload.skip(8);
    let fourcc = payload.subrange(4, 8);
    assert(payload =~= seq![0u8, 0, 0, 0] + fourcc + rest);
    box_laws::unsized_box_takes_the_rest(fourcc, rest);
    assert(fourcc[0] == payload[4]);
    assert(SINF@[0] == 0x73u8);
    let bs = boxes::box_list(payload);
    if boxes::first_of(bs, SINF@) is Some {
        let i = boxes::first_of_is_member(bs, SINF@);
        assert(i == 0);
    }
}

/// The protection of a sample entry is found behind its fields.
proof fn protection_is_found(t: TrackParts, sinf: Seq<u8>)
    requires
        t.fixed.len() >= 8,
        forall|i: int| 0 <= i < 6 ==> #[trigger] t.fixed[i] == 0,
        stands_alone(t.entry, SINF@),
        protected_entry(t, sinf).len() < 0x1_0000_0000,
    ensures
        ({
            let found = init::protection(protected_entry(t, sinf), t.fixed.len() as int);
            &&& found is Some
            &&& (found->0).payload == sinf
        }),
{
    let p = protected_entry(t, sinf);
    let children = written(around(t.entry, SINF@, sinf));
    assert forall|i: int| 0 <= i < 6 implies #[trigger] p[i] == 0 by {
        assert(p[i] == t.fixed[i]);
    }
    fields_hold_no_sinf(p);
    assert(p.skip(t.fixed.len() as int) =~= children);
    box_laws::child_around(t.entry, SINF@, sinf);
}

/// The payload of a `tenc` box: version, flags and the fields before the IV size, the IV size,
/// the key id, and what may follow.
pub open spec fn tenc_payload(lead: Seq<u8>, iv_size: u8, kid: Seq<u8>, more: Seq<u8>) -> Seq<u8> {
    lead + seq![iv_size] + kid + more
}

/// The parts of a `sinf` box.
pub struct ProtectionParts {
    pub sinf: Around,
    pub schi: Around,
    pub tenc: Seq<u8>,
}

/// The payload of a `sinf` box.
pub open spec fn sinf_payload(p: ProtectionParts) -> Seq<u8> {
    written(around(p.sinf, SCHI@, written(around(p.schi, TENC@, p.tenc))))
}

/// What `sinf` names as the scheme: a `schm` box holds four bytes of version and flags, then
/// the name.
pub open spec fn names_scheme(p: ProtectionParts, name: Seq<u8>) -> bool {
    exists|k: int, lead: Seq<u8>, rest: Seq<u8>|
        {
            &&& #[trigger] box_laws::is_first(
                around(p.sinf, SCHI@, written(around(p.schi, TENC@, p.tenc))),
                SCHM@,
                k,
            )
            &&& lead.len() == 4
            &&& name.len() == 4
            &&& around(p.sinf, SCHI@, written(around(p.schi, TENC@, p.tenc)))[k].1
                == #[trigger] (lead + name + rest)
        }
}

/// A protected sample entry gives what its `tenc` box says.
proof fn entry_is_read(t: TrackParts, audio: bool, p: ProtectionParts)
    requires
        is_track(t, audio),
        stands_alone(p.sinf, SCHI@),
        stands_alone(p.schi, TENC@),
        written(around(t.stsd, entry_type(audio), protected_entry(t, sinf_payload(p)))).len()
            < 0x1_0000_0000,
    ensures
        init::entry_tenc(
            written(around(t.stsd, entry_type(audio), protected_entry(t, sinf_payload(p)))),
            entry_type(audio),
            fixed_len(audio),
        ) == Some((p.tenc, init::scheme_of(sinf_payload(p)))),
{
    let sinf = sinf_payload(p);
    let schi = written(around(p.schi, TENC@, p.tenc));
    let entry = protected_entry(t, sinf);
    box_laws::around_parts(t.stsd, entry_type(audio), entry);
    box_laws::around_parts(t.entry, SINF@, sinf);
    box_laws::around_parts(p.sinf, SCHI@, schi);
    box_laws::around_parts(p.schi, TENC@, p.tenc);
    box_laws::child_around(t.stsd, entry_type(audio), entry);
    protection_is_found(t, sinf);
    box_laws::child_around(p.sinf, SCHI@, schi);
    box_laws::child_around(p.schi, TENC@, p.tenc);
}

/// No entry of another type is there.
proof fn no_entry(a: Around, fourcc: Seq<u8>, entry: Seq<u8>, other: Seq<u8>)
    requires
        fourcc.len() == 4,
        fourcc != other,
        stands_alone(a, fourcc),
        stands_alone(a, other),
        written(around(a, fourcc, entry)).len() < 0x1_0000_0000,
    ensures
        boxes::child(written(around(a, fourcc, entry)), other) is None,
{
    let items = around(a, fourcc, entry);
    box_laws::around_is_first(a, fourcc, entry);
    let n = a.before.len() as int;
    assert forall|j: int| 0 <= j < items.len() implies (#[trigger] items[j]).0 != other by {
        if j < n {
            assert(items[j] == others(a)[j]);
        } else if j > n {
            assert(items[j] == others(a)[j - 1]);
        }
    }
    box_laws::no_written_child(items, other);
}

/// A box of a type that is in a list is found.
proof fn is_among(bs: Seq<boxes::BoxView>, fourcc: Seq<u8>, j: int)
    requires
        0 <= j < bs.len(),
        bs[j].fourcc == fourcc,
    ensures
        boxes::first_of(bs, fourcc) is Some,
    decreases j,
{
    if j > 0 {
        is_among(bs.drop_first(), fourcc, j - 1);
    }
}

/// The scheme is `cbcs` exactly where `sinf` names it.
proof fn scheme_is_read(p: ProtectionParts)
    requires
        stands_alone(p.sinf, SCHI@),
        sinf_payload(p).len() < 0x1_0000_0000,
    ensures
        init::scheme_of(sinf_payload(p)) == if names_scheme(p, CBCS@) {
            2u32
        } else {
            1u32
        },
{
    let schi = written(around(p.schi, TENC@, p.tenc));
    let items = around(p.sinf, SCHI@, schi);
    box_laws::around_is_first(p.sinf, SCHI@, schi);
    if box_laws::has_none(items, SCHM@) {
        box_laws::no_written_child(items, SCHM@);
    } else {
        let bs = boxes::box_list(written(items));
        box_laws::written_boxes_are_listed(items);
        let j = choose|j: int| 0 <= j < items.len() && (#[trigger] items[j]).0 == SCHM@;
        assert(bs[j].fourcc == SCHM@);
        is_among(bs, SCHM@, j);
        let k = boxes::first_of_is_member(bs, SCHM@);
        assert forall|i: int| 0 <= i < k implies (#[trigger] items[i]).0 != SCHM@ by {
            assert(bs[i].fourcc == items[i].0);
        }
        assert(box_laws::is_first(items, SCHM@, k));
        let q = items[k].1;
        if q.len() >= 8 && q.subrange(4, 8) == CBCS@ {
            assert(q =~= q.subrange(0, 4) + CBCS@ + q.skip(8));
        }
        if names_scheme(p, CBCS@) {
            let (m, lead, rest) = choose|m: int, lead: Seq<u8>, rest: Seq<u8>|
                {
                    &&& #[trigger] box_laws::is_first(items, SCHM@, m)
                    &&& lead.len() == 4
                    &&& CBCS@.len() == 4
                    &&& items[m].1 == #[trigger] (lead + CBCS@ + rest)
                };
            assert(m == k);
            assert(q.subrange(4, 8) =~= CBCS@);
        }
    }
}

/// A protected track gives the IV size and the key id of its `tenc` box, and the scheme that
/// its `schm` box names.
#[verifier::rlimit(80)]
#[verifier::spinoff_prover]
pub proof fn protected_track_is_read(
    t: TrackParts,
    audio: bool,
    p: ProtectionParts,
    lead: Seq<u8>,
    iv_size: u8,
    kid: Seq<u8>,
    more: Seq<u8>,
)
    requires
        is_track(t, audio),
        stands_alone(p.sinf, SCHI@),
        stands_alone(p.schi, TENC@),
        lead.len() == 7,
        kid.len() == 16,
        p.tenc == tenc_payload(lead, iv_size, kid, more),
        track(t, entry_type(audio), protected_entry(t, sinf_payload(p))).len() < 0x1_0000_0000,
    ensures
        init::trak_info(track(t, entry_type(audio), protected_entry(t, sinf_payload(p)))) == Some(
            Ok::<InitView, Fmp4Error>(
                InitView {
                    default_kid: kid,
                    default_iv_size: iv_size,
                    encryption_scheme: if names_scheme(p, CBCS@) {
                        2
                    } else {
                        1
                    },
                },
            ),
        ),
{
    let sinf = sinf_payload(p);
    let entry = protected_entry(t, sinf);
    let fourcc = entry_type(audio);
    let entries = written(around(t.stsd, fourcc, entry));
    inner_lengths(t, fourcc, entry);
    description_is_found(t, fourcc, entry);
    assert((t.head + entries).skip(8) =~= entries);
    entry_is_read(t, audio, p);
    assert(ENCV@[3] == 0x76u8 && ENCA@[3] == 0x61u8);
    if audio {
        no_entry(t.stsd, ENCA@, entry, ENCV@);
    }
    box_laws::around_parts(t.entry, SINF@, sinf);
    scheme_is_read(p);
    assert(p.tenc.subrange(8, 24) =~= kid);
    assert(p.tenc[7] == iv_size);
}

/// A track without protected entries says nothing.
pub proof fn clear_track_says_nothing(t: TrackParts, fourcc: Seq<u8>, entry: Seq<u8>)
    requires
        is_track(t, true) || is_track(t, false),
        fourcc.len() == 4,
        fourcc != ENCV@,
        fourcc != ENCA@,
        stands_alone(t.stsd, fourcc),
        track(t, fourcc, entry).len() < 0x1_0000_0000,
    ensures
        init::trak_info(track(t, fourcc, entry)) is None,
{
    let entries = written(around(t.stsd, fourcc, entry));
    inner_lengths(t, fourcc, entry);
    description_is_found(t, fourcc, entry);
    assert((t.head + entries).skip(8) =~= entries);
    no_entry(t.stsd, fourcc, entry, ENCV@);
    no_entry(t.stsd, fourcc, entry, ENCA@);
}

// ---------------------------------------------------------------------------
// The init segment
// ---------------------------------------------------------------------------

/// What the first track that says something says is what the init segment says: tracks
/// before it that say nothing, and boxes of other types, do not matter.
pub proof fn first_protected_track_counts(
    top: Around,
    items: Seq<(Seq<u8>, Seq<u8>)>,
    k: int,
    info: InitView,
    hint: u32,
)
    requires
        stands_alone(top, MOOV@),
        box_laws::can_be_written(items),
        written(around(top, MOOV@, written(items))).len() < 0x1_0000_0000,
        0 <= k < items.len(),
        items[k].0 == TRAK@,
        init::trak_info(items[k].1) == Some(Ok::<InitView, Fmp4Error>(info)),
        forall|j: int|
            0 <= j < k && (#[trigger] items[j]).0 == TRAK@ ==> init::trak_info(items[j].1) is None,
    ensures
        init::init_info(written(around(top, MOOV@, written(items))), hint) == Ok::<
            Option<InitView>,
            Fmp4Error,
        >(Some(info)),
{
    box_laws::child_around(top, MOOV@, written(items));
    box_laws::written_boxes_are_listed(items);
    let bs = boxes::box_list(written(items));
    assert forall|j: int| 0 <= j < k && (#[trigger] bs[j]).fourcc == TRAK@ implies init::trak_info(
        bs[j].payload,
    ) is None by {
        assert(items[j].0 == TRAK@);
    }
    traks_up_to(bs, k);
}

proof fn traks_up_to(bs: Seq<boxes::BoxView>, k: int)
    requires
        0 <= k <= bs.len(),
        k < bs.len() ==> bs[k].fourcc == TRAK@ && init::trak_info(bs[k].payload) is Some,
        forall|j: int|
            0 <= j < k && (#[trigger] bs[j]).fourcc == TRAK@ ==> init::trak_info(bs[j].payload)
                is None,
    ensures
        init::traks_info(bs) == (if k == bs.len() {
            Ok(None)
        } else {
            match init::trak_info(bs[k].payload)->0 {
                Ok(v) => Ok(Some(v)),
                Err(e) => Err(e),
            }
        }),
    decreases k,
{
    if k > 0 {
        let t = bs.drop_first();
        assert forall|j: int| 0 <= j < k - 1 && (#[trigger] t[j]).fourcc == TRAK@ implies
            init::trak_info(t[j].payload) is None by {
            assert(t[j] == bs[j + 1]);
        }
        traks_up_to(t, k - 1);
        assert(bs[0].fourcc == TRAK@ ==> init::trak_info(bs[0].payload) is None);
    }
}

/// Where no track says anything, the first `pssh` box with a key id does: the IV size is
/// eight and the scheme is the one expected.
pub proof fn first_key_id_counts(
    top: Around,
    items: Seq<(Seq<u8>, Seq<u8>)>,
    k: int,
    kid: Seq<u8>,
    hint: u32,
)
    requires
        stands_alone(top, MOOV@),
        box_laws::can_be_written(items),
        written(around(top, MOOV@, written(items))).len() < 0x1_0000_0000,
        0 <= k < items.len(),
        items[k].0 == PSSH@,
        init::pssh_kid(items[k].1) == Some(kid),
        forall|j: int|
            0 <= j < k && (#[trigger] items[j]).0 == PSSH@ ==> init::pssh_kid(items[j].1) is None,
        forall|j: int|
            0 <= j < items.len() && (#[trigger] items[j]).0 == TRAK@ ==> init::trak_info(items[j].1)
                is None,
    ensures
        init::init_info(written(around(top, MOOV@, written(items))), hint) == Ok::<
            Option<InitView>,
            Fmp4Error,
        >(Some(InitView { default_kid: kid, default_iv_size: 8, encryption_scheme: hint })),
{
    box_laws::child_around(top, MOOV@, written(items));
    box_laws::written_boxes_are_listed(items);
    let bs = boxes::box_list(written(items));
    assert forall|j: int| 0 <= j < bs.len() && (#[trigger] bs[j]).fourcc == TRAK@ implies
        init::trak_info(bs[j].payload) is None by {
        assert(items[j].0 == TRAK@);
    }
    traks_up_to(bs, bs.len() as int);
    assert forall|j: int| 0 <= j < k && (#[trigger] bs[j]).fourcc == PSSH@ implies init::pssh_kid(
        bs[j].payload,
    ) is None by {
        assert(items[j].0 == PSSH@);
    }
    key_ids_up_to(bs, k);
}

proof fn key_ids_up_to(bs: Seq<boxes::BoxView>, k: int)
    requires
        0 <= k < bs.len(),
        bs[k].fourcc == PSSH@,
        init::pssh_kid(bs[k].payload) is Some,
        forall|j: int|
            0 <= j < k && (#[trigger] bs[j]).fourcc == PSSH@ ==> init::pssh_kid(bs[j].payload)
                is None,
    ensures
        init::first_pssh_kid(bs) == init::pssh_kid(bs[k].payload),
    decreases k,
{
    if k > 0 {
        let t = bs.drop_first();
        assert forall|j: int| 0 <= j < k - 1 && (#[trigger] t[j]).fourcc == PSSH@ implies
            init::pssh_kid(t[j].payload) is None by {
            assert(t[j] == bs[j + 1]);
        }
        key_ids_up_to(t, k - 1);
        assert(bs[0].fourcc == PSSH@ ==> init::pssh_kid(bs[0].payload) is None);
    }
}

/// The payload of a `pssh` box: version and flags, the system, and the rest.
pub open spec fn system_payload(lead: Seq<u8>, system: Seq<u8>, rest: Seq<u8>) -> Seq<u8> {
    lead + system + rest
}

/// Whether a payload is one of a system.
pub open spec fn is_of_system(payload: Seq<u8>, system: Seq<u8>) -> bool {
    exists|lead: Seq<u8>, rest: Seq<u8>|
        lead.len() == 4 && payload == #[trigger] system_payload(lead, system, rest)
}

/// The first box of the Widevine system is taken as it was written, wherever it stands and
/// whichever other systems are there.
pub proof fn widevine_box_is_taken_whole(
    top: Around,
    items: Seq<(Seq<u8>, Seq<u8>)>,
    k: int,
)
    requires
        stands_alone(top, MOOV@),
        box_laws::can_be_written(items),
        written(around(top, MOOV@, written(items))).len() < 0x1_0000_0000,
        0 <= k < items.len(),
        items[k].0 == PSSH@,
        is_of_system(items[k].1, WV_SYSTEM_ID@),
        forall|j: int|
            0 <= j < k && (#[trigger] items[j]).0 == PSSH@ ==> !is_of_system(
                items[j].1,
                WV_SYSTEM_ID@,
            ),
    ensures
        init::widevine_pssh(written(around(top, MOOV@, written(items)))) == Some(
            boxes::iso_box(PSSH@, items[k].1),
        ),
{
    box_laws::child_around(top, MOOV@, written(items));
    box_laws::written_boxes_are_listed(items);
    let s = written(items);
    let bs = boxes::box_list(s);
    assert forall|j: int| 0 <= j < k && (#[trigger] bs[j]).fourcc == PSSH@ implies
        !init::is_widevine(bs[j].payload) by {
        assert(items[j].0 == PSSH@);
        system_is_read(items[j].1);
    }
    system_is_read(items[k].1);
    widevine_up_to(s, bs, k);
    assert(bs[k].fourcc == PSSH@);
}

proof fn system_is_read(payload: Seq<u8>)
    ensures
        init::is_widevine(payload) <==> is_of_system(payload, WV_SYSTEM_ID@),
{
    if init::is_widevine(payload) {
        assert(payload =~= system_payload(payload.take(4), WV_SYSTEM_ID@, payload.skip(20)));
    }
    if is_of_system(payload, WV_SYSTEM_ID@) {
        let (lead, rest) = choose|lead: Seq<u8>, rest: Seq<u8>|
            lead.len() == 4 && payload == #[trigger] system_payload(lead, WV_SYSTEM_ID@, rest);
        assert(payload.subrange(4, 20) =~= WV_SYSTEM_ID@);
    }
}

proof fn widevine_up_to(s: Seq<u8>, bs: Seq<boxes::BoxView>, k: int)
    requires
        0 <= k < bs.len(),
        bs[k].fourcc == PSSH@,
        init::is_widevine(bs[k].payload),
        forall|j: int|
            0 <= j < k && (#[trigger] bs[j]).fourcc == PSSH@ ==> !init::is_widevine(bs[j].payload),
    ensures
        init::first_widevine(s, bs) == Some(boxes::raw_box(s, bs[k])),
    decreases k,
{
    if k > 0 {
        let t = bs.drop_first();
        assert forall|j: int| 0 <= j < k - 1 && (#[trigger] t[j]).fourcc == PSSH@ implies
            !init::is_widevine(t[j].payload) by {
            assert(t[j] == bs[j + 1]);
        }
        widevine_up_to(s, t, k - 1);
        assert(bs[0].fourcc == PSSH@ ==> !init::is_widevine(bs[0].payload));
    }
}

// ---------------------------------------------------------------------------
// The init segment in clear form
// ---------------------------------------------------------------------------

/// One box on the way to the sample description is written again around what becomes of its
/// payload; the boxes beside it stay.
proof fn step_on_path(a: Around, chain: Seq<[u8; 4]>, payload: Seq<u8>, new: Seq<u8>)
    requires
        chain.len() > 0,
        stands_alone(a, chain[0]@),
        written(around(a, chain[0]@, payload)).len() < 0x1_0000_0000,
        new == (if chain.len() == 1 {
            strip::plain_stsd(payload)
        } else {
            boxes::concat_boxes(
                boxes::box_list(payload),
                strip::rewrite_on_path(payload, chain.drop_first()),
            )
        }),
    ensures
        boxes::concat_boxes(
            boxes::box_list(written(around(a, chain[0]@, payload))),
            strip::rewrite_on_path(written(around(a, chain[0]@, payload)), chain),
        ) == written(around(a, chain[0]@, new)),
{
    let fourcc = chain[0]@;
    let s = written(around(a, fourcc, payload));
    let f = strip::rewrite_on_path(s, chain);
    box_laws::rewriting_around(a, fourcc, payload, f, boxes::iso_box(fourcc, new));
    box_laws::around_parts(a, fourcc, new);
}

/// What becomes of a track is what becomes of its entry: all else is written again as it was.
proof fn only_the_entry_changes(
    t: TrackParts,
    fourcc: Seq<u8>,
    entry: Seq<u8>,
    new_type: Seq<u8>,
    new: Seq<u8>,
)
    requires
        is_track(t, true) || is_track(t, false),
        fourcc.len() == 4,
        track(t, fourcc, entry).len() < 0x1_0000_0000,
        strip::plain_stsd(t.head + written(around(t.stsd, fourcc, entry))) == t.head + written(
            around(t.stsd, new_type, new),
        ),
    ensures
        strip::plain_trak(track(t, fourcc, entry)) == track(t, new_type, new),
{
    let c1 = strip::stsd_path();
    let c2 = seq![MINF, STBL, STSD];
    let c3 = seq![STBL, STSD];
    let c4 = seq![STSD];
    assert(c1.drop_first() =~= c2);
    assert(c2.drop_first() =~= c3);
    assert(c3.drop_first() =~= c4);
    let stsd = t.head + written(around(t.stsd, fourcc, entry));
    let stbl = written(around(t.stbl, STSD@, stsd));
    let minf = written(around(t.minf, STBL@, stbl));
    let mdia = written(around(t.mdia, MINF@, minf));
    let new_stsd = t.head + written(around(t.stsd, new_type, new));
    let new_stbl = written(around(t.stbl, STSD@, new_stsd));
    let new_minf = written(around(t.minf, STBL@, new_stbl));
    let new_mdia = written(around(t.mdia, MINF@, new_minf));
    inner_lengths(t, fourcc, entry);
    step_on_path(t.stbl, c4, stsd, new_stsd);
    step_on_path(t.minf, c3, stbl, new_stbl);
    step_on_path(t.mdia, c2, minf, new_minf);
    step_on_path(t.trak, c1, mdia, new_mdia);
}

/// A protected entry gets the name that its `frma` box holds and loses its `sinf` box; its
/// fields and its other boxes stay as they were, and so does all else in the track.
#[verifier::rlimit(80)]
#[verifier::spinoff_prover]
pub proof fn protected_entry_gets_its_name_back(
    t: TrackParts,
    audio: bool,
    sinf: Around,
    name: Seq<u8>,
    more: Seq<u8>,
)
    requires
        is_track(t, audio),
        stands_alone(sinf, FRMA@),
        name.len() == 4,
        track(
            t,
            entry_type(audio),
            protected_entry(t, written(around(sinf, FRMA@, name + more))),
        ).len() < 0x1_0000_0000,
    ensures
        strip::plain_trak(
            track(
                t,
                entry_type(audio),
                protected_entry(t, written(around(sinf, FRMA@, name + more))),
            ),
        ) == track(t, name, clear_entry(t)),
{
    let inner = written(around(sinf, FRMA@, name + more));
    let entry = protected_entry(t, inner);
    let fourcc = entry_type(audio);
    let fixed = fixed_len(audio);
    let entries = written(around(t.stsd, fourcc, entry));
    inner_lengths(t, fourcc, entry);
    box_laws::around_parts(t.entry, SINF@, inner);
    box_laws::around_parts(sinf, FRMA@, name + more);
    protection_is_found(t, inner);
    box_laws::child_around(sinf, FRMA@, name + more);
    assert((name + more).take(4) =~= name);
    let children = written(around(t.entry, SINF@, inner));
    assert(entry.skip(fixed) =~= children);
    assert(entry.take(fixed) =~= t.fixed);
    let none = Seq::<u8>::empty();
    box_laws::rewriting_around(t.entry, SINF@, inner, strip::drop_sinf(children), none);
    assert(written(t.entry.before) + none + written(t.entry.behind) =~= written(t.entry.before)
        + written(t.entry.behind));
    let new = boxes::iso_box(name, clear_entry(t));
    assert(strip::plain_entry(entry, fixed) == Some(new));
    assert(ENCV@[3] == 0x76u8 && ENCA@[3] == 0x61u8);
    let f = strip::rewrite_entry(entries);
    box_laws::rewriting_around(t.stsd, fourcc, entry, f, new);
    box_laws::around_parts(t.stsd, name, clear_entry(t));
    let stsd = t.head + entries;
    assert(stsd.skip(8) =~= entries);
    assert(stsd.take(8) =~= t.head);
    only_the_entry_changes(t, fourcc, entry, name, clear_entry(t));
}

/// A track without protected entries stays as it was.
pub proof fn clear_track_stays(t: TrackParts, fourcc: Seq<u8>, entry: Seq<u8>)
    requires
        is_track(t, true) || is_track(t, false),
        fourcc.len() == 4,
        fourcc != ENCV@,
        fourcc != ENCA@,
        stands_alone(t.stsd, fourcc),
        track(t, fourcc, entry).len() < 0x1_0000_0000,
    ensures
        strip::plain_trak(track(t, fourcc, entry)) == track(t, fourcc, entry),
{
    let entries = written(around(t.stsd, fourcc, entry));
    inner_lengths(t, fourcc, entry);
    entries_stay(t.stsd, fourcc, entry);
    let stsd = t.head + entries;
    assert(stsd.skip(8) =~= entries);
    assert(stsd.take(8) =~= t.head);
    only_the_entry_changes(t, fourcc, entry, fourcc, entry);
}

proof fn entries_stay(a: Around, fourcc: Seq<u8>, entry: Seq<u8>)
    requires
        fourcc.len() == 4,
        fourcc != ENCV@,
        fourcc != ENCA@,
        stands_alone(a, fourcc),
        stands_alone(a, ENCV@),
        stands_alone(a, ENCA@),
        written(around(a, fourcc, entry)).len() < 0x1_0000_0000,
    ensures
        ({
            let s = written(around(a, fourcc, entry));
            boxes::concat_boxes(boxes::box_list(s), strip::rewrite_entry(s)) == s
        }),
{
    let items = around(a, fourcc, entry);
    let s = written(items);
    box_laws::around_is_first(a, fourcc, entry);
    let n = a.before.len() as int;
    assert forall|j: int| 0 <= j < items.len() implies (#[trigger] items[j]).0 != ENCV@
        && items[j].0 != ENCA@ by {
        if j < n {
            assert(items[j] == others(a)[j]);
        } else if j > n {
            assert(items[j] == others(a)[j - 1]);
        }
    }
    box_laws::kept_boxes_stay(items, strip::rewrite_entry(s));
}

/// Only `moov` changes in an init segment.
pub proof fn only_moov_changes(top: Around, moov: Seq<u8>)
    requires
        stands_alone(top, MOOV@),
        written(around(top, MOOV@, moov)).len() < 0x1_0000_0000,
    ensures
        strip::plain_init(written(around(top, MOOV@, moov))) == written(
            around(top, MOOV@, strip::plain_moov(moov)),
        ),
{
    let s = written(around(top, MOOV@, moov));
    let new = strip::plain_moov(moov);
    box_laws::child_around(top, MOOV@, moov);
    box_laws::rewriting_around(
        top,
        MOOV@,
        moov,
        strip::rewrite_in_init(s),
        boxes::iso_box(MOOV@, new),
    );
    box_laws::around_parts(top, MOOV@, new);
}

/// What becomes of the boxes of `moov`: `pssh` boxes go, tracks are cleared, and the others
/// stay as they were.
pub open spec fn cleared_items(items: Seq<(Seq<u8>, Seq<u8>)>) -> Seq<(Seq<u8>, Seq<u8>)>
    decreases items.len(),
{
    if items.len() == 0 {
        Seq::empty()
    } else {
        let rest = cleared_items(items.drop_first());
        if items[0].0 == PSSH@ {
            rest
        } else if items[0].0 == TRAK@ {
            seq![(items[0].0, strip::plain_trak(items[0].1))] + rest
        } else {
            seq![items[0]] + rest
        }
    }
}

/// Each box of `moov` is dealt with on its own, and in order.
pub proof fn moov_is_cleared_box_by_box(items: Seq<(Seq<u8>, Seq<u8>)>)
    requires
        box_laws::can_be_written(items),
    ensures
        strip::plain_moov(written(items)) == written(cleared_items(items)),
{
    let s = written(items);
    let bs = boxes::box_list(s);
    let f = strip::rewrite_in_moov(s);
    box_laws::written_boxes_are_listed(items);
    assert forall|i: int| 0 <= i < bs.len() implies #[trigger] f(bs[i]) == written(
        cleared_items(seq![items[i]]),
    ) by {
        let one = seq![items[i]];
        assert(bs[i].fourcc == items[i].0 && bs[i].payload == items[i].1);
        assert(one.drop_first() =~= Seq::empty());
        assert(cleared_items(one.drop_first()) =~= Seq::empty());
        let kept = cleared_items(one);
        if items[i].0 != PSSH@ {
            let new = kept[0];
            assert(kept =~= seq![new]);
            assert(kept.drop_first() =~= Seq::empty());
            assert(written(kept.drop_first()) =~= Seq::empty());
            assert(written(kept) =~= boxes::iso_box(new.0, new.1));
        } else {
            assert(kept =~= Seq::empty());
        }
    }
    cleared_from(items, bs, f, 0);
    assert(bs.skip(0) =~= bs);
    assert(items.skip(0) =~= items);
}

proof fn cleared_from(
    items: Seq<(Seq<u8>, Seq<u8>)>,
    bs: Seq<boxes::BoxView>,
    f: spec_fn(boxes::BoxView) -> Seq<u8>,
    k: int,
)
    requires
        bs.len() == items.len(),
        0 <= k <= bs.len(),
        forall|i: int|
            0 <= i < bs.len() ==> #[trigger] f(bs[i]) == written(cleared_items(seq![items[i]])),
    ensures
        boxes::concat_boxes(bs.skip(k), f) == written(cleared_items(items.skip(k))),
    decreases bs.len() - k,
{
    if k < bs.len() {
        cleared_from(items, bs, f, k + 1);
        let t = items.skip(k);
        let one = seq![items[k]];
        assert(bs.skip(k).drop_first() =~= bs.skip(k + 1));
        assert(t.drop_first() =~= items.skip(k + 1));
        assert(bs.skip(k)[0] == bs[k]);
        assert(f(bs[k]) == written(cleared_items(one)));
        assert(one.drop_first() =~= Seq::empty());
        assert(cleared_items(one.drop_first()) =~= Seq::empty());
        assert(cleared_items(t) =~= cleared_items(one) + cleared_items(t.drop_first()));
        box_laws::written_of_parts(cleared_items(one), cleared_items(t.drop_first()));
    }
}

/// The protection of an entry without fields is found at its start.
pub proof fn protection_may_come_first(a: Around, sinf: Seq<u8>, fixed: int)
    requires
        stands_alone(a, SINF@),
        written(around(a, SINF@, sinf)).len() < 0x1_0000_0000,
    ensures
        init::protection(written(around(a, SINF@, sinf)), fixed) is Some,
        (init::protection(written(around(a, SINF@, sinf)), fixed)->0).payload == sinf,
{
    box_laws::child_around(a, SINF@, sinf);
}

/// Of a video entry and an audio entry in one track, the video entry counts, whichever comes
/// first.
pub proof fn video_entry_counts_first(trak: Seq<u8>, head: Seq<u8>, entries: Seq<u8>)
    requires
        head.len() == 8,
        boxes::box_on_path(trak, seq![&MDIA, &MINF, &STBL, &STSD]) matches Some(b) && b.payload
            == head + entries,
        init::entry_tenc(entries, ENCV@, 78) is Some,
    ensures
        init::trak_tenc(trak) == init::entry_tenc(entries, ENCV@, 78),
{
    assert((head + entries).skip(8) =~= entries);
}

/// Parameters that are cut off in the first track that has any refuse the init segment,
/// whatever later tracks and boxes say.
pub proof fn cut_off_track_refuses_the_segment(
    top: Around,
    items: Seq<(Seq<u8>, Seq<u8>)>,
    k: int,
    e: Fmp4Error,
    hint: u32,
)
    requires
        stands_alone(top, MOOV@),
        box_laws::can_be_written(items),
        written(around(top, MOOV@, written(items))).len() < 0x1_0000_0000,
        0 <= k < items.len(),
        items[k].0 == TRAK@,
        init::trak_info(items[k].1) == Some(Err::<InitView, Fmp4Error>(e)),
        forall|j: int|
            0 <= j < k && (#[trigger] items[j]).0 == TRAK@ ==> init::trak_info(items[j].1) is None,
    ensures
        init::init_info(written(around(top, MOOV@, written(items))), hint) == Err::<
            Option<InitView>,
            Fmp4Error,
        >(e),
{
    box_laws::child_around(top, MOOV@, written(items));
    box_laws::written_boxes_are_listed(items);
    let bs = boxes::box_list(written(items));
    assert forall|j: int| 0 <= j < k && (#[trigger] bs[j]).fourcc == TRAK@ implies init::trak_info(
        bs[j].payload,
    ) is None by {
        assert(items[j].0 == TRAK@);
    }
    traks_up_to(bs, k);
}

} // verus!
