//! What key ids a Widevine header that was written holds.

use crate::bytes;
use crate::fmp4::boxes;
use crate::fmp4::boxes::{PSSH, WV_SYSTEM_ID};
use crate::fmp4::init;
use crate::fmp4::media_laws;
use crate::license;
use vstd::prelude::*;

verus! {

/// A field of a protobuf message: a number in as many bytes as it takes, or bytes.
pub enum HeaderField {
    Varint { number: int, more: Seq<u8>, last: u8 },
    Bytes { number: int, bytes: Seq<u8> },
}

/// A field as it is written: its tag and its value.
pub open spec fn field_bytes(f: HeaderField) -> Seq<u8> {
    match f {
        HeaderField::Varint { number, more, last } => seq![(number * 8) as u8] + more + seq![last],
        HeaderField::Bytes { number, bytes } => seq![(number * 8 + 2) as u8, bytes.len() as u8]
            + bytes,
    }
}

/// Whether a field can be written with a tag of one byte and, where it has one, a length of
/// one byte.
pub open spec fn is_short(f: HeaderField) -> bool {
    match f {
        HeaderField::Varint { number, more, last } => {
            &&& 0 <= number < 32
            &&& forall|i: int| 0 <= i < more.len() ==> #[trigger] more[i] >= 0x80
            &&& last < 0x80
        },
        HeaderField::Bytes { number, bytes } => 0 <= number < 32 && bytes.len() < 0x100,
    }
}

/// Whether a field is a key id: number 2, sixteen bytes.
pub open spec fn is_key_id(f: HeaderField) -> bool {
    match f {
        HeaderField::Varint { .. } => false,
        HeaderField::Bytes { number, bytes } => number == 2 && bytes.len() == 16,
    }
}

/// A header: its fields, one after the other.
pub open spec fn header(fields: Seq<HeaderField>) -> Seq<u8>
    decreases fields.len(),
{
    if fields.len() == 0 {
        Seq::empty()
    } else {
        field_bytes(fields[0]) + header(fields.drop_first())
    }
}

/// The key ids among fields, in order.
pub open spec fn key_ids(fields: Seq<HeaderField>) -> Seq<Seq<u8>>
    decreases fields.len(),
{
    if fields.len() == 0 {
        Seq::empty()
    } else if is_key_id(fields[0]) {
        seq![fields[0]->bytes] + key_ids(fields.drop_first())
    } else {
        key_ids(fields.drop_first())
    }
}

proof fn varint_ends(p: Seq<u8>, at: int, more: Seq<u8>, last: u8)
    requires
        0 <= at,
        at + more.len() < p.len(),
        forall|i: int| 0 <= i < more.len() ==> p[at + i] == more[i] && #[trigger] more[i] >= 0x80,
        p[at + more.len()] == last,
        last < 0x80,
    ensures
        init::varint_end(p, at) == at + more.len() + 1,
    decreases more.len(),
{
    if more.len() > 0 {
        let rest = more.drop_first();
        assert(more[0] >= 0x80);
        assert forall|i: int| 0 <= i < rest.len() implies p[at + 1 + i] == rest[i]
            && #[trigger] rest[i] >= 0x80 by {
            assert(more[i + 1] == rest[i]);
            assert(p[at + (i + 1)] == more[i + 1]);
        }
        varint_ends(p, at + 1, rest, last);
    }
}

/// One field, read where it stands: a key id is found, anything else is skipped.
#[verifier::rlimit(80)]
#[verifier::spinoff_prover]
proof fn field_is_read(pre: Seq<u8>, f: HeaderField, rest: Seq<u8>)
    requires
        is_short(f),
    ensures
        ({
            let p = pre + field_bytes(f) + rest;
            let next = (pre + field_bytes(f)).len() as int;
            &&& init::header_kid(p, pre.len() as int) == if is_key_id(f) {
                Some(f->bytes)
            } else {
                init::header_kid(p, next)
            }
            &&& license::header_kids(p, pre.len() as int) == if is_key_id(f) {
                seq![f->bytes] + license::header_kids(p, next)
            } else {
                license::header_kids(p, next)
            }
        }),
{
    let x = field_bytes(f);
    let p = pre + x + rest;
    let at = pre.len() as int;
    let next = (pre + x).len() as int;
    match f {
        HeaderField::Varint { number, more, last } => {
            assert(p[at] == (number * 8) as u8);
            assert forall|i: int| 0 <= i < more.len() implies p[at + 1 + i] == more[i]
                && #[trigger] more[i] >= 0x80 by {
                assert(p[at + 1 + i] == x[1 + i]);
            }
            assert(p[at + 1 + more.len()] == last);
            varint_ends(p, at + 1, more, last);
        },
        HeaderField::Bytes { number, bytes } => {
            assert(p[at] == (number * 8 + 2) as u8);
            assert(p[at + 1] == bytes.len() as u8);
            assert(p.subrange(at + 2, next) =~= bytes);
            if next >= p.len() && is_key_id(f) {
                assert(seq![bytes] + license::header_kids(p, next) =~= seq![bytes]);
            }
            if !is_key_id(f) {
                let e = Seq::<Seq<u8>>::empty();
                assert(e + license::header_kids(p, next) =~= license::header_kids(p, next));
            }
        },
    }
}

#[verifier::rlimit(80)]
#[verifier::spinoff_prover]
proof fn fields_are_read(pre: Seq<u8>, fields: Seq<HeaderField>, rest: Seq<u8>)
    requires
        forall|i: int| 0 <= i < fields.len() ==> is_short(#[trigger] fields[i]),
    ensures
        ({
            let p = pre + header(fields) + rest;
            let next = (pre + header(fields)).len() as int;
            let ids = key_ids(fields);
            &&& init::header_kid(p, pre.len() as int) == if ids.len() > 0 {
                Some(ids[0])
            } else {
                init::header_kid(p, next)
            }
            &&& license::header_kids(p, pre.len() as int) == ids + license::header_kids(p, next)
        }),
    decreases fields.len(),
{
    let p = pre + header(fields) + rest;
    let next = (pre + header(fields)).len() as int;
    if fields.len() == 0 {
        let e = Seq::<Seq<u8>>::empty();
        assert(e + license::header_kids(p, next) =~= license::header_kids(p, next));
    } else {
        let f = fields[0];
        let tail = fields.drop_first();
        let x = field_bytes(f);
        assert(is_short(fields[0]));
        assert forall|i: int| 0 <= i < tail.len() implies is_short(#[trigger] tail[i]) by {
            assert(tail[i] == fields[i + 1]);
        }
        assert(p =~= pre + x + (header(tail) + rest));
        assert(p =~= (pre + x) + header(tail) + rest);
        assert(pre + header(fields) =~= (pre + x) + header(tail));
        field_is_read(pre, f, header(tail) + rest);
        fields_are_read(pre + x, tail, rest);
        if is_key_id(f) {
            assert(seq![f->bytes] + (key_ids(tail) + license::header_kids(p, next)) =~= (
            seq![f->bytes] + key_ids(tail)) + license::header_kids(p, next));
        }
    }
}

/// The key id of a header is its first field of number 2 with sixteen bytes, whatever fields
/// stand before it and whatever bytes stand behind it.
pub proof fn key_id_is_found_among_fields(
    before: Seq<HeaderField>,
    kid: Seq<u8>,
    rest: Seq<u8>,
)
    requires
        forall|i: int|
            0 <= i < before.len() ==> is_short(#[trigger] before[i]) && !is_key_id(before[i]),
        kid.len() == 16,
    ensures
        init::header_kid(header(before) + seq![0x12u8, 0x10] + kid + rest, 0) == Some(kid),
{
    let e = Seq::<u8>::empty();
    let f = HeaderField::Bytes { number: 2, bytes: kid };
    let x = seq![0x12u8, 0x10] + kid;
    let p = header(before) + seq![0x12u8, 0x10] + kid + rest;
    assert(field_bytes(f) =~= x);
    no_key_ids(before);
    assert(p =~= e + header(before) + (x + rest));
    assert(e + header(before) =~= header(before));
    fields_are_read(e, before, x + rest);
    assert(p =~= header(before) + x + rest);
    field_is_read(header(before), f, rest);
}

proof fn no_key_ids(fields: Seq<HeaderField>)
    requires
        forall|i: int| 0 <= i < fields.len() ==> !is_key_id(#[trigger] fields[i]),
    ensures
        key_ids(fields).len() == 0,
    decreases fields.len(),
{
    if fields.len() > 0 {
        let tail = fields.drop_first();
        assert(!is_key_id(fields[0]));
        assert forall|i: int| 0 <= i < tail.len() implies !is_key_id(#[trigger] tail[i]) by {
            assert(tail[i] == fields[i + 1]);
        }
        no_key_ids(tail);
    }
}

/// A header gives all of its key ids, and as its own the first of them, if there is one.
pub proof fn header_gives_its_key_ids(fields: Seq<HeaderField>)
    requires
        forall|i: int| 0 <= i < fields.len() ==> is_short(#[trigger] fields[i]),
    ensures
        license::header_kids(header(fields), 0) == key_ids(fields),
        init::header_kid(header(fields), 0) == if key_ids(fields).len() > 0 {
            Some(key_ids(fields)[0])
        } else {
            None
        },
{
    let e = Seq::<u8>::empty();
    let h = header(fields);
    assert(h =~= e + h + e);
    assert(e + h =~= h);
    fields_are_read(e, fields, e);
    let none = Seq::<Seq<u8>>::empty();
    assert(license::header_kids(h, h.len() as int) == none);
    assert(key_ids(fields) + none =~= key_ids(fields));
}

/// A field that is no number and no bytes ends the search, and so does one that is cut off:
/// what stands behind is not looked at.
pub proof fn search_ends_at_other_fields(before: Seq<HeaderField>, tag: u8, rest: Seq<u8>)
    requires
        forall|i: int|
            0 <= i < before.len() ==> is_short(#[trigger] before[i]) && !is_key_id(before[i]),
        tag % 8 != 0 && tag % 8 != 2 || rest.len() == 0 || tag % 8 == 2 && rest[0]
            >= rest.len(),
    ensures
        init::header_kid(header(before) + (seq![tag] + rest), 0) is None,
        license::header_kids(header(before) + (seq![tag] + rest), 0).len() == 0,
{
    let e = Seq::<u8>::empty();
    let h = header(before);
    let t = seq![tag] + rest;
    let p = h + t;
    let at = h.len() as int;
    no_key_ids(before);
    assert(p =~= e + h + t);
    assert(e + h =~= h);
    fields_are_read(e, before, t);
    assert(p[at] == tag);
    if rest.len() > 0 {
        assert(p[at + 1] == rest[0]);
    }
    assert(init::varint_end(p, at + 1) >= at + 1) by {
        varint_goes_on(p, at + 1);
    }
    assert(license::header_kids(p, at).len() == 0);
    assert(key_ids(before) + license::header_kids(p, at) =~= Seq::empty());
}

proof fn varint_goes_on(p: Seq<u8>, i: int)
    ensures
        init::varint_end(p, i) >= i,
    decreases p.len() - i,
{
    if i < p.len() && p[i] >= 0x80 {
        varint_goes_on(p, i + 1);
    }
}

/// A box of another system holds no key id of this one.
pub proof fn other_systems_hold_no_key_id(lead: Seq<u8>, system: Seq<u8>, rest: Seq<u8>)
    requires
        lead.len() == 4,
        system.len() == 16,
        system != WV_SYSTEM_ID@,
    ensures
        init::pssh_kid(lead + system + rest) is None,
        !init::is_widevine(lead + system + rest),
{
    assert((lead + system + rest).subrange(4, 20) =~= system);
}

// ---------------------------------------------------------------------------
// Boxes
// ---------------------------------------------------------------------------

/// A Widevine `pssh` payload that carries data: version and flags, system, size, data.
pub open spec fn pssh_with_data(version: u8, data: Seq<u8>) -> Seq<u8> {
    seq![version, 0u8, 0, 0] + WV_SYSTEM_ID@ + bytes::be32_bytes(data.len() as int) + data
}

/// Key ids, one after the other.
pub open spec fn joined_ids(ids: Seq<Seq<u8>>) -> Seq<u8>
    decreases ids.len(),
{
    if ids.len() == 0 {
        Seq::empty()
    } else {
        ids[0] + joined_ids(ids.drop_first())
    }
}

/// A Widevine `pssh` payload that lists key ids: version and flags, system, number, key ids.
pub open spec fn pssh_with_ids(ids: Seq<Seq<u8>>) -> Seq<u8> {
    seq![1u8, 0u8, 0, 0] + WV_SYSTEM_ID@ + bytes::be32_bytes(ids.len() as int) + joined_ids(ids)
}

/// A box with data holds the key ids of the header in it, whatever stands behind the header.
pub proof fn pssh_with_data_holds_its_key_ids(
    version: u8,
    fields: Seq<HeaderField>,
    rest: Seq<u8>,
)
    requires
        version != 1,
        forall|i: int| 0 <= i < fields.len() ==> is_short(#[trigger] fields[i]),
        header(fields).len() < 0x1_0000_0000,
    ensures
        init::is_widevine(pssh_with_data(version, header(fields)) + rest),
        init::pssh_kid(pssh_with_data(version, header(fields)) + rest) == if key_ids(fields).len()
            > 0 {
            Some(key_ids(fields)[0])
        } else {
            None
        },
        license::box_kids(
            boxes::iso_box(PSSH@, pssh_with_data(version, header(fields)) + rest),
        ) == key_ids(fields),
{
    let h = header(fields);
    let p = pssh_with_data(version, h) + rest;
    let n = bytes::be32_bytes(h.len() as int);
    assert(p.subrange(4, 20) =~= WV_SYSTEM_ID@);
    assert(p.subrange(20, 24) =~= n);
    media_laws::be32_is_read(p, 20, h.len() as int);
    assert(p.subrange(24, 24 + h.len() as int) =~= h);
    let x = boxes::iso_box(PSSH@, p);
    assert(x.subrange(28, 32) =~= n);
    media_laws::be32_is_read(x, 28, h.len() as int);
    assert(x.subrange(32, 32 + h.len() as int) =~= h);
    assert(x[8] == version);
    header_gives_its_key_ids(fields);
}

proof fn id_is_at(pre: Seq<u8>, ids: Seq<Seq<u8>>, rest: Seq<u8>, i: int)
    requires
        0 <= i < ids.len(),
        forall|k: int| 0 <= k < ids.len() ==> (#[trigger] ids[k]).len() == 16,
    ensures
        joined_ids(ids).len() == 16 * ids.len(),
        (pre + joined_ids(ids) + rest).subrange(pre.len() + 16 * i, pre.len() + 16 * i + 16)
            == ids[i],
    decreases ids.len(),
{
    let p = pre + joined_ids(ids) + rest;
    let tail = ids.drop_first();
    assert(ids[0].len() == 16);
    assert forall|k: int| 0 <= k < tail.len() implies (#[trigger] tail[k]).len() == 16 by {
        assert(tail[k] == ids[k + 1]);
    }
    ids_len(ids);
    if i == 0 {
        assert(p.subrange(pre.len() as int, pre.len() as int + 16) =~= ids[0]);
    } else {
        id_is_at(pre + ids[0], tail, rest, i - 1);
        assert(p =~= (pre + ids[0]) + joined_ids(tail) + rest);
    }
}

proof fn ids_len(ids: Seq<Seq<u8>>)
    requires
        forall|k: int| 0 <= k < ids.len() ==> (#[trigger] ids[k]).len() == 16,
    ensures
        joined_ids(ids).len() == 16 * ids.len(),
    decreases ids.len(),
{
    if ids.len() > 0 {
        let tail = ids.drop_first();
        assert(ids[0].len() == 16);
        assert forall|k: int| 0 <= k < tail.len() implies (#[trigger] tail[k]).len() == 16 by {
            assert(tail[k] == ids[k + 1]);
        }
        ids_len(tail);
    }
}

/// A box that lists key ids holds them, whatever stands behind the list.
pub proof fn pssh_with_ids_holds_them(ids: Seq<Seq<u8>>, rest: Seq<u8>)
    requires
        forall|k: int| 0 <= k < ids.len() ==> (#[trigger] ids[k]).len() == 16,
        ids.len() < 0x1000_0000,
    ensures
        init::is_widevine(pssh_with_ids(ids) + rest),
        ids.len() > 0 ==> init::pssh_kid(pssh_with_ids(ids) + rest) == Some(ids[0]),
        ids.len() == 0 ==> init::pssh_kid(pssh_with_ids(ids) + rest) is None,
        license::box_kids(boxes::iso_box(PSSH@, pssh_with_ids(ids) + rest)) == ids,
{
    let p = pssh_with_ids(ids) + rest;
    let n = bytes::be32_bytes(ids.len() as int);
    let front = seq![1u8, 0u8, 0, 0] + WV_SYSTEM_ID@ + n;
    let x = boxes::iso_box(PSSH@, p);
    let far = bytes::be32_bytes(8 + p.len() as int) + PSSH@ + front;
    ids_len(ids);
    assert(p =~= front + joined_ids(ids) + rest);
    assert(x =~= far + joined_ids(ids) + rest);
    assert(p.subrange(4, 20) =~= WV_SYSTEM_ID@);
    assert(p.subrange(20, 24) =~= n);
    assert(x.subrange(28, 32) =~= n);
    media_laws::be32_is_read(p, 20, ids.len() as int);
    media_laws::be32_is_read(x, 28, ids.len() as int);
    assert(x[8] == 1);
    if ids.len() > 0 {
        id_is_at(front, ids, rest, 0);
    }
    let kids = license::box_kids(x);
    assert(kids.len() == ids.len());
    assert forall|i: int| 0 <= i < ids.len() implies kids[i] == ids[i] by {
        id_is_at(far, ids, rest, i);
    }
    assert(kids =~= ids);
}

} // verus!
