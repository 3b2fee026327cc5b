//! Reading the encryption parameters of an init segment.

use crate::bytes;
use crate::bytes::read_be32;
use crate::fmp4::boxes;
use crate::fmp4::boxes::{
    boxes, copy_box, find_box, find_box_path, same_type, BoxRef, BoxView, CBCS, ENCA, ENCV, MDIA,
    MINF, MOOV, PSSH, SCHI, SCHM, SINF, STBL, STSD, TENC, TRAK, WV_SYSTEM_ID,
};
use crate::fmp4::Fmp4Error;
use vstd::prelude::*;

verus! {

/// Default encryption parameters: key id, IV size and encryption scheme.
pub struct InitView {
    pub default_kid: Seq<u8>,
    pub default_iv_size: u8,
    pub encryption_scheme: u32,
}

/// Info extracted from an encrypted init segment.
#[derive(Clone, Copy, Debug)]
pub struct InitInfo {
    pub default_kid: [u8; 16],
    pub default_iv_size: u8,
    /// 1 is `cenc` (AES-128-CTR), 2 is `cbcs` (AES-128-CBC).
    pub encryption_scheme: u32,
}

impl View for InitInfo {
    type V = InitView;

    open spec fn view(&self) -> InitView {
        InitView {
            default_kid: self.default_kid@,
            default_iv_size: self.default_iv_size,
            encryption_scheme: self.encryption_scheme,
        }
    }
}

/// Size of the fields before the child boxes of an `encv` entry.
pub const VISUAL_FIXED: usize = 78;

/// Size of the fields before the child boxes of an `enca` entry.
pub const AUDIO_FIXED: usize = 28;

/// The `sinf` box of a sample entry whose fixed fields take `fixed` bytes: the
/// first one at the start of the payload or, where there is none, the first one
/// behind the fixed fields.
pub open spec fn protection(payload: Seq<u8>, fixed: int) -> Option<BoxView> {
    if boxes::child(payload, SINF@) is Some {
        boxes::child(payload, SINF@)
    } else if payload.len() < fixed {
        None
    } else {
        boxes::child(payload.skip(fixed), SINF@)
    }
}

/// The encryption scheme that `sinf` names in its `schm` box; `cenc` unless that
/// box says `cbcs`.
pub open spec fn scheme_of(sinf: Seq<u8>) -> u32 {
    match boxes::child(sinf, SCHM@) {
        Some(b) => if b.payload.len() >= 8 && b.payload.subrange(4, 8) == CBCS@ {
            2
        } else {
            1
        },
        None => 1,
    }
}

/// The payload of the `tenc` box under the first sample entry of type `fourcc`,
/// with the encryption scheme.
pub open spec fn entry_tenc(entries: Seq<u8>, fourcc: Seq<u8>, fixed: int) -> Option<
    (Seq<u8>, u32),
> {
    match boxes::child(entries, fourcc) {
        None => None,
        Some(enc) => match protection(enc.payload, fixed) {
            None => None,
            Some(sinf) => match boxes::child(sinf.payload, SCHI@) {
                None => None,
                Some(schi) => match boxes::child(schi.payload, TENC@) {
                    None => None,
                    Some(tenc) => Some((tenc.payload, scheme_of(sinf.payload))),
                },
            },
        },
    }
}

/// The payload of a track's `tenc` box, with the encryption scheme; a video entry
/// goes before an audio entry.
pub open spec fn trak_tenc(trak: Seq<u8>) -> Option<(Seq<u8>, u32)> {
    match boxes::box_on_path(trak, seq![&MDIA, &MINF, &STBL, &STSD]) {
        None => None,
        Some(stsd) => if stsd.payload.len() < 8 {
            None
        } else {
            let entries = stsd.payload.skip(8);
            if entry_tenc(entries, ENCV@, VISUAL_FIXED as int) is Some {
                entry_tenc(entries, ENCV@, VISUAL_FIXED as int)
            } else {
                entry_tenc(entries, ENCA@, AUDIO_FIXED as int)
            }
        },
    }
}

/// What a `tenc` box says: version and flags (4), reserved (1), pattern (1),
/// protection flag (1), IV size (1) and key id (16).
pub open spec fn tenc_info(p: Seq<u8>, scheme: u32) -> Result<InitView, Fmp4Error> {
    if p.len() < 24 {
        Err(Fmp4Error::TencTooShort(p.len() as usize))
    } else {
        Ok(
            InitView {
                default_kid: p.subrange(8, 24),
                default_iv_size: p[7],
                encryption_scheme: scheme,
            },
        )
    }
}

/// What a track's `tenc` box says, where it has one.
pub open spec fn trak_info(trak: Seq<u8>) -> Option<Result<InitView, Fmp4Error>> {
    match trak_tenc(trak) {
        None => None,
        Some(t) => Some(tenc_info(t.0, t.1)),
    }
}

/// What the first track with a `tenc` box says.
pub open spec fn traks_info(bs: Seq<BoxView>) -> Result<Option<InitView>, Fmp4Error>
    decreases bs.len(),
{
    if bs.len() == 0 {
        Ok(None)
    } else if bs[0].fourcc != TRAK@ {
        traks_info(bs.drop_first())
    } else {
        match trak_info(bs[0].payload) {
            None => traks_info(bs.drop_first()),
            Some(Ok(v)) => Ok(Some(v)),
            Some(Err(e)) => Err(e),
        }
    }
}

/// Where the varint that starts at `i` ends.
pub open spec fn varint_end(p: Seq<u8>, i: int) -> int
    decreases p.len() - i,
{
    if i >= p.len() {
        i
    } else if p[i] >= 0x80 {
        varint_end(p, i + 1)
    } else {
        i + 1
    }
}

/// The first 16-byte field number 2 of a Widevine header, a protobuf message, from
/// `pos` on. Varints and length-delimited fields are skipped; another wire type
/// ends the search.
pub open spec fn header_kid(p: Seq<u8>, pos: int) -> Option<Seq<u8>>
    decreases p.len() - pos,
{
    if pos >= p.len() {
        None
    } else if p[pos] % 8 == 0 {
        let next = varint_end(p, pos + 1);
        if pos < next < p.len() {
            header_kid(p, next)
        } else {
            None
        }
    } else if p[pos] % 8 == 2 {
        if pos + 1 >= p.len() {
            None
        } else {
            let len = p[pos + 1];
            if p[pos] / 8 == 2 && len == 16 && pos + 18 <= p.len() {
                Some(p.subrange(pos + 2, pos + 18))
            } else if pos + 2 + len < p.len() {
                header_kid(p, pos + 2 + len)
            } else {
                None
            }
        }
    } else {
        None
    }
}

/// Whether the payload of a `pssh` box is a Widevine one.
pub open spec fn is_widevine(payload: Seq<u8>) -> bool {
    payload.len() >= 20 && payload.subrange(4, 20) == WV_SYSTEM_ID@
}

/// The first key id of a Widevine `pssh` payload: from the key id list of version 1,
/// from the Widevine header of any other version.
pub open spec fn pssh_kid(payload: Seq<u8>) -> Option<Seq<u8>> {
    if !is_widevine(payload) || payload.len() < 24 {
        None
    } else {
        let n = bytes::be32(payload, 20);
        if payload[0] == 1 {
            if n > 0 && payload.len() >= 40 {
                Some(payload.subrange(24, 40))
            } else {
                None
            }
        } else if payload.len() < 24 + n {
            None
        } else {
            header_kid(payload.subrange(24, 24 + n), 0)
        }
    }
}

/// The key id of the first `pssh` box that holds one.
pub open spec fn first_pssh_kid(bs: Seq<BoxView>) -> Option<Seq<u8>>
    decreases bs.len(),
{
    if bs.len() == 0 {
        None
    } else if bs[0].fourcc == PSSH@ && pssh_kid(bs[0].payload) is Some {
        pssh_kid(bs[0].payload)
    } else {
        first_pssh_kid(bs.drop_first())
    }
}

/// Encryption parameters of an init segment.
pub open spec fn init_info(s: Seq<u8>, scheme_hint: u32) -> Result<Option<InitView>, Fmp4Error> {
    match boxes::child(s, MOOV@) {
        None => Ok(None),
        Some(moov) => match traks_info(boxes::box_list(moov.payload)) {
            Ok(None) => match first_pssh_kid(boxes::box_list(moov.payload)) {
                None => Ok(None),
                Some(kid) => Ok(
                    Some(
                        InitView {
                            default_kid: kid,
                            default_iv_size: 8,
                            encryption_scheme: scheme_hint,
                        },
                    ),
                ),
            },
            r => r,
        },
    }
}

/// Copies the 16 bytes at `i`.
pub(crate) fn read_id(s: &[u8], i: usize) -> (id: [u8; 16])
    requires
        i + 16 <= s@.len(),
    ensures
        id@ == s@.subrange(i as int, i + 16),
{
    assert(s.len() == s@.len());
    let id: [u8; 16] = [
        s[i],
        s[i + 1],
        s[i + 2],
        s[i + 3],
        s[i + 4],
        s[i + 5],
        s[i + 6],
        s[i + 7],
        s[i + 8],
        s[i + 9],
        s[i + 10],
        s[i + 11],
        s[i + 12],
        s[i + 13],
        s[i + 14],
        s[i + 15],
    ];
    assert(id@ =~= s@.subrange(i as int, i + 16));
    id
}

/// Finds the `sinf` box of a sample entry.
pub(crate) fn find_protection<'a>(payload: &'a [u8], fixed: usize) -> (r: Option<BoxRef<'a>>)
    ensures
        match r {
            Some(b) => match protection(payload@, fixed as int) {
                Some(v) => v.payload == b.payload@,
                None => false,
            },
            None => protection(payload@, fixed as int) is None,
        },
{
    let found = find_box(payload, &SINF);
    if found.is_some() {
        return found;
    }
    if payload.len() < fixed {
        return None;
    }
    let children = vstd::slice::slice_subrange(payload, fixed, payload.len());
    assert(children@ =~= payload@.skip(fixed as int));
    find_box(children, &SINF)
}

fn is_cbcs(p: &[u8]) -> (r: bool)
    requires
        p@.len() >= 8,
    ensures
        r == (p@.subrange(4, 8) == CBCS@),
{
    let t: [u8; 4] = [p[4], p[5], p[6], p[7]];
    assert(t@ =~= p@.subrange(4, 8));
    same_type(&t, &CBCS)
}

fn read_scheme(sinf: &[u8]) -> (scheme: u32)
    ensures
        scheme == scheme_of(sinf@),
{
    match find_box(sinf, &SCHM) {
        Some(b) => {
            if b.payload.len() >= 8 && is_cbcs(b.payload) {
                2
            } else {
                1
            }
        },
        None => 1,
    }
}

fn find_entry_tenc<'a>(entries: &'a [u8], fourcc: &[u8; 4], fixed: usize) -> (r: Option<
    (&'a [u8], u32),
>)
    ensures
        match r {
            Some(t) => entry_tenc(entries@, fourcc@, fixed as int) == Some((t.0@, t.1)),
            None => entry_tenc(entries@, fourcc@, fixed as int) is None,
        },
{
    let enc = match find_box(entries, fourcc) {
        Some(b) => b,
        None => return None,
    };
    let sinf = match find_protection(enc.payload, fixed) {
        Some(b) => b,
        None => return None,
    };
    let scheme: u32 = read_scheme(sinf.payload);
    let schi = match find_box(sinf.payload, &SCHI) {
        Some(b) => b,
        None => return None,
    };
    match find_box(schi.payload, &TENC) {
        Some(tenc) => Some((tenc.payload, scheme)),
        None => None,
    }
}

fn parse_tenc(payload: &[u8], encryption_scheme: u32) -> (r: Result<InitInfo, Fmp4Error>)
    ensures
        match r {
            Ok(info) => tenc_info(payload@, encryption_scheme) == Ok::<InitView, Fmp4Error>(info@),
            Err(e) => tenc_info(payload@, encryption_scheme) == Err::<InitView, Fmp4Error>(e),
        },
{
    if payload.len() < 24 {
        return Err(Fmp4Error::TencTooShort(payload.len()));
    }
    Ok(
        InitInfo {
            default_kid: read_id(payload, 8),
            default_iv_size: payload[7],
            encryption_scheme,
        },
    )
}

/// The encryption parameters in a track's `tenc` box, if it has one.
fn parse_trak_tenc(trak: &[u8]) -> (r: Result<Option<InitInfo>, Fmp4Error>)
    ensures
        match r {
            Ok(None) => trak_info(trak@) is None,
            Ok(Some(info)) => trak_info(trak@) == Some(Ok::<InitView, Fmp4Error>(info@)),
            Err(e) => trak_info(trak@) == Some(Err::<InitView, Fmp4Error>(e)),
        },
{
    let path: [&[u8; 4]; 4] = [&MDIA, &MINF, &STBL, &STSD];
    assert(path@ =~= seq![&MDIA, &MINF, &STBL, &STSD]);
    let stsd = match find_box_path(trak, path.as_slice()) {
        Some(b) => b,
        None => return Ok(None),
    };
    if stsd.payload.len() < 8 {
        return Ok(None);
    }
    let entries = vstd::slice::slice_subrange(stsd.payload, 8, stsd.payload.len());
    assert(entries@ =~= stsd.payload@.skip(8));
    let mut found = find_entry_tenc(entries, &ENCV, VISUAL_FIXED);
    if found.is_none() {
        found = find_entry_tenc(entries, &ENCA, AUDIO_FIXED);
    }
    match found {
        None => Ok(None),
        Some(t) => match parse_tenc(t.0, t.1) {
            Ok(info) => Ok(Some(info)),
            Err(e) => Err(e),
        },
    }
}

fn is_widevine_pssh(payload: &[u8]) -> (r: bool)
    ensures
        r == is_widevine(payload@),
{
    if payload.len() < 20 {
        return false;
    }
    let id: [u8; 16] = read_id(payload, 4);
    bytes::same_bytes(id.as_slice(), WV_SYSTEM_ID.as_slice())
}

fn find_header_kid(p: &[u8]) -> (r: Option<[u8; 16]>)
    ensures
        match r {
            Some(kid) => header_kid(p@, 0) == Some(kid@),
            None => header_kid(p@, 0) is None,
        },
{
    let mut pos: usize = 0;
    while pos < p.len()
        invariant
            pos <= p@.len(),
            header_kid(p@, pos as int) == header_kid(p@, 0),
        decreases p@.len() - pos,
    {
        let tag: u8 = p[pos];
        if tag % 8 == 0 {
            let mut i: usize = pos + 1;
            while i < p.len() && p[i] >= 0x80
                invariant
                    pos < i <= p@.len(),
                    varint_end(p@, i as int) == varint_end(p@, pos + 1),
                decreases p@.len() - i,
            {
                i += 1;
            }
            if i < p.len() {
                i += 1;
            }
            if i >= p.len() {
                return None;
            }
            pos = i;
        } else if tag % 8 == 2 {
            if p.len() - pos < 2 {
                return None;
            }
            let len: usize = p[pos + 1] as usize;
            let left: usize = p.len() - pos - 2;
            if tag / 8 == 2 && len == 16 && left >= 16 {
                return Some(read_id(p, pos + 2));
            }
            if len >= left {
                return None;
            }
            pos = pos + 2 + len;
        } else {
            return None;
        }
    }
    None
}

/// The first key id of a Widevine `pssh` payload, the bytes behind the size and
/// type of the box.
pub fn extract_kid_from_widevine_pssh(payload: &[u8]) -> (r: Option<[u8; 16]>)
    ensures
        match r {
            Some(kid) => pssh_kid(payload@) == Some(kid@),
            None => pssh_kid(payload@) is None,
        },
{
    if !is_widevine_pssh(payload) || payload.len() < 24 {
        return None;
    }
    let n: u32 = read_be32(payload, 20);
    if payload[0] == 1 {
        if n > 0 && payload.len() >= 40 {
            return Some(read_id(payload, 24));
        }
        return None;
    }
    if ((payload.len() - 24) as u64) < n as u64 {
        return None;
    }
    let header = vstd::slice::slice_subrange(payload, 24, 24 + n as usize);
    find_header_kid(header)
}

/// Parses an init segment and returns its encryption parameters.
///
/// They come from the first track with a `tenc` box; where there is none, from
/// the first Widevine `pssh` box of `moov` that holds a key id, with an IV size of
/// 8 and the scheme `scheme_hint`. `Ok(None)` says that the segment is clear.
pub fn parse_init_segment(data: &[u8], scheme_hint: u32) -> (r: Result<
    Option<InitInfo>,
    Fmp4Error,
>)
    ensures
        match r {
            Ok(None) => init_info(data@, scheme_hint) == Ok::<Option<InitView>, Fmp4Error>(None),
            Ok(Some(info)) => init_info(data@, scheme_hint) == Ok::<Option<InitView>, Fmp4Error>(
                Some(info@),
            ),
            Err(e) => init_info(data@, scheme_hint) == Err::<Option<InitView>, Fmp4Error>(e),
        },
{
    let moov = match find_box(data, &MOOV) {
        Some(b) => b,
        None => return Ok(None),
    };
    let mut it = boxes(moov.payload);
    let mut more = true;
    while more
        invariant
            traks_info(it.remaining()) == traks_info(boxes::box_list(moov.payload@)),
            boxes::child(data@, MOOV@) == Some(moov@),
            !more ==> traks_info(boxes::box_list(moov.payload@)) == Ok::<Option<InitView>, Fmp4Error>(
                None,
            ),
        decreases it.remaining().len() + if more { 1int } else { 0 },
    {
        let ghost before = it.remaining();
        match it.next() {
            None => {
                more = false;
            },
            Some(b) => {
                assert(before.drop_first() =~= it.remaining());
                if same_type(&b.fourcc, &TRAK) {
                    match parse_trak_tenc(b.payload) {
                        Ok(None) => {},
                        r => return r,
                    }
                }
            },
        }
    }
    let mut it = boxes(moov.payload);
    loop
        invariant
            first_pssh_kid(it.remaining()) == first_pssh_kid(boxes::box_list(moov.payload@)),
            boxes::child(data@, MOOV@) == Some(moov@),
            traks_info(boxes::box_list(moov.payload@)) == Ok::<Option<InitView>, Fmp4Error>(None),
        decreases it.remaining().len(),
    {
        let ghost before = it.remaining();
        match it.next() {
            None => {
                return Ok(None);
            },
            Some(b) => {
                assert(before.drop_first() =~= it.remaining());
                if same_type(&b.fourcc, &PSSH) {
                    match extract_kid_from_widevine_pssh(b.payload) {
                        None => {},
                        Some(kid) => {
                            return Ok(
                                Some(
                                    InitInfo {
                                        default_kid: kid,
                                        default_iv_size: 8,
                                        encryption_scheme: scheme_hint,
                                    },
                                ),
                            );
                        },
                    }
                }
            },
        }
    }
}

/// The bytes of the first Widevine `pssh` box in a list of boxes of `s`.
pub open spec fn first_widevine(s: Seq<u8>, bs: Seq<BoxView>) -> Option<Seq<u8>>
    decreases bs.len(),
{
    if bs.len() == 0 {
        None
    } else if bs[0].fourcc == PSSH@ && is_widevine(bs[0].payload) {
        Some(boxes::raw_box(s, bs[0]))
    } else {
        first_widevine(s, bs.drop_first())
    }
}

/// The bytes of the first Widevine `pssh` box in `moov`.
pub open spec fn widevine_pssh(s: Seq<u8>) -> Option<Seq<u8>> {
    match boxes::child(s, MOOV@) {
        None => None,
        Some(moov) => first_widevine(moov.payload, boxes::box_list(moov.payload)),
    }
}

/// Extracts the whole Widevine `pssh` box from an init segment, verbatim, so that
/// it keeps whatever fields the license server needs.
pub fn extract_widevine_pssh(data: &[u8]) -> (r: Option<Vec<u8>>)
    ensures
        match r {
            Some(v) => widevine_pssh(data@) == Some(v@),
            None => widevine_pssh(data@) is None,
        },
{
    let moov = match find_box(data, &MOOV) {
        Some(b) => b,
        None => return None,
    };
    let mut it = boxes(moov.payload);
    loop
        invariant
            it.data() == moov.payload@,
            first_widevine(moov.payload@, it.remaining()) == first_widevine(
                moov.payload@,
                boxes::box_list(moov.payload@),
            ),
            boxes::child(data@, MOOV@) == Some(moov@),
        decreases it.remaining().len(),
    {
        let ghost before = it.remaining();
        match it.next() {
            None => {
                return None;
            },
            Some(b) => {
                assert(before.drop_first() =~= it.remaining());
                if same_type(&b.fourcc, &PSSH) && is_widevine_pssh(b.payload) {
                    return Some(copy_box(moov.payload, &b));
                }
            },
        }
    }
}

} // verus!
