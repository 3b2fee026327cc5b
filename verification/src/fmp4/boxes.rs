//! Box types, and the reader of the boxes that a segment is made of.

use crate::bytes;
use crate::bytes::{copy_bytes, push_be32, push_bytes, read_be32, read_be64};
use vstd::prelude::*;

verus! {

pub const MOOV: [u8; 4] = [0x6d, 0x6f, 0x6f, 0x76];

pub const TRAK: [u8; 4] = [0x74, 0x72, 0x61, 0x6b];

pub const MDIA: [u8; 4] = [0x6d, 0x64, 0x69, 0x61];

pub const MINF: [u8; 4] = [0x6d, 0x69, 0x6e, 0x66];

pub const STBL: [u8; 4] = [0x73, 0x74, 0x62, 0x6c];

pub const STSD: [u8; 4] = [0x73, 0x74, 0x73, 0x64];

pub const SINF: [u8; 4] = [0x73, 0x69, 0x6e, 0x66];

pub const SCHI: [u8; 4] = [0x73, 0x63, 0x68, 0x69];

pub const SCHM: [u8; 4] = [0x73, 0x63, 0x68, 0x6d];

pub const FRMA: [u8; 4] = [0x66, 0x72, 0x6d, 0x61];

pub const TENC: [u8; 4] = [0x74, 0x65, 0x6e, 0x63];

pub const ENCV: [u8; 4] = [0x65, 0x6e, 0x63, 0x76];

pub const ENCA: [u8; 4] = [0x65, 0x6e, 0x63, 0x61];

pub const AVC1: [u8; 4] = [0x61, 0x76, 0x63, 0x31];

pub const MP4A: [u8; 4] = [0x6d, 0x70, 0x34, 0x61];

pub const CBCS: [u8; 4] = [0x63, 0x62, 0x63, 0x73];

pub const PSSH: [u8; 4] = [0x70, 0x73, 0x73, 0x68];

pub const MOOF: [u8; 4] = [0x6d, 0x6f, 0x6f, 0x66];

pub const TRAF: [u8; 4] = [0x74, 0x72, 0x61, 0x66];

pub const TFHD: [u8; 4] = [0x74, 0x66, 0x68, 0x64];

pub const TFDT: [u8; 4] = [0x74, 0x66, 0x64, 0x74];

pub const TRUN: [u8; 4] = [0x74, 0x72, 0x75, 0x6e];

pub const SENC: [u8; 4] = [0x73, 0x65, 0x6e, 0x63];

pub const SAIZ: [u8; 4] = [0x73, 0x61, 0x69, 0x7a];

pub const SAIO: [u8; 4] = [0x73, 0x61, 0x69, 0x6f];

pub const MDAT: [u8; 4] = [0x6d, 0x64, 0x61, 0x74];

/// Widevine system id.
pub const WV_SYSTEM_ID: [u8; 16] = [
    0xed, 0xef, 0x8b, 0xa9, 0x79, 0xd6, 0x4a, 0xce, 0xa3, 0xc8, 0x27, 0xdc, 0xd5, 0x1d, 0x21, 0xed,
];

/// A box: its type, its payload, and where it lies in the buffer that holds it.
pub struct BoxView {
    pub fourcc: Seq<u8>,
    pub payload: Seq<u8>,
    pub offset: int,
    pub total_size: int,
}

/// The box that starts at `pos`. A size of 1 announces a 64-bit size, a size of 0
/// reaches to the end of the buffer; there is no box where the header is cut off,
/// or where the size is smaller than the header or runs past the end.
pub open spec fn box_at(s: Seq<u8>, pos: int) -> Option<BoxView> {
    if pos + 8 > s.len() {
        None
    } else {
        let size32 = bytes::be32(s, pos);
        if size32 == 1 && pos + 16 > s.len() {
            None
        } else {
            let header: int = if size32 == 1 { 16 } else { 8 };
            let total = if size32 == 1 {
                bytes::be64(s, pos + 8)
            } else if size32 == 0 {
                s.len() - pos
            } else {
                size32
            };
            if total < header || pos + total > s.len() {
                None
            } else {
                Some(
                    BoxView {
                        fourcc: s.subrange(pos + 4, pos + 8),
                        payload: s.subrange(pos + header, pos + total),
                        offset: pos,
                        total_size: total,
                    },
                )
            }
        }
    }
}

/// The boxes from `pos` on, up to the first place where no box starts.
pub open spec fn box_list_from(s: Seq<u8>, pos: int) -> Seq<BoxView>
    decreases s.len() - pos,
{
    match box_at(s, pos) {
        None => Seq::empty(),
        Some(b) => seq![b] + box_list_from(s, pos + b.total_size),
    }
}

/// The boxes that `s` is made of.
pub open spec fn box_list(s: Seq<u8>) -> Seq<BoxView> {
    box_list_from(s, 0)
}

/// The first box of type `fourcc` in a list of boxes.
pub open spec fn first_of(bs: Seq<BoxView>, fourcc: Seq<u8>) -> Option<BoxView>
    decreases bs.len(),
{
    if bs.len() == 0 {
        None
    } else if bs[0].fourcc == fourcc {
        Some(bs[0])
    } else {
        first_of(bs.drop_first(), fourcc)
    }
}

/// The first child box of type `fourcc` in `s`.
pub open spec fn child(s: Seq<u8>, fourcc: Seq<u8>) -> Option<BoxView> {
    first_of(box_list(s), fourcc)
}

/// Every box of a list lies inside the buffer, behind the place where the list
/// starts, with its payload at its end.
pub proof fn boxes_in_bounds(s: Seq<u8>, pos: int, i: int)
    requires
        0 <= pos,
        0 <= i < box_list_from(s, pos).len(),
    ensures
        pos <= box_list_from(s, pos)[i].offset,
        box_list_from(s, pos)[i].offset + box_list_from(s, pos)[i].total_size <= s.len(),
        box_list_from(s, pos)[i].payload.len() + 8 <= box_list_from(s, pos)[i].total_size,
        box_at(s, box_list_from(s, pos)[i].offset) == Some(box_list_from(s, pos)[i]),
    decreases s.len() - pos,
{
    let b = box_at(s, pos)->0;
    if i > 0 {
        boxes_in_bounds(s, pos + b.total_size, i - 1);
    }
}

/// The first box of a type is one of the list.
pub proof fn first_of_is_member(bs: Seq<BoxView>, fourcc: Seq<u8>) -> (i: int)
    requires
        first_of(bs, fourcc) is Some,
    ensures
        0 <= i < bs.len(),
        bs[i] == first_of(bs, fourcc)->0,
        bs[i].fourcc == fourcc,
        forall|j: int| 0 <= j < i ==> (#[trigger] bs[j]).fourcc != fourcc,
    decreases bs.len(),
{
    if bs[0].fourcc == fourcc {
        0
    } else {
        let k = first_of_is_member(bs.drop_first(), fourcc);
        assert forall|j: int| 0 <= j < k + 1 implies (#[trigger] bs[j]).fourcc != fourcc by {
            if j > 0 {
                assert(bs.drop_first()[j - 1] == bs[j]);
            }
        }
        k + 1
    }
}

/// A child box lies inside the buffer.
pub proof fn child_in_bounds(s: Seq<u8>, fourcc: Seq<u8>)
    requires
        child(s, fourcc) is Some,
    ensures
        0 <= (child(s, fourcc)->0).offset,
        (child(s, fourcc)->0).offset + (child(s, fourcc)->0).total_size <= s.len(),
        (child(s, fourcc)->0).payload.len() + 8 <= (child(s, fourcc)->0).total_size,
{
    let i = first_of_is_member(box_list(s), fourcc);
    boxes_in_bounds(s, 0, i);
}

/// The bytes of box `b` of `s`, header and all.
pub open spec fn raw_box(s: Seq<u8>, b: BoxView) -> Seq<u8> {
    s.subrange(b.offset, b.offset + b.total_size)
}

/// A box: its type, its payload, and where it lies in the buffer that holds it.
#[derive(Clone, Copy)]
pub struct BoxRef<'a> {
    pub fourcc: [u8; 4],
    pub payload: &'a [u8],
    /// Byte offset of this box's first byte within the buffer.
    pub offset: usize,
    /// Total size including the header.
    pub total_size: usize,
}

impl<'a> View for BoxRef<'a> {
    type V = BoxView;

    open spec fn view(&self) -> BoxView {
        BoxView {
            fourcc: self.fourcc@,
            payload: self.payload@,
            offset: self.offset as int,
            total_size: self.total_size as int,
        }
    }
}

/// A walk over the boxes of a buffer.
pub struct BoxIter<'a> {
    data: &'a [u8],
    pos: usize,
}

impl<'a> BoxIter<'a> {
    /// The buffer that is walked.
    pub closed spec fn data(self) -> Seq<u8> {
        self.data@
    }

    /// How far the walk has come.
    pub closed spec fn position(self) -> int {
        self.pos as int
    }

    /// The boxes still to come.
    pub open spec fn remaining(self) -> Seq<BoxView> {
        box_list_from(self.data(), self.position())
    }

    /// The next box, if there is one.
    pub fn next(&mut self) -> (r: Option<BoxRef<'a>>)
        ensures
            final(self).data() == old(self).data(),
            match r {
                Some(b) => {
                    &&& box_at(old(self).data(), old(self).position()) == Some(b@)
                    &&& final(self).position() == old(self).position() + b.total_size
                    &&& old(self).remaining() == seq![b@] + final(self).remaining()
                    &&& b.offset + b.total_size <= old(self).data().len()
                    &&& b.payload@.len() + 8 <= b.total_size
                },
                None => {
                    &&& box_at(old(self).data(), old(self).position()) is None
                    &&& old(self).remaining().len() == 0
                    &&& *final(self) == *old(self)
                },
            },
    {
        let start: usize = self.pos;
        let len: usize = self.data.len();
        if len < 8 || start > len - 8 {
            return None;
        }
        let size32: u32 = read_be32(self.data, start);
        let fourcc: [u8; 4] = [
            self.data[start + 4],
            self.data[start + 5],
            self.data[start + 6],
            self.data[start + 7],
        ];
        let left: usize = len - start;
        let mut header: usize = 8;
        let mut total: u64 = size32 as u64;
        if size32 == 1 {
            if left < 16 {
                return None;
            }
            header = 16;
            total = read_be64(self.data, start + 8);
        } else if size32 == 0 {
            total = left as u64;
        }
        if total < header as u64 || total > left as u64 {
            return None;
        }
        let total_size: usize = total as usize;
        let payload: &'a [u8] = vstd::slice::slice_subrange(
            self.data,
            start + header,
            start + total_size,
        );
        self.pos = start + total_size;
        proof {
            assert(fourcc@ =~= self.data@.subrange(start + 4, start + 8));
        }
        Some(BoxRef { fourcc, payload, offset: start, total_size })
    }
}

/// Walks the top-level boxes of `data`.
pub fn boxes(data: &[u8]) -> (it: BoxIter<'_>)
    ensures
        it.data() == data@,
        it.position() == 0,
{
    BoxIter { data, pos: 0 }
}

/// Whether two box types are the same.
pub fn same_type(a: &[u8; 4], b: &[u8; 4]) -> (r: bool)
    ensures
        r == (a@ == b@),
{
    let r: bool = a[0] == b[0] && a[1] == b[1] && a[2] == b[2] && a[3] == b[3];
    assert(r ==> a@ =~= b@);
    r
}

/// The first child box of type `fourcc` in `container`.
pub fn find_box<'a>(container: &'a [u8], fourcc: &[u8; 4]) -> (r: Option<BoxRef<'a>>)
    ensures
        match r {
            Some(b) => child(container@, fourcc@) == Some(b@),
            None => child(container@, fourcc@) is None,
        },
{
    let mut it = boxes(container);
    loop
        invariant
            first_of(it.remaining(), fourcc@) == child(container@, fourcc@),
        decreases it.remaining().len(),
    {
        let ghost before = it.remaining();
        match it.next() {
            None => {
                return None;
            },
            Some(b) => {
                proof {
                    assert(before.drop_first() =~= it.remaining());
                }
                if same_type(&b.fourcc, fourcc) {
                    return Some(b);
                }
            },
        }
    }
}

/// Whether boxes of this type hold boxes that a search descends into.
pub open spec fn is_container(fourcc: Seq<u8>) -> bool {
    ||| fourcc == MOOV@
    ||| fourcc == TRAK@
    ||| fourcc == MDIA@
    ||| fourcc == MINF@
    ||| fourcc == STBL@
    ||| fourcc == STSD@
    ||| fourcc == SINF@
    ||| fourcc == SCHI@
    ||| fourcc == ENCV@
    ||| fourcc == ENCA@
    ||| fourcc == AVC1@
    ||| fourcc == MP4A@
}

fn is_container_type(t: &[u8; 4]) -> (r: bool)
    ensures
        r == is_container(t@),
{
    same_type(t, &MOOV) || same_type(t, &TRAK) || same_type(t, &MDIA) || same_type(t, &MINF)
        || same_type(t, &STBL) || same_type(t, &STSD) || same_type(t, &SINF) || same_type(t, &SCHI)
        || same_type(t, &ENCV) || same_type(t, &ENCA) || same_type(t, &AVC1) || same_type(t, &MP4A)
}

/// The first box of type `fourcc` from `pos` on, depth first: a container's own
/// boxes come before the boxes behind it.
pub open spec fn deep_first_from(s: Seq<u8>, pos: int, fourcc: Seq<u8>) -> Option<BoxView>
    decreases s.len(), s.len() - pos,
{
    match box_at(s, pos) {
        None => None,
        Some(b) => if b.fourcc == fourcc {
            Some(b)
        } else if is_container(b.fourcc) && b.payload.len() < s.len() && deep_first_from(
            b.payload,
            0,
            fourcc,
        ) is Some {
            deep_first_from(b.payload, 0, fourcc)
        } else {
            deep_first_from(s, pos + b.total_size, fourcc)
        },
    }
}

/// Searches the known container boxes for a box type, depth first.
///
/// Only container types are descended into, so that leaf payloads are not taken
/// for streams of boxes. The offset of the box found is relative to the payload
/// that holds it.
pub fn find_box_in_init<'a>(data: &'a [u8], fourcc: &[u8; 4]) -> (r: Option<BoxRef<'a>>)
    ensures
        match r {
            Some(b) => deep_first_from(data@, 0, fourcc@) == Some(b@),
            None => deep_first_from(data@, 0, fourcc@) is None,
        },
    decreases data@.len(),
{
    let mut it = boxes(data);
    loop
        invariant
            it.data() == data@,
            deep_first_from(data@, it.position(), fourcc@) == deep_first_from(data@, 0, fourcc@),
        decreases it.remaining().len(),
    {
        match it.next() {
            None => {
                return None;
            },
            Some(b) => {
                if same_type(&b.fourcc, fourcc) {
                    return Some(b);
                }
                if is_container_type(&b.fourcc) {
                    let found = find_box_in_init(b.payload, fourcc);
                    if found.is_some() {
                        return found;
                    }
                }
            },
        }
    }
}

/// The box reached by `path`, one type after the other, each the first of its
/// type in the payload of the box before it. An empty path reaches nothing.
pub open spec fn box_on_path(s: Seq<u8>, path: Seq<&[u8; 4]>) -> Option<BoxView>
    decreases path.len(),
{
    if path.len() == 0 {
        None
    } else {
        match child(s, path[0]@) {
            None => None,
            Some(b) => if path.len() == 1 {
                Some(b)
            } else {
                box_on_path(b.payload, path.drop_first())
            },
        }
    }
}

/// Finds a box by its path.
pub fn find_box_path<'a>(data: &'a [u8], path: &[&[u8; 4]]) -> (r: Option<BoxRef<'a>>)
    ensures
        match r {
            Some(b) => box_on_path(data@, path@) == Some(b@),
            None => box_on_path(data@, path@) is None,
        },
{
    let mut cur = data;
    let mut i: usize = 0;
    assert(path@.skip(0) =~= path@);
    loop
        invariant
            i <= path@.len(),
            i == path@.len() ==> path@.len() == 0,
            box_on_path(cur@, path@.skip(i as int)) == box_on_path(data@, path@),
        decreases path@.len() - i,
    {
        if i == path.len() {
            return None;
        }
        proof {
            assert(path@.skip(i as int).drop_first() =~= path@.skip(i + 1));
        }
        match find_box(cur, path[i]) {
            None => {
                return None;
            },
            Some(b) => {
                if i + 1 == path.len() {
                    return Some(b);
                }
                cur = b.payload;
                i += 1;
            },
        }
    }
}

/// Copies the bytes of box `b` of `s`.
pub fn copy_box(s: &[u8], b: &BoxRef) -> (v: Vec<u8>)
    requires
        b.offset + b.total_size <= s@.len(),
    ensures
        v@ == raw_box(s@, b@),
{
    assert(s.len() == s@.len());
    copy_bytes(vstd::slice::slice_subrange(s, b.offset, b.offset + b.total_size))
}

/// What `f` makes of each box of a list, one after the other.
pub open spec fn concat_boxes(bs: Seq<BoxView>, f: spec_fn(BoxView) -> Seq<u8>) -> Seq<u8>
    decreases bs.len(),
{
    if bs.len() == 0 {
        Seq::empty()
    } else {
        f(bs[0]) + concat_boxes(bs.drop_first(), f)
    }
}

/// One step of a rewriting loop: what was written, and what is left to write.
pub proof fn concat_step(
    out: Seq<u8>,
    bs: Seq<BoxView>,
    rest: Seq<BoxView>,
    f: spec_fn(BoxView) -> Seq<u8>,
)
    requires
        bs.len() > 0,
        bs == seq![bs[0]] + rest,
    ensures
        out + concat_boxes(bs, f) == (out + f(bs[0])) + concat_boxes(rest, f),
{
    assert(bs.drop_first() =~= rest);
    assert(out + (f(bs[0]) + concat_boxes(rest, f)) =~= (out + f(bs[0])) + concat_boxes(rest, f));
}

/// A box with a 32-bit size. A size that does not fit is taken modulo 2^32.
pub open spec fn iso_box(fourcc: Seq<u8>, payload: Seq<u8>) -> Seq<u8> {
    bytes::be32_bytes(8 + payload.len() as int) + fourcc + payload
}

/// Appends a box with the given type and payload.
pub fn push_iso_box(out: &mut Vec<u8>, fourcc: &[u8; 4], payload: &[u8])
    ensures
        final(out)@ == old(out)@ + iso_box(fourcc@, payload@),
{
    let total: u128 = 8 + payload.len() as u128;
    let size: u32 = (total % 0x1_0000_0000) as u32;
    proof {
        bytes::be32_bytes_mod(total as int);
    }
    push_be32(out, size);
    push_bytes(out, fourcc.as_slice());
    push_bytes(out, payload);
    assert(out@ =~= old(out)@ + iso_box(fourcc@, payload@));
}

/// Appends the bytes of box `b` of `s`.
pub fn push_box(out: &mut Vec<u8>, s: &[u8], b: &BoxRef)
    requires
        b.offset + b.total_size <= s@.len(),
    ensures
        final(out)@ == old(out)@ + raw_box(s@, b@),
{
    assert(s.len() == s@.len());
    push_bytes(out, vstd::slice::slice_subrange(s, b.offset, b.offset + b.total_size));
}

} // verus!
