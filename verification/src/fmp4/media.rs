//! Listing the samples of a media segment.

use crate::bytes;
use crate::bytes::{copy_bytes, read_be16, read_be24, read_be32, read_be64};
use crate::fmp4::boxes;
use crate::fmp4::boxes::{find_box, MDAT, MOOF, SENC, TFDT, TFHD, TRAF, TRUN};
use crate::fmp4::Fmp4Error;
use vstd::prelude::*;

verus! {

/// Encryption parameters of a sample: its IV, and how many clear and encrypted
/// bytes follow each other.
pub struct EncView {
    pub iv: Seq<u8>,
    pub subsamples: Seq<(u32, u32)>,
}

/// Where a sample lies in the `mdat` payload, and how it is encrypted.
pub struct SampleView {
    pub mdat_offset: int,
    pub size: int,
    pub enc: Option<EncView>,
    pub decode_time: int,
}

/// Encryption parameters of a single sample.
#[derive(Debug)]
pub struct SampleEncInfo {
    pub iv: Vec<u8>,
    /// Clear and encrypted byte counts.
    pub subsamples: Vec<(u32, u32)>,
}

impl View for SampleEncInfo {
    type V = EncView;

    open spec fn view(&self) -> EncView {
        EncView { iv: self.iv@, subsamples: self.subsamples@ }
    }
}

impl Clone for SampleEncInfo {
    fn clone(&self) -> (r: Self)
        ensures
            r@ == self@,
    {
        let mut subsamples: Vec<(u32, u32)> = Vec::new();
        let mut i: usize = 0;
        while i < self.subsamples.len()
            invariant
                i <= self.subsamples@.len(),
                subsamples@ == self.subsamples@.take(i as int),
            decreases self.subsamples@.len() - i,
        {
            subsamples.push(self.subsamples[i]);
            i += 1;
            assert(subsamples@ =~= self.subsamples@.take(i as int));
        }
        assert(subsamples@ =~= self.subsamples@);
        SampleEncInfo { iv: copy_bytes(self.iv.as_slice()), subsamples }
    }
}

/// A sample's position within `mdat` and its encryption parameters.
#[derive(Debug)]
pub struct SampleInfo {
    /// Byte offset from the start of the `mdat` payload.
    pub mdat_offset: usize,
    pub size: usize,
    /// `None` for a clear sample.
    pub enc: Option<SampleEncInfo>,
    pub decode_time: u64,
}

impl View for SampleInfo {
    type V = SampleView;

    open spec fn view(&self) -> SampleView {
        SampleView {
            mdat_offset: self.mdat_offset as int,
            size: self.size as int,
            enc: match self.enc {
                Some(e) => Some(e@),
                None => None,
            },
            decode_time: self.decode_time as int,
        }
    }
}

/// A parsed media segment.
pub struct ParsedSegment<'a> {
    pub samples: Vec<SampleInfo>,
    pub mdat_payload: &'a [u8],
    /// Byte offset of the `mdat` box within the segment.
    pub mdat_box_offset: usize,
    pub mdat_box_size: usize,
}

impl<'a> ParsedSegment<'a> {
    /// The samples.
    pub open spec fn sample_views(self) -> Seq<SampleView> {
        self.samples@.map_values(|x: SampleInfo| x@)
    }
}

/// Whether a flag, given by its place value, is set.
pub open spec fn has_flag(flags: int, place: int) -> bool {
    flags / place % 2 == 1
}

/// The sample sizes of a `trun` box from `at` on: at most `n` records of `record`
/// bytes each, as many as the payload holds, with the size `skip` bytes into its
/// record. Without a size field every size is 0.
pub open spec fn sizes_from(
    p: Seq<u8>,
    at: int,
    record: int,
    has_size: bool,
    skip: int,
    n: int,
) -> Seq<u32>
    decreases n,
{
    if n <= 0 || at + record > p.len() {
        Seq::empty()
    } else {
        seq![
            if has_size {
                bytes::be32(p, at + skip) as u32
            } else {
                0
            },
        ] + sizes_from(p, at + record, record, has_size, skip, n - 1)
    }
}

/// Size in bytes of the optional field announced by a flag.
pub open spec fn field_size(flags: int, place: int) -> int {
    if has_flag(flags, place) {
        4
    } else {
        0
    }
}

/// The sample sizes that a `trun` payload lists.
pub open spec fn trun_sizes(p: Seq<u8>) -> Result<Seq<u32>, Fmp4Error> {
    if p.len() < 8 {
        Err(Fmp4Error::TrunTooShort)
    } else {
        let flags = bytes::be24(p, 1);
        if has_flag(flags, 0x1) && p.len() < 12 {
            Err(Fmp4Error::TrunOffsetTruncated)
        } else {
            Ok(
                sizes_from(
                    p,
                    8 + field_size(flags, 0x1) + field_size(flags, 0x4),
                    field_size(flags, 0x100) + field_size(flags, 0x200) + field_size(flags, 0x400)
                        + field_size(flags, 0x800),
                    has_flag(flags, 0x200),
                    field_size(flags, 0x100),
                    bytes::be32(p, 4),
                ),
            )
        }
    }
}

/// A 32-bit number read as a signed one.
pub open spec fn signed32(n: int) -> int {
    if n < 0x8000_0000 {
        n
    } else {
        n - 0x1_0000_0000
    }
}

/// The data offset of a `trun` payload, 0 where it has none.
pub open spec fn trun_offset(p: Seq<u8>) -> int {
    if has_flag(bytes::be24(p, 1), 0x1) {
        signed32(bytes::be32(p, 8))
    } else {
        0
    }
}

/// The number of six-byte subsample records behind `at`, of the `n` announced.
pub open spec fn subsample_count(p: Seq<u8>, at: int, n: int) -> int {
    if n <= (p.len() - at) / 6 {
        n
    } else {
        (p.len() - at) / 6
    }
}

/// The subsample records behind `at`.
pub open spec fn subsamples_at(p: Seq<u8>, at: int, n: int) -> Seq<(u32, u32)> {
    Seq::new(
        subsample_count(p, at, n) as nat,
        |i: int| (bytes::be16(p, at + 6 * i) as u32, bytes::be32(p, at + 6 * i + 2) as u32),
    )
}

/// The records of a `senc` box from `at` on: at most `n` of them, as many as the
/// payload holds.
pub open spec fn senc_from(p: Seq<u8>, at: int, iv_size: int, has_subsamples: bool, n: int) -> Seq<
    EncView,
>
    decreases n,
{
    if n <= 0 || at + iv_size > p.len() {
        Seq::empty()
    } else {
        let iv = p.subrange(at, at + iv_size);
        let next = at + iv_size;
        if !has_subsamples {
            seq![EncView { iv, subsamples: Seq::empty() }] + senc_from(
                p,
                next,
                iv_size,
                has_subsamples,
                n - 1,
            )
        } else if next + 2 > p.len() {
            Seq::empty()
        } else {
            let k = bytes::be16(p, next);
            seq![EncView { iv, subsamples: subsamples_at(p, next + 2, k) }] + senc_from(
                p,
                next + 2 + 6 * subsample_count(p, next + 2, k),
                iv_size,
                has_subsamples,
                n - 1,
            )
        }
    }
}

/// The records of a `senc` payload, for at most `sample_count` samples.
pub open spec fn senc_infos(p: Seq<u8>, iv_size: int, sample_count: int) -> Result<
    Seq<EncView>,
    Fmp4Error,
> {
    if p.len() < 8 {
        Err(Fmp4Error::SencTooShort)
    } else {
        let cnt = bytes::be32(p, 4);
        Ok(
            senc_from(
                p,
                8,
                iv_size,
                has_flag(bytes::be24(p, 1), 0x2),
                if cnt < sample_count {
                    cnt
                } else {
                    sample_count
                },
            ),
        )
    }
}

/// The decode time that a `traf` payload starts at; 0 where it does not say.
pub open spec fn base_time(traf: Seq<u8>) -> int {
    match boxes::child(traf, TFDT@) {
        None => 0,
        Some(b) => if b.payload.len() >= 12 && b.payload[0] == 1 {
            bytes::be64(b.payload, 4)
        } else if b.payload.len() >= 8 {
            bytes::be32(b.payload, 4)
        } else {
            0
        },
    }
}

/// The sum of sizes.
pub open spec fn sum_sizes(sizes: Seq<u32>) -> int
    decreases sizes.len(),
{
    if sizes.len() == 0 {
        0
    } else {
        sum_sizes(sizes.drop_last()) + sizes.last()
    }
}

/// The samples: each starts where the one before it ends, carries the encryption
/// parameters of the same rank, and is decoded one tick later.
pub open spec fn samples_of(sizes: Seq<u32>, infos: Seq<EncView>, base: int) -> Seq<SampleView> {
    Seq::new(
        sizes.len(),
        |i: int|
            SampleView {
                mdat_offset: sum_sizes(sizes.take(i)),
                size: sizes[i] as int,
                enc: if i < infos.len() {
                    Some(infos[i])
                } else {
                    None
                },
                decode_time: (base + i) % 0x1_0000_0000_0000_0000,
            },
    )
}

/// The samples of a track fragment whose data box is there.
pub open spec fn traf_samples(traf: Seq<u8>, iv_size: int, has_mdat: bool) -> Result<
    Seq<SampleView>,
    Fmp4Error,
> {
    if boxes::child(traf, TFHD@) is None {
        Err(Fmp4Error::NoTfhd)
    } else {
        match boxes::child(traf, TRUN@) {
            None => Err(Fmp4Error::NoTrun),
            Some(trun) => match trun_sizes(trun.payload) {
                Err(e) => Err(e),
                Ok(sizes) => match (match boxes::child(traf, SENC@) {
                    None => Ok(Seq::empty()),
                    Some(senc) => senc_infos(senc.payload, iv_size, sizes.len() as int),
                }) {
                    Err(e) => Err(e),
                    Ok(infos) => if !has_mdat {
                        Err(Fmp4Error::NoMdat)
                    } else if sum_sizes(sizes) > usize::MAX {
                        Err(Fmp4Error::SampleOffsetOverflow)
                    } else {
                        Ok(samples_of(sizes, infos, base_time(traf)))
                    },
                },
            },
        }
    }
}

/// The samples of a media segment.
pub open spec fn media_samples(s: Seq<u8>, iv_size: int) -> Result<Seq<SampleView>, Fmp4Error> {
    match boxes::child(s, MOOF@) {
        None => Err(Fmp4Error::NoMoof),
        Some(moof) => match boxes::child(moof.payload, TRAF@) {
            None => Err(Fmp4Error::NoTraf),
            Some(traf) => traf_samples(traf.payload, iv_size, boxes::child(s, MDAT@) is Some),
        },
    }
}

fn parse_tfdt(traf_payload: &[u8]) -> (t: u64)
    ensures
        t == base_time(traf_payload@),
{
    match find_box(traf_payload, &TFDT) {
        None => 0,
        Some(b) => {
            let p = b.payload;
            if p.len() >= 12 && p[0] == 1 {
                read_be64(p, 4)
            } else if p.len() >= 8 {
                read_be32(p, 4) as u64
            } else {
                0
            }
        },
    }
}

/// The data offset and the sample sizes in a `trun` payload.
pub fn parse_trun(payload: &[u8]) -> (r: Result<(i32, Vec<u32>), Fmp4Error>)
    ensures
        match r {
            Ok((offset, v)) => {
                &&& offset == trun_offset(payload@)
                &&& trun_sizes(payload@) == Ok::<Seq<u32>, Fmp4Error>(v@)
            },
            Err(e) => trun_sizes(payload@) == Err::<Seq<u32>, Fmp4Error>(e),
        },
{
    if payload.len() < 8 {
        return Err(Fmp4Error::TrunTooShort);
    }
    let flags: u32 = read_be24(payload, 1);
    let sample_count: u32 = read_be32(payload, 4);
    let mut cursor: usize = 8;
    let mut offset: i32 = 0;
    if flags % 2 == 1 {
        if payload.len() < 12 {
            return Err(Fmp4Error::TrunOffsetTruncated);
        }
        let n: u32 = read_be32(payload, 8);
        offset = if n < 0x8000_0000 {
            n as i32
        } else {
            (n as i64 - 0x1_0000_0000) as i32
        };
        cursor += 4;
    }
    if flags / 0x4 % 2 == 1 {
        cursor += 4;
    }
    let has_size: bool = flags / 0x200 % 2 == 1;
    let skip: usize = if flags / 0x100 % 2 == 1 {
        4
    } else {
        0
    };
    let mut record: usize = skip;
    if has_size {
        record += 4;
    }
    if flags / 0x400 % 2 == 1 {
        record += 4;
    }
    if flags / 0x800 % 2 == 1 {
        record += 4;
    }
    let mut sizes: Vec<u32> = Vec::new();
    let mut left: u32 = sample_count;
    let ghost all = sizes_from(
        payload@,
        cursor as int,
        record as int,
        has_size,
        skip as int,
        left as int,
    );
    assert(sizes@ + all =~= all);
    while left > 0 && payload.len() >= record && cursor <= payload.len() - record
        invariant
            record <= 16,
            has_size ==> skip + 4 <= record,
            skip <= 4,
            sizes@ + sizes_from(
                payload@,
                cursor as int,
                record as int,
                has_size,
                skip as int,
                left as int,
            ) == all,
        decreases left,
    {
        let size: u32 = if has_size {
            read_be32(payload, cursor + skip)
        } else {
            0
        };
        let ghost rest = sizes_from(
            payload@,
            cursor + record,
            record as int,
            has_size,
            skip as int,
            left - 1,
        );
        assert(sizes@ + (seq![size] + rest) =~= sizes@.push(size) + rest);
        sizes.push(size);
        cursor += record;
        left -= 1;
    }
    assert(sizes@ + Seq::<u32>::empty() =~= sizes@);
    Ok((offset, sizes))
}

/// The subsample records behind `at`.
fn parse_subsamples(payload: &[u8], at: usize, n: u16) -> (r: Vec<(u32, u32)>)
    requires
        at <= payload@.len(),
    ensures
        r@ == subsamples_at(payload@, at as int, n as int),
        at + 6 * r@.len() <= payload@.len(),
{
    let mut subs: Vec<(u32, u32)> = Vec::new();
    let mut cursor: usize = at;
    let mut i: u16 = 0;
    while i < n && payload.len() - cursor >= 6
        invariant
            i <= n,
            cursor == at + 6 * i,
            cursor <= payload@.len(),
            subs@.len() == i,
            forall|j: int|
                0 <= j < i ==> subs@[j] == (
                    bytes::be16(payload@, at + 6 * j) as u32,
                    bytes::be32(payload@, at + 6 * j + 2) as u32,
                ),
        decreases n - i,
    {
        let clear: u16 = read_be16(payload, cursor);
        let cipher: u32 = read_be32(payload, cursor + 2);
        subs.push((clear as u32, cipher));
        cursor += 6;
        i += 1;
    }
    assert(subs@ =~= subsamples_at(payload@, at as int, n as int));
    subs
}

/// The per-sample records of a `senc` payload.
fn parse_senc(payload: &[u8], iv_size: u8, sample_count: usize) -> (r: Result<
    Vec<SampleEncInfo>,
    Fmp4Error,
>)
    ensures
        match r {
            Ok(v) => senc_infos(payload@, iv_size as int, sample_count as int) == Ok::<
                Seq<EncView>,
                Fmp4Error,
            >(v@.map_values(|x: SampleEncInfo| x@)),
            Err(e) => senc_infos(payload@, iv_size as int, sample_count as int) == Err::<
                Seq<EncView>,
                Fmp4Error,
            >(e),
        },
{
    if payload.len() < 8 {
        return Err(Fmp4Error::SencTooShort);
    }
    let flags: u32 = read_be24(payload, 1);
    let has_subsamples: bool = flags / 0x2 % 2 == 1;
    let cnt: u32 = read_be32(payload, 4);
    let mut left: u64 = if (cnt as u64) < sample_count as u64 {
        cnt as u64
    } else {
        sample_count as u64
    };
    let iv_len: usize = iv_size as usize;
    let mut cursor: usize = 8;
    let mut infos: Vec<SampleEncInfo> = Vec::new();
    let ghost view = |x: SampleEncInfo| x@;
    let ghost all = senc_from(payload@, 8, iv_size as int, has_subsamples, left as int);
    assert(infos@.map_values(view) + all =~= all);
    while left > 0
        invariant
            cursor <= payload@.len(),
            iv_len == iv_size,
            view == (|x: SampleEncInfo| x@),
            senc_infos(payload@, iv_size as int, sample_count as int) == Ok::<
                Seq<EncView>,
                Fmp4Error,
            >(all),
            infos@.map_values(view) + senc_from(
                payload@,
                cursor as int,
                iv_size as int,
                has_subsamples,
                left as int,
            ) == all,
        decreases left,
    {
        let ghost before = infos@;
        if payload.len() - cursor < iv_len {
            assert(infos@.map_values(view) + Seq::<EncView>::empty() =~= infos@.map_values(view));
            return Ok(infos);
        }
        let iv = copy_bytes(vstd::slice::slice_subrange(payload, cursor, cursor + iv_len));
        cursor += iv_len;
        let mut subsamples: Vec<(u32, u32)> = Vec::new();
        if has_subsamples {
            if payload.len() - cursor < 2 {
                assert(infos@.map_values(view) + Seq::<EncView>::empty() =~= infos@.map_values(
                    view,
                ));
                return Ok(infos);
            }
            let n: u16 = read_be16(payload, cursor);
            cursor += 2;
            subsamples = parse_subsamples(payload, cursor, n);
            cursor += 6 * subsamples.len();
        }
        let info = SampleEncInfo { iv, subsamples };
        left -= 1;
        let ghost rest = senc_from(
            payload@,
            cursor as int,
            iv_size as int,
            has_subsamples,
            left as int,
        );
        assert(info.subsamples@ =~= if has_subsamples {
            info.subsamples@
        } else {
            Seq::empty()
        });
        infos.push(info);
        assert(infos@.map_values(view) =~= before.map_values(view).push(info@));
        assert(before.map_values(view) + (seq![info@] + rest) =~= infos@.map_values(view) + rest);
    }
    assert(infos@.map_values(view) + Seq::<EncView>::empty() =~= infos@.map_values(view));
    Ok(infos)
}

/// Sums of prefixes grow.
proof fn sum_prefix(sizes: Seq<u32>, i: int)
    requires
        0 <= i <= sizes.len(),
    ensures
        0 <= sum_sizes(sizes.take(i)) <= sum_sizes(sizes),
        i < sizes.len() ==> sum_sizes(sizes.take(i + 1)) == sum_sizes(sizes.take(i)) + sizes[i],
    decreases sizes.len() - i,
{
    if i == sizes.len() {
        assert(sizes.take(i) =~= sizes);
        sum_nonneg(sizes);
    } else {
        assert(sizes.take(i + 1).drop_last() =~= sizes.take(i));
        sum_prefix(sizes, i + 1);
        sum_nonneg(sizes.take(i));
    }
}

proof fn sum_nonneg(sizes: Seq<u32>)
    ensures
        sum_sizes(sizes) >= 0,
    decreases sizes.len(),
{
    if sizes.len() > 0 {
        sum_nonneg(sizes.drop_last());
    }
}

/// Lays the samples out one after the other.
fn list_samples(sizes: &Vec<u32>, infos: &Vec<SampleEncInfo>, base: u64) -> (r: Result<
    Vec<SampleInfo>,
    Fmp4Error,
>)
    ensures
        match r {
            Ok(v) => sum_sizes(sizes@) <= usize::MAX && v@.map_values(|x: SampleInfo| x@)
                == samples_of(sizes@, infos@.map_values(|x: SampleEncInfo| x@), base as int),
            Err(e) => e == Fmp4Error::SampleOffsetOverflow && sum_sizes(sizes@) > usize::MAX,
        },
{
    let ghost all = samples_of(sizes@, infos@.map_values(|x: SampleEncInfo| x@), base as int);
    let mut samples: Vec<SampleInfo> = Vec::new();
    let mut offset: usize = 0;
    let mut i: usize = 0;
    assert(sizes@.take(0) =~= Seq::empty());
    while i < sizes.len()
        invariant
            i <= sizes@.len(),
            offset == sum_sizes(sizes@.take(i as int)),
            all == samples_of(sizes@, infos@.map_values(|x: SampleEncInfo| x@), base as int),
            samples@.len() == i,
            forall|j: int| 0 <= j < i ==> (#[trigger] samples@[j])@ == all[j],
        decreases sizes@.len() - i,
    {
        proof {
            sum_prefix(sizes@, i as int);
            sum_prefix(sizes@, i + 1);
        }
        let size: u32 = sizes[i];
        let enc: Option<SampleEncInfo> = if i < infos.len() {
            Some(infos[i].clone())
        } else {
            None
        };
        let sample = SampleInfo {
            mdat_offset: offset,
            size: size as usize,
            enc,
            decode_time: base.wrapping_add(i as u64),
        };
        assert(sample@ == all[i as int]);
        samples.push(sample);
        match offset.checked_add(size as usize) {
            Some(next) => {
                offset = next;
            },
            None => {
                return Err(Fmp4Error::SampleOffsetOverflow);
            },
        }
        i += 1;
    }
    assert(sizes@.take(i as int) =~= sizes@);
    assert(samples@.map_values(|x: SampleInfo| x@) =~= all);
    Ok(samples)
}

/// Parses a media segment. `iv_size` comes from the init segment.
pub fn parse_media_segment<'a>(data: &'a [u8], iv_size: u8) -> (r: Result<
    ParsedSegment<'a>,
    Fmp4Error,
>)
    ensures
        match r {
            Ok(p) => {
                &&& media_samples(data@, iv_size as int) == Ok::<Seq<SampleView>, Fmp4Error>(
                    p.sample_views(),
                )
                &&& boxes::child(data@, MDAT@) is Some
                &&& p.mdat_payload@ == (boxes::child(data@, MDAT@)->0).payload
                &&& p.mdat_box_offset == (boxes::child(data@, MDAT@)->0).offset
                &&& p.mdat_box_size == (boxes::child(data@, MDAT@)->0).total_size
                &&& p.mdat_box_offset + p.mdat_box_size <= data@.len()
            },
            Err(e) => media_samples(data@, iv_size as int) == Err::<Seq<SampleView>, Fmp4Error>(e),
        },
{
    let moof = match find_box(data, &MOOF) {
        Some(b) => b,
        None => return Err(Fmp4Error::NoMoof),
    };
    let traf = match find_box(moof.payload, &TRAF) {
        Some(b) => b,
        None => return Err(Fmp4Error::NoTraf),
    };
    if find_box(traf.payload, &TFHD).is_none() {
        return Err(Fmp4Error::NoTfhd);
    }
    let trun = match find_box(traf.payload, &TRUN) {
        Some(b) => b,
        None => return Err(Fmp4Error::NoTrun),
    };
    let base: u64 = parse_tfdt(traf.payload);
    let sizes = match parse_trun(trun.payload) {
        Ok((_, v)) => v,
        Err(e) => return Err(e),
    };
    let infos = match find_box(traf.payload, &SENC) {
        Some(senc) => match parse_senc(senc.payload, iv_size, sizes.len()) {
            Ok(v) => v,
            Err(e) => return Err(e),
        },
        None => Vec::new(),
    };
    let mdat = match find_box(data, &MDAT) {
        Some(b) => b,
        None => return Err(Fmp4Error::NoMdat),
    };
    proof {
        boxes::child_in_bounds(data@, MDAT@);
        let view = |x: SampleEncInfo| x@;
        if boxes::child(traf.payload@, SENC@) is None {
            assert(infos@.map_values(view) =~= Seq::<EncView>::empty());
        }
    }
    match list_samples(&sizes, &infos, base) {
        Ok(samples) => Ok(
            ParsedSegment {
                samples,
                mdat_payload: mdat.payload,
                mdat_box_offset: mdat.offset,
                mdat_box_size: mdat.total_size,
            },
        ),
        Err(e) => Err(e),
    }
}

} // verus!
