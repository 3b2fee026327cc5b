//! What a media segment that was written in one way or another reads back as.

use crate::bytes;
use crate::fmp4::box_laws;
use crate::fmp4::boxes::{MDAT, MOOF, SENC, TFDT, TFHD, TRAF, TRUN};
use crate::fmp4::media;
use crate::fmp4::media::EncView;
use crate::fmp4::Fmp4Error;
use vstd::prelude::*;

verus! {

/// The two big-endian bytes of a number.
pub open spec fn be16_bytes(n: int) -> Seq<u8> {
    seq![(n / 0x100) as u8, (n % 0x100) as u8]
}

/// A number that was written in four bytes is read where they stand.
pub proof fn be32_is_read(p: Seq<u8>, at: int, n: int)
    requires
        0 <= at,
        at + 4 <= p.len(),
        p.subrange(at, at + 4) == bytes::be32_bytes(n),
        0 <= n < 0x1_0000_0000,
    ensures
        bytes::be32(p, at) == n,
{
    let x = bytes::be32_bytes(n);
    let w = p.subrange(at, at + 4);
    bytes::be32_round_trip(n, Seq::empty());
    assert(x + Seq::empty() =~= x);
    assert(w[0] == p[at] && w[1] == p[at + 1] && w[2] == p[at + 2] && w[3] == p[at + 3]);
}

/// A number that was written in two bytes is read where they stand.
pub proof fn be16_is_read(p: Seq<u8>, at: int, n: int)
    requires
        0 <= at,
        at + 2 <= p.len(),
        p.subrange(at, at + 2) == be16_bytes(n),
        0 <= n < 0x1_0000,
    ensures
        bytes::be16(p, at) == n,
{
    let w = p.subrange(at, at + 2);
    assert(w[0] == p[at] && w[1] == p[at + 1]);
}

// ---------------------------------------------------------------------------
// Encryption parameters of the samples
// ---------------------------------------------------------------------------

/// Subsamples, six bytes each: clear bytes, then encrypted bytes.
pub open spec fn subsample_bytes(subs: Seq<(u32, u32)>) -> Seq<u8>
    decreases subs.len(),
{
    if subs.len() == 0 {
        Seq::empty()
    } else {
        be16_bytes(subs[0].0 as int) + bytes::be32_bytes(subs[0].1 as int) + subsample_bytes(
            subs.drop_first(),
        )
    }
}

/// The record of one sample: its IV and, where there are any, the number of its subsamples
/// and these.
pub open spec fn senc_record(info: EncView, has_subsamples: bool) -> Seq<u8> {
    if has_subsamples {
        info.iv + be16_bytes(info.subsamples.len() as int) + subsample_bytes(info.subsamples)
    } else {
        info.iv
    }
}

/// The records of samples, one after the other.
pub open spec fn senc_records(infos: Seq<EncView>, has_subsamples: bool) -> Seq<u8>
    decreases infos.len(),
{
    if infos.len() == 0 {
        Seq::empty()
    } else {
        senc_record(infos[0], has_subsamples) + senc_records(infos.drop_first(), has_subsamples)
    }
}

/// A `senc` payload: version and flags, the number of records, the records.
pub open spec fn senc_payload(version: u8, infos: Seq<EncView>, has_subsamples: bool) -> Seq<u8> {
    seq![
        version,
        0,
        0,
        if has_subsamples {
            2u8
        } else {
            0u8
        },
    ] + bytes::be32_bytes(infos.len() as int) + senc_records(infos, has_subsamples)
}

/// Whether a record can be written: its IV has the size that is announced, and its
/// subsamples fit their fields.
pub open spec fn fits_senc(info: EncView, iv_size: int, has_subsamples: bool) -> bool {
    &&& info.iv.len() == iv_size
    &&& if has_subsamples {
        &&& info.subsamples.len() < 0x1_0000
        &&& forall|i: int| 0 <= i < info.subsamples.len() ==> (#[trigger] info.subsamples[i]).0
            < 0x1_0000
    } else {
        info.subsamples.len() == 0
    }
}

#[verifier::rlimit(80)]
#[verifier::spinoff_prover]
proof fn subsample_is_at(pre: Seq<u8>, subs: Seq<(u32, u32)>, rest: Seq<u8>, i: int)
    requires
        0 <= i < subs.len(),
        forall|k: int| 0 <= k < subs.len() ==> (#[trigger] subs[k]).0 < 0x1_0000,
    ensures
        subsample_bytes(subs).len() == 6 * subs.len(),
        ({
            let p = pre + subsample_bytes(subs) + rest;
            &&& bytes::be16(p, pre.len() + 6 * i) == subs[i].0
            &&& bytes::be32(p, pre.len() + 6 * i + 2) == subs[i].1
        }),
    decreases subs.len(),
{
    let a = be16_bytes(subs[0].0 as int);
    let b = bytes::be32_bytes(subs[0].1 as int);
    let tail = subs.drop_first();
    let more = subsample_bytes(tail);
    let p = pre + subsample_bytes(subs) + rest;
    let n = pre.len() as int;
    subsample_len(subs);
    assert forall|k: int| 0 <= k < tail.len() implies (#[trigger] tail[k]).0 < 0x1_0000 by {
        assert(tail[k] == subs[k + 1]);
    }
    if i == 0 {
        assert(subs[0].0 < 0x1_0000);
        assert(p.subrange(n, n + 2) =~= a);
        assert(p.subrange(n + 2, n + 6) =~= b);
        be16_is_read(p, n, subs[0].0 as int);
        be32_is_read(p, n + 2, subs[0].1 as int);
    } else {
        subsample_is_at(pre + a + b, tail, rest, i - 1);
        assert(p =~= (pre + a + b) + more + rest);
    }
}

proof fn subsample_len(subs: Seq<(u32, u32)>)
    ensures
        subsample_bytes(subs).len() == 6 * subs.len(),
    decreases subs.len(),
{
    if subs.len() > 0 {
        subsample_len(subs.drop_first());
    }
}

/// One record, read where it stands.
#[verifier::rlimit(80)]
#[verifier::spinoff_prover]
proof fn record_is_read(pre: Seq<u8>, info: EncView, behind: Seq<u8>, iv_size: int)
    requires
        0 <= iv_size,
        fits_senc(info, iv_size, true),
    ensures
        ({
            let p = pre + senc_record(info, true) + behind;
            let next = pre.len() + iv_size;
            let k = info.subsamples.len() as int;
            &&& p.len() >= next + 2 + 6 * k
            &&& p.subrange(pre.len() as int, next) == info.iv
            &&& bytes::be16(p, next) == k
            &&& media::subsample_count(p, next + 2, k) == k
            &&& media::subsamples_at(p, next + 2, k) == info.subsamples
            &&& senc_record(info, true).len() == iv_size + 2 + 6 * k
        }),
{
    let p = pre + senc_record(info, true) + behind;
    let at = pre.len() as int;
    let next = at + iv_size;
    let k = info.subsamples.len() as int;
    let head = be16_bytes(k);
    let subs = subsample_bytes(info.subsamples);
    subsample_len(info.subsamples);
    let front = pre + info.iv + head;
    assert(p =~= front + subs + behind);
    assert(p.subrange(at, next) =~= info.iv);
    assert(p.subrange(next, next + 2) =~= head);
    be16_is_read(p, next, k);
    assert forall|i: int| 0 <= i < k implies media::subsamples_at(p, next + 2, k)[i]
        == info.subsamples[i] by {
        subsample_is_at(front, info.subsamples, behind, i);
    }
    assert(media::subsamples_at(p, next + 2, k) =~= info.subsamples);
}

#[verifier::rlimit(80)]
#[verifier::spinoff_prover]
proof fn records_are_read(
    pre: Seq<u8>,
    infos: Seq<EncView>,
    rest: Seq<u8>,
    iv_size: int,
    has_subsamples: bool,
    n: int,
)
    requires
        0 <= n <= infos.len(),
        0 <= iv_size,
        forall|i: int|
            0 <= i < infos.len() ==> fits_senc(#[trigger] infos[i], iv_size, has_subsamples),
    ensures
        media::senc_from(
            pre + senc_records(infos, has_subsamples) + rest,
            pre.len() as int,
            iv_size,
            has_subsamples,
            n,
        ) == infos.take(n),
    decreases n,
{
    let p = pre + senc_records(infos, has_subsamples) + rest;
    let at = pre.len() as int;
    if n == 0 {
        assert(infos.take(0) =~= Seq::empty());
    } else {
        let info = infos[0];
        let tail = infos.drop_first();
        let rec = senc_record(info, has_subsamples);
        let more = senc_records(tail, has_subsamples);
        assert(fits_senc(infos[0], iv_size, has_subsamples));
        assert forall|i: int| 0 <= i < tail.len() implies fits_senc(
            #[trigger] tail[i],
            iv_size,
            has_subsamples,
        ) by {
            assert(tail[i] == infos[i + 1]);
        }
        records_are_read(pre + rec, tail, rest, iv_size, has_subsamples, n - 1);
        assert(p =~= (pre + rec) + more + rest);
        assert(p =~= pre + rec + (more + rest));
        let later = tail.take(n - 1);
        if has_subsamples {
            record_is_read(pre, info, more + rest, iv_size);
        } else {
            assert(p.subrange(at, at + iv_size) =~= info.iv);
            assert(info.subsamples =~= Seq::empty());
        }
        assert(media::senc_from(p, at, iv_size, has_subsamples, n) == seq![info] + later);
        assert(seq![info] + later =~= infos.take(n));
    }
}

/// The encryption parameters that were written for samples are read back, each sample's own,
/// whether they are whole samples or subsamples; for no more samples than there are, and
/// whatever stands behind.
pub proof fn written_senc_reads_back(
    version: u8,
    infos: Seq<EncView>,
    has_subsamples: bool,
    rest: Seq<u8>,
    iv_size: int,
    sample_count: int,
)
    requires
        0 <= iv_size,
        0 <= sample_count,
        infos.len() < 0x1_0000_0000,
        forall|i: int|
            0 <= i < infos.len() ==> fits_senc(#[trigger] infos[i], iv_size, has_subsamples),
    ensures
        media::senc_infos(
            senc_payload(version, infos, has_subsamples) + rest,
            iv_size,
            sample_count,
        ) == Ok::<Seq<EncView>, Fmp4Error>(
            infos.take(
                if sample_count < infos.len() {
                    sample_count
                } else {
                    infos.len() as int
                },
            ),
        ),
{
    let head = seq![
        version,
        0,
        0,
        if has_subsamples {
            2u8
        } else {
            0u8
        },
    ];
    let count = bytes::be32_bytes(infos.len() as int);
    let p = senc_payload(version, infos, has_subsamples) + rest;
    assert(p =~= (head + count) + senc_records(infos, has_subsamples) + rest);
    assert(p.subrange(4, 8) =~= count);
    be32_is_read(p, 4, infos.len() as int);
    assert(p[1] == head[1] && p[2] == head[2] && p[3] == head[3]);
    assert(bytes::be24(p, 1) == head[3]);
    records_are_read(
        head + count,
        infos,
        rest,
        iv_size,
        has_subsamples,
        if sample_count < infos.len() {
            sample_count
        } else {
            infos.len() as int
        },
    );
}

/// Whole records are read one after the other, and what stands behind them next.
#[verifier::rlimit(80)]
#[verifier::spinoff_prover]
proof fn records_then_the_rest(
    pre: Seq<u8>,
    infos: Seq<EncView>,
    rest: Seq<u8>,
    iv_size: int,
    has_subsamples: bool,
    n: int,
)
    requires
        infos.len() <= n,
        0 <= iv_size,
        forall|i: int|
            0 <= i < infos.len() ==> fits_senc(#[trigger] infos[i], iv_size, has_subsamples),
    ensures
        ({
            let front = pre + senc_records(infos, has_subsamples);
            media::senc_from(front + rest, pre.len() as int, iv_size, has_subsamples, n) == infos
                + media::senc_from(
                front + rest,
                front.len() as int,
                iv_size,
                has_subsamples,
                n - infos.len(),
            )
        }),
    decreases infos.len(),
{
    let front = pre + senc_records(infos, has_subsamples);
    let p = front + rest;
    let at = pre.len() as int;
    let last = media::senc_from(p, front.len() as int, iv_size, has_subsamples, n - infos.len());
    if infos.len() == 0 {
        assert(front =~= pre);
        assert(infos + last =~= last);
    } else {
        let info = infos[0];
        let tail = infos.drop_first();
        let rec = senc_record(info, has_subsamples);
        let more = senc_records(tail, has_subsamples);
        assert(fits_senc(infos[0], iv_size, has_subsamples));
        assert forall|i: int| 0 <= i < tail.len() implies fits_senc(
            #[trigger] tail[i],
            iv_size,
            has_subsamples,
        ) by {
            assert(tail[i] == infos[i + 1]);
        }
        records_then_the_rest(pre + rec, tail, rest, iv_size, has_subsamples, n - 1);
        assert(front =~= (pre + rec) + more);
        assert(p =~= pre + rec + (more + rest));
        if has_subsamples {
            record_is_read(pre, info, more + rest, iv_size);
        } else {
            assert(p.subrange(at, at + iv_size) =~= info.iv);
            assert(info.subsamples =~= Seq::empty());
        }
        assert(media::senc_from(p, at, iv_size, has_subsamples, n) == seq![info] + (tail + last));
        assert(seq![info] + (tail + last) =~= infos + last);
    }
}

/// The head of a `senc` payload: version, flags, and the number of records.
pub open spec fn senc_head(version: u8, count: int, has_subsamples: bool) -> Seq<u8> {
    seq![
        version,
        0,
        0,
        if has_subsamples {
            2u8
        } else {
            0u8
        },
    ] + bytes::be32_bytes(count)
}

proof fn senc_head_is_read(
    version: u8,
    count: int,
    has_subsamples: bool,
    rest: Seq<u8>,
    iv_size: int,
    sample_count: int,
)
    requires
        0 <= count <= sample_count,
        count < 0x1_0000_0000,
    ensures
        media::senc_infos(
            senc_head(version, count, has_subsamples) + rest,
            iv_size,
            sample_count,
        ) == Ok::<Seq<EncView>, Fmp4Error>(
            media::senc_from(
                senc_head(version, count, has_subsamples) + rest,
                8,
                iv_size,
                has_subsamples,
                count,
            ),
        ),
{
    let head = senc_head(version, count, has_subsamples);
    let p = head + rest;
    assert(p.subrange(4, 8) =~= bytes::be32_bytes(count));
    be32_is_read(p, 4, count);
    assert(p[1] == 0 && p[2] == 0 && p[3] == head[3]);
    assert(bytes::be24(p, 1) == head[3]);
}

/// Encryption parameters that are cut off are read as far as they go: the records that are
/// whole, and nothing of one whose IV, or whose number of subsamples, is cut.
#[verifier::rlimit(80)]
#[verifier::spinoff_prover]
pub proof fn cut_off_senc_gives_its_whole_records(
    version: u8,
    infos: Seq<EncView>,
    has_subsamples: bool,
    cut: Seq<u8>,
    iv_size: int,
    count: int,
    sample_count: int,
)
    requires
        0 <= iv_size,
        infos.len() <= count <= sample_count,
        count < 0x1_0000_0000,
        forall|i: int|
            0 <= i < infos.len() ==> fits_senc(#[trigger] infos[i], iv_size, has_subsamples),
        cut.len() < iv_size + if has_subsamples {
            2int
        } else {
            0
        },
    ensures
        media::senc_infos(
            senc_head(version, count, has_subsamples) + senc_records(infos, has_subsamples) + cut,
            iv_size,
            sample_count,
        ) == Ok::<Seq<EncView>, Fmp4Error>(infos),
{
    let head = senc_head(version, count, has_subsamples);
    let records = senc_records(infos, has_subsamples);
    let p = head + records + cut;
    assert(p =~= head + (records + cut));
    senc_head_is_read(version, count, has_subsamples, records + cut, iv_size, sample_count);
    records_then_the_rest(head, infos, cut, iv_size, has_subsamples, count);
    let none = media::senc_from(
        p,
        (head + records).len() as int,
        iv_size,
        has_subsamples,
        count - infos.len(),
    );
    assert(none =~= Seq::empty());
    assert(infos + none =~= infos);
}

/// A record whose subsamples are cut off is read with the subsamples that are whole.
#[verifier::rlimit(80)]
#[verifier::spinoff_prover]
pub proof fn cut_off_subsamples_are_read_as_far_as_they_go(
    version: u8,
    infos: Seq<EncView>,
    last: EncView,
    announced: int,
    cut: Seq<u8>,
    iv_size: int,
    count: int,
    sample_count: int,
)
    requires
        0 < iv_size,
        infos.len() < count <= sample_count,
        count < 0x1_0000_0000,
        forall|i: int| 0 <= i < infos.len() ==> fits_senc(#[trigger] infos[i], iv_size, true),
        fits_senc(last, iv_size, true),
        last.subsamples.len() < announced < 0x1_0000,
        cut.len() < 6,
        cut.len() < iv_size,
    ensures
        media::senc_infos(
            senc_head(version, count, true) + senc_records(infos, true) + (last.iv + be16_bytes(
                announced,
            ) + subsample_bytes(last.subsamples) + cut),
            iv_size,
            sample_count,
        ) == Ok::<Seq<EncView>, Fmp4Error>(infos.push(last)),
{
    let head = senc_head(version, count, true);
    let records = senc_records(infos, true);
    let subs = subsample_bytes(last.subsamples);
    let rest = last.iv + be16_bytes(announced) + subs + cut;
    let p = head + records + rest;
    let at = (head + records).len() as int;
    let next = at + iv_size;
    let k = last.subsamples.len() as int;
    assert(p =~= head + (records + rest));
    senc_head_is_read(version, count, true, records + rest, iv_size, sample_count);
    records_then_the_rest(head, infos, rest, iv_size, true, count);
    subsample_len(last.subsamples);
    assert(p.subrange(at, next) =~= last.iv);
    assert(p.subrange(next, next + 2) =~= be16_bytes(announced));
    be16_is_read(p, next, announced);
    assert(p.len() == next + 2 + 6 * k + cut.len());
    assert((p.len() - (next + 2)) / 6 == k);
    assert(media::subsample_count(p, next + 2, announced) == k);
    let front = head + records + last.iv + be16_bytes(announced);
    assert(p =~= front + subs + cut);
    let read = media::subsamples_at(p, next + 2, announced);
    assert forall|i: int| 0 <= i < k implies read[i] == last.subsamples[i] by {
        subsample_is_at(front, last.subsamples, cut, i);
    }
    assert(read =~= last.subsamples);
    let end = next + 2 + 6 * k;
    assert(media::senc_from(p, end, iv_size, true, count - infos.len() - 1) =~= Seq::empty());
    let tail = media::senc_from(p, at, iv_size, true, count - infos.len());
    assert(tail =~= seq![last]);
    assert(infos + tail =~= infos.push(last));
}

/// Without subsamples the IV of a sample is where its rank puts it, and there are as many as
/// the box announces and holds.
pub proof fn whole_sample_ivs_lie_end_to_end(p: Seq<u8>, iv_size: int, sample_count: int, i: int)
    requires
        p.len() >= 8,
        p[3] / 2 % 2 == 0,
        0 < iv_size,
        0 <= sample_count,
    ensures
        media::senc_infos(p, iv_size, sample_count) is Ok,
        ({
            let infos = media::senc_infos(p, iv_size, sample_count)->Ok_0;
            0 <= i < infos.len() ==> {
                &&& 8 + (i + 1) * iv_size <= p.len()
                &&& infos[i].iv == p.subrange(8 + i * iv_size, 8 + (i + 1) * iv_size)
                &&& infos[i].subsamples.len() == 0
            }
        }),
        ({
            let infos = media::senc_infos(p, iv_size, sample_count)->Ok_0;
            0 <= i < sample_count && i < bytes::be32(p, 4) && 8 + (i + 1) * iv_size <= p.len() ==> i
                < infos.len()
        }),
{
    let flags = bytes::be24(p, 1);
    assert(flags / 2 % 2 == 0);
    let cnt = bytes::be32(p, 4);
    ivs_from(
        p,
        8,
        iv_size,
        if cnt < sample_count {
            cnt
        } else {
            sample_count
        },
        i,
    );
}

proof fn ivs_from(p: Seq<u8>, at: int, iv_size: int, n: int, i: int)
    requires
        0 <= at,
        0 < iv_size,
    ensures
        ({
            let infos = media::senc_from(p, at, iv_size, false, n);
            &&& 0 <= i < infos.len() ==> {
                &&& at + (i + 1) * iv_size <= p.len()
                &&& infos[i].iv == p.subrange(at + i * iv_size, at + (i + 1) * iv_size)
                &&& infos[i].subsamples.len() == 0
            }
            &&& 0 <= i < n && at + (i + 1) * iv_size <= p.len() ==> i < infos.len()
        }),
    decreases n,
{
    assert((i + 1) * iv_size == i * iv_size + iv_size) by (nonlinear_arith);
    if i > 0 {
        assert(i * iv_size == (i - 1) * iv_size + iv_size) by (nonlinear_arith);
        assert((i - 1) * iv_size >= 0) by (nonlinear_arith)
            requires
                i > 0,
                iv_size > 0,
        ;
    }
    if n > 0 && at + iv_size <= p.len() && i > 0 {
        ivs_from(p, at + iv_size, iv_size, n - 1, i - 1);
    }
}

// ---------------------------------------------------------------------------
// Runs of samples
// ---------------------------------------------------------------------------

/// What a run can say of a sample.
pub struct RunSample {
    pub duration: u32,
    pub size: u32,
    pub flags: u32,
    pub time_offset: u32,
}

/// Which of it a run does say.
pub struct RunFields {
    pub duration: bool,
    pub size: bool,
    pub flags: bool,
    pub time_offset: bool,
}

spec fn place(there: bool, value: int) -> int {
    if there {
        value
    } else {
        0
    }
}

/// A number in four bytes, where it is there.
pub open spec fn field_bytes(there: bool, n: int) -> Seq<u8> {
    if there {
        bytes::be32_bytes(n)
    } else {
        Seq::empty()
    }
}

/// What a run says of one sample.
pub open spec fn run_record(x: RunSample, fields: RunFields) -> Seq<u8> {
    field_bytes(fields.duration, x.duration as int) + field_bytes(fields.size, x.size as int)
        + field_bytes(fields.flags, x.flags as int) + field_bytes(
        fields.time_offset,
        x.time_offset as int,
    )
}

/// What a run says of its samples, one after the other.
pub open spec fn run_records(run: Seq<RunSample>, fields: RunFields) -> Seq<u8>
    decreases run.len(),
{
    if run.len() == 0 {
        Seq::empty()
    } else {
        run_record(run[0], fields) + run_records(run.drop_first(), fields)
    }
}

/// A number with a sign, in two's complement.
pub open spec fn two_complement(n: int) -> int {
    if n < 0 {
        n + 0x1_0000_0000
    } else {
        n
    }
}

/// The two bytes of flags that say what a run holds.
pub open spec fn run_flags(fields: RunFields, has_offset: bool, has_first: bool) -> Seq<u8> {
    seq![
        ((if fields.duration {
            1int
        } else {
            0
        }) + (if fields.size {
            2int
        } else {
            0
        }) + (if fields.flags {
            4int
        } else {
            0
        }) + (if fields.time_offset {
            8int
        } else {
            0
        })) as u8,
        ((if has_offset {
            1int
        } else {
            0
        }) + (if has_first {
            4int
        } else {
            0
        })) as u8,
    ]
}

/// A `trun` payload: version and flags, the number of samples, the data offset and the flags
/// of the first sample where they are there, and what is said of the samples.
pub open spec fn trun_payload(
    version: u8,
    offset: Option<int>,
    first_flags: Option<u32>,
    fields: RunFields,
    run: Seq<RunSample>,
) -> Seq<u8> {
    seq![version, 0u8] + run_flags(fields, offset is Some, first_flags is Some)
        + bytes::be32_bytes(run.len() as int) + field_bytes(
        offset is Some,
        two_complement(offset->0),
    ) + field_bytes(first_flags is Some, first_flags->0 as int) + run_records(run, fields)
}

/// The sizes that a run says.
pub open spec fn said_sizes(run: Seq<RunSample>, fields: RunFields) -> Seq<u32> {
    run.map_values(
        |x: RunSample|
            if fields.size {
                x.size
            } else {
                0u32
            },
    )
}

#[verifier::rlimit(80)]
#[verifier::spinoff_prover]
proof fn run_is_read(
    pre: Seq<u8>,
    run: Seq<RunSample>,
    fields: RunFields,
    rest: Seq<u8>,
    record: int,
    skip: int,
)
    requires
        record == place(fields.duration, 4) + place(fields.size, 4) + place(fields.flags, 4)
            + place(fields.time_offset, 4),
        skip == place(fields.duration, 4),
    ensures
        media::sizes_from(
            pre + run_records(run, fields) + rest,
            pre.len() as int,
            record,
            fields.size,
            skip,
            run.len() as int,
        ) == said_sizes(run, fields),
    decreases run.len(),
{
    let p = pre + run_records(run, fields) + rest;
    let at = pre.len() as int;
    let sizes = said_sizes(run, fields);
    if run.len() == 0 {
        assert(sizes =~= Seq::empty());
    } else {
        let tail = run.drop_first();
        let rec = run_record(run[0], fields);
        let more = run_records(tail, fields);
        assert(rec.len() == record);
        run_is_read(pre + rec, tail, fields, rest, record, skip);
        assert(p =~= (pre + rec) + more + rest);
        if fields.size {
            assert(p.subrange(at + skip, at + skip + 4) =~= bytes::be32_bytes(run[0].size as int));
            be32_is_read(p, at + skip, run[0].size as int);
        }
        assert(sizes =~= seq![sizes[0]] + said_sizes(tail, fields));
    }
}

/// The flags of a run say what it holds.
pub proof fn run_flags_are_read(p: Seq<u8>, fields: RunFields, has_offset: bool, has_first: bool)
    requires
        p[1] == 0,
        p[2] == run_flags(fields, has_offset, has_first)[0],
        p[3] == run_flags(fields, has_offset, has_first)[1],
    ensures
        ({
            let flags = bytes::be24(p, 1);
            &&& media::has_flag(flags, 0x1) == has_offset
            &&& media::has_flag(flags, 0x4) == has_first
            &&& media::has_flag(flags, 0x100) == fields.duration
            &&& media::has_flag(flags, 0x200) == fields.size
            &&& media::has_flag(flags, 0x400) == fields.flags
            &&& media::has_flag(flags, 0x800) == fields.time_offset
        }),
{
    let hi = p[2] as int;
    let lo = p[3] as int;
    let flags = bytes::be24(p, 1);
    assert(flags == hi * 0x100 + lo);
    assert(flags / 0x1 % 2 == lo % 2);
    assert(flags / 0x4 % 2 == lo / 4 % 2);
    assert(flags / 0x100 == hi);
    assert(flags / 0x200 == hi / 2);
    assert(flags / 0x400 == hi / 4);
    assert(flags / 0x800 == hi / 8);
}

/// A run that was written is read back: the size of each sample, whatever else is said of
/// them, and the data offset; and whatever stands behind.
#[verifier::rlimit(80)]
#[verifier::spinoff_prover]
pub proof fn written_trun_reads_back(
    version: u8,
    offset: Option<int>,
    first_flags: Option<u32>,
    fields: RunFields,
    run: Seq<RunSample>,
    rest: Seq<u8>,
)
    requires
        run.len() < 0x1_0000_0000,
        offset is Some ==> -0x8000_0000 <= offset->0 < 0x8000_0000,
    ensures
        ({
            let p = trun_payload(version, offset, first_flags, fields, run) + rest;
            &&& media::trun_sizes(p) == Ok::<Seq<u32>, Fmp4Error>(said_sizes(run, fields))
            &&& media::trun_offset(p) == if offset is Some {
                offset->0
            } else {
                0
            }
        }),
{
    let flag_bytes = run_flags(fields, offset is Some, first_flags is Some);
    let head = seq![version, 0u8] + flag_bytes;
    let count = bytes::be32_bytes(run.len() as int);
    let o = field_bytes(offset is Some, two_complement(offset->0));
    let f = field_bytes(first_flags is Some, first_flags->0 as int);
    let records = run_records(run, fields);
    let pre = head + count + o + f;
    let p = trun_payload(version, offset, first_flags, fields, run) + rest;
    assert(p =~= pre + records + rest);
    assert(p.subrange(4, 8) =~= count);
    be32_is_read(p, 4, run.len() as int);
    assert(p[1] == 0 && p[2] == flag_bytes[0] && p[3] == flag_bytes[1]);
    run_flags_are_read(p, fields, offset is Some, first_flags is Some);
    if offset is Some {
        assert(p.subrange(8, 12) =~= o);
        be32_is_read(p, 8, two_complement(offset->0));
    }
    run_is_read(
        pre,
        run,
        fields,
        rest,
        place(fields.duration, 4) + place(fields.size, 4) + place(fields.flags, 4) + place(
            fields.time_offset,
            4,
        ),
        place(fields.duration, 4),
    );
}

// ---------------------------------------------------------------------------
// Whole segments
// ---------------------------------------------------------------------------

/// A `tfdt` payload: version and flags, and the decode time, in eight bytes or in four.
pub open spec fn tfdt_payload(time: int, long: bool) -> Seq<u8> {
    if long {
        seq![1u8, 0, 0, 0] + bytes::be32_bytes(time / 0x1_0000_0000) + bytes::be32_bytes(
            time % 0x1_0000_0000,
        )
    } else {
        seq![0u8, 0, 0, 0] + bytes::be32_bytes(time)
    }
}

/// The decode time that was written for a track fragment is read back.
pub proof fn written_tfdt_reads_back(
    traf: Seq<(Seq<u8>, Seq<u8>)>,
    k: int,
    time: int,
    long: bool,
)
    requires
        box_laws::can_be_written(traf),
        box_laws::is_first(traf, TFDT@, k),
        traf[k].1 == tfdt_payload(time, long),
        0 <= time < if long {
            0x1_0000_0000_0000_0000
        } else {
            0x1_0000_0000int
        },
    ensures
        media::base_time(box_laws::written(traf)) == time,
{
    box_laws::written_child(traf, TFDT@, k);
    let p = tfdt_payload(time, long);
    if long {
        let hi = time / 0x1_0000_0000;
        let lo = time % 0x1_0000_0000;
        assert(p.subrange(4, 8) =~= bytes::be32_bytes(hi));
        assert(p.subrange(8, 12) =~= bytes::be32_bytes(lo));
        be32_is_read(p, 4, hi);
        be32_is_read(p, 8, lo);
    } else {
        assert(p.subrange(4, 8) =~= bytes::be32_bytes(time));
        be32_is_read(p, 4, time);
    }
}

/// A media segment that was written, whatever other boxes it holds, lists its samples: each
/// with its own size and encryption parameters, where the one before it ends, and one tick
/// later.
#[verifier::rlimit(80)]
#[verifier::spinoff_prover]
pub proof fn written_segment_lists_its_samples(
    top: Seq<(Seq<u8>, Seq<u8>)>,
    moof: Seq<(Seq<u8>, Seq<u8>)>,
    traf: Seq<(Seq<u8>, Seq<u8>)>,
    at: (int, int, int),
    inside: (int, int, int),
    version: u8,
    offset: Option<int>,
    first_flags: Option<u32>,
    fields: RunFields,
    run: Seq<RunSample>,
    infos: Seq<EncView>,
    has_subsamples: bool,
    iv_size: int,
    senc: int,
    i: int,
)
    requires
        box_laws::can_be_written(top),
        box_laws::is_first(top, MOOF@, at.0),
        box_laws::is_first(top, MDAT@, at.1),
        top[at.0].1 == box_laws::written(moof),
        box_laws::can_be_written(moof),
        box_laws::is_first(moof, TRAF@, at.2),
        moof[at.2].1 == box_laws::written(traf),
        box_laws::can_be_written(traf),
        box_laws::is_first(traf, TFHD@, inside.0),
        box_laws::is_first(traf, TRUN@, inside.1),
        traf[inside.1].1 == trun_payload(version, offset, first_flags, fields, run),
        box_laws::is_first(traf, SENC@, senc),
        traf[senc].1 == senc_payload(version, infos, has_subsamples),
        run.len() < 0x1_0000_0000,
        offset is Some ==> -0x8000_0000 <= offset->0 < 0x8000_0000,
        media::sum_sizes(said_sizes(run, fields)) <= usize::MAX,
        0 <= iv_size,
        infos.len() < 0x1_0000_0000,
        forall|k: int|
            0 <= k < infos.len() ==> fits_senc(#[trigger] infos[k], iv_size, has_subsamples),
    ensures
        media::media_samples(box_laws::written(top), iv_size) is Ok,
        ({
            let listed = media::media_samples(box_laws::written(top), iv_size)->Ok_0;
            &&& listed.len() == run.len()
            &&& 0 <= i < run.len() ==> {
                &&& listed[i].size == if fields.size {
                    run[i].size as int
                } else {
                    0
                }
                &&& listed[i].mdat_offset == if i == 0 {
                    0
                } else {
                    listed[i - 1].mdat_offset + listed[i - 1].size
                }
                &&& listed[i].enc == if i < infos.len() {
                    Some(infos[i])
                } else {
                    None
                }
                &&& listed[i].decode_time == (media::base_time(box_laws::written(traf)) + i)
                    % 0x1_0000_0000_0000_0000
            }
        }),
{
    let e = Seq::<u8>::empty();
    box_laws::written_child(top, MOOF@, at.0);
    box_laws::written_child(top, MDAT@, at.1);
    box_laws::written_child(moof, TRAF@, at.2);
    box_laws::written_child(traf, TFHD@, inside.0);
    box_laws::written_child(traf, TRUN@, inside.1);
    box_laws::written_child(traf, SENC@, senc);
    let p = trun_payload(version, offset, first_flags, fields, run);
    let q = senc_payload(version, infos, has_subsamples);
    assert(p + e =~= p);
    assert(q + e =~= q);
    written_trun_reads_back(version, offset, first_flags, fields, run, e);
    written_senc_reads_back(version, infos, has_subsamples, e, iv_size, run.len() as int);
    let sizes = said_sizes(run, fields);
    if 0 < i < run.len() {
        assert(sizes.take(i).drop_last() =~= sizes.take(i - 1));
        assert(sizes.take(i).last() == sizes[i - 1]);
    } else if i == 0 {
        assert(sizes.take(0) =~= Seq::empty());
    }
}

/// So does one without encryption parameters: its samples are clear.
#[verifier::rlimit(80)]
#[verifier::spinoff_prover]
pub proof fn written_clear_segment_lists_clear_samples(
    top: Seq<(Seq<u8>, Seq<u8>)>,
    moof: Seq<(Seq<u8>, Seq<u8>)>,
    traf: Seq<(Seq<u8>, Seq<u8>)>,
    at: (int, int, int),
    inside: (int, int),
    version: u8,
    offset: Option<int>,
    first_flags: Option<u32>,
    fields: RunFields,
    run: Seq<RunSample>,
    iv_size: int,
    i: int,
)
    requires
        box_laws::can_be_written(top),
        box_laws::is_first(top, MOOF@, at.0),
        box_laws::is_first(top, MDAT@, at.1),
        top[at.0].1 == box_laws::written(moof),
        box_laws::can_be_written(moof),
        box_laws::is_first(moof, TRAF@, at.2),
        moof[at.2].1 == box_laws::written(traf),
        box_laws::can_be_written(traf),
        box_laws::is_first(traf, TFHD@, inside.0),
        box_laws::is_first(traf, TRUN@, inside.1),
        traf[inside.1].1 == trun_payload(version, offset, first_flags, fields, run),
        box_laws::has_none(traf, SENC@),
        run.len() < 0x1_0000_0000,
        offset is Some ==> -0x8000_0000 <= offset->0 < 0x8000_0000,
        media::sum_sizes(said_sizes(run, fields)) <= usize::MAX,
    ensures
        media::media_samples(box_laws::written(top), iv_size) is Ok,
        ({
            let listed = media::media_samples(box_laws::written(top), iv_size)->Ok_0;
            &&& listed.len() == run.len()
            &&& 0 <= i < run.len() ==> {
                &&& listed[i].size == if fields.size {
                    run[i].size as int
                } else {
                    0
                }
                &&& listed[i].enc is None
            }
        }),
{
    let e = Seq::<u8>::empty();
    box_laws::written_child(top, MOOF@, at.0);
    box_laws::written_child(top, MDAT@, at.1);
    box_laws::written_child(moof, TRAF@, at.2);
    box_laws::written_child(traf, TFHD@, inside.0);
    box_laws::written_child(traf, TRUN@, inside.1);
    box_laws::no_written_child(traf, SENC@);
    let p = trun_payload(version, offset, first_flags, fields, run);
    assert(p + e =~= p);
    written_trun_reads_back(version, offset, first_flags, fields, run, e);
}

/// A run is read as far as it goes: a sample is listed where its whole record is there, and
/// its size is read from its own record.
pub proof fn run_is_read_as_far_as_it_goes(p: Seq<u8>, i: int)
    requires
        media::trun_sizes(p) is Ok,
    ensures
        ({
            let flags = bytes::be24(p, 1);
            let at = 8 + (if media::has_flag(flags, 0x1) {
                4int
            } else {
                0
            }) + (if media::has_flag(flags, 0x4) {
                4int
            } else {
                0
            });
            let skip = if media::has_flag(flags, 0x100) {
                4int
            } else {
                0
            };
            let record = skip + (if media::has_flag(flags, 0x200) {
                4int
            } else {
                0
            }) + (if media::has_flag(flags, 0x400) {
                4int
            } else {
                0
            }) + (if media::has_flag(flags, 0x800) {
                4int
            } else {
                0
            });
            let sizes = media::trun_sizes(p)->Ok_0;
            &&& 0 <= i < sizes.len() <==> 0 <= i < bytes::be32(p, 4) && at + (i + 1) * record
                <= p.len()
            &&& 0 <= i < sizes.len() && media::has_flag(flags, 0x200) ==> sizes[i] == bytes::be32(
                p,
                at + i * record + skip,
            )
            &&& 0 <= i < sizes.len() && !media::has_flag(flags, 0x200) ==> sizes[i] == 0
        }),
{
    let flags = bytes::be24(p, 1);
    let at = 8 + media::field_size(flags, 0x1) + media::field_size(flags, 0x4);
    let skip = media::field_size(flags, 0x100);
    let record = skip + media::field_size(flags, 0x200) + media::field_size(flags, 0x400)
        + media::field_size(flags, 0x800);
    sizes_as_far_as_they_go(
        p,
        at,
        record,
        media::has_flag(flags, 0x200),
        skip,
        bytes::be32(p, 4),
        i,
    );
}

proof fn sizes_as_far_as_they_go(
    p: Seq<u8>,
    at: int,
    record: int,
    has_size: bool,
    skip: int,
    n: int,
    i: int,
)
    requires
        0 <= at,
        0 <= record,
        has_size ==> 0 <= skip && skip + 4 <= record,
        0 <= n,
    ensures
        ({
            let sizes = media::sizes_from(p, at, record, has_size, skip, n);
            &&& 0 <= i < sizes.len() <==> 0 <= i < n && at + (i + 1) * record <= p.len()
            &&& 0 <= i < sizes.len() && has_size ==> sizes[i] == bytes::be32(
                p,
                at + i * record + skip,
            )
            &&& 0 <= i < sizes.len() && !has_size ==> sizes[i] == 0
        }),
    decreases n,
{
    assert((i + 1) * record == i * record + record) by (nonlinear_arith);
    if i > 0 {
        assert(i * record == (i - 1) * record + record) by (nonlinear_arith);
        assert((i - 1) * record >= 0) by (nonlinear_arith)
            requires
                i > 0,
                record >= 0,
        ;
    }
    if n > 0 && at + record <= p.len() {
        if i > 0 {
            sizes_as_far_as_they_go(p, at + record, record, has_size, skip, n - 1, i - 1);
        }
    }
}

} // verus!
