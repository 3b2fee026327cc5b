//! Which segments are refused, and why.

use crate::fmp4::box_laws;
use crate::fmp4::box_laws::{around, has_none, stands_alone, written, Around};
use crate::fmp4::boxes;
use crate::fmp4::boxes::{MDAT, MOOF, MOOV, SENC, TFHD, TRAF, TRUN};
use crate::fmp4::init;
use crate::fmp4::init::InitView;
use crate::fmp4::media;
use crate::fmp4::media::SampleView;
use crate::fmp4::Fmp4Error;
use vstd::prelude::*;

verus! {

/// A media segment needs a fragment.
pub proof fn segment_needs_a_fragment(items: Seq<(Seq<u8>, Seq<u8>)>, iv_size: int)
    requires
        box_laws::can_be_written(items),
        has_none(items, MOOF@),
    ensures
        media::media_samples(written(items), iv_size) == Err::<Seq<SampleView>, Fmp4Error>(
            Fmp4Error::NoMoof,
        ),
{
    box_laws::no_written_child(items, MOOF@);
}

/// A fragment needs a track fragment.
pub proof fn fragment_needs_a_track_fragment(
    top: Around,
    items: Seq<(Seq<u8>, Seq<u8>)>,
    iv_size: int,
)
    requires
        stands_alone(top, MOOF@),
        written(around(top, MOOF@, written(items))).len() < 0x1_0000_0000,
        box_laws::can_be_written(items),
        has_none(items, TRAF@),
    ensures
        media::media_samples(written(around(top, MOOF@, written(items))), iv_size) == Err::<
            Seq<SampleView>,
            Fmp4Error,
        >(Fmp4Error::NoTraf),
{
    box_laws::child_around(top, MOOF@, written(items));
    box_laws::no_written_child(items, TRAF@);
}

/// A track fragment needs its header, and a run; and a run needs a data box.
pub proof fn track_fragment_needs_its_parts(
    items: Seq<(Seq<u8>, Seq<u8>)>,
    iv_size: int,
    has_mdat: bool,
    k: int,
)
    requires
        box_laws::can_be_written(items),
    ensures
        has_none(items, TFHD@) ==> media::traf_samples(written(items), iv_size, has_mdat) == Err::<
            Seq<SampleView>,
            Fmp4Error,
        >(Fmp4Error::NoTfhd),
        box_laws::is_first(items, TFHD@, k) && has_none(items, TRUN@) ==> media::traf_samples(
            written(items),
            iv_size,
            has_mdat,
        ) == Err::<Seq<SampleView>, Fmp4Error>(Fmp4Error::NoTrun),
        media::traf_samples(written(items), iv_size, false) is Err,
{
    if has_none(items, TFHD@) {
        box_laws::no_written_child(items, TFHD@);
    }
    if box_laws::is_first(items, TFHD@, k) && has_none(items, TRUN@) {
        box_laws::written_child(items, TFHD@, k);
        box_laws::no_written_child(items, TRUN@);
    }
}

/// A run that is cut off, and encryption data that is, are refused.
pub proof fn cut_off_boxes_are_refused(p: Seq<u8>, iv_size: int, count: int)
    ensures
        p.len() < 8 ==> media::trun_sizes(p) == Err::<Seq<u32>, Fmp4Error>(
            Fmp4Error::TrunTooShort,
        ),
        p.len() < 8 ==> media::senc_infos(p, iv_size, count) == Err::<
            Seq<media::EncView>,
            Fmp4Error,
        >(Fmp4Error::SencTooShort),
{
}

/// The default parameters are refused where they are cut off, with their length.
pub proof fn cut_off_parameters_are_refused(p: Seq<u8>, scheme: u32)
    ensures
        p.len() < 24 ==> init::tenc_info(p, scheme) == Err::<InitView, Fmp4Error>(
            Fmp4Error::TencTooShort(p.len() as usize),
        ),
        p.len() >= 24 ==> init::tenc_info(p, scheme) is Ok,
{
}

/// An init segment without `moov`, or with nothing in it, is a clear one.
pub proof fn bare_init_segment_is_clear(
    items: Seq<(Seq<u8>, Seq<u8>)>,
    top: Around,
    hint: u32,
)
    requires
        box_laws::can_be_written(items),
        has_none(items, MOOV@),
        stands_alone(top, MOOV@),
        written(around(top, MOOV@, Seq::empty())).len() < 0x1_0000_0000,
    ensures
        init::init_info(written(items), hint) == Ok::<Option<InitView>, Fmp4Error>(None),
        init::widevine_pssh(written(items)) is None,
        init::init_info(written(around(top, MOOV@, Seq::empty())), hint) == Ok::<
            Option<InitView>,
            Fmp4Error,
        >(None),
{
    box_laws::no_written_child(items, MOOV@);
    box_laws::child_around(top, MOOV@, Seq::empty());
    let e = Seq::<u8>::empty();
    assert(boxes::box_at(e, 0) is None);
    assert(boxes::box_list(e) =~= Seq::empty());
}

} // verus!
