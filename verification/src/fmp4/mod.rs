//! Minimal fragmented MP4 and Common Encryption parser.
//!
//! Implements just enough of ISO 14496-12 to
//!
//! 1. read the default key id and IV size from an init segment,
//! 2. rewrite an init segment's `encv` / `enca` sample entries to plain codec form,
//! 3. list a media segment's samples with their encryption parameters, and
//! 4. rebuild a media segment around decrypted samples.

pub mod box_laws;
pub mod boxes;
pub mod header_laws;
pub mod init;
pub mod init_laws;
pub mod laws;
pub mod media;
pub mod media_laws;
pub mod rebuild;
pub mod rebuild_laws;
pub mod refusal_laws;
pub mod segment_laws;
pub mod strip;

use crate::text;
use vstd::prelude::*;

verus! {

/// What can be wrong with a segment.
#[derive(Clone, Copy, Debug, PartialEq, Eq, Structural)]
pub enum Fmp4Error {
    /// The `tenc` box is too short; its size in bytes.
    TencTooShort(usize),
    NoMoof,
    NoTraf,
    NoTfhd,
    NoTrun,
    TrunTooShort,
    TrunOffsetTruncated,
    SencTooShort,
    NoMdat,
    /// The sample sizes add up to more than the machine can address.
    SampleOffsetOverflow,
}

impl Fmp4Error {
    /// What is shown of the error.
    pub open spec fn text(self) -> Seq<char> {
        match self {
            Fmp4Error::TencTooShort(n) => "tenc box too short ("@ + text::decimal(n as nat)
                + " bytes)"@,
            Fmp4Error::NoMoof => "no moof box in media segment"@,
            Fmp4Error::NoTraf => "no traf in moof"@,
            Fmp4Error::NoTfhd => "no tfhd in traf"@,
            Fmp4Error::NoTrun => "no trun in traf"@,
            Fmp4Error::TrunTooShort => "trun too short"@,
            Fmp4Error::TrunOffsetTruncated => "trun data_offset truncated"@,
            Fmp4Error::SencTooShort => "senc too short"@,
            Fmp4Error::NoMdat => "no mdat in media segment"@,
            Fmp4Error::SampleOffsetOverflow => "sample sizes too large"@,
        }
    }

    /// What is shown of the error.
    pub fn message(&self) -> (r: String)
        ensures
            r@ == self.text(),
    {
        match self {
            Fmp4Error::TencTooShort(n) => {
                let mut out: Vec<char> = text::chars_of("tenc box too short (");
                text::push_number(&mut out, *n as u64);
                text::push_text(&mut out, " bytes)");
                text::text_of(out.as_slice())
            },
            Fmp4Error::NoMoof => "no moof box in media segment".to_owned(),
            Fmp4Error::NoTraf => "no traf in moof".to_owned(),
            Fmp4Error::NoTfhd => "no tfhd in traf".to_owned(),
            Fmp4Error::NoTrun => "no trun in traf".to_owned(),
            Fmp4Error::TrunTooShort => "trun too short".to_owned(),
            Fmp4Error::TrunOffsetTruncated => "trun data_offset truncated".to_owned(),
            Fmp4Error::SencTooShort => "senc too short".to_owned(),
            Fmp4Error::NoMdat => "no mdat in media segment".to_owned(),
            Fmp4Error::SampleOffsetOverflow => "sample sizes too large".to_owned(),
        }
    }
}

} // verus!
