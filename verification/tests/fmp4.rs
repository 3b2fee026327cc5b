use frenchetv::fmp4::boxes::{boxes, find_box, find_box_in_init, find_box_path};
use frenchetv::fmp4::init::{
    extract_kid_from_widevine_pssh, extract_widevine_pssh, parse_init_segment,
};
use frenchetv::fmp4::media::{parse_media_segment, parse_trun};
use frenchetv::fmp4::rebuild::rebuild_segment;
use frenchetv::fmp4::strip::strip_encryption_from_init;
use frenchetv::fmp4::Fmp4Error;
use frenchetv::license::build_pssh_from_kid;

const KID: [u8; 16] = [1, 2, 3, 4, 5, 6, 7, 8, 9, 10, 11, 12, 13, 14, 15, 16];

fn bx(fourcc: &[u8; 4], payload: &[u8]) -> Vec<u8> {
    let mut out = (payload.len() as u32 + 8).to_be_bytes().to_vec();
    out.extend_from_slice(fourcc);
    out.extend_from_slice(payload);
    out
}

fn cat(parts: &[Vec<u8>]) -> Vec<u8> {
    parts.concat()
}

fn types(data: &[u8]) -> Vec<String> {
    let mut found = Vec::new();
    let mut it = boxes(data);
    while let Some(b) = it.next() {
        found.push(String::from_utf8_lossy(&b.fourcc).into_owned());
    }
    found
}

fn holds(data: &[u8], pattern: &[u8]) -> bool {
    data.windows(pattern.len()).any(|w| w == pattern)
}

fn tenc(iv_size: u8) -> Vec<u8> {
    let mut payload = vec![0, 0, 0, 0, 0, 0, 1, iv_size];
    payload.extend_from_slice(&KID);
    bx(b"tenc", &payload)
}

fn sinf(codec: &[u8; 4], scheme: &[u8; 4], tenc: Vec<u8>) -> Vec<u8> {
    let mut schm = vec![0, 0, 0, 0];
    schm.extend_from_slice(scheme);
    schm.extend_from_slice(&[0, 1, 0, 0]);
    bx(
        b"sinf",
        &cat(&[bx(b"frma", codec), bx(b"schm", &schm), bx(b"schi", &tenc)]),
    )
}

/// An init segment with one sample entry, whose fixed fields take `fixed` bytes.
fn init(entry: &[u8; 4], fixed: usize, codec: &[u8; 4], scheme: &[u8; 4], tenc: Vec<u8>) -> Vec<u8> {
    let sample_entry = bx(
        entry,
        &cat(&[vec![7; fixed], bx(b"conf", &[9, 9]), sinf(codec, scheme, tenc)]),
    );
    let stsd = bx(b"stsd", &cat(&[vec![0, 0, 0, 0, 0, 0, 0, 1], sample_entry]));
    let stbl = bx(b"stbl", &cat(&[stsd, bx(b"stts", &[0; 8])]));
    let minf = bx(b"minf", &stbl);
    let mdia = bx(b"mdia", &minf);
    let trak = bx(b"trak", &cat(&[bx(b"tkhd", &[0; 4]), mdia]));
    let moov = bx(
        b"moov",
        &cat(&[bx(b"mvhd", &[0; 4]), build_pssh_from_kid(&KID), trak]),
    );
    cat(&[bx(b"ftyp", b"isom"), moov])
}

fn video_init() -> Vec<u8> {
    init(b"encv", 78, b"avc1", b"cenc", tenc(8))
}

// ── boxes ────────────────────────────────────────────────────────────────

#[test]
fn boxes_are_walked_one_after_the_other() {
    let data = cat(&[bx(b"ftyp", b"isom"), bx(b"free", &[]), bx(b"mdat", &[1, 2, 3])]);
    assert_eq!(types(&data), ["ftyp", "free", "mdat"]);
    let mdat = find_box(&data, b"mdat").unwrap();
    assert_eq!(mdat.payload, [1, 2, 3]);
    assert_eq!((mdat.offset, mdat.total_size), (20, 11));
    assert!(find_box(&data, b"moov").is_none());
}

#[test]
fn a_box_of_size_zero_reaches_to_the_end() {
    let mut data = bx(b"free", &[]);
    data.extend_from_slice(&[0, 0, 0, 0, b'm', b'd', b'a', b't', 5, 6]);
    let mdat = find_box(&data, b"mdat").unwrap();
    assert_eq!(mdat.payload, [5, 6]);
    assert_eq!(mdat.total_size, 10);
}

#[test]
fn a_large_box_has_a_longer_size() {
    let mut data = vec![0, 0, 0, 1, b'm', b'd', b'a', b't', 0, 0, 0, 0, 0, 0, 0, 18];
    data.extend_from_slice(&[5, 6]);
    let mdat = find_box(&data, b"mdat").unwrap();
    assert_eq!(mdat.payload, [5, 6]);
    // One that reaches past the end of the buffer is none.
    data[8] = 0xff;
    assert!(find_box(&data, b"mdat").is_none());
}

#[test]
fn a_box_cut_off_ends_the_walk() {
    let mut data = bx(b"free", &[]);
    data.extend_from_slice(&[0, 0, 0, 99, b'm', b'd', b'a', b't', 5]);
    assert_eq!(types(&data), ["free"]);
    data.truncate(12);
    assert_eq!(types(&data), ["free"]);
    assert!(types(&[0, 0, 0, 4, 1, 2, 3, 4]).is_empty(), "a size below the header's");
}

#[test]
fn boxes_are_found_inside_others() {
    let data = video_init();
    assert!(find_box_path(&data, &[b"moov", b"trak", b"mdia", b"minf", b"stbl", b"stsd"]).is_some());
    assert!(find_box_path(&data, &[b"moov", b"mdia"]).is_none());
    assert_eq!(&find_box_in_init(&data, b"stts").unwrap().fourcc, b"stts");
    assert!(find_box_in_init(&data, b"nope").is_none());
}

// ── init segments ────────────────────────────────────────────────────────

#[test]
fn an_init_segment_names_its_key() {
    let info = parse_init_segment(&video_init(), 1).unwrap().unwrap();
    assert_eq!(info.default_kid, KID);
    assert_eq!(info.default_iv_size, 8);
    assert_eq!(info.encryption_scheme, 1);

    let audio = init(b"enca", 28, b"mp4a", b"cbcs", tenc(16));
    let info = parse_init_segment(&audio, 1).unwrap().unwrap();
    assert_eq!(info.default_iv_size, 16);
    assert_eq!(info.encryption_scheme, 2);
}

#[test]
fn a_short_tenc_box_is_an_error() {
    let short = init(b"encv", 78, b"avc1", b"cenc", bx(b"tenc", &[0; 23]));
    let e = parse_init_segment(&short, 1).unwrap_err();
    assert_eq!(e, Fmp4Error::TencTooShort(23));
    assert_eq!(e.message(), "tenc box too short (23 bytes)");
}

#[test]
fn an_init_segment_without_protection_names_no_key() {
    let plain = cat(&[bx(b"ftyp", b"isom"), bx(b"moov", &bx(b"mvhd", &[0; 4]))]);
    assert!(parse_init_segment(&plain, 1).unwrap().is_none());
    assert!(parse_init_segment(&[], 1).unwrap().is_none());
}

#[test]
fn the_widevine_box_is_extracted_whole() {
    let pssh = build_pssh_from_kid(&KID);
    assert_eq!(extract_widevine_pssh(&video_init()), Some(pssh.clone()));
    assert_eq!(extract_kid_from_widevine_pssh(&pssh[8..]), Some(KID));
    assert_eq!(extract_widevine_pssh(&bx(b"moov", &[])), None);
    // A box of another system is passed over.
    let mut other = pssh.clone();
    other[12] = 0;
    assert_eq!(extract_widevine_pssh(&bx(b"moov", &other)), None);
    assert_eq!(
        extract_widevine_pssh(&bx(b"moov", &cat(&[other, pssh.clone()]))),
        Some(pssh)
    );
}

#[test]
fn a_stripped_init_segment_is_clear() {
    let data = video_init();
    let plain = strip_encryption_from_init(&data);
    assert!(plain.len() < data.len());
    for gone in [b"encv", b"sinf", b"pssh", b"tenc"] {
        assert!(!holds(&plain, gone), "{}", String::from_utf8_lossy(gone));
    }
    assert!(parse_init_segment(&plain, 1).unwrap().is_none());
    // The entry has its own type again, its fields and its other boxes.
    let stsd = find_box_path(&plain, &[b"moov", b"trak", b"mdia", b"minf", b"stbl", b"stsd"]).unwrap();
    let entry = find_box(&stsd.payload[8..], b"avc1").unwrap();
    assert_eq!(&entry.payload[..78], &[7; 78]);
    assert_eq!(types(&entry.payload[78..]), ["conf"]);
    assert_eq!(types(&plain), ["ftyp", "moov"]);
    // What is clear stays as it is.
    assert_eq!(strip_encryption_from_init(&plain), plain);
    assert_eq!(strip_encryption_from_init(b"no boxes"), b"no boxes");
}

// ── media segments ───────────────────────────────────────────────────────

fn trun(data_offset: u32, sizes: &[u32]) -> Vec<u8> {
    let mut payload = vec![0, 0, 0x03, 0x01];
    payload.extend_from_slice(&(sizes.len() as u32).to_be_bytes());
    payload.extend_from_slice(&data_offset.to_be_bytes());
    for size in sizes {
        payload.extend_from_slice(&1000u32.to_be_bytes());
        payload.extend_from_slice(&size.to_be_bytes());
    }
    bx(b"trun", &payload)
}

fn senc() -> Vec<u8> {
    let mut payload = vec![0, 0, 0, 2, 0, 0, 0, 2];
    for iv in [0xa1u8, 0xb2] {
        payload.extend_from_slice(&[iv; 8]);
        payload.extend_from_slice(&[0, 1, 0, 1, 0, 0, 0, 2]);
    }
    bx(b"senc", &payload)
}

fn media() -> Vec<u8> {
    let traf = |offset: u32| {
        bx(
            b"traf",
            &cat(&[
                bx(b"tfhd", &[0, 2, 0, 0, 0, 0, 0, 1]),
                bx(b"tfdt", &[1, 0, 0, 0, 0, 0, 0, 1, 0, 0, 0, 0]),
                trun(offset, &[3, 4]),
                senc(),
                bx(b"saiz", &[0; 9]),
                bx(b"saio", &[0; 12]),
            ]),
        )
    };
    let moof = |offset: u32| bx(b"moof", &cat(&[bx(b"mfhd", &[0; 8]), traf(offset)]));
    let offset = moof(0).len() as u32 + 8;
    cat(&[moof(offset), bx(b"mdat", &[1, 2, 3, 4, 5, 6, 7])])
}

#[test]
fn the_samples_of_a_segment_are_listed() {
    let data = media();
    let parsed = parse_media_segment(&data, 8).unwrap();
    assert_eq!(parsed.mdat_payload, [1, 2, 3, 4, 5, 6, 7]);
    assert_eq!(parsed.samples.len(), 2);
    let s = &parsed.samples[1];
    assert_eq!((s.mdat_offset, s.size), (3, 4));
    assert_eq!(parsed.samples[0].decode_time, 0x1_0000_0000);
    assert_eq!(s.decode_time, 0x1_0000_0000 + 1);
    let enc = s.enc.as_ref().unwrap();
    assert_eq!(enc.iv, [0xb2; 8]);
    assert_eq!(enc.subsamples, [(1, 2)]);
}

#[test]
fn a_rebuilt_segment_is_clear_and_points_at_its_data() {
    let data = media();
    let parsed = parse_media_segment(&data, 8).unwrap();
    let rebuilt = rebuild_segment(&data, &[vec![11, 12, 13], vec![14, 15, 16, 17]], &parsed);
    for gone in [b"senc", b"saiz", b"saio"] {
        assert!(!holds(&rebuilt, gone));
    }
    assert_eq!(types(&rebuilt), ["moof", "mdat"]);
    let again = parse_media_segment(&rebuilt, 8).unwrap();
    assert_eq!(again.mdat_payload, [11, 12, 13, 14, 15, 16, 17]);
    assert!(again.samples.iter().all(|s| s.enc.is_none()));
    assert_eq!(again.samples[1].mdat_offset, 3);
    assert_eq!(again.samples[1].decode_time, 0x1_0000_0000 + 1);
    // The data offset of the run still leads to the first sample.
    let trun = find_box_path(&rebuilt, &[b"moof", b"traf", b"trun"]).unwrap();
    let offset = u32::from_be_bytes(trun.payload[8..12].try_into().unwrap()) as usize;
    assert_eq!(rebuilt[offset], 11);
}

#[test]
fn what_a_segment_lacks_is_named() {
    let message = |data: &[u8]| parse_media_segment(data, 8).map(|_| ()).unwrap_err().message();
    assert_eq!(message(&[]), "no moof box in media segment");
    assert_eq!(message(&bx(b"moof", &[])), "no traf in moof");
    let moof = |children: &[Vec<u8>]| bx(b"moof", &bx(b"traf", &cat(children)));
    assert_eq!(message(&moof(&[])), "no tfhd in traf");
    let tfhd = bx(b"tfhd", &[0; 8]);
    assert_eq!(message(&moof(&[tfhd.clone()])), "no trun in traf");
    let with = |trun: Vec<u8>| moof(&[tfhd.clone(), trun]);
    assert_eq!(message(&with(bx(b"trun", &[0; 7]))), "trun too short");
    assert_eq!(
        message(&with(bx(b"trun", &[0, 0, 0, 1, 0, 0, 0, 0, 0]))),
        "trun data_offset truncated"
    );
    let good = trun(0, &[]);
    assert_eq!(message(&with(good.clone())), "no mdat in media segment");
    assert_eq!(
        message(&cat(&[
            moof(&[tfhd.clone(), good, bx(b"senc", &[0; 7])]),
            bx(b"mdat", &[])
        ])),
        "senc too short"
    );
}

#[test]
fn a_run_gives_its_data_offset_and_its_sizes() {
    let payload = [
        0, 0, 3, 1, 0, 0, 0, 2, 0, 0, 0, 100, 0, 0, 0, 5, 0, 0, 0, 7, 0, 0, 0, 5, 0, 0, 0, 9,
    ];
    assert_eq!(parse_trun(&payload), Ok((100, vec![7, 9])));
    // A record that is cut off is not there.
    assert_eq!(parse_trun(&payload[..24]), Ok((100, vec![7])));
    assert_eq!(parse_trun(&payload[..7]), Err(Fmp4Error::TrunTooShort));
    assert_eq!(parse_trun(&payload[..11]), Err(Fmp4Error::TrunOffsetTruncated));
    // The offset is a signed number, and 0 where there is none.
    let back = [0, 0, 0, 1, 0, 0, 0, 0, 0xff, 0xff, 0xff, 0xfe];
    assert_eq!(parse_trun(&back), Ok((-2, vec![])));
    assert_eq!(parse_trun(&[0, 0, 2, 0, 0, 0, 0, 1, 0, 0, 0, 6]), Ok((0, vec![6])));
}

#[test]
fn stripping_twice_changes_nothing_more() {
    for data in [
        video_init(),
        init(b"enca", 28, b"mp4a", b"cbcs", tenc(8)),
        // An entry that cannot be unprotected stays.
        bx(b"moov", &bx(b"trak", &bx(b"mdia", &[]))),
        cat(&[bx(b"moov", &[]), vec![0, 0, 0, 9]]),
    ] {
        let once = strip_encryption_from_init(&data);
        assert_eq!(strip_encryption_from_init(&once), once);
    }
}

#[test]
fn a_clear_segment_rebuilt_from_its_samples_is_the_same() {
    let traf = bx(b"traf", &cat(&[bx(b"tfhd", &[0; 8]), trun(100, &[3, 4])]));
    let data = cat(&[
        bx(b"styp", &[1]),
        bx(b"moof", &cat(&[bx(b"mfhd", &[0; 8]), traf])),
        bx(b"mdat", &[1, 2, 3, 4, 5, 6, 7]),
        bx(b"free", &[9]),
    ]);
    let parsed = parse_media_segment(&data, 8).unwrap();
    let samples: Vec<Vec<u8>> = parsed
        .samples
        .iter()
        .map(|s| parsed.mdat_payload[s.mdat_offset..s.mdat_offset + s.size as usize].to_vec())
        .collect();
    assert_eq!(samples, [vec![1, 2, 3], vec![4, 5, 6, 7]]);
    assert_eq!(rebuild_segment(&data, &samples, &parsed), data);
}
