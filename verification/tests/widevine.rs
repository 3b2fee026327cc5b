use frenchetv::widevine::{
    cdm_path, crx_payload, data_dir, dir, download_agent, download_url, extract_cdm_from_crx,
    find_module, CdmError,
};
use std::io::{Cursor, Write};
use zip::write::SimpleFileOptions;
use zip::ZipWriter;

fn archive(members: &[(&str, &[u8])]) -> Vec<u8> {
    let mut writer = ZipWriter::new(Cursor::new(Vec::new()));
    for (name, data) in members {
        writer.start_file(*name, SimpleFileOptions::default()).unwrap();
        writer.write_all(data).unwrap();
    }
    writer.finish().unwrap().into_inner()
}

fn crx(version: u32, header: &[u8], body: &[u8]) -> Vec<u8> {
    let mut out = b"Cr24".to_vec();
    out.extend_from_slice(&version.to_le_bytes());
    out.extend_from_slice(&(header.len() as u32).to_le_bytes());
    out.extend_from_slice(header);
    out.extend_from_slice(body);
    out
}

#[test]
fn the_module_is_extracted_from_a_package() {
    let body = archive(&[
        ("metadata.json", b"{}"),
        ("_platform_specific/linux_x64/libwidevinecdm.so", b"ELF module"),
    ]);
    assert_eq!(extract_cdm_from_crx(&crx(3, &[1, 2, 3], &body)), Ok(b"ELF module".to_vec()));
}

#[test]
fn what_is_wrong_with_a_package_is_named() {
    let body = archive(&[("metadata.json", b"{}")]);
    let error = |package: &[u8]| extract_cdm_from_crx(package).unwrap_err();
    assert_eq!(error(b"PK"), CdmError::NotCrx);
    let mut other = crx(3, &[], &body);
    other[0] = b'X';
    assert_eq!(error(&other), CdmError::NotCrx);
    assert_eq!(error(&other).message(), "not a CRX3 file (wrong magic)");
    assert_eq!(error(&crx(2, &[], &body)), CdmError::UnsupportedVersion(2));
    assert_eq!(
        error(&crx(2, &[], &body)).message(),
        "unsupported CRX version 2; expected 3"
    );
    let mut short = crx(3, &[0; 9], &[]);
    short.truncate(15);
    assert_eq!(error(&short), CdmError::HeaderTruncated);
    assert_eq!(error(&crx(3, &[], b"no archive")), CdmError::BadArchive);
    assert_eq!(error(&crx(3, &[], &body)), CdmError::NotFound);
    assert_eq!(
        error(&crx(3, &[], &body)).message(),
        "libwidevinecdm.so not found inside CRX/ZIP"
    );
}

#[test]
fn the_archive_stands_behind_the_header() {
    assert_eq!(crx_payload(&crx(3, &[7; 5], &[1, 2])), Ok(&[1u8, 2][..]));
    assert_eq!(
        find_module(&vec![
            Some("a/b".to_string()),
            Some("x/libwidevinecdm.so".to_string()),
            None
        ]),
        Ok(1)
    );
    assert_eq!(find_module(&vec![Some("a".to_string()), None]), Err(CdmError::BadEntry(1)));
    assert_eq!(find_module(&vec![]), Err(CdmError::NotFound));
}

#[test]
fn the_module_has_a_place_of_its_own() {
    assert_eq!(data_dir(Some("/d".to_string()), Some("/h".to_string())), "/d");
    assert_eq!(data_dir(None, Some("/h".to_string())), "/h");
    assert_eq!(dir("/d"), "/d/frenchetv/widevine");
    assert_eq!(cdm_path("/d"), "/d/frenchetv/widevine/libwidevinecdm.so");
    assert!(download_url("x86_64").contains("&arch=x64&nacl_arch=x86-64&os=linux"));
    assert!(download_agent("x86_64").starts_with("Mozilla/5.0 (X11; Linux x86_64)"));
}
