use frenchetv::license::{
    build_pssh_from_kid, choose_license, choose_pssh, decode_base64, extract_pssh_from_mpd,
    find_default_kid, find_encoded_pssh, license_action, license_from_response,
    parse_uuid_to_bytes, pssh_kids, LicenseAction,
};

const KID: [u8; 16] = [
    0x10, 0x32, 0x54, 0x76, 0x98, 0xba, 0xdc, 0xfe, 0x01, 0x23, 0x45, 0x67, 0x89, 0xab, 0xcd, 0xef,
];
const UUID: &str = "10325476-98ba-dcfe-0123-456789abcdef";

fn manifest(inside: &str) -> String {
    format!(
        r#"<MPD><ContentProtection schemeIdUri="urn:mpeg:dash:mp4protection:2011" cenc:default_KID="{UUID}"/>
<ContentProtection schemeIdUri="urn:uuid:EDEF8BA9-79D6-4ACE-A3C8-27DCD51D21ED">{inside}</ContentProtection></MPD>"#
    )
}

#[test]
fn base64_comes_in_two_alphabets() {
    assert_eq!(decode_base64("+/8="), Some(vec![0xfb, 0xff]));
    assert_eq!(decode_base64("-_8"), Some(vec![0xfb, 0xff]));
    assert_eq!(decode_base64("%%%"), None);
}

#[test]
fn key_ids_are_read_from_their_written_form() {
    assert_eq!(parse_uuid_to_bytes(UUID), Some(KID));
    assert_eq!(parse_uuid_to_bytes(&UUID.to_uppercase()), Some(KID));
    assert_eq!(parse_uuid_to_bytes(&UUID[1..]), None);
    assert_eq!(parse_uuid_to_bytes("g0325476-98ba-dcfe-0123-456789abcdef"), None);
}

#[test]
fn a_built_box_holds_its_key_id() {
    let pssh = build_pssh_from_kid(&KID);
    assert_eq!(pssh.len(), 52);
    assert_eq!(&pssh[..8], &[0, 0, 0, 52, b'p', b's', b's', b'h']);
    assert_eq!(pssh_kids(&pssh), [KID]);
}

#[test]
fn the_encoded_box_of_the_widevine_element_is_taken() {
    // "AAEC" is 0, 1, 2.
    let mpd = manifest("<cenc:pssh> AAEC </cenc:pssh>");
    assert_eq!(find_encoded_pssh(&mpd), (Some("AAEC".to_string()), None));
    assert_eq!(extract_pssh_from_mpd(&mpd), Some(vec![0, 1, 2]));
    assert_eq!(
        extract_pssh_from_mpd(&manifest("<pssh>AAED</pssh>")),
        Some(vec![0, 1, 3])
    );
}

#[test]
fn without_an_encoded_box_one_is_built_for_the_default_key() {
    let mpd = manifest("");
    assert_eq!(find_default_kid(&mpd), Some(KID));
    assert_eq!(extract_pssh_from_mpd(&mpd), Some(build_pssh_from_kid(&KID)));
    // What cannot be decoded counts as missing.
    assert_eq!(
        extract_pssh_from_mpd(&manifest("<cenc:pssh>%%</cenc:pssh>")),
        Some(build_pssh_from_kid(&KID))
    );
    assert_eq!(extract_pssh_from_mpd("<MPD></MPD>"), None);
}

#[test]
fn the_first_choice_goes_first() {
    let cenc = Some(vec![1]);
    let plain = Some(vec![2]);
    assert_eq!(choose_pssh(cenc.clone(), plain.clone(), Some(KID)), cenc);
    assert_eq!(choose_pssh(None, plain.clone(), Some(KID)), plain);
    assert_eq!(choose_pssh(None, None, Some(KID)), Some(build_pssh_from_kid(&KID)));
    assert_eq!(choose_pssh(None, None, None), None);
}

#[test]
fn one_redirection_is_followed() {
    let there = Some("https://x/y".to_string());
    assert!(matches!(license_action(302, &there, false), LicenseAction::Follow(u) if u == "https://x/y"));
    assert!(matches!(license_action(302, &there, true), LicenseAction::Reject));
    assert!(matches!(license_action(302, &None, false), LicenseAction::Reject));
    assert!(matches!(license_action(200, &there, false), LicenseAction::Accept));
    assert!(matches!(license_action(403, &None, false), LicenseAction::Reject));
}

#[test]
fn a_license_may_be_wrapped_in_json() {
    assert_eq!(
        license_from_response("application/octet-stream", vec![8, 9]),
        [8, 9]
    );
    let json = br#"{"license":"AAEC"}"#.to_vec();
    assert_eq!(license_from_response("application/json", json.clone()), [0, 1, 2]);
    assert_eq!(license_from_response("text/plain", json), [0, 1, 2]);
    let other = br#"{"unknown":"AAEC"}"#.to_vec();
    assert_eq!(license_from_response("application/json", other.clone()), other);
    assert_eq!(
        license_from_response("application/json", b"not json".to_vec()),
        b"not json"
    );
}

#[test]
fn the_first_license_found_is_taken() {
    assert_eq!(choose_license(vec![None, Some(vec![1]), Some(vec![2])], vec![9]), [1]);
    assert_eq!(choose_license(vec![None], vec![9]), [9]);
}

#[test]
fn every_widevine_element_is_searched() {
    let id = "urn:uuid:edef8ba9-79d6-4ace-a3c8-27dcd51d21ed";
    let first_is_empty = format!(
        r#"<ContentProtection schemeIdUri="{id}"/><ContentProtection schemeIdUri="{id}"><cenc:pssh>AAEC</cenc:pssh></ContentProtection>"#
    );
    assert_eq!(extract_pssh_from_mpd(&first_is_empty), Some(vec![0, 1, 2]));
    let second_holds_it = format!(
        r#"<ContentProtection schemeIdUri="{id}"><x/></ContentProtection><ContentProtection schemeIdUri="{id}"><cenc:pssh>AAED</cenc:pssh></ContentProtection>"#
    );
    assert_eq!(extract_pssh_from_mpd(&second_holds_it), Some(vec![0, 1, 3]));
    // The first box found is the one taken.
    let both = format!(
        r#"<ContentProtection schemeIdUri="{id}"><cenc:pssh>AAEC</cenc:pssh></ContentProtection><ContentProtection schemeIdUri="{id}"><cenc:pssh>AAED</cenc:pssh></ContentProtection>"#
    );
    assert_eq!(find_encoded_pssh(&both), (Some("AAEC".to_string()), None));
}
