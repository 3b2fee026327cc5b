use frenchetv::cdm::{
    decrypt_result, padded_iv, subsample_entries, CallbackState, CdmCallError, SubsampleEntry,
};

#[test]
fn initialisation_succeeds_when_the_module_says_so() {
    let mut s = CallbackState::default();
    assert_eq!(s.initialize_result(), Err(CdmCallError::NotInitialized));
    s.on_initialized(true);
    assert_eq!(s.initialize_result(), Ok(()));
    s.begin_initialize();
    let e = s.initialize_result().unwrap_err();
    assert_eq!(e.message(), "CDM Initialize returned failure");
}

#[test]
fn a_session_has_an_identifier_and_a_challenge() {
    let mut s = CallbackState::default();
    s.begin_session();
    assert_eq!(s.session_result().unwrap_err(), CdmCallError::NoSessionId);
    s.on_promise_ok(b"sid");
    assert_eq!(s.session_result().unwrap_err(), CdmCallError::NoChallenge);
    s.on_license_request(b"sid2", &[1, 2]);
    assert_eq!(s.session_result(), Ok(("sid2".to_string(), vec![1, 2])));
    s.on_promise_ok(b"");
    assert!(s.session_result().is_ok(), "an empty identifier changes nothing");
    // An identifier that is no text counts as none.
    s.on_promise_ok(&[0xff]);
    assert_eq!(s.session_result().unwrap_err(), CdmCallError::NoSessionId);
    s.on_promise_err("refused");
    let e = s.session_result().unwrap_err();
    assert_eq!(e.message(), "CDM create_session rejected: refused");
    s.begin_session();
    assert!(matches!(s.session_result(), Err(CdmCallError::NoSessionId)));
}

#[test]
fn a_license_gives_usable_keys() {
    let mut s = CallbackState::default();
    s.begin_update();
    assert_eq!(s.update_result(), Err(CdmCallError::NoUsableKeys));
    s.on_keys_change(true);
    assert_eq!(s.update_result(), Ok(()));
    s.on_promise_err("");
    assert_eq!(
        s.update_result().unwrap_err().message(),
        "CDM update_session rejected: (no message)"
    );
    s.begin_update();
    assert_eq!(s.update_result().unwrap_err().message(), "CDM: no usable keys after UpdateSession");
}

#[test]
fn short_vectors_fill_the_upper_half_of_the_counter() {
    assert_eq!(padded_iv(&[9; 8], 1), [9, 9, 9, 9, 9, 9, 9, 9, 0, 0, 0, 0, 0, 0, 0, 0]);
    assert_eq!(padded_iv(&[9; 8], 2), [9; 8]);
    assert_eq!(padded_iv(&[9; 16], 1), [9; 16]);
    assert_eq!(
        subsample_entries(&[(1, 2), (3, 4)])[1],
        SubsampleEntry { clear_bytes: 3, cipher_bytes: 4 }
    );
}

#[test]
fn decryption_gives_data_or_says_why_not() {
    assert_eq!(decrypt_result(0, Some(vec![5])), Ok(vec![5]));
    assert_eq!(decrypt_result(0, None).unwrap_err().message(), "CDM Decrypt returned null data");
    assert_eq!(
        decrypt_result(-2, Some(vec![5])).unwrap_err().message(),
        "CDM Decrypt failed with status -2"
    );
    assert_eq!(
        decrypt_result(7, None).unwrap_err().message(),
        "CDM Decrypt failed with status 7"
    );
}
