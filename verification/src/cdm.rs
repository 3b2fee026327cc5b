//! The state that the content decryption module reports through its callbacks, and the
//! values handed to it for one sample.

use vstd::prelude::*;
use crate::bytes::copy_bytes;
use crate::bytes::push_bytes;
use crate::text;

verus! {

/// The clear and the encrypted bytes of one part of a sample.
#[derive(Debug, Clone, Copy, PartialEq, Eq)]
pub struct SubsampleEntry {
    pub clear_bytes: u32,
    pub cipher_bytes: u32,
}

/// Why a call into the module failed.
#[derive(Debug, PartialEq, Eq)]
pub enum CdmCallError {
    /// The module reported that it could not initialise.
    NotInitialized,
    /// The module rejected the new session, with its message.
    SessionRejected(String),
    /// The module gave the new session no identifier.
    NoSessionId,
    /// The module asked for no license.
    NoChallenge,
    /// The module rejected the license, with its message.
    UpdateRejected(String),
    /// The license held no usable key.
    NoUsableKeys,
    /// Decryption ended with this status.
    DecryptStatus(i32),
    /// Decryption gave no data.
    NullData,
}

/// The text of an integer.
pub open spec fn signed_decimal(n: int) -> Seq<char> {
    if n < 0 {
        seq!['-'] + text::decimal((-n) as nat)
    } else {
        text::decimal(n as nat)
    }
}

impl CdmCallError {
    /// What is shown of the error.
    pub open spec fn text(self) -> Seq<char> {
        match self {
            CdmCallError::NotInitialized => "CDM Initialize returned failure"@,
            CdmCallError::SessionRejected(m) => "CDM create_session rejected: "@ + m@,
            CdmCallError::NoSessionId =>
                "CDM: no session_id after CreateSessionAndGenerateRequest"@,
            CdmCallError::NoChallenge =>
                "CDM: no license challenge after CreateSessionAndGenerateRequest"@,
            CdmCallError::UpdateRejected(m) => "CDM update_session rejected: "@ + m@,
            CdmCallError::NoUsableKeys => "CDM: no usable keys after UpdateSession"@,
            CdmCallError::DecryptStatus(n) =>
                "CDM Decrypt failed with status "@ + signed_decimal(n as int),
            CdmCallError::NullData => "CDM Decrypt returned null data"@,
        }
    }

    /// What is shown of the error.
    pub fn message(&self) -> (r: String)
        ensures
            r@ == self.text(),
    {
        match self {
            CdmCallError::NotInitialized => "CDM Initialize returned failure".to_owned(),
            CdmCallError::SessionRejected(m) => text::joined(
                "CDM create_session rejected: ",
                m.as_str(),
            ),
            CdmCallError::NoSessionId =>
                "CDM: no session_id after CreateSessionAndGenerateRequest".to_owned(),
            CdmCallError::NoChallenge =>
                "CDM: no license challenge after CreateSessionAndGenerateRequest".to_owned(),
            CdmCallError::UpdateRejected(m) => text::joined(
                "CDM update_session rejected: ",
                m.as_str(),
            ),
            CdmCallError::NoUsableKeys => "CDM: no usable keys after UpdateSession".to_owned(),
            CdmCallError::DecryptStatus(n) => {
                let mut out: Vec<char> = text::chars_of("CDM Decrypt failed with status ");
                let n: i64 = *n as i64;
                if n < 0 {
                    out.push('-');
                    text::push_number(&mut out, (-n) as u64);
                } else {
                    text::push_number(&mut out, n as u64);
                }
                assert(out@ =~= "CDM Decrypt failed with status "@ + signed_decimal(n as int));
                text::text_of(out.as_slice())
            },
            CdmCallError::NullData => "CDM Decrypt returned null data".to_owned(),
        }
    }
}

/// The text that `bytes` encode in UTF-8, where they do.
pub open spec fn utf8_text(bytes: Seq<u8>) -> Option<Seq<char>> {
    if vstd::utf8::valid_utf8(bytes) {
        Some(vstd::utf8::decode_utf8(bytes))
    } else {
        None
    }
}

/// `String::from_utf8` succeeds exactly on valid UTF-8, and gives the text encoded there.
#[verifier::external_body]
fn read_utf8(bytes: Vec<u8>) -> (r: Option<String>)
    ensures
        text::opt_text(r) == utf8_text(bytes@),
{
    String::from_utf8(bytes).ok()
}

/// What the module has reported since the call in progress began.
pub struct CallbackState {
    pub init_ok: bool,
    pub session_id: Option<String>,
    pub license_challenge: Option<Vec<u8>>,
    pub keys_ready: bool,
    pub promise_err: Option<String>,
}

/// What is known of a `CallbackState`.
pub struct CallbackView {
    pub init_ok: bool,
    pub session_id: Option<Seq<char>>,
    pub license_challenge: Option<Seq<u8>>,
    pub keys_ready: bool,
    pub promise_err: Option<Seq<char>>,
}

impl View for CallbackState {
    type V = CallbackView;

    open spec fn view(&self) -> CallbackView {
        CallbackView {
            init_ok: self.init_ok,
            session_id: text::opt_text(self.session_id),
            license_challenge: match self.license_challenge {
                Some(c) => Some(c@),
                None => None,
            },
            keys_ready: self.keys_ready,
            promise_err: text::opt_text(self.promise_err),
        }
    }
}

impl Default for CallbackState {
    /// Nothing has been reported.
    fn default() -> (r: Self)
        ensures
            r@ == (CallbackView {
                init_ok: false,
                session_id: None,
                license_challenge: None,
                keys_ready: false,
                promise_err: None,
            }),
    {
        CallbackState {
            init_ok: false,
            session_id: None,
            license_challenge: None,
            keys_ready: false,
            promise_err: None,
        }
    }
}

impl CallbackState {
    /// Forgets the last outcome of initialisation.
    pub fn begin_initialize(&mut self)
        ensures
            final(self)@ == (CallbackView { init_ok: false, ..old(self)@ }),
    {
        self.init_ok = false;
    }

    /// Forgets the last session.
    pub fn begin_session(&mut self)
        ensures
            final(self)@ == (CallbackView {
                session_id: None,
                license_challenge: None,
                promise_err: None,
                ..old(self)@
            }),
    {
        self.session_id = None;
        self.license_challenge = None;
        self.promise_err = None;
    }

    /// Forgets the keys and the last rejection.
    pub fn begin_update(&mut self)
        ensures
            final(self)@ == (CallbackView { keys_ready: false, promise_err: None, ..old(self)@ }),
    {
        self.keys_ready = false;
        self.promise_err = None;
    }

    /// Initialisation has ended.
    pub fn on_initialized(&mut self, success: bool)
        ensures
            final(self)@ == (CallbackView { init_ok: success, ..old(self)@ }),
    {
        self.init_ok = success;
    }

    /// The module asks for a license for a session.
    pub fn on_license_request(&mut self, session_id: &[u8], request: &[u8])
        ensures
            final(self)@ == (CallbackView {
                session_id: utf8_text(session_id@),
                license_challenge: Some(request@),
                ..old(self)@
            }),
    {
        self.session_id = read_utf8(copy_bytes(session_id));
        self.license_challenge = Some(copy_bytes(request));
    }

    /// The keys of the session have changed.
    pub fn on_keys_change(&mut self, has_usable_key: bool)
        ensures
            final(self)@ == (CallbackView { keys_ready: has_usable_key, ..old(self)@ }),
    {
        self.keys_ready = has_usable_key;
    }

    /// A call succeeded; a session identifier that is not empty replaces the known one.
    pub fn on_promise_ok(&mut self, session_id: &[u8])
        ensures
            final(self)@ == (if session_id@.len() > 0 {
                CallbackView { session_id: utf8_text(session_id@), ..old(self)@ }
            } else {
                old(self)@
            }),
    {
        if session_id.len() > 0 {
            self.session_id = read_utf8(copy_bytes(session_id));
        }
    }

    /// A call was rejected with a message, which may be empty.
    pub fn on_promise_err(&mut self, message: &str)
        ensures
            final(self)@ == (CallbackView {
                promise_err: Some(if message@.len() > 0 { message@ } else { "(no message)"@ }),
                ..old(self)@
            }),
    {
        let shown = if text::chars_of(message).len() > 0 {
            message.to_owned()
        } else {
            "(no message)".to_owned()
        };
        self.promise_err = Some(shown);
    }

    /// How initialisation ended.
    pub fn initialize_result(&self) -> (r: Result<(), CdmCallError>)
        ensures
            r is Ok <==> self@.init_ok,
            r matches Err(e) ==> e is NotInitialized,
    {
        if self.init_ok {
            Ok(())
        } else {
            Err(CdmCallError::NotInitialized)
        }
    }

    /// The identifier of the session made last, with its license challenge.
    pub fn session_result(&self) -> (r: Result<(String, Vec<u8>), CdmCallError>)
        ensures
            match r {
                Ok((id, challenge)) => {
                    &&& self@.promise_err is None
                    &&& self@.session_id == Some(id@)
                    &&& self@.license_challenge == Some(challenge@)
                },
                Err(CdmCallError::SessionRejected(m)) => self@.promise_err == Some(m@),
                Err(CdmCallError::NoSessionId) => {
                    &&& self@.promise_err is None
                    &&& self@.session_id is None
                },
                Err(CdmCallError::NoChallenge) => {
                    &&& self@.promise_err is None
                    &&& self@.session_id is Some
                    &&& self@.license_challenge is None
                },
                Err(_) => false,
            },
    {
        match &self.promise_err {
            Some(m) => Err(CdmCallError::SessionRejected(m.clone())),
            None => match &self.session_id {
                None => Err(CdmCallError::NoSessionId),
                Some(id) => match &self.license_challenge {
                    None => Err(CdmCallError::NoChallenge),
                    Some(c) => Ok((id.clone(), copy_bytes(c.as_slice()))),
                },
            },
        }
    }

    /// Whether the license given last holds a usable key.
    pub fn update_result(&self) -> (r: Result<(), CdmCallError>)
        ensures
            match r {
                Ok(()) => self@.promise_err is None && self@.keys_ready,
                Err(CdmCallError::UpdateRejected(m)) => self@.promise_err == Some(m@),
                Err(CdmCallError::NoUsableKeys) => {
                    &&& self@.promise_err is None
                    &&& !self@.keys_ready
                },
                Err(_) => false,
            },
    {
        match &self.promise_err {
            Some(m) => Err(CdmCallError::UpdateRejected(m.clone())),
            None => if self.keys_ready {
                Ok(())
            } else {
                Err(CdmCallError::NoUsableKeys)
            },
        }
    }
}

/// The counter block for an initialisation vector. One of eight bytes fills the upper half,
/// except for scheme 2 (`cbcs`), where it is used as it is.
pub open spec fn counter_block(iv: Seq<u8>, scheme: u32) -> Seq<u8> {
    if scheme != 2 && iv.len() == 8 {
        iv + seq![0u8; 8]
    } else {
        iv
    }
}

/// The counter block for an initialisation vector.
pub fn padded_iv(iv: &[u8], scheme: u32) -> (r: Vec<u8>)
    ensures
        r@ == counter_block(iv@, scheme),
{
    let mut r: Vec<u8> = copy_bytes(iv);
    if scheme != 2 && iv.len() == 8 {
        let zeros: [u8; 8] = [0u8; 8];
        push_bytes(&mut r, &zeros);
        assert(r@ =~= counter_block(iv@, scheme));
    }
    r
}

/// One entry for each pair of clear and encrypted sizes.
pub fn subsample_entries(pairs: &[(u32, u32)]) -> (r: Vec<SubsampleEntry>)
    ensures
        r@ == pairs@.map_values(
            |p: (u32, u32)| SubsampleEntry { clear_bytes: p.0, cipher_bytes: p.1 },
        ),
{
    let mut r: Vec<SubsampleEntry> = Vec::new();
    let mut i: usize = 0;
    while i < pairs.len()
        invariant
            i <= pairs@.len(),
            r@ == pairs@.take(i as int).map_values(
                |p: (u32, u32)| SubsampleEntry { clear_bytes: p.0, cipher_bytes: p.1 },
            ),
        decreases pairs@.len() - i,
    {
        let pair = pairs[i];
        r.push(SubsampleEntry { clear_bytes: pair.0, cipher_bytes: pair.1 });
        i += 1;
        assert(r@ =~= pairs@.take(i as int).map_values(
            |p: (u32, u32)| SubsampleEntry { clear_bytes: p.0, cipher_bytes: p.1 },
        ));
    }
    assert(pairs@.take(i as int) =~= pairs@);
    r
}

/// What decryption gave: data only with status 0.
pub fn decrypt_result(status: i32, data: Option<Vec<u8>>) -> (r: Result<Vec<u8>, CdmCallError>)
    ensures
        match r {
            Ok(d) => status == 0 && data == Some(d),
            Err(CdmCallError::DecryptStatus(n)) => status != 0 && n == status,
            Err(CdmCallError::NullData) => status == 0 && data is None,
            Err(_) => false,
        },
{
    if status != 0 {
        return Err(CdmCallError::DecryptStatus(status));
    }
    match data {
        Some(d) => Ok(d),
        None => Err(CdmCallError::NullData),
    }
}

/// A counter block starts with the vector, is as long as a cipher block for vectors of eight
/// and of sixteen bytes, and counts from zero; with `cbcs`, and with any other length, the
/// vector is used as it is.
pub proof fn counter_starts_at_zero(iv: Seq<u8>, scheme: u32, i: int)
    ensures
        0 <= i < iv.len() ==> counter_block(iv, scheme)[i] == iv[i],
        scheme != 2 && (iv.len() == 8 || iv.len() == 16) ==> counter_block(iv, scheme).len() == 16,
        scheme != 2 && iv.len() == 8 && 8 <= i < 16 ==> counter_block(iv, scheme)[i] == 0,
        scheme == 2 || iv.len() != 8 ==> counter_block(iv, scheme) == iv,
{
}

} // verus!
