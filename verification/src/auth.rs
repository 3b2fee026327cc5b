//! How a user is authenticated, and what is reported of it, of the channels and of a
//! stream.

use crate::app::AppMsg;
use crate::channel::Channel;
use crate::text::{chars_of, push_text, text_of};
use vstd::prelude::*;

verus! {

/// What an operator asks for next.
#[derive(Debug, Clone, Copy, PartialEq, Eq)]
pub enum AuthPhase {
    Password,
    /// Approval on a telephone.
    Push,
    /// A one-time code.
    Otp,
    Done,
}

/// What a step of authentication gave.
#[derive(Debug)]
pub enum AuthEvent {
    /// The operator asks for this next.
    Reached(AuthPhase),
    /// The operator refuses, with this message.
    Failed(String),
    /// The user has entered a code, or given up.
    Code(Option<String>),
}

/// What is done next.
#[derive(Debug, PartialEq, Eq)]
pub enum AuthAction {
    /// Begin an authentication in phases.
    Begin,
    /// Authenticate with user name and password.
    Authenticate,
    SendPassword,
    /// Tell the user that approval is waited for, and wait.
    AwaitPush,
    /// Ask the user for a one-time code.
    AskCode,
    SubmitCode(String),
    FetchChannels,
    /// Report that authentication failed.
    Report(String),
    /// The user has given up.
    Stop,
}

/// The first step.
pub fn auth_start(phased: bool) -> (r: AuthAction)
    ensures
        r == if phased { AuthAction::Begin } else { AuthAction::Authenticate },
{
    if phased {
        AuthAction::Begin
    } else {
        AuthAction::Authenticate
    }
}

/// The step after an event.
pub open spec fn next_auth(event: AuthEvent) -> AuthAction {
    match event {
        AuthEvent::Reached(AuthPhase::Password) => AuthAction::SendPassword,
        AuthEvent::Reached(AuthPhase::Push) => AuthAction::AwaitPush,
        AuthEvent::Reached(AuthPhase::Otp) => AuthAction::AskCode,
        AuthEvent::Reached(AuthPhase::Done) => AuthAction::FetchChannels,
        AuthEvent::Failed(message) => AuthAction::Report(message),
        AuthEvent::Code(Some(code)) => AuthAction::SubmitCode(code),
        AuthEvent::Code(None) => AuthAction::Stop,
    }
}

/// The step after an event.
pub fn auth_next(event: AuthEvent) -> (r: AuthAction)
    ensures
        r == next_auth(event),
{
    match event {
        AuthEvent::Reached(AuthPhase::Password) => AuthAction::SendPassword,
        AuthEvent::Reached(AuthPhase::Push) => AuthAction::AwaitPush,
        AuthEvent::Reached(AuthPhase::Otp) => AuthAction::AskCode,
        AuthEvent::Reached(AuthPhase::Done) => AuthAction::FetchChannels,
        AuthEvent::Failed(message) => AuthAction::Report(message),
        AuthEvent::Code(Some(code)) => AuthAction::SubmitCode(code),
        AuthEvent::Code(None) => AuthAction::Stop,
    }
}

/// Channels are fetched only once the operator asks for nothing more.
pub proof fn channels_are_fetched_after_authentication(event: AuthEvent)
    ensures
        next_auth(event) is FetchChannels <==> event == AuthEvent::Reached(AuthPhase::Done),
        next_auth(event) is Report <==> event is Failed,
        next_auth(event) is Stop <==> event == AuthEvent::Code(None),
{
}

/// Why an operator did not answer a request.
#[derive(Debug)]
pub enum FetchError {
    /// The session is no longer valid.
    InvalidCredentials,
    Other(String),
}

/// What is reported of the channels.
pub fn channels_message(
    result: Result<Vec<Channel>, FetchError>,
    session_token: Option<String>,
    kind_str: String,
    username: String,
) -> (r: AppMsg)
    ensures
        r == (match result {
            Ok(channels) => AppMsg::ChannelsOk { channels, session_token, kind_str, username },
            Err(FetchError::InvalidCredentials) => AppMsg::SessionExpired,
            Err(FetchError::Other(message)) => AppMsg::ChannelsErr(message),
        }),
{
    match result {
        Ok(channels) => AppMsg::ChannelsOk { channels, session_token, kind_str, username },
        Err(FetchError::InvalidCredentials) => AppMsg::SessionExpired,
        Err(FetchError::Other(message)) => AppMsg::ChannelsErr(message),
    }
}

/// What is reported of a stream: whether it is protected, or why there is none.
pub fn stream_message(result: Result<bool, FetchError>) -> (r: AppMsg)
    ensures
        r == (match result {
            Ok(protected) => AppMsg::StreamOk { protected },
            Err(FetchError::InvalidCredentials) => AppMsg::SessionExpired,
            Err(FetchError::Other(message)) => AppMsg::StreamErr(message),
        }),
{
    match result {
        Ok(protected) => AppMsg::StreamOk { protected },
        Err(FetchError::InvalidCredentials) => AppMsg::SessionExpired,
        Err(FetchError::Other(message)) => AppMsg::StreamErr(message),
    }
}

/// An error and its causes, one behind the other.
pub open spec fn chain_text(first: Seq<char>, causes: Seq<String>) -> Seq<char>
    decreases causes.len(),
{
    if causes.len() == 0 {
        first
    } else {
        chain_text(first, causes.drop_last()) + " → "@ + causes.last()@
    }
}

/// An error and its causes, one behind the other.
pub fn error_chain(first: &str, causes: &Vec<String>) -> (r: String)
    ensures
        r@ == chain_text(first@, causes@),
{
    let mut out: Vec<char> = chars_of(first);
    let mut i: usize = 0;
    assert(causes@.take(0) =~= Seq::<String>::empty());
    while i < causes.len()
        invariant
            i <= causes@.len(),
            out@ == chain_text(first@, causes@.take(i as int)),
        decreases causes@.len() - i,
    {
        push_text(&mut out, " → ");
        push_text(&mut out, causes[i].as_str());
        i += 1;
        assert(causes@.take(i as int).drop_last() =~= causes@.take(i - 1));
    }
    assert(causes@.take(i as int) =~= causes@);
    text_of(out.as_slice())
}

/// Each phase of signing in is answered by its own step, and a code that is given is the one
/// that is submitted.
pub proof fn each_phase_has_its_step(code: String)
    ensures
        next_auth(AuthEvent::Reached(AuthPhase::Password)) is SendPassword,
        next_auth(AuthEvent::Reached(AuthPhase::Push)) is AwaitPush,
        next_auth(AuthEvent::Reached(AuthPhase::Otp)) is AskCode,
        next_auth(AuthEvent::Code(Some(code))) == AuthAction::SubmitCode(code),
        next_auth(AuthEvent::Failed(code)) == AuthAction::Report(code),
{
}

} // verus!
