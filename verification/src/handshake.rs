//! The decisions of a handshake with a server: when to ask for credentials after the server
//! denied permission, when to keep or drop them, how the handshake ends, and whether the
//! transport can speak the version the server answered with. The caller performs each action
//! with the transport and the credential helper, and reports what happened.
use vstd::prelude::*;

use crate::protocol::Protocol;

verus! {

/// Where a handshake stands.
#[derive(Debug, Clone, Copy, PartialEq, Eq, Structural)]
pub enum HandshakeState {
    /// The handshake was sent without credentials.
    Unauthenticated,
    /// The server denied permission, and the credential helper was asked for credentials.
    AwaitingCredentials,
    /// The identity of the credentials is being set on the transport.
    SettingIdentity,
    /// The handshake was sent again, with the identity set.
    Authenticated,
    /// The server accepted the credentials, and they are being stored.
    StoringCredentials,
    /// The server refused the credentials, and they are being erased.
    ErasingCredentials,
    /// The handshake is over.
    Done,
}

/// What performing the last action gave.
#[derive(Debug, Clone, Copy, PartialEq, Eq, Structural)]
pub enum HandshakeEvent {
    /// The transport's handshake succeeded.
    Responded,
    /// The transport's handshake failed as the server denied permission.
    PermissionDenied,
    /// The transport's handshake failed otherwise; `retryable` if trying again might succeed.
    Failed { retryable: bool },
    /// The credential helper gave credentials.
    CredentialsGiven,
    /// The credential helper gave no credentials at all.
    NoCredentials,
    /// The credential helper failed.
    HelperFailed,
    /// The identity was set on the transport.
    IdentitySet,
    /// Setting the identity on the transport failed.
    IdentityRefused,
    /// The credentials were stored, or erased.
    HelperDone,
}

/// Why a handshake failed.
#[derive(Debug, Clone, Copy, PartialEq, Eq, Structural)]
pub enum HandshakeError {
    /// The transport's handshake failed; `retryable` if trying again might succeed.
    Transport { retryable: bool },
    /// The credential helper failed to give credentials.
    ObtainCredentials,
    /// The credential helper gave no credentials, as if it did not work.
    NoCredentials,
    /// The identity could not be set on the transport.
    SetIdentity,
    /// The accepted credentials could not be stored.
    StoreCredentials,
    /// The refused credentials could not be erased.
    EraseCredentials,
    /// The server did not accept the credentials.
    CredentialsRejected,
    /// The transport does not support the version the server answered with.
    UnsupportedVersion { actual: Protocol },
}

/// What to do next.
#[derive(Debug, Clone, Copy, PartialEq, Eq, Structural)]
pub enum HandshakeAction {
    /// Ask the credential helper for credentials for the transport's URL.
    GetCredentials,
    /// Set the identity of the credentials on the transport.
    SetIdentity,
    /// Send the handshake again.
    HandshakeAgain,
    /// Tell the credential helper to store the credentials.
    StoreCredentials,
    /// Tell the credential helper to erase the credentials.
    EraseCredentials,
    /// The handshake is over, and the response of the last handshake is to be used.
    UseResponse,
    /// The handshake failed.
    Fail(HandshakeError),
}

/// The events that can follow the action that led to `state`.
pub open spec fn expects(state: HandshakeState, event: HandshakeEvent) -> bool {
    match state {
        HandshakeState::Unauthenticated | HandshakeState::Authenticated => event is Responded || event is PermissionDenied
            || event is Failed,
        HandshakeState::AwaitingCredentials => event is CredentialsGiven || event is NoCredentials || event is HelperFailed,
        HandshakeState::SettingIdentity => event is IdentitySet || event is IdentityRefused,
        HandshakeState::StoringCredentials | HandshakeState::ErasingCredentials => event is HelperDone || event is HelperFailed,
        HandshakeState::Done => false,
    }
}

/// The next state and action after `event` in `state`: a denied first handshake asks for
/// credentials, sets their identity and sends the handshake again; credentials the server then
/// accepts are stored, and credentials it refuses are erased before the handshake fails; every
/// other failure ends the handshake at once.
pub open spec fn next_step(state: HandshakeState, event: HandshakeEvent) -> (HandshakeState, HandshakeAction) {
    match (state, event) {
        (HandshakeState::Unauthenticated, HandshakeEvent::Responded) => (HandshakeState::Done, HandshakeAction::UseResponse),
        (HandshakeState::Unauthenticated, HandshakeEvent::PermissionDenied) => (
            HandshakeState::AwaitingCredentials,
            HandshakeAction::GetCredentials,
        ),
        (HandshakeState::AwaitingCredentials, HandshakeEvent::CredentialsGiven) => (
            HandshakeState::SettingIdentity,
            HandshakeAction::SetIdentity,
        ),
        (HandshakeState::AwaitingCredentials, HandshakeEvent::NoCredentials) => (
            HandshakeState::Done,
            HandshakeAction::Fail(HandshakeError::NoCredentials),
        ),
        (HandshakeState::AwaitingCredentials, _) => (
            HandshakeState::Done,
            HandshakeAction::Fail(HandshakeError::ObtainCredentials),
        ),
        (HandshakeState::SettingIdentity, HandshakeEvent::IdentitySet) => (
            HandshakeState::Authenticated,
            HandshakeAction::HandshakeAgain,
        ),
        (HandshakeState::SettingIdentity, _) => (HandshakeState::Done, HandshakeAction::Fail(HandshakeError::SetIdentity)),
        (HandshakeState::Authenticated, HandshakeEvent::Responded) => (
            HandshakeState::StoringCredentials,
            HandshakeAction::StoreCredentials,
        ),
        (HandshakeState::Authenticated, HandshakeEvent::PermissionDenied) => (
            HandshakeState::ErasingCredentials,
            HandshakeAction::EraseCredentials,
        ),
        (HandshakeState::StoringCredentials, HandshakeEvent::HelperDone) => (HandshakeState::Done, HandshakeAction::UseResponse),
        (HandshakeState::StoringCredentials, _) => (
            HandshakeState::Done,
            HandshakeAction::Fail(HandshakeError::StoreCredentials),
        ),
        (HandshakeState::ErasingCredentials, HandshakeEvent::HelperDone) => (
            HandshakeState::Done,
            HandshakeAction::Fail(HandshakeError::CredentialsRejected),
        ),
        (HandshakeState::ErasingCredentials, _) => (
            HandshakeState::Done,
            HandshakeAction::Fail(HandshakeError::EraseCredentials),
        ),
        (_, HandshakeEvent::Failed { retryable }) => (
            HandshakeState::Done,
            HandshakeAction::Fail(HandshakeError::Transport { retryable }),
        ),
        _ => (HandshakeState::Done, HandshakeAction::Fail(HandshakeError::Transport { retryable: false })),
    }
}

/// `true` if `event` can follow the action that led to `state`, as [`expects`] says.
pub fn event_expected(state: HandshakeState, event: HandshakeEvent) -> (r: bool)
    ensures
        r == expects(state, event),
{
    match state {
        HandshakeState::Unauthenticated | HandshakeState::Authenticated => match event {
            HandshakeEvent::Responded | HandshakeEvent::PermissionDenied | HandshakeEvent::Failed { .. } => true,
            _ => false,
        },
        HandshakeState::AwaitingCredentials => match event {
            HandshakeEvent::CredentialsGiven | HandshakeEvent::NoCredentials | HandshakeEvent::HelperFailed => true,
            _ => false,
        },
        HandshakeState::SettingIdentity => match event {
            HandshakeEvent::IdentitySet | HandshakeEvent::IdentityRefused => true,
            _ => false,
        },
        HandshakeState::StoringCredentials | HandshakeState::ErasingCredentials => match event {
            HandshakeEvent::HelperDone | HandshakeEvent::HelperFailed => true,
            _ => false,
        },
        HandshakeState::Done => false,
    }
}

/// Decide what follows `event` in `state`, as [`next_step`] describes it.
pub fn step(state: HandshakeState, event: HandshakeEvent) -> (r: (HandshakeState, HandshakeAction))
    requires
        expects(state, event),
    ensures
        r == next_step(state, event),
{
    match (state, event) {
        (HandshakeState::Unauthenticated, HandshakeEvent::Responded) => (HandshakeState::Done, HandshakeAction::UseResponse),
        (HandshakeState::Unauthenticated, HandshakeEvent::PermissionDenied) => (
            HandshakeState::AwaitingCredentials,
            HandshakeAction::GetCredentials,
        ),
        (HandshakeState::AwaitingCredentials, HandshakeEvent::CredentialsGiven) => (
            HandshakeState::SettingIdentity,
            HandshakeAction::SetIdentity,
        ),
        (HandshakeState::AwaitingCredentials, HandshakeEvent::NoCredentials) => (
            HandshakeState::Done,
            HandshakeAction::Fail(HandshakeError::NoCredentials),
        ),
        (HandshakeState::AwaitingCredentials, _) => (
            HandshakeState::Done,
            HandshakeAction::Fail(HandshakeError::ObtainCredentials),
        ),
        (HandshakeState::SettingIdentity, HandshakeEvent::IdentitySet) => (
            HandshakeState::Authenticated,
            HandshakeAction::HandshakeAgain,
        ),
        (HandshakeState::SettingIdentity, _) => (HandshakeState::Done, HandshakeAction::Fail(HandshakeError::SetIdentity)),
        (HandshakeState::Authenticated, HandshakeEvent::Responded) => (
            HandshakeState::StoringCredentials,
            HandshakeAction::StoreCredentials,
        ),
        (HandshakeState::Authenticated, HandshakeEvent::PermissionDenied) => (
            HandshakeState::ErasingCredentials,
            HandshakeAction::EraseCredentials,
        ),
        (HandshakeState::StoringCredentials, HandshakeEvent::HelperDone) => (HandshakeState::Done, HandshakeAction::UseResponse),
        (HandshakeState::StoringCredentials, _) => (
            HandshakeState::Done,
            HandshakeAction::Fail(HandshakeError::StoreCredentials),
        ),
        (HandshakeState::ErasingCredentials, HandshakeEvent::HelperDone) => (
            HandshakeState::Done,
            HandshakeAction::Fail(HandshakeError::CredentialsRejected),
        ),
        (HandshakeState::ErasingCredentials, _) => (
            HandshakeState::Done,
            HandshakeAction::Fail(HandshakeError::EraseCredentials),
        ),
        (_, HandshakeEvent::Failed { retryable }) => (
            HandshakeState::Done,
            HandshakeAction::Fail(HandshakeError::Transport { retryable }),
        ),
        _ => (HandshakeState::Done, HandshakeAction::Fail(HandshakeError::Transport { retryable: false })),
    }
}

/// How many steps a handshake in `state` takes at most before it is done.
pub open spec fn steps_left(state: HandshakeState) -> nat {
    match state {
        HandshakeState::Unauthenticated => 5,
        HandshakeState::AwaitingCredentials => 4,
        HandshakeState::SettingIdentity => 3,
        HandshakeState::Authenticated => 2,
        HandshakeState::StoringCredentials | HandshakeState::ErasingCredentials => 1,
        HandshakeState::Done => 0,
    }
}

/// Every step brings a handshake closer to its end, so it ends after at most five steps, and
/// finishing is exactly what ends it; credentials are stored only after the server accepted
/// them, and erased only after it refused them.
pub proof fn lemma_handshake_progresses(state: HandshakeState, event: HandshakeEvent)
    requires
        expects(state, event),
    ensures
        steps_left(next_step(state, event).0) < steps_left(state),
        (next_step(state, event).0 == HandshakeState::Done) == (next_step(state, event).1 is UseResponse || next_step(
            state,
            event,
        ).1 is Fail),
        next_step(state, event).1 == HandshakeAction::StoreCredentials ==> state == HandshakeState::Authenticated && event
            == HandshakeEvent::Responded,
        next_step(state, event).1 == HandshakeAction::EraseCredentials ==> state == HandshakeState::Authenticated && event
            == HandshakeEvent::PermissionDenied,
{
}

/// The transport accepts the version the server answered with: it supports every version if its
/// list is empty.
pub open spec fn version_accepted(supported: Seq<Protocol>, actual: Protocol) -> bool {
    supported.len() == 0 || supported.contains(actual)
}

/// Check that the transport, supporting the versions `supported`, can go on with the version
/// `actual` the server answered with.
pub fn check_server_version(supported: &[Protocol], actual: Protocol) -> (r: Result<(), HandshakeError>)
    ensures
        match r {
            Ok(()) => version_accepted(supported@, actual),
            Err(e) => !version_accepted(supported@, actual) && e == HandshakeError::UnsupportedVersion { actual },
        },
{
    if supported.len() == 0 {
        return Ok(());
    }
    let mut i: usize = 0;
    while i < supported.len()
        invariant
            i <= supported@.len(),
            forall|j: int| 0 <= j < i ==> supported@[j] != actual,
        decreases supported.len() - i,
    {
        if supported[i] == actual {
            assert(supported@[i as int] == actual);
            return Ok(());
        }
        i += 1;
    }
    Err(HandshakeError::UnsupportedVersion { actual })
}

} // verus!
