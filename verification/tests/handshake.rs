use gix_plumbing::handshake::{
    check_server_version, step, HandshakeAction, HandshakeError, HandshakeEvent, HandshakeState,
};
use gix_plumbing::protocol::Protocol;

#[test]
fn an_accepted_handshake_is_used_at_once() {
    assert_eq!(step(HandshakeState::Unauthenticated, HandshakeEvent::Responded), (HandshakeState::Done, HandshakeAction::UseResponse));
}

#[test]
fn denied_permission_asks_for_credentials_and_stores_accepted_ones() {
    let (state, action) = step(HandshakeState::Unauthenticated, HandshakeEvent::PermissionDenied);
    assert_eq!(action, HandshakeAction::GetCredentials);
    let (state, action) = step(state, HandshakeEvent::CredentialsGiven);
    assert_eq!(action, HandshakeAction::SetIdentity);
    let (state, action) = step(state, HandshakeEvent::IdentitySet);
    assert_eq!(action, HandshakeAction::HandshakeAgain);
    let (state, action) = step(state, HandshakeEvent::Responded);
    assert_eq!(action, HandshakeAction::StoreCredentials);
    assert_eq!(step(state, HandshakeEvent::HelperDone), (HandshakeState::Done, HandshakeAction::UseResponse));
}

#[test]
fn refused_credentials_are_erased_before_failing() {
    let (state, action) = step(HandshakeState::Authenticated, HandshakeEvent::PermissionDenied);
    assert_eq!(action, HandshakeAction::EraseCredentials);
    assert_eq!(
        step(state, HandshakeEvent::HelperDone),
        (HandshakeState::Done, HandshakeAction::Fail(HandshakeError::CredentialsRejected))
    );
    assert_eq!(
        step(state, HandshakeEvent::HelperFailed),
        (HandshakeState::Done, HandshakeAction::Fail(HandshakeError::EraseCredentials))
    );
}

#[test]
fn other_failures_end_the_handshake() {
    assert_eq!(
        step(HandshakeState::Unauthenticated, HandshakeEvent::Failed { retryable: true }),
        (HandshakeState::Done, HandshakeAction::Fail(HandshakeError::Transport { retryable: true }))
    );
    assert_eq!(
        step(HandshakeState::Authenticated, HandshakeEvent::Failed { retryable: false }),
        (HandshakeState::Done, HandshakeAction::Fail(HandshakeError::Transport { retryable: false })),
        "credentials are kept when it is unknown whether the server tried them"
    );
    assert_eq!(
        step(HandshakeState::AwaitingCredentials, HandshakeEvent::NoCredentials),
        (HandshakeState::Done, HandshakeAction::Fail(HandshakeError::NoCredentials))
    );
    assert_eq!(
        step(HandshakeState::AwaitingCredentials, HandshakeEvent::HelperFailed),
        (HandshakeState::Done, HandshakeAction::Fail(HandshakeError::ObtainCredentials))
    );
    assert_eq!(
        step(HandshakeState::SettingIdentity, HandshakeEvent::IdentityRefused),
        (HandshakeState::Done, HandshakeAction::Fail(HandshakeError::SetIdentity))
    );
    assert_eq!(
        step(HandshakeState::StoringCredentials, HandshakeEvent::HelperFailed),
        (HandshakeState::Done, HandshakeAction::Fail(HandshakeError::StoreCredentials))
    );
}

#[test]
fn the_server_version_must_be_supported_unless_all_are() {
    assert!(check_server_version(&[], Protocol::V2).is_ok());
    assert!(check_server_version(&[Protocol::V1, Protocol::V2], Protocol::V2).is_ok());
    assert_eq!(
        check_server_version(&[Protocol::V1], Protocol::V2),
        Err(HandshakeError::UnsupportedVersion { actual: Protocol::V2 })
    );
}
