use shiguredo_websocket::shared::{
    DEFAULT_MAX_DECOMPRESSED_SIZE, DEFAULT_MAX_FRAME_SIZE, DEFAULT_MAX_MESSAGE_SIZE,
};
use shiguredo_websocket::{ConnectionEvent, ConnectionState, ErrorKind, SharedConnectionState};

fn new_shared() -> SharedConnectionState {
    SharedConnectionState::new(
        DEFAULT_MAX_FRAME_SIZE,
        DEFAULT_MAX_MESSAGE_SIZE,
        DEFAULT_MAX_DECOMPRESSED_SIZE,
        0,
        0,
        0,
    )
}

#[test]
fn set_state_allows_permitted_transition_and_emits_state_changed() {
    let mut shared = new_shared();
    assert!(matches!(
        shared.set_state(ConnectionState::Connecting),
        Ok(())
    ));
    assert_eq!(shared.state(), ConnectionState::Connecting);
    let event = shared
        .poll_event()
        .expect("StateChanged event must be emitted");
    assert_eq!(
        event,
        ConnectionEvent::StateChanged(ConnectionState::Connecting)
    );
}

#[test]
fn set_state_to_same_state_is_noop_ok() {
    let mut shared = new_shared();
    assert!(matches!(
        shared.set_state(ConnectionState::Disconnected),
        Ok(())
    ));
    assert!(shared.poll_event().is_none());
}

#[test]
fn set_state_rejects_invalid_transition_with_invalid_state() {
    let mut shared = new_shared();
    let err = shared
        .set_state(ConnectionState::Connected)
        .expect_err("invalid transition must return Err");
    assert_eq!(err.kind, ErrorKind::InvalidState);
    assert!(err.reason.contains("Disconnected"));
    assert!(err.reason.contains("Connected"));
    assert_eq!(shared.state(), ConnectionState::Disconnected);
    assert!(shared.poll_event().is_none());
}

#[test]
fn set_state_rejects_transitions_from_terminal_state() {
    let mut shared = new_shared();
    shared
        .set_state(ConnectionState::Connecting)
        .expect("Disconnected -> Connecting");
    shared
        .set_state(ConnectionState::Connected)
        .expect("Connecting -> Connected");
    shared
        .set_state(ConnectionState::Closing)
        .expect("Connected -> Closing");
    shared
        .set_state(ConnectionState::Closed)
        .expect("Closing -> Closed");
    for next in [
        ConnectionState::Disconnected,
        ConnectionState::Connecting,
        ConnectionState::Connected,
        ConnectionState::Closing,
    ] {
        let err = shared
            .set_state(next)
            .expect_err("transition from Closed must be rejected");
        assert_eq!(err.kind, ErrorKind::InvalidState);
    }
    assert_eq!(shared.state(), ConnectionState::Closed);
}
