//! Connection states, events and outputs shared by client and server.

use vstd::prelude::*;

use crate::close::CloseCode;

verus! {

/// Source of the randomness a client needs: masking keys and handshake nonces.
///
/// The library only declares the trait; callers implement it, typically with a
/// cryptographically secure generator.
pub trait RandomSource: Send {
    /// A fresh 4-byte masking key.
    fn masking_key(&mut self) -> [u8; 4];

    /// A fresh 16-byte handshake nonce.
    fn nonce(&mut self) -> [u8; 16];
}

/// Connection state.
///
/// Allowed transitions (a transition to the same state is a no-op):
/// Disconnected -> Connecting, Connecting -> Connected, Connecting -> Closed,
/// Connected -> Closing, Connected -> Closed, Closing -> Closed.
#[derive(Debug, Clone, Copy, PartialEq, Eq, Structural)]
pub enum ConnectionState {
    /// Not connected.
    Disconnected,
    /// Opening handshake in progress.
    Connecting,
    /// Connection established.
    Connected,
    /// Closing handshake in progress.
    Closing,
    /// Closed.
    Closed,
}

/// The transition table of [`ConnectionState`].
pub open spec fn spec_can_transition(from: ConnectionState, to: ConnectionState) -> bool {
    from == to || (from == ConnectionState::Disconnected && to == ConnectionState::Connecting)
        || (from == ConnectionState::Connecting && to == ConnectionState::Connected) || (from
        == ConnectionState::Connecting && to == ConnectionState::Closed) || (from
        == ConnectionState::Connected && to == ConnectionState::Closing) || (from
        == ConnectionState::Connected && to == ConnectionState::Closed) || (from
        == ConnectionState::Closing && to == ConnectionState::Closed)
}

/// The position of a state in the life of a connection.
pub open spec fn state_rank(s: ConnectionState) -> int {
    match s {
        ConnectionState::Disconnected => 0,
        ConnectionState::Connecting => 1,
        ConnectionState::Connected => 2,
        ConnectionState::Closing => 3,
        ConnectionState::Closed => 4,
    }
}

impl Default for ConnectionState {
    fn default() -> (r: ConnectionState)
        ensures
            r == ConnectionState::Disconnected,
    {
        ConnectionState::Disconnected
    }
}

impl ConnectionState {
    /// Whether moving to `next` is allowed; moving to the same state is.
    pub fn can_transition_to(self, next: ConnectionState) -> (r: bool)
        ensures
            r == spec_can_transition(self, next),
    {
        if self == next {
            return true;
        }
        matches!(
            (self, next),
            (ConnectionState::Disconnected, ConnectionState::Connecting) | (
                ConnectionState::Connecting,
                ConnectionState::Connected,
            ) | (ConnectionState::Connecting, ConnectionState::Closed) | (
                ConnectionState::Connected,
                ConnectionState::Closing,
            ) | (ConnectionState::Connected, ConnectionState::Closed) | (
                ConnectionState::Closing,
                ConnectionState::Closed,
            )
        )
    }
}

/// Allowed transitions only move forward in the life of a connection, and
/// nothing leaves `Closed`.
pub proof fn lemma_transitions_move_forward(from: ConnectionState, to: ConnectionState)
    ensures
        spec_can_transition(from, to) ==> state_rank(from) <= state_rank(to),
        spec_can_transition(ConnectionState::Closed, to) ==> to == ConnectionState::Closed,
        spec_can_transition(from, to) && spec_can_transition(to, from) ==> from == to,
{
}

/// Timer identifiers.
#[derive(Debug, Clone, Copy, PartialEq, Eq, Hash, Structural)]
pub enum TimerId {
    /// Periodic ping.
    Ping,
    /// Waiting for a pong.
    PongTimeout,
    /// Waiting for the peer's close frame.
    CloseTimeout,
}

/// Events for the application.
#[derive(Debug, Clone, PartialEq, Eq)]
pub enum ConnectionEvent {
    /// The opening handshake completed.
    Connected {
        /// Negotiated subprotocol.
        protocol: Option<String>,
        /// Negotiated extensions.
        extensions: Vec<String>,
    },
    /// A text message arrived.
    TextMessage(String),
    /// A binary message arrived.
    BinaryMessage(Vec<u8>),
    /// A ping arrived.
    Ping(Vec<u8>),
    /// A pong arrived.
    Pong(Vec<u8>),
    /// A close frame arrived.
    Close { code: Option<CloseCode>, reason: String },
    /// The connection state changed.
    StateChanged(ConnectionState),
    /// An error happened.
    Error(String),
}

/// The mathematical content of a [`ConnectionEvent`].
pub enum EventSpec {
    Connected { protocol: Option<Seq<char>>, extensions: Seq<Seq<char>> },
    TextMessage(Seq<char>),
    BinaryMessage(Seq<u8>),
    Ping(Seq<u8>),
    Pong(Seq<u8>),
    Close { code: Option<CloseCode>, reason: Seq<char> },
    StateChanged(ConnectionState),
    Error(Seq<char>),
}

/// The characters of each string.
pub open spec fn strings_view(v: Seq<String>) -> Seq<Seq<char>> {
    v.map_values(|s: String| s@)
}

/// The characters of an optional string.
pub open spec fn opt_string_view(o: Option<String>) -> Option<Seq<char>> {
    match o {
        Some(s) => Some(s@),
        None => None,
    }
}

impl View for ConnectionEvent {
    type V = EventSpec;

    open spec fn view(&self) -> EventSpec {
        match self {
            ConnectionEvent::Connected { protocol, extensions } => EventSpec::Connected {
                protocol: opt_string_view(*protocol),
                extensions: strings_view(extensions@),
            },
            ConnectionEvent::TextMessage(t) => EventSpec::TextMessage(t@),
            ConnectionEvent::BinaryMessage(b) => EventSpec::BinaryMessage(b@),
            ConnectionEvent::Ping(b) => EventSpec::Ping(b@),
            ConnectionEvent::Pong(b) => EventSpec::Pong(b@),
            ConnectionEvent::Close { code, reason } => EventSpec::Close { code: *code, reason: reason@ },
            ConnectionEvent::StateChanged(s) => EventSpec::StateChanged(*s),
            ConnectionEvent::Error(m) => EventSpec::Error(m@),
        }
    }
}

/// Actions the caller must perform.
#[derive(Debug, Clone, PartialEq, Eq)]
pub enum ConnectionOutput {
    /// Send these bytes.
    SendData(Vec<u8>),
    /// Arm a timer.
    SetTimer { id: TimerId, duration_millis: u64 },
    /// Disarm a timer.
    ClearTimer { id: TimerId },
    /// Close the transport.
    CloseConnection,
}

/// The mathematical content of a [`ConnectionOutput`].
pub enum OutputSpec {
    SendData(Seq<u8>),
    SetTimer { id: TimerId, duration_millis: u64 },
    ClearTimer { id: TimerId },
    CloseConnection,
}

impl View for ConnectionOutput {
    type V = OutputSpec;

    open spec fn view(&self) -> OutputSpec {
        match self {
            ConnectionOutput::SendData(b) => OutputSpec::SendData(b@),
            ConnectionOutput::SetTimer { id, duration_millis } => OutputSpec::SetTimer {
                id: *id,
                duration_millis: *duration_millis,
            },
            ConnectionOutput::ClearTimer { id } => OutputSpec::ClearTimer { id: *id },
            ConnectionOutput::CloseConnection => OutputSpec::CloseConnection,
        }
    }
}

} // verus!
