//! A sans-I/O WebSocket protocol library (RFC 6455, RFC 7692) whose frame codec,
//! header grammar, negotiation rules and connection state machine are stated
//! and proved with Verus.

pub mod text;
pub mod opcode;
pub mod error;
pub mod frame;
pub mod close;
pub mod time;
pub mod token;
pub mod connection_types;
pub mod extension;
pub mod handshake;
pub mod buf;
pub mod fragment;
pub mod deflate;
pub mod shared;
pub mod response;
pub mod request;
pub mod client;
pub mod server_request;
pub mod server;
pub mod agreement;

pub use buf::{ByteSliceExt, VecExt};
pub use client::{ClientConnectionOptions, WebSocketClientConnection};
pub use close::CloseCode;
pub use connection_types::{
    ConnectionEvent, ConnectionOutput, ConnectionState, RandomSource, TimerId,
};
pub use deflate::{Compressor, Decompressor, PerMessageDeflate};
pub use error::{Error, ErrorKind, HttpResponseInfo};
pub use extension::{
    Extension, ExtensionParam, ExtensionParseContext, ExtensionParseError, PerMessageDeflateConfig,
};
pub use frame::{DecodedFrame, Frame, FrameDecoder};
pub use handshake::{calculate_accept, calculate_accept_from_key};
pub use opcode::Opcode;
pub use request::HandshakeRequest;
pub use response::{HandshakeResponse, HandshakeValidator, ServerHandshakeResponse};
pub use server::{ServerConnectionOptions, WebSocketServerConnection};
pub use server_request::{HandshakeRequestValidator, ServerHandshakeRequest};
pub use shared::SharedConnectionState;
pub use time::Timestamp;
pub use token::is_valid_token;
