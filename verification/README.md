# shiguredo_websocket

A sans-I/O WebSocket library (RFC 6455, with permessage-deflate from RFC 7692)
whose protocol logic is written in Verus and proved against its contracts.
The caller moves bytes between the socket and the connection objects; the
library decides what to send, what to report and when to close.

## Layout

- `src/` — the verified library.
  - `frame.rs`, `opcode.rs`, `close.rs`, `buf.rs`: the frame codec and its
    parts; encoding followed by decoding gives the frame back.
  - `extension.rs`, `token.rs`, `text.rs`: the `Sec-WebSocket-Extensions`
    grammar and the permessage-deflate parameters.
  - `handshake.rs`, `request.rs`, `response.rs`, `server_request.rs`: building
    and checking the opening handshake; `agreement.rs` proves that what one
    side sends passes the other side's check.
  - `shared.rs`, `client.rs`, `server.rs`, `connection_types.rs`, `time.rs`,
    `fragment.rs`, `deflate.rs`: the connection state machines.
  - Calls into `aws-lc-rs` (SHA-1), `base64ct`, `noflate` (DEFLATE) and
    `shiguredo_http11` (HTTP/1.1 framing) go through small trusted wrappers
    whose contracts are documented next to them.
- `tests/` — tests of the library through its public interface.
- `app/` — `Display` and `std::error::Error` for copies of the error types.
