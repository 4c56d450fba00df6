//! The connection logic client and server share: frame handling, message
//! reassembly, the closing handshake, ping/pong and timers (RFC 6455).
//!
//! The state machine is driven by the caller: bytes and timer expiries go in,
//! events for the application and outputs for the transport come out of two
//! queues. What differs between the two ends (whether frames are masked) is a
//! [`FramePolicy`].

use std::collections::VecDeque;

use vstd::prelude::*;
use vstd::string::StringSliceAdditionalSpecFns;

use crate::connection_types::{
    spec_can_transition, ConnectionEvent, ConnectionOutput, ConnectionState, EventSpec,
    OutputSpec, RandomSource, TimerId,
};
use crate::deflate::{
    codec_after_compress, codec_after_decompress, compressed_message, fresh_codec, inflated_message, CodecView,
    PerMessageDeflate,
};
use crate::error::{Error, ErrorKind};
use crate::extension::PerMessageDeflateConfig;
use crate::fragment::FragmentBuffer;
use crate::frame::{spec_encode, Frame, FrameDecoder, FrameSpec};
use crate::opcode::Opcode;
use crate::text::concat_str;

verus! {

/// Default largest frame payload (64 MiB).
pub const DEFAULT_MAX_FRAME_SIZE: usize = 64 * 1024 * 1024;

/// Default largest message (64 MiB).
pub const DEFAULT_MAX_MESSAGE_SIZE: usize = 64 * 1024 * 1024;

/// Default largest decompressed message (16 MiB).
pub const DEFAULT_MAX_DECOMPRESSED_SIZE: usize = 16 * 1024 * 1024;

/// Longest close reason, in bytes: a control frame carries at most 125 bytes
/// and the status code takes two (RFC 6455 Section 5.5).
pub const MAX_CLOSE_REASON: usize = 123;

/// Messages shorter than this are sent uncompressed.
pub const COMPRESSION_THRESHOLD: usize = 64;

// ---------------------------------------------------------------------------
// The abstract state
// ---------------------------------------------------------------------------

/// The mathematical content of a [`SharedConnectionState`].
pub struct SharedView {
    pub state: ConnectionState,
    pub close_sent: bool,
    pub close_received: bool,
    pub awaiting_pong: bool,
    pub failed: bool,
    /// Events not yet polled, oldest first.
    pub events: Seq<EventSpec>,
    /// Outputs not yet polled, oldest first.
    pub outputs: Seq<OutputSpec>,
    /// Received bytes not yet decoded into frames.
    pub pending: Seq<u8>,
    /// The opcode of the fragmented message being collected, if any.
    pub fragment: Option<Opcode>,
    pub fragment_payload: Seq<u8>,
    pub fragment_compressed: bool,
    /// The agreed permessage-deflate configuration, once enabled.
    pub deflate: Option<PerMessageDeflateConfig>,
    /// The state of the permessage-deflate codec, once enabled.
    pub codec: CodecView,
    pub max_frame_size: usize,
    pub max_message_size: usize,
    pub max_decompressed_size: usize,
    pub ping_interval_millis: u64,
    pub pong_timeout_millis: u64,
    pub close_timeout_millis: u64,
}

/// The events of a queue.
pub open spec fn events_view(q: Seq<ConnectionEvent>) -> Seq<EventSpec> {
    q.map_values(|e: ConnectionEvent| e@)
}

/// The outputs of a queue.
pub open spec fn outputs_view(q: Seq<ConnectionOutput>) -> Seq<OutputSpec> {
    q.map_values(|o: ConnectionOutput| o@)
}

/// The connection state client and server share.
pub struct SharedConnectionState {
    state: ConnectionState,
    close_sent: bool,
    close_received: bool,
    awaiting_pong: bool,
    failed: bool,
    event_queue: VecDeque<ConnectionEvent>,
    output_queue: VecDeque<ConnectionOutput>,
    frame_decoder: FrameDecoder,
    fragment_buffer: FragmentBuffer,
    deflate: Option<PerMessageDeflate>,
    max_frame_size: usize,
    max_message_size: usize,
    max_decompressed_size: usize,
    ping_interval_millis: u64,
    pong_timeout_millis: u64,
    close_timeout_millis: u64,
}

impl View for SharedConnectionState {
    type V = SharedView;

    closed spec fn view(&self) -> SharedView {
        SharedView {
            state: self.state,
            close_sent: self.close_sent,
            close_received: self.close_received,
            awaiting_pong: self.awaiting_pong,
            failed: self.failed,
            events: events_view(self.event_queue@),
            outputs: outputs_view(self.output_queue@),
            pending: self.frame_decoder@,
            fragment: self.fragment_buffer.spec_opcode(),
            fragment_payload: self.fragment_buffer.spec_payload(),
            fragment_compressed: self.fragment_buffer.spec_compressed(),
            deflate: match self.deflate {
                Some(d) => Some(d.spec_config()),
                None => None,
            },
            codec: match self.deflate {
                Some(d) => d.spec_codec(),
                None => fresh_codec(false, false),
            },
            max_frame_size: self.max_frame_size,
            max_message_size: self.max_message_size,
            max_decompressed_size: self.max_decompressed_size,
            ping_interval_millis: self.ping_interval_millis,
            pong_timeout_millis: self.pong_timeout_millis,
            close_timeout_millis: self.close_timeout_millis,
        }
    }
}

proof fn lemma_events_push(q: Seq<ConnectionEvent>, e: ConnectionEvent)
    ensures
        events_view(q.push(e)) == events_view(q).push(e@),
{
    assert(events_view(q.push(e)) =~= events_view(q).push(e@));
}

proof fn lemma_outputs_push(q: Seq<ConnectionOutput>, o: ConnectionOutput)
    ensures
        outputs_view(q.push(o)) == outputs_view(q).push(o@),
{
    assert(outputs_view(q.push(o)) =~= outputs_view(q).push(o@));
}

/// The name of a state, as the error of a refused transition spells it.
pub open spec fn spec_state_name(s: ConnectionState) -> Seq<char> {
    match s {
        ConnectionState::Disconnected => "Disconnected"@,
        ConnectionState::Connecting => "Connecting"@,
        ConnectionState::Connected => "Connected"@,
        ConnectionState::Closing => "Closing"@,
        ConnectionState::Closed => "Closed"@,
    }
}

fn state_name(s: ConnectionState) -> (r: &'static str)
    ensures
        r@ == spec_state_name(s),
{
    match s {
        ConnectionState::Disconnected => "Disconnected",
        ConnectionState::Connecting => "Connecting",
        ConnectionState::Connected => "Connected",
        ConnectionState::Closing => "Closing",
        ConnectionState::Closed => "Closed",
    }
}

/// The reason of a refused transition.
pub open spec fn transition_error(from: ConnectionState, to: ConnectionState) -> Seq<char> {
    "invalid state transition from "@ + spec_state_name(from) + " to "@ + spec_state_name(to)
}

/// What [`SharedConnectionState::set_state`] does: nothing for the current
/// state; an allowed transition changes the state and reports it with a
/// `StateChanged` event; any other is refused.
pub open spec fn set_state_post(s: SharedView, to: ConnectionState, t: SharedView, ok: bool) -> bool {
    if s.state == to {
        ok && t == s
    } else if spec_can_transition(s.state, to) {
        ok && t == SharedView { state: to, events: s.events.push(EventSpec::StateChanged(to)), ..s }
    } else {
        !ok && t == s
    }
}

// ---------------------------------------------------------------------------
// Frame policies
// ---------------------------------------------------------------------------

/// `o` sends the bytes of frame `f`: masked with some four-byte key when
/// `masked` holds (the key is chosen at random), unmasked otherwise.
pub open spec fn sends_frame(o: OutputSpec, f: FrameSpec, masked: bool) -> bool {
    match o {
        OutputSpec::SendData(b) => if masked {
            exists|k: Seq<u8>| k.len() == 4 && b == #[trigger] spec_encode(f, true, k)
        } else {
            b == spec_encode(f, false, Seq::<u8>::empty())
        },
        _ => false,
    }
}

/// What one queued output is, up to the masking key.
pub enum OutputAbs {
    /// The bytes of a frame.
    Frame(FrameSpec),
    /// `SetTimer`.
    Timer(TimerId, u64),
    /// `ClearTimer`.
    Clear(TimerId),
    /// `CloseConnection`.
    Disconnect,
}

/// `o` is the output `a` describes.
pub open spec fn output_fits(o: OutputSpec, a: OutputAbs, masked: bool) -> bool {
    match a {
        OutputAbs::Frame(f) => sends_frame(o, f, masked),
        OutputAbs::Timer(id, d) => o == OutputSpec::SetTimer { id, duration_millis: d },
        OutputAbs::Clear(id) => o == OutputSpec::ClearTimer { id },
        OutputAbs::Disconnect => o == OutputSpec::CloseConnection,
    }
}

/// `t` is `s` followed by the outputs `more` describes.
pub open spec fn outputs_follow(t: Seq<OutputSpec>, s: Seq<OutputSpec>, more: Seq<OutputAbs>, masked: bool) -> bool {
    &&& t.len() == s.len() + more.len()
    &&& t.take(s.len() as int) == s
    &&& forall|i: int| 0 <= i < more.len() ==> output_fits(t[s.len() + i], #[trigger] more[i], masked)
}

proof fn lemma_follow_nothing(s: Seq<OutputSpec>, masked: bool)
    ensures
        outputs_follow(s, s, Seq::empty(), masked),
{
    assert(s.take(s.len() as int) =~= s);
}

proof fn lemma_follow_push(s: Seq<OutputSpec>, o: OutputSpec, a: OutputAbs, masked: bool)
    requires
        output_fits(o, a, masked),
    ensures
        outputs_follow(s.push(o), s, seq![a], masked),
{
    assert(s.push(o).take(s.len() as int) =~= s);
    assert(seq![a][0] == a);
}

proof fn lemma_follow_trans(
    s: Seq<OutputSpec>,
    t: Seq<OutputSpec>,
    u: Seq<OutputSpec>,
    m1: Seq<OutputAbs>,
    m2: Seq<OutputAbs>,
    masked: bool,
)
    requires
        outputs_follow(t, s, m1, masked),
        outputs_follow(u, t, m2, masked),
    ensures
        outputs_follow(u, s, m1 + m2, masked),
{
    assert(u.take(s.len() as int) =~= t.take(s.len() as int));
    assert forall|i: int| 0 <= i < (m1 + m2).len() implies output_fits(
        u[s.len() + i],
        #[trigger] (m1 + m2)[i],
        masked,
    ) by {
        if i < m1.len() {
            assert(u[s.len() + i] == t[s.len() + i]);
            assert((m1 + m2)[i] == m1[i]);
        } else {
            let j = i - m1.len();
            assert((m1 + m2)[i] == m2[j]);
            assert(u[s.len() + i] == u[t.len() + j]);
        }
    }
}

proof fn lemma_follow_then(s: Seq<OutputSpec>, t: Seq<OutputSpec>, more: Seq<OutputAbs>, o: OutputSpec, a: OutputAbs, masked: bool)
    requires
        outputs_follow(t, s, more, masked),
        output_fits(o, a, masked),
    ensures
        outputs_follow(t.push(o), s, more.push(a), masked),
{
    lemma_follow_push(t, o, a, masked);
    lemma_follow_trans(s, t, t.push(o), more, seq![a], masked);
    assert(more + seq![a] =~= more.push(a));
}

/// The reason of a refused mask direction.
pub open spec fn masking_error(masks: bool) -> Seq<char> {
    if masks {
        "masked server frame"@
    } else {
        "unmasked client frame"@
    }
}

/// What differs between the two ends: a client masks what it sends and
/// refuses masked frames, a server does the opposite (RFC 6455 Section 5.1).
pub trait FramePolicy {
    /// Whether this end masks the frames it sends.
    spec fn masks(&self) -> bool;

    /// Checks the mask bit of a received frame.
    fn verify_frame_masking(&self, masked: bool) -> (r: Result<(), Error>)
        ensures
            r is Ok <==> masked != self.masks(),
            r matches Err(e) ==> e.kind == ErrorKind::ProtocolViolation && e.reason@
                == masking_error(self.masks()),
    ;

    /// Encodes a frame for sending.
    fn encode_frame(&mut self, frame: &Frame) -> (r: Vec<u8>)
        ensures
            final(self).masks() == old(self).masks(),
            sends_frame(OutputSpec::SendData(r@), frame@, old(self).masks()),
    ;
}

/// The client side: frames are masked with keys from a [`RandomSource`].
pub struct ClientFramePolicy<R: RandomSource> {
    random: R,
}

impl<R: RandomSource> ClientFramePolicy<R> {
    /// The random source keys and nonces are drawn from.
    pub closed spec fn source(&self) -> R {
        self.random
    }

    /// A client policy drawing its keys from `random`.
    pub fn new(random: R) -> (r: ClientFramePolicy<R>)
        ensures
            r.source() == random,
    {
        ClientFramePolicy { random }
    }

    /// A handshake nonce from the random source.
    pub fn nonce(&mut self) -> (r: [u8; 16]) {
        self.random.nonce()
    }
}

impl<R: RandomSource> FramePolicy for ClientFramePolicy<R> {
    open spec fn masks(&self) -> bool {
        true
    }

    fn verify_frame_masking(&self, masked: bool) -> (r: Result<(), Error>) {
        if masked {
            return Err(Error::with_text(ErrorKind::ProtocolViolation, "masked server frame"));
        }
        Ok(())
    }

    fn encode_frame(&mut self, frame: &Frame) -> (r: Vec<u8>) {
        let key = self.random.masking_key();
        let r = frame.encode(key);
        assert(key@.len() == 4);
        assert(r@ == spec_encode(frame@, true, key@));
        r
    }
}

/// The server side: frames are sent unmasked.
pub struct ServerFramePolicy;

impl FramePolicy for ServerFramePolicy {
    open spec fn masks(&self) -> bool {
        false
    }

    fn verify_frame_masking(&self, masked: bool) -> (r: Result<(), Error>) {
        if !masked {
            return Err(Error::with_text(ErrorKind::ProtocolViolation, "unmasked client frame"));
        }
        Ok(())
    }

    fn encode_frame(&mut self, frame: &Frame) -> (r: Vec<u8>) {
        frame.encode_unmasked()
    }
}

// ---------------------------------------------------------------------------
// Closing
// ---------------------------------------------------------------------------

/// A close frame with a status code and reason bytes.
pub open spec fn close_frame(code: u16, reason: Seq<u8>) -> FrameSpec {
    FrameSpec {
        fin: true,
        rsv1: false,
        rsv2: false,
        rsv3: false,
        opcode: Opcode::Close,
        payload: crate::frame::be16_bytes(code) + reason,
    }
}

/// What closing with `code` and `reason` does: on an established connection
/// that has not sent its close frame yet, send one (the reason cut to 123
/// bytes on a character boundary), arm the close timeout and move to
/// `Closing`; otherwise nothing.
pub open spec fn close_post(s: SharedView, t: SharedView, code: u16, reason: Seq<u8>, masked: bool) -> bool {
    if (s.state == ConnectionState::Connected || s.state == ConnectionState::Closing)
        && !s.close_sent {
        &&& outputs_follow(
            t.outputs,
            s.outputs,
            seq![
                OutputAbs::Frame(close_frame(code, crate::close::spec_truncate(reason, 123))),
                OutputAbs::Timer(TimerId::CloseTimeout, s.close_timeout_millis),
            ],
            masked,
        )
        &&& t == SharedView {
            outputs: t.outputs,
            close_sent: true,
            state: ConnectionState::Closing,
            events: if s.state == ConnectionState::Closing {
                s.events
            } else {
                s.events.push(EventSpec::StateChanged(ConnectionState::Closing))
            },
            ..s
        }
    } else {
        t == s
    }
}

// ---------------------------------------------------------------------------
// Sending
// ---------------------------------------------------------------------------

/// A final frame with no RSV bit but possibly RSV1.
pub open spec fn data_frame(opcode: Opcode, payload: Seq<u8>, rsv1: bool) -> FrameSpec {
    FrameSpec { fin: true, rsv1, rsv2: false, rsv3: false, opcode, payload }
}

/// Whether a message of `len` bytes is compressed before sending.
pub open spec fn compresses(s: SharedView, len: nat) -> bool {
    s.deflate is Some && len >= COMPRESSION_THRESHOLD
}

/// What sending a message does: one final frame goes out; when
/// permessage-deflate is on and the message has at least 64 bytes, its payload
/// is the compressed message ([`compressed_message`]) with RSV1 set, and the
/// codec's history grows by the message.
pub open spec fn message_sent(s: SharedView, t: SharedView, opcode: Opcode, payload: Seq<u8>, masked: bool, ok: bool) -> bool {
    if compresses(s, payload.len()) {
        let codec = codec_after_compress(s.codec, payload);
        &&& ok
        &&& t == SharedView { outputs: t.outputs, codec, ..s }
        &&& outputs_follow(
            t.outputs,
            s.outputs,
            seq![OutputAbs::Frame(data_frame(opcode, compressed_message(codec.sent), true))],
            masked,
        )
    } else {
        &&& ok
        &&& t == SharedView { outputs: t.outputs, ..s }
        &&& outputs_follow(t.outputs, s.outputs, seq![OutputAbs::Frame(data_frame(opcode, payload, false))], masked)
    }
}

/// What sending a ping with `data` does: the ping goes out, a pong is awaited
/// and the pong timeout is armed; more than 125 bytes is refused.
pub open spec fn ping_sent(s: SharedView, t: SharedView, data: Seq<u8>, masked: bool, ok: bool) -> bool {
    if data.len() > 125 {
        !ok && t == s
    } else {
        &&& ok
        &&& t == SharedView { outputs: t.outputs, awaiting_pong: true, ..s }
        &&& outputs_follow(
            t.outputs,
            s.outputs,
            seq![
                OutputAbs::Frame(data_frame(Opcode::Ping, data, false)),
                OutputAbs::Timer(TimerId::PongTimeout, s.pong_timeout_millis),
            ],
            masked,
        )
    }
}

// ---------------------------------------------------------------------------
// Receiving
// ---------------------------------------------------------------------------

/// `s` with one more event.
pub open spec fn with_event(s: SharedView, e: EventSpec) -> SharedView {
    SharedView { events: s.events.push(e), ..s }
}

/// The start of the message of the event reporting a text message that is
/// not UTF-8.
pub open spec fn utf8_error_prefix() -> Seq<char> {
    "invalid UTF-8 in text message: "@
}

/// An `Error` event whose message starts with [`utf8_error_prefix`] (the rest
/// is the decoder's description).
pub open spec fn is_utf8_error_event(e: EventSpec) -> bool {
    e matches EventSpec::Error(m) && m.len() >= utf8_error_prefix().len() && m.take(
        utf8_error_prefix().len() as int,
    ) == utf8_error_prefix()
}

/// What delivering a complete message does: a text message must be UTF-8
/// (RFC 6455 Section 8.1) and is reported decoded; otherwise an error event is
/// reported and the connection is closed with 1007. A binary message is
/// reported as is.
pub open spec fn message_emitted(s: SharedView, t: SharedView, opcode: Opcode, payload: Seq<u8>, masked: bool, ok: bool) -> bool {
    match opcode {
        Opcode::Text => if vstd::utf8::valid_utf8(payload) {
            ok && t == with_event(s, EventSpec::TextMessage(vstd::utf8::decode_utf8(payload)))
        } else {
            &&& !ok
            &&& t.events.len() > s.events.len()
            &&& is_utf8_error_event(t.events[s.events.len() as int])
            &&& close_post(with_event(s, t.events[s.events.len() as int]), t, 1007, "invalid UTF-8".spec_bytes(), masked)
        },
        Opcode::Binary => ok && t == with_event(s, EventSpec::BinaryMessage(payload)),
        _ => ok && t == s,
    }
}

/// What delivering a message that arrived with the given compression flag
/// does: a compressed message is decompressed first ([`inflated_message`]),
/// into at most `max_decompressed_size` bytes; a failed decompression only
/// drops the codec's receiving context; a compressed message without
/// permessage-deflate closes the connection with 1002.
pub open spec fn delivered(s: SharedView, t: SharedView, opcode: Opcode, payload: Seq<u8>, compressed: bool, masked: bool, ok: bool) -> bool {
    if !compressed {
        message_emitted(s, t, opcode, payload, masked, ok)
    } else if s.deflate is None {
        !ok && close_post(s, t, 1002, "received compressed frame without permessage-deflate".spec_bytes(), masked)
    } else {
        match inflated_message(s.codec.received, s.codec.inflated, payload) {
            Some(d) => if d.len() <= s.max_decompressed_size {
                message_emitted(
                    SharedView { codec: codec_after_decompress(s.codec, payload, true), ..s },
                    t,
                    opcode,
                    d,
                    masked,
                    ok,
                )
            } else {
                !ok && t == SharedView { codec: codec_after_decompress(s.codec, payload, false), ..s }
            },
            None => !ok && t == SharedView { codec: codec_after_decompress(s.codec, payload, false), ..s },
        }
    }
}

/// What a pong does: the pong timeout is cleared and the pong reported.
pub open spec fn pong_handled(s: SharedView, t: SharedView, payload: Seq<u8>) -> bool {
    t == SharedView {
        awaiting_pong: false,
        outputs: s.outputs.push(OutputSpec::ClearTimer { id: TimerId::PongTimeout }),
        events: s.events.push(EventSpec::Pong(payload)),
        ..s
    }
}

/// What a ping does: it is reported and, unless a close frame was received
/// (RFC 6455 Section 5.5.2), answered with a pong carrying the same data.
pub open spec fn ping_handled(s: SharedView, t: SharedView, payload: Seq<u8>, masked: bool) -> bool {
    let s1 = with_event(s, EventSpec::Ping(payload));
    if s.close_received {
        t == s1
    } else {
        &&& t == SharedView { outputs: t.outputs, ..s1 }
        &&& outputs_follow(t.outputs, s1.outputs, seq![OutputAbs::Frame(data_frame(Opcode::Pong, payload, false))], masked)
    }
}

/// What a text or binary frame does (RFC 6455 Section 5.4): no new message
/// may start while a fragmented one is being collected; a final frame is a
/// whole message; a first fragment starts collecting, unless it alone
/// exceeds the message limit (1009).
pub open spec fn data_frame_handled(s: SharedView, f: FrameSpec, t: SharedView, masked: bool, ok: bool) -> bool {
    if s.fragment is Some {
        !ok && close_post(s, t, 1002, "new message started before previous completed".spec_bytes(), masked)
    } else if f.fin {
        delivered(s, t, f.opcode, f.payload, f.rsv1, masked, ok)
    } else if f.payload.len() > s.max_message_size {
        !ok && close_post(s, t, 1009, "message too large".spec_bytes(), masked)
    } else {
        ok && t == SharedView {
            fragment: Some(f.opcode),
            fragment_payload: f.payload,
            fragment_compressed: f.rsv1,
            ..s
        }
    }
}

/// `s` with the fragment buffer emptied.
pub open spec fn without_fragment(s: SharedView) -> SharedView {
    SharedView { fragment: None, fragment_payload: Seq::empty(), fragment_compressed: false, ..s }
}

/// What a continuation frame does: it needs a message being collected
/// (1002 otherwise); its payload is appended, the whole must stay within the
/// message limit (1009 otherwise), and the final fragment delivers the
/// message with the first fragment's opcode and compression flag.
pub open spec fn continuation_handled(s: SharedView, f: FrameSpec, t: SharedView, masked: bool, ok: bool) -> bool {
    if s.fragment is None {
        !ok && close_post(s, t, 1002, "continuation frame without initial frame".spec_bytes(), masked)
    } else {
        let s1 = SharedView { fragment_payload: s.fragment_payload + f.payload, ..s };
        if s1.fragment_payload.len() > s.max_message_size {
            !ok && close_post(s1, t, 1009, "message too large".spec_bytes(), masked)
        } else if f.fin {
            delivered(without_fragment(s1), t, s.fragment->0, s1.fragment_payload, s.fragment_compressed, masked, ok)
        } else {
            ok && t == s1
        }
    }
}

/// The status code to answer a close frame with: the received code when
/// this end may send it, 1000 otherwise.
pub open spec fn close_reply_code(code: Option<u16>) -> u16 {
    match code {
        Some(c) => if crate::close::spec_close_code_sendable(c) {
            c
        } else {
            1000
        },
        None => 1000,
    }
}

/// The outputs that finish the closing handshake after a close frame: the
/// answering close frame unless one was sent already, and the three timers
/// cleared.
pub open spec fn close_outputs(close_sent: bool, reply: u16) -> Seq<OutputAbs> {
    (if !close_sent {
        seq![OutputAbs::Frame(close_frame(reply, Seq::empty()))]
    } else {
        Seq::<OutputAbs>::empty()
    }) + seq![
        OutputAbs::Clear(TimerId::PongTimeout),
        OutputAbs::Clear(TimerId::Ping),
        OutputAbs::Clear(TimerId::CloseTimeout),
    ]
}

/// What completing the closing handshake does once the close frame was
/// reported: answer it, stop waiting for a pong, clear the timers, move to
/// `Closed`, ask the transport to close and drop buffered input. When the
/// state cannot move to `Closed` the call fails after clearing the timers.
pub open spec fn close_completed(s2: SharedView, t: SharedView, reply: u16, masked: bool, ok: bool) -> bool {
    let more = close_outputs(s2.close_sent, reply);
    if spec_can_transition(s2.state, ConnectionState::Closed) {
        &&& ok
        &&& outputs_follow(t.outputs, s2.outputs, more.push(OutputAbs::Disconnect), masked)
        &&& t == SharedView {
            outputs: t.outputs,
            close_sent: true,
            awaiting_pong: false,
            state: ConnectionState::Closed,
            events: if s2.state == ConnectionState::Closed {
                s2.events
            } else {
                s2.events.push(EventSpec::StateChanged(ConnectionState::Closed))
            },
            pending: Seq::empty(),
            fragment: None,
            fragment_payload: Seq::empty(),
            fragment_compressed: false,
            ..s2
        }
    } else {
        &&& !ok
        &&& outputs_follow(t.outputs, s2.outputs, more, masked)
        &&& t == SharedView { outputs: t.outputs, close_sent: true, awaiting_pong: false, ..s2 }
    }
}

/// What a close frame does (RFC 6455 Section 5.5.1): its payload is empty or
/// holds a valid status code (Section 7.4.1) followed by a UTF-8 reason;
/// otherwise the connection is closed with 1002. A well-formed close frame is
/// reported and completes the closing handshake.
pub open spec fn close_handled(s: SharedView, f: FrameSpec, t: SharedView, masked: bool, ok: bool) -> bool {
    let s1 = SharedView { close_received: true, ..s };
    let p = f.payload;
    if p.len() == 1 {
        !ok && close_post(s1, t, 1002, "close frame payload length must be 0 or >= 2".spec_bytes(), masked)
    } else if p.len() >= 2 {
        let c = crate::frame::be16_value(p[0], p[1]);
        if !crate::close::spec_close_code_valid(c) {
            !ok && close_post(
                s1,
                t,
                1002,
                vstd::utf8::encode_utf8("invalid close code: "@ + crate::text::decimal(c as nat)),
                masked,
            )
        } else if !vstd::utf8::valid_utf8(p.skip(2)) {
            !ok && close_post(s1, t, 1002, "close frame reason is not valid UTF-8".spec_bytes(), masked)
        } else {
            close_completed(
                with_event(
                    s1,
                    EventSpec::Close {
                        code: Some(crate::close::CloseCode(c)),
                        reason: vstd::utf8::decode_utf8(p.skip(2)),
                    },
                ),
                t,
                close_reply_code(Some(c)),
                masked,
                ok,
            )
        }
    } else {
        close_completed(
            with_event(s1, EventSpec::Close { code: None, reason: Seq::empty() }),
            t,
            1000,
            masked,
            ok,
        )
    }
}

/// What a received frame does once its mask bit was accepted: frames over
/// the frame-size limit (1009), with RSV2 or RSV3 set, or with RSV1 set
/// without permessage-deflate or on a control or continuation frame (RFC 7692
/// Section 6) close the connection with 1002; the others go to the handler
/// of their opcode.
pub open spec fn frame_handled(s: SharedView, f: FrameSpec, t: SharedView, masked: bool, ok: bool) -> bool {
    if !f.opcode.spec_is_control() && f.payload.len() > s.max_frame_size {
        !ok && close_post(s, t, 1009, "frame payload too large".spec_bytes(), masked)
    } else if f.rsv2 || f.rsv3 {
        !ok && close_post(s, t, 1002, "reserved bits set".spec_bytes(), masked)
    } else if f.rsv1 && s.deflate is None {
        !ok && close_post(s, t, 1002, "rsv1 set without permessage-deflate".spec_bytes(), masked)
    } else if f.rsv1 && f.opcode.spec_is_control() {
        !ok && close_post(s, t, 1002, "rsv1 must not be set on control frames".spec_bytes(), masked)
    } else if f.rsv1 && f.opcode == Opcode::Continuation {
        !ok && close_post(s, t, 1002, "rsv1 must not be set on continuation frames".spec_bytes(), masked)
    } else {
        match f.opcode {
            Opcode::Continuation => continuation_handled(s, f, t, masked, ok),
            Opcode::Text | Opcode::Binary => data_frame_handled(s, f, t, masked, ok),
            Opcode::Close => close_handled(s, f, t, masked, ok),
            Opcode::Ping => ok && ping_handled(s, t, f.payload, masked),
            Opcode::Pong => ok && pong_handled(s, t, f.payload),
        }
    }
}

/// The close reason sent when a frame arrives with the wrong mask direction.
pub open spec fn masking_close_reason(masks: bool) -> Seq<u8> {
    vstd::utf8::encode_utf8("ProtocolViolation: "@ + masking_error(masks))
}

/// What a decoded frame does: a frame masked the wrong way (RFC 6455 Section
/// 5.1) closes the connection with 1002; any other is handled.
pub open spec fn decoded_handled(s: SharedView, f: FrameSpec, frame_masked: bool, t: SharedView, masked: bool, ok: bool) -> bool {
    if frame_masked == masked {
        !ok && close_post(s, t, 1002, masking_close_reason(masked), masked)
    } else {
        frame_handled(s, f, t, masked, ok)
    }
}

/// One frame read off the buffered input and handled: a decoded frame is
/// taken off the buffer and handled as [`decoded_handled`] states; bytes that
/// break the framing are refused with a 1002 close.
#[verifier::opaque]
pub open spec fn frame_read(s: SharedView, t: SharedView, masked: bool, ok: bool) -> bool {
    match crate::frame::spec_decode(s.pending) {
        crate::frame::DecodeOutcome::Incomplete => false,
        crate::frame::DecodeOutcome::Violation => !ok && close_post(
            s,
            t,
            1002,
            "frame decode error".spec_bytes(),
            masked,
        ),
        crate::frame::DecodeOutcome::Decoded(f, frame_masked, n) => decoded_handled(
            SharedView { pending: s.pending.skip(n as int), ..s },
            f,
            frame_masked,
            t,
            masked,
            ok,
        ),
    }
}

/// The states `tr` pass through while frames are read one after the other:
/// every read but the last succeeds; with `ok` the last succeeds too and the
/// buffer that is left holds no complete frame, without it the last read
/// fails.
pub open spec fn frames_run(tr: Seq<SharedView>, masked: bool, ok: bool) -> bool {
    &&& tr.len() >= 1
    &&& forall|i: int|
        #![trigger tr[i]]
        0 <= i < tr.len() - 1 ==> frame_read(tr[i], tr[i + 1], masked, ok || i < tr.len() - 2)
    &&& ok ==> crate::frame::spec_decode(tr.last().pending) == crate::frame::DecodeOutcome::Incomplete
    &&& !ok ==> tr.len() >= 2
}

/// `s` with `bytes` appended to the buffered input.
pub open spec fn with_input(s: SharedView, bytes: Seq<u8>) -> SharedView {
    SharedView { pending: s.pending + bytes, ..s }
}

/// Reading frames from `s` until the buffer holds no complete frame or a
/// frame fails leads to `t`, succeeding exactly when `ok`.
pub open spec fn frames_processed(s: SharedView, t: SharedView, masked: bool, ok: bool) -> bool {
    exists|tr: Seq<SharedView>| #[trigger] frames_run(tr, masked, ok) && tr[0] == s && tr.last() == t
}

/// A run of successful reads extended by one more read.
proof fn lemma_run_push(tr: Seq<SharedView>, t: SharedView, masked: bool, ok: bool)
    requires
        tr.len() >= 1,
        forall|i: int| #![trigger tr[i]] 0 <= i < tr.len() - 1 ==> frame_read(tr[i], tr[i + 1], masked, true),
        frame_read(tr.last(), t, masked, ok),
    ensures
        ok ==> forall|i: int|
            #![trigger tr.push(t)[i]]
            0 <= i < tr.push(t).len() - 1 ==> frame_read(tr.push(t)[i], tr.push(t)[i + 1], masked, true),
        forall|i: int|
            #![trigger tr.push(t)[i]]
            0 <= i < tr.push(t).len() - 1 ==> frame_read(tr.push(t)[i], tr.push(t)[i + 1], masked, ok || i < tr.push(t).len() - 2),
        tr.push(t).last() == t,
        tr.push(t)[0] == tr[0],
{
    let u = tr.push(t);
    assert forall|i: int| #![trigger u[i]] 0 <= i < u.len() - 1 implies frame_read(u[i], u[i + 1], masked, ok || i < u.len() - 2) && (ok ==> frame_read(u[i], u[i + 1], masked, true)) by {
        if i < tr.len() - 1 {
            assert(u[i] == tr[i]);
            assert(u[i + 1] == tr[i + 1]);
            assert(frame_read(tr[i], tr[i + 1], masked, true));
        } else {
            assert(u[i] == tr.last());
            assert(u[i + 1] == t);
        }
    }
}

/// Reading frames is one read followed by reading the rest: when the buffer
/// holds a complete frame or bytes that break the framing, either the first
/// read succeeds and the run goes on from its result, or the first read fails
/// and the run ends there.
pub proof fn lemma_frames_processed_first_read(s: SharedView, t: SharedView, masked: bool, ok: bool)
    requires
        frames_processed(s, t, masked, ok),
        !(crate::frame::spec_decode(s.pending) is Incomplete),
    ensures
        (exists|u: SharedView| #[trigger] frame_read(s, u, masked, true) && frames_processed(u, t, masked, ok))
            || (!ok && frame_read(s, t, masked, false)),
{
    let tr = choose|tr: Seq<SharedView>| #[trigger] frames_run(tr, masked, ok) && tr[0] == s && tr.last() == t;
    assert(tr.len() >= 2);
    assert(frame_read(tr[0], tr[1], masked, ok || 0 < tr.len() - 2));
    if ok || tr.len() > 2 {
        let rest = tr.skip(1);
        assert forall|i: int|
            #![trigger rest[i]]
            0 <= i < rest.len() - 1 implies frame_read(rest[i], rest[i + 1], masked, ok || i < rest.len() - 2) by {
            assert(rest[i] == tr[i + 1]);
            assert(rest[i + 1] == tr[i + 2]);
            assert(frame_read(tr[i + 1], tr[i + 2], masked, ok || i + 1 < tr.len() - 2));
        }
        assert(rest.last() == tr.last());
        assert(frames_run(rest, masked, ok));
        assert(frame_read(s, tr[1], masked, true));
        assert(frames_processed(tr[1], t, masked, ok));
    } else {
        assert(tr[1] == t);
    }
}

/// A read that cannot succeed ends the run in failure: when no state is a
/// successful read of the first frame, reading fails and its result is that
/// one failed read.
pub proof fn lemma_failing_read_ends_run(s: SharedView, t: SharedView, masked: bool, ok: bool)
    requires
        frames_processed(s, t, masked, ok),
        !(crate::frame::spec_decode(s.pending) is Incomplete),
        forall|u: SharedView| !#[trigger] frame_read(s, u, masked, true),
    ensures
        !ok,
        frame_read(s, t, masked, false),
{
    lemma_frames_processed_first_read(s, t, masked, ok);
}

/// A frame masked the wrong way (RFC 6455 Section 5.1) is refused: a server
/// that reads an unmasked frame, or a client that reads a masked one, fails
/// and starts the closing handshake with status 1002.
pub proof fn lemma_wrong_mask_refused(s: SharedView, t: SharedView, masked: bool, ok: bool)
    requires
        frames_processed(s, t, masked, ok),
        crate::frame::spec_decode(s.pending) matches crate::frame::DecodeOutcome::Decoded(_, m, _) && m == masked,
    ensures
        !ok,
        crate::frame::spec_decode(s.pending) matches crate::frame::DecodeOutcome::Decoded(_, _, n)
            && close_post(
            SharedView { pending: s.pending.skip(n as int), ..s },
            t,
            1002,
            masking_close_reason(masked),
            masked,
        ),
{
    reveal(frame_read);
    lemma_failing_read_ends_run(s, t, masked, ok);
}

/// A whole text message that is not valid UTF-8 (RFC 6455 Section 8.1) is
/// refused: reading fails, an error is reported, and the closing handshake
/// starts with status 1007.
pub proof fn lemma_invalid_text_refused(s: SharedView, t: SharedView, masked: bool, ok: bool)
    requires
        frames_processed(s, t, masked, ok),
        s.fragment is None,
        crate::frame::spec_decode(s.pending) matches crate::frame::DecodeOutcome::Decoded(f, m, _) && {
            &&& m != masked
            &&& f.opcode == Opcode::Text
            &&& f.fin
            &&& !f.rsv1 && !f.rsv2 && !f.rsv3
            &&& f.payload.len() <= s.max_frame_size
            &&& !vstd::utf8::valid_utf8(f.payload)
        },
    ensures
        !ok,
        crate::frame::spec_decode(s.pending) matches crate::frame::DecodeOutcome::Decoded(_, _, n) && {
            let s1 = SharedView { pending: s.pending.skip(n as int), ..s };
            &&& t.events.len() > s1.events.len()
            &&& is_utf8_error_event(t.events[s1.events.len() as int])
            &&& close_post(with_event(s1, t.events[s1.events.len() as int]), t, 1007, "invalid UTF-8".spec_bytes(), masked)
        },
{
    reveal(frame_read);
    lemma_failing_read_ends_run(s, t, masked, ok);
}

/// What a timer expiry does. `Ping`: on an established connection that is
/// not waiting for a pong, send a ping and await its pong; then re-arm the
/// ping timer if the connection is established and pings are on.
/// `PongTimeout`: if a pong is awaited, report the timeout and close with
/// 1008. `CloseTimeout`: if still closing, give up waiting, move to `Closed`
/// and close the transport.
pub open spec fn timer_handled(s: SharedView, id: TimerId, t: SharedView, masked: bool) -> bool {
    match id {
        TimerId::Ping => {
            let pinged = s.state == ConnectionState::Connected && !s.awaiting_pong;
            let first = if pinged {
                seq![
                    OutputAbs::Frame(data_frame(Opcode::Ping, Seq::empty(), false)),
                    OutputAbs::Timer(TimerId::PongTimeout, s.pong_timeout_millis),
                ]
            } else {
                Seq::<OutputAbs>::empty()
            };
            let rearm = if s.state == ConnectionState::Connected && s.ping_interval_millis > 0 {
                seq![OutputAbs::Timer(TimerId::Ping, s.ping_interval_millis)]
            } else {
                Seq::<OutputAbs>::empty()
            };
            &&& outputs_follow(t.outputs, s.outputs, first + rearm, masked)
            &&& t == SharedView { outputs: t.outputs, awaiting_pong: s.awaiting_pong || pinged, ..s }
        },
        TimerId::PongTimeout => if s.awaiting_pong {
            close_post(with_event(s, EventSpec::Error("pong timeout"@)), t, 1008, "pong timeout".spec_bytes(), masked)
        } else {
            t == s
        },
        TimerId::CloseTimeout => if s.state == ConnectionState::Closing {
            t == SharedView {
                state: ConnectionState::Closed,
                events: s.events.push(EventSpec::StateChanged(ConnectionState::Closed)),
                outputs: s.outputs.push(OutputSpec::CloseConnection),
                ..s
            }
        } else {
            t == s
        },
    }
}

// ---------------------------------------------------------------------------
// What handling a frame never does
// ---------------------------------------------------------------------------

/// The queues only grow: what was queued is still queued, in order.
pub open spec fn queues_grow(s: SharedView, t: SharedView) -> bool {
    &&& t.events.len() >= s.events.len()
    &&& t.events.take(s.events.len() as int) == s.events
    &&& t.outputs.len() >= s.outputs.len()
    &&& t.outputs.take(s.outputs.len() as int) == s.outputs
}

/// `queues_grow` is transitive.
pub proof fn lemma_queues_grow_trans(a: SharedView, b: SharedView, c: SharedView)
    requires
        queues_grow(a, b),
        queues_grow(b, c),
    ensures
        queues_grow(a, c),
{
    assert(c.events.take(a.events.len() as int) =~= b.events.take(a.events.len() as int));
    assert(c.outputs.take(a.outputs.len() as int) =~= b.outputs.take(a.outputs.len() as int));
}

/// The queues only grow, and the failure flag, the codec and the limits stay.
pub open spec fn grows(s: SharedView, t: SharedView) -> bool {
    &&& t.events.len() >= s.events.len()
    &&& t.events.take(s.events.len() as int) == s.events
    &&& t.outputs.len() >= s.outputs.len()
    &&& t.outputs.take(s.outputs.len() as int) == s.outputs
    &&& t.failed == s.failed
    &&& t.deflate == s.deflate
    &&& t.max_frame_size == s.max_frame_size
    &&& t.max_message_size == s.max_message_size
    &&& t.max_decompressed_size == s.max_decompressed_size
    &&& t.ping_interval_millis == s.ping_interval_millis
    &&& t.pong_timeout_millis == s.pong_timeout_millis
    &&& t.close_timeout_millis == s.close_timeout_millis
}

/// One step of frame handling: the queues grow, buffered input stays or is
/// dropped, and the state makes an allowed transition; a successful step
/// either keeps the state or reaches `Closed`.
pub open spec fn frame_step(s: SharedView, t: SharedView, ok: bool) -> bool {
    &&& grows(s, t)
    &&& (t.pending == s.pending || t.pending == Seq::<u8>::empty())
    &&& spec_can_transition(s.state, t.state)
    &&& ok ==> (t.state == s.state || t.state == ConnectionState::Closed)
}

proof fn lemma_follow_grows(t: Seq<OutputSpec>, s: Seq<OutputSpec>, more: Seq<OutputAbs>, masked: bool)
    requires
        outputs_follow(t, s, more, masked),
    ensures
        t.len() >= s.len(),
        t.take(s.len() as int) == s,
{
}

proof fn lemma_step_trans(a: SharedView, b: SharedView, c: SharedView, ok: bool)
    requires
        grows(a, b),
        b.pending == a.pending,
        b.state == a.state,
        frame_step(b, c, ok),
    ensures
        frame_step(a, c, ok),
{
    assert(c.events.take(a.events.len() as int) =~= b.events.take(a.events.len() as int));
    assert(c.outputs.take(a.outputs.len() as int) =~= b.outputs.take(a.outputs.len() as int));
}

proof fn lemma_grows_trans(a: SharedView, b: SharedView, c: SharedView)
    requires
        grows(a, b),
        grows(b, c),
    ensures
        grows(a, c),
{
    assert(c.events.take(a.events.len() as int) =~= b.events.take(a.events.len() as int));
    assert(c.outputs.take(a.outputs.len() as int) =~= b.outputs.take(a.outputs.len() as int));
}

proof fn lemma_close_post_step(s: SharedView, t: SharedView, code: u16, reason: Seq<u8>, masked: bool, ok: bool)
    requires
        close_post(s, t, code, reason, masked),
        !ok,
    ensures
        frame_step(s, t, ok),
{
    if (s.state == ConnectionState::Connected || s.state == ConnectionState::Closing) && !s.close_sent {
        lemma_follow_grows(t.outputs, s.outputs, seq![
            OutputAbs::Frame(close_frame(code, crate::close::spec_truncate(reason, 123))),
            OutputAbs::Timer(TimerId::CloseTimeout, s.close_timeout_millis),
        ], masked);
        assert(t.events.take(s.events.len() as int) =~= s.events);
    } else {
        assert(t.events.take(s.events.len() as int) =~= s.events);
        assert(t.outputs.take(s.outputs.len() as int) =~= s.outputs);
    }
}

proof fn lemma_event_grows(s: SharedView, e: EventSpec)
    ensures
        grows(s, with_event(s, e)),
{
    assert(s.events.push(e).take(s.events.len() as int) =~= s.events);
    assert(s.outputs.take(s.outputs.len() as int) =~= s.outputs);
}

proof fn lemma_message_step(s: SharedView, t: SharedView, opcode: Opcode, payload: Seq<u8>, masked: bool, ok: bool)
    requires
        message_emitted(s, t, opcode, payload, masked, ok),
    ensures
        frame_step(s, t, ok),
{
    assert(s.outputs.take(s.outputs.len() as int) =~= s.outputs);
    assert(s.events.take(s.events.len() as int) =~= s.events);
    match opcode {
        Opcode::Text => if vstd::utf8::valid_utf8(payload) {
            lemma_event_grows(s, EventSpec::TextMessage(vstd::utf8::decode_utf8(payload)));
        } else {
            let e = t.events[s.events.len() as int];
            lemma_event_grows(s, e);
            lemma_close_post_step(with_event(s, e), t, 1007, "invalid UTF-8".spec_bytes(), masked, ok);
            lemma_step_trans(s, with_event(s, e), t, ok);
        },
        Opcode::Binary => {
            lemma_event_grows(s, EventSpec::BinaryMessage(payload));
        },
        _ => {},
    }
}

proof fn lemma_delivered_step(s: SharedView, t: SharedView, opcode: Opcode, payload: Seq<u8>, compressed: bool, masked: bool, ok: bool)
    requires
        delivered(s, t, opcode, payload, compressed, masked, ok),
    ensures
        frame_step(s, t, ok),
{
    if !compressed {
        lemma_message_step(s, t, opcode, payload, masked, ok);
    } else if s.deflate is None {
        lemma_close_post_step(s, t, 1002, "received compressed frame without permessage-deflate".spec_bytes(), masked, ok);
    } else {
        let d = inflated_message(s.codec.received, s.codec.inflated, payload);
        if d is Some && d->0.len() <= s.max_decompressed_size {
            let s1 = SharedView { codec: codec_after_decompress(s.codec, payload, true), ..s };
            lemma_message_step(s1, t, opcode, d->0, masked, ok);
        } else {
            assert(s.outputs.take(s.outputs.len() as int) =~= s.outputs);
            assert(s.events.take(s.events.len() as int) =~= s.events);
        }
    }
}

proof fn lemma_frame_step(s: SharedView, f: FrameSpec, t: SharedView, masked: bool, ok: bool)
    requires
        frame_handled(s, f, t, masked, ok),
    ensures
        frame_step(s, t, ok),
{
    assert(s.outputs.take(s.outputs.len() as int) =~= s.outputs);
    assert(s.events.take(s.events.len() as int) =~= s.events);
    if !f.opcode.spec_is_control() && f.payload.len() > s.max_frame_size {
        lemma_close_post_step(s, t, 1009, "frame payload too large".spec_bytes(), masked, ok);
    } else if f.rsv2 || f.rsv3 {
        lemma_close_post_step(s, t, 1002, "reserved bits set".spec_bytes(), masked, ok);
    } else if f.rsv1 && s.deflate is None {
        lemma_close_post_step(s, t, 1002, "rsv1 set without permessage-deflate".spec_bytes(), masked, ok);
    } else if f.rsv1 && f.opcode.spec_is_control() {
        lemma_close_post_step(s, t, 1002, "rsv1 must not be set on control frames".spec_bytes(), masked, ok);
    } else if f.rsv1 && f.opcode == Opcode::Continuation {
        lemma_close_post_step(s, t, 1002, "rsv1 must not be set on continuation frames".spec_bytes(), masked, ok);
    } else {
        match f.opcode {
            Opcode::Continuation => {
                if s.fragment is None {
                    lemma_close_post_step(s, t, 1002, "continuation frame without initial frame".spec_bytes(), masked, ok);
                } else {
                    let s1 = SharedView { fragment_payload: s.fragment_payload + f.payload, ..s };
                    if s1.fragment_payload.len() > s.max_message_size {
                        lemma_close_post_step(s1, t, 1009, "message too large".spec_bytes(), masked, ok);
                        lemma_step_trans(s, s1, t, ok);
                    } else if f.fin {
                        lemma_delivered_step(without_fragment(s1), t, s.fragment->0, s1.fragment_payload, s.fragment_compressed, masked, ok);
                        lemma_step_trans(s, without_fragment(s1), t, ok);
                    } else {
                    }
                }
            },
            Opcode::Text | Opcode::Binary => {
                if s.fragment is Some {
                    lemma_close_post_step(s, t, 1002, "new message started before previous completed".spec_bytes(), masked, ok);
                } else if f.fin {
                    lemma_delivered_step(s, t, f.opcode, f.payload, f.rsv1, masked, ok);
                } else if f.payload.len() > s.max_message_size {
                    lemma_close_post_step(s, t, 1009, "message too large".spec_bytes(), masked, ok);
                } else {
                }
            },
            Opcode::Close => {
                lemma_close_step(s, f, t, masked, ok);
            },
            Opcode::Ping => {
                let s1 = with_event(s, EventSpec::Ping(f.payload));
                lemma_event_grows(s, EventSpec::Ping(f.payload));
                if !s.close_received {
                    lemma_follow_grows(t.outputs, s1.outputs, seq![OutputAbs::Frame(data_frame(Opcode::Pong, f.payload, false))], masked);
                    assert(t.events.take(s.events.len() as int) =~= s.events);
                }
            },
            Opcode::Pong => {
                assert(t.events.take(s.events.len() as int) =~= s.events);
                assert(t.outputs.take(s.outputs.len() as int) =~= s.outputs);
            },
        }
    }
}

proof fn lemma_completed_step(s2: SharedView, t: SharedView, reply: u16, masked: bool, ok: bool)
    requires
        close_completed(s2, t, reply, masked, ok),
    ensures
        frame_step(s2, t, ok),
{
    let more = close_outputs(s2.close_sent, reply);
    if spec_can_transition(s2.state, ConnectionState::Closed) {
        lemma_follow_grows(t.outputs, s2.outputs, more.push(OutputAbs::Disconnect), masked);
    } else {
        lemma_follow_grows(t.outputs, s2.outputs, more, masked);
    }
    assert(t.events.take(s2.events.len() as int) =~= s2.events);
}

proof fn lemma_close_step(s: SharedView, f: FrameSpec, t: SharedView, masked: bool, ok: bool)
    requires
        close_handled(s, f, t, masked, ok),
    ensures
        frame_step(s, t, ok),
{
    let s1 = SharedView { close_received: true, ..s };
    assert(s.outputs.take(s.outputs.len() as int) =~= s.outputs);
    assert(s.events.take(s.events.len() as int) =~= s.events);
    let p = f.payload;
    if p.len() == 1 {
        lemma_close_post_step(s1, t, 1002, "close frame payload length must be 0 or >= 2".spec_bytes(), masked, ok);
        lemma_step_trans(s, s1, t, ok);
    } else if p.len() >= 2 {
        let c = crate::frame::be16_value(p[0], p[1]);
        if !crate::close::spec_close_code_valid(c) {
            lemma_close_post_step(s1, t, 1002, vstd::utf8::encode_utf8("invalid close code: "@ + crate::text::decimal(c as nat)), masked, ok);
            lemma_step_trans(s, s1, t, ok);
        } else if !vstd::utf8::valid_utf8(p.skip(2)) {
            lemma_close_post_step(s1, t, 1002, "close frame reason is not valid UTF-8".spec_bytes(), masked, ok);
            lemma_step_trans(s, s1, t, ok);
        } else {
            let e = EventSpec::Close { code: Some(crate::close::CloseCode(c)), reason: vstd::utf8::decode_utf8(p.skip(2)) };
            lemma_event_grows(s1, e);
            lemma_completed_step(with_event(s1, e), t, close_reply_code(Some(c)), masked, ok);
            lemma_step_trans(s, with_event(s1, e), t, ok);
        }
    } else {
        let e = EventSpec::Close { code: None, reason: Seq::empty() };
        lemma_event_grows(s1, e);
        lemma_completed_step(with_event(s1, e), t, 1000, masked, ok);
        lemma_step_trans(s, with_event(s1, e), t, ok);
    }
}

proof fn lemma_decoded_step(s: SharedView, f: FrameSpec, frame_masked: bool, t: SharedView, masked: bool, ok: bool)
    requires
        decoded_handled(s, f, frame_masked, t, masked, ok),
    ensures
        frame_step(s, t, ok),
{
    if frame_masked == masked {
        lemma_close_post_step(s, t, 1002, masking_close_reason(masked), masked, ok);
    } else {
        lemma_frame_step(s, f, t, masked, ok);
    }
}

// ---------------------------------------------------------------------------
// Laws
// ---------------------------------------------------------------------------

/// What an endpoint sends is read back by its peer's decoder as exactly the
/// frame it meant, masked exactly when the sender is a client, taking the
/// whole output.
pub proof fn lemma_sent_frame_decodes(o: OutputSpec, f: FrameSpec, masked: bool)
    requires
        sends_frame(o, f, masked),
        crate::frame::spec_frame_wf(f),
        o matches OutputSpec::SendData(b) && b.len() <= usize::MAX,
    ensures
        o matches OutputSpec::SendData(b) && crate::frame::spec_decode(b) == crate::frame::DecodeOutcome::Decoded(
            f,
            masked,
            b.len(),
        ),
{
    if let OutputSpec::SendData(b) = o {
        let key = if masked {
            choose|k: Seq<u8>| k.len() == 4 && b == #[trigger] spec_encode(f, true, k)
        } else {
            Seq::<u8>::empty()
        };
        crate::frame::lemma_encode_decode_roundtrip(f, masked, key, Seq::<u8>::empty());
        assert(spec_encode(f, masked, key) + Seq::<u8>::empty() =~= spec_encode(f, masked, key));
    }
}

/// The status code that answers a close frame is always one this endpoint
/// may send, and so one its peer accepts (RFC 6455 Section 7.4.1).
pub proof fn lemma_close_reply_sendable(code: Option<u16>)
    ensures
        crate::close::spec_close_code_sendable(close_reply_code(code)),
        crate::close::spec_close_code_valid(close_reply_code(code)),
{
    crate::close::lemma_sendable_is_valid(close_reply_code(code));
}

proof fn lemma_boundary_at_most(b: Seq<u8>, j: int)
    ensures
        0 <= crate::close::boundary_at_most(b, j),
        j >= 0 ==> crate::close::boundary_at_most(b, j) <= j,
    decreases j,
{
    if j > 0 && !vstd::utf8::is_char_boundary(b, j) {
        lemma_boundary_at_most(b, j - 1);
    }
}

/// Every close frame this endpoint sends is a control frame its peer's
/// decoder accepts: the reason is cut so that the payload stays within 125
/// bytes (RFC 6455 Section 5.5).
pub proof fn lemma_close_frame_fits(code: u16, reason: Seq<u8>)
    ensures
        close_frame(code, crate::close::spec_truncate(reason, 123)).payload.len() <= 125,
        crate::frame::spec_frame_wf(close_frame(code, crate::close::spec_truncate(reason, 123))),
{
    lemma_boundary_at_most(reason, 123);
}

impl SharedConnectionState {
    /// A disconnected state with the given limits and timer durations.
    pub fn new(
        max_frame_size: usize,
        max_message_size: usize,
        max_decompressed_size: usize,
        ping_interval_millis: u64,
        pong_timeout_millis: u64,
        close_timeout_millis: u64,
    ) -> (r: SharedConnectionState)
        ensures
            r@ == (SharedView {
                state: ConnectionState::Disconnected,
                close_sent: false,
                close_received: false,
                awaiting_pong: false,
                failed: false,
                events: Seq::empty(),
                outputs: Seq::empty(),
                pending: Seq::empty(),
                fragment: None,
                fragment_payload: Seq::empty(),
                fragment_compressed: false,
                deflate: None,
                codec: fresh_codec(false, false),
                max_frame_size,
                max_message_size,
                max_decompressed_size,
                ping_interval_millis,
                pong_timeout_millis,
                close_timeout_millis,
            }),
    {
        let r = SharedConnectionState {
            state: ConnectionState::Disconnected,
            close_sent: false,
            close_received: false,
            awaiting_pong: false,
            failed: false,
            event_queue: VecDeque::new(),
            output_queue: VecDeque::new(),
            frame_decoder: FrameDecoder::new(),
            fragment_buffer: FragmentBuffer::new(),
            deflate: None,
            max_frame_size,
            max_message_size,
            max_decompressed_size,
            ping_interval_millis,
            pong_timeout_millis,
            close_timeout_millis,
        };
        assert(r@.events =~= Seq::<EventSpec>::empty());
        assert(r@.outputs =~= Seq::<OutputSpec>::empty());
        r
    }

    /// The current state.
    pub fn state(&self) -> (r: ConnectionState)
        ensures
            r == self@.state,
    {
        self.state
    }

    /// Whether a fatal error happened (RFC 6455 Section 7.1.7: the connection
    /// has failed).
    pub fn is_failed(&self) -> (r: bool)
        ensures
            r == self@.failed,
    {
        self.failed
    }

    /// Records a fatal error.
    pub fn mark_failed(&mut self)
        ensures
            final(self)@ == (SharedView { failed: true, ..old(self)@ }),
    {
        self.failed = true;
    }

    /// Turns on permessage-deflate once the handshake agreed on it.
    pub fn enable_deflate(&mut self, deflate: PerMessageDeflate)
        ensures
            final(self)@ == (SharedView {
                deflate: Some(deflate.spec_config()),
                codec: deflate.spec_codec(),
                ..old(self)@
            }),
    {
        self.deflate = Some(deflate);
    }

    /// Queues an event for the application.
    pub fn emit_event(&mut self, event: ConnectionEvent)
        ensures
            final(self)@ == (SharedView { events: old(self)@.events.push(event@), ..old(self)@ }),
    {
        proof {
            lemma_events_push(self.event_queue@, event);
        }
        self.event_queue.push_back(event);
    }

    /// Queues an output for the transport.
    pub fn enqueue_output(&mut self, output: ConnectionOutput)
        ensures
            final(self)@ == (SharedView { outputs: old(self)@.outputs.push(output@), ..old(self)@ }),
    {
        proof {
            lemma_outputs_push(self.output_queue@, output);
        }
        self.output_queue.push_back(output);
    }

    /// Moves to `new_state` if the transition table allows it; a move to the
    /// current state does nothing, and only an actual change is reported.
    pub fn set_state(&mut self, new_state: ConnectionState) -> (r: Result<(), Error>)
        ensures
            set_state_post(old(self)@, new_state, final(self)@, r is Ok),
            r matches Err(e) ==> e.kind == ErrorKind::InvalidState && e.reason@ == transition_error(
                old(self)@.state,
                new_state,
            ),
    {
        if self.state == new_state {
            return Ok(());
        }
        if !self.state.can_transition_to(new_state) {
            let a = concat_str("invalid state transition from ", state_name(self.state));
            let b = concat_str(a.as_str(), " to ");
            let reason = concat_str(b.as_str(), state_name(new_state));
            return Err(Error::with_reason(ErrorKind::InvalidState, reason));
        }
        self.state = new_state;
        self.emit_event(ConnectionEvent::StateChanged(new_state));
        Ok(())
    }

    /// Fails unless the connection is established.
    pub fn check_connected(&self) -> (r: Result<(), Error>)
        ensures
            r is Ok <==> self@.state == ConnectionState::Connected,
            r matches Err(e) ==> e.kind == ErrorKind::InvalidState && e.reason@ == "not connected"@,
    {
        if self.state != ConnectionState::Connected {
            return Err(Error::with_text(ErrorKind::InvalidState, "not connected"));
        }
        Ok(())
    }

    /// The oldest event not yet polled.
    pub fn poll_event(&mut self) -> (r: Option<ConnectionEvent>)
        ensures
            old(self)@.events.len() == 0 ==> r is None && final(self)@ == old(self)@,
            old(self)@.events.len() > 0 ==> (r matches Some(e) && e@ == old(self)@.events[0]
                && final(self)@ == (SharedView { events: old(self)@.events.drop_first(), ..old(self)@ })),
    {
        let ghost q = self.event_queue@;
        let r = self.event_queue.pop_front();
        proof {
            if q.len() > 0 {
                assert(events_view(self.event_queue@) =~= events_view(q).drop_first());
            }
        }
        r
    }

    /// The oldest output not yet polled.
    pub fn poll_output(&mut self) -> (r: Option<ConnectionOutput>)
        ensures
            old(self)@.outputs.len() == 0 ==> r is None && final(self)@ == old(self)@,
            old(self)@.outputs.len() > 0 ==> (r matches Some(o) && o@ == old(self)@.outputs[0]
                && final(self)@ == (SharedView { outputs: old(self)@.outputs.drop_first(), ..old(self)@ })),
    {
        let ghost q = self.output_queue@;
        let r = self.output_queue.pop_front();
        proof {
            if q.len() > 0 {
                assert(outputs_view(self.output_queue@) =~= outputs_view(q).drop_first());
            }
        }
        r
    }

    /// Encodes `frame` with `policy` and queues the bytes.
    pub fn send_frame<P: FramePolicy>(&mut self, frame: &Frame, policy: &mut P)
        ensures
            final(policy).masks() == old(policy).masks(),
            outputs_follow(final(self)@.outputs, old(self)@.outputs, seq![OutputAbs::Frame(frame@)], old(policy).masks()),
            final(self)@ == (SharedView { outputs: final(self)@.outputs, ..old(self)@ }),
    {
        let bytes = policy.encode_frame(frame);
        let ghost o = ConnectionOutput::SendData(bytes)@;
        proof {
            lemma_follow_push(self@.outputs, o, OutputAbs::Frame(frame@), policy.masks());
        }
        self.enqueue_output(ConnectionOutput::SendData(bytes));
    }

    /// Closes after an error: like [`Self::close`] but without its checks,
    /// cutting a long reason on a character boundary.
    pub fn close_internal<P: FramePolicy>(&mut self, code: crate::close::CloseCode, reason: &str, policy: &mut P)
        ensures
            final(policy).masks() == old(policy).masks(),
            close_post(old(self)@, final(self)@, code.0, reason.spec_bytes(), old(policy).masks()),
    {
        if !(self.state == ConnectionState::Connected || self.state == ConnectionState::Closing) {
            return;
        }
        if !self.close_sent {
            let ghost s0 = self@;
            let truncated = crate::close::truncate_reason(reason, MAX_CLOSE_REASON);
            let frame = Frame::close(Some(code.as_u16()), truncated);
            self.send_frame(&frame, policy);
            let ghost s1 = self@;
            self.close_sent = true;
            let timer = ConnectionOutput::SetTimer {
                id: TimerId::CloseTimeout,
                duration_millis: self.close_timeout_millis,
            };
            let ghost s2 = self@;
            self.enqueue_output(timer);
            proof {
                lemma_follow_push(s2.outputs, timer@, OutputAbs::Timer(TimerId::CloseTimeout, s0.close_timeout_millis), policy.masks());
                lemma_follow_trans(s0.outputs, s1.outputs, self@.outputs, seq![OutputAbs::Frame(frame@)], seq![OutputAbs::Timer(TimerId::CloseTimeout, s0.close_timeout_millis)], policy.masks());
                assert(seq![OutputAbs::Frame(frame@)] + seq![OutputAbs::Timer(TimerId::CloseTimeout, s0.close_timeout_millis)] =~= seq![
                    OutputAbs::Frame(close_frame(code.0, crate::close::spec_truncate(reason.spec_bytes(), 123))),
                    OutputAbs::Timer(TimerId::CloseTimeout, s0.close_timeout_millis),
                ]);
            }
            let _ = self.set_state(ConnectionState::Closing);
        }
    }

    /// Starts the closing handshake (RFC 6455 Section 7.1.2): only on an
    /// established connection, only with a code an endpoint may send
    /// (Section 7.4.1), and only with a reason of at most 123 bytes
    /// (Section 5.5).
    pub fn close<P: FramePolicy>(&mut self, code: crate::close::CloseCode, reason: &str, policy: &mut P) -> (r: Result<(), Error>)
        ensures
            final(policy).masks() == old(policy).masks(),
            !(old(self)@.state == ConnectionState::Connected || old(self)@.state == ConnectionState::Closing)
                ==> (r matches Err(e) && e.kind == ErrorKind::InvalidState && e.reason@ == "connection is not established"@),
            (old(self)@.state == ConnectionState::Connected || old(self)@.state == ConnectionState::Closing)
                && !crate::close::spec_close_code_sendable(code.0) ==> (r matches Err(e) && e.kind == ErrorKind::InvalidInput
                && e.reason@ == "close code "@ + crate::text::decimal(code.0 as nat) + " is not sendable"@),
            (old(self)@.state == ConnectionState::Connected || old(self)@.state == ConnectionState::Closing)
                && crate::close::spec_close_code_sendable(code.0) && reason.spec_bytes().len() > 123 ==> (r matches Err(e)
                && e.kind == ErrorKind::InvalidInput && e.reason@ == "close reason exceeds 123 bytes: "@
                + crate::text::decimal(reason.spec_bytes().len()) + " bytes"@),
            r is Err ==> final(self)@ == old(self)@,
            r is Ok <==> ((old(self)@.state == ConnectionState::Connected || old(self)@.state
                == ConnectionState::Closing) && crate::close::spec_close_code_sendable(code.0)
                && reason.spec_bytes().len() <= 123),
            r is Ok ==> close_post(old(self)@, final(self)@, code.0, reason.spec_bytes(), old(policy).masks()),
    {
        if !(self.state == ConnectionState::Connected || self.state == ConnectionState::Closing) {
            return Err(Error::with_text(ErrorKind::InvalidState, "connection is not established"));
        }
        if !code.is_sendable() {
            let a = concat_str("close code ", crate::text::u64_to_decimal(code.as_u16() as u64).as_str());
            return Err(Error::with_reason(ErrorKind::InvalidInput, concat_str(a.as_str(), " is not sendable")));
        }
        let reason_len = reason.as_bytes().len();
        if reason_len > MAX_CLOSE_REASON {
            let a = concat_str("close reason exceeds 123 bytes: ", crate::text::u64_to_decimal(reason_len as u64).as_str());
            return Err(Error::with_reason(ErrorKind::InvalidInput, concat_str(a.as_str(), " bytes")));
        }
        self.close_internal(code, reason, policy);
        Ok(())
    }

    /// Compresses a message when permessage-deflate is on and the message has
    /// at least 64 bytes; the flag says whether it did.
    pub fn compress_if_enabled(&mut self, payload: Vec<u8>) -> (r: Result<(Vec<u8>, bool), Error>)
        ensures
            !compresses(old(self)@, payload@.len()) ==> (r matches Ok((p, c)) && p@ == payload@ && !c
                && final(self)@ == old(self)@),
            compresses(old(self)@, payload@.len()) ==> ({
                let codec = codec_after_compress(old(self)@.codec, payload@);
                &&& r matches Ok((p, c)) && c && p@ == compressed_message(codec.sent)
                &&& final(self)@ == (SharedView { codec, ..old(self)@ })
            }),
    {
        match self.deflate.take() {
            None => Ok((payload, false)),
            Some(mut deflate) => {
                let r = if deflate.should_compress(payload.as_slice(), COMPRESSION_THRESHOLD) {
                    match deflate.compress(payload.as_slice()) {
                        Ok(c) => Ok((c, true)),
                        Err(e) => Err(e),
                    }
                } else {
                    Ok((payload, false))
                };
                self.deflate = Some(deflate);
                r
            },
        }
    }

    /// Sends one message as a single final frame, compressed when
    /// permessage-deflate is on.
    pub fn send_data_frame<P: FramePolicy>(&mut self, opcode: Opcode, payload: Vec<u8>, policy: &mut P) -> (r: Result<(), Error>)
        ensures
            final(policy).masks() == old(policy).masks(),
            message_sent(old(self)@, final(self)@, opcode, payload@, old(policy).masks(), r is Ok),
            r matches Err(e) ==> e.kind == ErrorKind::InvalidData,
    {
        let (body, compressed) = match self.compress_if_enabled(payload) {
            Ok(x) => x,
            Err(e) => return Err(e),
        };
        let mut frame = Frame::new(opcode, body);
        frame.rsv1 = compressed;
        self.send_frame(&frame, policy);
        proof {
            assert(frame@ == data_frame(opcode, body@, compressed));
        }
        Ok(())
    }

    /// Sends a text message (the connection must be established).
    pub fn send_text<P: FramePolicy>(&mut self, text: &str, policy: &mut P) -> (r: Result<(), Error>)
        ensures
            final(policy).masks() == old(policy).masks(),
            old(self)@.state != ConnectionState::Connected ==> (r matches Err(e) && e.kind
                == ErrorKind::InvalidState && final(self)@ == old(self)@),
            old(self)@.state == ConnectionState::Connected ==> message_sent(
                old(self)@,
                final(self)@,
                Opcode::Text,
                text.spec_bytes(),
                old(policy).masks(),
                r is Ok,
            ) && (r matches Err(e) ==> e.kind == ErrorKind::InvalidData),
    {
        if let Err(e) = self.check_connected() {
            return Err(e);
        }
        self.send_data_frame(Opcode::Text, crate::frame::copy_bytes(text.as_bytes()), policy)
    }

    /// Sends a binary message (the connection must be established).
    pub fn send_binary<P: FramePolicy>(&mut self, data: &[u8], policy: &mut P) -> (r: Result<(), Error>)
        ensures
            final(policy).masks() == old(policy).masks(),
            old(self)@.state != ConnectionState::Connected ==> (r matches Err(e) && e.kind
                == ErrorKind::InvalidState && final(self)@ == old(self)@),
            old(self)@.state == ConnectionState::Connected ==> message_sent(
                old(self)@,
                final(self)@,
                Opcode::Binary,
                data@,
                old(policy).masks(),
                r is Ok,
            ) && (r matches Err(e) ==> e.kind == ErrorKind::InvalidData),
    {
        if let Err(e) = self.check_connected() {
            return Err(e);
        }
        self.send_data_frame(Opcode::Binary, crate::frame::copy_bytes(data), policy)
    }

    /// Sends a ping and awaits its pong; a control frame carries at most 125
    /// bytes (RFC 6455 Section 5.5).
    pub fn send_ping_internal<P: FramePolicy>(&mut self, data: &[u8], policy: &mut P) -> (r: Result<(), Error>)
        ensures
            final(policy).masks() == old(policy).masks(),
            ping_sent(old(self)@, final(self)@, data@, old(policy).masks(), r is Ok),
            r matches Err(e) ==> e.kind == ErrorKind::InvalidInput && e.reason@
                == "ping payload exceeds 125 bytes"@,
    {
        if data.len() > 125 {
            return Err(Error::with_text(ErrorKind::InvalidInput, "ping payload exceeds 125 bytes"));
        }
        let ghost s0 = self@;
        let frame = Frame::ping(crate::frame::copy_bytes(data));
        self.send_frame(&frame, policy);
        let ghost s1 = self@;
        self.awaiting_pong = true;
        let timer = ConnectionOutput::SetTimer {
            id: TimerId::PongTimeout,
            duration_millis: self.pong_timeout_millis,
        };
        let ghost s2 = self@;
        self.enqueue_output(timer);
        proof {
            lemma_follow_push(s2.outputs, timer@, OutputAbs::Timer(TimerId::PongTimeout, s0.pong_timeout_millis), policy.masks());
            lemma_follow_trans(s0.outputs, s1.outputs, self@.outputs, seq![OutputAbs::Frame(frame@)], seq![OutputAbs::Timer(TimerId::PongTimeout, s0.pong_timeout_millis)], policy.masks());
            assert(seq![OutputAbs::Frame(frame@)] + seq![OutputAbs::Timer(TimerId::PongTimeout, s0.pong_timeout_millis)] =~= seq![
                OutputAbs::Frame(data_frame(Opcode::Ping, data@, false)),
                OutputAbs::Timer(TimerId::PongTimeout, s0.pong_timeout_millis),
            ]);
        }
        Ok(())
    }

    /// Sends a ping (the connection must be established).
    pub fn send_ping<P: FramePolicy>(&mut self, data: &[u8], policy: &mut P) -> (r: Result<(), Error>)
        ensures
            final(policy).masks() == old(policy).masks(),
            old(self)@.state != ConnectionState::Connected ==> (r matches Err(e) && e.kind
                == ErrorKind::InvalidState && final(self)@ == old(self)@),
            old(self)@.state == ConnectionState::Connected ==> ping_sent(
                old(self)@,
                final(self)@,
                data@,
                old(policy).masks(),
                r is Ok,
            ),
    {
        if let Err(e) = self.check_connected() {
            return Err(e);
        }
        self.send_ping_internal(data, policy)
    }

    /// Handles a pong.
    pub fn handle_pong(&mut self, frame: Frame) -> (r: Result<(), Error>)
        ensures
            r is Ok,
            pong_handled(old(self)@, final(self)@, frame@.payload),
    {
        self.awaiting_pong = false;
        self.enqueue_output(ConnectionOutput::ClearTimer { id: TimerId::PongTimeout });
        self.emit_event(ConnectionEvent::Pong(frame.payload));
        Ok(())
    }

    /// Handles a ping.
    pub fn handle_ping<P: FramePolicy>(&mut self, frame: Frame, policy: &mut P) -> (r: Result<(), Error>)
        ensures
            r is Ok,
            final(policy).masks() == old(policy).masks(),
            ping_handled(old(self)@, final(self)@, frame@.payload, old(policy).masks()),
    {
        let data = crate::frame::copy_bytes(frame.payload.as_slice());
        self.emit_event(ConnectionEvent::Ping(data));
        if !self.close_received {
            let pong = Frame::pong(frame.payload);
            self.send_frame(&pong, policy);
        }
        Ok(())
    }

    /// Reports a complete message.
    pub fn emit_message<P: FramePolicy>(&mut self, opcode: Opcode, payload: Vec<u8>, policy: &mut P) -> (r: Result<(), Error>)
        ensures
            final(policy).masks() == old(policy).masks(),
            message_emitted(old(self)@, final(self)@, opcode, payload@, old(policy).masks(), r is Ok),
            r matches Err(e) ==> e.kind == ErrorKind::ProtocolViolation && e.reason@
                == "invalid UTF-8 in text message"@,
    {
        let ghost s0 = self@;
        let ghost bytes = payload@;
        match opcode {
            Opcode::Text => match crate::text::string_from_utf8(payload) {
                Ok(text) => {
                    self.emit_event(ConnectionEvent::TextMessage(text));
                },
                Err(m) => {
                    let msg = concat_str("invalid UTF-8 in text message: ", m.as_str());
                    let ev = ConnectionEvent::Error(msg);
                    proof {
                        assert(msg@.take(utf8_error_prefix().len() as int) =~= utf8_error_prefix());
                    }
                    self.emit_event(ev);
                    let ghost s1 = self@;
                    self.close_internal(crate::close::CloseCode::INVALID_PAYLOAD(), "invalid UTF-8", policy);
                    proof {
                        assert(self@.events[s0.events.len() as int] == ev@);
                        assert(with_event(s0, self@.events[s0.events.len() as int]) == s1);
                    }
                    return Err(Error::with_text(ErrorKind::ProtocolViolation, "invalid UTF-8 in text message"));
                },
            },
            Opcode::Binary => {
                self.emit_event(ConnectionEvent::BinaryMessage(payload));
            },
            _ => {},
        }
        Ok(())
    }

    /// Decompresses a message that arrived compressed.
    pub fn decompress_if_needed<P: FramePolicy>(&mut self, payload: Vec<u8>, compressed: bool, policy: &mut P) -> (r: Result<Vec<u8>, Error>)
        ensures
            final(policy).masks() == old(policy).masks(),
            !compressed ==> (r matches Ok(v) && v@ == payload@ && final(self)@ == old(self)@),
            compressed && old(self)@.deflate is Some ==> {
                &&& final(self)@ == (SharedView {
                    codec: codec_after_decompress(old(self)@.codec, payload@, r is Ok),
                    ..old(self)@
                })
                &&& match inflated_message(old(self)@.codec.received, old(self)@.codec.inflated, payload@) {
                    None => r is Err,
                    Some(m) => if m.len() <= old(self)@.max_decompressed_size {
                        r matches Ok(v) && v@ == m
                    } else {
                        r is Err
                    },
                }
                &&& r matches Err(e) ==> e.kind == ErrorKind::InvalidData
            },
            compressed && old(self)@.deflate is None ==> (r matches Err(e) && e.kind
                == ErrorKind::ProtocolViolation) && close_post(
                old(self)@,
                final(self)@,
                1002,
                "received compressed frame without permessage-deflate".spec_bytes(),
                old(policy).masks(),
            ),
    {
        if !compressed {
            return Ok(payload);
        }
        match self.deflate.take() {
            Some(mut deflate) => {
                let r = deflate.decompress(payload.as_slice(), self.max_decompressed_size);
                self.deflate = Some(deflate);
                r
            },
            None => {
                self.close_internal(
                    crate::close::CloseCode::PROTOCOL_ERROR(),
                    "received compressed frame without permessage-deflate",
                    policy,
                );
                Err(
                    Error::with_text(
                        ErrorKind::ProtocolViolation,
                        "received compressed frame without permessage-deflate",
                    ),
                )
            },
        }
    }

    /// Decompresses if needed and reports a complete message.
    fn deliver<P: FramePolicy>(&mut self, opcode: Opcode, payload: Vec<u8>, compressed: bool, policy: &mut P) -> (r: Result<(), Error>)
        ensures
            final(policy).masks() == old(policy).masks(),
            delivered(old(self)@, final(self)@, opcode, payload@, compressed, old(policy).masks(), r is Ok),
    {
        let ghost s0 = self@;
        let body = match self.decompress_if_needed(payload, compressed, policy) {
            Ok(b) => b,
            Err(e) => return Err(e),
        };
        let ghost s1 = self@;
        let r = self.emit_message(opcode, body, policy);
        proof {
            if compressed {
                assert(message_emitted(s1, self@, opcode, body@, policy.masks(), r is Ok));
            }
        }
        r
    }

    /// Handles a text or binary frame.
    pub fn handle_data_frame<P: FramePolicy>(&mut self, frame: Frame, policy: &mut P) -> (r: Result<(), Error>)
        ensures
            final(policy).masks() == old(policy).masks(),
            data_frame_handled(old(self)@, frame@, final(self)@, old(policy).masks(), r is Ok),
    {
        if !self.fragment_buffer.is_empty() {
            self.close_internal(
                crate::close::CloseCode::PROTOCOL_ERROR(),
                "new message started before previous completed",
                policy,
            );
            return Err(
                Error::with_text(
                    ErrorKind::ProtocolViolation,
                    "new message started before previous completed",
                ),
            );
        }
        if frame.fin {
            self.deliver(frame.opcode, frame.payload, frame.rsv1, policy)
        } else {
            if frame.payload.len() > self.max_message_size {
                self.close_internal(crate::close::CloseCode::MESSAGE_TOO_BIG(), "message too large", policy);
                return Err(Error::with_text(ErrorKind::ProtocolViolation, "message too large"));
            }
            self.fragment_buffer.start(frame.opcode, frame.payload, frame.rsv1);
            Ok(())
        }
    }

    /// Handles a continuation frame.
    pub fn handle_continuation<P: FramePolicy>(&mut self, frame: Frame, policy: &mut P) -> (r: Result<(), Error>)
        ensures
            final(policy).masks() == old(policy).masks(),
            continuation_handled(old(self)@, frame@, final(self)@, old(policy).masks(), r is Ok),
    {
        if self.fragment_buffer.is_empty() {
            self.close_internal(
                crate::close::CloseCode::PROTOCOL_ERROR(),
                "continuation frame without initial frame",
                policy,
            );
            return Err(
                Error::with_text(ErrorKind::ProtocolViolation, "continuation frame without initial frame"),
            );
        }
        self.fragment_buffer.append(frame.payload.as_slice());
        if self.fragment_buffer.len() > self.max_message_size {
            self.close_internal(crate::close::CloseCode::MESSAGE_TOO_BIG(), "message too large", policy);
            return Err(Error::with_text(ErrorKind::ProtocolViolation, "message too large"));
        }
        if frame.fin {
            let (opcode, payload, compressed) = self.fragment_buffer.take();
            return self.deliver(opcode, payload, compressed, policy);
        }
        Ok(())
    }

    /// Handles a close frame.
    #[verifier::rlimit(40)]
    pub fn handle_close<P: FramePolicy>(&mut self, frame: Frame, policy: &mut P) -> (r: Result<(), Error>)
        ensures
            final(policy).masks() == old(policy).masks(),
            close_handled(old(self)@, frame@, final(self)@, old(policy).masks(), r is Ok),
    {
        self.close_received = true;
        let n = frame.payload.len();
        if n == 1 {
            self.close_internal(
                crate::close::CloseCode::PROTOCOL_ERROR(),
                "close frame payload length must be 0 or >= 2",
                policy,
            );
            return Err(
                Error::with_text(
                    ErrorKind::ProtocolViolation,
                    "close frame payload length must be 0 or >= 2",
                ),
            );
        }
        let (code, reason): (Option<crate::close::CloseCode>, String) = if n >= 2 {
            let code_val: u16 = ((frame.payload[0] as u16) << 8u16) | (frame.payload[1] as u16);
            let close_code = crate::close::CloseCode::new(code_val);
            if !close_code.is_valid() {
                let msg = concat_str("invalid close code: ", crate::text::u64_to_decimal(code_val as u64).as_str());
                self.close_internal(crate::close::CloseCode::PROTOCOL_ERROR(), msg.as_str(), policy);
                return Err(Error::with_reason(ErrorKind::ProtocolViolation, msg));
            }
            match crate::text::string_from_utf8(bytes_from(frame.payload.as_slice(), 2)) {
                Ok(text) => (Some(close_code), text),
                Err(_) => {
                    self.close_internal(
                        crate::close::CloseCode::PROTOCOL_ERROR(),
                        "close frame reason is not valid UTF-8",
                        policy,
                    );
                    return Err(
                        Error::with_text(
                            ErrorKind::ProtocolViolation,
                            "close frame reason is not valid UTF-8",
                        ),
                    );
                },
            }
        } else {
            (None, String::new())
        };
        let ghost reply_spec = close_reply_code(match code { Some(c) => Some(c.0), None => None });
        self.emit_event(ConnectionEvent::Close { code, reason });
        let ghost s2 = self@;
        if !self.close_sent {
            let reply_code: u16 = match code {
                Some(c) => if c.is_sendable() {
                    c.as_u16()
                } else {
                    1000
                },
                None => 1000,
            };
            let reply = Frame::close(Some(reply_code), "");
            proof {
                reveal_strlit("");
                assert(reply@ == close_frame(reply_spec, Seq::empty()));
            }
            self.send_frame(&reply, policy);
            self.close_sent = true;
        } else {
            proof {
                lemma_follow_nothing(s2.outputs, policy.masks());
            }
        }
        let ghost first: Seq<OutputAbs> = if !s2.close_sent {
            seq![OutputAbs::Frame(close_frame(reply_spec, Seq::empty()))]
        } else {
            Seq::<OutputAbs>::empty()
        };
        self.awaiting_pong = false;
        let ghost o1 = self@.outputs;
        self.enqueue_output(ConnectionOutput::ClearTimer { id: TimerId::PongTimeout });
        proof {
            lemma_follow_then(s2.outputs, o1, first, OutputSpec::ClearTimer { id: TimerId::PongTimeout }, OutputAbs::Clear(TimerId::PongTimeout), policy.masks());
        }
        let ghost o2 = self@.outputs;
        self.enqueue_output(ConnectionOutput::ClearTimer { id: TimerId::Ping });
        proof {
            lemma_follow_then(s2.outputs, o2, first.push(OutputAbs::Clear(TimerId::PongTimeout)), OutputSpec::ClearTimer { id: TimerId::Ping }, OutputAbs::Clear(TimerId::Ping), policy.masks());
        }
        let ghost o3 = self@.outputs;
        self.enqueue_output(ConnectionOutput::ClearTimer { id: TimerId::CloseTimeout });
        proof {
            lemma_follow_then(s2.outputs, o3, first.push(OutputAbs::Clear(TimerId::PongTimeout)).push(OutputAbs::Clear(TimerId::Ping)), OutputSpec::ClearTimer { id: TimerId::CloseTimeout }, OutputAbs::Clear(TimerId::CloseTimeout), policy.masks());
            assert(first.push(OutputAbs::Clear(TimerId::PongTimeout)).push(OutputAbs::Clear(TimerId::Ping)).push(OutputAbs::Clear(TimerId::CloseTimeout)) =~= close_outputs(s2.close_sent, reply_spec));
        }
        if let Err(e) = self.set_state(ConnectionState::Closed) {
            return Err(e);
        }
        let ghost o4 = self@.outputs;
        self.enqueue_output(ConnectionOutput::CloseConnection);
        proof {
            lemma_follow_then(s2.outputs, o4, close_outputs(s2.close_sent, reply_spec), OutputSpec::CloseConnection, OutputAbs::Disconnect, policy.masks());
        }
        self.frame_decoder.clear();
        self.fragment_buffer.clear();
        Ok(())
    }

    /// Checks the limits and RSV bits of a received frame and hands it to the
    /// handler of its opcode.
    pub fn handle_frame<P: FramePolicy>(&mut self, frame: Frame, policy: &mut P) -> (r: Result<(), Error>)
        ensures
            final(policy).masks() == old(policy).masks(),
            frame_handled(old(self)@, frame@, final(self)@, old(policy).masks(), r is Ok),
    {
        if !frame.opcode.is_control() && frame.payload.len() > self.max_frame_size {
            self.close_internal(crate::close::CloseCode::MESSAGE_TOO_BIG(), "frame payload too large", policy);
            return Err(Error::with_text(ErrorKind::ProtocolViolation, "frame payload too large"));
        }
        if frame.rsv2 || frame.rsv3 {
            self.close_internal(crate::close::CloseCode::PROTOCOL_ERROR(), "reserved bits set", policy);
            return Err(Error::with_text(ErrorKind::ProtocolViolation, "reserved bits set"));
        }
        if frame.rsv1 {
            if self.deflate.is_none() {
                self.close_internal(
                    crate::close::CloseCode::PROTOCOL_ERROR(),
                    "rsv1 set without permessage-deflate",
                    policy,
                );
                return Err(Error::with_text(ErrorKind::ProtocolViolation, "rsv1 set without permessage-deflate"));
            }
            if frame.opcode.is_control() {
                self.close_internal(
                    crate::close::CloseCode::PROTOCOL_ERROR(),
                    "rsv1 must not be set on control frames",
                    policy,
                );
                return Err(
                    Error::with_text(ErrorKind::ProtocolViolation, "rsv1 must not be set on control frames"),
                );
            }
            if frame.opcode == Opcode::Continuation {
                self.close_internal(
                    crate::close::CloseCode::PROTOCOL_ERROR(),
                    "rsv1 must not be set on continuation frames",
                    policy,
                );
                return Err(
                    Error::with_text(
                        ErrorKind::ProtocolViolation,
                        "rsv1 must not be set on continuation frames",
                    ),
                );
            }
        }
        match frame.opcode {
            Opcode::Continuation => self.handle_continuation(frame, policy),
            Opcode::Text | Opcode::Binary => self.handle_data_frame(frame, policy),
            Opcode::Close => self.handle_close(frame, policy),
            Opcode::Ping => self.handle_ping(frame, policy),
            Opcode::Pong => self.handle_pong(frame),
        }
    }

    /// Checks the mask bit of a decoded frame and handles it.
    pub fn handle_decoded_frame<P: FramePolicy>(&mut self, decoded: crate::frame::DecodedFrame, policy: &mut P) -> (r: Result<(), Error>)
        ensures
            final(policy).masks() == old(policy).masks(),
            decoded_handled(old(self)@, decoded.frame@, decoded.masked, final(self)@, old(policy).masks(), r is Ok),
    {
        if let Err(e) = policy.verify_frame_masking(decoded.masked) {
            let reason = concat_str("ProtocolViolation: ", e.reason.as_str());
            self.close_internal(crate::close::CloseCode::PROTOCOL_ERROR(), reason.as_str(), policy);
            return Err(e);
        }
        self.handle_frame(decoded.frame, policy)
    }

    /// Handles a timer expiry.
    pub fn handle_timer<P: FramePolicy>(&mut self, timer_id: TimerId, policy: &mut P) -> (r: Result<(), Error>)
        ensures
            r is Ok,
            final(policy).masks() == old(policy).masks(),
            timer_handled(old(self)@, timer_id, final(self)@, old(policy).masks()),
    {
        let ghost s0 = self@;
        match timer_id {
            TimerId::Ping => {
                let pinged = self.state == ConnectionState::Connected && !self.awaiting_pong;
                if pinged {
                    let no_data: Vec<u8> = Vec::new();
                    let _ = self.send_ping_internal(no_data.as_slice(), policy);
                    proof {
                        assert(no_data@ =~= Seq::<u8>::empty());
                    }
                } else {
                    proof {
                        lemma_follow_nothing(s0.outputs, policy.masks());
                    }
                }
                let ghost first = self@.outputs;
                if self.state == ConnectionState::Connected && self.ping_interval_millis > 0 {
                    let timer = ConnectionOutput::SetTimer {
                        id: TimerId::Ping,
                        duration_millis: self.ping_interval_millis,
                    };
                    self.enqueue_output(timer);
                    proof {
                        lemma_follow_then(
                            s0.outputs,
                            first,
                            if pinged {
                                seq![
                                    OutputAbs::Frame(data_frame(Opcode::Ping, Seq::empty(), false)),
                                    OutputAbs::Timer(TimerId::PongTimeout, s0.pong_timeout_millis),
                                ]
                            } else {
                                Seq::<OutputAbs>::empty()
                            },
                            timer@,
                            OutputAbs::Timer(TimerId::Ping, s0.ping_interval_millis),
                            policy.masks(),
                        );
                    }
                }
            },
            TimerId::PongTimeout => {
                if self.awaiting_pong {
                    self.emit_event(ConnectionEvent::Error(crate::text::string_from_str("pong timeout")));
                    self.close_internal(crate::close::CloseCode::POLICY_VIOLATION(), "pong timeout", policy);
                }
            },
            TimerId::CloseTimeout => {
                if self.state == ConnectionState::Closing {
                    let _ = self.set_state(ConnectionState::Closed);
                    self.enqueue_output(ConnectionOutput::CloseConnection);
                }
            },
        }
        Ok(())
    }

    /// Buffers received bytes and handles every complete frame in order,
    /// stopping at the first error. A buffer that violates the frame format
    /// closes the connection with 1002 (RFC 6455 Section 7.1.7).
    pub fn process_frames<P: FramePolicy>(&mut self, buf: &[u8], policy: &mut P) -> (r: Result<(), Error>)
        ensures
            final(policy).masks() == old(policy).masks(),
            frames_processed(
                with_input(old(self)@, buf@),
                final(self)@,
                old(policy).masks(),
                r is Ok,
            ),
            grows(old(self)@, final(self)@),
            spec_can_transition(old(self)@.state, final(self)@.state),
            r is Ok ==> crate::frame::spec_decode(final(self)@.pending) == crate::frame::DecodeOutcome::Incomplete,
    {
        let ghost s0 = self@;
        self.frame_decoder.feed(buf);
        let ghost s1 = self@;
        proof {
            assert(self@.events.take(s0.events.len() as int) =~= s0.events);
            assert(self@.outputs.take(s0.outputs.len() as int) =~= s0.outputs);
            assert(s1 == SharedView { pending: s0.pending + buf@, ..s0 });
        }
        let ghost m = policy.masks();
        let ghost mut tr: Seq<SharedView> = seq![s1];
        loop
            invariant
                policy.masks() == m,
                m == old(policy).masks(),
                s0 == old(self)@,
                s1 == (SharedView { pending: s0.pending + buf@, ..s0 }),
                grows(s0, self@),
                self@.state == s0.state || (self@.state == ConnectionState::Closed && spec_can_transition(
                    s0.state,
                    ConnectionState::Closed,
                )),
                tr.len() >= 1,
                tr[0] == s1,
                tr.last() == self@,
                forall|i: int| #![trigger tr[i]] 0 <= i < tr.len() - 1 ==> frame_read(tr[i], tr[i + 1], m, true),
            decreases self@.pending.len(),
        {
            let ghost before = self@;
            proof {
                crate::frame::lemma_decoded_len(before.pending);
            }
            match self.frame_decoder.decode_with_info() {
                Ok(Some(decoded)) => {
                    let ghost mid = self@;
                    proof {
                        assert(mid.events.take(before.events.len() as int) =~= before.events);
                        assert(mid.outputs.take(before.outputs.len() as int) =~= before.outputs);
                    }
                    let res = self.handle_decoded_frame(decoded, policy);
                    proof {
                        lemma_decoded_step(mid, decoded.frame@, decoded.masked, self@, m, res is Ok);
                        lemma_grows_trans(before, mid, self@);
                        lemma_grows_trans(s0, before, self@);
                        assert(mid == SharedView { pending: before.pending.skip(
                            (before.pending.len() - mid.pending.len()) as int), ..before });
                        assert(frame_read(before, self@, m, res is Ok)) by {
                            reveal(frame_read);
                        }
                        lemma_run_push(tr, self@, m, res is Ok);
                        tr = tr.push(self@);
                    }
                    if res.is_err() {
                        proof {
                            assert(frames_run(tr, m, false));
                        }
                        return res;
                    }
                },
                Ok(None) => {
                    proof {
                        assert(frames_run(tr, m, true));
                    }
                    return Ok(());
                },
                Err(e) => {
                    let ghost mid = self@;
                    proof {
                        assert(mid.events.take(before.events.len() as int) =~= before.events);
                        assert(mid.outputs.take(before.outputs.len() as int) =~= before.outputs);
                    }
                    self.close_internal(crate::close::CloseCode::PROTOCOL_ERROR(), "frame decode error", policy);
                    proof {
                        lemma_close_post_step(mid, self@, 1002, "frame decode error".spec_bytes(), m, false);
                        assert(grows(before, mid));
                        lemma_grows_trans(before, mid, self@);
                        lemma_grows_trans(s0, before, self@);
                        assert(frame_read(before, self@, m, false)) by {
                            reveal(frame_read);
                        }
                        lemma_run_push(tr, self@, m, false);
                        tr = tr.push(self@);
                        assert(frames_run(tr, m, false));
                    }
                    return Err(e);
                },
            }
        }
    }
}

/// The bytes of `v` from `start` on.
fn bytes_from(v: &[u8], start: usize) -> (r: Vec<u8>)
    requires
        start <= v@.len(),
    ensures
        r@ == v@.skip(start as int),
{
    let mut out: Vec<u8> = Vec::new();
    let mut i: usize = start;
    while i < v.len()
        invariant
            start <= i <= v@.len(),
            out@ == v@.subrange(start as int, i as int),
        decreases v@.len() - i,
    {
        out.push(v[i]);
        i = i + 1;
        assert(out@ =~= v@.subrange(start as int, i as int));
    }
    assert(v@.skip(start as int) =~= v@.subrange(start as int, v@.len() as int));
    out
}

} // verus!
