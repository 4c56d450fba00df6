//! The client side of a connection (sans I/O): the opening handshake, then
//! the shared frame handling.

use vstd::prelude::*;

use crate::close::CloseCode;
use crate::connection_types::{
    opt_string_view, spec_can_transition, state_rank, strings_view, ConnectionEvent, ConnectionOutput,
    ConnectionState, EventSpec, OutputSpec, RandomSource, TimerId,
};
use crate::deflate::PerMessageDeflate;
use crate::error::{headers_view, Error, ErrorKind};
use crate::extension::{
    cmwb_name, parse_error_text, pmd_name, spec_from_extension_validated, spec_parse_extensions,
    spec_split, spec_strict_error, ExtSpec, Extension, ExtensionParseContext, PerMessageDeflateConfig,
};
use crate::response::{HandshakeResponse, HandshakeSpec, HandshakeValidator};
use crate::shared::{
    ClientFramePolicy, SharedConnectionState, SharedView, DEFAULT_MAX_DECOMPRESSED_SIZE,
    DEFAULT_MAX_FRAME_SIZE, DEFAULT_MAX_MESSAGE_SIZE,
};
use crate::text::{concat_str, decimal, str_eq, string_from_str, u64_to_decimal};
use crate::time::Timestamp;

verus! {

// ---------------------------------------------------------------------------
// Options
// ---------------------------------------------------------------------------

/// The mathematical content of [`ClientConnectionOptions`].
pub struct ClientOptionsSpec {
    pub path: Seq<char>,
    pub host: Seq<char>,
    pub origin: Option<Seq<char>>,
    pub protocols: Seq<Seq<char>>,
    pub deflate_config: Option<PerMessageDeflateConfig>,
    pub additional_headers: Seq<(Seq<char>, Seq<char>)>,
    pub ping_interval_millis: u64,
    pub pong_timeout_millis: u64,
    pub close_timeout_millis: u64,
    pub max_frame_size: usize,
    pub max_message_size: usize,
    pub max_decompressed_size: usize,
}

/// Client connection options.
#[derive(Debug, Clone)]
pub struct ClientConnectionOptions {
    /// Request path.
    pub path: String,
    /// `Host` field.
    pub host: String,
    /// `Origin` field.
    pub origin: Option<String>,
    /// Offered subprotocols.
    pub protocols: Vec<String>,
    /// permessage-deflate offer.
    pub deflate_config: Option<PerMessageDeflateConfig>,
    /// More request header fields.
    pub additional_headers: Vec<(String, String)>,
    /// Ping interval in milliseconds (0 turns pings off).
    pub ping_interval_millis: u64,
    /// Pong timeout in milliseconds.
    pub pong_timeout_millis: u64,
    /// Close timeout in milliseconds.
    pub close_timeout_millis: u64,
    /// Largest frame payload accepted.
    pub max_frame_size: usize,
    /// Largest message accepted (fragments together).
    pub max_message_size: usize,
    /// Largest decompressed message accepted.
    pub max_decompressed_size: usize,
}

impl View for ClientConnectionOptions {
    type V = ClientOptionsSpec;

    open spec fn view(&self) -> ClientOptionsSpec {
        ClientOptionsSpec {
            path: self.path@,
            host: self.host@,
            origin: opt_string_view(self.origin),
            protocols: strings_view(self.protocols@),
            deflate_config: self.deflate_config,
            additional_headers: headers_view(self.additional_headers@),
            ping_interval_millis: self.ping_interval_millis,
            pong_timeout_millis: self.pong_timeout_millis,
            close_timeout_millis: self.close_timeout_millis,
            max_frame_size: self.max_frame_size,
            max_message_size: self.max_message_size,
            max_decompressed_size: self.max_decompressed_size,
        }
    }
}

/// The opening request a client with options `o` sends: its path, host and
/// origin, its subprotocols, the permessage-deflate offer of its
/// configuration if any, and its extra fields.
pub open spec fn spec_client_request(o: ClientOptionsSpec) -> crate::request::RequestSpec {
    crate::request::RequestSpec {
        path: o.path,
        host: o.host,
        origin: o.origin,
        protocols: o.protocols,
        extensions: match o.deflate_config {
            Some(c) => seq![crate::extension::spec_encode_extension(
                ExtSpec { name: pmd_name(), params: crate::extension::spec_config_params(c) },
            )],
            None => Seq::empty(),
        },
        headers: o.additional_headers,
    }
}

/// The default client options for `host` and `path`: no origin, subprotocol,
/// extension or extra field; pings every 30 s, a 10 s pong timeout, a 5 s
/// close timeout, and the default limits.
pub open spec fn default_client_options(host: Seq<char>, path: Seq<char>) -> ClientOptionsSpec {
    ClientOptionsSpec {
        path,
        host,
        origin: None,
        protocols: Seq::empty(),
        deflate_config: None,
        additional_headers: Seq::empty(),
        ping_interval_millis: 30000,
        pong_timeout_millis: 10000,
        close_timeout_millis: 5000,
        max_frame_size: DEFAULT_MAX_FRAME_SIZE,
        max_message_size: DEFAULT_MAX_MESSAGE_SIZE,
        max_decompressed_size: DEFAULT_MAX_DECOMPRESSED_SIZE,
    }
}

impl Default for ClientConnectionOptions {
    fn default() -> (r: ClientConnectionOptions)
        ensures
            r@ == default_client_options("localhost"@, "/"@),
    {
        ClientConnectionOptions::new("localhost", "/")
    }
}

impl ClientConnectionOptions {
    /// Options for `host` and `path`, the rest at its default.
    pub fn new(host: &str, path: &str) -> (r: ClientConnectionOptions)
        ensures
            r@ == default_client_options(host@, path@),
    {
        let r = ClientConnectionOptions {
            path: string_from_str(path),
            host: string_from_str(host),
            origin: None,
            protocols: Vec::new(),
            deflate_config: None,
            additional_headers: Vec::new(),
            ping_interval_millis: 30000,
            pong_timeout_millis: 10000,
            close_timeout_millis: 5000,
            max_frame_size: DEFAULT_MAX_FRAME_SIZE,
            max_message_size: DEFAULT_MAX_MESSAGE_SIZE,
            max_decompressed_size: DEFAULT_MAX_DECOMPRESSED_SIZE,
        };
        assert(r@.protocols =~= Seq::<Seq<char>>::empty());
        assert(r@.additional_headers =~= Seq::<(Seq<char>, Seq<char>)>::empty());
        r
    }

    /// Sets the `Origin` field.
    pub fn origin(self, origin: &str) -> (r: ClientConnectionOptions)
        ensures
            r@ == (ClientOptionsSpec { origin: Some(origin@), ..self@ }),
    {
        ClientConnectionOptions { origin: Some(string_from_str(origin)), ..self }
    }

    /// Offers one more subprotocol.
    pub fn protocol(self, protocol: &str) -> (r: ClientConnectionOptions)
        ensures
            r@ == (ClientOptionsSpec { protocols: self@.protocols.push(protocol@), ..self@ }),
    {
        let mut protocols = self.protocols;
        let p = string_from_str(protocol);
        proof {
            assert(strings_view(protocols@.push(p)) =~= strings_view(protocols@).push(p@));
        }
        protocols.push(p);
        ClientConnectionOptions { protocols, ..self }
    }

    /// Offers permessage-deflate with `config`.
    pub fn deflate(self, config: PerMessageDeflateConfig) -> (r: ClientConnectionOptions)
        ensures
            r@ == (ClientOptionsSpec { deflate_config: Some(config), ..self@ }),
    {
        ClientConnectionOptions { deflate_config: Some(config), ..self }
    }

    /// Adds a request header field.
    pub fn header(self, name: &str, value: &str) -> (r: ClientConnectionOptions)
        ensures
            r@ == (ClientOptionsSpec {
                additional_headers: self@.additional_headers.push((name@, value@)),
                ..self@
            }),
    {
        let mut headers = self.additional_headers;
        let h = (string_from_str(name), string_from_str(value));
        proof {
            assert(headers_view(headers@.push(h)) =~= headers_view(headers@).push((name@, value@)));
        }
        headers.push(h);
        ClientConnectionOptions { additional_headers: headers, ..self }
    }

    /// Sets the ping interval.
    pub fn ping_interval(self, millis: u64) -> (r: ClientConnectionOptions)
        ensures
            r@ == (ClientOptionsSpec { ping_interval_millis: millis, ..self@ }),
    {
        ClientConnectionOptions { ping_interval_millis: millis, ..self }
    }

    /// Sets the largest frame payload accepted.
    pub fn max_frame_size(self, size: usize) -> (r: ClientConnectionOptions)
        ensures
            r@ == (ClientOptionsSpec { max_frame_size: size, ..self@ }),
    {
        ClientConnectionOptions { max_frame_size: size, ..self }
    }

    /// Sets the largest message accepted.
    pub fn max_message_size(self, size: usize) -> (r: ClientConnectionOptions)
        ensures
            r@ == (ClientOptionsSpec { max_message_size: size, ..self@ }),
    {
        ClientConnectionOptions { max_message_size: size, ..self }
    }

    /// Sets the largest decompressed message accepted (zip bomb protection).
    pub fn max_decompressed_size(self, size: usize) -> (r: ClientConnectionOptions)
        ensures
            r@ == (ClientOptionsSpec { max_decompressed_size: size, ..self@ }),
    {
        ClientConnectionOptions { max_decompressed_size: size, ..self }
    }
}

// ---------------------------------------------------------------------------
// Checking what the server agreed to
// ---------------------------------------------------------------------------

/// The name of the first extension from `k` on that the client did not
/// offer (it offers permessage-deflate only when configured).
pub open spec fn first_unsolicited(es: Seq<ExtSpec>, offered_deflate: bool, k: int) -> Option<Seq<char>>
    decreases es.len() - k,
{
    if k >= es.len() || k < 0 {
        None
    } else if !(offered_deflate && es[k].name == pmd_name()) {
        Some(es[k].name)
    } else {
        first_unsolicited(es, offered_deflate, k + 1)
    }
}

/// The first problem with the accepted extension elements from `k` on: one
/// that breaks the grammar (RFC 6455 Section 9.1), or names an extension
/// the client did not offer (Section 4.2.2).
pub open spec fn extensions_problem(exts: Seq<Seq<char>>, offered_deflate: bool, k: int) -> Option<Seq<char>>
    decreases exts.len() - k,
{
    if k >= exts.len() || k < 0 {
        None
    } else {
        match spec_strict_error(spec_split(exts[k], ','), 0) {
            Some(m) => Some("invalid Sec-WebSocket-Extensions value: "@ + m),
            None => match first_unsolicited(spec_parse_extensions(exts[k]), offered_deflate, 0) {
                Some(n) => Some("server returned unsolicited extension: "@ + n),
                None => extensions_problem(exts, offered_deflate, k + 1),
            },
        }
    }
}

/// The extensions all the elements list, in order.
pub open spec fn all_extensions(exts: Seq<Seq<char>>) -> Seq<ExtSpec>
    decreases exts.len(),
{
    if exts.len() == 0 {
        Seq::empty()
    } else {
        all_extensions(exts.drop_last()) + spec_parse_extensions(exts.last())
    }
}

/// The permessage-deflate entries among `es`.
pub open spec fn pmd_entries(es: Seq<ExtSpec>) -> Seq<ExtSpec>
    decreases es.len(),
{
    if es.len() == 0 {
        Seq::empty()
    } else if es.last().name == pmd_name() {
        pmd_entries(es.drop_last()).push(es.last())
    } else {
        pmd_entries(es.drop_last())
    }
}

/// Whether `e` has a parameter named `name`.
pub open spec fn has_param(e: ExtSpec, name: Seq<char>) -> bool {
    exists|i: int| 0 <= i < e.params.len() && #[trigger] e.params[i].name == name
}

/// `got` is above `offered`, both present.
pub open spec fn exceeds(got: Option<u8>, offered: Option<u8>) -> bool {
    got is Some && offered is Some && got->0 > offered->0
}

/// Checking the permessage-deflate answer `e` against the client's offer
/// (RFC 7692 Section 7.1.2): it must be a valid response; a client window
/// size may only come back if one was offered; the window sizes may not
/// exceed the offer; and a client window below 15 bits is not supported. The
/// result is the configuration to use, `None` when an unrequested answer is
/// ignored, or the reason for failing the connection.
pub open spec fn check_deflate_answer(e: ExtSpec, offer: Option<PerMessageDeflateConfig>) -> Result<Option<PerMessageDeflateConfig>, Seq<char>> {
    match spec_from_extension_validated(e, ExtensionParseContext::ClientResponse) {
        Ok(config) => match offer {
            Some(dc) => if has_param(e, cmwb_name()) && dc.client_max_window_bits is None {
                Err("server included client_max_window_bits without client offer"@)
            } else if exceeds(config.server_max_window_bits, dc.server_max_window_bits) {
                Err(
                    "server_max_window_bits "@ + decimal(config.server_max_window_bits->0 as nat)
                        + " exceeds client offer "@ + decimal(dc.server_max_window_bits->0 as nat),
                )
            } else if exceeds(config.client_max_window_bits, dc.client_max_window_bits) {
                Err(
                    "client_max_window_bits "@ + decimal(config.client_max_window_bits->0 as nat)
                        + " exceeds client offer "@ + decimal(dc.client_max_window_bits->0 as nat),
                )
            } else if config.client_max_window_bits is Some && config.client_max_window_bits->0 < 15 {
                Err(
                    "client_max_window_bits="@ + decimal(config.client_max_window_bits->0 as nat)
                        + " is not supported (only 15 is supported)"@,
                )
            } else {
                Ok(Some(config))
            },
            None => Ok(Some(config)),
        },
        Err(pe) => if offer is Some {
            Err("invalid permessage-deflate response: "@ + parse_error_text(pe))
        } else {
            Ok(None)
        },
    }
}

/// Whether the subprotocol the server chose was not offered.
pub open spec fn unsolicited_protocol(resp: HandshakeSpec, opts: ClientOptionsSpec) -> bool {
    resp.protocol is Some && !opts.protocols.contains(resp.protocol->0)
}

/// What the client makes of a validated response: the subprotocol must be one
/// it offered, the extensions must be well-formed and offered, at most one
/// permessage-deflate element may come back, and it must fit the offer. The
/// result is the permessage-deflate configuration to use, if any, or the
/// reason for failing the connection.
pub open spec fn spec_handshake_outcome(resp: HandshakeSpec, opts: ClientOptionsSpec) -> Result<Option<PerMessageDeflateConfig>, Seq<char>> {
    if unsolicited_protocol(resp, opts) {
        Err("server returned unsolicited protocol: "@ + resp.protocol->0)
    } else {
        match extensions_problem(resp.extensions, opts.deflate_config is Some, 0) {
            Some(m) => Err(m),
            None => {
                let pm = pmd_entries(all_extensions(resp.extensions));
                if pm.len() > 1 {
                    Err("server returned multiple permessage-deflate elements"@)
                } else if pm.len() == 0 {
                    Ok(None)
                } else {
                    check_deflate_answer(pm[0], opts.deflate_config)
                }
            },
        }
    }
}

/// What reading `buf` during the opening handshake does to the shared state
/// `s` (to `t`, succeeding exactly when `ok`), for a client with options
/// `opts` whose response validator is `v`: bytes the validator refuses, a
/// malformed head, a status other than 101, a response the checks refuse
/// and an outcome the client refuses all fail and leave `s` as it was; an
/// incomplete head waits; an accepted response completes the handshake and
/// the frames after the head are read as usual. Once the validator has
/// given a head or an error, nothing is stated.
pub open spec fn handshake_read(
    v: HandshakeValidator,
    opts: ClientOptionsSpec,
    s: SharedView,
    buf: Seq<u8>,
    t: SharedView,
    ok: bool,
) -> bool {
    if v.decode_error() is Some {
        !ok && t == s
    } else if v.settled() {
        true
    } else if v.buffered().len() + buf.len() > v.buffer_limit() {
        !ok && t == s
    } else {
        let received = v.received() + buf;
        match crate::response::spec_http_response_parse(received) {
            None => !ok && t == s,
            Some(None) => ok && t == s,
            Some(Some((h, n))) => if h.status_code != 101 {
                !ok && t == s
            } else {
                match crate::response::spec_check_response(h, v.expected()) {
                    Err(_) => !ok && t == s,
                    Ok(x) => match spec_handshake_outcome(x, opts) {
                        Err(_) => !ok && t == s,
                        Ok(d) => {
                            let s2 = handshake_completed(s, x, opts, d);
                            let rest = received.skip(n as int);
                            if rest.len() == 0 {
                                ok && t == s2
                            } else {
                                crate::shared::frames_processed(crate::shared::with_input(s2, rest), t, true, ok)
                            }
                        },
                    },
                }
            },
        }
    }
}

/// The state after a move to `to` through `set_state`.
pub open spec fn after_set_state(s: SharedView, to: ConnectionState) -> SharedView {
    if s.state != to && spec_can_transition(s.state, to) {
        SharedView { state: to, events: s.events.push(EventSpec::StateChanged(to)), ..s }
    } else {
        s
    }
}

/// The shared state once the handshake completed with `resp` and the
/// permessage-deflate configuration `d`: a fresh codec is on, the state is
/// `Connected`, the application is told, and the ping timer is armed when
/// pings are on.
pub open spec fn handshake_completed(s: SharedView, resp: HandshakeSpec, opts: ClientOptionsSpec, d: Option<PerMessageDeflateConfig>) -> SharedView {
    let s1 = SharedView {
        deflate: if d is Some { d } else { s.deflate },
        codec: match d {
            Some(c) => crate::deflate::fresh_codec(c.client_no_context_takeover, c.server_no_context_takeover),
            None => s.codec,
        },
        ..s
    };
    let s2 = after_set_state(s1, ConnectionState::Connected);
    let s3 = SharedView {
        events: s2.events.push(EventSpec::Connected { protocol: resp.protocol, extensions: resp.extensions }),
        ..s2
    };
    if opts.ping_interval_millis > 0 {
        SharedView {
            outputs: s3.outputs.push(
                OutputSpec::SetTimer { id: TimerId::Ping, duration_millis: opts.ping_interval_millis },
            ),
            ..s3
        }
    } else {
        s3
    }
}

proof fn lemma_set_state_after(s: SharedView, to: ConnectionState, t: SharedView, ok: bool)
    requires
        crate::shared::set_state_post(s, to, t, ok),
    ensures
        t == after_set_state(s, to),
{
}

fn contains_str(v: &Vec<String>, s: &str) -> (r: bool)
    ensures
        r == strings_view(v@).contains(s@),
{
    let mut i: usize = 0;
    while i < v.len()
        invariant
            i <= v@.len(),
            forall|j: int| 0 <= j < i ==> #[trigger] strings_view(v@)[j] != s@,
        decreases v@.len() - i,
    {
        if str_eq(v[i].as_str(), s) {
            assert(strings_view(v@)[i as int] == s@);
            return true;
        }
        i = i + 1;
    }
    false
}

pub(crate) fn copy_strings(v: &Vec<String>) -> (r: Vec<String>)
    ensures
        strings_view(r@) == strings_view(v@),
{
    let mut out: Vec<String> = Vec::new();
    let mut i: usize = 0;
    while i < v.len()
        invariant
            i <= v@.len(),
            strings_view(out@) == strings_view(v@).take(i as int),
        decreases v@.len() - i,
    {
        let c = string_from_str(v[i].as_str());
        proof {
            assert(strings_view(out@.push(c)) =~= strings_view(out@).push(c@));
            assert(strings_view(v@)[i as int] == v@[i as int]@);
            assert(strings_view(v@).take(i + 1) =~= strings_view(v@).take(i as int).push(strings_view(v@)[i as int]));
        }
        out.push(c);
        i = i + 1;
    }
    assert(strings_view(v@).take(v@.len() as int) =~= strings_view(v@));
    out
}

pub(crate) fn copy_opt_string(o: &Option<String>) -> (r: Option<String>)
    ensures
        opt_string_view(r) == opt_string_view(*o),
{
    match o {
        Some(s) => Some(string_from_str(s.as_str())),
        None => None,
    }
}

/// The extensions of every element.
fn parse_all(exts: &Vec<String>) -> (r: Vec<Extension>)
    ensures
        r@.map_values(|e: Extension| e@) == all_extensions(strings_view(exts@)),
{
    let ghost es = strings_view(exts@);
    let mut out: Vec<Extension> = Vec::new();
    let mut k: usize = 0;
    while k < exts.len()
        invariant
            k <= exts@.len(),
            es == strings_view(exts@),
            out@.map_values(|e: Extension| e@) == all_extensions(es.take(k as int)),
        decreases exts@.len() - k,
    {
        let mut parsed = Extension::parse(exts[k].as_str());
        let ghost before = out@;
        let ghost added = parsed@;
        out.append(&mut parsed);
        proof {
            assert(out@.map_values(|e: Extension| e@) =~= before.map_values(|e: Extension| e@) + added.map_values(|e: Extension| e@));
        }
        proof {
            assert(es.take(k + 1).drop_last() =~= es.take(k as int));
            assert(es.take(k + 1).last() == es[k as int]);
            assert(es[k as int] == exts@[k as int]@);
        }
        k = k + 1;
    }
    assert(es.take(exts@.len() as int) =~= es);
    out
}

proof fn lemma_completed_progress(s: SharedView, resp: HandshakeSpec, opts: ClientOptionsSpec, d: Option<PerMessageDeflateConfig>)
    requires
        s.state == ConnectionState::Connecting,
    ensures
        crate::shared::queues_grow(s, handshake_completed(s, resp, opts, d)),
        handshake_completed(s, resp, opts, d).state == ConnectionState::Connected,
        handshake_completed(s, resp, opts, d).failed == s.failed,
{
    let t = handshake_completed(s, resp, opts, d);
    assert(t.events.take(s.events.len() as int) =~= s.events);
    assert(t.outputs.take(s.outputs.len() as int) =~= s.outputs);
}

// ---------------------------------------------------------------------------
// The connection
// ---------------------------------------------------------------------------

/// A client connection: the caller feeds received bytes and timer expiries,
/// and polls events and outputs.
pub struct WebSocketClientConnection<R: RandomSource> {
    shared: SharedConnectionState,
    policy: ClientFramePolicy<R>,
    options: ClientConnectionOptions,
    nonce: [u8; 16],
    handshake_validator: Option<HandshakeValidator>,
    negotiated_protocol: Option<String>,
    negotiated_extensions: Vec<String>,
}

impl<R: RandomSource> WebSocketClientConnection<R> {
    /// The shared connection state.
    pub closed spec fn shared(&self) -> SharedView {
        self.shared@
    }

    /// The options.
    pub closed spec fn options(&self) -> ClientOptionsSpec {
        self.options@
    }

    /// The negotiated subprotocol.
    pub closed spec fn negotiated_protocol(&self) -> Option<Seq<char>> {
        opt_string_view(self.negotiated_protocol)
    }

    /// The negotiated extension elements.
    pub closed spec fn negotiated_extensions(&self) -> Seq<Seq<char>> {
        strings_view(self.negotiated_extensions@)
    }

    /// The validator of the handshake response, while the handshake runs.
    pub closed spec fn validator(&self) -> Option<HandshakeValidator> {
        self.handshake_validator
    }

    /// The `Sec-WebSocket-Accept` value the handshake waits for, while it
    /// waits.
    pub closed spec fn expected_accept(&self) -> Option<Seq<char>> {
        match self.handshake_validator {
            Some(v) => Some(v.expected()),
            None => None,
        }
    }

    /// A disconnected client with the given options and random source.
    pub fn new(options: ClientConnectionOptions, random: R) -> (r: WebSocketClientConnection<R>)
        ensures
            r.options() == options@,
            r.shared() == (SharedView {
                state: ConnectionState::Disconnected,
                close_sent: false,
                close_received: false,
                awaiting_pong: false,
                failed: false,
                events: Seq::empty(),
                outputs: Seq::empty(),
                pending: Seq::empty(),
                fragment: None,
                fragment_payload: Seq::empty(),
                fragment_compressed: false,
                deflate: None,
                codec: crate::deflate::fresh_codec(false, false),
                max_frame_size: options@.max_frame_size,
                max_message_size: options@.max_message_size,
                max_decompressed_size: options@.max_decompressed_size,
                ping_interval_millis: options@.ping_interval_millis,
                pong_timeout_millis: options@.pong_timeout_millis,
                close_timeout_millis: options@.close_timeout_millis,
            }),
            r.negotiated_protocol() is None,
            r.negotiated_extensions() == Seq::<Seq<char>>::empty(),
            r.expected_accept() is None,
    {
        let shared = SharedConnectionState::new(
            options.max_frame_size,
            options.max_message_size,
            options.max_decompressed_size,
            options.ping_interval_millis,
            options.pong_timeout_millis,
            options.close_timeout_millis,
        );
        let r = WebSocketClientConnection {
            shared,
            policy: ClientFramePolicy::new(random),
            options,
            nonce: [0u8; 16],
            handshake_validator: None,
            negotiated_protocol: None,
            negotiated_extensions: Vec::new(),
        };
        assert(r.negotiated_extensions() =~= Seq::<Seq<char>>::empty());
        r
    }

    /// The current state.
    pub fn state(&self) -> (r: ConnectionState)
        ensures
            r == self.shared().state,
    {
        self.shared.state()
    }

    /// The negotiated subprotocol.
    pub fn protocol(&self) -> (r: Option<&str>)
        ensures
            match r {
                Some(p) => self.negotiated_protocol() == Some(p@),
                None => self.negotiated_protocol() is None,
            },
    {
        match &self.negotiated_protocol {
            Some(p) => Some(p.as_str()),
            None => None,
        }
    }

    /// The negotiated extension elements.
    pub fn extensions(&self) -> (r: &[String])
        ensures
            strings_view(r@) == self.negotiated_extensions(),
    {
        self.negotiated_extensions.as_slice()
    }

    /// Starts the opening handshake: draws a nonce, queues the request and
    /// moves to `Connecting`. Only a disconnected client can connect, and it
    /// succeeds exactly when the request for its options can be built with
    /// the key of the drawn nonce.
    pub fn connect(&mut self) -> (r: Result<(), Error>)
        ensures
            final(self).options() == old(self).options(),
            old(self).shared().state != ConnectionState::Disconnected ==> (r matches Err(e) && e.kind
                == ErrorKind::InvalidState && e.reason@ == "already connected or connecting"@
                && final(self).shared() == old(self).shared()),
            old(self).shared().state == ConnectionState::Disconnected ==> (r matches Err(e) ==> e.kind
                == ErrorKind::InvalidInput && final(self).shared() == old(self).shared()),
            old(self).shared().state == ConnectionState::Disconnected ==> exists|n: Seq<u8>|
                {
                    &&& n.len() == 16
                    &&& (r is Ok <==> crate::request::spec_build_accepts(
                        spec_client_request(old(self).options()),
                        #[trigger] crate::handshake::spec_key_of_nonce(n),
                    ))
                    &&& r is Ok ==> final(self).expected_accept() == Some(
                        crate::handshake::spec_accept_from_key(crate::handshake::spec_key_of_nonce(n)),
                    ) && final(self).shared().outputs.last() == OutputSpec::SendData(
                        vstd::utf8::encode_utf8(
                            crate::request::spec_request_message(
                                spec_client_request(old(self).options()),
                                crate::handshake::spec_key_of_nonce(n),
                            ),
                        ),
                    )
                },
            r is Ok ==> {
                &&& old(self).shared().state == ConnectionState::Disconnected
                &&& final(self).expected_accept() is Some
                &&& final(self).shared().outputs.len() == old(self).shared().outputs.len() + 1
                &&& final(self).shared().outputs.take(old(self).shared().outputs.len() as int)
                    == old(self).shared().outputs
                &&& final(self).shared().outputs.last() is SendData
                &&& final(self).validator() matches Some(v) && v.decode_error() is None && !v.settled()
                    && v.received() == Seq::<u8>::empty() && v.buffered() == Seq::<u8>::empty()
                    && v.buffer_limit() == 64 * 1024 && final(self).expected_accept() == Some(v.expected())
                &&& final(self).shared() == (SharedView {
                    state: ConnectionState::Connecting,
                    events: old(self).shared().events.push(EventSpec::StateChanged(ConnectionState::Connecting)),
                    outputs: final(self).shared().outputs,
                    ..old(self).shared()
                })
            },
    {
        if self.shared.state() != ConnectionState::Disconnected {
            return Err(Error::with_text(ErrorKind::InvalidState, "already connected or connecting"));
        }
        self.nonce = self.policy.nonce();
        let mut request = crate::request::HandshakeRequest::new(
            self.options.path.as_str(),
            self.options.host.as_str(),
        );
        match &self.options.origin {
            Some(o) => {
                request = request.origin(o.as_str());
            },
            None => {},
        }
        let ghost target = spec_client_request(self.options@);
        assert(target.protocols.take(0) =~= Seq::<Seq<char>>::empty());
        let mut i: usize = 0;
        while i < self.options.protocols.len()
            invariant
                i <= self.options.protocols@.len(),
                target == spec_client_request(self.options@),
                request@ == (crate::request::RequestSpec {
                    protocols: target.protocols.take(i as int),
                    extensions: Seq::empty(),
                    headers: Seq::empty(),
                    ..target
                }),
            decreases self.options.protocols@.len() - i,
        {
            request = request.protocol(self.options.protocols[i].as_str());
            proof {
                assert(target.protocols[i as int] == self.options.protocols@[i as int]@);
                assert(target.protocols.take(i + 1) =~= target.protocols.take(i as int).push(target.protocols[i as int]));
            }
            i = i + 1;
        }
        assert(target.protocols.take(target.protocols.len() as int) =~= target.protocols);
        match &self.options.deflate_config {
            Some(c) => {
                let ext = c.to_extension();
                let offer = ext.encode();
                request = request.extension(offer.as_str());
            },
            None => {},
        }
        assert(request@.extensions =~= target.extensions);
        assert(target.headers.take(0) =~= Seq::<(Seq<char>, Seq<char>)>::empty());
        let mut j: usize = 0;
        while j < self.options.additional_headers.len()
            invariant
                j <= self.options.additional_headers@.len(),
                target == spec_client_request(self.options@),
                request@ == (crate::request::RequestSpec { headers: target.headers.take(j as int), ..target }),
            decreases self.options.additional_headers@.len() - j,
        {
            request = request.header(
                self.options.additional_headers[j].0.as_str(),
                self.options.additional_headers[j].1.as_str(),
            );
            proof {
                assert(target.headers[j as int] == (self.options.additional_headers@[j as int].0@, self.options.additional_headers@[j as int].1@));
                assert(target.headers.take(j + 1) =~= target.headers.take(j as int).push(target.headers[j as int]));
            }
            j = j + 1;
        }
        assert(target.headers.take(target.headers.len() as int) =~= target.headers);
        assert(request@ == target);
        let encoded = match request.build(self.nonce) {
            Ok(b) => b,
            Err(e) => return Err(e),
        };
        self.handshake_validator = Some(HandshakeValidator::new(self.nonce));
        self.shared.enqueue_output(ConnectionOutput::SendData(encoded));
        let _ = self.shared.set_state(ConnectionState::Connecting);
        Ok(())
    }

    /// Checks the permessage-deflate answer against the offer.
    fn check_deflate(&self, ext: &Extension) -> (r: Result<Option<PerMessageDeflateConfig>, Error>)
        ensures
            match check_deflate_answer(ext@, self.options().deflate_config) {
                Ok(d) => r == Ok::<Option<PerMessageDeflateConfig>, Error>(d),
                Err(m) => r matches Err(e) && e.kind == ErrorKind::HandshakeRejected && e.reason@ == m,
            },
    {
        match PerMessageDeflateConfig::from_extension_for_client_response(ext) {
            Ok(config) => {
                match &self.options.deflate_config {
                    Some(dc) => {
                        let included = ext.get_param("client_max_window_bits").is_some();
                        proof {
                            if has_param(ext@, cmwb_name()) {
                                let i = choose|i: int| 0 <= i < ext@.params.len() && #[trigger] ext@.params[i].name == cmwb_name();
                                assert(ext@.params[i].name == "client_max_window_bits"@);
                            }
                        }
                        if included && dc.client_max_window_bits.is_none() {
                            return Err(
                                Error::with_text(
                                    ErrorKind::HandshakeRejected,
                                    "server included client_max_window_bits without client offer",
                                ),
                            );
                        }
                        if let (Some(offered), Some(got)) = (dc.server_max_window_bits, config.server_max_window_bits) {
                            if got > offered {
                                let a = concat_str("server_max_window_bits ", crate::text::u8_to_decimal(got).as_str());
                                let b = concat_str(a.as_str(), " exceeds client offer ");
                                return Err(
                                    Error::with_reason(
                                        ErrorKind::HandshakeRejected,
                                        concat_str(b.as_str(), crate::text::u8_to_decimal(offered).as_str()),
                                    ),
                                );
                            }
                        }
                        if let (Some(offered), Some(got)) = (dc.client_max_window_bits, config.client_max_window_bits) {
                            if got > offered {
                                let a = concat_str("client_max_window_bits ", crate::text::u8_to_decimal(got).as_str());
                                let b = concat_str(a.as_str(), " exceeds client offer ");
                                return Err(
                                    Error::with_reason(
                                        ErrorKind::HandshakeRejected,
                                        concat_str(b.as_str(), crate::text::u8_to_decimal(offered).as_str()),
                                    ),
                                );
                            }
                        }
                        if let Some(bits) = config.client_max_window_bits {
                            if bits < 15 {
                                let a = concat_str("client_max_window_bits=", crate::text::u8_to_decimal(bits).as_str());
                                return Err(
                                    Error::with_reason(
                                        ErrorKind::HandshakeRejected,
                                        concat_str(a.as_str(), " is not supported (only 15 is supported)"),
                                    ),
                                );
                            }
                        }
                        Ok(Some(config))
                    },
                    None => Ok(Some(config)),
                }
            },
            Err(e) => {
                if self.options.deflate_config.is_some() {
                    let text = e.to_string();
                    return Err(
                        Error::with_reason(
                            ErrorKind::HandshakeRejected,
                            concat_str("invalid permessage-deflate response: ", text.as_str()),
                        ),
                    );
                }
                Ok(None)
            },
        }
    }

    /// Finishes the opening handshake with a validated response (RFC 6455
    /// Section 4.2.2, RFC 7692 Section 7.1): on success the connection is
    /// established with what [`spec_handshake_outcome`] agrees to.
    #[verifier::rlimit(40)]
    fn complete_handshake(&mut self, response: HandshakeResponse, _now: Timestamp) -> (r: Result<(), Error>)
        ensures
            final(self).options() == old(self).options(),
            final(self).expected_accept() == old(self).expected_accept(),
            match spec_handshake_outcome(response@, old(self).options()) {
                Ok(d) => {
                    &&& r is Ok
                    &&& final(self).shared() == handshake_completed(old(self).shared(), response@, old(self).options(), d)
                    &&& final(self).negotiated_protocol() == response@.protocol
                    &&& final(self).negotiated_extensions() == response@.extensions
                },
                Err(m) => {
                    &&& r matches Err(e) && e.kind == ErrorKind::HandshakeRejected && e.reason@ == m
                    &&& final(self).shared() == old(self).shared()
                    &&& if unsolicited_protocol(response@, old(self).options()) || extensions_problem(
                        response@.extensions,
                        old(self).options().deflate_config is Some,
                        0,
                    ) is Some {
                        &&& final(self).negotiated_protocol() == old(self).negotiated_protocol()
                        &&& final(self).negotiated_extensions() == old(self).negotiated_extensions()
                    } else {
                        &&& final(self).negotiated_protocol() == response@.protocol
                        &&& final(self).negotiated_extensions() == response@.extensions
                    }
                },
            },
    {
        let ghost opts = self.options@;
        let ghost resp = response@;
        let ghost es = resp.extensions;
        if let Some(p) = &response.protocol {
            if !contains_str(&self.options.protocols, p.as_str()) {
                return Err(
                    Error::with_reason(
                        ErrorKind::HandshakeRejected,
                        concat_str("server returned unsolicited protocol: ", p.as_str()),
                    ),
                );
            }
        }
        let offered = self.options.deflate_config.is_some();
        let mut k: usize = 0;
        while k < response.extensions.len()
            invariant
                k <= response.extensions@.len(),
                es == strings_view(response.extensions@),
                offered == (opts.deflate_config is Some),
                extensions_problem(es, offered, 0) == extensions_problem(es, offered, k as int),
                self.options@ == opts,
                response@ == resp,
                !unsolicited_protocol(resp, opts),
                self.shared@ == old(self).shared@,
                self.options@ == old(self).options@,
                opts == old(self).options@,
            decreases response.extensions@.len() - k,
        {
            proof {
                assert(es[k as int] == response.extensions@[k as int]@);
            }
            let parsed = match Extension::parse_strict(response.extensions[k].as_str()) {
                Err(e) => {
                    return Err(
                        Error::with_reason(
                            ErrorKind::HandshakeRejected,
                            concat_str("invalid Sec-WebSocket-Extensions value: ", e.reason.as_str()),
                        ),
                    );
                },
                Ok(v) => v,
            };
            let ghost pv = parsed@.map_values(|e: Extension| e@);
            let mut i: usize = 0;
            while i < parsed.len()
                invariant
                    i <= parsed@.len(),
                    pv == parsed@.map_values(|e: Extension| e@),
                    first_unsolicited(pv, offered, 0) == first_unsolicited(pv, offered, i as int),
                    k < es.len(),
                    es == strings_view(response.extensions@),
                    offered == (opts.deflate_config is Some),
                    spec_strict_error(spec_split(es[k as int], ','), 0) is None,
                    pv == spec_parse_extensions(es[k as int]),
                    extensions_problem(es, offered, 0) == extensions_problem(es, offered, k as int),
                    response@ == resp,
                    !unsolicited_protocol(resp, opts),
                    self.shared@ == old(self).shared@,
                    opts == old(self).options@,
                decreases parsed@.len() - i,
            {
                proof {
                    assert(pv[i as int] == parsed@[i as int]@);
                }
                let is_pmd = str_eq(parsed[i].name.as_str(), "permessage-deflate");
                if !(offered && is_pmd) {
                    return Err(
                        Error::with_reason(
                            ErrorKind::HandshakeRejected,
                            concat_str("server returned unsolicited extension: ", parsed[i].name.as_str()),
                        ),
                    );
                }
                i = i + 1;
            }
            k = k + 1;
        }
        self.negotiated_protocol = copy_opt_string(&response.protocol);
        self.negotiated_extensions = copy_strings(&response.extensions);
        let all = parse_all(&response.extensions);
        let ghost av = all@.map_values(|e: Extension| e@);
        let mut count: usize = 0;
        let mut first: usize = 0;
        let mut i: usize = 0;
        while i < all.len()
            invariant
                i <= all@.len(),
                av == all@.map_values(|e: Extension| e@),
                count == pmd_entries(av.take(i as int)).len(),
                count <= i,
                first < all@.len() || count == 0,
                count > 0 ==> pmd_entries(av.take(i as int))[0] == av[first as int],
            decreases all@.len() - i,
        {
            proof {
                assert(av.take(i + 1).drop_last() =~= av.take(i as int));
                assert(av.take(i + 1).last() == av[i as int]);
                assert(av[i as int] == all@[i as int]@);
            }
            if str_eq(all[i].name.as_str(), "permessage-deflate") {
                if count == 0 {
                    first = i;
                }
                count = count + 1;
            }
            i = i + 1;
        }
        proof {
            assert(av.take(all@.len() as int) =~= av);
        }
        if count > 1 {
            return Err(
                Error::with_text(
                    ErrorKind::HandshakeRejected,
                    "server returned multiple permessage-deflate elements",
                ),
            );
        }
        if count == 1 {
            match self.check_deflate(&all[first]) {
                Err(e) => return Err(e),
                Ok(Some(config)) => {
                    self.shared.enable_deflate(PerMessageDeflate::new_client(config));
                },
                Ok(None) => {},
            }
        }
        let ghost before_state = self.shared@;
        let r = self.shared.set_state(ConnectionState::Connected);
        proof {
            lemma_set_state_after(before_state, ConnectionState::Connected, self.shared@, r is Ok);
        }
        self.shared.emit_event(
            ConnectionEvent::Connected {
                protocol: copy_opt_string(&self.negotiated_protocol),
                extensions: copy_strings(&self.negotiated_extensions),
            },
        );
        if self.options.ping_interval_millis > 0 {
            self.shared.enqueue_output(
                ConnectionOutput::SetTimer { id: TimerId::Ping, duration_millis: self.options.ping_interval_millis },
            );
        }
        Ok(())
    }

    /// Feeds handshake bytes; once the response head is complete it is
    /// checked, the handshake completed, and any frames that followed it in
    /// the same bytes are handled.
    fn process_handshake(&mut self, buf: &[u8], now: Timestamp) -> (r: Result<(), Error>)
        requires
            old(self).shared().state == ConnectionState::Connecting,
        ensures
            final(self).options() == old(self).options(),
            old(self).expected_accept() is None ==> (r matches Err(e) && e.kind == ErrorKind::InvalidState
                && e.reason@ == "handshake validator not initialized"@ && final(self).shared() == old(self).shared()),
            crate::shared::queues_grow(old(self).shared(), final(self).shared()),
            final(self).shared().failed == old(self).shared().failed,
            final(self).shared().state == ConnectionState::Connecting || spec_can_transition(
                ConnectionState::Connected,
                final(self).shared().state,
            ),
            final(self).shared().state == ConnectionState::Connecting ==> final(self).shared() == old(self).shared(),
            old(self).validator() matches Some(v) ==> handshake_read(
                v,
                old(self).options(),
                old(self).shared(),
                buf@,
                final(self).shared(),
                r is Ok,
            ),
    {
        proof {
            assert(self.shared@.events.take(self.shared@.events.len() as int) =~= self.shared@.events);
            assert(self.shared@.outputs.take(self.shared@.outputs.len() as int) =~= self.shared@.outputs);
        }
        let mut validator = match self.handshake_validator.take() {
            Some(v) => v,
            None => {
                return Err(Error::with_text(ErrorKind::InvalidState, "handshake validator not initialized"));
            },
        };
        validator.feed(buf);
        let result = validator.validate();
        match result {
            Err(e) => {
                self.handshake_validator = Some(validator);
                Err(e)
            },
            Ok(None) => {
                self.handshake_validator = Some(validator);
                Ok(())
            },
            Ok(Some(response)) => {
                let remaining = crate::frame::copy_bytes(validator.remaining());
                self.handshake_validator = Some(validator);
                let ghost s0 = self.shared@;
                let ghost resp = response@;
                if let Err(e) = self.complete_handshake(response, now) {
                    return Err(e);
                }
                proof {
                    lemma_completed_progress(s0, resp, self.options@, spec_handshake_outcome(resp, self.options@)->Ok_0);
                }
                self.handshake_validator = None;
                if remaining.len() > 0 {
                    let ghost s1 = self.shared@;
                    let r = self.shared.process_frames(remaining.as_slice(), &mut self.policy);
                    proof {
                        crate::shared::lemma_queues_grow_trans(s0, s1, self.shared@);
                    }
                    return r;
                }
                Ok(())
            },
        }
    }

    /// Feeds received bytes (RFC 6455 Section 7.1.7: once a call failed,
    /// every later call fails at once).
    pub fn feed_recv_buf(&mut self, buf: &[u8], now: Timestamp) -> (r: Result<(), Error>)
        ensures
            final(self).options() == old(self).options(),
            old(self).shared().failed ==> (r matches Err(e) && e.kind == ErrorKind::InvalidState
                && e.reason@ == "connection has failed"@ && final(self).shared() == old(self).shared()),
            !old(self).shared().failed && (old(self).shared().state == ConnectionState::Disconnected
                || old(self).shared().state == ConnectionState::Closed) ==> (r matches Err(e) && e.kind
                == ErrorKind::InvalidState && e.reason@ == "connection is closed"@ && final(self).shared()
                == old(self).shared()),
            !old(self).shared().failed && r is Err && (old(self).shared().state == ConnectionState::Connecting
                || old(self).shared().state == ConnectionState::Connected || old(self).shared().state
                == ConnectionState::Closing) ==> final(self).shared().failed,
            r is Ok ==> !final(self).shared().failed,
            crate::shared::queues_grow(old(self).shared(), final(self).shared()),
            state_rank(old(self).shared().state) <= state_rank(final(self).shared().state),
            (old(self).shared().state == ConnectionState::Connected || old(self).shared().state
                == ConnectionState::Closing) ==> spec_can_transition(old(self).shared().state, final(self).shared().state),
            (old(self).shared().state == ConnectionState::Connected || old(self).shared().state
                == ConnectionState::Closing) && r is Ok ==> crate::frame::spec_decode(final(self).shared().pending)
                == crate::frame::DecodeOutcome::Incomplete,
            !old(self).shared().failed && (old(self).shared().state == ConnectionState::Connected
                || old(self).shared().state == ConnectionState::Closing) ==> exists|t: SharedView|
                #[trigger] crate::shared::frames_processed(
                    crate::shared::with_input(old(self).shared(), buf@),
                    t,
                    true,
                    r is Ok,
                ) && final(self).shared() == (if r is Ok {
                    t
                } else {
                    SharedView { failed: true, ..t }
                }),
            !old(self).shared().failed && old(self).shared().state == ConnectionState::Connecting
                && old(self).validator() is Some ==> exists|t: SharedView|
                #[trigger] handshake_read(
                    old(self).validator()->0,
                    old(self).options(),
                    old(self).shared(),
                    buf@,
                    t,
                    r is Ok,
                ) && final(self).shared() == (if r is Ok {
                    t
                } else {
                    SharedView { failed: true, ..t }
                }),
    {
        proof {
            assert(self.shared@.events.take(self.shared@.events.len() as int) =~= self.shared@.events);
            assert(self.shared@.outputs.take(self.shared@.outputs.len() as int) =~= self.shared@.outputs);
        }
        if self.shared.is_failed() {
            return Err(Error::with_text(ErrorKind::InvalidState, "connection has failed"));
        }
        let ghost s0 = self.shared@;
        let ghost v0 = self.validator();
        let ghost o0 = self.options();
        let result = match self.shared.state() {
            ConnectionState::Connecting => self.process_handshake(buf, now),
            ConnectionState::Connected | ConnectionState::Closing => self.shared.process_frames(buf, &mut self.policy),
            ConnectionState::Disconnected | ConnectionState::Closed => {
                return Err(Error::with_text(ErrorKind::InvalidState, "connection is closed"));
            },
        };
        proof {
            crate::connection_types::lemma_transitions_move_forward(s0.state, self.shared@.state);
            crate::connection_types::lemma_transitions_move_forward(ConnectionState::Connected, self.shared@.state);
        }
        let ghost s1 = self.shared@;
        if result.is_err() {
            self.shared.mark_failed();
            proof {
                assert(self.shared@.events.take(s1.events.len() as int) =~= s1.events);
                assert(self.shared@.outputs.take(s1.outputs.len() as int) =~= s1.outputs);
                crate::shared::lemma_queues_grow_trans(s0, s1, self.shared@);
            }
        }
        proof {
            if s0.state == ConnectionState::Connected || s0.state == ConnectionState::Closing {
                let sp = crate::shared::with_input(s0, buf@);
                assert(crate::shared::frames_processed(sp, s1, true, result is Ok));
            }
            if s0.state == ConnectionState::Connecting && v0 is Some {
                assert(handshake_read(v0->0, o0, s0, buf@, s1, result is Ok));
            }
        }
        result
    }

    /// Sends a text message.
    pub fn send_text(&mut self, text: &str) -> (r: Result<(), Error>)
        ensures
            final(self).options() == old(self).options(),
            final(self).negotiated_protocol() == old(self).negotiated_protocol(),
            final(self).negotiated_extensions() == old(self).negotiated_extensions(),
            old(self).shared().state != ConnectionState::Connected ==> (r matches Err(e) && e.kind
                == ErrorKind::InvalidState && final(self).shared() == old(self).shared()),
            old(self).shared().state == ConnectionState::Connected ==> crate::shared::message_sent(
                old(self).shared(),
                final(self).shared(),
                crate::opcode::Opcode::Text,
                vstd::string::StringSliceAdditionalSpecFns::spec_bytes(text),
                true,
                r is Ok,
            ),
    {
        self.shared.send_text(text, &mut self.policy)
    }

    /// Sends a binary message.
    pub fn send_binary(&mut self, data: &[u8]) -> (r: Result<(), Error>)
        ensures
            final(self).options() == old(self).options(),
            final(self).negotiated_protocol() == old(self).negotiated_protocol(),
            final(self).negotiated_extensions() == old(self).negotiated_extensions(),
            old(self).shared().state != ConnectionState::Connected ==> (r matches Err(e) && e.kind
                == ErrorKind::InvalidState && final(self).shared() == old(self).shared()),
            old(self).shared().state == ConnectionState::Connected ==> crate::shared::message_sent(
                old(self).shared(),
                final(self).shared(),
                crate::opcode::Opcode::Binary,
                data@,
                true,
                r is Ok,
            ),
    {
        self.shared.send_binary(data, &mut self.policy)
    }

    /// Sends a ping (at most 125 bytes, RFC 6455 Section 5.5).
    pub fn send_ping(&mut self, data: &[u8]) -> (r: Result<(), Error>)
        ensures
            final(self).options() == old(self).options(),
            old(self).shared().state != ConnectionState::Connected ==> (r matches Err(e) && e.kind
                == ErrorKind::InvalidState && final(self).shared() == old(self).shared()),
            old(self).shared().state == ConnectionState::Connected ==> crate::shared::ping_sent(
                old(self).shared(),
                final(self).shared(),
                data@,
                true,
                r is Ok,
            ),
    {
        self.shared.send_ping(data, &mut self.policy)
    }

    /// Starts the closing handshake (see [`SharedConnectionState::close`]).
    pub fn close(&mut self, code: CloseCode, reason: &str) -> (r: Result<(), Error>)
        ensures
            final(self).options() == old(self).options(),
            r is Err ==> final(self).shared() == old(self).shared(),
            r is Ok <==> ((old(self).shared().state == ConnectionState::Connected || old(self).shared().state
                == ConnectionState::Closing) && crate::close::spec_close_code_sendable(code.0)
                && vstd::string::StringSliceAdditionalSpecFns::spec_bytes(reason).len() <= 123),
            r is Ok ==> crate::shared::close_post(
                old(self).shared(),
                final(self).shared(),
                code.0,
                vstd::string::StringSliceAdditionalSpecFns::spec_bytes(reason),
                true,
            ),
    {
        self.shared.close(code, reason, &mut self.policy)
    }

    /// Handles a timer expiry (see [`crate::shared::timer_handled`]).
    pub fn handle_timer(&mut self, timer_id: TimerId) -> (r: Result<(), Error>)
        ensures
            r is Ok,
            final(self).options() == old(self).options(),
            crate::shared::timer_handled(old(self).shared(), timer_id, final(self).shared(), true),
    {
        self.shared.handle_timer(timer_id, &mut self.policy)
    }

    /// The oldest event not yet polled.
    pub fn poll_event(&mut self) -> (r: Option<ConnectionEvent>)
        ensures
            final(self).options() == old(self).options(),
            old(self).shared().events.len() == 0 ==> r is None && final(self).shared() == old(self).shared(),
            old(self).shared().events.len() > 0 ==> (r matches Some(e) && e@ == old(self).shared().events[0]
                && final(self).shared() == (SharedView { events: old(self).shared().events.drop_first(), ..old(self).shared() })),
    {
        self.shared.poll_event()
    }

    /// The oldest output not yet polled.
    pub fn poll_output(&mut self) -> (r: Option<ConnectionOutput>)
        ensures
            final(self).options() == old(self).options(),
            old(self).shared().outputs.len() == 0 ==> r is None && final(self).shared() == old(self).shared(),
            old(self).shared().outputs.len() > 0 ==> (r matches Some(o) && o@ == old(self).shared().outputs[0]
                && final(self).shared() == (SharedView { outputs: old(self).shared().outputs.drop_first(), ..old(self).shared() })),
    {
        self.shared.poll_output()
    }
}

} // verus!
