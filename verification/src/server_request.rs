//! The server's check of a client's opening handshake request (RFC 6455
//! Section 4.2.1).

use vstd::prelude::*;

use shiguredo_http11::{RequestDecoder, RequestHead};

use crate::connection_types::{opt_string_view, strings_view};
use crate::error::{headers_view, Error, ErrorKind};
use crate::extension::Extension;
use crate::handshake::spec_valid_key;
use crate::response::{
    extension_elements, first_strict_error, get_header_values, has_token, header_values, join,
    join_values, split_extension_values, values_have_token,
};
use crate::text::{concat_str, str_eq, string_from_str};

verus! {

// ---------------------------------------------------------------------------
// Outside types and calls
// ---------------------------------------------------------------------------

/// `shiguredo_http11::RequestDecoder` with its default (no) body
/// decompression, held opaquely: the decoder's generic parameter is bounded
/// by a trait whose name this crate uses for its own decompressor.
#[verifier::external_body]
pub struct HttpRequestDecoder {
    inner: RequestDecoder,
}

#[verifier::external_type_specification]
#[verifier::external_body]
pub struct ExRequestHead(shiguredo_http11::RequestHead);

/// The bytes a request decoder holds that decoding has not consumed.
pub uninterp spec fn request_decoder_buffer(d: HttpRequestDecoder) -> Seq<u8>;

/// The most bytes a request decoder holds (its `max_buffer_size`).
pub uninterp spec fn request_decoder_limit(d: HttpRequestDecoder) -> usize;

/// All the bytes a request decoder has accepted since it was made or reset.
pub uninterp spec fn request_decoder_fed(d: HttpRequestDecoder) -> Seq<u8>;

/// Whether `decode_headers` has given a head or an error since the decoder
/// was made or reset.
pub uninterp spec fn request_decoder_settled(d: HttpRequestDecoder) -> bool;

/// What a fresh `RequestDecoder` (default limits) gives from `decode_headers`
/// for the input `bytes`: `None` for an error, `Some(None)` while the head is
/// incomplete, `Some(Some((head, n)))` once the request line and header
/// fields are complete, `n` being the number of bytes they take up to and
/// including the empty line. Each call parses only complete lines, so before its first
/// head or error the outcome depends on the bytes fed alone.
pub uninterp spec fn spec_http_request_parse(bytes: Seq<u8>) -> Option<Option<(RequestHeadSpec, nat)>>;

/// The method, request target and header fields of a decoded head.
pub uninterp spec fn request_head_view(h: RequestHead) -> RequestHeadSpec;

/// Calls `RequestDecoder::new`: an HTTP/1.1 request decoder with the crate's
/// default limits (a 64 KiB buffer), holding nothing.
#[verifier::external_body]
fn request_decoder_new() -> (r: HttpRequestDecoder)
    ensures
        request_decoder_buffer(r) == Seq::<u8>::empty(),
        request_decoder_limit(r) == 64 * 1024,
        request_decoder_fed(r) == Seq::<u8>::empty(),
        !request_decoder_settled(r),
{
    HttpRequestDecoder { inner: RequestDecoder::new() }
}

/// Calls `RequestDecoder::feed`, which appends `data` to the buffer; it
/// refuses, leaving the buffer as it was, when the buffer would exceed its
/// limit, and the error's message is returned.
#[verifier::external_body]
fn request_decoder_feed(d: &mut HttpRequestDecoder, data: &[u8]) -> (r: Result<(), String>)
    ensures
        request_decoder_limit(*final(d)) == request_decoder_limit(*old(d)),
        r is Ok <==> request_decoder_buffer(*old(d)).len() + data@.len() <= request_decoder_limit(*old(d)),
        r is Ok ==> request_decoder_buffer(*final(d)) == request_decoder_buffer(*old(d)) + data@,
        r is Err ==> request_decoder_buffer(*final(d)) == request_decoder_buffer(*old(d)),
        r is Ok ==> request_decoder_fed(*final(d)) == request_decoder_fed(*old(d)) + data@,
        r is Err ==> request_decoder_fed(*final(d)) == request_decoder_fed(*old(d)),
        request_decoder_settled(*final(d)) == request_decoder_settled(*old(d)),
{
    d.inner.feed(data).map_err(|e| e.to_string())
}

/// Calls `RequestDecoder::remaining`: the buffered bytes not consumed by
/// decoding.
#[verifier::external_body]
fn request_decoder_remaining(d: &HttpRequestDecoder) -> (r: &[u8])
    ensures
        r@ == request_decoder_buffer(*d),
{
    d.inner.remaining()
}

/// Calls `RequestDecoder::reset`, which empties the decoder and keeps its
/// limits.
#[verifier::external_body]
fn request_decoder_reset(d: &mut HttpRequestDecoder)
    ensures
        request_decoder_buffer(*final(d)) == Seq::<u8>::empty(),
        request_decoder_limit(*final(d)) == request_decoder_limit(*old(d)),
        request_decoder_fed(*final(d)) == Seq::<u8>::empty(),
        !request_decoder_settled(*final(d)),
{
    d.inner.reset()
}

/// Calls `RequestDecoder::decode_headers`: the head once its request line
/// and header fields are complete (the body kind is dropped), `None` while
/// more bytes are needed, or the error's message for malformed input.
/// Decoding consumes lines from the front of the buffer and adds nothing to
/// it. Which head comes out depends on what was fed, and is not stated.
#[verifier::external_body]
fn request_decoder_decode_headers(d: &mut HttpRequestDecoder) -> (r: Result<Option<RequestHead>, String>)
    ensures
        request_decoder_limit(*final(d)) == request_decoder_limit(*old(d)),
        exists|k: int|
            0 <= k <= request_decoder_buffer(*old(d)).len() && request_decoder_buffer(*final(d))
                == #[trigger] request_decoder_buffer(*old(d)).skip(k),
        request_decoder_fed(*final(d)) == request_decoder_fed(*old(d)),
        request_decoder_settled(*final(d)) == (request_decoder_settled(*old(d)) || !(r matches Ok(None))),
        !request_decoder_settled(*old(d)) ==> match spec_http_request_parse(request_decoder_fed(*old(d))) {
            None => r is Err,
            Some(None) => r matches Ok(None),
            Some(Some((head, n))) => r matches Ok(Some(h)) && request_head_view(h) == head && n
                <= request_decoder_fed(*old(d)).len() && request_decoder_buffer(*final(d))
                == request_decoder_fed(*old(d)).skip(n as int),
        },
{
    match d.inner.decode_headers() {
        Ok(Some((head, _kind))) => Ok(Some(head)),
        Ok(None) => Ok(None),
        Err(e) => Err(e.to_string()),
    }
}

/// Calls `RequestHead::method`.
#[verifier::external_body]
fn request_head_method(h: &RequestHead) -> (r: String)
    ensures
        r@ == request_head_view(*h).method,
{
    h.method().to_string()
}

/// Calls `RequestHead::uri`: the request target.
#[verifier::external_body]
fn request_head_uri(h: &RequestHead) -> (r: String)
    ensures
        r@ == request_head_view(*h).target,
{
    h.uri().to_string()
}

/// Calls `RequestHead::headers`: the header fields in the order received.
#[verifier::external_body]
fn request_head_headers(h: &RequestHead) -> (r: Vec<(String, String)>)
    ensures
        headers_view(r@) == request_head_view(*h).headers,
{
    h.headers().iter().map(|(n, v)| (n.as_str().to_string(), v.clone())).collect()
}

// ---------------------------------------------------------------------------
// The request
// ---------------------------------------------------------------------------

/// The parts of a request head the handshake reads.
pub struct RequestHeadInfo {
    /// Method.
    pub method: String,
    /// Request target.
    pub target: String,
    /// Header fields, in the order received.
    pub headers: Vec<(String, String)>,
}

/// The mathematical content of a [`RequestHeadInfo`].
pub struct RequestHeadSpec {
    pub method: Seq<char>,
    pub target: Seq<char>,
    pub headers: Seq<(Seq<char>, Seq<char>)>,
}

impl View for RequestHeadInfo {
    type V = RequestHeadSpec;

    open spec fn view(&self) -> RequestHeadSpec {
        RequestHeadSpec {
            method: self.method@,
            target: self.target@,
            headers: headers_view(self.headers@),
        }
    }
}

/// A client's handshake request, as the server received it.
#[derive(Debug, Clone)]
pub struct ServerHandshakeRequest {
    /// Request target.
    pub path: String,
    /// `Host` field.
    pub host: String,
    /// `Origin` field, if any.
    pub origin: Option<String>,
    /// `Sec-WebSocket-Key` field.
    pub key: String,
    /// Offered subprotocols, in order.
    pub protocols: Vec<String>,
    /// Offered extension elements, in order.
    pub extensions: Vec<String>,
}

/// The mathematical content of a [`ServerHandshakeRequest`].
pub struct ServerRequestSpec {
    pub path: Seq<char>,
    pub host: Seq<char>,
    pub origin: Option<Seq<char>>,
    pub key: Seq<char>,
    pub protocols: Seq<Seq<char>>,
    pub extensions: Seq<Seq<char>>,
}

impl View for ServerHandshakeRequest {
    type V = ServerRequestSpec;

    open spec fn view(&self) -> ServerRequestSpec {
        ServerRequestSpec {
            path: self.path@,
            host: self.host@,
            origin: opt_string_view(self.origin),
            key: self.key@,
            protocols: strings_view(self.protocols@),
            extensions: strings_view(self.extensions@),
        }
    }
}

/// Why a request is refused: the kind and the reason.
pub struct RequestRefusal {
    pub kind: ErrorKind,
    pub reason: Seq<char>,
}

/// Checking a handshake request (RFC 6455 Section 4.2.1): a `GET` with one
/// `Host`, an `Upgrade` listing `websocket`, a `Connection` listing
/// `upgrade`, one valid `Sec-WebSocket-Key` and `Sec-WebSocket-Version: 13`
/// (any other version is `VersionNotSupported`, Section 4.4); the offered
/// subprotocols are the comma-separated items of `Sec-WebSocket-Protocol`
/// and the offered extensions the elements of `Sec-WebSocket-Extensions`,
/// which must follow the Section 9.1 grammar.
pub open spec fn spec_check_request(h: RequestHeadSpec) -> Result<ServerRequestSpec, RequestRefusal> {
    let host = header_values(h.headers, "Host"@);
    let upgrade = header_values(h.headers, "Upgrade"@);
    let connection = header_values(h.headers, "Connection"@);
    let key = header_values(h.headers, "Sec-WebSocket-Key"@);
    let version = header_values(h.headers, "Sec-WebSocket-Version"@);
    let origin = header_values(h.headers, "Origin"@);
    let protocols = extension_elements(header_values(h.headers, "Sec-WebSocket-Protocol"@));
    let exts = extension_elements(header_values(h.headers, "Sec-WebSocket-Extensions"@));
    let rejected = ErrorKind::HandshakeRejected;
    if h.method != "GET"@ {
        Err(RequestRefusal { kind: rejected, reason: "invalid method: "@ + h.method })
    } else if host.len() == 0 {
        Err(RequestRefusal { kind: rejected, reason: "missing Host header"@ })
    } else if host.len() > 1 {
        Err(RequestRefusal { kind: rejected, reason: "duplicate Host header"@ })
    } else if upgrade.len() == 0 {
        Err(RequestRefusal { kind: rejected, reason: "missing Upgrade header"@ })
    } else if !has_token(upgrade, "websocket"@) {
        Err(RequestRefusal { kind: rejected, reason: "invalid Upgrade header: "@ + join(upgrade, ", "@) })
    } else if connection.len() == 0 {
        Err(RequestRefusal { kind: rejected, reason: "missing Connection header"@ })
    } else if !has_token(connection, "upgrade"@) {
        Err(RequestRefusal { kind: rejected, reason: "invalid Connection header: "@ + join(connection, ", "@) })
    } else if key.len() == 0 {
        Err(RequestRefusal { kind: rejected, reason: "missing Sec-WebSocket-Key header"@ })
    } else if key.len() > 1 {
        Err(RequestRefusal { kind: rejected, reason: "duplicate Sec-WebSocket-Key header"@ })
    } else if !spec_valid_key(key[0]) {
        Err(RequestRefusal { kind: rejected, reason: "invalid Sec-WebSocket-Key"@ })
    } else if version.len() == 0 {
        Err(RequestRefusal { kind: rejected, reason: "missing Sec-WebSocket-Version header"@ })
    } else if version.len() > 1 || version[0] != "13"@ {
        Err(RequestRefusal { kind: ErrorKind::VersionNotSupported, reason: join(version, ", "@) })
    } else {
        match first_strict_error(exts, 0) {
            Some(m) => Err(RequestRefusal { kind: rejected, reason: "invalid Sec-WebSocket-Extensions value: "@ + m }),
            None => Ok(
                ServerRequestSpec {
                    path: h.target,
                    host: host[0],
                    origin: if origin.len() == 0 {
                        None
                    } else {
                        Some(origin[0])
                    },
                    key: key[0],
                    protocols,
                    extensions: exts,
                },
            ),
        }
    }
}

/// Checks a decoded request head as [`spec_check_request`] states.
pub fn check_request(head: &RequestHeadInfo) -> (r: Result<ServerHandshakeRequest, Error>)
    ensures
        match spec_check_request(head@) {
            Ok(q) => r matches Ok(v) && v@ == q,
            Err(f) => r matches Err(e) && e.kind == f.kind && e.reason@ == f.reason,
        },
{
    if !str_eq(head.method.as_str(), "GET") {
        return Err(
            Error::with_reason(ErrorKind::HandshakeRejected, concat_str("invalid method: ", head.method.as_str())),
        );
    }
    let host = get_header_values(&head.headers, "Host");
    if host.len() == 0 {
        return Err(Error::with_text(ErrorKind::HandshakeRejected, "missing Host header"));
    }
    if host.len() > 1 {
        return Err(Error::with_text(ErrorKind::HandshakeRejected, "duplicate Host header"));
    }
    let upgrade = get_header_values(&head.headers, "Upgrade");
    if upgrade.len() == 0 {
        return Err(Error::with_text(ErrorKind::HandshakeRejected, "missing Upgrade header"));
    }
    if !values_have_token(&upgrade, "websocket") {
        let joined = join_values(&upgrade, ", ");
        return Err(
            Error::with_reason(ErrorKind::HandshakeRejected, concat_str("invalid Upgrade header: ", joined.as_str())),
        );
    }
    let connection = get_header_values(&head.headers, "Connection");
    if connection.len() == 0 {
        return Err(Error::with_text(ErrorKind::HandshakeRejected, "missing Connection header"));
    }
    if !values_have_token(&connection, "upgrade") {
        let joined = join_values(&connection, ", ");
        return Err(
            Error::with_reason(
                ErrorKind::HandshakeRejected,
                concat_str("invalid Connection header: ", joined.as_str()),
            ),
        );
    }
    let key = get_header_values(&head.headers, "Sec-WebSocket-Key");
    if key.len() == 0 {
        return Err(Error::with_text(ErrorKind::HandshakeRejected, "missing Sec-WebSocket-Key header"));
    }
    if key.len() > 1 {
        return Err(Error::with_text(ErrorKind::HandshakeRejected, "duplicate Sec-WebSocket-Key header"));
    }
    proof {
        assert(strings_view(key@)[0] == key@[0]@);
    }
    if crate::handshake::validate_key(key[0].as_str()).is_err() {
        return Err(Error::with_text(ErrorKind::HandshakeRejected, "invalid Sec-WebSocket-Key"));
    }
    let version = get_header_values(&head.headers, "Sec-WebSocket-Version");
    if version.len() == 0 {
        return Err(Error::with_text(ErrorKind::HandshakeRejected, "missing Sec-WebSocket-Version header"));
    }
    proof {
        assert(strings_view(version@)[0] == version@[0]@);
    }
    if version.len() > 1 || !str_eq(version[0].as_str(), "13") {
        return Err(Error::with_reason(ErrorKind::VersionNotSupported, join_values(&version, ", ")));
    }
    let origin_values = get_header_values(&head.headers, "Origin");
    let protocol_values = get_header_values(&head.headers, "Sec-WebSocket-Protocol");
    let protocols = split_extension_values(&protocol_values);
    let ext_values = get_header_values(&head.headers, "Sec-WebSocket-Extensions");
    let extensions = split_extension_values(&ext_values);
    let ghost es = strings_view(extensions@);
    proof {
        assert(forall|m: Seq<char>| first_strict_error(es, 0) == Some(m) ==> spec_check_request(head@)
            == Err::<ServerRequestSpec, RequestRefusal>(RequestRefusal {
                kind: ErrorKind::HandshakeRejected,
                reason: "invalid Sec-WebSocket-Extensions value: "@ + m,
            }));
    }
    let mut k: usize = 0;
    while k < extensions.len()
        invariant
            k <= extensions@.len(),
            es == strings_view(extensions@),
            first_strict_error(es, 0) == first_strict_error(es, k as int),
            forall|m: Seq<char>| first_strict_error(es, 0) == Some(m) ==> spec_check_request(head@)
                == Err::<ServerRequestSpec, RequestRefusal>(RequestRefusal {
                    kind: ErrorKind::HandshakeRejected,
                    reason: "invalid Sec-WebSocket-Extensions value: "@ + m,
                }),
        decreases extensions@.len() - k,
    {
        proof {
            assert(es[k as int] == extensions@[k as int]@);
        }
        if let Err(e) = Extension::parse_strict(extensions[k].as_str()) {
            return Err(
                Error::with_reason(
                    ErrorKind::HandshakeRejected,
                    concat_str("invalid Sec-WebSocket-Extensions value: ", e.reason.as_str()),
                ),
            );
        }
        k = k + 1;
    }
    proof {
        assert(strings_view(host@)[0] == host@[0]@);
        if origin_values@.len() > 0 {
            assert(strings_view(origin_values@)[0] == origin_values@[0]@);
        }
    }
    let origin = if origin_values.len() == 0 {
        None
    } else {
        Some(string_from_str(origin_values[0].as_str()))
    };
    Ok(
        ServerHandshakeRequest {
            path: string_from_str(head.target.as_str()),
            host: string_from_str(host[0].as_str()),
            origin,
            key: string_from_str(key[0].as_str()),
            protocols,
            extensions,
        },
    )
}

/// Checks the handshake requests a server receives.
pub struct HandshakeRequestValidator {
    decoder: HttpRequestDecoder,
    decode_error: Option<String>,
}

impl HandshakeRequestValidator {
    /// The message of the first refused input, if any.
    pub closed spec fn decode_error(&self) -> Option<Seq<char>> {
        opt_string_view(self.decode_error)
    }

    /// The received bytes not yet consumed by decoding the head.
    pub closed spec fn buffered(&self) -> Seq<u8> {
        request_decoder_buffer(self.decoder)
    }

    /// The most bytes the validator buffers.
    pub closed spec fn buffer_limit(&self) -> usize {
        request_decoder_limit(self.decoder)
    }

    /// All the bytes the validator has accepted since it was made or reset.
    pub closed spec fn received(&self) -> Seq<u8> {
        request_decoder_fed(self.decoder)
    }

    /// Whether decoding has given a head or an error; after that, nothing is
    /// stated of further decoding until a reset.
    pub closed spec fn settled(&self) -> bool {
        request_decoder_settled(self.decoder)
    }

    /// An empty validator.
    pub fn new() -> (r: HandshakeRequestValidator)
        ensures
            r.decode_error() is None,
            r.buffered() == Seq::<u8>::empty(),
            r.buffer_limit() == 64 * 1024,
            r.received() == Seq::<u8>::empty(),
            !r.settled(),
    {
        HandshakeRequestValidator { decoder: request_decoder_new(), decode_error: None }
    }

    /// Buffers received bytes. Bytes that would overflow the buffer are
    /// refused and the refusal is kept; after it nothing more is fed.
    pub fn feed(&mut self, data: &[u8])
        ensures
            final(self).buffer_limit() == old(self).buffer_limit(),
            old(self).decode_error() is Some ==> final(self).decode_error() == old(self).decode_error()
                && final(self).buffered() == old(self).buffered(),
            old(self).decode_error() is None && old(self).buffered().len() + data@.len()
                <= old(self).buffer_limit() ==> final(self).decode_error() is None && final(self).buffered()
                == old(self).buffered() + data@,
            old(self).decode_error() is None && old(self).buffered().len() + data@.len()
                > old(self).buffer_limit() ==> final(self).decode_error() is Some && final(self).buffered()
                == old(self).buffered(),
            final(self).received() == if old(self).decode_error() is None && old(self).buffered().len()
                + data@.len() <= old(self).buffer_limit() {
                old(self).received() + data@
            } else {
                old(self).received()
            },
            final(self).settled() == old(self).settled(),
    {
        if self.decode_error.is_none() {
            if let Err(m) = request_decoder_feed(&mut self.decoder, data) {
                self.decode_error = Some(m);
            }
        }
    }

    /// The bytes not consumed by decoding: once the head is decoded, those
    /// after it.
    pub fn remaining(&self) -> (r: &[u8])
        ensures
            r@ == self.buffered(),
    {
        request_decoder_remaining(&self.decoder)
    }

    /// Forgets everything fed so far.
    pub fn reset(&mut self)
        ensures
            final(self).decode_error() is None,
            final(self).buffered() == Seq::<u8>::empty(),
            final(self).buffer_limit() == old(self).buffer_limit(),
            final(self).received() == Seq::<u8>::empty(),
            !final(self).settled(),
    {
        request_decoder_reset(&mut self.decoder);
        self.decode_error = None;
    }

    /// Checks the request once its head is complete: `None` while more bytes
    /// are needed.
    pub fn validate(&mut self) -> (r: Result<Option<ServerHandshakeRequest>, Error>)
        ensures
            final(self).decode_error() == old(self).decode_error(),
            final(self).buffer_limit() == old(self).buffer_limit(),
            exists|k: int|
                0 <= k <= old(self).buffered().len() && final(self).buffered()
                    == #[trigger] old(self).buffered().skip(k),
            final(self).received() == old(self).received(),
            old(self).decode_error() is Some ==> final(self).settled() == old(self).settled(),
            old(self).decode_error() matches Some(m) ==> (r matches Err(e) && e.kind
                == ErrorKind::InvalidData && e.reason@ == m),
            old(self).decode_error() is None && !old(self).settled() ==> match spec_http_request_parse(
                old(self).received(),
            ) {
                None => r matches Err(e) && e.kind == ErrorKind::InvalidData && final(self).settled(),
                Some(None) => r matches Ok(None) && !final(self).settled(),
                Some(Some((h, n))) => final(self).settled() && final(self).buffered() == old(
                    self,
                ).received().skip(n as int) && match spec_check_request(h) {
                    Ok(q) => r matches Ok(Some(v)) && v@ == q,
                    Err(f) => r matches Err(e) && e.kind == f.kind && e.reason@ == f.reason,
                },
            },
            r matches Ok(Some(v)) ==> exists|h: RequestHeadSpec| #[trigger] spec_check_request(h)
                == Ok::<ServerRequestSpec, RequestRefusal>(v@),
    {
        assert(self.buffered().skip(0) =~= self.buffered());
        if let Some(reason) = &self.decode_error {
            return Err(Error::with_reason(ErrorKind::InvalidData, string_from_str(reason.as_str())));
        }
        let head = match request_decoder_decode_headers(&mut self.decoder) {
            Err(m) => return Err(Error::with_reason(ErrorKind::InvalidData, m)),
            Ok(None) => return Ok(None),
            Ok(Some(h)) => h,
        };
        let info = RequestHeadInfo {
            method: request_head_method(&head),
            target: request_head_uri(&head),
            headers: request_head_headers(&head),
        };
        match check_request(&info) {
            Ok(v) => {
                assert(spec_check_request(info@) == Ok::<ServerRequestSpec, RequestRefusal>(v@));
                Ok(Some(v))
            },
            Err(e) => Err(e),
        }
    }
}

} // verus!
