//! The server side's handshake response, and the client's check of the
//! response it receives (RFC 6455 Section 4.1 and 4.2.2).

use vstd::prelude::*;

use shiguredo_http11::{ResponseDecoder, ResponseHead};

use crate::connection_types::strings_view;
use crate::error::{headers_view, Error, ErrorKind, HeadSpec, HttpResponseInfo};
use crate::extension::{spec_split, spec_strict_error, Extension};
use crate::handshake::{calculate_accept, plain_split, plain_split_ranges};
use crate::text::{chars_ci_eq, ci_eq, concat_str, str_chars, string_from_range, string_from_str, trim, trim_range};

verus! {

// ---------------------------------------------------------------------------
// Outside types and calls
// ---------------------------------------------------------------------------

/// `shiguredo_http11::ResponseDecoder` with its default (no) body
/// decompression, held opaquely: the decoder's generic parameter is bounded
/// by a trait whose name this crate uses for its own decompressor.
#[verifier::external_body]
pub struct HttpResponseDecoder {
    inner: ResponseDecoder,
}

#[verifier::external_type_specification]
#[verifier::external_body]
pub struct ExResponseHead(shiguredo_http11::ResponseHead);

/// The bytes a response decoder holds that decoding has not consumed.
pub uninterp spec fn response_decoder_buffer(d: HttpResponseDecoder) -> Seq<u8>;

/// The most bytes a response decoder holds (its `max_buffer_size`).
pub uninterp spec fn response_decoder_limit(d: HttpResponseDecoder) -> usize;

/// All the bytes a response decoder has accepted since it was made.
pub uninterp spec fn response_decoder_fed(d: HttpResponseDecoder) -> Seq<u8>;

/// Whether `decode_headers` has given a head or an error on this decoder.
pub uninterp spec fn response_decoder_settled(d: HttpResponseDecoder) -> bool;

/// What a fresh `ResponseDecoder` (default limits) gives from `decode_headers`
/// for the input `bytes`: `None` for an error, `Some(None)` while the head is
/// incomplete, `Some(Some((head, n)))` once the status line and header
/// fields are complete, `n` being the number of bytes they take up to and
/// including the empty line. Each call parses only complete lines, so
/// before its first head or error the outcome depends on the bytes fed
/// alone.
pub uninterp spec fn spec_http_response_parse(bytes: Seq<u8>) -> Option<Option<(HeadSpec, nat)>>;

/// The status code, reason phrase and header fields of a decoded head.
pub uninterp spec fn response_head_view(h: ResponseHead) -> HeadSpec;

/// Calls `ResponseDecoder::new`: an HTTP/1.1 response decoder with the
/// crate's default limits (a 64 KiB buffer), holding nothing.
#[verifier::external_body]
fn response_decoder_new() -> (r: HttpResponseDecoder)
    ensures
        response_decoder_buffer(r) == Seq::<u8>::empty(),
        response_decoder_limit(r) == 64 * 1024,
        response_decoder_fed(r) == Seq::<u8>::empty(),
        !response_decoder_settled(r),
{
    HttpResponseDecoder { inner: ResponseDecoder::new() }
}

/// Calls `ResponseDecoder::feed`, which appends `data` to the buffer; it
/// refuses, leaving the buffer as it was, when the buffer would exceed its
/// limit, and the error's message is returned.
#[verifier::external_body]
fn response_decoder_feed(d: &mut HttpResponseDecoder, data: &[u8]) -> (r: Result<(), String>)
    ensures
        response_decoder_limit(*final(d)) == response_decoder_limit(*old(d)),
        r is Ok <==> response_decoder_buffer(*old(d)).len() + data@.len() <= response_decoder_limit(*old(d)),
        r is Ok ==> response_decoder_buffer(*final(d)) == response_decoder_buffer(*old(d)) + data@,
        r is Err ==> response_decoder_buffer(*final(d)) == response_decoder_buffer(*old(d)),
        r is Ok ==> response_decoder_fed(*final(d)) == response_decoder_fed(*old(d)) + data@,
        r is Err ==> response_decoder_fed(*final(d)) == response_decoder_fed(*old(d)),
        response_decoder_settled(*final(d)) == response_decoder_settled(*old(d)),
{
    d.inner.feed(data).map_err(|e| e.to_string())
}

/// Calls `ResponseDecoder::remaining`: the buffered bytes not consumed by
/// decoding.
#[verifier::external_body]
fn response_decoder_remaining(d: &HttpResponseDecoder) -> (r: &[u8])
    ensures
        r@ == response_decoder_buffer(*d),
{
    d.inner.remaining()
}

/// Calls `ResponseDecoder::decode_headers`: the head once its status line and
/// header fields are complete (the body kind is dropped), `None` while more
/// bytes are needed, or the error's message for malformed input. Decoding
/// consumes lines from the front of the buffer and adds nothing to it. Which
/// head comes out depends on what was fed, and is not stated.
#[verifier::external_body]
fn response_decoder_decode_headers(d: &mut HttpResponseDecoder) -> (r: Result<Option<ResponseHead>, String>)
    ensures
        response_decoder_limit(*final(d)) == response_decoder_limit(*old(d)),
        exists|k: int|
            0 <= k <= response_decoder_buffer(*old(d)).len() && response_decoder_buffer(*final(d))
                == #[trigger] response_decoder_buffer(*old(d)).skip(k),
        response_decoder_fed(*final(d)) == response_decoder_fed(*old(d)),
        response_decoder_settled(*final(d)) == (response_decoder_settled(*old(d)) || !(r matches Ok(None))),
        !response_decoder_settled(*old(d)) ==> match spec_http_response_parse(response_decoder_fed(*old(d))) {
            None => r is Err,
            Some(None) => r matches Ok(None),
            Some(Some((head, n))) => r matches Ok(Some(h)) && response_head_view(h) == head && n
                <= response_decoder_fed(*old(d)).len() && response_decoder_buffer(*final(d))
                == response_decoder_fed(*old(d)).skip(n as int),
        },
{
    match d.inner.decode_headers() {
        Ok(Some((head, _kind))) => Ok(Some(head)),
        Ok(None) => Ok(None),
        Err(e) => Err(e.to_string()),
    }
}

/// Calls `ResponseHead::status_code`, which the crate documents to be in
/// 100..=599.
#[verifier::external_body]
fn response_head_status(h: &ResponseHead) -> (r: u16)
    ensures
        100 <= r <= 599,
        r == response_head_view(*h).status_code,
{
    h.status_code()
}

/// Calls `ResponseHead::reason_phrase`.
#[verifier::external_body]
fn response_head_reason(h: &ResponseHead) -> (r: String)
    ensures
        r@ == response_head_view(*h).reason_phrase,
{
    h.reason_phrase().to_string()
}

/// Calls `ResponseHead::headers`: the header fields in the order received,
/// names as received.
#[verifier::external_body]
fn response_head_headers(h: &ResponseHead) -> (r: Vec<(String, String)>)
    ensures
        headers_view(r@) == response_head_view(*h).headers,
{
    h.headers().iter().map(|(n, v)| (n.as_str().to_string(), v.clone())).collect()
}

/// The plain values of a decoded response head.
fn head_info(h: &ResponseHead) -> (r: HttpResponseInfo)
    ensures
        100 <= r.status_code <= 599,
        r@ == response_head_view(*h),
{
    HttpResponseInfo {
        status_code: response_head_status(h),
        reason_phrase: response_head_reason(h),
        headers: response_head_headers(h),
    }
}

// ---------------------------------------------------------------------------
// Header fields
// ---------------------------------------------------------------------------

/// The values of the header fields named `name` (compared ignoring ASCII
/// case), in order.
pub open spec fn header_values(hs: Seq<(Seq<char>, Seq<char>)>, name: Seq<char>) -> Seq<Seq<char>>
    decreases hs.len(),
{
    if hs.len() == 0 {
        Seq::empty()
    } else {
        let rest = header_values(hs.drop_last(), name);
        if ci_eq(hs.last().0, name) {
            rest.push(hs.last().1)
        } else {
            rest
        }
    }
}

/// One of the comma-separated items of `v`, trimmed, equals `tok` ignoring
/// ASCII case.
pub open spec fn value_has_token(v: Seq<char>, tok: Seq<char>) -> bool {
    exists|j: int| 0 <= j < plain_split(v, ',').len() && ci_eq(trim(#[trigger] plain_split(v, ',')[j]), tok)
}

/// Some value lists `tok` (field lines of one name are combined, RFC 9110
/// Section 5.3).
pub open spec fn has_token(vs: Seq<Seq<char>>, tok: Seq<char>) -> bool {
    exists|i: int| 0 <= i < vs.len() && value_has_token(#[trigger] vs[i], tok)
}

/// `vs` joined with `sep`.
pub open spec fn join(vs: Seq<Seq<char>>, sep: Seq<char>) -> Seq<char>
    decreases vs.len(),
{
    if vs.len() == 0 {
        Seq::empty()
    } else if vs.len() == 1 {
        vs[0]
    } else {
        join(vs.drop_last(), sep) + sep + vs.last()
    }
}

/// The pieces, trimmed, without the empty ones.
pub open spec fn trimmed_elements(parts: Seq<Seq<char>>) -> Seq<Seq<char>>
    decreases parts.len(),
{
    if parts.len() == 0 {
        Seq::empty()
    } else {
        let rest = trimmed_elements(parts.drop_last());
        if trim(parts.last()).len() > 0 {
            rest.push(trim(parts.last()))
        } else {
            rest
        }
    }
}

/// The extension elements of all `Sec-WebSocket-Extensions` values: each
/// value is cut at every `,`, and the pieces are trimmed, empty ones dropped.
pub open spec fn extension_elements(vs: Seq<Seq<char>>) -> Seq<Seq<char>>
    decreases vs.len(),
{
    if vs.len() == 0 {
        Seq::empty()
    } else {
        extension_elements(vs.drop_last()) + trimmed_elements(plain_split(vs.last(), ','))
    }
}

/// The reason why the first element from `k` on breaks the extension grammar.
pub open spec fn first_strict_error(es: Seq<Seq<char>>, k: int) -> Option<Seq<char>>
    decreases es.len() - k,
{
    if k >= es.len() || k < 0 {
        None
    } else {
        match spec_strict_error(spec_split(es[k], ','), 0) {
            Some(m) => Some(m),
            None => first_strict_error(es, k + 1),
        }
    }
}

/// The values of the header fields named `name`.
pub fn get_header_values(headers: &Vec<(String, String)>, name: &str) -> (r: Vec<String>)
    ensures
        strings_view(r@) == header_values(headers_view(headers@), name@),
{
    let target = str_chars(name);
    let mut out: Vec<String> = Vec::new();
    let mut i: usize = 0;
    while i < headers.len()
        invariant
            i <= headers@.len(),
            target@ == name@,
            strings_view(out@) == header_values(headers_view(headers@).take(i as int), name@),
        decreases headers@.len() - i,
    {
        let ghost hv = headers_view(headers@);
        proof {
            assert(hv.take(i + 1).drop_last() =~= hv.take(i as int));
            assert(hv.take(i + 1).last() == hv[i as int]);
        }
        let n = str_chars(headers[i].0.as_str());
        if chars_ci_eq(n.as_slice(), target.as_slice()) {
            let v = string_from_str(headers[i].1.as_str());
            proof {
                assert(strings_view(out@.push(v)) =~= strings_view(out@).push(v@));
            }
            out.push(v);
        }
        i = i + 1;
    }
    assert(headers_view(headers@).take(headers@.len() as int) =~= headers_view(headers@));
    out
}

fn value_lists_token(v: &str, tok: &[char]) -> (r: bool)
    ensures
        r == value_has_token(v@, tok@),
{
    let cs = str_chars(v);
    let parts = plain_split_ranges(cs.as_slice(), ',');
    let ghost ps = plain_split(v@, ',');
    let mut j: usize = 0;
    while j < parts.len()
        invariant
            j <= parts@.len(),
            cs@ == v@,
            ps == plain_split(v@, ','),
            parts@.len() == ps.len(),
            forall|m: int|
                0 <= m < parts@.len() ==> #[trigger] parts@[m].0 <= parts@[m].1 <= cs@.len()
                    && cs@.subrange(parts@[m].0 as int, parts@[m].1 as int) == ps[m],
            forall|m: int| 0 <= m < j ==> !ci_eq(trim(#[trigger] ps[m]), tok@),
        decreases parts@.len() - j,
    {
        let (a, b) = parts[j];
        let (lo, hi) = trim_range(cs.as_slice(), a, b);
        let piece = crate::extension::copy_range(cs.as_slice(), lo, hi);
        proof {
            assert(cs@.subrange(a as int, b as int) == ps[j as int]);
        }
        if chars_ci_eq(piece.as_slice(), tok) {
            assert(ci_eq(trim(ps[j as int]), tok@));
            return true;
        }
        j = j + 1;
    }
    false
}

/// Whether some value lists `tok`.
pub fn values_have_token(values: &Vec<String>, tok: &str) -> (r: bool)
    ensures
        r == has_token(strings_view(values@), tok@),
{
    let t = str_chars(tok);
    let ghost vs = strings_view(values@);
    let mut i: usize = 0;
    while i < values.len()
        invariant
            i <= values@.len(),
            t@ == tok@,
            vs == strings_view(values@),
            forall|m: int| 0 <= m < i ==> !value_has_token(#[trigger] vs[m], tok@),
        decreases values@.len() - i,
    {
        if value_lists_token(values[i].as_str(), t.as_slice()) {
            assert(value_has_token(vs[i as int], tok@));
            return true;
        }
        i = i + 1;
    }
    false
}

/// The values joined with `sep`.
pub fn join_values(values: &Vec<String>, sep: &str) -> (r: String)
    ensures
        r@ == join(strings_view(values@), sep@),
{
    let ghost vs = strings_view(values@);
    if values.len() == 0 {
        return String::new();
    }
    let mut out = string_from_str(values[0].as_str());
    proof {
        assert(vs.take(1).len() == 1);
    }
    let mut i: usize = 1;
    while i < values.len()
        invariant
            1 <= i <= values@.len(),
            vs == strings_view(values@),
            out@ == join(vs.take(i as int), sep@),
        decreases values@.len() - i,
    {
        let a = concat_str(out.as_str(), sep);
        out = concat_str(a.as_str(), values[i].as_str());
        proof {
            assert(vs.take(i + 1).drop_last() =~= vs.take(i as int));
        }
        i = i + 1;
    }
    assert(vs.take(values@.len() as int) =~= vs);
    out
}

/// Appends the trimmed, non-empty comma-separated pieces of `v`.
fn push_elements(v: &str, out: &mut Vec<String>)
    ensures
        strings_view(final(out)@) == strings_view(old(out)@) + trimmed_elements(plain_split(v@, ',')),
{
    let cs = str_chars(v);
    let parts = plain_split_ranges(cs.as_slice(), ',');
    let ghost ps = plain_split(v@, ',');
    let ghost base = strings_view(out@);
    let mut j: usize = 0;
    while j < parts.len()
        invariant
            j <= parts@.len(),
            cs@ == v@,
            ps == plain_split(v@, ','),
            parts@.len() == ps.len(),
            forall|m: int|
                0 <= m < parts@.len() ==> #[trigger] parts@[m].0 <= parts@[m].1 <= cs@.len()
                    && cs@.subrange(parts@[m].0 as int, parts@[m].1 as int) == ps[m],
            strings_view(out@) == base + trimmed_elements(ps.take(j as int)),
        decreases parts@.len() - j,
    {
        let (a, b) = parts[j];
        let (lo, hi) = trim_range(cs.as_slice(), a, b);
        proof {
            assert(cs@.subrange(a as int, b as int) == ps[j as int]);
            assert(ps.take(j + 1).drop_last() =~= ps.take(j as int));
            assert(ps.take(j + 1).last() == ps[j as int]);
        }
        if lo < hi {
            let e = string_from_range(cs.as_slice(), lo, hi);
            proof {
                assert(strings_view(out@.push(e)) =~= strings_view(out@).push(e@));
                assert(base + trimmed_elements(ps.take(j as int)).push(e@) =~= (base
                    + trimmed_elements(ps.take(j as int))).push(e@));
            }
            out.push(e);
        }
        j = j + 1;
    }
    assert(ps.take(ps.len() as int) =~= ps);
}

/// The extension elements of the values.
pub fn split_extension_values(values: &Vec<String>) -> (r: Vec<String>)
    ensures
        strings_view(r@) == extension_elements(strings_view(values@)),
{
    let ghost vs = strings_view(values@);
    let mut out: Vec<String> = Vec::new();
    let mut i: usize = 0;
    while i < values.len()
        invariant
            i <= values@.len(),
            vs == strings_view(values@),
            strings_view(out@) == extension_elements(vs.take(i as int)),
        decreases values@.len() - i,
    {
        push_elements(values[i].as_str(), &mut out);
        proof {
            assert(vs.take(i + 1).drop_last() =~= vs.take(i as int));
            assert(vs.take(i + 1).last() == vs[i as int]);
        }
        i = i + 1;
    }
    assert(vs.take(values@.len() as int) =~= vs);
    out
}

// ---------------------------------------------------------------------------
// The server's response
// ---------------------------------------------------------------------------

/// The mathematical content of a [`ServerHandshakeResponse`].
pub struct ServerResponseSpec {
    pub protocol: Option<Seq<char>>,
    pub extensions: Seq<Seq<char>>,
    pub additional_headers: Seq<(Seq<char>, Seq<char>)>,
}

/// What a server answers a handshake request with.
#[derive(Debug, Clone)]
pub struct ServerHandshakeResponse {
    /// The chosen subprotocol.
    pub protocol: Option<String>,
    /// The accepted extensions.
    pub extensions: Vec<String>,
    /// More header fields.
    pub additional_headers: Vec<(String, String)>,
}

impl View for ServerHandshakeResponse {
    type V = ServerResponseSpec;

    open spec fn view(&self) -> ServerResponseSpec {
        ServerResponseSpec {
            protocol: crate::connection_types::opt_string_view(self.protocol),
            extensions: strings_view(self.extensions@),
            additional_headers: headers_view(self.additional_headers@),
        }
    }
}

impl Default for ServerHandshakeResponse {
    fn default() -> (r: ServerHandshakeResponse)
        ensures
            r@ == (ServerResponseSpec {
                protocol: None,
                extensions: Seq::empty(),
                additional_headers: Seq::empty(),
            }),
    {
        let r = ServerHandshakeResponse {
            protocol: None,
            extensions: Vec::new(),
            additional_headers: Vec::new(),
        };
        assert(r@.extensions =~= Seq::<Seq<char>>::empty());
        assert(r@.additional_headers =~= Seq::<(Seq<char>, Seq<char>)>::empty());
        r
    }
}

impl ServerHandshakeResponse {
    /// A response with no subprotocol, no extension and no extra field.
    pub fn new() -> (r: ServerHandshakeResponse)
        ensures
            r@ == (ServerResponseSpec {
                protocol: None,
                extensions: Seq::empty(),
                additional_headers: Seq::empty(),
            }),
    {
        ServerHandshakeResponse::default()
    }

    /// Sets the subprotocol.
    pub fn protocol(self, protocol: &str) -> (r: ServerHandshakeResponse)
        ensures
            r@ == (ServerResponseSpec { protocol: Some(protocol@), ..self@ }),
    {
        ServerHandshakeResponse { protocol: Some(string_from_str(protocol)), ..self }
    }

    /// Adds an accepted extension.
    pub fn extension(self, extension: &str) -> (r: ServerHandshakeResponse)
        ensures
            r@ == (ServerResponseSpec { extensions: self@.extensions.push(extension@), ..self@ }),
    {
        let mut extensions = self.extensions;
        let e = string_from_str(extension);
        proof {
            assert(strings_view(extensions@.push(e)) =~= strings_view(extensions@).push(e@));
        }
        extensions.push(e);
        ServerHandshakeResponse { extensions, ..self }
    }

    /// Adds a header field.
    pub fn header(self, name: &str, value: &str) -> (r: ServerHandshakeResponse)
        ensures
            r@ == (ServerResponseSpec {
                additional_headers: self@.additional_headers.push((name@, value@)),
                ..self@
            }),
    {
        let mut headers = self.additional_headers;
        let h = (string_from_str(name), string_from_str(value));
        proof {
            assert(headers_view(headers@.push(h)) =~= headers_view(headers@).push((name@, value@)));
        }
        headers.push(h);
        ServerHandshakeResponse { additional_headers: headers, ..self }
    }
}

// ---------------------------------------------------------------------------
// The client's check of the response
// ---------------------------------------------------------------------------

/// The mathematical content of a [`HandshakeResponse`].
pub struct HandshakeSpec {
    pub protocol: Option<Seq<char>>,
    pub extensions: Seq<Seq<char>>,
}

/// A validated handshake response.
#[derive(Debug, Clone)]
pub struct HandshakeResponse {
    /// The subprotocol the server chose.
    pub protocol: Option<String>,
    /// The extension elements the server accepted.
    pub extensions: Vec<String>,
}

impl View for HandshakeResponse {
    type V = HandshakeSpec;

    open spec fn view(&self) -> HandshakeSpec {
        HandshakeSpec {
            protocol: crate::connection_types::opt_string_view(self.protocol),
            extensions: strings_view(self.extensions@),
        }
    }
}

/// Checking a `101` response (RFC 6455 Section 4.1): `Upgrade` must list
/// `websocket` and `Connection` must list `upgrade` (ignoring ASCII case,
/// field lines combined); there must be exactly one `Sec-WebSocket-Accept`,
/// equal to `expected`; at most one `Sec-WebSocket-Protocol`; and the
/// `Sec-WebSocket-Extensions` values must hold at least one element, each
/// following the Section 9.1 grammar. The result is the subprotocol and the
/// extension elements, or the reason for refusing the response.
pub open spec fn spec_check_response(h: HeadSpec, expected: Seq<char>) -> Result<HandshakeSpec, Seq<char>> {
    let upgrade = header_values(h.headers, "Upgrade"@);
    let connection = header_values(h.headers, "Connection"@);
    let accept = header_values(h.headers, "Sec-WebSocket-Accept"@);
    let protocol = header_values(h.headers, "Sec-WebSocket-Protocol"@);
    let ext_values = header_values(h.headers, "Sec-WebSocket-Extensions"@);
    let exts = extension_elements(ext_values);
    if upgrade.len() == 0 {
        Err("missing Upgrade header"@)
    } else if !has_token(upgrade, "websocket"@) {
        Err("invalid Upgrade header: "@ + join(upgrade, ", "@))
    } else if connection.len() == 0 {
        Err("missing Connection header"@)
    } else if !has_token(connection, "upgrade"@) {
        Err("invalid Connection header: "@ + join(connection, ", "@))
    } else if accept.len() > 1 {
        Err("duplicate Sec-WebSocket-Accept header"@)
    } else if accept.len() == 0 {
        Err("missing Sec-WebSocket-Accept header"@)
    } else if accept[0] != expected {
        Err("invalid Sec-WebSocket-Accept: expected "@ + expected + ", got "@ + accept[0])
    } else if protocol.len() > 1 {
        Err("duplicate Sec-WebSocket-Protocol header"@)
    } else if ext_values.len() > 0 && exts.len() == 0 {
        Err("malformed Sec-WebSocket-Extensions header: no valid extensions"@)
    } else {
        match first_strict_error(exts, 0) {
            Some(m) => Err("invalid Sec-WebSocket-Extensions value: "@ + m),
            None => Ok(
                HandshakeSpec {
                    protocol: if protocol.len() == 0 {
                        None
                    } else {
                        Some(protocol[0])
                    },
                    extensions: exts,
                },
            ),
        }
    }
}

fn copy_headers(hs: &Vec<(String, String)>) -> (r: Vec<(String, String)>)
    ensures
        headers_view(r@) == headers_view(hs@),
{
    let mut out: Vec<(String, String)> = Vec::new();
    let mut i: usize = 0;
    while i < hs.len()
        invariant
            i <= hs@.len(),
            headers_view(out@) == headers_view(hs@).take(i as int),
        decreases hs@.len() - i,
    {
        let h = (string_from_str(hs[i].0.as_str()), string_from_str(hs[i].1.as_str()));
        proof {
            assert(headers_view(hs@)[i as int] == (hs@[i as int].0@, hs@[i as int].1@));
            assert(headers_view(out@.push(h)) =~= headers_view(out@).push((h.0@, h.1@)));
            assert(headers_view(hs@).take(i + 1) =~= headers_view(hs@).take(i as int).push(headers_view(hs@)[i as int]));
        }
        out.push(h);
        i = i + 1;
    }
    assert(headers_view(hs@).take(hs@.len() as int) =~= headers_view(hs@));
    out
}

fn copy_info(info: &HttpResponseInfo) -> (r: HttpResponseInfo)
    ensures
        r@ == info@,
{
    HttpResponseInfo {
        status_code: info.status_code,
        reason_phrase: string_from_str(info.reason_phrase.as_str()),
        headers: copy_headers(&info.headers),
    }
}

/// Checks the handshake response a client receives.
pub struct HandshakeValidator {
    decoder: HttpResponseDecoder,
    expected_accept: String,
    decode_error: Option<String>,
}

impl HandshakeValidator {
    /// The `Sec-WebSocket-Accept` value the response must carry.
    pub closed spec fn expected(&self) -> Seq<char> {
        self.expected_accept@
    }

    /// The message of the first refused input, if any.
    pub closed spec fn decode_error(&self) -> Option<Seq<char>> {
        crate::connection_types::opt_string_view(self.decode_error)
    }

    /// The received bytes not yet consumed by decoding the head.
    pub closed spec fn buffered(&self) -> Seq<u8> {
        response_decoder_buffer(self.decoder)
    }

    /// The most bytes the validator buffers.
    pub closed spec fn buffer_limit(&self) -> usize {
        response_decoder_limit(self.decoder)
    }

    /// All the bytes the validator has accepted.
    pub closed spec fn received(&self) -> Seq<u8> {
        response_decoder_fed(self.decoder)
    }

    /// Whether decoding has given a head or an error; after that, nothing is
    /// stated of further decoding.
    pub closed spec fn settled(&self) -> bool {
        response_decoder_settled(self.decoder)
    }

    /// A validator for the handshake a client opened with `nonce`.
    pub fn new(nonce: [u8; 16]) -> (r: HandshakeValidator)
        ensures
            r.expected() == crate::handshake::spec_accept_from_key(crate::handshake::spec_key_of_nonce(nonce@)),
            r.decode_error() is None,
            r.buffered() == Seq::<u8>::empty(),
            r.buffer_limit() == 64 * 1024,
            r.received() == Seq::<u8>::empty(),
            !r.settled(),
    {
        HandshakeValidator {
            decoder: response_decoder_new(),
            expected_accept: calculate_accept(&nonce),
            decode_error: None,
        }
    }

    /// Buffers received bytes. Bytes that would overflow the buffer are
    /// refused and the refusal is kept; after it nothing more is fed.
    pub fn feed(&mut self, data: &[u8])
        ensures
            final(self).expected() == old(self).expected(),
            final(self).buffer_limit() == old(self).buffer_limit(),
            old(self).decode_error() is Some ==> final(self).decode_error() == old(self).decode_error()
                && final(self).buffered() == old(self).buffered(),
            old(self).decode_error() is None && old(self).buffered().len() + data@.len()
                <= old(self).buffer_limit() ==> final(self).decode_error() is None && final(self).buffered()
                == old(self).buffered() + data@,
            old(self).decode_error() is None && old(self).buffered().len() + data@.len()
                > old(self).buffer_limit() ==> final(self).decode_error() is Some && final(self).buffered()
                == old(self).buffered(),
            final(self).received() == if old(self).decode_error() is None && old(self).buffered().len()
                + data@.len() <= old(self).buffer_limit() {
                old(self).received() + data@
            } else {
                old(self).received()
            },
            final(self).settled() == old(self).settled(),
    {
        if self.decode_error.is_none() {
            if let Err(m) = response_decoder_feed(&mut self.decoder, data) {
                self.decode_error = Some(m);
            }
        }
    }

    /// The bytes not consumed by decoding: once the head is decoded, those
    /// after it (the first frames, if any).
    pub fn remaining(&self) -> (r: &[u8])
        ensures
            r@ == self.buffered(),
    {
        response_decoder_remaining(&self.decoder)
    }

    /// Checks the response once its head is complete: `None` while more
    /// bytes are needed.
    pub fn validate(&mut self) -> (r: Result<Option<HandshakeResponse>, Error>)
        ensures
            final(self).expected() == old(self).expected(),
            final(self).decode_error() == old(self).decode_error(),
            final(self).buffer_limit() == old(self).buffer_limit(),
            exists|k: int|
                0 <= k <= old(self).buffered().len() && final(self).buffered()
                    == #[trigger] old(self).buffered().skip(k),
            final(self).received() == old(self).received(),
            old(self).decode_error() is Some ==> final(self).settled() == old(self).settled(),
            old(self).decode_error() matches Some(m) ==> (r matches Err(e) && e.kind
                == ErrorKind::InvalidData && e.reason@ == m),
            old(self).decode_error() is None && !old(self).settled() ==> match spec_http_response_parse(
                old(self).received(),
            ) {
                None => r matches Err(e) && e.kind == ErrorKind::InvalidData && final(self).settled(),
                Some(None) => r matches Ok(None) && !final(self).settled(),
                Some(Some((h, n))) => final(self).settled() && final(self).buffered() == old(
                    self,
                ).received().skip(n as int) && if h.status_code != 101 {
                    r matches Err(e) && e.kind == ErrorKind::HttpResponse && (e.http_response matches Some(i)
                        && i@ == h)
                } else {
                    match spec_check_response(h, old(self).expected()) {
                        Ok(x) => r matches Ok(Some(v)) && v@ == x,
                        Err(m) => r matches Err(e) && e.kind == ErrorKind::HandshakeRejected && e.reason@ == m,
                    }
                },
            },
            r matches Ok(Some(v)) ==> exists|h: HeadSpec|
                h.status_code == 101 && #[trigger] spec_check_response(h, old(self).expected()) == Ok::<
                    HandshakeSpec,
                    Seq<char>,
                >(v@),
    {
        assert(self.buffered().skip(0) =~= self.buffered());
        if let Some(reason) = &self.decode_error {
            return Err(Error::with_reason(ErrorKind::InvalidData, string_from_str(reason.as_str())));
        }
        let head = match response_decoder_decode_headers(&mut self.decoder) {
            Err(m) => return Err(Error::with_reason(ErrorKind::InvalidData, m)),
            Ok(None) => return Ok(None),
            Ok(Some(h)) => h,
        };
        let info = head_info(&head);
        let r = self.validate_response(&info);
        proof {
            assert(self.expected() == old(self).expected());
            if r is Ok && r->Ok_0 is Some {
                assert(spec_check_response(info@, old(self).expected()) == Ok::<HandshakeSpec, Seq<char>>(r->Ok_0->Some_0@));
            }
        }
        r
    }

    /// Checks a decoded response head: any status other than 101 is an HTTP
    /// answer that the caller handles (Section 4.1); a 101 is checked as
    /// [`spec_check_response`] states.
    pub fn validate_response(&self, response: &HttpResponseInfo) -> (r: Result<Option<HandshakeResponse>, Error>)
        ensures
            response.status_code != 101 ==> (r matches Err(e) && e.kind == ErrorKind::HttpResponse
                && (e.http_response matches Some(i) && i@ == response@)),
            response.status_code == 101 ==> match spec_check_response(response@, self.expected()) {
                Ok(h) => r matches Ok(Some(v)) && v@ == h,
                Err(m) => r matches Err(e) && e.kind == ErrorKind::HandshakeRejected && e.reason@ == m,
            },
    {
        if response.status_code != 101 {
            return Err(Error::http_response(copy_info(response)));
        }
        let ghost hs = response@.headers;
        let upgrade = get_header_values(&response.headers, "Upgrade");
        if upgrade.len() == 0 {
            return Err(Error::with_text(ErrorKind::HandshakeRejected, "missing Upgrade header"));
        }
        if !values_have_token(&upgrade, "websocket") {
            let joined = join_values(&upgrade, ", ");
            return Err(
                Error::with_reason(
                    ErrorKind::HandshakeRejected,
                    concat_str("invalid Upgrade header: ", joined.as_str()),
                ),
            );
        }
        let connection = get_header_values(&response.headers, "Connection");
        if connection.len() == 0 {
            return Err(Error::with_text(ErrorKind::HandshakeRejected, "missing Connection header"));
        }
        if !values_have_token(&connection, "upgrade") {
            let joined = join_values(&connection, ", ");
            return Err(
                Error::with_reason(
                    ErrorKind::HandshakeRejected,
                    concat_str("invalid Connection header: ", joined.as_str()),
                ),
            );
        }
        let accept = get_header_values(&response.headers, "Sec-WebSocket-Accept");
        if accept.len() > 1 {
            return Err(
                Error::with_text(ErrorKind::HandshakeRejected, "duplicate Sec-WebSocket-Accept header"),
            );
        }
        if accept.len() == 0 {
            return Err(
                Error::with_text(ErrorKind::HandshakeRejected, "missing Sec-WebSocket-Accept header"),
            );
        }
        proof {
            assert(strings_view(accept@)[0] == accept@[0]@);
        }
        if !crate::text::str_eq(accept[0].as_str(), self.expected_accept.as_str()) {
            let a = concat_str("invalid Sec-WebSocket-Accept: expected ", self.expected_accept.as_str());
            let b = concat_str(a.as_str(), ", got ");
            return Err(
                Error::with_reason(ErrorKind::HandshakeRejected, concat_str(b.as_str(), accept[0].as_str())),
            );
        }
        let protocols = get_header_values(&response.headers, "Sec-WebSocket-Protocol");
        if protocols.len() > 1 {
            return Err(
                Error::with_text(ErrorKind::HandshakeRejected, "duplicate Sec-WebSocket-Protocol header"),
            );
        }
        let protocol = if protocols.len() == 0 {
            None
        } else {
            proof {
                assert(strings_view(protocols@)[0] == protocols@[0]@);
            }
            Some(string_from_str(protocols[0].as_str()))
        };
        let ext_values = get_header_values(&response.headers, "Sec-WebSocket-Extensions");
        let extensions = split_extension_values(&ext_values);
        if ext_values.len() > 0 && extensions.len() == 0 {
            return Err(
                Error::with_text(
                    ErrorKind::HandshakeRejected,
                    "malformed Sec-WebSocket-Extensions header: no valid extensions",
                ),
            );
        }
        let ghost es = strings_view(extensions@);
        let ghost expected = self.expected();
        let ghost result = HandshakeSpec { protocol: crate::connection_types::opt_string_view(protocol), extensions: es };
        proof {
            assert(forall|m: Seq<char>| first_strict_error(es, 0) == Some(m) ==> spec_check_response(response@, expected)
                == Err::<HandshakeSpec, Seq<char>>("invalid Sec-WebSocket-Extensions value: "@ + m));
            assert(first_strict_error(es, 0) is None ==> spec_check_response(response@, expected)
                == Ok::<HandshakeSpec, Seq<char>>(result));
        }
        let mut k: usize = 0;
        while k < extensions.len()
            invariant
                k <= extensions@.len(),
                es == strings_view(extensions@),
                first_strict_error(es, 0) == first_strict_error(es, k as int),
                response.status_code == 101,
                expected == self.expected(),
                forall|m: Seq<char>| first_strict_error(es, 0) == Some(m) ==> spec_check_response(response@, expected)
                    == Err::<HandshakeSpec, Seq<char>>("invalid Sec-WebSocket-Extensions value: "@ + m),
            decreases extensions@.len() - k,
        {
            proof {
                assert(es[k as int] == extensions@[k as int]@);
            }
            match Extension::parse_strict(extensions[k].as_str()) {
                Err(e) => {
                    return Err(
                        Error::with_reason(
                            ErrorKind::HandshakeRejected,
                            concat_str("invalid Sec-WebSocket-Extensions value: ", e.reason.as_str()),
                        ),
                    );
                },
                Ok(_) => {},
            }
            k = k + 1;
        }
        Ok(Some(HandshakeResponse { protocol, extensions }))
    }
}

} // verus!
