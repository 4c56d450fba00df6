//! The client's opening handshake request (RFC 6455 Section 4.1) and the
//! HTTP/1.1 encoding of handshake messages, done by `shiguredo_http11`.

use vstd::prelude::*;

use shiguredo_http11::{HeaderName, Request, Response};

use crate::connection_types::strings_view;
use crate::error::{headers_view, Error, ErrorKind};
use crate::response::{join, join_values};
use crate::text::string_from_str;

verus! {

// ---------------------------------------------------------------------------
// Outside types and calls
// ---------------------------------------------------------------------------

#[verifier::external_type_specification]
#[verifier::external_body]
pub struct ExRequest(shiguredo_http11::Request);

#[verifier::external_type_specification]
#[verifier::external_body]
pub struct ExResponse(shiguredo_http11::Response);

#[verifier::external_type_specification]
#[verifier::external_body]
pub struct ExHeaderName(shiguredo_http11::HeaderName);

/// The text of a request's head as `Request::encode` writes it: the request
/// line (`METHOD SP target SP HTTP/1.1 CRLF`), then one `name: value CRLF`
/// line per header field held, in the order added.
pub uninterp spec fn request_head(r: Request) -> Seq<char>;

/// Whether a request holds a body.
pub uninterp spec fn request_has_body(r: Request) -> bool;

/// The text of a response's head as `Response::encode` writes it: the status
/// line (`HTTP/1.1 SP status SP reason CRLF`), then one `name: value CRLF`
/// line per header field held, in the order added.
pub uninterp spec fn response_head(r: Response) -> Seq<char>;

/// Whether a response holds a body.
pub uninterp spec fn response_has_body(r: Response) -> bool;

/// The characters of a header name.
pub uninterp spec fn header_name_text(n: HeaderName) -> Seq<char>;

/// One header field line: `name: value` and CRLF.
pub open spec fn field_line(name: Seq<char>, value: Seq<char>) -> Seq<char> {
    name + ": "@ + value + "\r\n"@
}

/// The field lines of `fs`, in order.
pub open spec fn field_lines(fs: Seq<(Seq<char>, Seq<char>)>) -> Seq<char>
    decreases fs.len(),
{
    if fs.len() == 0 {
        Seq::empty()
    } else {
        field_lines(fs.drop_last()) + field_line(fs.last().0, fs.last().1)
    }
}

/// A hexadecimal digit.
pub open spec fn is_hex_digit(c: char) -> bool {
    ('0' <= c && c <= '9') || ('a' <= c && c <= 'f') || ('A' <= c && c <= 'F')
}

/// A character that may stand in a request target sent by this end: visible
/// ASCII other than the characters RFC 3986 excludes from URIs.
pub open spec fn is_target_char(c: char) -> bool {
    &&& ' ' < c && c < '\x7f'
    &&& c != '"' && c != '#' && c != '<' && c != '>' && c != '\\'
    &&& c != '^' && c != '`' && c != '{' && c != '|' && c != '}'
}

/// A request target that `Request::new` accepts: not empty, made of
/// [`is_target_char`] characters, and each `%` followed by two hexadecimal
/// digits other than `00`.
pub open spec fn spec_request_target_ok(t: Seq<char>) -> bool {
    &&& t.len() > 0
    &&& forall|i: int| 0 <= i < t.len() ==> is_target_char(#[trigger] t[i])
    &&& forall|i: int|
        #![trigger t[i]]
        0 <= i < t.len() && t[i] == '%' ==> i + 2 < t.len() && is_hex_digit(t[i + 1])
            && is_hex_digit(t[i + 2]) && !(t[i + 1] == '0' && t[i + 2] == '0')
}

/// A header field value that `Request::header` accepts: no control
/// character other than horizontal tab.
pub open spec fn is_field_value(v: Seq<char>) -> bool {
    forall|i: int| #![trigger v[i]] 0 <= i < v.len() ==> v[i] == '\t' || (' ' <= v[i] && v[i] != '\x7f')
}

/// Whether `Request::encode` accepts a request without a body whose head is
/// `head`. Its checks (the `Host` field's syntax, the target's form,
/// `Content-Length` and `Transfer-Encoding`) read the method, target,
/// version and header fields, which the head's text determines.
pub uninterp spec fn request_head_encodes(head: Seq<char>) -> bool;

/// Calls `Request::new` with method `GET`, which succeeds exactly when the
/// target is [`spec_request_target_ok`]; otherwise the error's message is
/// returned. The new request has version `HTTP/1.1`, no header field and no
/// body.
#[verifier::external_body]
fn http_get_request(target: &str) -> (r: Result<Request, String>)
    ensures
        r is Ok <==> spec_request_target_ok(target@),
        r matches Ok(q) ==> request_head(q) == "GET "@ + target@ + " HTTP/1.1\r\n"@ && !request_has_body(q),
{
    Request::new("GET", target).map_err(|e| e.to_string())
}

/// Whether `Response::encode` accepts a response without a body whose head
/// is `head`. Its checks (`Content-Length` and `Transfer-Encoding` against
/// the status) read the status and header fields, which the head's text
/// determines.
pub uninterp spec fn response_head_encodes(head: Seq<char>) -> bool;

/// Calls `Response::new`, which succeeds exactly when the status is within
/// 100..=599 and the reason phrase is not empty and [`is_field_value`];
/// otherwise the error's message is returned. The new response has version
/// `HTTP/1.1`, no header field and no body.
#[verifier::external_body]
pub(crate) fn http_response(status: u16, reason: &str) -> (r: Result<Response, String>)
    ensures
        r is Ok <==> (100 <= status && status <= 599 && reason@.len() > 0 && is_field_value(reason@)),
        r matches Ok(q) ==> response_head(q) == "HTTP/1.1 "@ + crate::text::decimal(status as nat) + " "@
            + reason@ + "\r\n"@ && !response_has_body(q),
{
    Response::new(status, reason).map_err(|e| e.to_string())
}

/// Calls `HeaderName::new`, which refuses a name that is not a token and
/// otherwise keeps its bytes as given.
#[verifier::external_body]
pub(crate) fn http_header_name(name: &str) -> (r: Result<HeaderName, String>)
    ensures
        r is Ok <==> crate::token::is_token(name@),
        r matches Ok(n) ==> header_name_text(n) == name@,
{
    HeaderName::new(name).map_err(|e| e.to_string())
}

/// Calls `Request::header`, which refuses a value that is not
/// [`is_field_value`] and otherwise appends the field to those the request
/// holds.
#[verifier::external_body]
fn http_request_header(req: Request, name: HeaderName, value: &str) -> (r: Result<Request, String>)
    ensures
        r is Ok <==> is_field_value(value@),
        r matches Ok(q) ==> request_head(q) == request_head(req) + field_line(header_name_text(name), value@)
            && request_has_body(q) == request_has_body(req),
{
    req.header(name, value).map_err(|e| e.to_string())
}

/// Calls `Response::header`, which refuses a value that is not
/// [`is_field_value`] and otherwise appends the field to those the response
/// holds.
#[verifier::external_body]
pub(crate) fn http_response_header(resp: Response, name: HeaderName, value: &str) -> (r: Result<Response, String>)
    ensures
        r is Ok <==> is_field_value(value@),
        r matches Ok(q) ==> response_head(q) == response_head(resp) + field_line(header_name_text(name), value@)
            && response_has_body(q) == response_has_body(resp),
{
    resp.header(name, value).map_err(|e| e.to_string())
}

/// Calls `Request::encode`: for a request without a body, it succeeds
/// exactly when [`request_head_encodes`] holds of its head, with the UTF-8
/// bytes of the head and an empty line; otherwise the error's message is
/// returned. When there is a body, nothing is stated.
#[verifier::external_body]
fn http_request_encode(req: &Request) -> (r: Result<Vec<u8>, String>)
    ensures
        !request_has_body(*req) ==> (r is Ok <==> request_head_encodes(request_head(*req))),
        !request_has_body(*req) ==> (r matches Ok(b) ==> b@ == vstd::utf8::encode_utf8(
            request_head(*req) + "\r\n"@,
        )),
{
    req.encode().map_err(|e| e.to_string())
}

/// Calls `Response::encode`: for a response without a body, it succeeds
/// exactly when [`response_head_encodes`] holds of its head, with the UTF-8
/// bytes of the head and an empty line; otherwise the error's message is
/// returned. When there is a body, nothing is stated.
#[verifier::external_body]
pub(crate) fn http_response_encode(resp: &Response) -> (r: Result<Vec<u8>, String>)
    ensures
        !response_has_body(*resp) ==> (r is Ok <==> response_head_encodes(response_head(*resp))),
        !response_has_body(*resp) ==> (r matches Ok(b) ==> b@ == vstd::utf8::encode_utf8(
            response_head(*resp) + "\r\n"@,
        )),
{
    resp.encode().map_err(|e| e.to_string())
}

// ---------------------------------------------------------------------------
// The handshake request
// ---------------------------------------------------------------------------

/// The mathematical content of a [`HandshakeRequest`].
pub struct RequestSpec {
    pub path: Seq<char>,
    pub host: Seq<char>,
    pub origin: Option<Seq<char>>,
    pub protocols: Seq<Seq<char>>,
    pub extensions: Seq<Seq<char>>,
    pub headers: Seq<(Seq<char>, Seq<char>)>,
}

/// A client's opening handshake request.
#[derive(Debug, Clone)]
pub struct HandshakeRequest {
    path: String,
    host: String,
    origin: Option<String>,
    protocols: Vec<String>,
    extensions: Vec<String>,
    headers: Vec<(String, String)>,
}

impl View for HandshakeRequest {
    type V = RequestSpec;

    closed spec fn view(&self) -> RequestSpec {
        RequestSpec {
            path: self.path@,
            host: self.host@,
            origin: crate::connection_types::opt_string_view(self.origin),
            protocols: strings_view(self.protocols@),
            extensions: strings_view(self.extensions@),
            headers: headers_view(self.headers@),
        }
    }
}

/// The header fields of the request, in order: `Host`, `Upgrade`,
/// `Connection`, `Sec-WebSocket-Key`, `Sec-WebSocket-Version: 13`, then
/// `Origin`, the subprotocols and the extension offers when there are any,
/// then the extra fields.
pub open spec fn spec_request_fields(r: RequestSpec, key: Seq<char>) -> Seq<(Seq<char>, Seq<char>)> {
    seq![
        ("Host"@, r.host),
        ("Upgrade"@, "websocket"@),
        ("Connection"@, "Upgrade"@),
        ("Sec-WebSocket-Key"@, key),
        ("Sec-WebSocket-Version"@, "13"@),
    ] + (match r.origin {
        Some(o) => seq![("Origin"@, o)],
        None => Seq::empty(),
    }) + (if r.protocols.len() > 0 {
        seq![("Sec-WebSocket-Protocol"@, join(r.protocols, ", "@))]
    } else {
        Seq::empty()
    }) + (if r.extensions.len() > 0 {
        seq![("Sec-WebSocket-Extensions"@, join(r.extensions, ", "@))]
    } else {
        Seq::empty()
    }) + r.headers
}

/// Appends the field `name: value`.
pub(crate) fn push_field(fields: &mut Vec<(String, String)>, name: &str, value: &str)
    ensures
        headers_view(final(fields)@) == headers_view(old(fields)@).push((name@, value@)),
{
    let f = (string_from_str(name), string_from_str(value));
    proof {
        assert(headers_view(fields@.push(f)) =~= headers_view(fields@).push((name@, value@)));
    }
    fields.push(f);
}

impl HandshakeRequest {
    /// A request for `path` on `host`.
    pub fn new(path: &str, host: &str) -> (r: HandshakeRequest)
        ensures
            r@ == (RequestSpec {
                path: path@,
                host: host@,
                origin: None,
                protocols: Seq::empty(),
                extensions: Seq::empty(),
                headers: Seq::empty(),
            }),
    {
        let r = HandshakeRequest {
            path: string_from_str(path),
            host: string_from_str(host),
            origin: None,
            protocols: Vec::new(),
            extensions: Vec::new(),
            headers: Vec::new(),
        };
        assert(r@.protocols =~= Seq::<Seq<char>>::empty());
        assert(r@.extensions =~= Seq::<Seq<char>>::empty());
        assert(r@.headers =~= Seq::<(Seq<char>, Seq<char>)>::empty());
        r
    }

    /// Sets the `Origin` field.
    pub fn origin(self, origin: &str) -> (r: HandshakeRequest)
        ensures
            r@ == (RequestSpec { origin: Some(origin@), ..self@ }),
    {
        HandshakeRequest { origin: Some(string_from_str(origin)), ..self }
    }

    /// Offers a subprotocol.
    pub fn protocol(self, protocol: &str) -> (r: HandshakeRequest)
        ensures
            r@ == (RequestSpec { protocols: self@.protocols.push(protocol@), ..self@ }),
    {
        let mut protocols = self.protocols;
        let p = string_from_str(protocol);
        proof {
            assert(strings_view(protocols@.push(p)) =~= strings_view(protocols@).push(p@));
        }
        protocols.push(p);
        HandshakeRequest { protocols, ..self }
    }

    /// Offers an extension.
    pub fn extension(self, extension: &str) -> (r: HandshakeRequest)
        ensures
            r@ == (RequestSpec { extensions: self@.extensions.push(extension@), ..self@ }),
    {
        let mut extensions = self.extensions;
        let e = string_from_str(extension);
        proof {
            assert(strings_view(extensions@.push(e)) =~= strings_view(extensions@).push(e@));
        }
        extensions.push(e);
        HandshakeRequest { extensions, ..self }
    }

    /// Adds a header field.
    pub fn header(self, name: &str, value: &str) -> (r: HandshakeRequest)
        ensures
            r@ == (RequestSpec { headers: self@.headers.push((name@, value@)), ..self@ }),
    {
        let mut headers = self.headers;
        push_field(&mut headers, name, value);
        HandshakeRequest { headers, ..self }
    }

    /// The header fields of the request with the given `Sec-WebSocket-Key`.
    pub fn fields(&self, key: &str) -> (r: Vec<(String, String)>)
        ensures
            headers_view(r@) == spec_request_fields(self@, key@),
    {
        let mut fields: Vec<(String, String)> = Vec::new();
        push_field(&mut fields, "Host", self.host.as_str());
        push_field(&mut fields, "Upgrade", "websocket");
        push_field(&mut fields, "Connection", "Upgrade");
        push_field(&mut fields, "Sec-WebSocket-Key", key);
        push_field(&mut fields, "Sec-WebSocket-Version", "13");
        let ghost base = headers_view(fields@);
        match &self.origin {
            Some(o) => push_field(&mut fields, "Origin", o.as_str()),
            None => {},
        }
        let ghost with_origin = headers_view(fields@);
        if self.protocols.len() > 0 {
            let joined = join_values(&self.protocols, ", ");
            push_field(&mut fields, "Sec-WebSocket-Protocol", joined.as_str());
        }
        let ghost with_protocols = headers_view(fields@);
        if self.extensions.len() > 0 {
            let joined = join_values(&self.extensions, ", ");
            push_field(&mut fields, "Sec-WebSocket-Extensions", joined.as_str());
        }
        let ghost with_extensions = headers_view(fields@);
        let mut i: usize = 0;
        while i < self.headers.len()
            invariant
                i <= self.headers@.len(),
                headers_view(fields@) == with_extensions + headers_view(self.headers@).take(i as int),
            decreases self.headers@.len() - i,
        {
            push_field(&mut fields, self.headers[i].0.as_str(), self.headers[i].1.as_str());
            proof {
                assert(headers_view(self.headers@)[i as int] == (self.headers@[i as int].0@, self.headers@[i as int].1@));
                assert(headers_view(self.headers@).take(i + 1) =~= headers_view(self.headers@).take(i as int).push(headers_view(self.headers@)[i as int]));
            }
            i = i + 1;
        }
        proof {
            assert(headers_view(self.headers@).take(self.headers@.len() as int) =~= headers_view(self.headers@));
            assert(headers_view(fields@) =~= spec_request_fields(self@, key@));
        }
        fields
    }

    /// The request's HTTP/1.1 bytes, with the `Sec-WebSocket-Key` that
    /// `nonce` gives: [`spec_request_message`]. The encoding is
    /// `shiguredo_http11`'s, and an input it refuses is an
    /// [`ErrorKind::InvalidInput`].
    pub fn build(&self, nonce: [u8; 16]) -> (r: Result<Vec<u8>, Error>)
        ensures
            r is Ok <==> spec_build_accepts(self@, crate::handshake::spec_key_of_nonce(nonce@)),
            r matches Ok(b) ==> b@ == vstd::utf8::encode_utf8(
                spec_request_message(self@, crate::handshake::spec_key_of_nonce(nonce@)),
            ),
            r matches Err(e) ==> e.kind == ErrorKind::InvalidInput,
    {
        let key = crate::handshake::client_key(&nonce);
        let fields = self.fields(key.as_str());
        let ghost fs = headers_view(fields@);
        let mut req = match http_get_request(self.path.as_str()) {
            Ok(r) => r,
            Err(m) => return Err(Error::with_reason(ErrorKind::InvalidInput, m)),
        };
        let mut i: usize = 0;
        while i < fields.len()
            invariant
                i <= fields@.len(),
                fs == headers_view(fields@),
                request_head(req) == "GET "@ + self@.path + " HTTP/1.1\r\n"@ + field_lines(fs.take(i as int)),
                !request_has_body(req),
                spec_request_target_ok(self@.path),
                fs == spec_request_fields(self@, crate::handshake::spec_key_of_nonce(nonce@)),
                forall|k: int| 0 <= k < i ==> #[trigger] fields_accepted(fs, k),
            decreases fields@.len() - i,
        {
            assert(fs[i as int] == (fields@[i as int].0@, fields@[i as int].1@));
            let name = match http_header_name(fields[i].0.as_str()) {
                Ok(n) => n,
                Err(m) => {
                    assert(!fields_accepted(fs, i as int));
                    return Err(Error::with_reason(ErrorKind::InvalidInput, m));
                },
            };
            req = match http_request_header(req, name, fields[i].1.as_str()) {
                Ok(r) => r,
                Err(m) => {
                    assert(!fields_accepted(fs, i as int));
                    return Err(Error::with_reason(ErrorKind::InvalidInput, m));
                },
            };
            proof {
                assert(fields_accepted(fs, i as int));
                assert(fs.take(i + 1).drop_last() =~= fs.take(i as int));
                assert(fs.take(i + 1).last() == fs[i as int]);
            }
            i = i + 1;
        }
        assert(fs.take(fields@.len() as int) =~= fs);
        match http_request_encode(&req) {
            Ok(bytes) => Ok(bytes),
            Err(m) => Err(Error::with_reason(ErrorKind::InvalidInput, m)),
        }
    }
}

/// Whether the `k`-th of the fields `fs` has a token for its name and an
/// acceptable value.
pub open spec fn fields_accepted(fs: Seq<(Seq<char>, Seq<char>)>, k: int) -> bool {
    crate::token::is_token(fs[k].0) && is_field_value(fs[k].1)
}

/// The head of the opening request: the request line for the path and the
/// fields of [`spec_request_fields`].
pub open spec fn spec_request_head(r: RequestSpec, key: Seq<char>) -> Seq<char> {
    "GET "@ + r.path + " HTTP/1.1\r\n"@ + field_lines(spec_request_fields(r, key))
}

/// When the request can be built with the given key: the path is an
/// acceptable request target, every field name is a token and every value
/// acceptable, and `shiguredo_http11` encodes the head.
pub open spec fn spec_build_accepts(r: RequestSpec, key: Seq<char>) -> bool {
    let fs = spec_request_fields(r, key);
    &&& spec_request_target_ok(r.path)
    &&& forall|k: int| 0 <= k < fs.len() ==> #[trigger] fields_accepted(fs, k)
    &&& request_head_encodes(spec_request_head(r, key))
}

/// The text of the opening request: the request line for the path, the
/// fields of [`spec_request_fields`] and an empty line.
pub open spec fn spec_request_message(r: RequestSpec, key: Seq<char>) -> Seq<char> {
    "GET "@ + r.path + " HTTP/1.1\r\n"@ + field_lines(spec_request_fields(r, key)) + "\r\n"@
}

} // verus!
