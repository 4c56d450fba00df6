//! Error values returned by the library.

use vstd::prelude::*;

verus! {

/// The kind of an error.
#[derive(Debug, Clone, Copy, PartialEq, Eq, Hash, Structural)]
#[non_exhaustive]
pub enum ErrorKind {
    /// The input data's form or structure is invalid.
    InvalidInput,
    /// The data content is invalid or corrupt.
    InvalidData,
    /// The internal state does not allow the requested operation.
    InvalidState,
    /// A buffer is too small for the encoded or decoded result.
    InsufficientBuffer,
    /// The operation or data format is not supported.
    Unsupported,
    /// A protocol violation was detected.
    ProtocolViolation,
    /// The handshake was rejected.
    HandshakeRejected,
    /// An unsupported WebSocket version was requested.
    VersionNotSupported,
    /// Invalid UTF-8 data.
    InvalidUtf8,
    /// A handshake was answered with an HTTP status other than 101.
    HttpResponse,
}

impl ErrorKind {
    /// The kind's name as written in the source: `InvalidInput`, ...
    pub open spec fn name(self) -> Seq<char> {
        match self {
            ErrorKind::InvalidInput => "InvalidInput"@,
            ErrorKind::InvalidData => "InvalidData"@,
            ErrorKind::InvalidState => "InvalidState"@,
            ErrorKind::InsufficientBuffer => "InsufficientBuffer"@,
            ErrorKind::Unsupported => "Unsupported"@,
            ErrorKind::ProtocolViolation => "ProtocolViolation"@,
            ErrorKind::HandshakeRejected => "HandshakeRejected"@,
            ErrorKind::VersionNotSupported => "VersionNotSupported"@,
            ErrorKind::InvalidUtf8 => "InvalidUtf8"@,
            ErrorKind::HttpResponse => "HttpResponse"@,
        }
    }

    /// The kind's name.
    pub fn name_str(self) -> (r: &'static str)
        ensures
            r@ == self.name(),
    {
        match self {
            ErrorKind::InvalidInput => "InvalidInput",
            ErrorKind::InvalidData => "InvalidData",
            ErrorKind::InvalidState => "InvalidState",
            ErrorKind::InsufficientBuffer => "InsufficientBuffer",
            ErrorKind::Unsupported => "Unsupported",
            ErrorKind::ProtocolViolation => "ProtocolViolation",
            ErrorKind::HandshakeRejected => "HandshakeRejected",
            ErrorKind::VersionNotSupported => "VersionNotSupported",
            ErrorKind::InvalidUtf8 => "InvalidUtf8",
            ErrorKind::HttpResponse => "HttpResponse",
        }
    }
}

/// The parts of an HTTP response that a client needs when a handshake is
/// answered with a status other than 101.
#[derive(Debug, Clone)]
pub struct HttpResponseInfo {
    /// HTTP status code.
    pub status_code: u16,
    /// HTTP reason phrase.
    pub reason_phrase: String,
    /// HTTP response headers, in the order received.
    pub headers: Vec<(String, String)>,
}

/// The mathematical content of an [`HttpResponseInfo`].
pub struct HeadSpec {
    pub status_code: u16,
    pub reason_phrase: Seq<char>,
    pub headers: Seq<(Seq<char>, Seq<char>)>,
}

/// The characters of each header name and value.
pub open spec fn headers_view(hs: Seq<(String, String)>) -> Seq<(Seq<char>, Seq<char>)> {
    hs.map_values(|h: (String, String)| (h.0@, h.1@))
}

impl View for HttpResponseInfo {
    type V = HeadSpec;

    open spec fn view(&self) -> HeadSpec {
        HeadSpec {
            status_code: self.status_code,
            reason_phrase: self.reason_phrase@,
            headers: headers_view(self.headers@),
        }
    }
}

/// An error: its kind, a human readable reason, and optional protocol details.
#[derive(Debug)]
pub struct Error {
    /// The kind of error.
    pub kind: ErrorKind,
    /// Why the error happened.
    pub reason: String,
    /// The WebSocket close code that goes with the error, if any.
    pub close_code: Option<u16>,
    /// The HTTP response that caused the error, if the handshake got one.
    pub http_response: Option<HttpResponseInfo>,
}

impl Error {
    /// An error of the given kind with an empty reason.
    pub fn new(kind: ErrorKind) -> (r: Error)
        ensures
            r.kind == kind,
            r.reason@ == Seq::<char>::empty(),
            r.close_code is None,
            r.http_response is None,
    {
        Error { kind, reason: String::new(), close_code: None, http_response: None }
    }

    /// An error of the given kind with the given reason.
    pub fn with_reason(kind: ErrorKind, reason: String) -> (r: Error)
        ensures
            r.kind == kind,
            r.reason == reason,
            r.close_code is None,
            r.http_response is None,
    {
        Error { kind, reason, close_code: None, http_response: None }
    }

    /// An error of the given kind whose reason is the given text.
    pub fn with_text(kind: ErrorKind, reason: &str) -> (r: Error)
        ensures
            r.kind == kind,
            r.reason@ == reason@,
            r.close_code is None,
            r.http_response is None,
    {
        Error { kind, reason: reason.to_string(), close_code: None, http_response: None }
    }

    /// The same error with the given WebSocket close code attached.
    pub fn with_close_code(self, code: u16) -> (r: Error)
        ensures
            r.kind == self.kind,
            r.reason == self.reason,
            r.close_code == Some(code),
            r.http_response == self.http_response,
    {
        Error { close_code: Some(code), ..self }
    }

    /// An error for a handshake answered with an HTTP status other than 101;
    /// the reason is `HTTP <status> <reason phrase>`.
    pub fn http_response(info: HttpResponseInfo) -> (r: Error)
        ensures
            r.kind == ErrorKind::HttpResponse,
            r.reason@ == "HTTP "@ + crate::text::decimal(info.status_code as nat) + " "@
                + info.reason_phrase@,
            r.http_response == Some(info),
            r.close_code is None,
    {
        let a = crate::text::concat_str("HTTP ", crate::text::u64_to_decimal(info.status_code as u64).as_str());
        let b = crate::text::concat_str(a.as_str(), " ");
        let reason = crate::text::concat_str(b.as_str(), info.reason_phrase.as_str());
        Error { kind: ErrorKind::HttpResponse, reason, close_code: None, http_response: Some(info) }
    }

    /// The kind, the reason and, when there is one, the close code:
    /// `ProtocolViolation: bad frame (WebSocket close code: 1002)`.
    pub fn to_string(&self) -> (r: String)
        ensures
            r@ == self.kind.name() + ": "@ + self.reason@ + match self.close_code {
                Some(c) => " (WebSocket close code: "@ + crate::text::decimal(c as nat) + ")"@,
                None => Seq::<char>::empty(),
            },
    {
        let a = crate::text::concat_str(self.kind.name_str(), ": ");
        let b = crate::text::concat_str(a.as_str(), self.reason.as_str());
        match self.close_code {
            Some(c) => {
                let d = crate::text::concat_str(b.as_str(), " (WebSocket close code: ");
                let e = crate::text::concat_str(d.as_str(), crate::text::u64_to_decimal(c as u64).as_str());
                crate::text::concat_str(e.as_str(), ")")
            },
            None => {
                assert(b@ + Seq::<char>::empty() =~= b@);
                b
            },
        }
    }

    /// Fails with [`ErrorKind::InsufficientBuffer`] when `buf` is shorter than
    /// `required_size`.
    pub fn check_buffer_size(required_size: usize, buf: &[u8]) -> (r: Result<(), Error>)
        ensures
            r is Ok <==> buf@.len() >= required_size,
            r matches Err(e) ==> e.kind == ErrorKind::InsufficientBuffer,
    {
        if buf.len() < required_size {
            Err(Error::new(ErrorKind::InsufficientBuffer))
        } else {
            Ok(())
        }
    }
}

} // verus!
