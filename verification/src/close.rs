//! WebSocket close status codes (RFC 6455 Section 7.4).

use vstd::prelude::*;
use vstd::string::StringSliceAdditionalSpecFns;

use crate::text::{concat_str, decimal, u64_to_decimal};

verus! {

/// A WebSocket close status code (RFC 6455 Section 7.4.1).
#[derive(Debug, Clone, Copy, PartialEq, Eq, Hash, Structural)]
pub struct CloseCode(pub u16);

/// Codes a peer may send and a receiver accepts (RFC 6455 Section 7.4.1/7.4.2):
/// 1000-1004, 1007-1014 and 1016-4999. 1005, 1006 and 1015 must not appear
/// on the wire, 0-999 are unused and 5000 and above are undefined.
pub open spec fn spec_close_code_valid(c: u16) -> bool {
    (1000 <= c <= 1004) || (1007 <= c <= 1014) || (1016 <= c <= 4999)
}

/// Codes this endpoint may send: not 0-999, not the reserved 1004, not the
/// never-sent 1005, 1006 and 1015, not 2000-2999, not 5000 and above.
pub open spec fn spec_close_code_sendable(c: u16) -> bool {
    !(c <= 999 || c == 1004 || c == 1005 || c == 1006 || c == 1015 || (2000 <= c <= 2999)
        || c >= 5000)
}

/// The name RFC 6455 Section 7.4.1 gives a code, or the name of its range.
pub open spec fn close_code_description(c: u16) -> Seq<char> {
    if c == 1000 {
        "Normal Closure"@
    } else if c == 1001 {
        "Going Away"@
    } else if c == 1002 {
        "Protocol Error"@
    } else if c == 1003 {
        "Unsupported Data"@
    } else if c == 1004 {
        "Reserved"@
    } else if c == 1005 {
        "No Status Received"@
    } else if c == 1006 {
        "Abnormal Closure"@
    } else if c == 1007 {
        "Invalid Payload Data"@
    } else if c == 1008 {
        "Policy Violation"@
    } else if c == 1009 {
        "Message Too Big"@
    } else if c == 1010 {
        "Mandatory Extension"@
    } else if c == 1011 {
        "Internal Error"@
    } else if c == 1015 {
        "TLS Handshake"@
    } else if 3000 <= c <= 3999 {
        "Library/Framework"@
    } else if 4000 <= c <= 4999 {
        "Application"@
    } else {
        "Unknown"@
    }
}

impl CloseCode {
    /// Normal closure.
    #[allow(non_snake_case)]
    pub fn NORMAL() -> (r: CloseCode)
        ensures
            r.0 == 1000,
    {
        CloseCode(1000)
    }
    /// The endpoint is going away.
    #[allow(non_snake_case)]
    pub fn GOING_AWAY() -> (r: CloseCode)
        ensures
            r.0 == 1001,
    {
        CloseCode(1001)
    }
    /// Protocol error.
    #[allow(non_snake_case)]
    pub fn PROTOCOL_ERROR() -> (r: CloseCode)
        ensures
            r.0 == 1002,
    {
        CloseCode(1002)
    }
    /// Data of a type that cannot be accepted.
    #[allow(non_snake_case)]
    pub fn UNSUPPORTED_DATA() -> (r: CloseCode)
        ensures
            r.0 == 1003,
    {
        CloseCode(1003)
    }
    /// Reserved.
    #[allow(non_snake_case)]
    pub fn RESERVED() -> (r: CloseCode)
        ensures
            r.0 == 1004,
    {
        CloseCode(1004)
    }
    /// No status code was present (never sent).
    #[allow(non_snake_case)]
    pub fn NO_STATUS_RECEIVED() -> (r: CloseCode)
        ensures
            r.0 == 1005,
    {
        CloseCode(1005)
    }
    /// Abnormal closure (never sent).
    #[allow(non_snake_case)]
    pub fn ABNORMAL_CLOSURE() -> (r: CloseCode)
        ensures
            r.0 == 1006,
    {
        CloseCode(1006)
    }
    /// Payload inconsistent with the message type (e.g. non UTF-8 text).
    #[allow(non_snake_case)]
    pub fn INVALID_PAYLOAD() -> (r: CloseCode)
        ensures
            r.0 == 1007,
    {
        CloseCode(1007)
    }
    /// Policy violation.
    #[allow(non_snake_case)]
    pub fn POLICY_VIOLATION() -> (r: CloseCode)
        ensures
            r.0 == 1008,
    {
        CloseCode(1008)
    }
    /// Message too big.
    #[allow(non_snake_case)]
    pub fn MESSAGE_TOO_BIG() -> (r: CloseCode)
        ensures
            r.0 == 1009,
    {
        CloseCode(1009)
    }
    /// A required extension was not negotiated.
    #[allow(non_snake_case)]
    pub fn MANDATORY_EXTENSION() -> (r: CloseCode)
        ensures
            r.0 == 1010,
    {
        CloseCode(1010)
    }
    /// Internal server error.
    #[allow(non_snake_case)]
    pub fn INTERNAL_ERROR() -> (r: CloseCode)
        ensures
            r.0 == 1011,
    {
        CloseCode(1011)
    }
    /// TLS handshake failure (never sent).
    #[allow(non_snake_case)]
    pub fn TLS_HANDSHAKE() -> (r: CloseCode)
        ensures
            r.0 == 1015,
    {
        CloseCode(1015)
    }

    /// The close code with the given value.
    pub fn new(code: u16) -> (r: CloseCode)
        ensures
            r.0 == code,
    {
        CloseCode(code)
    }

    /// The numeric value.
    pub fn as_u16(self) -> (r: u16)
        ensures
            r == self.0,
    {
        self.0
    }

    /// Whether a received close frame may carry this code.
    pub fn is_valid(self) -> (r: bool)
        ensures
            r == spec_close_code_valid(self.0),
    {
        let c = self.0;
        (1000 <= c && c <= 1004) || (1007 <= c && c <= 1014) || (1016 <= c && c <= 4999)
    }

    /// Whether this endpoint may send this code.
    pub fn is_sendable(self) -> (r: bool)
        ensures
            r == spec_close_code_sendable(self.0),
    {
        let c = self.0;
        !(c <= 999 || c == 1004 || c == 1005 || c == 1006 || c == 1015 || (2000 <= c && c
            <= 2999) || c >= 5000)
    }

    /// The code and its name: `1000 (Normal Closure)`.
    pub fn to_string(&self) -> (r: String)
        ensures
            r@ == decimal(self.0 as nat) + " ("@ + close_code_description(self.0) + ")"@,
    {
        let c = self.0;
        let description: &str = if c == 1000 {
            "Normal Closure"
        } else if c == 1001 {
            "Going Away"
        } else if c == 1002 {
            "Protocol Error"
        } else if c == 1003 {
            "Unsupported Data"
        } else if c == 1004 {
            "Reserved"
        } else if c == 1005 {
            "No Status Received"
        } else if c == 1006 {
            "Abnormal Closure"
        } else if c == 1007 {
            "Invalid Payload Data"
        } else if c == 1008 {
            "Policy Violation"
        } else if c == 1009 {
            "Message Too Big"
        } else if c == 1010 {
            "Mandatory Extension"
        } else if c == 1011 {
            "Internal Error"
        } else if c == 1015 {
            "TLS Handshake"
        } else if 3000 <= c && c <= 3999 {
            "Library/Framework"
        } else if 4000 <= c && c <= 4999 {
            "Application"
        } else {
            "Unknown"
        };
        let a = concat_str(u64_to_decimal(c as u64).as_str(), " (");
        let b = concat_str(a.as_str(), description);
        concat_str(b.as_str(), ")")
    }
}

impl From<u16> for CloseCode {
    fn from(code: u16) -> (r: CloseCode) {
        CloseCode(code)
    }
}

impl vstd::std_specs::convert::FromSpecImpl<u16> for CloseCode {
    open spec fn obeys_from_spec() -> bool {
        true
    }

    open spec fn from_spec(code: u16) -> CloseCode {
        CloseCode(code)
    }
}

impl From<CloseCode> for u16 {
    fn from(code: CloseCode) -> (r: u16) {
        code.0
    }
}

impl vstd::std_specs::convert::FromSpecImpl<CloseCode> for u16 {
    open spec fn obeys_from_spec() -> bool {
        true
    }

    open spec fn from_spec(code: CloseCode) -> u16 {
        code.0
    }
}

/// Every code this endpoint may send is one a receiver accepts, except 1004,
/// which is reserved and never sent but still accepted, there is no sendable
/// code that a receiver rejects.
pub proof fn lemma_sendable_is_valid(c: u16)
    ensures
        spec_close_code_sendable(c) ==> spec_close_code_valid(c),
{
}

/// The codes RFC 6455 Section 7.4.1 defines for an endpoint to send (1000,
/// 1001, 1002, 1003, 1007-1011) and the ranges for libraries, frameworks and
/// applications (3000-4999) may be sent and are accepted; codes below 1000,
/// the reserved 1004, the codes that must never be sent (1005, 1006, 1015),
/// the 2000-2999 range reserved for extensions and codes from 5000 on may not
/// be sent. The codes IANA registered later (1012-1014) and the unassigned
/// 1016-1999 may be sent too.
pub proof fn lemma_close_codes_rfc(c: u16)
    ensures
        c == 1000 || c == 1001 || c == 1002 || c == 1003 || (1007 <= c && c <= 1011) || (3000 <= c && c
            <= 4999) ==> spec_close_code_sendable(c) && spec_close_code_valid(c),
        c < 1000 || c == 1004 || c == 1005 || c == 1006 || c == 1015 || (2000 <= c && c <= 2999) || c
            >= 5000 ==> !spec_close_code_sendable(c),
        c < 1000 || c == 1005 || c == 1006 || c == 1015 || c >= 5000 ==> !spec_close_code_valid(c),
        (1012 <= c && c <= 1014) || (1016 <= c && c <= 1999) ==> spec_close_code_sendable(c),
{
}

/// The largest character boundary of `b` that is at most `j`.
pub open spec fn boundary_at_most(b: Seq<u8>, j: int) -> int
    decreases j,
{
    if j <= 0 {
        0
    } else if vstd::utf8::is_char_boundary(b, j) {
        j
    } else {
        boundary_at_most(b, j - 1)
    }
}

/// `b` cut to at most `max` bytes on a character boundary.
pub open spec fn spec_truncate(b: Seq<u8>, max: nat) -> Seq<u8> {
    if b.len() <= max {
        b
    } else {
        b.take(boundary_at_most(b, max as int))
    }
}

/// The longest prefix of `reason` that is at most `max` bytes and ends on a
/// character boundary.
pub fn truncate_reason(reason: &str, max: usize) -> (r: &str)
    ensures
        r.spec_bytes() == spec_truncate(reason.spec_bytes(), max as nat),
        r.spec_bytes().len() <= max,
{
    broadcast use vstd::utf8::group_utf8_lib;

    let bytes = reason.as_bytes();
    if bytes.len() <= max {
        return reason;
    }
    proof {
        vstd::utf8::encode_utf8_valid_utf8(reason@);
        vstd::utf8::is_char_boundary_start_end_of_seq(reason.spec_bytes());
    }
    let mut i: usize = max;
    while !reason.is_char_boundary(i)
        invariant
            i <= max < reason.spec_bytes().len(),
            vstd::utf8::is_char_boundary(reason.spec_bytes(), 0),
            boundary_at_most(reason.spec_bytes(), max as int) == boundary_at_most(
                reason.spec_bytes(),
                i as int,
            ),
        decreases i,
    {
        i = i - 1;
    }
    let (head, _tail) = reason.split_at(i);
    head
}

} // verus!
