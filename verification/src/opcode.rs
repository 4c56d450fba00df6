use vstd::prelude::*;

use crate::text::string_from_str;

verus! {

/// WebSocket frame opcode (RFC 6455 Section 5.2).
#[derive(Debug, Clone, Copy, PartialEq, Eq, Hash, Structural)]
pub enum Opcode {
    /// Continuation frame.
    Continuation,
    /// Text frame.
    Text,
    /// Binary frame.
    Binary,
    /// Connection close.
    Close,
    /// Ping.
    Ping,
    /// Pong.
    Pong,
}

impl Opcode {
    /// The 4-bit wire value of the opcode.
    pub open spec fn value(self) -> u8 {
        match self {
            Opcode::Continuation => 0x0,
            Opcode::Text => 0x1,
            Opcode::Binary => 0x2,
            Opcode::Close => 0x8,
            Opcode::Ping => 0x9,
            Opcode::Pong => 0xA,
        }
    }

    /// The opcode whose wire value is `v`, if any.
    pub open spec fn spec_from_u8(v: u8) -> Option<Opcode> {
        if v == 0x0 {
            Some(Opcode::Continuation)
        } else if v == 0x1 {
            Some(Opcode::Text)
        } else if v == 0x2 {
            Some(Opcode::Binary)
        } else if v == 0x8 {
            Some(Opcode::Close)
        } else if v == 0x9 {
            Some(Opcode::Ping)
        } else if v == 0xA {
            Some(Opcode::Pong)
        } else {
            None
        }
    }

    pub open spec fn spec_is_control(self) -> bool {
        self == Opcode::Close || self == Opcode::Ping || self == Opcode::Pong
    }

    /// Decodes a wire value.
    pub fn from_u8(value: u8) -> (r: Option<Opcode>)
        ensures
            r == Self::spec_from_u8(value),
    {
        match value {
            0x0 => Some(Opcode::Continuation),
            0x1 => Some(Opcode::Text),
            0x2 => Some(Opcode::Binary),
            0x8 => Some(Opcode::Close),
            0x9 => Some(Opcode::Ping),
            0xA => Some(Opcode::Pong),
            _ => None,
        }
    }

    /// The wire value of the opcode.
    pub fn as_u8(self) -> (r: u8)
        ensures
            r == self.value(),
    {
        match self {
            Opcode::Continuation => 0x0,
            Opcode::Text => 0x1,
            Opcode::Binary => 0x2,
            Opcode::Close => 0x8,
            Opcode::Ping => 0x9,
            Opcode::Pong => 0xA,
        }
    }

    /// Whether this is a control frame opcode (Close, Ping, Pong).
    pub fn is_control(self) -> (r: bool)
        ensures
            r == self.spec_is_control(),
    {
        matches!(self, Opcode::Close | Opcode::Ping | Opcode::Pong)
    }

    /// The opcode's name: `Continuation`, `Text`, `Binary`, `Close`, `Ping`
    /// or `Pong`.
    pub open spec fn name(self) -> Seq<char> {
        match self {
            Opcode::Continuation => "Continuation"@,
            Opcode::Text => "Text"@,
            Opcode::Binary => "Binary"@,
            Opcode::Close => "Close"@,
            Opcode::Ping => "Ping"@,
            Opcode::Pong => "Pong"@,
        }
    }

    /// The opcode's name.
    pub fn to_string(self) -> (r: String)
        ensures
            r@ == self.name(),
    {
        let n: &str = match self {
            Opcode::Continuation => "Continuation",
            Opcode::Text => "Text",
            Opcode::Binary => "Binary",
            Opcode::Close => "Close",
            Opcode::Ping => "Ping",
            Opcode::Pong => "Pong",
        };
        string_from_str(n)
    }

    /// Whether this is a data frame opcode (Continuation, Text, Binary).
    pub fn is_data(self) -> (r: bool)
        ensures
            r == !self.spec_is_control(),
    {
        matches!(self, Opcode::Continuation | Opcode::Text | Opcode::Binary)
    }
}

/// Decoding the wire value of an opcode gives the opcode back, and every wire
/// value that decodes is the value of the opcode it decodes to.
pub proof fn lemma_opcode_roundtrip(op: Opcode, v: u8)
    ensures
        Opcode::spec_from_u8(op.value()) == Some(op),
        Opcode::spec_from_u8(v) matches Some(o) ==> o.value() == v,
        op.value() < 16,
{
}

/// The wire values RFC 6455 Section 5.2 assigns: Continuation 0x0, Text 0x1,
/// Binary 0x2, Close 0x8, Ping 0x9, Pong 0xA; every other 4-bit value is
/// reserved and decodes to no opcode.
pub proof fn lemma_opcode_wire_values(v: u8)
    ensures
        Opcode::Continuation.value() == 0x0u8,
        Opcode::Text.value() == 0x1u8,
        Opcode::Binary.value() == 0x2u8,
        Opcode::Close.value() == 0x8u8,
        Opcode::Ping.value() == 0x9u8,
        Opcode::Pong.value() == 0xAu8,
        v == 0x0 ==> Opcode::spec_from_u8(v) == Some(Opcode::Continuation),
        v == 0x1 ==> Opcode::spec_from_u8(v) == Some(Opcode::Text),
        v == 0x2 ==> Opcode::spec_from_u8(v) == Some(Opcode::Binary),
        v == 0x8 ==> Opcode::spec_from_u8(v) == Some(Opcode::Close),
        v == 0x9 ==> Opcode::spec_from_u8(v) == Some(Opcode::Ping),
        v == 0xA ==> Opcode::spec_from_u8(v) == Some(Opcode::Pong),
        (3 <= v <= 7 || 11 <= v) ==> Opcode::spec_from_u8(v) is None,
        Opcode::Close.spec_is_control() && Opcode::Ping.spec_is_control() && Opcode::Pong.spec_is_control(),
        !Opcode::Continuation.spec_is_control() && !Opcode::Text.spec_is_control()
            && !Opcode::Binary.spec_is_control(),
{
}

} // verus!
