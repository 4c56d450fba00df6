//! WebSocket frame encoding and decoding (RFC 6455 Section 5.2).

use vstd::prelude::*;

use crate::error::{Error, ErrorKind};
use crate::opcode::Opcode;
use vstd::string::StringSliceAdditionalSpecFns;

verus! {

/// The mathematical content of a frame.
pub struct FrameSpec {
    pub fin: bool,
    pub rsv1: bool,
    pub rsv2: bool,
    pub rsv3: bool,
    pub opcode: Opcode,
    pub payload: Seq<u8>,
}

/// A WebSocket frame (RFC 6455 Section 5.2).
#[derive(Debug, Clone, PartialEq, Eq)]
pub struct Frame {
    /// Whether this is the final fragment of a message.
    pub fin: bool,
    /// RSV1 bit (used by permessage-deflate).
    pub rsv1: bool,
    /// RSV2 bit (reserved).
    pub rsv2: bool,
    /// RSV3 bit (reserved).
    pub rsv3: bool,
    /// Opcode.
    pub opcode: Opcode,
    /// Payload (unmasked).
    pub payload: Vec<u8>,
}

impl View for Frame {
    type V = FrameSpec;

    open spec fn view(&self) -> FrameSpec {
        FrameSpec {
            fin: self.fin,
            rsv1: self.rsv1,
            rsv2: self.rsv2,
            rsv3: self.rsv3,
            opcode: self.opcode,
            payload: self.payload@,
        }
    }
}

/// A decoded frame together with whether it arrived masked.
#[derive(Debug, Clone, PartialEq, Eq)]
pub struct DecodedFrame {
    pub frame: Frame,
    pub masked: bool,
}

/// Largest payload a control frame may carry.
pub const MAX_CONTROL_PAYLOAD: usize = 125;

// ---------------------------------------------------------------------------
// Wire format, as spec functions
// ---------------------------------------------------------------------------

/// The first header byte: FIN, RSV1-3 and the opcode.
pub open spec fn spec_byte0(fin: bool, rsv1: bool, rsv2: bool, rsv3: bool, op: u8) -> u8 {
    (if fin { 0x80u8 } else { 0u8 }) | (if rsv1 { 0x40u8 } else { 0u8 }) | (if rsv2 {
        0x20u8
    } else {
        0u8
    }) | (if rsv3 { 0x10u8 } else { 0u8 }) | op
}

/// Big-endian bytes of a 16-bit value.
pub open spec fn be16_bytes(n: u16) -> Seq<u8> {
    seq![(n >> 8u16) as u8, n as u8]
}

/// Big-endian bytes of a 64-bit value.
pub open spec fn be64_bytes(n: u64) -> Seq<u8> {
    seq![
        (n >> 56u64) as u8,
        (n >> 48u64) as u8,
        (n >> 40u64) as u8,
        (n >> 32u64) as u8,
        (n >> 24u64) as u8,
        (n >> 16u64) as u8,
        (n >> 8u64) as u8,
        n as u8,
    ]
}

/// The 16-bit value of two big-endian bytes.
pub open spec fn be16_value(b0: u8, b1: u8) -> u16 {
    ((b0 as u16) << 8u16) | (b1 as u16)
}

/// The 64-bit value of eight big-endian bytes starting at `b[k]`.
pub open spec fn be64_value(b: Seq<u8>, k: int) -> u64 {
    ((b[k] as u64) << 56u64) | ((b[k + 1] as u64) << 48u64) | ((b[k + 2] as u64) << 40u64) | ((
    b[k + 3] as u64) << 32u64) | ((b[k + 4] as u64) << 24u64) | ((b[k + 5] as u64) << 16u64) | ((
    b[k + 6] as u64) << 8u64) | (b[k + 7] as u64)
}

/// The mask bit of the second header byte.
pub open spec fn mask_bit(masked: bool) -> u8 {
    if masked {
        0x80u8
    } else {
        0u8
    }
}

/// The length field: second header byte and extended payload length.
pub open spec fn spec_length_field(masked: bool, len: nat) -> Seq<u8> {
    if len >= 65536 {
        seq![mask_bit(masked) | 127u8] + be64_bytes(len as u64)
    } else if len >= 126 {
        seq![mask_bit(masked) | 126u8] + be16_bytes(len as u16)
    } else {
        seq![mask_bit(masked) | (len as u8)]
    }
}

/// `data` XOR-ed with the four-byte masking key, repeated.
pub open spec fn spec_mask(data: Seq<u8>, key: Seq<u8>) -> Seq<u8> {
    Seq::new(data.len(), |i: int| data[i] ^ key[i % 4])
}

/// The bytes of `f` on the wire, masked with `key` when `masked` holds.
pub open spec fn spec_encode(f: FrameSpec, masked: bool, key: Seq<u8>) -> Seq<u8> {
    seq![spec_byte0(f.fin, f.rsv1, f.rsv2, f.rsv3, f.opcode.value())] + spec_length_field(
        masked,
        f.payload.len(),
    ) + (if masked {
        key
    } else {
        Seq::<u8>::empty()
    }) + (if masked {
        spec_mask(f.payload, key)
    } else {
        f.payload
    })
}

/// The outcome of decoding the front of a byte buffer.
pub enum DecodeOutcome {
    /// More bytes are needed.
    Incomplete,
    /// The bytes violate the protocol.
    Violation,
    /// A frame, whether it was masked, and how many bytes it took.
    Decoded(FrameSpec, bool, nat),
}

/// The payload length and header length announced by the header of `b`,
/// or `None` when the 64-bit length has its most significant bit set or
/// does not fit in a `usize`. Needs at least the full length field.
pub open spec fn spec_header_lengths(b: Seq<u8>) -> Option<(nat, nat)> {
    let l7 = b[1] & 0x7Fu8;
    if l7 == 127u8 {
        if b[2] & 0x80u8 != 0 {
            None
        } else if be64_value(b, 2) > usize::MAX {
            None
        } else {
            Some((be64_value(b, 2) as nat, 10))
        }
    } else if l7 == 126u8 {
        Some((be16_value(b[2], b[3]) as nat, 4))
    } else {
        Some((l7 as nat, 2))
    }
}

/// How many bytes the length field needs, counting the first two bytes.
pub open spec fn spec_needed_header(b1: u8) -> nat {
    if b1 & 0x7Fu8 == 127u8 {
        10
    } else if b1 & 0x7Fu8 == 126u8 {
        4
    } else {
        2
    }
}

/// Decoding the frame at the front of `b` (RFC 6455 Section 5.2), with the
/// checks in the order the decoder makes them.
pub open spec fn spec_decode(b: Seq<u8>) -> DecodeOutcome {
    if b.len() < 2 {
        DecodeOutcome::Incomplete
    } else if Opcode::spec_from_u8(b[0] & 0x0Fu8) is None {
        DecodeOutcome::Violation
    } else if b.len() < spec_needed_header(b[1]) {
        DecodeOutcome::Incomplete
    } else {
        match spec_header_lengths(b) {
            None => DecodeOutcome::Violation,
            Some((len, hlen)) => {
                let masked = b[1] & 0x80u8 != 0;
                let klen: nat = if masked {
                    4
                } else {
                    0
                };
                let total = hlen + klen + len;
                if total > usize::MAX {
                    DecodeOutcome::Violation
                } else if b.len() < total {
                    DecodeOutcome::Incomplete
                } else {
                    let opcode = Opcode::spec_from_u8(b[0] & 0x0Fu8)->0;
                    let fin = b[0] & 0x80u8 != 0;
                    let raw = b.subrange((hlen + klen) as int, total as int);
                    let payload = if masked {
                        spec_mask(raw, b.subrange(hlen as int, hlen + 4int))
                    } else {
                        raw
                    };
                    if opcode.spec_is_control() && (!fin || len > 125) {
                        DecodeOutcome::Violation
                    } else {
                        DecodeOutcome::Decoded(
                            FrameSpec {
                                fin,
                                rsv1: b[0] & 0x40u8 != 0,
                                rsv2: b[0] & 0x20u8 != 0,
                                rsv3: b[0] & 0x10u8 != 0,
                                opcode,
                                payload,
                            },
                            masked,
                            total,
                        )
                    }
                }
            },
        }
    }
}

/// A decoded frame takes at least its two header bytes and no more than the
/// buffer holds.
pub proof fn lemma_decoded_len(b: Seq<u8>)
    ensures
        spec_decode(b) matches DecodeOutcome::Decoded(_f, _m, n) ==> 2 <= n <= b.len(),
{
}

/// A frame that the decoder accepts: a control frame is final and carries at
/// most 125 bytes, and the payload length fits the 63 bits the wire allows.
pub open spec fn spec_frame_wf(f: FrameSpec) -> bool {
    &&& f.payload.len() < 0x8000_0000_0000_0000
    &&& f.opcode.spec_is_control() ==> (f.fin && f.payload.len() <= 125)
}

// ---------------------------------------------------------------------------
// Bit-level facts
// ---------------------------------------------------------------------------

proof fn lemma_byte0(fin: bool, rsv1: bool, rsv2: bool, rsv3: bool, op: u8)
    requires
        op < 16,
    ensures
        (spec_byte0(fin, rsv1, rsv2, rsv3, op) & 0x80u8 != 0) == fin,
        (spec_byte0(fin, rsv1, rsv2, rsv3, op) & 0x40u8 != 0) == rsv1,
        (spec_byte0(fin, rsv1, rsv2, rsv3, op) & 0x20u8 != 0) == rsv2,
        (spec_byte0(fin, rsv1, rsv2, rsv3, op) & 0x10u8 != 0) == rsv3,
        spec_byte0(fin, rsv1, rsv2, rsv3, op) & 0x0Fu8 == op,
{
    assert(((if fin { 0x80u8 } else { 0u8 }) | (if rsv1 { 0x40u8 } else { 0u8 }) | (if rsv2 {
        0x20u8
    } else {
        0u8
    }) | (if rsv3 { 0x10u8 } else { 0u8 }) | op) & 0x80u8 != 0 == fin) by (bit_vector)
        requires
            op < 16,
    ;
    assert(((if fin { 0x80u8 } else { 0u8 }) | (if rsv1 { 0x40u8 } else { 0u8 }) | (if rsv2 {
        0x20u8
    } else {
        0u8
    }) | (if rsv3 { 0x10u8 } else { 0u8 }) | op) & 0x40u8 != 0 == rsv1) by (bit_vector)
        requires
            op < 16,
    ;
    assert(((if fin { 0x80u8 } else { 0u8 }) | (if rsv1 { 0x40u8 } else { 0u8 }) | (if rsv2 {
        0x20u8
    } else {
        0u8
    }) | (if rsv3 { 0x10u8 } else { 0u8 }) | op) & 0x20u8 != 0 == rsv2) by (bit_vector)
        requires
            op < 16,
    ;
    assert(((if fin { 0x80u8 } else { 0u8 }) | (if rsv1 { 0x40u8 } else { 0u8 }) | (if rsv2 {
        0x20u8
    } else {
        0u8
    }) | (if rsv3 { 0x10u8 } else { 0u8 }) | op) & 0x10u8 != 0 == rsv3) by (bit_vector)
        requires
            op < 16,
    ;
    assert(((if fin { 0x80u8 } else { 0u8 }) | (if rsv1 { 0x40u8 } else { 0u8 }) | (if rsv2 {
        0x20u8
    } else {
        0u8
    }) | (if rsv3 { 0x10u8 } else { 0u8 }) | op) & 0x0Fu8 == op) by (bit_vector)
        requires
            op < 16,
    ;
}

proof fn lemma_byte1(masked: bool, l: u8)
    requires
        l < 128,
    ensures
        (mask_bit(masked) | l) & 0x7Fu8 == l,
        ((mask_bit(masked) | l) & 0x80u8 != 0) == masked,
{
    assert(((if masked { 0x80u8 } else { 0u8 }) | l) & 0x7Fu8 == l) by (bit_vector)
        requires
            l < 128,
    ;
    assert((((if masked { 0x80u8 } else { 0u8 }) | l) & 0x80u8 != 0) == masked) by (bit_vector)
        requires
            l < 128,
    ;
}

pub proof fn lemma_be16(n: u16)
    ensures
        be16_value((n >> 8u16) as u8, n as u8) == n,
{
    assert(((((n >> 8u16) as u8) as u16) << 8u16) | ((n as u8) as u16) == n) by (bit_vector);
}

pub proof fn lemma_be64(n: u64)
    ensures
        be64_value(be64_bytes(n), 0) == n,
        (be64_bytes(n)[0] & 0x80u8 != 0) == (n >= 0x8000_0000_0000_0000u64),
{
    let b = be64_bytes(n);
    assert(b[0] == (n >> 56u64) as u8);
    assert(b[7] == n as u8);
    assert(((((n >> 56u64) as u8) as u64) << 56u64) | ((((n >> 48u64) as u8) as u64) << 48u64) | ((
    ((n >> 40u64) as u8) as u64) << 40u64) | ((((n >> 32u64) as u8) as u64) << 32u64) | ((((n
        >> 24u64) as u8) as u64) << 24u64) | ((((n >> 16u64) as u8) as u64) << 16u64) | ((((n
        >> 8u64) as u8) as u64) << 8u64) | ((n as u8) as u64) == n) by (bit_vector);
    assert(((((n >> 56u64) as u8) & 0x80u8) != 0) == (n >= 0x8000_0000_0000_0000u64))
        by (bit_vector);
}

proof fn lemma_unmask(data: Seq<u8>, key: Seq<u8>)
    requires
        key.len() == 4,
    ensures
        spec_mask(spec_mask(data, key), key) =~= data,
{
    assert forall|i: int| 0 <= i < data.len() implies #[trigger] spec_mask(spec_mask(data, key), key)[i] == data[i] by {
        let x = data[i];
        let k = key[i % 4];
        assert((x ^ k) ^ k == x) by (bit_vector);
    }
}

/// Masking follows RFC 6455 Section 5.3: a masked frame is the header, then
/// the four key bytes, then payload byte `i` XOR-ed with key byte `i mod 4`.
/// The header is 2 bytes for payloads under 126 bytes, 4 under 65536, and
/// 10 otherwise.
pub proof fn lemma_masking_key_schedule(f: FrameSpec, key: Seq<u8>)
    requires
        key.len() == 4,
    ensures
        ({
            let n = f.payload.len() as int;
            let h: int = if n >= 65536 {
                10
            } else if n >= 126 {
                4
            } else {
                2
            };
            let e = spec_encode(f, true, key);
            &&& e.len() == h + 4 + n
            &&& forall|j: int| 0 <= j < 4 ==> #[trigger] e[h + j] == key[j]
            &&& forall|i: int| 0 <= i < n ==> #[trigger] e[h + 4 + i] == f.payload[i] ^ key[i % 4]
        }),
{
    let n = f.payload.len() as int;
    let lf = spec_length_field(true, f.payload.len());
    let b0 = spec_byte0(f.fin, f.rsv1, f.rsv2, f.rsv3, f.opcode.value());
    let body = spec_mask(f.payload, key);
    let e = spec_encode(f, true, key);
    assert(e =~= seq![b0] + lf + key + body);
    let h: int = 1 + lf.len() as int;
    assert(h == (if n >= 65536 { 10int } else if n >= 126 { 4int } else { 2int }));
    assert forall|j: int| 0 <= j < 4 implies #[trigger] e[h + j] == key[j] by {
        assert(e[h + j] == (seq![b0] + lf + key)[h + j]);
    }
    assert forall|i: int| 0 <= i < n implies #[trigger] e[h + 4 + i] == f.payload[i] ^ key[i % 4] by {
        assert(e[h + 4 + i] == body[i]);
    }
}

/// Unmasking follows RFC 6455 Section 5.3: in a decoded masked frame that
/// took `n` bytes, payload byte `i` is the received byte at its place XOR-ed
/// with key byte `i mod 4`, the key being the four bytes before the payload.
pub proof fn lemma_unmasking_key_schedule(b: Seq<u8>)
    ensures
        match spec_decode(b) {
            DecodeOutcome::Decoded(f, masked, n) => masked ==> {
                let len = f.payload.len() as int;
                &&& len + 4 <= n <= b.len()
                &&& forall|i: int|
                    0 <= i < len ==> #[trigger] f.payload[i] == b[n - len + i] ^ b[n - len - 4 + i % 4]
            },
            _ => true,
        },
{
    if let DecodeOutcome::Decoded(f, masked, n) = spec_decode(b) {
        if masked {
            let (len, hlen) = spec_header_lengths(b)->0;
            let total = hlen + 4 + len;
            let raw = b.subrange((hlen + 4) as int, total as int);
            let k = b.subrange(hlen as int, hlen + 4int);
            assert(n == total);
            assert(f.payload == spec_mask(raw, k));
            assert forall|i: int| 0 <= i < len implies #[trigger] f.payload[i] == b[n - len + i] ^ b[n - len - 4 + i
                % 4] by {
                assert(raw[i] == b[hlen + 4 + i]);
                assert(k[i % 4] == b[hlen + i % 4]);
            }
        }
    }
}

/// Round trip of the frame codec: decoding the encoding of a frame the
/// decoder accepts, followed by any further bytes, gives back that frame, its
/// mask flag, and the length of its encoding.
pub proof fn lemma_encode_decode_roundtrip(f: FrameSpec, masked: bool, key: Seq<u8>, rest: Seq<u8>)
    requires
        spec_frame_wf(f),
        masked ==> key.len() == 4,
        spec_encode(f, masked, key).len() <= usize::MAX,
    ensures
        spec_decode(spec_encode(f, masked, key) + rest) == DecodeOutcome::Decoded(
            f,
            masked,
            spec_encode(f, masked, key).len(),
        ),
{
    let enc = spec_encode(f, masked, key);
    let e = enc + rest;
    let len = f.payload.len();
    let b0 = spec_byte0(f.fin, f.rsv1, f.rsv2, f.rsv3, f.opcode.value());
    let lf = spec_length_field(masked, len);
    let kk = if masked { key } else { Seq::<u8>::empty() };
    let body = if masked { spec_mask(f.payload, key) } else { f.payload };
    assert(enc =~= seq![b0] + lf + kk + body);
    assert(f.opcode.value() < 16);
    lemma_byte0(f.fin, f.rsv1, f.rsv2, f.rsv3, f.opcode.value());
    assert(e[0] == b0);
    crate::opcode::lemma_opcode_roundtrip(f.opcode, 0);
    let hlen: nat = if len >= 65536 { 10 } else if len >= 126 { 4 } else { 2 };
    assert(lf.len() == hlen - 1);
    assert(e[1] == lf[0]);
    if len >= 65536 {
        lemma_byte1(masked, 127u8);
        let n = len as u64;
        lemma_be64(n);
        assert forall|j: int| 0 <= j < 8 implies e[2 + j] == #[trigger] be64_bytes(n)[j] by {
            assert(e[2 + j] == lf[1 + j]);
        }
        assert(be64_value(e, 2) == be64_value(be64_bytes(n), 0));
        assert(e[2] == be64_bytes(n)[0]);
    } else if len >= 126 {
        lemma_byte1(masked, 126u8);
        let n = len as u16;
        lemma_be16(n);
        assert(e[2] == (n >> 8u16) as u8);
        assert(e[3] == n as u8);
    } else {
        lemma_byte1(masked, len as u8);
    }
    let klen: nat = if masked { 4 } else { 0 };
    assert(spec_header_lengths(e) == Some((len, hlen)));
    assert(enc.len() == hlen + klen + len);
    let raw = e.subrange((hlen + klen) as int, (hlen + klen + len) as int);
    assert(raw =~= body);
    if masked {
        assert(e.subrange(hlen as int, hlen + 4int) =~= key);
        lemma_unmask(f.payload, key);
    }
}

/// A strict prefix of the encoding of a frame the decoder accepts never
/// decodes to a frame or an error: the decoder waits for more bytes.
pub proof fn lemma_decode_prefix_incomplete(f: FrameSpec, masked: bool, key: Seq<u8>, k: int)
    requires
        spec_frame_wf(f),
        masked ==> key.len() == 4,
        spec_encode(f, masked, key).len() <= usize::MAX,
        0 <= k < spec_encode(f, masked, key).len(),
    ensures
        spec_decode(spec_encode(f, masked, key).take(k)) == DecodeOutcome::Incomplete,
{
    let enc = spec_encode(f, masked, key);
    let p = enc.take(k);
    lemma_encode_decode_roundtrip(f, masked, key, Seq::<u8>::empty());
    assert(enc + Seq::<u8>::empty() =~= enc);
    if k >= 2 {
        assert(p[0] == enc[0]);
        assert(p[1] == enc[1]);
        if k >= spec_needed_header(enc[1]) {
            assert forall|j: int| 0 <= j < k implies p[j] == #[trigger] enc[j] by {}
            if enc[1] & 0x7Fu8 == 127u8 {
                assert(be64_value(p, 2) == be64_value(enc, 2));
            }
            assert(spec_header_lengths(p) == spec_header_lengths(enc));
        }
    }
}

// ---------------------------------------------------------------------------
// Executable frames
// ---------------------------------------------------------------------------

pub fn copy_bytes(src: &[u8]) -> (r: Vec<u8>)
    ensures
        r@ == src@,
{
    let mut out: Vec<u8> = Vec::new();
    let mut i: usize = 0;
    while i < src.len()
        invariant
            i <= src@.len(),
            out@ == src@.take(i as int),
        decreases src@.len() - i,
    {
        out.push(src[i]);
        i = i + 1;
        assert(out@ =~= src@.take(i as int));
    }
    assert(src@.take(src@.len() as int) =~= src@);
    out
}

fn length_field(masked: bool, payload_len: usize) -> (r: Vec<u8>)
    ensures
        r@ == spec_length_field(masked, payload_len as nat),
{
    let mut buf: Vec<u8> = Vec::new();
    let mb: u8 = if masked { 0x80u8 } else { 0u8 };
    if payload_len >= 65536 {
        let n: u64 = payload_len as u64;
        buf.push(mb | 127u8);
        buf.push((n >> 56u64) as u8);
        buf.push((n >> 48u64) as u8);
        buf.push((n >> 40u64) as u8);
        buf.push((n >> 32u64) as u8);
        buf.push((n >> 24u64) as u8);
        buf.push((n >> 16u64) as u8);
        buf.push((n >> 8u64) as u8);
        buf.push(n as u8);
        assert(buf@ =~= seq![mb | 127u8] + be64_bytes(n));
    } else if payload_len >= 126 {
        let n: u16 = payload_len as u16;
        buf.push(mb | 126u8);
        buf.push((n >> 8u16) as u8);
        buf.push(n as u8);
        assert(buf@ =~= seq![mb | 126u8] + be16_bytes(n));
    } else {
        buf.push(mb | (payload_len as u8));
        assert(buf@ =~= seq![mb | (payload_len as u8)]);
    }
    buf
}

impl Frame {
    /// A final frame with no RSV bits set.
    pub fn new(opcode: Opcode, payload: Vec<u8>) -> (r: Frame)
        ensures
            r@ == (FrameSpec {
                fin: true,
                rsv1: false,
                rsv2: false,
                rsv3: false,
                opcode,
                payload: payload@,
            }),
    {
        Frame { fin: true, rsv1: false, rsv2: false, rsv3: false, opcode, payload }
    }

    /// A text frame carrying the UTF-8 bytes of `payload`.
    pub fn text(payload: &str) -> (r: Frame)
        ensures
            r@ == (FrameSpec {
                fin: true,
                rsv1: false,
                rsv2: false,
                rsv3: false,
                opcode: Opcode::Text,
                payload: payload.spec_bytes(),
            }),
    {
        Self::new(Opcode::Text, copy_bytes(payload.as_bytes()))
    }

    /// A binary frame.
    pub fn binary(payload: Vec<u8>) -> (r: Frame)
        ensures
            r@ == (FrameSpec {
                fin: true,
                rsv1: false,
                rsv2: false,
                rsv3: false,
                opcode: Opcode::Binary,
                payload: payload@,
            }),
    {
        Self::new(Opcode::Binary, payload)
    }

    /// A ping frame.
    pub fn ping(payload: Vec<u8>) -> (r: Frame)
        ensures
            r@ == (FrameSpec {
                fin: true,
                rsv1: false,
                rsv2: false,
                rsv3: false,
                opcode: Opcode::Ping,
                payload: payload@,
            }),
    {
        Self::new(Opcode::Ping, payload)
    }

    /// A pong frame.
    pub fn pong(payload: Vec<u8>) -> (r: Frame)
        ensures
            r@ == (FrameSpec {
                fin: true,
                rsv1: false,
                rsv2: false,
                rsv3: false,
                opcode: Opcode::Pong,
                payload: payload@,
            }),
    {
        Self::new(Opcode::Pong, payload)
    }

    /// A close frame: the status code in big-endian followed by the UTF-8 reason,
    /// or an empty payload when there is no code.
    pub fn close(code: Option<u16>, reason: &str) -> (r: Frame)
        ensures
            r@ == (FrameSpec {
                fin: true,
                rsv1: false,
                rsv2: false,
                rsv3: false,
                opcode: Opcode::Close,
                payload: match code {
                    Some(c) => be16_bytes(c) + reason.spec_bytes(),
                    None => Seq::<u8>::empty(),
                },
            }),
    {
        let payload = match code {
            Some(c) => {
                let mut p: Vec<u8> = Vec::new();
                p.push((c >> 8u16) as u8);
                p.push(c as u8);
                let bytes = reason.as_bytes();
                let mut i: usize = 0;
                while i < bytes.len()
                    invariant
                        i <= bytes@.len(),
                        bytes@ == reason.spec_bytes(),
                        p@ == be16_bytes(c) + bytes@.take(i as int),
                    decreases bytes@.len() - i,
                {
                    p.push(bytes[i]);
                    i = i + 1;
                    assert(p@ =~= be16_bytes(c) + bytes@.take(i as int));
                }
                assert(bytes@.take(bytes@.len() as int) =~= bytes@);
                p
            },
            None => Vec::new(),
        };
        Self::new(Opcode::Close, payload)
    }

    /// Encodes the frame masked with `masking_key` (what a client sends).
    pub fn encode(&self, masking_key: [u8; 4]) -> (r: Vec<u8>)
        ensures
            r@ == spec_encode(self@, true, masking_key@),
    {
        self.encode_internal(true, masking_key)
    }

    /// Encodes the frame without masking (what a server sends).
    pub fn encode_unmasked(&self) -> (r: Vec<u8>)
        ensures
            r@ == spec_encode(self@, false, Seq::<u8>::empty()),
    {
        let r = self.encode_internal(false, [0u8; 4]);
        r
    }

    fn encode_internal(&self, masked: bool, masking_key: [u8; 4]) -> (r: Vec<u8>)
        ensures
            r@ == spec_encode(self@, masked, if masked { masking_key@ } else { Seq::<u8>::empty() }),
    {
        let payload_len = self.payload.len();
        let ghost key = if masked { masking_key@ } else { Seq::<u8>::empty() };
        let mut buf: Vec<u8> = Vec::new();

        let byte0: u8 = (if self.fin { 0x80u8 } else { 0u8 }) | (if self.rsv1 { 0x40u8 } else {
            0u8
        }) | (if self.rsv2 { 0x20u8 } else { 0u8 }) | (if self.rsv3 { 0x10u8 } else { 0u8 })
            | self.opcode.as_u8();
        buf.push(byte0);

        let lf = length_field(masked, payload_len);
        let mut k: usize = 0;
        while k < lf.len()
            invariant
                k <= lf@.len(),
                buf@ == seq![byte0] + lf@.take(k as int),
            decreases lf@.len() - k,
        {
            buf.push(lf[k]);
            k = k + 1;
            assert(buf@ =~= seq![byte0] + lf@.take(k as int));
        }
        assert(lf@.take(lf@.len() as int) =~= lf@);
        let ghost header = seq![spec_byte0(self.fin, self.rsv1, self.rsv2, self.rsv3, self.opcode.value())] + spec_length_field(masked, self.payload@.len());
        assert(buf@ =~= header);

        if masked {
            buf.push(masking_key[0]);
            buf.push(masking_key[1]);
            buf.push(masking_key[2]);
            buf.push(masking_key[3]);
        }
        let ghost prefix = header + key;
        assert(buf@ =~= prefix);
        let ghost body = if masked { spec_mask(self.payload@, key) } else { self.payload@ };

        let mut i: usize = 0;
        while i < payload_len
            invariant
                i <= payload_len,
                payload_len == self.payload@.len(),
                body.len() == payload_len,
                masked ==> key == masking_key@,
                body == (if masked { spec_mask(self.payload@, key) } else { self.payload@ }),
                buf@ == prefix + body.take(i as int),
            decreases payload_len - i,
        {
            let b = if masked {
                self.payload[i] ^ masking_key[i % 4]
            } else {
                self.payload[i]
            };
            buf.push(b);
            i = i + 1;
            assert(buf@ =~= prefix + body.take(i as int));
        }
        assert(body.take(payload_len as int) =~= body);
        buf
    }
}

// ---------------------------------------------------------------------------
// Decoder
// ---------------------------------------------------------------------------

/// Incremental frame decoder: bytes are fed in, whole frames come out.
pub struct FrameDecoder {
    buf: Vec<u8>,
}

impl View for FrameDecoder {
    type V = Seq<u8>;

    closed spec fn view(&self) -> Seq<u8> {
        self.buf@
    }
}

impl FrameDecoder {
    /// An empty decoder.
    pub fn new() -> (r: FrameDecoder)
        ensures
            r@ == Seq::<u8>::empty(),
    {
        FrameDecoder { buf: Vec::new() }
    }

    /// Appends received bytes to the buffer.
    pub fn feed(&mut self, data: &[u8])
        ensures
            final(self)@ == old(self)@ + data@,
    {
        let mut i: usize = 0;
        let ghost start = self.buf@;
        while i < data.len()
            invariant
                i <= data@.len(),
                self.buf@ == start + data@.take(i as int),
            decreases data@.len() - i,
        {
            self.buf.push(data[i]);
            i = i + 1;
            assert(self.buf@ =~= start + data@.take(i as int));
        }
        assert(data@.take(data@.len() as int) =~= data@);
    }

    /// Decodes the next complete frame, if the buffer holds one.
    pub fn decode(&mut self) -> (r: Result<Option<Frame>, Error>)
        ensures
            match spec_decode(old(self)@) {
                DecodeOutcome::Incomplete => r matches Ok(None) && final(self)@ == old(self)@,
                DecodeOutcome::Violation => r matches Err(e) && e.kind
                    == ErrorKind::ProtocolViolation && final(self)@ == old(self)@,
                DecodeOutcome::Decoded(f, _masked, n) => r matches Ok(Some(fr)) && fr@ == f
                    && final(self)@ == old(self)@.skip(n as int),
            },
    {
        match self.decode_with_info() {
            Ok(Some(d)) => Ok(Some(d.frame)),
            Ok(None) => Ok(None),
            Err(e) => Err(e),
        }
    }

    /// Decodes the next complete frame together with its mask flag.
    pub fn decode_with_info(&mut self) -> (r: Result<Option<DecodedFrame>, Error>)
        ensures
            match spec_decode(old(self)@) {
                DecodeOutcome::Incomplete => r matches Ok(None) && final(self)@ == old(self)@,
                DecodeOutcome::Violation => r matches Err(e) && e.kind
                    == ErrorKind::ProtocolViolation && final(self)@ == old(self)@,
                DecodeOutcome::Decoded(f, masked, n) => r matches Ok(Some(d)) && d.frame@ == f
                    && d.masked == masked && final(self)@ == old(self)@.skip(n as int),
            },
    {
        let ghost b = self.buf@;
        if self.buf.len() < 2 {
            return Ok(None);
        }
        let byte0 = self.buf[0];
        let byte1 = self.buf[1];

        let fin = (byte0 & 0x80u8) != 0;
        let rsv1 = (byte0 & 0x40u8) != 0;
        let rsv2 = (byte0 & 0x20u8) != 0;
        let rsv3 = (byte0 & 0x10u8) != 0;
        let opcode_value = byte0 & 0x0Fu8;

        let opcode = match Opcode::from_u8(opcode_value) {
            Some(op) => op,
            None => {
                return Err(Error::with_text(ErrorKind::ProtocolViolation, "unknown opcode"));
            },
        };

        let masked = (byte1 & 0x80u8) != 0;
        let payload_len_7 = byte1 & 0x7Fu8;

        let payload_len: usize;
        let header_len: usize;
        if payload_len_7 == 127u8 {
            if self.buf.len() < 10 {
                return Ok(None);
            }
            if self.buf[2] & 0x80u8 != 0 {
                return Err(
                    Error::with_text(
                        ErrorKind::ProtocolViolation,
                        "64-bit payload length MSB must be 0",
                    ),
                );
            }
            let len: u64 = ((self.buf[2] as u64) << 56u64) | ((self.buf[3] as u64) << 48u64) | ((
            self.buf[4] as u64) << 40u64) | ((self.buf[5] as u64) << 32u64) | ((
            self.buf[6] as u64) << 24u64) | ((self.buf[7] as u64) << 16u64) | ((
            self.buf[8] as u64) << 8u64) | (self.buf[9] as u64);
            assert(len == be64_value(b, 2));
            if len > usize::MAX as u64 {
                return Err(
                    Error::with_text(ErrorKind::ProtocolViolation, "payload length too large"),
                );
            }
            payload_len = len as usize;
            header_len = 10;
        } else if payload_len_7 == 126u8 {
            if self.buf.len() < 4 {
                return Ok(None);
            }
            let len: u16 = ((self.buf[2] as u16) << 8u16) | (self.buf[3] as u16);
            payload_len = len as usize;
            header_len = 4;
        } else {
            payload_len = payload_len_7 as usize;
            header_len = 2;
        }
        assert(spec_header_lengths(b) == Some((payload_len as nat, header_len as nat)));

        let masking_key_len: usize = if masked { 4 } else { 0 };
        let total_len = match header_len.checked_add(masking_key_len) {
            Some(l) => match l.checked_add(payload_len) {
                Some(t) => t,
                None => {
                    return Err(
                        Error::with_text(
                            ErrorKind::ProtocolViolation,
                            "payload length too large",
                        ),
                    );
                },
            },
            None => {
                return Err(
                    Error::with_text(ErrorKind::ProtocolViolation, "payload length too large"),
                );
            },
        };

        if self.buf.len() < total_len {
            return Ok(None);
        }

        let payload_start = header_len + masking_key_len;
        let mut payload: Vec<u8> = Vec::new();
        let ghost raw = b.subrange(payload_start as int, total_len as int);
        let ghost key = b.subrange(header_len as int, header_len + 4);
        let ghost want = if masked { spec_mask(raw, key) } else { raw };
        let mut i: usize = 0;
        while i < payload_len
            invariant
                i <= payload_len,
                self.buf@ == b,
                b.len() >= total_len,
                total_len == payload_start + payload_len,
                payload_start == header_len + masking_key_len,
                masking_key_len == (if masked { 4usize } else { 0usize }),
                raw == b.subrange(payload_start as int, total_len as int),
                key == b.subrange(header_len as int, header_len + 4),
                want == (if masked { spec_mask(raw, key) } else { raw }),
                payload@ == want.take(i as int),
            decreases payload_len - i,
        {
            let byte = self.buf[payload_start + i];
            let v = if masked {
                byte ^ self.buf[header_len + (i % 4)]
            } else {
                byte
            };
            payload.push(v);
            i = i + 1;
            assert(payload@ =~= want.take(i as int));
        }
        assert(want.take(payload_len as int) =~= want);

        if opcode.is_control() {
            if !fin {
                return Err(
                    Error::with_text(
                        ErrorKind::ProtocolViolation,
                        "control frame must not be fragmented",
                    ),
                );
            }
            if payload_len > MAX_CONTROL_PAYLOAD {
                return Err(
                    Error::with_text(
                        ErrorKind::ProtocolViolation,
                        "control frame payload too large",
                    ),
                );
            }
        }

        self.drop_front(total_len);

        Ok(
            Some(
                DecodedFrame {
                    frame: Frame { fin, rsv1, rsv2, rsv3, opcode, payload },
                    masked,
                },
            ),
        )
    }

    /// Removes the first `n` bytes of the buffer.
    fn drop_front(&mut self, n: usize)
        requires
            n <= old(self)@.len(),
        ensures
            final(self)@ == old(self)@.skip(n as int),
    {
        let mut rest: Vec<u8> = Vec::new();
        let mut i: usize = n;
        while i < self.buf.len()
            invariant
                n <= i <= self.buf@.len(),
                rest@ == self.buf@.subrange(n as int, i as int),
            decreases self.buf@.len() - i,
        {
            rest.push(self.buf[i]);
            i = i + 1;
            assert(rest@ =~= self.buf@.subrange(n as int, i as int));
        }
        self.buf = rest;
    }

    /// Discards all buffered bytes.
    pub fn clear(&mut self)
        ensures
            final(self)@ == Seq::<u8>::empty(),
    {
        self.buf.clear();
    }

    /// The number of buffered bytes.
    pub fn buffer_len(&self) -> (r: usize)
        ensures
            r == self@.len(),
    {
        self.buf.len()
    }
}

impl Default for FrameDecoder {
    fn default() -> (r: FrameDecoder)
        ensures
            r@ == Seq::<u8>::empty(),
    {
        FrameDecoder::new()
    }
}

} // verus!
