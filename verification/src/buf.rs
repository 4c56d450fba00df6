//! Big-endian reading from byte slices and writing to byte vectors.

use vstd::prelude::*;

use crate::error::{Error, ErrorKind};
use crate::frame::{be16_bytes, be64_bytes};
use crate::text::{concat_str, string_from_utf8};

verus! {

/// Big-endian bytes of a 32-bit value.
pub open spec fn be32_bytes(n: u32) -> Seq<u8> {
    seq![(n >> 24u32) as u8, (n >> 16u32) as u8, (n >> 8u32) as u8, n as u8]
}

/// The 32-bit value of four big-endian bytes starting at `b[k]`.
pub open spec fn be32_value(b: Seq<u8>, k: int) -> u32 {
    ((b[k] as u32) << 24u32) | ((b[k + 1] as u32) << 16u32) | ((b[k + 2] as u32) << 8u32) | (b[k
        + 3] as u32)
}

/// Reading big-endian values from the front of a byte slice, which then
/// advances past what was read. On error the slice is left as it was.
pub trait ByteSliceExt: Sized {
    /// The bytes not yet read.
    spec fn remaining(&self) -> Seq<u8>;

    /// Reads one byte.
    fn read_u8(&mut self) -> (r: Result<u8, Error>)
        ensures
            old(self).remaining().len() >= 1 ==> r == Ok::<u8, Error>(old(self).remaining()[0])
                && final(self).remaining() == old(self).remaining().skip(1),
            old(self).remaining().len() < 1 ==> (r matches Err(e) && e.kind
                == ErrorKind::InsufficientBuffer && final(self).remaining() == old(self).remaining()),
    ;

    /// Reads a big-endian `u16`.
    fn read_u16(&mut self) -> (r: Result<u16, Error>)
        ensures
            old(self).remaining().len() >= 2 ==> r == Ok::<u16, Error>(
                crate::frame::be16_value(old(self).remaining()[0], old(self).remaining()[1]),
            ) && final(self).remaining() == old(self).remaining().skip(2),
            old(self).remaining().len() < 2 ==> (r matches Err(e) && e.kind
                == ErrorKind::InsufficientBuffer && final(self).remaining() == old(self).remaining()),
    ;

    /// Reads a big-endian `u32`.
    fn read_u32(&mut self) -> (r: Result<u32, Error>)
        ensures
            old(self).remaining().len() >= 4 ==> r == Ok::<u32, Error>(
                be32_value(old(self).remaining(), 0),
            ) && final(self).remaining() == old(self).remaining().skip(4),
            old(self).remaining().len() < 4 ==> (r matches Err(e) && e.kind
                == ErrorKind::InsufficientBuffer && final(self).remaining() == old(self).remaining()),
    ;

    /// Reads a big-endian `u64`.
    fn read_u64(&mut self) -> (r: Result<u64, Error>)
        ensures
            old(self).remaining().len() >= 8 ==> r == Ok::<u64, Error>(
                crate::frame::be64_value(old(self).remaining(), 0),
            ) && final(self).remaining() == old(self).remaining().skip(8),
            old(self).remaining().len() < 8 ==> (r matches Err(e) && e.kind
                == ErrorKind::InsufficientBuffer && final(self).remaining() == old(self).remaining()),
    ;

    /// Reads `len` bytes.
    fn read_bytes(&mut self, len: usize) -> (r: Result<Vec<u8>, Error>)
        ensures
            old(self).remaining().len() >= len ==> (r matches Ok(v) && v@ == old(
                self,
            ).remaining().take(len as int) && final(self).remaining() == old(self).remaining().skip(
                len as int,
            )),
            old(self).remaining().len() < len ==> (r matches Err(e) && e.kind
                == ErrorKind::InsufficientBuffer && final(self).remaining() == old(self).remaining()),
    ;

    /// Reads `len` bytes that must be UTF-8. The bytes are consumed even when
    /// they are not UTF-8.
    fn read_utf8(&mut self, len: usize) -> (r: Result<String, Error>)
        ensures
            old(self).remaining().len() < len ==> (r matches Err(e) && e.kind
                == ErrorKind::InsufficientBuffer && final(self).remaining() == old(self).remaining()),
            old(self).remaining().len() >= len ==> final(self).remaining() == old(
                self,
            ).remaining().skip(len as int) && if vstd::utf8::valid_utf8(
                old(self).remaining().take(len as int),
            ) {
                r matches Ok(s) && s@ == vstd::utf8::decode_utf8(
                    old(self).remaining().take(len as int),
                )
            } else {
                r matches Err(e) && e.kind == ErrorKind::InvalidUtf8
            },
    ;
}

impl<'a> ByteSliceExt for &'a [u8] {
    open spec fn remaining(&self) -> Seq<u8> {
        (*self)@
    }

    fn read_u8(&mut self) -> (r: Result<u8, Error>) {
        Error::check_buffer_size(1, *self)?;
        let s: &'a [u8] = *self;
        let v = s[0];
        *self = &s[1..s.len()];
        Ok(v)
    }

    fn read_u16(&mut self) -> (r: Result<u16, Error>) {
        Error::check_buffer_size(2, *self)?;
        let s: &'a [u8] = *self;
        let v: u16 = ((s[0] as u16) << 8u16) | (s[1] as u16);
        *self = &s[2..s.len()];
        Ok(v)
    }

    fn read_u32(&mut self) -> (r: Result<u32, Error>) {
        Error::check_buffer_size(4, *self)?;
        let s: &'a [u8] = *self;
        let v: u32 = ((s[0] as u32) << 24u32) | ((s[1] as u32) << 16u32) | ((s[2] as u32) << 8u32)
            | (s[3] as u32);
        *self = &s[4..s.len()];
        Ok(v)
    }

    fn read_u64(&mut self) -> (r: Result<u64, Error>) {
        Error::check_buffer_size(8, *self)?;
        let s: &'a [u8] = *self;
        let v: u64 = ((s[0] as u64) << 56u64) | ((s[1] as u64) << 48u64) | ((s[2] as u64)
            << 40u64) | ((s[3] as u64) << 32u64) | ((s[4] as u64) << 24u64) | ((s[5] as u64)
            << 16u64) | ((s[6] as u64) << 8u64) | (s[7] as u64);
        *self = &s[8..s.len()];
        Ok(v)
    }

    fn read_bytes(&mut self, len: usize) -> (r: Result<Vec<u8>, Error>) {
        Error::check_buffer_size(len, *self)?;
        let s: &'a [u8] = *self;
        let mut out: Vec<u8> = Vec::new();
        let mut i: usize = 0;
        while i < len
            invariant
                i <= len <= s@.len(),
                out@ == s@.take(i as int),
            decreases len - i,
        {
            out.push(s[i]);
            i = i + 1;
            assert(out@ =~= s@.take(i as int));
        }
        *self = &s[len..s.len()];
        Ok(out)
    }

    fn read_utf8(&mut self, len: usize) -> (r: Result<String, Error>) {
        let buf = self.read_bytes(len)?;
        match string_from_utf8(buf) {
            Ok(s) => Ok(s),
            Err(m) => Err(
                Error::with_reason(ErrorKind::InvalidUtf8, concat_str("invalid UTF-8 bytes: ", m.as_str())),
            ),
        }
    }
}

/// Appending big-endian values to a byte vector.
pub trait VecExt: Sized {
    /// The bytes written so far.
    spec fn written(&self) -> Seq<u8>;

    /// Appends one byte.
    fn write_u8(&mut self, v: u8)
        ensures
            final(self).written() == old(self).written().push(v),
    ;

    /// Appends a big-endian `u16`.
    fn write_u16(&mut self, v: u16)
        ensures
            final(self).written() == old(self).written() + be16_bytes(v),
    ;

    /// Appends a big-endian `u32`.
    fn write_u32(&mut self, v: u32)
        ensures
            final(self).written() == old(self).written() + be32_bytes(v),
    ;

    /// Appends a big-endian `u64`.
    fn write_u64(&mut self, v: u64)
        ensures
            final(self).written() == old(self).written() + be64_bytes(v),
    ;

    /// Appends bytes.
    fn write_bytes(&mut self, v: &[u8])
        ensures
            final(self).written() == old(self).written() + v@,
    ;
}

impl VecExt for Vec<u8> {
    open spec fn written(&self) -> Seq<u8> {
        self@
    }

    fn write_u8(&mut self, v: u8) {
        self.push(v);
    }

    fn write_u16(&mut self, v: u16) {
        let ghost start = self@;
        self.push((v >> 8u16) as u8);
        self.push(v as u8);
        assert(self@ =~= start + be16_bytes(v));
    }

    fn write_u32(&mut self, v: u32) {
        let ghost start = self@;
        self.push((v >> 24u32) as u8);
        self.push((v >> 16u32) as u8);
        self.push((v >> 8u32) as u8);
        self.push(v as u8);
        assert(self@ =~= start + be32_bytes(v));
    }

    fn write_u64(&mut self, v: u64) {
        let ghost start = self@;
        self.push((v >> 56u64) as u8);
        self.push((v >> 48u64) as u8);
        self.push((v >> 40u64) as u8);
        self.push((v >> 32u64) as u8);
        self.push((v >> 24u64) as u8);
        self.push((v >> 16u64) as u8);
        self.push((v >> 8u64) as u8);
        self.push(v as u8);
        assert(self@ =~= start + be64_bytes(v));
    }

    fn write_bytes(&mut self, v: &[u8]) {
        let ghost start = self@;
        let mut i: usize = 0;
        while i < v.len()
            invariant
                i <= v@.len(),
                self@ == start + v@.take(i as int),
            decreases v@.len() - i,
        {
            self.push(v[i]);
            i = i + 1;
            assert(self@ =~= start + v@.take(i as int));
        }
        assert(v@.take(v@.len() as int) =~= v@);
    }
}

/// Reading back what was written: a `u16`, `u32` or `u64` written to a
/// vector and then read from the front of its bytes gives the same value.
pub proof fn lemma_write_read_roundtrip(a: u16, b: u32, c: u64)
    ensures
        crate::frame::be16_value(be16_bytes(a)[0], be16_bytes(a)[1]) == a,
        be32_value(be32_bytes(b), 0) == b,
        crate::frame::be64_value(be64_bytes(c), 0) == c,
{
    crate::frame::lemma_be16(a);
    crate::frame::lemma_be64(c);
    assert(((((b >> 24u32) as u8) as u32) << 24u32) | ((((b >> 16u32) as u8) as u32) << 16u32) | ((
    ((b >> 8u32) as u8) as u32) << 8u32) | ((b as u8) as u32) == b) by (bit_vector);
}

} // verus!
