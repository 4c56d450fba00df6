//! Reassembly of fragmented messages (RFC 6455 Section 5.4).

use vstd::prelude::*;

use crate::opcode::Opcode;

verus! {

/// Collects the fragments of one message: the first frame's opcode and RSV1
/// (compression) bit, and the concatenated payloads.
#[derive(Debug)]
pub struct FragmentBuffer {
    opcode: Option<Opcode>,
    payload: Vec<u8>,
    compressed: bool,
}

impl FragmentBuffer {
    /// The opcode of the message being collected, if any.
    pub closed spec fn spec_opcode(&self) -> Option<Opcode> {
        self.opcode
    }

    /// The payload collected so far.
    pub closed spec fn spec_payload(&self) -> Seq<u8> {
        self.payload@
    }

    /// Whether the message being collected is compressed.
    pub closed spec fn spec_compressed(&self) -> bool {
        self.compressed
    }

    /// An empty buffer.
    pub fn new() -> (r: FragmentBuffer)
        ensures
            r.spec_opcode() is None,
            r.spec_payload() == Seq::<u8>::empty(),
            !r.spec_compressed(),
    {
        FragmentBuffer { opcode: None, payload: Vec::new(), compressed: false }
    }

    /// Whether no message is being collected.
    pub fn is_empty(&self) -> (r: bool)
        ensures
            r == self.spec_opcode() is None,
    {
        self.opcode.is_none()
    }

    /// The number of payload bytes collected.
    pub fn len(&self) -> (r: usize)
        ensures
            r == self.spec_payload().len(),
    {
        self.payload.len()
    }

    /// Starts a message with its first fragment.
    pub fn start(&mut self, opcode: Opcode, payload: Vec<u8>, compressed: bool)
        ensures
            final(self).spec_opcode() == Some(opcode),
            final(self).spec_payload() == payload@,
            final(self).spec_compressed() == compressed,
    {
        self.opcode = Some(opcode);
        self.payload = payload;
        self.compressed = compressed;
    }

    /// Appends a continuation fragment.
    pub fn append(&mut self, payload: &[u8])
        ensures
            final(self).spec_opcode() == old(self).spec_opcode(),
            final(self).spec_payload() == old(self).spec_payload() + payload@,
            final(self).spec_compressed() == old(self).spec_compressed(),
    {
        let ghost start = self.payload@;
        let mut i: usize = 0;
        while i < payload.len()
            invariant
                i <= payload@.len(),
                self.payload@ == start + payload@.take(i as int),
                self.opcode == old(self).opcode,
                self.compressed == old(self).compressed,
            decreases payload@.len() - i,
        {
            self.payload.push(payload[i]);
            i = i + 1;
            assert(self.payload@ =~= start + payload@.take(i as int));
        }
        assert(payload@.take(payload@.len() as int) =~= payload@);
    }

    /// Hands out the collected message and empties the buffer.
    pub fn take(&mut self) -> (r: (Opcode, Vec<u8>, bool))
        requires
            old(self).spec_opcode() is Some,
        ensures
            r.0 == old(self).spec_opcode()->0,
            r.1@ == old(self).spec_payload(),
            r.2 == old(self).spec_compressed(),
            final(self).spec_opcode() is None,
            final(self).spec_payload() == Seq::<u8>::empty(),
            !final(self).spec_compressed(),
    {
        let opcode = match self.opcode {
            Some(op) => op,
            None => Opcode::Continuation,
        };
        self.opcode = None;
        let mut payload: Vec<u8> = Vec::new();
        std::mem::swap(&mut payload, &mut self.payload);
        let compressed = self.compressed;
        self.compressed = false;
        (opcode, payload, compressed)
    }

    /// Discards any collected message.
    pub fn clear(&mut self)
        ensures
            final(self).spec_opcode() is None,
            final(self).spec_payload() == Seq::<u8>::empty(),
            !final(self).spec_compressed(),
    {
        self.opcode = None;
        self.payload.clear();
        self.compressed = false;
    }
}

} // verus!
