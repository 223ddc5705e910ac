//! A bounded byte buffer that fails closed.
//!
//! The pack encoder stages its body here before the surrounding message gets
//! its length prefix.  A write that would pass the capacity leaves the buffer
//! untouched and reports `BufferOverflow`: no partial write is ever
//! observable.

use vstd::prelude::*;

use crate::error::CodecError;

verus! {

/// A byte buffer with a hard capacity, chosen at construction.
pub struct FixedBytes {
    data: Vec<u8>,
    cap: usize,
}

impl FixedBytes {
    /// The bytes written so far.
    pub closed spec fn bytes(self) -> Seq<u8> {
        self.data@
    }

    /// The fixed capacity.
    pub closed spec fn capacity(self) -> int {
        self.cap as int
    }

    /// The buffer never holds more than its capacity.
    pub open spec fn wf(self) -> bool {
        self.bytes().len() <= self.capacity()
    }

    /// An empty buffer of the given capacity.
    pub fn new(cap: usize) -> (r: FixedBytes)
        ensures
            r.wf(),
            r.bytes() == Seq::<u8>::empty(),
            r.capacity() == cap,
    {
        let data: Vec<u8> = Vec::new();
        proof {
            assert(data@ =~= Seq::<u8>::empty());
        }
        FixedBytes { data, cap }
    }

    /// How many bytes have been written.
    pub fn len(&self) -> (r: usize)
        ensures
            r == self.bytes().len(),
    {
        self.data.len()
    }

    /// Borrow the written bytes.
    pub fn as_bytes(&self) -> (r: &Vec<u8>)
        ensures
            r@ == self.bytes(),
    {
        &self.data
    }

    /// Append one byte, or fail with `BufferOverflow` and change nothing.
    pub fn write_byte(&mut self, byte: u8) -> (r: Result<(), CodecError>)
        requires
            old(self).wf(),
        ensures
            final(self).wf(),
            final(self).capacity() == old(self).capacity(),
            old(self).bytes().len() + 1 <= old(self).capacity() ==> r == Ok::<(), CodecError>(())
                && final(self).bytes() == old(self).bytes().push(byte),
            old(self).bytes().len() + 1 > old(self).capacity() ==> r == Err::<(), CodecError>(
                CodecError::BufferOverflow,
            ) && final(self).bytes() == old(self).bytes(),
    {
        if self.data.len() < self.cap {
            self.data.push(byte);
            Ok(())
        } else {
            Err(CodecError::BufferOverflow)
        }
    }

    /// Append a whole slice, or fail with `BufferOverflow` and change
    /// nothing: writes are all-or-nothing.
    pub fn write_bytes(&mut self, bytes: &Vec<u8>) -> (r: Result<(), CodecError>)
        requires
            old(self).wf(),
        ensures
            final(self).wf(),
            final(self).capacity() == old(self).capacity(),
            old(self).bytes().len() + bytes@.len() <= old(self).capacity() ==> r == Ok::<
                (),
                CodecError,
            >(()) && final(self).bytes() == old(self).bytes() + bytes@,
            old(self).bytes().len() + bytes@.len() > old(self).capacity() ==> r == Err::<
                (),
                CodecError,
            >(CodecError::BufferOverflow) && final(self).bytes() == old(self).bytes(),
    {
        if bytes.len() > self.cap - self.data.len() {
            return Err(CodecError::BufferOverflow);
        }
        let ghost prefix = self.data@;
        let mut i: usize = 0;
        while i < bytes.len()
            invariant
                0 <= i <= bytes@.len(),
                prefix.len() + bytes@.len() <= self.cap,
                self.data@ == prefix + bytes@.take(i as int),
                self.cap == old(self).capacity(),
            decreases bytes@.len() - i,
        {
            self.data.push(bytes[i]);
            i = i + 1;
            proof {
                assert(self.data@ =~= prefix + bytes@.take(i as int));
            }
        }
        proof {
            assert(self.data@ =~= prefix + bytes@);
        }
        Ok(())
    }
}

} // verus!
