//! A position-tracking reader over an in-memory byte buffer.

use vstd::prelude::*;

use crate::error::CodecError;

verus! {

/// A cursor over a fully buffered input message.
///
/// `pos` only ever moves forward.  Every read states exactly which bytes it
/// consumed; on failure the buffer and position are left unchanged.
pub struct Reader {
    data: Vec<u8>,
    pos: usize,
}

impl Reader {
    /// The whole underlying buffer.
    pub closed spec fn bytes(self) -> Seq<u8> {
        self.data@
    }

    /// The current read position.
    pub closed spec fn position(self) -> int {
        self.pos as int
    }

    /// The position never passes the end of the buffer.
    pub open spec fn wf(self) -> bool {
        0 <= self.position() <= self.bytes().len()
    }

    /// The bytes not yet consumed.
    pub open spec fn remaining_bytes(self) -> Seq<u8> {
        self.bytes().skip(self.position())
    }

    /// Wrap a buffer, starting at its first byte.
    pub fn new(data: Vec<u8>) -> (r: Reader)
        ensures
            r.wf(),
            r.bytes() == data@,
            r.position() == 0,
    {
        Reader { data, pos: 0 }
    }

    /// How many bytes remain.
    pub fn remaining(&self) -> (r: usize)
        requires
            self.wf(),
        ensures
            r == self.remaining_bytes().len(),
    {
        self.data.len() - self.pos
    }

    /// The current position, in bytes from the start of the buffer.
    pub fn pos(&self) -> (r: usize)
        ensures
            r == self.position(),
    {
        self.pos
    }

    /// The next byte, without consuming it.
    pub fn peek(&self) -> (r: Option<u8>)
        requires
            self.wf(),
        ensures
            self.remaining_bytes().len() > 0 ==> r == Some(self.remaining_bytes()[0]),
            self.remaining_bytes().len() == 0 ==> r is None,
    {
        if self.pos < self.data.len() {
            Some(self.data[self.pos])
        } else {
            None
        }
    }

    /// Consume one byte.  Fails exactly when the input is exhausted, and then
    /// changes nothing.
    pub fn read_byte(&mut self) -> (r: Result<u8, CodecError>)
        requires
            old(self).wf(),
        ensures
            final(self).wf(),
            final(self).bytes() == old(self).bytes(),
            old(self).remaining_bytes().len() > 0 ==> r == Ok::<u8, CodecError>(
                old(self).remaining_bytes()[0],
            ) && final(self).position() == old(self).position() + 1,
            old(self).remaining_bytes().len() == 0 ==> r == Err::<u8, CodecError>(
                CodecError::OutOfInput,
            ) && final(self).position() == old(self).position(),
    {
        if self.pos < self.data.len() {
            let b = self.data[self.pos];
            self.pos = self.pos + 1;
            Ok(b)
        } else {
            Err(CodecError::OutOfInput)
        }
    }

    /// Consume exactly `n` bytes, returned as an owned buffer.  Fails exactly
    /// when fewer than `n` bytes remain, and then changes nothing.
    pub fn read_bytes(&mut self, n: usize) -> (r: Result<Vec<u8>, CodecError>)
        requires
            old(self).wf(),
        ensures
            final(self).wf(),
            final(self).bytes() == old(self).bytes(),
            old(self).remaining_bytes().len() >= n ==> ({
                &&& r matches Ok(v) && v@ == old(self).remaining_bytes().take(n as int)
                &&& final(self).position() == old(self).position() + n
            }),
            old(self).remaining_bytes().len() < n ==> r == Err::<Vec<u8>, CodecError>(
                CodecError::OutOfInput,
            ) && final(self).position() == old(self).position(),
    {
        if self.data.len() - self.pos < n {
            return Err(CodecError::OutOfInput);
        }
        let mut out: Vec<u8> = Vec::new();
        let mut i: usize = 0;
        while i < n
            invariant
                0 <= i <= n,
                self.pos + n <= self.data.len(),
                *self == *old(self),
                out@ == self.remaining_bytes().take(i as int),
            decreases n - i,
        {
            out.push(self.data[self.pos + i]);
            i = i + 1;
            proof {
                assert(out@ =~= self.remaining_bytes().take(i as int));
            }
        }
        self.pos = self.pos + n;
        Ok(out)
    }

    /// Consume exactly `n` bytes, returned as a slice borrowed from the
    /// underlying buffer: the zero-copy read an in-memory reader can offer.
    /// Fails exactly when fewer than `n` bytes remain, and then changes
    /// nothing.
    pub fn read_borrowed<'a>(&'a mut self, n: usize) -> (r: Result<&'a [u8], CodecError>)
        requires
            old(self).wf(),
        ensures
            final(self).wf(),
            final(self).bytes() == old(self).bytes(),
            old(self).remaining_bytes().len() >= n ==> ({
                &&& r matches Ok(s) && s@ == old(self).remaining_bytes().take(n as int)
                &&& final(self).position() == old(self).position() + n
            }),
            old(self).remaining_bytes().len() < n ==> r == Err::<&'a [u8], CodecError>(
                CodecError::OutOfInput,
            ) && final(self).position() == old(self).position(),
    {
        if self.data.len() - self.pos < n {
            return Err(CodecError::OutOfInput);
        }
        let start = self.pos;
        self.pos = self.pos + n;
        let out = vstd::slice::slice_subrange(self.data.as_slice(), start, start + n);
        proof {
            assert(out@ =~= old(self).remaining_bytes().take(n as int));
        }
        Ok(out)
    }

    /// Move the cursor back to an earlier position, so that a decoder can
    /// undo a partial read before reporting an error.
    pub fn rewind(&mut self, p: usize)
        requires
            old(self).wf(),
            p <= old(self).bytes().len(),
        ensures
            final(self).wf(),
            final(self).bytes() == old(self).bytes(),
            final(self).position() == p,
    {
        self.pos = p;
    }

    /// Advance past `n` bytes without copying them.  Fails exactly when fewer
    /// than `n` bytes remain, and then changes nothing.
    pub fn skip_bytes(&mut self, n: usize) -> (r: Result<(), CodecError>)
        requires
            old(self).wf(),
        ensures
            final(self).wf(),
            final(self).bytes() == old(self).bytes(),
            old(self).remaining_bytes().len() >= n ==> r == Ok::<(), CodecError>(())
                && final(self).position() == old(self).position() + n,
            old(self).remaining_bytes().len() < n ==> r == Err::<(), CodecError>(
                CodecError::OutOfInput,
            ) && final(self).position() == old(self).position(),
    {
        if self.data.len() - self.pos < n {
            return Err(CodecError::OutOfInput);
        }
        self.pos = self.pos + n;
        Ok(())
    }
}

} // verus!
