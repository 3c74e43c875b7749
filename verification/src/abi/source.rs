//! The cursor that decoding reads from.

use super::codec::AbiCodec;
use super::error::{deeply_viewed, viewed, Error};
use super::wire::{
    bool_parse, le_number, le_parse, take_parse, u16_parse, u32_parse, u64_parse, u8_parse,
    varuint_parse,
};
use vstd::prelude::*;
use vstd::slice::slice_subrange;

verus! {

/// A cursor over borrowed bytes. It never reads past the end, and a read
/// that fails leaves it where it was.
pub struct Source<'a> {
    buf: &'a [u8],
    pos: usize,
}

impl<'a> Source<'a> {
    #[verifier::type_invariant]
    spec fn in_bounds(self) -> bool {
        self.pos <= self.buf@.len()
    }

    /// All the bytes under the cursor, read or not.
    pub closed spec fn bytes(&self) -> Seq<u8> {
        self.buf@
    }

    /// How many bytes have been read.
    pub closed spec fn pos(&self) -> nat {
        self.pos as nat
    }

    /// The bytes not read yet.
    pub open spec fn remaining(&self) -> Seq<u8> {
        self.bytes().subrange(self.pos() as int, self.bytes().len() as int)
    }

    /// A read that was owed `expected` moved the cursor from `self` to `after`
    /// and returned a value whose view is `got`: on success the cursor went
    /// forward by what was consumed, on failure it did not move.
    pub open spec fn advanced<V>(
        &self,
        after: &Source<'a>,
        got: Result<V, Error>,
        expected: Result<(V, nat), Error>,
    ) -> bool {
        &&& after.bytes() == self.bytes()
        &&& match expected {
            Ok((value, n)) => {
                &&& got == Ok::<V, Error>(value)
                &&& n <= self.remaining().len()
                &&& after.pos() == self.pos() + n
                &&& after.remaining() == self.remaining().skip(n as int)
            },
            Err(e) => {
                &&& got == Err::<V, Error>(e)
                &&& after.pos() == self.pos()
                &&& after.remaining() == self.remaining()
            },
        }
    }

    pub fn new(data: &'a [u8]) -> (source: Source<'a>)
        ensures
            source.bytes() == data@,
            source.pos() == 0,
            source.remaining() == data@,
    {
        let source = Source { buf: data, pos: 0 };
        source
    }

    /// How many bytes have been read: never more than there are.
    pub fn position(&self) -> (pos: usize)
        ensures
            pos == self.pos(),
            pos <= self.bytes().len(),
    {
        proof {
            use_type_invariant(self);
        }
        self.pos
    }

    /// How many bytes have not been read yet.
    pub fn unread(&self) -> (n: usize)
        ensures
            n == self.remaining().len(),
            self.pos() + n == self.bytes().len(),
    {
        proof {
            use_type_invariant(self);
        }
        self.buf.len() - self.pos
    }

    /// Moves the cursor back to `pos`; a `pos` ahead of the cursor leaves it
    /// where it is.
    pub fn rewind(&mut self, pos: usize)
        ensures
            final(self).bytes() == old(self).bytes(),
            final(self).pos() == if pos <= old(self).pos() {
                pos as nat
            } else {
                old(self).pos()
            },
    {
        proof {
            use_type_invariant(&*self);
        }
        if pos <= self.pos {
            self.pos = pos;
        }
    }

    /// The next `len` bytes, borrowed from the underlying bytes.
    pub fn next_bytes(&mut self, len: usize) -> (r: Result<&'a [u8], Error>)
        ensures
            old(self).advanced(
                final(self),
                viewed(r),
                take_parse(old(self).remaining(), len as nat),
            ),
    {
        proof {
            use_type_invariant(&*self);
        }
        if self.buf.len() - self.pos < len {
            Err(Error::UnexpectedEOF)
        } else {
            let out = slice_subrange(self.buf, self.pos, self.pos + len);
            self.pos = self.pos + len;
            proof {
                assert(out@ =~= old(self).remaining().take(len as int));
                assert(self.remaining() =~= old(self).remaining().skip(len as int));
            }
            Ok(out)
        }
    }

    /// A little-endian integer of `width` bytes, at most sixteen.
    fn read_le(&mut self, width: usize) -> (r: Result<u128, Error>)
        requires
            width <= 16,
        ensures
            old(self).advanced(
                final(self),
                match r {
                    Ok(value) => Ok(value as nat),
                    Err(e) => Err(e),
                },
                le_parse(old(self).remaining(), width as nat),
            ),
    {
        match self.next_bytes(width) {
            Err(e) => Err(e),
            Ok(raw) => Ok(le_number(raw)),
        }
    }

    pub fn read_byte(&mut self) -> (r: Result<u8, Error>)
        ensures
            old(self).advanced(final(self), viewed(r), u8_parse(old(self).remaining())),
    {
        proof {
            use_type_invariant(&*self);
        }
        if self.pos >= self.buf.len() {
            Err(Error::UnexpectedEOF)
        } else {
            let b: u8 = self.buf[self.pos];
            self.pos = self.pos + 1;
            assert(self.remaining() =~= old(self).remaining().skip(1));
            Ok(b)
        }
    }

    /// A boolean: the byte 0 or the byte 1. Any other byte is refused, and
    /// not read as `true`.
    pub fn read_bool(&mut self) -> (r: Result<bool, Error>)
        ensures
            old(self).advanced(final(self), viewed(r), bool_parse(old(self).remaining())),
    {
        proof {
            use_type_invariant(&*self);
        }
        if self.pos >= self.buf.len() {
            Err(Error::UnexpectedEOF)
        } else {
            let b: u8 = self.buf[self.pos];
            if b == 0 || b == 1 {
                self.pos = self.pos + 1;
                assert(self.remaining() =~= old(self).remaining().skip(1));
                Ok(b == 1)
            } else {
                Err(Error::IrregularData)
            }
        }
    }

    pub fn read_u16(&mut self) -> (r: Result<u16, Error>)
        ensures
            old(self).advanced(final(self), viewed(r), u16_parse(old(self).remaining())),
    {
        match self.read_le(2) {
            Ok(value) => Ok(value as u16),
            Err(e) => Err(e),
        }
    }

    pub fn read_u32(&mut self) -> (r: Result<u32, Error>)
        ensures
            old(self).advanced(final(self), viewed(r), u32_parse(old(self).remaining())),
    {
        match self.read_le(4) {
            Ok(value) => Ok(value as u32),
            Err(e) => Err(e),
        }
    }

    pub fn read_u64(&mut self) -> (r: Result<u64, Error>)
        ensures
            old(self).advanced(final(self), viewed(r), u64_parse(old(self).remaining())),
    {
        match self.read_le(8) {
            Ok(value) => Ok(value as u64),
            Err(e) => Err(e),
        }
    }

    /// A variable-length integer: the marker byte, then what it calls for.
    /// When the marker is there and the bytes after it are not, nothing is
    /// read.
    pub fn read_varuint(&mut self) -> (r: Result<u64, Error>)
        ensures
            old(self).advanced(final(self), viewed(r), varuint_parse(old(self).remaining())),
    {
        proof {
            use_type_invariant(&*self);
        }
        let start: usize = self.pos;
        let marker: u8 = match self.read_byte() {
            Ok(b) => b,
            Err(e) => {
                return Err(e);
            },
        };
        let width: usize = if marker == 0xFD {
            2
        } else if marker == 0xFE {
            4
        } else if marker == 0xFF {
            8
        } else {
            return Ok(marker as u64);
        };
        let ghost tail = self.remaining();
        proof {
            if tail.len() >= width {
                assert(tail.take(width as int) =~= old(self).remaining().subrange(1, 1 + width));
            }
        }
        match self.read_le(width) {
            Ok(value) => {
                proof {
                    assert(self.remaining() =~= old(self).remaining().skip(1 + width));
                }
                Ok(value as u64)
            },
            Err(e) => {
                self.pos = start;
                Err(e)
            },
        }
    }

    /// Fills `buf` with the next bytes, as many as it holds; when fewer
    /// remain, `buf` is left as it was.
    pub fn read_into(&mut self, buf: &mut [u8]) -> (r: Result<(), Error>)
        ensures
            old(self).advanced(
                final(self),
                match r {
                    Ok(_) => Ok(final(buf)@),
                    Err(e) => Err(e),
                },
                take_parse(old(self).remaining(), old(buf)@.len()),
            ),
            r is Err ==> final(buf)@ == old(buf)@,
    {
        let n: usize = buf.len();
        match self.next_bytes(n) {
            Err(e) => Err(e),
            Ok(raw) => {
                let mut i: usize = 0;
                while i < n
                    invariant
                        i <= n,
                        buf@.len() == n,
                        raw@.len() == n,
                        forall|j: int| 0 <= j < i ==> buf@[j] == raw@[j],
                    decreases n - i,
                {
                    buf[i] = raw[i];
                    i += 1;
                }
                assert(buf@ =~= raw@);
                Ok(())
            },
        }
    }

    /// A value of any type that has the codec capability.
    pub fn read<T: AbiCodec>(&mut self) -> (r: Result<T, Error>)
        ensures
            old(self).advanced(
                final(self),
                deeply_viewed(r),
                T::decoding(old(self).remaining()),
            ),
    {
        T::decode(self)
    }
}

} // verus!
