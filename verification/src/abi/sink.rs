//! The accumulator that encoding writes to.

use super::codec::AbiCodec;
use super::wire::{le_bytes, var_bytes, varuint_bytes};
use crate::types::{neo_bytes, to_neo_bytes, Address, U128};

use vstd::prelude::*;

verus! {

/// An append-only byte accumulator. Its view is the bytes written so far.
pub struct Sink {
    buf: Vec<u8>,
}

impl View for Sink {
    type V = Seq<u8>;

    closed spec fn view(&self) -> Seq<u8> {
        self.buf@
    }
}

impl Sink {
    /// An empty sink; `cap` is only a hint for the first allocation.
    pub fn new(cap: usize) -> (sink: Sink)
        ensures
            sink@ == Seq::<u8>::empty(),
    {
        Sink { buf: Vec::with_capacity(cap) }
    }

    pub fn write_byte(&mut self, b: u8)
        ensures
            final(self)@ == old(self)@.push(b),
    {
        self.buf.push(b);
    }

    /// One byte: 1 for `true`, 0 for `false`.
    pub fn write_bool(&mut self, b: bool)
        ensures
            final(self)@ == old(self)@.push(if b { 1u8 } else { 0u8 }),
    {
        if b {
            self.write_byte(1)
        } else {
            self.write_byte(0)
        }
    }

    /// The bytes as they are, with no length before them.
    pub fn write_bytes(&mut self, data: &[u8])
        ensures
            final(self)@ == old(self)@ + data@,
    {
        self.buf.extend_from_slice(data);
    }

    /// The `width` low-order bytes of `value`, least significant first.
    fn write_le(&mut self, value: u128, width: usize)
        ensures
            final(self)@ == old(self)@ + le_bytes(value as nat, width as nat),
    {
        let mut rest: u128 = value;
        let mut i: usize = 0;
        while i < width
            invariant
                i <= width,
                self.buf@ + le_bytes(rest as nat, (width - i) as nat) == old(self).buf@ + le_bytes(
                    value as nat,
                    width as nat,
                ),
            decreases width - i,
        {
            self.buf.push((rest % 256) as u8);
            rest = rest / 256;
            i += 1;
        }
    }

    pub fn write_u16(&mut self, val: u16)
        ensures
            final(self)@ == old(self)@ + le_bytes(val as nat, 2),
    {
        self.write_le(val as u128, 2)
    }

    pub fn write_u32(&mut self, val: u32)
        ensures
            final(self)@ == old(self)@ + le_bytes(val as nat, 4),
    {
        self.write_le(val as u128, 4)
    }

    pub fn write_u64(&mut self, val: u64)
        ensures
            final(self)@ == old(self)@ + le_bytes(val as nat, 8),
    {
        self.write_le(val as u128, 8)
    }

    pub fn write_u128(&mut self, val: u128)
        ensures
            final(self)@ == old(self)@ + le_bytes(val as nat, 16),
    {
        self.write_le(val, 16)
    }

    /// The variable-length form: the shortest of the four that holds `val`.
    pub fn write_varuint(&mut self, val: u64)
        ensures
            final(self)@ == old(self)@ + varuint_bytes(val),
    {
        if val < 0xFD {
            self.write_byte(val as u8);
        } else if val <= 0xFFFF {
            self.write_byte(0xFD);
            self.write_u16(val as u16);
        } else if val <= 0xFFFF_FFFF {
            self.write_byte(0xFE);
            self.write_u32(val as u32);
        } else {
            self.write_byte(0xFF);
            self.write_u64(val);
        }
    }

    /// The bytes behind their length in variable-length form.
    pub fn write_var_bytes(&mut self, data: &[u8])
        ensures
            final(self)@ == old(self)@ + var_bytes(data@),
    {
        self.write_varuint(data.len() as u64);
        self.write_bytes(data);
    }

    /// An address as the native contracts read it: behind its length.
    pub fn write_native_address(&mut self, address: &Address)
        ensures
            final(self)@ == old(self)@ + var_bytes(address@),
    {
        self.write_var_bytes(address.as_bytes());
    }

    /// A number as the native contracts read it: in the legacy machine's
    /// form, behind its length.
    pub fn write_native_number(&mut self, val: U128)
        ensures
            final(self)@ == old(self)@ + var_bytes(neo_bytes(val)),
    {
        let raw = to_neo_bytes(val);
        self.write_var_bytes(raw.as_slice());
    }

    /// A count as the native contracts read it: as a number.
    pub fn write_native_varuint(&mut self, val: u64)
        ensures
            final(self)@ == old(self)@ + var_bytes(neo_bytes(val as u128)),
    {
        self.write_native_number(val as u128);
    }

    /// A value of any type that has the codec capability.
    pub fn write<T: AbiCodec>(&mut self, val: T)
        ensures
            final(self)@ == old(self)@ + val.encoding(),
    {
        val.encode(self)
    }

    /// The bytes written so far.
    pub fn bytes(&self) -> (out: &[u8])
        ensures
            out@ == self@,
    {
        self.buf.as_slice()
    }

    /// Gives up the sink for the bytes written to it.
    pub fn into(self) -> (out: Vec<u8>)
        ensures
            out@ == self@,
    {
        self.buf
    }
}

} // verus!
