//! The growing byte buffer that instructions are encoded into.

use crate::endian::{i32_be, i32_bits, u16_be, u32_be, u64_be};
use crate::encoding::string_field;
use vstd::prelude::*;
use vstd::string::StringSliceAdditionalSpecFns;

verus! {

/// An append-only buffer of bytes. Its view is what has been written so far.
pub struct Writer {
    buffer: Vec<u8>,
}

impl View for Writer {
    type V = Seq<u8>;

    closed spec fn view(&self) -> Seq<u8> {
        self.buffer@
    }
}

impl Writer {
    /// An empty buffer.
    pub fn new() -> (w: Self)
        ensures
            w@ == Seq::<u8>::empty(),
    {
        Self { buffer: Vec::new() }
    }

    /// A copy of everything written so far.
    pub fn dump(&self) -> (out: Vec<u8>)
        ensures
            out@ == self@,
    {
        self.buffer.clone()
    }

    /// Everything written so far, behind its own length as eight big-endian bytes.
    pub fn dump_with_size_hint(&self) -> (out: Vec<u8>)
        ensures
            out@ == u64_be(self@.len() as u64) + self@,
    {
        let mut framed = Writer::new();
        framed.u64(self.buffer.len() as u64);
        framed.bytes(self.buffer.as_slice());
        framed.buffer
    }

    /// Appends one byte.
    pub fn byte(&mut self, byte: u8)
        ensures
            final(self)@ == old(self)@.push(byte),
    {
        self.buffer.push(byte);
    }

    /// Appends a run of bytes, in order.
    pub fn bytes(&mut self, bytes: &[u8])
        ensures
            final(self)@ == old(self)@ + bytes@,
    {
        self.buffer.extend_from_slice(bytes);
    }

    /// Appends a 16-bit value, most significant byte first.
    pub fn short(&mut self, num: u16)
        ensures
            final(self)@ == old(self)@ + u16_be(num),
    {
        self.byte((num / 0x100) as u8);
        self.byte((num % 0x100) as u8);
        assert(self@ =~= old(self)@ + u16_be(num));
    }

    /// Appends a 32-bit value, most significant byte first. A single-precision
    /// number travels this way, as its IEEE 754 bit pattern.
    pub fn u32(&mut self, num: u32)
        ensures
            final(self)@ == old(self)@ + u32_be(num),
    {
        self.byte((num / 0x100_0000) as u8);
        self.byte((num / 0x1_0000 % 0x100) as u8);
        self.byte((num / 0x100 % 0x100) as u8);
        self.byte((num % 0x100) as u8);
        assert(self@ =~= old(self)@ + u32_be(num));
    }

    /// Appends a 64-bit value, most significant byte first.
    pub fn u64(&mut self, num: u64)
        ensures
            final(self)@ == old(self)@ + u64_be(num),
    {
        self.u32((num / 0x1_0000_0000) as u32);
        self.u32((num % 0x1_0000_0000) as u32);
        assert(self@ =~= old(self)@ + u64_be(num));
    }

    /// Appends a signed 32-bit value in two's complement, most significant byte first.
    pub fn i32(&mut self, num: i32)
        ensures
            final(self)@ == old(self)@ + i32_be(num),
    {
        let bits: u32 = if num >= 0 {
            num as u32
        } else {
            (num as i64 + 0x1_0000_0000) as u32
        };
        assert(bits == i32_bits(num));
        self.u32(bits);
    }

    /// Appends a string field: the byte length of the text as a signed 32-bit
    /// value, then the UTF-8 bytes of the text.
    ///
    /// The length field is signed, so a text of more than `i32::MAX` bytes has
    /// no encoding.
    pub fn string(&mut self, str: &str)
        requires
            str.spec_bytes().len() <= i32::MAX,
        ensures
            final(self)@ == old(self)@ + string_field(str@),
    {
        self.i32(str.len() as i32);
        self.bytes(str.as_bytes());
        assert(self@ =~= old(self)@ + string_field(str@));
    }
}

} // verus!
