//! A cursor over received bytes.

use crate::endian::{i32_from_be, i32_from_bits, u16_from_be, u32_from_be, u64_from_be};
use crate::text::string_from_utf8;
use vstd::prelude::*;
use vstd::slice::{slice_subrange, slice_to_vec};
use vstd::utf8::{decode_utf8, valid_utf8};

verus! {

/// A buffer of bytes and a position in it. Its view is what is still unread.
pub struct Reader {
    buffer: Vec<u8>,
    idx: usize,
}

impl View for Reader {
    type V = Seq<u8>;

    closed spec fn view(&self) -> Seq<u8> {
        self.buffer@.subrange(self.idx as int, self.buffer@.len() as int)
    }
}

/// Whether `bytes` starts with a complete, well-formed string field.
pub open spec fn starts_with_string(bytes: Seq<u8>) -> bool {
    &&& bytes.len() >= 4
    &&& 0 <= i32_from_be(bytes.take(4)) <= bytes.len() - 4
    &&& valid_utf8(bytes.subrange(4, 4 + i32_from_be(bytes.take(4))))
}

/// The number of bytes that the string field at the start of `bytes` takes.
pub open spec fn string_field_len(bytes: Seq<u8>) -> int
    recommends
        starts_with_string(bytes),
{
    4 + i32_from_be(bytes.take(4))
}

/// The text of the string field at the start of `bytes`.
pub open spec fn string_field_text(bytes: Seq<u8>) -> Seq<char>
    recommends
        starts_with_string(bytes),
{
    decode_utf8(bytes.subrange(4, string_field_len(bytes)))
}

impl Reader {
    #[verifier::type_invariant]
    spec fn in_bounds(self) -> bool {
        self.idx <= self.buffer.len()
    }

    /// A cursor at the start of `bytes`.
    pub fn from_bytes(bytes: Vec<u8>) -> (r: Self)
        ensures
            r@ == bytes@,
    {
        let r = Self { buffer: bytes, idx: 0 };
        assert(r@ =~= bytes@);
        r
    }

    /// The number of unread bytes.
    pub fn remaining(&self) -> (n: usize)
        ensures
            n == self@.len(),
    {
        proof {
            use_type_invariant(self);
        }
        self.buffer.len() - self.idx
    }

    /// Whether an opcode's worth of bytes is still unread.
    pub fn has_next(&self) -> (more: bool)
        ensures
            more == (self@.len() >= 2),
    {
        self.remaining() >= 2
    }

    /// Reads one byte.
    pub fn byte(&mut self) -> (b: u8)
        requires
            old(self)@.len() >= 1,
        ensures
            b == old(self)@[0],
            final(self)@ == old(self)@.skip(1),
    {
        proof {
            use_type_invariant(&*self);
        }
        let b = self.buffer[self.idx];
        self.idx = self.idx + 1;
        assert(self@ =~= old(self)@.skip(1));
        b
    }

    /// Reads the next `n` bytes.
    pub fn bytes(&mut self, n: usize) -> (out: &[u8])
        requires
            n <= old(self)@.len(),
        ensures
            out@ == old(self)@.take(n as int),
            final(self)@ == old(self)@.skip(n as int),
    {
        proof {
            use_type_invariant(&*self);
        }
        let start = self.idx;
        self.idx = self.idx + n;
        assert(self@ =~= old(self)@.skip(n as int));
        let out = slice_subrange(self.buffer.as_slice(), start, start + n);
        assert(out@ =~= old(self)@.take(n as int));
        out
    }

    /// Reads a 16-bit value, most significant byte first.
    pub fn short(&mut self) -> (v: u16)
        requires
            old(self)@.len() >= 2,
        ensures
            v == u16_from_be(old(self)@.take(2)),
            final(self)@ == old(self)@.skip(2),
    {
        let hi = self.byte();
        let lo = self.byte();
        assert(self@ =~= old(self)@.skip(2));
        (hi as u16) * 0x100 + (lo as u16)
    }

    /// Reads a 32-bit value, most significant byte first. A single-precision
    /// number travels this way, as its IEEE 754 bit pattern.
    pub fn u32(&mut self) -> (v: u32)
        requires
            old(self)@.len() >= 4,
        ensures
            v == u32_from_be(old(self)@.take(4)),
            final(self)@ == old(self)@.skip(4),
    {
        let b0 = self.byte();
        let b1 = self.byte();
        let b2 = self.byte();
        let b3 = self.byte();
        assert(self@ =~= old(self)@.skip(4));
        (b0 as u32) * 0x100_0000 + (b1 as u32) * 0x1_0000 + (b2 as u32) * 0x100 + (b3 as u32)
    }

    /// Reads a 64-bit value, most significant byte first.
    pub fn u64(&mut self) -> (v: u64)
        requires
            old(self)@.len() >= 8,
        ensures
            v == u64_from_be(old(self)@.take(8)),
            final(self)@ == old(self)@.skip(8),
    {
        let hi = self.u32();
        let lo = self.u32();
        assert(self@ =~= old(self)@.skip(8));
        assert(old(self)@.take(8).subrange(0, 4) =~= old(self)@.take(4));
        assert(old(self)@.take(8).subrange(4, 8) =~= old(self)@.skip(4).take(4));
        (hi as u64) * 0x1_0000_0000 + (lo as u64)
    }

    /// Reads a signed 32-bit value in two's complement, most significant byte first.
    pub fn i32(&mut self) -> (v: i32)
        requires
            old(self)@.len() >= 4,
        ensures
            v == i32_from_be(old(self)@.take(4)),
            final(self)@ == old(self)@.skip(4),
    {
        let bits = self.u32();
        let v: i32 = if bits < 0x8000_0000 {
            bits as i32
        } else {
            (bits as i64 - 0x1_0000_0000) as i32
        };
        assert(v == i32_from_bits(bits));
        v
    }

    /// Reads a string field that is known to be whole and well-formed.
    pub fn string(&mut self) -> (text: String)
        requires
            starts_with_string(old(self)@),
        ensures
            text@ == string_field_text(old(self)@),
            final(self)@ == old(self)@.skip(string_field_len(old(self)@)),
    {
        let len = self.i32() as usize;
        let raw = slice_to_vec(self.bytes(len));
        assert(raw@ =~= old(self)@.subrange(4, 4 + len as int));
        assert(self@ =~= old(self)@.skip(4 + len as int));
        let decoded = string_from_utf8(raw);
        decoded.unwrap()
    }

    /// The signed 32-bit value that comes next, without reading past it.
    fn peek_i32(&self) -> (v: i32)
        requires
            self@.len() >= 4,
        ensures
            v == i32_from_be(self@.take(4)),
    {
        proof {
            use_type_invariant(self);
        }
        let b0 = self.buffer[self.idx];
        let b1 = self.buffer[self.idx + 1];
        let b2 = self.buffer[self.idx + 2];
        let b3 = self.buffer[self.idx + 3];
        let bits: u32 = (b0 as u32) * 0x100_0000 + (b1 as u32) * 0x1_0000 + (b2 as u32) * 0x100
            + (b3 as u32);
        assert(bits == u32_from_be(self@.take(4)));
        let v: i32 = if bits < 0x8000_0000 {
            bits as i32
        } else {
            (bits as i64 - 0x1_0000_0000) as i32
        };
        assert(v == i32_from_bits(bits));
        v
    }

    /// Reads a string field if a whole, well-formed one comes next, and
    /// otherwise leaves the cursor where it stands.
    pub fn try_string(&mut self) -> (text: Option<String>)
        ensures
            text is Some <==> starts_with_string(old(self)@),
            text matches Some(t) ==> {
                &&& t@ == string_field_text(old(self)@)
                &&& final(self)@ == old(self)@.skip(string_field_len(old(self)@))
            },
            text is None ==> final(self)@ == old(self)@,
    {
        proof {
            use_type_invariant(&*self);
        }
        if self.remaining() < 4 {
            return None;
        }
        let len = self.peek_i32();
        if len < 0 || self.remaining() - 4 < len as usize {
            return None;
        }
        let from = self.idx + 4;
        let to = from + len as usize;
        let raw = slice_to_vec(slice_subrange(self.buffer.as_slice(), from, to));
        assert(raw@ =~= old(self)@.subrange(4, 4 + len as int));
        let decoded = string_from_utf8(raw);
        if decoded.is_some() {
            self.idx = to;
            assert(self@ =~= old(self)@.skip(4 + len as int));
        }
        decoded
    }
}

} // verus!
