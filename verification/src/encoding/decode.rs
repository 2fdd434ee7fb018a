//! Bytes to instructions.

use crate::encoding::{
    all_encodable, encodable, encode_feed, encode_instruction, lemma_encode_feed_push_front,
    starts_with_string, string_field, string_field_len, string_field_text, text_fits, views,
    Instruction, InstructionView, Opcodes, Reader,
};
use crate::endian::{i32_be, lemma_i32_round_trip, lemma_u16_round_trip, u16_be, u16_from_be};
use vstd::prelude::*;
use vstd::utf8::{encode_utf8, encode_utf8_decode_utf8, encode_utf8_valid_utf8};

verus! {

/// The instruction at the start of `bytes` and the number of bytes it takes,
/// or `None` where the bytes end before an instruction is complete.
///
/// An opcode outside the table stands for `NOP` and takes its two bytes only.
/// A string field that is cut short, whose length is negative or whose bytes
/// are not UTF-8 ends the stream like missing bytes do.
pub open spec fn decode_one(bytes: Seq<u8>) -> Option<(InstructionView, int)> {
    if bytes.len() < 2 {
        None
    } else {
        let code = u16_from_be(bytes.take(2));
        let fields = bytes.skip(2);
        if code == Opcodes::Instantiate.spec_code() {
            if starts_with_string(fields) {
                Some(
                    (
                        InstructionView::Instantiate(string_field_text(fields)),
                        2 + string_field_len(fields),
                    ),
                )
            } else {
                None
            }
        } else if code == Opcodes::SendMessage.spec_code() {
            if starts_with_string(fields) {
                Some(
                    (
                        InstructionView::SendMessage(string_field_text(fields)),
                        2 + string_field_len(fields),
                    ),
                )
            } else {
                None
            }
        } else if code == Opcodes::ReceiveMessage.spec_code() {
            let second = fields.skip(string_field_len(fields));
            if starts_with_string(fields) && starts_with_string(second) {
                Some(
                    (
                        InstructionView::ReceiveMessage(
                            string_field_text(fields),
                            string_field_text(second),
                        ),
                        2 + string_field_len(fields) + string_field_len(second),
                    ),
                )
            } else {
                None
            }
        } else {
            Some((InstructionView::NOP, 2))
        }
    }
}

/// The instructions that `bytes` hold, in order, up to the end of the bytes or
/// to the first instruction that is not complete.
pub open spec fn decode_feed(bytes: Seq<u8>) -> Seq<InstructionView>
    decreases bytes.len(),
{
    match decode_one(bytes) {
        Some((instruction, used)) => seq![instruction] + decode_feed(bytes.skip(used)),
        None => Seq::empty(),
    }
}

/// What reading leaves of bytes that start with an instruction that is not
/// complete: the bytes behind the part of the instruction that was there. The
/// opcode is read where it is whole, and the first string of a
/// `ReceiveMessage` whose second string is cut.
pub open spec fn cut_rest(bytes: Seq<u8>) -> Seq<u8> {
    if bytes.len() < 2 {
        bytes
    } else {
        let fields = bytes.skip(2);
        if u16_from_be(bytes.take(2)) == Opcodes::ReceiveMessage.spec_code() && starts_with_string(
            fields,
        ) {
            fields.skip(string_field_len(fields))
        } else {
            fields
        }
    }
}

/// What decoding leaves unread of `bytes`: nothing where they hold complete
/// instructions only, and otherwise what reading leaves of the instruction
/// that they end in.
pub open spec fn unread(bytes: Seq<u8>) -> Seq<u8>
    decreases bytes.len(),
{
    match decode_one(bytes) {
        Some((_, used)) => unread(bytes.skip(used)),
        None => cut_rest(bytes),
    }
}

/// A string field in front of any bytes is read back as the text it was made from.
pub proof fn lemma_string_field_read_back(text: Seq<char>, tail: Seq<u8>)
    requires
        text_fits(text),
    ensures
        starts_with_string(string_field(text) + tail),
        string_field_text(string_field(text) + tail) == text,
        string_field_len(string_field(text) + tail) == string_field(text).len(),
        (string_field(text) + tail).skip(string_field(text).len() as int) == tail,
{
    let raw = encode_utf8(text);
    let bytes = string_field(text) + tail;
    lemma_i32_round_trip(raw.len() as i32);
    assert(bytes.take(4) =~= i32_be(raw.len() as i32));
    assert(bytes.subrange(4, 4 + raw.len() as int) =~= raw);
    encode_utf8_valid_utf8(text);
    encode_utf8_decode_utf8(text);
    assert(bytes.skip(string_field(text).len() as int) =~= tail);
}

/// An encoded instruction in front of any bytes decodes to itself, and to all
/// of its bytes.
pub proof fn lemma_decode_one_encoded(instruction: InstructionView, tail: Seq<u8>)
    requires
        encodable(instruction),
    ensures
        decode_one(encode_instruction(instruction) + tail) == Some(
            (instruction, encode_instruction(instruction).len() as int),
        ),
        encode_instruction(instruction).len() >= 2,
        (encode_instruction(instruction) + tail).skip(encode_instruction(instruction).len() as int)
            == tail,
{
    let encoded = encode_instruction(instruction);
    let bytes = encoded + tail;
    let code = match instruction {
        InstructionView::NOP => 0u16,
        InstructionView::Instantiate(_) => 1u16,
        InstructionView::SendMessage(_) => 2u16,
        InstructionView::ReceiveMessage(_, _) => 3u16,
    };
    lemma_u16_round_trip(code);
    assert(bytes.take(2) =~= u16_be(code));
    assert(bytes.skip(encoded.len() as int) =~= tail);
    match instruction {
        InstructionView::NOP => {},
        InstructionView::Instantiate(username) => {
            assert(bytes.skip(2) =~= string_field(username) + tail);
            lemma_string_field_read_back(username, tail);
        },
        InstructionView::SendMessage(content) => {
            assert(bytes.skip(2) =~= string_field(content) + tail);
            lemma_string_field_read_back(content, tail);
        },
        InstructionView::ReceiveMessage(author, content) => {
            let after = string_field(content) + tail;
            assert(bytes.skip(2) =~= string_field(author) + after);
            lemma_string_field_read_back(author, after);
            lemma_string_field_read_back(content, tail);
        },
    }
}

/// Decoding what was encoded gives the instructions back, in order.
pub proof fn lemma_decode_encode(feed: Seq<InstructionView>)
    requires
        all_encodable(feed),
    ensures
        decode_feed(encode_feed(feed)) == feed,
    decreases feed.len(),
{
    if feed.len() == 0 {
        assert(decode_feed(encode_feed(feed)) =~= feed);
    } else {
        let first = feed[0];
        let rest = feed.skip(1);
        assert(feed =~= seq![first] + rest);
        assert(encodable(first));
        assert forall|i: int| 0 <= i < rest.len() implies encodable(#[trigger] rest[i]) by {
            assert(rest[i] == feed[i + 1]);
        }
        lemma_encode_feed_push_front(first, rest);
        lemma_decode_one_encoded(first, encode_feed(rest));
        lemma_decode_encode(rest);
        assert(decode_feed(encode_feed(feed)) =~= feed);
    }
}

/// The instructions that a buffer of bytes held, and the cursor that they
/// were read with. Where the bytes end in an instruction that is not
/// complete, the cursor stands inside that instruction, behind the part of it
/// that was read: behind its opcode, or behind the first string of a
/// `ReceiveMessage`.
pub struct Decoder {
    pub reader: Reader,
    pub feed: Vec<Instruction>,
}

impl Decoder {
    /// Decodes `buffer` from its start.
    pub fn from_bytes(buffer: Vec<u8>) -> (decoder: Self)
        ensures
            views(decoder.feed@) == decode_feed(buffer@),
            decoder.reader@ == unread(buffer@),
    {
        let mut s = Self { reader: Reader::from_bytes(buffer), feed: Vec::new() };
        s.parse();
        s
    }

    fn parse(&mut self)
        ensures
            views(final(self).feed@) == views(old(self).feed@) + decode_feed(old(self).reader@),
            final(self).reader@ == unread(old(self).reader@),
    {
        let ghost done = views(self.feed@);
        loop
            invariant_except_break
                views(self.feed@) + decode_feed(self.reader@) == done + decode_feed(
                    old(self).reader@,
                ),
                unread(self.reader@) == unread(old(self).reader@),
            ensures
                views(self.feed@) == done + decode_feed(old(self).reader@),
                self.reader@ == unread(old(self).reader@),
            decreases self.reader@.len(),
        {
            if !self.reader.has_next() {
                assert(decode_feed(self.reader@) =~= Seq::<InstructionView>::empty());
                assert(unread(self.reader@) == self.reader@);
                break ;
            }
            let ghost before = self.reader@;
            let ghost so_far = views(self.feed@);
            let opcode = self.reader.short();
            let decoded = match Opcodes::from_u16(opcode) {
                Some(Opcodes::Instantiate) => {
                    match self.reader.try_string() {
                        Some(username) => Some(Instruction::Instantiate(username)),
                        None => None,
                    }
                },
                Some(Opcodes::SendMessage) => {
                    match self.reader.try_string() {
                        Some(content) => Some(Instruction::SendMessage(content)),
                        None => None,
                    }
                },
                Some(Opcodes::ReceiveMessage) => {
                    match self.reader.try_string() {
                        Some(author) => match self.reader.try_string() {
                            Some(content) => Some(Instruction::ReceiveMessage(author, content)),
                            None => None,
                        },
                        None => None,
                    }
                },
                _ => Some(Instruction::NOP),
            };
            match decoded {
                Some(instruction) => {
                    proof {
                        let step = decode_one(before);
                        assert(step == Some((instruction@, before.len() - self.reader@.len())));
                        assert(self.reader@ =~= before.skip(before.len() - self.reader@.len()));
                    }
                    self.feed.push(instruction);
                    assert(views(self.feed@) =~= so_far.push(instruction@));
                    assert(views(self.feed@) + decode_feed(self.reader@) =~= so_far + decode_feed(
                        before,
                    ));
                },
                None => {
                    assert(decode_one(before) is None);
                    assert(decode_feed(before) =~= Seq::<InstructionView>::empty());
                    assert(self.reader@ =~= cut_rest(before));
                    break ;
                },
            }
        }
    }
}

} // verus!
