//! The instruction codec: a two-byte opcode followed by the fields of the
//! instruction, every string as a signed 32-bit length and its UTF-8 bytes.

use crate::endian::{i32_be, u16_be};
use vstd::prelude::*;
use vstd::utf8::encode_utf8;

mod decode;
mod encoder;
mod reader;
mod writer;

pub use decode::{
    cut_rest, decode_feed, decode_one, lemma_decode_encode, lemma_decode_one_encoded, unread,
    Decoder,
};
pub use encoder::{encode_feed, lemma_encode_feed_push_front, Encoder};
pub use reader::{starts_with_string, string_field_len, string_field_text, Reader};
pub use writer::Writer;

verus! {

/// One application-level message.
#[derive(Debug, Clone, PartialEq, Eq)]
pub enum Instruction {
    /// Nothing; also what an unknown opcode decodes to.
    NOP,
    /// A client announces its username.
    Instantiate(String),
    /// A client sends chat content.
    SendMessage(String),
    /// The relay delivers chat content with its author.
    ReceiveMessage(String, String),
}

/// An instruction as a mathematical value: its strings as sequences of characters.
pub enum InstructionView {
    NOP,
    Instantiate(Seq<char>),
    SendMessage(Seq<char>),
    ReceiveMessage(Seq<char>, Seq<char>),
}

impl View for Instruction {
    type V = InstructionView;

    open spec fn view(&self) -> InstructionView {
        match self {
            Instruction::NOP => InstructionView::NOP,
            Instruction::Instantiate(username) => InstructionView::Instantiate(username@),
            Instruction::SendMessage(content) => InstructionView::SendMessage(content@),
            Instruction::ReceiveMessage(author, content) => InstructionView::ReceiveMessage(
                author@,
                content@,
            ),
        }
    }
}

/// The views of a run of instructions, in order.
pub open spec fn views(feed: Seq<Instruction>) -> Seq<InstructionView> {
    feed.map_values(|instruction: Instruction| instruction@)
}

/// The opcodes of the wire format.
#[derive(Debug, Clone, Copy, PartialEq, Eq)]
pub enum Opcodes {
    NOP,
    Instantiate,
    SendMessage,
    ReceiveMessage,
}

impl Opcodes {
    /// The number that stands for this opcode on the wire.
    pub open spec fn spec_code(self) -> u16 {
        match self {
            Opcodes::NOP => 0,
            Opcodes::Instantiate => 1,
            Opcodes::SendMessage => 2,
            Opcodes::ReceiveMessage => 3,
        }
    }

    /// The number that stands for this opcode on the wire.
    pub fn code(&self) -> (code: u16)
        ensures
            code == self.spec_code(),
    {
        match self {
            Opcodes::NOP => 0,
            Opcodes::Instantiate => 1,
            Opcodes::SendMessage => 2,
            Opcodes::ReceiveMessage => 3,
        }
    }

    /// The opcode that a number stands for, if it stands for one.
    pub fn from_u16(code: u16) -> (opcode: Option<Opcodes>)
        ensures
            opcode is Some <==> code <= 3,
            opcode matches Some(known) ==> known.spec_code() == code,
    {
        if code == 0 {
            Some(Opcodes::NOP)
        } else if code == 1 {
            Some(Opcodes::Instantiate)
        } else if code == 2 {
            Some(Opcodes::SendMessage)
        } else if code == 3 {
            Some(Opcodes::ReceiveMessage)
        } else {
            None
        }
    }
}

/// The encoding of one string field: the byte length of the text, then the text.
pub open spec fn string_field(text: Seq<char>) -> Seq<u8> {
    i32_be(encode_utf8(text).len() as i32) + encode_utf8(text)
}

/// Whether a text fits a string field, whose length is a signed 32-bit value.
pub open spec fn text_fits(text: Seq<char>) -> bool {
    encode_utf8(text).len() <= i32::MAX
}

/// Whether every string of an instruction fits a string field.
pub open spec fn encodable(instruction: InstructionView) -> bool {
    match instruction {
        InstructionView::NOP => true,
        InstructionView::Instantiate(username) => text_fits(username),
        InstructionView::SendMessage(content) => text_fits(content),
        InstructionView::ReceiveMessage(author, content) => text_fits(author) && text_fits(content),
    }
}

/// Whether every instruction of a run is encodable.
pub open spec fn all_encodable(feed: Seq<InstructionView>) -> bool {
    forall|i: int| 0 <= i < feed.len() ==> encodable(#[trigger] feed[i])
}

/// The opcode that an instruction is written under.
pub open spec fn opcode_of(instruction: InstructionView) -> Opcodes {
    match instruction {
        InstructionView::NOP => Opcodes::NOP,
        InstructionView::Instantiate(_) => Opcodes::Instantiate,
        InstructionView::SendMessage(_) => Opcodes::SendMessage,
        InstructionView::ReceiveMessage(_, _) => Opcodes::ReceiveMessage,
    }
}

/// The bytes of one instruction: its opcode, then its string fields.
pub open spec fn encode_instruction(instruction: InstructionView) -> Seq<u8> {
    let opcode = u16_be(opcode_of(instruction).spec_code());
    match instruction {
        InstructionView::NOP => opcode,
        InstructionView::Instantiate(username) => opcode + string_field(username),
        InstructionView::SendMessage(content) => opcode + string_field(content),
        InstructionView::ReceiveMessage(author, content) => opcode + string_field(author)
            + string_field(content),
    }
}

/// Whether a text fits a string field.
pub fn text_is_short(text: &str) -> (fits: bool)
    ensures
        fits == text_fits(text@),
{
    text.as_bytes().len() <= 0x7fff_ffff
}

impl Instruction {
    /// Whether every string of this instruction fits a string field.
    pub fn is_encodable(&self) -> (fits: bool)
        ensures
            fits == encodable(self@),
    {
        match self {
            Instruction::NOP => true,
            Instruction::Instantiate(username) => text_is_short(username.as_str()),
            Instruction::SendMessage(content) => text_is_short(content.as_str()),
            Instruction::ReceiveMessage(author, content) => text_is_short(author.as_str())
                && text_is_short(content.as_str()),
        }
    }
}

/// Whether every instruction of a run is encodable.
pub fn feed_is_encodable(feed: &Vec<Instruction>) -> (fits: bool)
    ensures
        fits == all_encodable(views(feed@)),
{
    let mut i: usize = 0;
    while i < feed.len()
        invariant
            i <= feed.len(),
            forall|k: int| 0 <= k < i ==> encodable(#[trigger] views(feed@)[k]),
        decreases feed.len() - i,
    {
        if !feed[i].is_encodable() {
            assert(!encodable(views(feed@)[i as int]));
            return false;
        }
        i = i + 1;
    }
    true
}

} // verus!
