//! Instructions to bytes.

use crate::encoding::{
    all_encodable, encodable, encode_instruction, views, Instruction, InstructionView, Opcodes,
    Writer,
};
use vstd::prelude::*;

verus! {

/// The bytes of a run of instructions: the bytes of each, in order.
pub open spec fn encode_feed(feed: Seq<InstructionView>) -> Seq<u8>
    decreases feed.len(),
{
    if feed.len() == 0 {
        Seq::empty()
    } else {
        encode_feed(feed.drop_last()) + encode_instruction(feed.last())
    }
}

/// The bytes of a run start with the bytes of its first instruction.
pub proof fn lemma_encode_feed_push_front(first: InstructionView, rest: Seq<InstructionView>)
    ensures
        encode_feed(seq![first] + rest) == encode_instruction(first) + encode_feed(rest),
    decreases rest.len(),
{
    let whole = seq![first] + rest;
    if rest.len() == 0 {
        assert(whole.drop_last() =~= Seq::<InstructionView>::empty());
        assert(encode_feed(whole.drop_last()) =~= Seq::<u8>::empty());
        assert(encode_feed(whole) =~= encode_instruction(first) + encode_feed(rest));
    } else {
        lemma_encode_feed_push_front(first, rest.drop_last());
        assert(whole.drop_last() =~= seq![first] + rest.drop_last());
        assert(whole.last() == rest.last());
        assert(encode_feed(whole) =~= encode_instruction(first) + encode_feed(rest));
    }
}

/// A writer that holds the encoding of a run of instructions.
pub struct Encoder {
    pub writer: Writer,
}

impl Encoder {
    /// Encodes `feed`, instruction after instruction.
    pub fn from_feed(feed: Vec<Instruction>) -> (encoder: Self)
        requires
            all_encodable(views(feed@)),
        ensures
            encoder.writer@ == encode_feed(views(feed@)),
    {
        let mut s = Self { writer: Writer::new() };
        s.parse(feed);
        s
    }

    fn parse(&mut self, feed: Vec<Instruction>)
        requires
            all_encodable(views(feed@)),
        ensures
            final(self).writer@ == old(self).writer@ + encode_feed(views(feed@)),
    {
        let ghost all = views(feed@);
        let mut i: usize = 0;
        while i < feed.len()
            invariant
                i <= feed.len(),
                all == views(feed@),
                all_encodable(all),
                self.writer@ == old(self).writer@ + encode_feed(all.take(i as int)),
            decreases feed.len() - i,
        {
            let ghost before = self.writer@;
            assert(encodable(all[i as int]));
            match &feed[i] {
                Instruction::Instantiate(username) => {
                    self.writer.short(Opcodes::Instantiate.code());
                    self.writer.string(username.as_str());
                },
                Instruction::SendMessage(message) => {
                    self.writer.short(Opcodes::SendMessage.code());
                    self.writer.string(message.as_str());
                },
                Instruction::ReceiveMessage(sender, message) => {
                    self.writer.short(Opcodes::ReceiveMessage.code());
                    self.writer.string(sender.as_str());
                    self.writer.string(message.as_str());
                },
                Instruction::NOP => {
                    self.writer.short(Opcodes::NOP.code());
                },
            }
            proof {
                assert(self.writer@ =~= before + encode_instruction(all[i as int]));
                assert(all.take(i as int + 1).drop_last() =~= all.take(i as int));
                assert(all.take(i as int + 1).last() == all[i as int]);
                assert(self.writer@ =~= old(self).writer@ + encode_feed(all.take(i as int + 1)));
            }
            i = i + 1;
        }
        assert(all.take(feed.len() as int) =~= all);
    }
}

} // verus!
