//! What the relay does with the instructions that a connection sent.

use crate::encoding::{views, Instruction, InstructionView};
use crate::server::{
    can_carry, carries, delivery, relay_author, Action, Client, ClientView, EventView,
};
use vstd::prelude::*;
use vstd::string::StringExecFns;

verus! {

/// The words that the relay greets a peer with when it has announced its name.
pub open spec fn greeting_text(username: Seq<char>) -> Seq<char> {
    "Hi "@ + username
}

/// What one instruction calls for.
pub enum Reaction {
    /// A greeting goes back to the connection, whose record is now this.
    Greet(ClientView),
    /// A chat message goes to every connection: its author, its content.
    Forward(Seq<char>, Seq<char>),
}

/// Whether the relay can greet the connection: the greeting can be encoded
/// and sealed for it.
pub open spec fn can_greet(client: ClientView) -> bool {
    can_carry(client, client.server_id, delivery(relay_author(), greeting_text(client.username)))
}

/// The record of a connection after a feed from it: its name is the last one
/// that the feed announced.
pub open spec fn client_after(client: ClientView, feed: Seq<InstructionView>) -> ClientView
    decreases feed.len(),
{
    if feed.len() == 0 {
        client
    } else {
        let before = client_after(client, feed.drop_last());
        match feed.last() {
            InstructionView::Instantiate(username) => ClientView { username, ..before },
            _ => before,
        }
    }
}

/// What a feed from a connection calls for, instruction after instruction.
///
/// A name that is announced is taken and greeted, where the greeting can be
/// made. Chat content is forwarded under the name that the connection has at
/// that point. Nothing else calls for anything.
pub open spec fn reactions(client: ClientView, feed: Seq<InstructionView>) -> Seq<Reaction>
    decreases feed.len(),
{
    if feed.len() == 0 {
        Seq::empty()
    } else {
        let earlier = reactions(client, feed.drop_last());
        let before = client_after(client, feed.drop_last());
        match feed.last() {
            InstructionView::Instantiate(username) => {
                let now = ClientView { username, ..before };
                if can_greet(now) {
                    earlier.push(Reaction::Greet(now))
                } else {
                    earlier
                }
            },
            InstructionView::SendMessage(content) => earlier.push(
                Reaction::Forward(before.username, content),
            ),
            _ => earlier,
        }
    }
}

/// Whether an action is what a reaction calls for.
///
/// A greeting is written to the connection itself, in the relay's name and
/// sealed under the connection's secret. A forwarded message is posted to the
/// relay's queue as a delivery to every connection.
pub open spec fn carries_out(action: Action, reaction: Reaction) -> bool {
    match reaction {
        Reaction::Greet(client) => {
            &&& action is Write
            &&& carries(
                action->Write_0,
                client,
                client.server_id,
                delivery(relay_author(), greeting_text(client.username)),
            )
        },
        Reaction::Forward(author, content) => {
            &&& action is Post
            &&& action->Post_0@ == EventView::SendToAll(delivery(author, content))
        },
    }
}

/// Whether the actions are what the reactions call for, one for one.
pub open spec fn carry_out_all(actions: Seq<Action>, called_for: Seq<Reaction>) -> bool {
    &&& actions.len() == called_for.len()
    &&& forall|i: int| 0 <= i < actions.len() ==> carries_out(#[trigger] actions[i], called_for[i])
}

/// A feed changes nothing of a record but the name.
pub proof fn lemma_client_after_keeps_identity(client: ClientView, feed: Seq<InstructionView>)
    ensures
        client_after(client, feed).id == client.id,
        client_after(client, feed).server_id == client.server_id,
        client_after(client, feed).shared_secret == client.shared_secret,
    decreases feed.len(),
{
    if feed.len() > 0 {
        lemma_client_after_keeps_identity(client, feed.drop_last());
    }
}

/// Chat content from a connection is forwarded under the name of that
/// connection, and changes nothing of its record.
pub proof fn lemma_send_message_is_forwarded(client: ClientView, content: Seq<char>)
    ensures
        reactions(client, seq![InstructionView::SendMessage(content)]) == seq![
            Reaction::Forward(client.username, content),
        ],
        client_after(client, seq![InstructionView::SendMessage(content)]) == client,
{
    let feed = seq![InstructionView::SendMessage(content)];
    assert(feed.drop_last() =~= Seq::<InstructionView>::empty());
    assert(feed.last() == InstructionView::SendMessage(content));
    assert(reactions(client, feed.drop_last()) =~= Seq::<Reaction>::empty());
    assert(client_after(client, feed.drop_last()) == client);
    assert(reactions(client, feed) =~= seq![Reaction::Forward(client.username, content)]);
}

/// Acts on the instructions that a connection sent, in order.
///
/// `Instantiate` sets the name of the connection and has it greeted.
/// `SendMessage` has the content delivered to every connection under the
/// connection's name. Other instructions are passed over.
pub fn handle_feed(client: &mut Client, feed: Vec<Instruction>) -> (actions: Vec<Action>)
    ensures
        final(client)@ == client_after(old(client)@, views(feed@)),
        carry_out_all(actions@, reactions(old(client)@, views(feed@))),
{
    let ghost start = client@;
    let ghost all = views(feed@);
    let mut actions: Vec<Action> = Vec::new();
    let mut i: usize = 0;
    while i < feed.len()
        invariant
            i <= feed.len(),
            all == views(feed@),
            client@ == client_after(start, all.take(i as int)),
            carry_out_all(actions@, reactions(start, all.take(i as int))),
        decreases feed.len() - i,
    {
        let ghost seen = all.take(i as int + 1);
        let ghost before = client@;
        let ghost earlier = actions@;
        let ghost called_for = reactions(start, all.take(i as int));
        proof {
            assert(seen.drop_last() =~= all.take(i as int));
            assert(seen.last() == feed@[i as int]@);
        }
        match &feed[i] {
            Instruction::Instantiate(username) => {
                client.set_username(username.clone());
                let mut text = String::from_str("Hi ");
                text.append(username.as_str());
                assert(text@ == greeting_text(username@));
                match client.send_local_message(text) {
                    Some(out) => {
                        actions.push(Action::Write(out));
                        proof {
                            let now = reactions(start, seen);
                            assert(now == called_for.push(Reaction::Greet(client@)));
                            assert forall|k: int| 0 <= k < actions@.len() implies carries_out(
                                #[trigger] actions@[k],
                                now[k],
                            ) by {
                                if k < earlier.len() {
                                    assert(actions@[k] == earlier[k]);
                                }
                            }
                        }
                    },
                    None => {},
                }
            },
            Instruction::SendMessage(content) => {
                let event = client.send_message(content.clone());
                actions.push(Action::Post(event));
                proof {
                    let now = reactions(start, seen);
                    assert(now == called_for.push(Reaction::Forward(before.username, content@)));
                    assert forall|k: int| 0 <= k < actions@.len() implies carries_out(
                        #[trigger] actions@[k],
                        now[k],
                    ) by {
                        if k < earlier.len() {
                            assert(actions@[k] == earlier[k]);
                        }
                    }
                }
            },
            _ => {},
        }
        i = i + 1;
    }
    assert(all.take(feed.len() as int) =~= all);
    actions
}

} // verus!
