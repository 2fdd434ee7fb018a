//! What the client does with the instructions that the relay sent.

use crate::encoding::{views, Instruction, InstructionView};
use crate::window::{WindowEvent, WindowEventView};
use vstd::prelude::*;

verus! {

/// What a feed has the display show: every delivered message, in order.
pub open spec fn displayed(feed: Seq<InstructionView>) -> Seq<WindowEventView>
    decreases feed.len(),
{
    if feed.len() == 0 {
        Seq::empty()
    } else {
        let earlier = displayed(feed.drop_last());
        match feed.last() {
            InstructionView::ReceiveMessage(author, content) => earlier.push(
                WindowEventView::DisplayMessage(author, content),
            ),
            _ => earlier,
        }
    }
}

/// The views of a run of notifications, in order.
pub open spec fn shown(events: Seq<WindowEvent>) -> Seq<WindowEventView> {
    events.map_values(|event: WindowEvent| event@)
}

/// A delivered message is shown as it was delivered: its author, its content.
pub proof fn lemma_delivery_is_displayed(author: Seq<char>, content: Seq<char>)
    ensures
        displayed(seq![InstructionView::ReceiveMessage(author, content)]) == seq![
            WindowEventView::DisplayMessage(author, content),
        ],
{
    let feed = seq![InstructionView::ReceiveMessage(author, content)];
    assert(feed.drop_last() =~= Seq::<InstructionView>::empty());
    assert(displayed(feed.drop_last()) =~= Seq::<WindowEventView>::empty());
    assert(displayed(feed) =~= seq![WindowEventView::DisplayMessage(author, content)]);
}

/// The notifications that a feed from the relay calls for: one for every
/// `ReceiveMessage`, in order. Other instructions are passed over.
pub fn handle_feed(feed: Vec<Instruction>) -> (events: Vec<WindowEvent>)
    ensures
        shown(events@) == displayed(views(feed@)),
{
    let ghost all = views(feed@);
    let mut events: Vec<WindowEvent> = Vec::new();
    let mut i: usize = 0;
    while i < feed.len()
        invariant
            i <= feed.len(),
            all == views(feed@),
            shown(events@) == displayed(all.take(i as int)),
        decreases feed.len() - i,
    {
        let ghost seen = all.take(i as int + 1);
        let ghost earlier = events@;
        proof {
            assert(seen.drop_last() =~= all.take(i as int));
            assert(seen.last() == feed@[i as int]@);
        }
        match &feed[i] {
            Instruction::ReceiveMessage(username, content) => {
                events.push(WindowEvent::DisplayMessage(username.clone(), content.clone()));
                assert(shown(events@) =~= shown(earlier).push(
                    WindowEventView::DisplayMessage(username@, content@),
                ));
            },
            _ => {},
        }
        i = i + 1;
    }
    assert(all.take(feed.len() as int) =~= all);
    events
}

} // verus!
