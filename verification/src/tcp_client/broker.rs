//! The client's loop, one event at a time.

use crate::encoding::{decode_feed, views, Decoder, Instruction, InstructionView};
use crate::encryption::{decrypt, open_message, KEY_LEN};
use crate::stream::is_peer_id;
use crate::table::{distinct_keys, has_key, with_line};
use crate::tcp_client::{
    displayed, handle_feed, is_sending_of, shown, Event, EventView, InnerClient, KeyLine,
};
use crate::window::{WindowEvent, WindowEventView};
use vstd::prelude::*;

verus! {

/// What the client's loop is to do after an event: the frames to write to
/// the connection, and the notifications to hand to the display.
#[derive(Debug)]
pub struct Output {
    pub writes: Vec<Vec<u8>>,
    pub display: Vec<WindowEvent>,
}

/// What a ciphertext that names the peer `sender` has the display show: what
/// the feed in it calls for, where a secret is held for that peer and the
/// ciphertext opens under it; nothing otherwise.
pub open spec fn reads(keys: Seq<KeyLine>, sender: Seq<char>, ciphertext: Seq<u8>, display: Seq<
    WindowEventView,
>) -> bool {
    &&& !has_key(keys, sender) ==> display.len() == 0
    &&& forall|i: int|
        0 <= i < keys.len() && (#[trigger] keys[i]).0 == sender ==> display == (if keys[i].1.len()
            == KEY_LEN {
            match open_message(keys[i].1, ciphertext) {
                Some(data) => displayed(decode_feed(data)),
                None => Seq::empty(),
            }
        } else {
            Seq::empty()
        })
}

/// Whether `writes` is what sending `feed` writes: one frame for every peer
/// whose secret is held, where a connection stands and the feed can be
/// encoded; nothing otherwise.
pub open spec fn sends(
    client: &InnerClient,
    feed: Seq<InstructionView>,
    writes: Seq<Vec<u8>>,
) -> bool {
    if client.has_writer() && crate::encoding::all_encodable(feed) {
        is_sending_of(writes, client.keys(), crate::encoding::encode_feed(feed))
    } else {
        writes.len() == 0
    }
}

/// Whether the client's state is the same in two places.
pub open spec fn same_state(before: &InnerClient, after: &InnerClient) -> bool {
    &&& after.keys() == before.keys()
    &&& after.has_writer() == before.has_writer()
    &&& after.is_closed() == before.is_closed()
}

/// What the client does with one event: how its state changes, and what its
/// loop is to do.
///
/// A client that has ended passes every event over. Otherwise:
/// - `SetWriter` notes that the connection stands.
/// - `SetSharedKey` holds the secret for the peer; a secret that is not 32
///   bytes long ends the client.
/// - `Instantiate` and `SendMessage` have the instruction written to the
///   connection, sealed for every peer whose secret is held.
/// - `ReadFeed` is opened with the secret held for the peer that the frame
///   names, and the messages in it are handed to the display; a frame that
///   does not open is dropped.
/// - `Disconnected` ends the client.
pub fn broker(inner_client: &mut InnerClient, event: Event) -> (output: Output)
    ensures
        distinct_keys(final(inner_client).keys()),
        old(inner_client).is_closed() ==> {
            &&& same_state(old(inner_client), final(inner_client))
            &&& output.writes@.len() == 0
            &&& output.display@.len() == 0
        },
        !old(inner_client).is_closed() ==> match event@ {
            EventView::SetWriter => {
                &&& final(inner_client).has_writer()
                &&& final(inner_client).keys() == old(inner_client).keys()
                &&& !final(inner_client).is_closed()
                &&& output.writes@.len() == 0
                &&& output.display@.len() == 0
            },
            EventView::SetSharedKey(recepient, key) => {
                &&& output.writes@.len() == 0
                &&& output.display@.len() == 0
                &&& if key.len() != KEY_LEN {
                    final(inner_client).is_closed()
                } else if is_peer_id(recepient) {
                    &&& final(inner_client).keys() == with_line(
                        old(inner_client).keys(),
                        recepient,
                        key,
                    )
                    &&& final(inner_client).has_writer() == old(inner_client).has_writer()
                    &&& !final(inner_client).is_closed()
                } else {
                    same_state(old(inner_client), final(inner_client))
                }
            },
            EventView::Instantiate(username) => {
                &&& same_state(old(inner_client), final(inner_client))
                &&& output.display@.len() == 0
                &&& sends(
                    old(inner_client),
                    seq![InstructionView::Instantiate(username)],
                    output.writes@,
                )
            },
            EventView::SendMessage(content) => {
                &&& same_state(old(inner_client), final(inner_client))
                &&& output.display@.len() == 0
                &&& sends(
                    old(inner_client),
                    seq![InstructionView::SendMessage(content)],
                    output.writes@,
                )
            },
            EventView::ReadFeed(sender, ciphertext) => {
                &&& same_state(old(inner_client), final(inner_client))
                &&& output.writes@.len() == 0
                &&& reads(old(inner_client).keys(), sender, ciphertext, shown(output.display@))
            },
            EventView::Disconnected => {
                &&& final(inner_client).is_closed()
                &&& output.writes@.len() == 0
                &&& output.display@.len() == 0
            },
        },
{
    inner_client.keys_are_distinct();
    if inner_client.is_ended() {
        return Output { writes: Vec::new(), display: Vec::new() };
    }
    match event {
        Event::SetWriter => {
            inner_client.set_writer();
            Output { writes: Vec::new(), display: Vec::new() }
        },
        Event::SetSharedKey(recepient, key) => {
            if key.len() != KEY_LEN {
                inner_client.close();
            } else {
                inner_client.set_key(recepient, key);
            }
            inner_client.keys_are_distinct();
            Output { writes: Vec::new(), display: Vec::new() }
        },
        Event::Instantiate(username) => {
            let mut feed: Vec<Instruction> = Vec::new();
            feed.push(Instruction::Instantiate(username));
            assert(views(feed@) =~= seq![InstructionView::Instantiate(username@)]);
            let writes = inner_client.send_instructions_to_all(feed);
            Output { writes, display: Vec::new() }
        },
        Event::SendMessage(content) => {
            let mut feed: Vec<Instruction> = Vec::new();
            feed.push(Instruction::SendMessage(content));
            assert(views(feed@) =~= seq![InstructionView::SendMessage(content@)]);
            let writes = inner_client.send_instructions_to_all(feed);
            Output { writes, display: Vec::new() }
        },
        Event::ReadFeed(sender_id, buf) => {
            let ghost keys = inner_client.keys();
            let display: Vec<WindowEvent> = match inner_client.get_key(sender_id.as_str()) {
                Some(secret) => {
                    match decrypt(secret.as_slice(), buf) {
                        Ok(data) => {
                            let feed = Decoder::from_bytes(data);
                            handle_feed(feed.feed)
                        },
                        Err(_) => {
                            let nothing: Vec<WindowEvent> = Vec::new();
                            assert(shown(nothing@) =~= Seq::<WindowEventView>::empty());
                            nothing
                        },
                    }
                },
                None => Vec::new(),
            };
            assert(reads(keys, sender_id@, buf@, shown(display@)));
            Output { writes: Vec::new(), display }
        },
        Event::Disconnected => {
            inner_client.close();
            inner_client.keys_are_distinct();
            Output { writes: Vec::new(), display: Vec::new() }
        },
    }
}

} // verus!
