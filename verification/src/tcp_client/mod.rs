//! The client actor: the one connection to the relay, the secrets that the
//! client holds, and what the client does with each event. One loop feeds the
//! events in, one at a time, and carries the output out.

use crate::encoding::{
    all_encodable, encode_feed, feed_is_encodable, views, Encoder, Instruction,
};
use crate::stream::{can_seal, is_payload, is_peer_id, seal_frame, text_is_peer_id};
use crate::table::{distinct_keys, has_key, lemma_with_line, with_line};
use crate::text::text_eq;
use vstd::prelude::*;

mod broker;
mod feed;

pub use broker::{broker, reads, same_state, sends, Output};
pub use feed::{displayed, handle_feed, lemma_delivery_is_displayed, shown};

verus! {

/// What the client's loop is fed.
#[derive(Debug)]
pub enum Event {
    /// The connection stands: its writer is there.
    SetWriter,
    /// The key exchange is done: the peer's identifier, and the secret.
    SetSharedKey(String, Vec<u8>),
    /// The user has chosen a name.
    Instantiate(String),
    /// The user sends chat content.
    SendMessage(String),
    /// A frame has come in: the identifier in it, and its ciphertext.
    ReadFeed(String, Vec<u8>),
    /// The stream has ended.
    Disconnected,
}

/// An event as a mathematical value.
pub enum EventView {
    SetWriter,
    SetSharedKey(Seq<char>, Seq<u8>),
    Instantiate(Seq<char>),
    SendMessage(Seq<char>),
    ReadFeed(Seq<char>, Seq<u8>),
    Disconnected,
}

impl View for Event {
    type V = EventView;

    open spec fn view(&self) -> EventView {
        match self {
            Event::SetWriter => EventView::SetWriter,
            Event::SetSharedKey(recepient, key) => EventView::SetSharedKey(recepient@, key@),
            Event::Instantiate(username) => EventView::Instantiate(username@),
            Event::SendMessage(content) => EventView::SendMessage(content@),
            Event::ReadFeed(sender, ciphertext) => EventView::ReadFeed(sender@, ciphertext@),
            Event::Disconnected => EventView::Disconnected,
        }
    }
}

/// Where a client stands with its connection.
#[derive(Debug, Clone, Copy, PartialEq, Eq)]
pub enum ConnectionState {
    /// No connection stands.
    Disconnected,
    /// The connection stands; the key exchange is not done.
    Handshaking,
    /// The connection stands and a secret is held for it.
    Ready,
    /// The connection has ended.
    Closed,
}

/// The frame that carries `buff` to `recepient`: the length of the
/// ciphertext, the recipient's identifier, and `buff` sealed under `key` and a
/// fresh nonce.
///
/// Nothing is made where the key is not 32 bytes long, the identifier is not
/// 64 bytes long, or the data is longer than the cipher seals.
pub fn make_payload(recepient: &String, key: &[u8], buff: &[u8]) -> (payload: Option<Vec<u8>>)
    ensures
        payload is Some <==> can_seal(key@, recepient@, buff@),
        payload matches Some(bytes) ==> is_payload(bytes@, recepient@, key@, buff@),
{
    seal_frame(recepient.as_str(), key, buff)
}

/// One line of the table of secrets: a peer's identifier, and the secret
/// shared with that peer.
pub type KeyLine = (Seq<char>, Seq<u8>);

/// The lines that `data` can be sealed and framed for, in the order of the table.
pub open spec fn addressees(keys: Seq<KeyLine>, data: Seq<u8>) -> Seq<KeyLine>
    decreases keys.len(),
{
    if keys.len() == 0 {
        Seq::empty()
    } else {
        let earlier = addressees(keys.drop_last(), data);
        if can_seal(keys.last().1, keys.last().0, data) {
            earlier.push(keys.last())
        } else {
            earlier
        }
    }
}

/// Whether `out` is what sending `data` to every peer writes: one frame for
/// each line that it can be sealed for, in the order of the table, under that
/// peer's identifier and sealed under the secret shared with that peer.
pub open spec fn is_sending_of(out: Seq<Vec<u8>>, keys: Seq<KeyLine>, data: Seq<u8>) -> bool {
    let to = addressees(keys, data);
    &&& out.len() == to.len()
    &&& forall|i: int|
        0 <= i < out.len() ==> is_payload((#[trigger] out[i])@, to[i].0, to[i].1, data)
}

/// One line of the table as it is held.
#[derive(Debug)]
struct KeyEntry {
    id: String,
    key: Vec<u8>,
}

/// The lines that a run of entries stands for.
spec fn lines(entries: Seq<KeyEntry>) -> Seq<KeyLine> {
    entries.map_values(|entry: KeyEntry| (entry.id@, entry.key@))
}

/// The state of the client: whether its connection stands, the secrets it
/// holds, and whether it has ended.
#[derive(Debug)]
pub struct InnerClient {
    keys: Vec<KeyEntry>,
    writer: bool,
    closed: bool,
}

impl InnerClient {
    /// The table of secrets, in the order in which the peers were first
    /// registered.
    pub closed spec fn keys(&self) -> Seq<KeyLine> {
        lines(self.keys@)
    }

    /// Whether the connection's writer is there.
    pub closed spec fn has_writer(&self) -> bool {
        self.writer
    }

    /// Whether the client has ended.
    pub closed spec fn is_closed(&self) -> bool {
        self.closed
    }

    /// Where the client stands with its connection.
    pub open spec fn spec_state(&self) -> ConnectionState {
        if self.is_closed() {
            ConnectionState::Closed
        } else if !self.has_writer() {
            ConnectionState::Disconnected
        } else if self.keys().len() == 0 {
            ConnectionState::Handshaking
        } else {
            ConnectionState::Ready
        }
    }

    #[verifier::type_invariant]
    spec fn well_formed(self) -> bool {
        &&& distinct_keys(self.keys())
        &&& forall|i: int| 0 <= i < self.keys().len() ==> is_peer_id((#[trigger] self.keys()[i]).0)
    }

    /// A client that has no connection and holds no secret.
    pub fn new() -> (client: Self)
        ensures
            client.keys() == Seq::<KeyLine>::empty(),
            !client.has_writer(),
            !client.is_closed(),
    {
        let client = Self { keys: Vec::new(), writer: false, closed: false };
        assert(client.keys() =~= Seq::<KeyLine>::empty());
        client
    }

    /// Where the client stands with its connection.
    pub fn state(&self) -> (state: ConnectionState)
        ensures
            state == self.spec_state(),
    {
        if self.closed {
            ConnectionState::Closed
        } else if !self.writer {
            ConnectionState::Disconnected
        } else if self.keys.len() == 0 {
            ConnectionState::Handshaking
        } else {
            ConnectionState::Ready
        }
    }

    /// Whether the client has ended.
    pub fn is_ended(&self) -> (ended: bool)
        ensures
            ended == self.is_closed(),
    {
        self.closed
    }

    /// Recalls that no two secrets are held under one identifier.
    pub(crate) fn keys_are_distinct(&self)
        ensures
            distinct_keys(self.keys()),
    {
        proof {
            use_type_invariant(self);
        }
    }

    /// Notes that the connection's writer is there.
    pub fn set_writer(&mut self)
        ensures
            final(self).has_writer(),
            final(self).keys() == old(self).keys(),
            final(self).is_closed() == old(self).is_closed(),
    {
        proof {
            use_type_invariant(&*self);
        }
        self.writer = true;
    }

    /// Notes that the connection has ended. The secrets are let go of.
    pub fn close(&mut self)
        ensures
            final(self).is_closed(),
            final(self).keys() == Seq::<KeyLine>::empty(),
            !final(self).has_writer(),
    {
        proof {
            use_type_invariant(&*self);
        }
        self.writer = false;
        self.closed = true;
        self.keys = Vec::new();
        assert(self.keys() =~= Seq::<KeyLine>::empty());
    }

    /// The place of the line registered under `id`, if there is one.
    fn find(&self, id: &str) -> (place: Option<usize>)
        ensures
            place is Some <==> has_key(self.keys(), id@),
            place matches Some(i) ==> i < self.keys().len() && self.keys()[i as int].0 == id@,
    {
        let mut i: usize = 0;
        while i < self.keys.len()
            invariant
                i <= self.keys.len(),
                forall|k: int| 0 <= k < i ==> (#[trigger] self.keys()[k]).0 != id@,
            decreases self.keys.len() - i,
        {
            if text_eq(self.keys[i].id.as_str(), id) {
                assert(self.keys()[i as int].0 == id@);
                return Some(i);
            }
            i = i + 1;
        }
        None
    }

    /// Holds `key` as the secret shared with `recepient`, in the place of the
    /// secret that was held for that peer, if one was. An identifier that is
    /// not 64 bytes long is passed over.
    pub fn set_key(&mut self, recepient: String, key: Vec<u8>)
        ensures
            is_peer_id(recepient@) ==> final(self).keys() == with_line(
                old(self).keys(),
                recepient@,
                key@,
            ),
            !is_peer_id(recepient@) ==> final(self).keys() == old(self).keys(),
            final(self).has_writer() == old(self).has_writer(),
            final(self).is_closed() == old(self).is_closed(),
    {
        proof {
            use_type_invariant(&*self);
            lemma_with_line(self.keys(), recepient@, key@);
        }
        if !text_is_peer_id(recepient.as_str()) {
            return ;
        }
        let ghost before = self.keys();
        let place = self.find(recepient.as_str());
        let mut keys: Vec<KeyEntry> = Vec::new();
        core::mem::swap(&mut self.keys, &mut keys);
        match place {
            Some(i) => {
                keys.set(i, KeyEntry { id: recepient, key });
                assert(lines(keys@) =~= before.update(i as int, (recepient@, key@)));
            },
            None => {
                keys.push(KeyEntry { id: recepient, key });
                assert(lines(keys@) =~= before.push((recepient@, key@)));
            },
        }
        proof {
            let after = lines(keys@);
            assert forall|i: int| 0 <= i < after.len() implies is_peer_id(
                (#[trigger] after[i]).0,
            ) by {
                if i < before.len() && after[i] == before[i] {
                } else {
                    assert(after[i].0 == recepient@);
                }
            }
        }
        self.keys = keys;
    }

    /// The secret shared with the peer `id`, if one is held.
    pub fn get_key(&self, id: &str) -> (key: Option<&Vec<u8>>)
        ensures
            key is Some <==> has_key(self.keys(), id@),
            key matches Some(secret) ==> forall|i: int|
                0 <= i < self.keys().len() && (#[trigger] self.keys()[i]).0 == id@
                    ==> self.keys()[i].1 == secret@,
    {
        proof {
            use_type_invariant(self);
        }
        match self.find(id) {
            Some(i) => {
                assert forall|k: int|
                    0 <= k < self.keys().len() && (#[trigger] self.keys()[k]).0 == id@ implies k
                    == i by {
                    if k != i {
                        assert(self.keys()[k].0 != self.keys()[i as int].0);
                    }
                }
                Some(&self.keys[i].key)
            },
            None => None,
        }
    }

    /// What sending `buff` to every peer writes to the connection; nothing
    /// where no connection stands.
    pub fn relay_data_to_all(&self, buff: &[u8]) -> (out: Vec<Vec<u8>>)
        ensures
            self.has_writer() ==> is_sending_of(out@, self.keys(), buff@),
            !self.has_writer() ==> out@.len() == 0,
    {
        let mut out: Vec<Vec<u8>> = Vec::new();
        if !self.writer {
            return out;
        }
        let ghost keys = self.keys();
        let mut i: usize = 0;
        while i < self.keys.len()
            invariant
                i <= self.keys.len(),
                keys == self.keys(),
                is_sending_of(out@, keys.take(i as int), buff@),
            decreases self.keys.len() - i,
        {
            let entry = &self.keys[i];
            let ghost line = keys[i as int];
            let ghost seen = keys.take(i as int + 1);
            proof {
                assert(seen.drop_last() =~= keys.take(i as int));
                assert(seen.last() == line);
            }
            match make_payload(&entry.id, entry.key.as_slice(), buff) {
                Some(payload) => {
                    let ghost earlier = out@;
                    out.push(payload);
                    proof {
                        let to = addressees(seen, buff@);
                        assert forall|k: int| 0 <= k < out@.len() implies is_payload(
                            (#[trigger] out@[k])@,
                            to[k].0,
                            to[k].1,
                            buff@,
                        ) by {
                            if k < earlier.len() {
                                assert(out@[k] == earlier[k]);
                            }
                        }
                    }
                },
                None => {},
            }
            i = i + 1;
        }
        assert(keys.take(self.keys.len() as int) =~= keys);
        out
    }

    /// What sending `feed` to every peer writes to the connection; nothing
    /// where the feed cannot be encoded or no connection stands.
    pub fn send_instructions_to_all(&self, feed: Vec<Instruction>) -> (out: Vec<Vec<u8>>)
        ensures
            self.has_writer() && all_encodable(views(feed@)) ==> is_sending_of(
                out@,
                self.keys(),
                encode_feed(views(feed@)),
            ),
            !(self.has_writer() && all_encodable(views(feed@))) ==> out@.len() == 0,
    {
        if !feed_is_encodable(&feed) {
            return Vec::new();
        }
        let data = Encoder::from_feed(feed).writer.dump();
        self.relay_data_to_all(data.as_slice())
    }
}

} // verus!
