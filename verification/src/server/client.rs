//! The record of one connection on the relay.

use crate::encoding::{
    all_encodable, encode_feed, feed_is_encodable, views, Encoder, Instruction, InstructionView,
};
use crate::server::{Event, EventView};
use crate::stream::{can_seal, is_payload, seal_frame};
use vstd::prelude::*;
use vstd::string::StringExecFns;

verus! {

/// A frame and the connection whose writer it goes to.
#[derive(Debug, Clone, PartialEq, Eq)]
pub struct Outgoing {
    pub recipient: String,
    pub payload: Vec<u8>,
}

/// The record of one connection: the peer's identifier, the relay's own, the
/// secret that the two share, and the name that the peer goes by.
#[derive(Debug)]
pub struct Client {
    id: String,
    server_id: String,
    shared_secret: Vec<u8>,
    pub username: String,
}

/// A connection record as a mathematical value.
pub struct ClientView {
    pub id: Seq<char>,
    pub server_id: Seq<char>,
    pub shared_secret: Seq<u8>,
    pub username: Seq<char>,
}

impl View for Client {
    type V = ClientView;

    closed spec fn view(&self) -> ClientView {
        ClientView {
            id: self.id@,
            server_id: self.server_id@,
            shared_secret: self.shared_secret@,
            username: self.username@,
        }
    }
}

/// The name of the relay as the author of its own messages.
pub open spec fn relay_author() -> Seq<char> {
    "Server"@
}

/// The name that a connection goes by until it announces one.
pub open spec fn unnamed() -> Seq<char> {
    "Unknown"@
}

/// A chat message as the feed that delivers it.
pub open spec fn delivery(author: Seq<char>, content: Seq<char>) -> Seq<InstructionView> {
    seq![InstructionView::ReceiveMessage(author, content)]
}

/// Whether `out` carries `feed` to `client`: it names the client's connection,
/// and its payload is a frame under `sender` whose ciphertext is the encoded
/// feed sealed under the client's own secret.
pub open spec fn carries(
    out: Outgoing,
    client: ClientView,
    sender: Seq<char>,
    feed: Seq<InstructionView>,
) -> bool {
    &&& out.recipient@ == client.id
    &&& is_payload(out.payload@, sender, client.shared_secret, encode_feed(feed))
}

/// Whether `feed` can be sent to `client` under `sender`.
pub open spec fn can_carry(
    client: ClientView,
    sender: Seq<char>,
    feed: Seq<InstructionView>,
) -> bool {
    &&& all_encodable(feed)
    &&& can_seal(client.shared_secret, sender, encode_feed(feed))
}

impl Client {
    /// The record of a connection whose key exchange is done.
    pub fn new(id: String, shared_secret: &[u8], server_id: String) -> (client: Self)
        ensures
            client@ == (ClientView {
                id: id@,
                server_id: server_id@,
                shared_secret: shared_secret@,
                username: unnamed(),
            }),
    {
        Self {
            id,
            server_id,
            shared_secret: vstd::slice::slice_to_vec(shared_secret),
            username: String::from_str("Unknown"),
        }
    }

    /// Sets the name that the peer goes by.
    pub fn set_username(&mut self, username: String)
        ensures
            final(self)@ == (ClientView { username: username@, ..old(self)@ }),
    {
        self.username = username;
    }

    /// The frame that carries `buff` to this connection under `sender`: the
    /// length of the ciphertext, the sender's identifier, and `buff` sealed
    /// under the connection's secret and a fresh nonce.
    pub fn make_payload(&self, sender: &str, buff: &[u8]) -> (payload: Option<Vec<u8>>)
        ensures
            payload is Some <==> can_seal(self@.shared_secret, sender@, buff@),
            payload matches Some(bytes) ==> is_payload(
                bytes@,
                sender@,
                self@.shared_secret,
                buff@,
            ),
    {
        seal_frame(sender, self.shared_secret.as_slice(), buff)
    }

    /// The frame that carries `buff` to this connection, with the connection
    /// that it is to be written to.
    pub fn make_and_send(&self, sender: &str, buff: &[u8]) -> (out: Option<Outgoing>)
        ensures
            out is Some <==> can_seal(self@.shared_secret, sender@, buff@),
            out matches Some(sent) ==> {
                &&& sent.recipient@ == self@.id
                &&& is_payload(sent.payload@, sender@, self@.shared_secret, buff@)
            },
    {
        match self.make_payload(sender, buff) {
            Some(payload) => Some(Outgoing { recipient: self.id.clone(), payload }),
            None => None,
        }
    }

    /// The event that asks the relay to send `feed` to every connection.
    pub fn send_to_all(&self, feed: Vec<Instruction>) -> (event: Event)
        ensures
            event@ == EventView::SendToAll(views(feed@)),
    {
        Event::SendToAll(feed)
    }

    /// The event that asks the relay to send `feed` to every connection but
    /// this one.
    pub fn send_to_others(&self, feed: Vec<Instruction>) -> (event: Event)
        ensures
            event@ == EventView::SendToOthers(self@.id, views(feed@)),
    {
        Event::SendToOthers(self.id.clone(), feed)
    }

    /// The event that asks the relay to deliver `content` to every connection
    /// as a message of this connection's peer.
    pub fn send_message(&self, content: String) -> (event: Event)
        ensures
            event@ == EventView::SendToAll(delivery(self@.username, content@)),
    {
        let mut feed: Vec<Instruction> = Vec::new();
        feed.push(Instruction::ReceiveMessage(self.username.clone(), content));
        assert(views(feed@) =~= delivery(self@.username, content@));
        self.send_to_all(feed)
    }

    /// The frame that carries `feed` to this connection in the relay's own
    /// name. Nothing is made where the feed cannot be encoded or sealed.
    pub fn send_local_instructions(&self, feed: Vec<Instruction>) -> (out: Option<Outgoing>)
        ensures
            out is Some <==> can_carry(self@, self@.server_id, views(feed@)),
            out matches Some(sent) ==> carries(sent, self@, self@.server_id, views(feed@)),
    {
        if !feed_is_encodable(&feed) {
            return None;
        }
        let data = Encoder::from_feed(feed).writer.dump();
        self.make_and_send(self.server_id.as_str(), data.as_slice())
    }

    /// The frame that carries `content` to this connection as a message of the
    /// relay itself.
    pub fn send_local_message(&self, content: String) -> (out: Option<Outgoing>)
        ensures
            out is Some <==> can_carry(
                self@,
                self@.server_id,
                delivery(relay_author(), content@),
            ),
            out matches Some(sent) ==> carries(
                sent,
                self@,
                self@.server_id,
                delivery(relay_author(), content@),
            ),
    {
        let mut feed: Vec<Instruction> = Vec::new();
        feed.push(Instruction::ReceiveMessage(String::from_str("Server"), content));
        assert(views(feed@) =~= delivery(relay_author(), content@));
        self.send_local_instructions(feed)
    }

    /// The identifier of the peer.
    pub fn get_id(&self) -> (id: &str)
        ensures
            id@ == self@.id,
    {
        self.id.as_str()
    }

    /// The secret that the relay shares with the peer.
    pub fn get_secret(&self) -> (secret: &[u8])
        ensures
            secret@ == self@.shared_secret,
    {
        self.shared_secret.as_slice()
    }
}

} // verus!
