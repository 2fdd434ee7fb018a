//! The relay actor: the table of connections, and what the relay does with
//! each event. One loop feeds the events in, one at a time, and carries the
//! actions out; nothing else touches the table.

use crate::encoding::{
    all_encodable, decode_feed, encode_feed, feed_is_encodable, views, Decoder, Encoder,
    Instruction, InstructionView,
};
use crate::encryption::{decrypt, open_message, KEY_LEN};
use crate::table::{
    distinct_keys, has_key, lemma_with_line, lemma_without_key, with_line, without_key,
};
use crate::text::text_eq;
use vstd::prelude::*;

mod broker;
mod client;
mod feed;

pub use broker::{broker, new_peer};
pub use client::{
    can_carry, carries, delivery, relay_author, unnamed, Client, ClientView, Outgoing,
};
pub use feed::{
    can_greet, carries_out, carry_out_all, client_after, greeting_text, handle_feed,
    lemma_client_after_keeps_identity, lemma_send_message_is_forwarded, reactions, Reaction,
};

verus! {

/// What the relay's loop is fed.
#[derive(Debug)]
pub enum Event {
    /// The relay's own identifier is known.
    SetServerId(String),
    /// A connection has completed its key exchange.
    NewPeer(Client),
    /// A frame has come in: the connection it came from, the identifier it
    /// is addressed to, and its ciphertext.
    RelayFeed(String, String, Vec<u8>),
    /// A feed is to go to every connection.
    SendToAll(Vec<Instruction>),
    /// A feed is to go to every connection but the one named.
    SendToOthers(String, Vec<Instruction>),
    /// A connection's stream has ended.
    PeerClosed(String),
}

/// An event as a mathematical value.
pub enum EventView {
    SetServerId(Seq<char>),
    NewPeer(ClientView),
    RelayFeed(Seq<char>, Seq<char>, Seq<u8>),
    SendToAll(Seq<InstructionView>),
    SendToOthers(Seq<char>, Seq<InstructionView>),
    PeerClosed(Seq<char>),
}

impl View for Event {
    type V = EventView;

    open spec fn view(&self) -> EventView {
        match self {
            Event::SetServerId(id) => EventView::SetServerId(id@),
            Event::NewPeer(client) => EventView::NewPeer(client@),
            Event::RelayFeed(from, to, ciphertext) => EventView::RelayFeed(
                from@,
                to@,
                ciphertext@,
            ),
            Event::SendToAll(feed) => EventView::SendToAll(views(feed@)),
            Event::SendToOthers(sender, feed) => EventView::SendToOthers(sender@, views(feed@)),
            Event::PeerClosed(id) => EventView::PeerClosed(id@),
        }
    }
}

/// What the relay's loop is to do after an event.
#[derive(Debug)]
pub enum Action {
    /// Write a frame to a connection.
    Write(Outgoing),
    /// Put an event at the end of the relay's queue.
    Post(Event),
}

/// The frames that a run of actions writes.
pub open spec fn written(actions: Seq<Action>) -> Seq<Outgoing> {
    actions.map_values(|action: Action| action->Write_0)
}

/// Whether every action of a run writes a frame.
pub open spec fn only_writes(actions: Seq<Action>) -> bool {
    forall|i: int| 0 <= i < actions.len() ==> (#[trigger] actions[i]) is Write
}

/// What a ciphertext from a connection opens to under the secret of that
/// connection, or `None` where it does not open.
pub open spec fn opening(client: ClientView, ciphertext: Seq<u8>) -> Option<Seq<u8>> {
    if client.shared_secret.len() == KEY_LEN {
        open_message(client.shared_secret, ciphertext)
    } else {
        None
    }
}

/// Whether `after` and `actions` are what reading a ciphertext from the
/// connection registered under `from` leaves of the table `before` and calls
/// for.
///
/// Where no connection is registered under `from`, or the ciphertext does not
/// open under its secret, nothing changes and nothing is called for.
/// Otherwise the connection's record is what the feed in the ciphertext makes
/// of it, and the actions are what that feed calls for.
pub open spec fn reads_feed(
    before: Seq<Line>,
    after: Seq<Line>,
    from: Seq<char>,
    ciphertext: Seq<u8>,
    actions: Seq<Action>,
) -> bool {
    &&& !has_key(before, from) ==> after == before && actions.len() == 0
    &&& forall|i: int|
        0 <= i < before.len() && (#[trigger] before[i]).0 == from ==> match opening(
            before[i].1,
            ciphertext,
        ) {
            None => after == before && actions.len() == 0,
            Some(data) => {
                &&& after == before.update(
                    i,
                    (from, client_after(before[i].1, decode_feed(data))),
                )
                &&& carry_out_all(actions, reactions(before[i].1, decode_feed(data)))
            },
        }
}

/// One line of the table: the identifier that the connection is registered
/// under, and its record.
pub type Line = (Seq<char>, ClientView);

/// Whether a line is sent `data` under `sender`: its record is not the one
/// left out, if one is, and the data can be sealed for it.
pub open spec fn receives(
    line: Line,
    except: Option<Seq<char>>,
    sender: Seq<char>,
    data: Seq<u8>,
) -> bool {
    &&& except matches Some(id) ==> line.1.id != id
    &&& crate::stream::can_seal(line.1.shared_secret, sender, data)
}

/// The lines that are sent `data`, in the order of the table.
pub open spec fn receivers(
    table: Seq<Line>,
    except: Option<Seq<char>>,
    sender: Seq<char>,
    data: Seq<u8>,
) -> Seq<Line>
    decreases table.len(),
{
    if table.len() == 0 {
        Seq::empty()
    } else {
        let earlier = receivers(table.drop_last(), except, sender, data);
        if receives(table.last(), except, sender, data) {
            earlier.push(table.last())
        } else {
            earlier
        }
    }
}

/// Whether `out` brings `data` to the connection of `line`: it names the line,
/// and its payload is a frame under `sender` whose ciphertext is `data` sealed
/// under the secret of that connection.
pub open spec fn brings(out: Outgoing, line: Line, sender: Seq<char>, data: Seq<u8>) -> bool {
    &&& out.recipient@ == line.0
    &&& crate::stream::is_payload(out.payload@, sender, line.1.shared_secret, data)
}

/// Whether `out` is what relaying `data` sends: one frame for each line that
/// receives it, in the order of the table, each sealed for its own line.
pub open spec fn is_relay_of(
    out: Seq<Outgoing>,
    table: Seq<Line>,
    except: Option<Seq<char>>,
    sender: Seq<char>,
    data: Seq<u8>,
) -> bool {
    let to = receivers(table, except, sender, data);
    &&& out.len() == to.len()
    &&& forall|i: int| 0 <= i < out.len() ==> brings(#[trigger] out[i], to[i], sender, data)
}

/// Where every line receives the data, the receivers are the whole table.
pub proof fn lemma_all_receive(
    table: Seq<Line>,
    except: Option<Seq<char>>,
    sender: Seq<char>,
    data: Seq<u8>,
)
    requires
        forall|i: int| 0 <= i < table.len() ==> receives(#[trigger] table[i], except, sender, data),
    ensures
        receivers(table, except, sender, data) == table,
    decreases table.len(),
{
    if table.len() > 0 {
        let earlier = table.drop_last();
        assert forall|i: int| 0 <= i < earlier.len() implies receives(
            #[trigger] earlier[i],
            except,
            sender,
            data,
        ) by {
            assert(earlier[i] == table[i]);
        }
        lemma_all_receive(earlier, except, sender, data);
        assert(receives(table.last(), except, sender, data));
        assert(earlier.push(table.last()) =~= table);
    } else {
        assert(receivers(table, except, sender, data) =~= table);
    }
}

/// Where everyone can be sent the data and no one is left out, everyone
/// receives it.
pub proof fn lemma_everyone_receives(table: Seq<Line>, sender: Seq<char>, data: Seq<u8>)
    requires
        forall|i: int|
            0 <= i < table.len() ==> crate::stream::can_seal(
                (#[trigger] table[i]).1.shared_secret,
                sender,
                data,
            ),
    ensures
        receivers(table, None, sender, data) == table,
{
    assert forall|i: int| 0 <= i < table.len() implies receives(
        #[trigger] table[i],
        None,
        sender,
        data,
    ) by {}
    lemma_all_receive(table, None, sender, data);
}

/// Whether no two records of a table are of the same peer.
pub open spec fn distinct_peers(table: Seq<Line>) -> bool {
    forall|i: int, j: int|
        0 <= i < table.len() && 0 <= j < table.len() && i != j ==> (#[trigger] table[i]).1.id != (
        #[trigger] table[j]).1.id
}

/// Where everyone can be sent the data and the peer of one line is left out,
/// everyone but that line receives it.
pub proof fn lemma_everyone_else_receives(
    table: Seq<Line>,
    from: int,
    sender: Seq<char>,
    data: Seq<u8>,
)
    requires
        0 <= from < table.len(),
        distinct_peers(table),
        forall|i: int|
            0 <= i < table.len() ==> crate::stream::can_seal(
                (#[trigger] table[i]).1.shared_secret,
                sender,
                data,
            ),
    ensures
        receivers(table, Some(table[from].1.id), sender, data) == table.remove(from),
    decreases table.len(),
{
    let except = Some(table[from].1.id);
    let earlier = table.drop_last();
    let last = table.len() - 1;
    assert forall|i: int| 0 <= i < earlier.len() implies crate::stream::can_seal(
        (#[trigger] earlier[i]).1.shared_secret,
        sender,
        data,
    ) by {
        assert(earlier[i] == table[i]);
    }
    if from == last {
        assert forall|i: int| 0 <= i < earlier.len() implies receives(
            #[trigger] earlier[i],
            except,
            sender,
            data,
        ) by {
            assert(earlier[i] == table[i]);
            assert(table[i].1.id != table[from].1.id);
        }
        lemma_all_receive(earlier, except, sender, data);
        assert(!receives(table.last(), except, sender, data));
        assert(earlier =~= table.remove(from));
    } else {
        assert(distinct_peers(earlier)) by {
            assert forall|i: int, j: int|
                0 <= i < earlier.len() && 0 <= j < earlier.len() && i != j implies (
            #[trigger] earlier[i]).1.id != (#[trigger] earlier[j]).1.id by {
                assert(earlier[i] == table[i]);
                assert(earlier[j] == table[j]);
            }
        }
        assert(earlier[from] == table[from]);
        lemma_everyone_else_receives(earlier, from, sender, data);
        assert(table[last].1.id != table[from].1.id);
        assert(receives(table.last(), except, sender, data));
        assert(earlier.remove(from).push(table.last()) =~= table.remove(from));
    }
}

/// A chat message from one connection reaches every connection.
///
/// Let the relay hold any number of connections, each able to be sent the
/// message, and let `out` be what relaying the message of the connection in
/// line `from` sends. Then `out` has one frame for every line of the table,
/// the line of the sender among them; the frame of a line names that line,
/// and its ciphertext is the delivery of the content under the sender's name,
/// sealed under the secret of that line's own connection.
pub proof fn lemma_message_reaches_every_connection(
    table: Seq<Line>,
    from: int,
    content: Seq<char>,
    relay_id: Seq<char>,
    out: Seq<Outgoing>,
)
    requires
        0 <= from < table.len(),
        forall|i: int|
            0 <= i < table.len() ==> can_carry(
                (#[trigger] table[i]).1,
                relay_id,
                delivery(table[from].1.username, content),
            ),
        is_relay_of(
            out,
            table,
            None,
            relay_id,
            encode_feed(delivery(table[from].1.username, content)),
        ),
    ensures
        out.len() == table.len(),
        forall|i: int|
            0 <= i < table.len() ==> {
                &&& (#[trigger] out[i]).recipient@ == table[i].0
                &&& crate::stream::is_payload(
                    out[i].payload@,
                    relay_id,
                    table[i].1.shared_secret,
                    encode_feed(delivery(table[from].1.username, content)),
                )
            },
{
    let data = encode_feed(delivery(table[from].1.username, content));
    assert forall|i: int| 0 <= i < table.len() implies crate::stream::can_seal(
        (#[trigger] table[i]).1.shared_secret,
        relay_id,
        data,
    ) by {
        assert(can_carry(table[i].1, relay_id, delivery(table[from].1.username, content)));
    }
    lemma_everyone_receives(table, relay_id, data);
    assert forall|i: int| 0 <= i < table.len() implies {
        &&& (#[trigger] out[i]).recipient@ == table[i].0
        &&& crate::stream::is_payload(out[i].payload@, relay_id, table[i].1.shared_secret, data)
    } by {
        assert(brings(out[i], table[i], relay_id, data));
    }
}

/// A chat message sent to the others reaches every connection but the
/// sender's.
///
/// Let the relay hold any number of connections of different peers, each able
/// to be sent the message, and let `out` be what relaying the message of the
/// connection in line `from` to the others sends. Then `out` has one frame
/// for every line of the table but that of the sender, in the order of the
/// table; the frame of a line names that line, and its ciphertext is the
/// delivery of the content under the sender's name, sealed under the secret
/// of that line's own connection.
pub proof fn lemma_message_reaches_every_other_connection(
    table: Seq<Line>,
    from: int,
    content: Seq<char>,
    relay_id: Seq<char>,
    out: Seq<Outgoing>,
)
    requires
        0 <= from < table.len(),
        distinct_peers(table),
        forall|i: int|
            0 <= i < table.len() ==> can_carry(
                (#[trigger] table[i]).1,
                relay_id,
                delivery(table[from].1.username, content),
            ),
        is_relay_of(
            out,
            table,
            Some(table[from].1.id),
            relay_id,
            encode_feed(delivery(table[from].1.username, content)),
        ),
    ensures
        out.len() == table.len() - 1,
        forall|i: int|
            0 <= i < from ==> brings(
                #[trigger] out[i],
                table[i],
                relay_id,
                encode_feed(delivery(table[from].1.username, content)),
            ),
        forall|i: int|
            from < i < table.len() ==> brings(
                out[i - 1],
                #[trigger] table[i],
                relay_id,
                encode_feed(delivery(table[from].1.username, content)),
            ),
{
    let data = encode_feed(delivery(table[from].1.username, content));
    assert forall|i: int| 0 <= i < table.len() implies crate::stream::can_seal(
        (#[trigger] table[i]).1.shared_secret,
        relay_id,
        data,
    ) by {
        assert(can_carry(table[i].1, relay_id, delivery(table[from].1.username, content)));
    }
    lemma_everyone_else_receives(table, from, relay_id, data);
    let to = table.remove(from);
    assert forall|i: int| 0 <= i < from implies brings(
        #[trigger] out[i],
        table[i],
        relay_id,
        data,
    ) by {
        assert(to[i] == table[i]);
    }
    assert forall|i: int| from < i < table.len() implies brings(
        out[i - 1],
        #[trigger] table[i],
        relay_id,
        data,
    ) by {
        assert(to[i - 1] == table[i]);
        assert(brings(out[i - 1], to[i - 1], relay_id, data));
    }
}

/// One line of the table as it is held.
#[derive(Debug)]
struct Entry {
    key: String,
    client: Client,
}

/// The lines that a run of entries stands for.
spec fn lines(entries: Seq<Entry>) -> Seq<Line> {
    entries.map_values(|entry: Entry| (entry.key@, entry.client@))
}

/// The state of the relay: the table of connections and the relay's own
/// identifier.
#[derive(Debug)]
pub struct InnerServer {
    clients: Vec<Entry>,
    id: String,
}

impl InnerServer {
    /// The table of connections, in the order in which their identifiers were
    /// first registered.
    pub closed spec fn table(&self) -> Seq<Line> {
        lines(self.clients@)
    }

    /// The relay's own identifier.
    pub closed spec fn relay_id(&self) -> Seq<char> {
        self.id@
    }

    #[verifier::type_invariant]
    spec fn well_formed(self) -> bool {
        distinct_keys(self.table())
    }

    /// A relay that has no connection and no identifier yet.
    pub fn new() -> (server: Self)
        ensures
            server.table() == Seq::<Line>::empty(),
            server.relay_id() == Seq::<char>::empty(),
    {
        let server = Self { clients: Vec::new(), id: String::new() };
        assert(server.table() =~= Seq::<Line>::empty());
        server
    }

    /// The place of the line registered under `id`, if there is one.
    fn find(&self, id: &str) -> (place: Option<usize>)
        ensures
            place is Some <==> has_key(self.table(), id@),
            place matches Some(i) ==> i < self.table().len() && self.table()[i as int].0 == id@,
    {
        let mut i: usize = 0;
        while i < self.clients.len()
            invariant
                i <= self.clients.len(),
                forall|k: int| 0 <= k < i ==> (#[trigger] self.table()[k]).0 != id@,
            decreases self.clients.len() - i,
        {
            if text_eq(self.clients[i].key.as_str(), id) {
                assert(self.table()[i as int].0 == id@);
                return Some(i);
            }
            i = i + 1;
        }
        None
    }

    /// The number of connections.
    pub fn len(&self) -> (count: usize)
        ensures
            count == self.table().len(),
    {
        self.clients.len()
    }

    /// Whether a connection is registered under `id`.
    pub fn has_client(&self, id: &str) -> (found: bool)
        ensures
            found == has_key(self.table(), id@),
    {
        self.find(id).is_some()
    }

    /// Registers `client` under `id`, in the place of the connection that was
    /// registered under it, if one was.
    pub fn add_client(&mut self, id: String, client: Client)
        ensures
            final(self).table() == with_line(old(self).table(), id@, client@),
            final(self).relay_id() == old(self).relay_id(),
            distinct_keys(final(self).table()),
    {
        proof {
            use_type_invariant(&*self);
            lemma_with_line(self.table(), id@, client@);
        }
        let ghost before = self.table();
        let place = self.find(id.as_str());
        let mut clients: Vec<Entry> = Vec::new();
        core::mem::swap(&mut self.clients, &mut clients);
        match place {
            Some(i) => {
                clients.set(i, Entry { key: id, client });
                assert(lines(clients@) =~= before.update(i as int, (id@, client@)));
            },
            None => {
                clients.push(Entry { key: id, client });
                assert(lines(clients@) =~= before.push((id@, client@)));
            },
        }
        self.clients = clients;
    }

    /// Takes the connection registered under `id` off the table.
    pub fn remove_client(&mut self, id: &str)
        ensures
            final(self).table() == without_key(old(self).table(), id@),
            !has_key(final(self).table(), id@),
            final(self).relay_id() == old(self).relay_id(),
            distinct_keys(final(self).table()),
    {
        proof {
            use_type_invariant(&*self);
            lemma_without_key(self.table(), id@);
        }
        let ghost before = self.table();
        match self.find(id) {
            Some(i) => {
                let mut clients: Vec<Entry> = Vec::new();
                core::mem::swap(&mut self.clients, &mut clients);
                let _ = clients.remove(i);
                assert(lines(clients@) =~= before.remove(i as int));
                self.clients = clients;
            },
            None => {},
        }
    }

    /// Recalls that no two connections are registered under one identifier.
    pub(crate) fn keys_are_distinct(&self)
        ensures
            distinct_keys(self.table()),
    {
        proof {
            use_type_invariant(self);
        }
    }

    /// Reads a ciphertext that came in on the connection registered under
    /// `id`: opens it under the connection's secret, decodes the feed in it
    /// and acts on the feed.
    pub fn read_feed(&mut self, id: &str, buff: Vec<u8>) -> (actions: Vec<Action>)
        ensures
            reads_feed(old(self).table(), final(self).table(), id@, buff@, actions@),
            final(self).relay_id() == old(self).relay_id(),
            distinct_keys(final(self).table()),
    {
        proof {
            use_type_invariant(&*self);
        }
        let ghost before = self.table();
        match self.find(id) {
            Some(i) => {
                let ghost line = before[i as int];
                assert forall|k: int|
                    0 <= k < before.len() && (#[trigger] before[k]).0 == id@ implies k == i by {
                    if k != i {
                        assert(before[k].0 != before[i as int].0);
                    }
                }
                let mut clients: Vec<Entry> = Vec::new();
                core::mem::swap(&mut self.clients, &mut clients);
                let mut entry = clients.remove(i);
                assert((entry.key@, entry.client@) == line);
                assert(lines(clients@) =~= before.remove(i as int));
                let actions = match decrypt(entry.client.get_secret(), buff) {
                    Ok(decrypted_buff) => {
                        let decoder = Decoder::from_bytes(decrypted_buff);
                        proof {
                            lemma_client_after_keeps_identity(line.1, views(decoder.feed@));
                        }
                        handle_feed(&mut entry.client, decoder.feed)
                    },
                    Err(_) => Vec::new(),
                };
                let ghost now = (entry.key@, entry.client@);
                clients.insert(i, entry);
                proof {
                    assert(lines(clients@) =~= before.update(i as int, now));
                    if opening(line.1, buff@) is None {
                        assert(now == line);
                        assert(lines(clients@) =~= before);
                    }
                    assert(distinct_keys(lines(clients@))) by {
                        assert forall|a: int, b: int|
                            0 <= a < before.len() && 0 <= b < before.len() && a != b implies (
                        #[trigger] lines(clients@)[a]).0 != (#[trigger] lines(clients@)[b]).0 by {
                            assert(before[a].0 != before[b].0);
                        }
                    }
                }
                self.clients = clients;
                actions
            },
            None => Vec::new(),
        }
    }

    /// Sets the relay's own identifier.
    pub fn set_id(&mut self, id: String)
        ensures
            final(self).relay_id() == id@,
            final(self).table() == old(self).table(),
    {
        proof {
            use_type_invariant(&*self);
        }
        self.id = id;
    }

    /// The relay's own identifier.
    pub fn get_id(&self) -> (id: &str)
        ensures
            id@ == self.relay_id(),
    {
        self.id.as_str()
    }

    /// What sending `buff` to the connections sends, all of them or all but
    /// the one whose record has the identifier `except`.
    fn relay(&self, except: Option<&str>, buff: &[u8]) -> (out: Vec<Outgoing>)
        ensures
            is_relay_of(
                out@,
                self.table(),
                match except {
                    Some(id) => Some(id@),
                    None => None,
                },
                self.relay_id(),
                buff@,
            ),
    {
        let ghost left_out: Option<Seq<char>> = match except {
            Some(id) => Some(id@),
            None => None,
        };
        let ghost table = self.table();
        let ghost sender = self.relay_id();
        let mut out: Vec<Outgoing> = Vec::new();
        let mut i: usize = 0;
        while i < self.clients.len()
            invariant
                i <= self.clients.len(),
                table == self.table(),
                sender == self.relay_id(),
                left_out == (match except {
                    Some(id) => Some(id@),
                    None => None,
                }),
                is_relay_of(out@, table.take(i as int), left_out, sender, buff@),
            decreases self.clients.len() - i,
        {
            let entry = &self.clients[i];
            let ghost line = table[i as int];
            let ghost seen = table.take(i as int + 1);
            proof {
                assert(seen.drop_last() =~= table.take(i as int));
                assert(seen.last() == line);
            }
            let skip = match except {
                Some(id) => text_eq(entry.client.get_id(), id),
                None => false,
            };
            if !skip {
                match entry.client.make_payload(self.id.as_str(), buff) {
                    Some(payload) => {
                        let sent = Outgoing { recipient: entry.key.clone(), payload };
                        let ghost earlier = out@;
                        out.push(sent);
                        proof {
                            assert(receives(line, left_out, sender, buff@));
                            let to = receivers(seen, left_out, sender, buff@);
                            assert forall|k: int| 0 <= k < out@.len() implies brings(
                                #[trigger] out@[k],
                                to[k],
                                sender,
                                buff@,
                            ) by {
                                if k < earlier.len() {
                                    assert(out@[k] == earlier[k]);
                                }
                            }
                        }
                    },
                    None => {
                        assert(!receives(line, left_out, sender, buff@));
                    },
                }
            } else {
                assert(!receives(line, left_out, sender, buff@));
            }
            i = i + 1;
        }
        assert(table.take(self.clients.len() as int) =~= table);
        out
    }

    /// What sending `buff` to the connection registered under `id` sends:
    /// one frame, or none where no connection is registered under it or the
    /// data cannot be sealed for it.
    pub fn relay_data_to_recepient(&self, id: &String, buff: &[u8]) -> (out: Option<Outgoing>)
        ensures
            out is Some <==> exists|i: int|
                0 <= i < self.table().len() && (#[trigger] self.table()[i]).0 == id@ && receives(
                    self.table()[i],
                    None,
                    self.relay_id(),
                    buff@,
                ),
            out matches Some(sent) ==> forall|i: int|
                0 <= i < self.table().len() && (#[trigger] self.table()[i]).0 == id@ ==> brings(
                    sent,
                    self.table()[i],
                    self.relay_id(),
                    buff@,
                ),
    {
        proof {
            use_type_invariant(self);
        }
        match self.find(id.as_str()) {
            Some(i) => {
                let entry = &self.clients[i];
                assert(self.table()[i as int] == (entry.key@, entry.client@));
                match entry.client.make_payload(self.id.as_str(), buff) {
                    Some(payload) => Some(Outgoing { recipient: entry.key.clone(), payload }),
                    None => None,
                }
            },
            None => None,
        }
    }

    /// What sending `buff` to every connection sends.
    pub fn relay_data_to_all(&self, buff: &[u8]) -> (out: Vec<Outgoing>)
        ensures
            is_relay_of(out@, self.table(), None, self.relay_id(), buff@),
    {
        self.relay(None, buff)
    }

    /// What sending `buff` to every connection but the one whose record has
    /// the identifier `id` sends.
    pub fn relay_data_to_others(&self, id: &str, buff: &[u8]) -> (out: Vec<Outgoing>)
        ensures
            is_relay_of(out@, self.table(), Some(id@), self.relay_id(), buff@),
    {
        self.relay(Some(id), buff)
    }

    /// What sending `feed` to every connection sends; nothing where the feed
    /// cannot be encoded.
    pub fn send_instructions_to_all(&self, feed: Vec<Instruction>) -> (out: Vec<Outgoing>)
        ensures
            all_encodable(views(feed@)) ==> is_relay_of(
                out@,
                self.table(),
                None,
                self.relay_id(),
                encode_feed(views(feed@)),
            ),
            !all_encodable(views(feed@)) ==> out@.len() == 0,
    {
        if !feed_is_encodable(&feed) {
            return Vec::new();
        }
        let data = Encoder::from_feed(feed).writer.dump();
        self.relay_data_to_all(data.as_slice())
    }

    /// What sending `feed` to every connection but the sender's sends; nothing
    /// where the feed cannot be encoded.
    pub fn send_instructions_to_others(&self, sender_id: &str, feed: Vec<Instruction>) -> (out:
        Vec<Outgoing>)
        ensures
            all_encodable(views(feed@)) ==> is_relay_of(
                out@,
                self.table(),
                Some(sender_id@),
                self.relay_id(),
                encode_feed(views(feed@)),
            ),
            !all_encodable(views(feed@)) ==> out@.len() == 0,
    {
        if !feed_is_encodable(&feed) {
            return Vec::new();
        }
        let data = Encoder::from_feed(feed).writer.dump();
        self.relay_data_to_others(sender_id, data.as_slice())
    }
}

} // verus!
