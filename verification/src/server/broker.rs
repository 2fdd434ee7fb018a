//! The relay's loop, one event at a time.

use crate::encoding::{all_encodable, encode_feed};
use crate::handshake::{
    accept, accepted, is_public_of, rsa_opened, rsa_size, shared_secret, EphemeralKey,
    HandshakeError, DH_KEY_LEN,
};
use crate::server::{
    is_relay_of, only_writes, reads_feed, unnamed, written, Action, Client, ClientView, Event,
    EventView, InnerServer, Outgoing,
};
use crate::table::{distinct_keys, with_line, without_key};
use crate::stream::is_peer_id;
use crate::text::text_eq;
use vstd::prelude::*;

verus! {

/// The responder's part of the key exchange, and the record of the connection
/// that it opens.
///
/// `buffer` is what the initiator sent. Where the exchange is given up, no
/// record is made. Otherwise the record is that of the peer whose identifier
/// the buffer ends in, unnamed, under the secret that the exchange derived.
pub fn new_peer(
    key: &rsa::RsaPrivateKey,
    ephemeral: EphemeralKey,
    buffer: &[u8],
    server_id: String,
) -> (r: Result<Client, HandshakeError>)
    ensures
        match accepted(*key, ephemeral.scalar(), buffer@) {
            Ok(done) => {
                &&& r is Ok
                &&& r->Ok_0@ == (ClientView {
                    id: done.0,
                    server_id: server_id@,
                    shared_secret: done.1,
                    username: unnamed(),
                })
                &&& is_peer_id(done.0)
                &&& done.1.len() == crate::DIGEST_LEN
            },
            Err(e) => r is Err && r->Err_0 == e,
        },
        r is Ok ==> forall|other: Seq<u8>| #[trigger]
            is_public_of(
                rsa_opened(*key, buffer@.take(rsa_size(*key) as int))->0.take(DH_KEY_LEN as int),
                other,
            ) ==> r->Ok_0@.shared_secret == shared_secret(other, ephemeral.public()),
{
    match accept(key, ephemeral, buffer) {
        Ok((id, secret)) => Ok(Client::new(id, secret.as_slice(), server_id)),
        Err(e) => Err(e),
    }
}

/// The actions that write the given frames, in their order.
fn write_all(out: Vec<Outgoing>) -> (actions: Vec<Action>)
    ensures
        only_writes(actions@),
        written(actions@) == out@,
{
    let mut out = out;
    let ghost all = out@;
    let mut turned: Vec<Outgoing> = Vec::new();
    while out.len() > 0
        invariant
            out@ + turned@.reverse() == all,
        decreases out.len(),
    {
        let ghost rest = out@;
        let ghost so_far = turned@;
        let next = out.pop().unwrap();
        turned.push(next);
        proof {
            assert(turned@.reverse() =~= seq![next] + so_far.reverse());
            assert(rest =~= out@.push(next));
            assert(out@ + turned@.reverse() =~= rest + so_far.reverse());
        }
    }
    assert(turned@.reverse() =~= all);
    let mut actions: Vec<Action> = Vec::new();
    while turned.len() > 0
        invariant
            only_writes(actions@),
            written(actions@) + turned@.reverse() == all,
        decreases turned.len(),
    {
        let ghost rest = turned@;
        let ghost so_far = actions@;
        let next = turned.pop().unwrap();
        actions.push(Action::Write(next));
        proof {
            assert(written(actions@) =~= written(so_far).push(next));
            assert(rest.reverse() =~= seq![next] + turned@.reverse());
            assert(written(actions@) + turned@.reverse() =~= written(so_far) + rest.reverse());
        }
    }
    assert(written(actions@) =~= all) by {
        assert(turned@.reverse() =~= Seq::<Outgoing>::empty());
    }
    actions
}

/// What the relay does with one event: how its state changes, and what its
/// loop is to do.
///
/// - `SetServerId` sets the relay's identifier.
/// - `NewPeer` registers the connection under its peer's identifier.
/// - `RelayFeed` addressed to the relay is opened with the secret of the
///   connection it came from and acted on; a frame addressed to anyone else,
///   from an unknown connection or that does not open is dropped.
/// - `SendToAll` and `SendToOthers` have the feed written to the connections,
///   sealed for each under its own secret.
/// - `PeerClosed` takes the connection off the table.
pub fn broker(inner_server: &mut InnerServer, event: Event) -> (actions: Vec<Action>)
    ensures
        distinct_keys(final(inner_server).table()),
        match event@ {
            EventView::SetServerId(id) => {
                &&& final(inner_server).relay_id() == id
                &&& final(inner_server).table() == old(inner_server).table()
                &&& actions@.len() == 0
            },
            EventView::NewPeer(client) => {
                &&& final(inner_server).relay_id() == old(inner_server).relay_id()
                &&& final(inner_server).table() == with_line(
                    old(inner_server).table(),
                    client.id,
                    client,
                )
                &&& actions@.len() == 0
            },
            EventView::RelayFeed(from, to, ciphertext) => {
                &&& final(inner_server).relay_id() == old(inner_server).relay_id()
                &&& if to == old(inner_server).relay_id() {
                    reads_feed(
                        old(inner_server).table(),
                        final(inner_server).table(),
                        from,
                        ciphertext,
                        actions@,
                    )
                } else {
                    &&& final(inner_server).table() == old(inner_server).table()
                    &&& actions@.len() == 0
                }
            },
            EventView::SendToAll(feed) => {
                &&& final(inner_server).relay_id() == old(inner_server).relay_id()
                &&& final(inner_server).table() == old(inner_server).table()
                &&& only_writes(actions@)
                &&& all_encodable(feed) ==> is_relay_of(
                    written(actions@),
                    old(inner_server).table(),
                    None,
                    old(inner_server).relay_id(),
                    encode_feed(feed),
                )
                &&& !all_encodable(feed) ==> actions@.len() == 0
            },
            EventView::SendToOthers(sender, feed) => {
                &&& final(inner_server).relay_id() == old(inner_server).relay_id()
                &&& final(inner_server).table() == old(inner_server).table()
                &&& only_writes(actions@)
                &&& all_encodable(feed) ==> is_relay_of(
                    written(actions@),
                    old(inner_server).table(),
                    Some(sender),
                    old(inner_server).relay_id(),
                    encode_feed(feed),
                )
                &&& !all_encodable(feed) ==> actions@.len() == 0
            },
            EventView::PeerClosed(id) => {
                &&& final(inner_server).relay_id() == old(inner_server).relay_id()
                &&& final(inner_server).table() == without_key(old(inner_server).table(), id)
                &&& actions@.len() == 0
            },
        },
{
    match event {
        Event::SetServerId(id) => {
            inner_server.keys_are_distinct();
            inner_server.set_id(id);
            Vec::new()
        },
        Event::NewPeer(client) => {
            let id = String::from_str(client.get_id());
            inner_server.add_client(id, client);
            Vec::new()
        },
        Event::RelayFeed(id, recepient_id, buf) => {
            if text_eq(recepient_id.as_str(), inner_server.get_id()) {
                inner_server.read_feed(id.as_str(), buf)
            } else {
                inner_server.keys_are_distinct();
                Vec::new()
            }
        },
        Event::SendToAll(data) => {
            inner_server.keys_are_distinct();
            let out = inner_server.send_instructions_to_all(data);
            write_all(out)
        },
        Event::SendToOthers(sender_id, data) => {
            inner_server.keys_are_distinct();
            let out = inner_server.send_instructions_to_others(sender_id.as_str(), data);
            write_all(out)
        },
        Event::PeerClosed(id) => {
            inner_server.remove_client(id.as_str());
            Vec::new()
        },
    }
}

} // verus!
