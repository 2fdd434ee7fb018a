use relay_chat::encoding::{Decoder, Encoder, Instruction, Reader};
use relay_chat::encryption::{decrypt, encrypt, CipherError};
use relay_chat::hex_hash;
use relay_chat::server::{broker, handle_feed, Action, Client, Event, InnerServer, Outgoing};
use relay_chat::stream::read_stream;

fn id_of(name: &str) -> String {
    hex_hash(name.as_bytes())
}

fn secret_of(name: &str) -> Vec<u8> {
    relay_chat::hash(name.as_bytes())
}

fn relay_with(names: &[&str]) -> InnerServer {
    let mut relay = InnerServer::new();
    assert!(broker(&mut relay, Event::SetServerId(id_of("relay"))).is_empty());
    for name in names {
        let client = Client::new(id_of(name), &secret_of(name), id_of("relay"));
        assert!(broker(&mut relay, Event::NewPeer(client)).is_empty());
    }
    relay
}

fn sealed_feed(name: &str, feed: Vec<Instruction>) -> Vec<u8> {
    encrypt(&secret_of(name), &Encoder::from_feed(feed).writer.dump()).unwrap()
}

fn open_payload(name: &str, payload: &[u8]) -> (String, Vec<Instruction>) {
    let mut stream = Reader::from_bytes(payload.to_vec());
    let (sender, ciphertext) = read_stream(&mut stream).unwrap();
    assert_eq!(stream.remaining(), 0);
    let data = decrypt(&secret_of(name), ciphertext).unwrap();
    (sender, Decoder::from_bytes(data).feed)
}

fn writes(actions: Vec<Action>) -> Vec<Outgoing> {
    actions
        .into_iter()
        .map(|action| match action {
            Action::Write(out) => out,
            Action::Post(event) => panic!("unexpected {:?}", event),
        })
        .collect()
}

fn posts(actions: Vec<Action>) -> Vec<Event> {
    actions
        .into_iter()
        .map(|action| match action {
            Action::Post(event) => event,
            Action::Write(out) => panic!("unexpected {:?}", out),
        })
        .collect()
}

#[test]
fn new_relay_is_empty() {
    let relay = InnerServer::new();
    assert_eq!(relay.len(), 0);
    assert_eq!(relay.get_id(), "");
    assert!(!relay.has_client(&id_of("alice")));
}

#[test]
fn set_id_and_get_id() {
    let mut relay = InnerServer::new();
    relay.set_id(id_of("relay"));
    assert_eq!(relay.get_id(), id_of("relay"));
}

#[test]
fn new_client_is_unnamed() {
    let client = Client::new(id_of("alice"), &[1u8; 32], id_of("relay"));
    assert_eq!(client.get_id(), id_of("alice"));
    assert_eq!(client.get_secret(), &[1u8; 32]);
    assert_eq!(client.username, "Unknown");
}

#[test]
fn add_client_registers_and_replaces() {
    let mut relay = relay_with(&["alice", "bob"]);
    assert_eq!(relay.len(), 2);
    assert!(relay.has_client(&id_of("alice")));
    assert!(relay.has_client(&id_of("bob")));
    assert!(!relay.has_client(&id_of("carol")));
    // the same identifier again: the record is replaced in its place
    let again = Client::new(id_of("alice"), &secret_of("alice again"), id_of("relay"));
    relay.add_client(id_of("alice"), again);
    assert_eq!(relay.len(), 2);
    let out = relay.relay_data_to_all(b"x");
    assert_eq!(out[0].recipient, id_of("alice"));
    assert_eq!(out[1].recipient, id_of("bob"));
    let mut stream = Reader::from_bytes(out[0].payload.clone());
    let (_, ciphertext) = read_stream(&mut stream).unwrap();
    assert_eq!(
        decrypt(&secret_of("alice again"), ciphertext.clone()).unwrap(),
        b"x"
    );
    assert_eq!(
        decrypt(&secret_of("alice"), ciphertext),
        Err(CipherError::Rejected)
    );
}

#[test]
fn closed_peer_is_taken_off_the_table() {
    let mut relay = relay_with(&["alice", "bob", "carol"]);
    assert!(broker(&mut relay, Event::PeerClosed(id_of("bob"))).is_empty());
    assert_eq!(relay.len(), 2);
    assert!(!relay.has_client(&id_of("bob")));
    let out = relay.relay_data_to_all(b"x");
    assert_eq!(out.len(), 2);
    assert_eq!(out[0].recipient, id_of("alice"));
    assert_eq!(out[1].recipient, id_of("carol"));
    // a peer that is not there
    relay.remove_client(&id_of("nobody"));
    assert_eq!(relay.len(), 2);
}

#[test]
fn relay_to_all_seals_for_each_connection() {
    let relay = relay_with(&["alice", "bob", "carol"]);
    let out = relay.relay_data_to_all(b"to everyone");
    assert_eq!(out.len(), 3);
    for (sent, name) in out.iter().zip(["alice", "bob", "carol"]) {
        assert_eq!(sent.recipient, id_of(name));
        let mut stream = Reader::from_bytes(sent.payload.clone());
        let (sender, ciphertext) = read_stream(&mut stream).unwrap();
        assert_eq!(sender, id_of("relay"));
        assert_eq!(
            decrypt(&secret_of(name), ciphertext.clone()).unwrap(),
            b"to everyone"
        );
        for other in ["alice", "bob", "carol"] {
            if other != name {
                assert_eq!(
                    decrypt(&secret_of(other), ciphertext.clone()),
                    Err(CipherError::Rejected)
                );
            }
        }
    }
}

#[test]
fn relay_to_others_leaves_the_sender_out() {
    let relay = relay_with(&["alice", "bob", "carol"]);
    let out = relay.relay_data_to_others(&id_of("bob"), b"x");
    assert_eq!(out.len(), 2);
    assert_eq!(out[0].recipient, id_of("alice"));
    assert_eq!(out[1].recipient, id_of("carol"));
    let out = relay.relay_data_to_others(&id_of("nobody"), b"x");
    assert_eq!(out.len(), 3);
}

#[test]
fn relay_to_recipient() {
    let relay = relay_with(&["alice", "bob"]);
    let sent = relay.relay_data_to_recepient(&id_of("bob"), b"x").unwrap();
    assert_eq!(sent.recipient, id_of("bob"));
    let mut stream = Reader::from_bytes(sent.payload);
    let (_, ciphertext) = read_stream(&mut stream).unwrap();
    assert_eq!(decrypt(&secret_of("bob"), ciphertext).unwrap(), b"x");
    assert_eq!(relay.relay_data_to_recepient(&id_of("carol"), b"x"), None);
}

#[test]
fn relay_without_identifier_sends_nothing() {
    let mut relay = InnerServer::new();
    relay.add_client(
        id_of("alice"),
        Client::new(id_of("alice"), &secret_of("alice"), String::new()),
    );
    assert!(relay.relay_data_to_all(b"x").is_empty());
}

#[test]
fn connection_with_a_bad_secret_is_passed_over() {
    let mut relay = relay_with(&["alice"]);
    relay.add_client(
        id_of("broken"),
        Client::new(id_of("broken"), &[1u8; 5], id_of("relay")),
    );
    relay.add_client(
        id_of("bob"),
        Client::new(id_of("bob"), &secret_of("bob"), id_of("relay")),
    );
    let out = relay.relay_data_to_all(b"x");
    assert_eq!(out.len(), 2);
    assert_eq!(out[0].recipient, id_of("alice"));
    assert_eq!(out[1].recipient, id_of("bob"));
}

#[test]
fn send_instructions_to_all_and_to_others() {
    let relay = relay_with(&["alice", "bob"]);
    let feed = vec![Instruction::ReceiveMessage(
        "alice".to_string(),
        "hi".to_string(),
    )];
    let out = relay.send_instructions_to_all(feed.clone());
    assert_eq!(out.len(), 2);
    assert_eq!(open_payload("alice", &out[0].payload).1, feed);
    assert_eq!(open_payload("bob", &out[1].payload).1, feed);
    let out = relay.send_instructions_to_others(&id_of("alice"), feed.clone());
    assert_eq!(out.len(), 1);
    assert_eq!(out[0].recipient, id_of("bob"));
    assert_eq!(open_payload("bob", &out[0].payload), (id_of("relay"), feed));
}

#[test]
fn client_make_payload_and_send() {
    let client = Client::new(id_of("alice"), &secret_of("alice"), id_of("relay"));
    let payload = client.make_payload(&id_of("relay"), b"data").unwrap();
    assert_eq!(&payload[..8], &[0, 0, 0, 0, 0, 0, 0, 32]);
    assert_eq!(&payload[8..72], id_of("relay").as_bytes());
    assert_eq!(payload.len(), 72 + 12 + 4 + 16);
    assert_eq!(client.make_payload("relay", b"data"), None);
    let sent = client.make_and_send(&id_of("relay"), b"data").unwrap();
    assert_eq!(sent.recipient, id_of("alice"));
    let mut stream = Reader::from_bytes(sent.payload);
    let (_, ciphertext) = read_stream(&mut stream).unwrap();
    assert_eq!(decrypt(&secret_of("alice"), ciphertext).unwrap(), b"data");
}

#[test]
fn client_events() {
    let mut client = Client::new(id_of("alice"), &secret_of("alice"), id_of("relay"));
    client.set_username("alice".to_string());
    assert_eq!(client.username, "alice");
    let feed = vec![Instruction::NOP];
    match client.send_to_all(feed.clone()) {
        Event::SendToAll(sent) => assert_eq!(sent, feed),
        other => panic!("unexpected {:?}", other),
    }
    match client.send_to_others(feed.clone()) {
        Event::SendToOthers(sender, sent) => {
            assert_eq!(sender, id_of("alice"));
            assert_eq!(sent, feed);
        }
        other => panic!("unexpected {:?}", other),
    }
    match client.send_message("hi".to_string()) {
        Event::SendToAll(sent) => assert_eq!(
            sent,
            vec![Instruction::ReceiveMessage(
                "alice".to_string(),
                "hi".to_string()
            )]
        ),
        other => panic!("unexpected {:?}", other),
    }
}

#[test]
fn client_local_messages_come_from_the_relay() {
    let client = Client::new(id_of("alice"), &secret_of("alice"), id_of("relay"));
    let sent = client.send_local_message("welcome".to_string()).unwrap();
    assert_eq!(sent.recipient, id_of("alice"));
    assert_eq!(
        open_payload("alice", &sent.payload),
        (
            id_of("relay"),
            vec![Instruction::ReceiveMessage(
                "Server".to_string(),
                "welcome".to_string()
            )]
        )
    );
    let sent = client
        .send_local_instructions(vec![Instruction::NOP, Instruction::NOP])
        .unwrap();
    assert_eq!(
        open_payload("alice", &sent.payload).1,
        vec![Instruction::NOP, Instruction::NOP]
    );
}

#[test]
fn handle_feed_names_greets_and_forwards() {
    let mut client = Client::new(id_of("alice"), &secret_of("alice"), id_of("relay"));
    let actions = handle_feed(
        &mut client,
        vec![
            Instruction::SendMessage("early".to_string()),
            Instruction::Instantiate("alice".to_string()),
            Instruction::NOP,
            Instruction::ReceiveMessage("x".to_string(), "y".to_string()),
            Instruction::SendMessage("hi".to_string()),
        ],
    );
    assert_eq!(client.username, "alice");
    assert_eq!(actions.len(), 3);
    let mut actions = actions.into_iter();
    match actions.next().unwrap() {
        Action::Post(Event::SendToAll(feed)) => assert_eq!(
            feed,
            vec![Instruction::ReceiveMessage(
                "Unknown".to_string(),
                "early".to_string()
            )]
        ),
        other => panic!("unexpected {:?}", other),
    }
    match actions.next().unwrap() {
        Action::Write(sent) => {
            assert_eq!(sent.recipient, id_of("alice"));
            assert_eq!(
                open_payload("alice", &sent.payload),
                (
                    id_of("relay"),
                    vec![Instruction::ReceiveMessage(
                        "Server".to_string(),
                        "Hi alice".to_string()
                    )]
                )
            );
        }
        other => panic!("unexpected {:?}", other),
    }
    match actions.next().unwrap() {
        Action::Post(Event::SendToAll(feed)) => assert_eq!(
            feed,
            vec![Instruction::ReceiveMessage(
                "alice".to_string(),
                "hi".to_string()
            )]
        ),
        other => panic!("unexpected {:?}", other),
    }
}

#[test]
fn read_feed_opens_with_the_connection_s_secret() {
    let mut relay = relay_with(&["alice", "bob"]);
    let frame = sealed_feed("alice", vec![Instruction::Instantiate("alice".to_string())]);
    let out = writes(relay.read_feed(&id_of("alice"), frame.clone()));
    assert_eq!(out.len(), 1);
    assert_eq!(out[0].recipient, id_of("alice"));
    assert_eq!(
        open_payload("alice", &out[0].payload).1,
        vec![Instruction::ReceiveMessage(
            "Server".to_string(),
            "Hi alice".to_string()
        )]
    );
    // sealed for alice, but said to come from bob: it does not open
    assert!(relay.read_feed(&id_of("bob"), frame.clone()).is_empty());
    // from a connection that is not there
    assert!(relay.read_feed(&id_of("carol"), frame).is_empty());
    assert_eq!(relay.len(), 2);
}

#[test]
fn tampered_frame_is_dropped_and_the_relay_goes_on() {
    let mut relay = relay_with(&["alice", "bob"]);
    let mut frame = sealed_feed("alice", vec![Instruction::SendMessage("hi".to_string())]);
    let last = frame.len() - 1;
    frame[last] ^= 0x80;
    let event = Event::RelayFeed(id_of("alice"), id_of("relay"), frame);
    assert!(broker(&mut relay, event).is_empty());
    let event = Event::RelayFeed(id_of("alice"), id_of("relay"), vec![1, 2, 3]);
    assert!(broker(&mut relay, event).is_empty());
    let frame = sealed_feed("alice", vec![Instruction::SendMessage("hi".to_string())]);
    let event = Event::RelayFeed(id_of("alice"), id_of("relay"), frame);
    assert_eq!(broker(&mut relay, event).len(), 1);
}

#[test]
fn frame_for_someone_else_is_dropped() {
    let mut relay = relay_with(&["alice", "bob"]);
    let frame = sealed_feed("alice", vec![Instruction::SendMessage("hi".to_string())]);
    let event = Event::RelayFeed(id_of("alice"), id_of("bob"), frame);
    assert!(broker(&mut relay, event).is_empty());
    assert_eq!(relay.len(), 2);
}

#[test]
fn message_from_one_connection_reaches_every_connection() {
    let names = ["alice", "bob", "carol", "dave"];
    let mut relay = relay_with(&names);
    let hello = sealed_feed("alice", vec![Instruction::Instantiate("alice".to_string())]);
    let greeted = broker(
        &mut relay,
        Event::RelayFeed(id_of("alice"), id_of("relay"), hello),
    );
    assert_eq!(writes(greeted).len(), 1);

    let frame = sealed_feed("alice", vec![Instruction::SendMessage("hi".to_string())]);
    let mut queued = posts(broker(
        &mut relay,
        Event::RelayFeed(id_of("alice"), id_of("relay"), frame),
    ));
    assert_eq!(queued.len(), 1);
    let out = writes(broker(&mut relay, queued.remove(0)));
    assert_eq!(out.len(), names.len());
    let expected = vec![Instruction::ReceiveMessage(
        "alice".to_string(),
        "hi".to_string(),
    )];
    for (sent, name) in out.iter().zip(names) {
        assert_eq!(sent.recipient, id_of(name));
        assert_eq!(
            open_payload(name, &sent.payload),
            (id_of("relay"), expected.clone())
        );
        let mut stream = Reader::from_bytes(sent.payload.clone());
        let (_, ciphertext) = read_stream(&mut stream).unwrap();
        for other in names {
            if other != name {
                assert_eq!(
                    decrypt(&secret_of(other), ciphertext.clone()),
                    Err(CipherError::Rejected)
                );
            }
        }
    }
}

#[test]
fn send_to_others_event_leaves_the_sender_out() {
    let mut relay = relay_with(&["alice", "bob"]);
    let feed = vec![Instruction::ReceiveMessage(
        "alice".to_string(),
        "hi".to_string(),
    )];
    let out = writes(broker(
        &mut relay,
        Event::SendToOthers(id_of("alice"), feed.clone()),
    ));
    assert_eq!(out.len(), 1);
    assert_eq!(out[0].recipient, id_of("bob"));
    assert_eq!(open_payload("bob", &out[0].payload).1, feed);
}
