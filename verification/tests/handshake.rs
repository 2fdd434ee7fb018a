use relay_chat::handshake::{
    accept, accept_opened, complete, derive_secret, greeting, hello_message, initiate,
    parse_reply, peer_public, split_hello, EphemeralKey, HandshakeError,
};
use relay_chat::server::new_peer;
use relay_chat::{hash, hex_hash};
use rsa::{RsaPrivateKey, RsaPublicKey};

const ALICE_SECRET: [u8; 32] = [
    0x77, 0x07, 0x6d, 0x0a, 0x73, 0x18, 0xa5, 0x7d, 0x3c, 0x16, 0xc1, 0x72, 0x51, 0xb2, 0x66, 0x45,
    0xdf, 0x4c, 0x2f, 0x87, 0xeb, 0xc0, 0x99, 0x2a, 0xb1, 0x77, 0xfb, 0xa5, 0x1d, 0xb9, 0x2c, 0x2a,
];
const ALICE_PUBLIC: [u8; 32] = [
    0x85, 0x20, 0xf0, 0x09, 0x89, 0x30, 0xa7, 0x54, 0x74, 0x8b, 0x7d, 0xdc, 0xb4, 0x3e, 0xf7, 0x5a,
    0x0d, 0xbf, 0x3a, 0x0d, 0x26, 0x38, 0x1a, 0xf4, 0xeb, 0xa4, 0xa9, 0x8e, 0xaa, 0x9b, 0x4e, 0x6a,
];
const BOB_SECRET: [u8; 32] = [
    0x5d, 0xab, 0x08, 0x7e, 0x62, 0x4a, 0x8a, 0x4b, 0x79, 0xe1, 0x7f, 0x8b, 0x83, 0x80, 0x0e, 0xe6,
    0x6f, 0x3b, 0xb1, 0x29, 0x26, 0x18, 0xb6, 0xfd, 0x1c, 0x2f, 0x8b, 0x27, 0xff, 0x88, 0xe0, 0xeb,
];
const BOB_PUBLIC: [u8; 32] = [
    0xde, 0x9e, 0xdb, 0x7d, 0x7b, 0x7d, 0xc1, 0xb4, 0xd3, 0x5b, 0x61, 0xc2, 0xec, 0xe4, 0x35, 0x37,
    0x3f, 0x83, 0x43, 0xc8, 0x5b, 0x78, 0x67, 0x4d, 0xad, 0xfc, 0x7e, 0x14, 0x6f, 0x88, 0x2b, 0x4f,
];
const SHARED: [u8; 32] = [
    0x4a, 0x5d, 0x9d, 0x5b, 0xa4, 0xce, 0x2d, 0xe1, 0x72, 0x8e, 0x3b, 0xf4, 0x80, 0x35, 0x0f, 0x25,
    0xe0, 0x7e, 0x21, 0xc9, 0x47, 0xd1, 0x9e, 0x33, 0x76, 0xf0, 0x9b, 0x3c, 0x1e, 0x16, 0x17, 0x42,
];

fn long_term_key() -> RsaPrivateKey {
    RsaPrivateKey::new(&mut rand::thread_rng(), 512).unwrap()
}

#[test]
fn x25519_known_answers() {
    let alice = EphemeralKey::from_secret(ALICE_SECRET.to_vec()).unwrap();
    let bob = EphemeralKey::from_secret(BOB_SECRET.to_vec()).unwrap();
    assert_eq!(alice.public_key(), ALICE_PUBLIC.to_vec());
    assert_eq!(bob.public_key(), BOB_PUBLIC.to_vec());
    assert_eq!(alice.diffie_hellman(&BOB_PUBLIC), SHARED.to_vec());
    assert_eq!(bob.diffie_hellman(&ALICE_PUBLIC), SHARED.to_vec());
}

#[test]
fn base_point_is_the_crate_s() {
    let key = EphemeralKey::from_secret(ALICE_SECRET.to_vec()).unwrap();
    assert_eq!(
        key.public_key(),
        x25519_dalek::x25519(ALICE_SECRET, x25519_dalek::X25519_BASEPOINT_BYTES).to_vec()
    );
}

#[test]
fn key_pair_needs_32_bytes() {
    assert!(EphemeralKey::from_secret(vec![1; 31]).is_none());
    assert!(EphemeralKey::from_secret(vec![1; 33]).is_none());
    assert!(EphemeralKey::from_secret(vec![]).is_none());
    assert!(EphemeralKey::from_secret(vec![1; 32]).is_some());
}

#[test]
fn generated_keys_are_fresh() {
    let a = EphemeralKey::generate();
    let b = EphemeralKey::generate();
    assert_eq!(a.public_key().len(), 32);
    assert_ne!(a.public_key(), b.public_key());
}

#[test]
fn secret_is_the_digest_of_the_shared_value() {
    let alice = EphemeralKey::from_secret(ALICE_SECRET.to_vec()).unwrap();
    assert_eq!(derive_secret(alice, &BOB_PUBLIC), hash(&SHARED));
}

#[test]
fn both_peers_derive_the_same_secret() {
    let private_key = long_term_key();
    let public_key = RsaPublicKey::from(&private_key);
    let client_id = hex_hash(b"127.0.0.1:50000");
    let server_id = hex_hash(b"127.0.0.1:8080");

    // the responder speaks first, in the clear
    let server_key = EphemeralKey::generate();
    let reply = greeting(&server_key, &server_id).unwrap();
    assert_eq!(reply.len(), 96);

    // the initiator seals its public key under the long-term key
    let (client_key, hello) = initiate(&public_key, &client_id).unwrap();
    assert_eq!(hello.len(), 64 + 64);
    assert_eq!(&hello[64..], client_id.as_bytes());

    let (seen_client, server_secret) = accept(&private_key, server_key, &hello).unwrap();
    let (seen_server, client_secret) = complete(client_key, &reply).unwrap();

    assert_eq!(seen_client, client_id);
    assert_eq!(seen_server, server_id);
    assert_eq!(client_secret.len(), 32);
    assert_eq!(client_secret, server_secret);
}

#[test]
fn new_peer_builds_the_record() {
    let private_key = long_term_key();
    let public_key = RsaPublicKey::from(&private_key);
    let client_id = hex_hash(b"client");
    let server_id = hex_hash(b"server");
    let server_key = EphemeralKey::generate();
    let reply = greeting(&server_key, &server_id).unwrap();
    let (client_key, hello) = initiate(&public_key, &client_id).unwrap();
    let client = new_peer(&private_key, server_key, &hello, server_id.clone()).unwrap();
    let (_, secret) = complete(client_key, &reply).unwrap();
    assert_eq!(client.get_id(), client_id);
    assert_eq!(client.get_secret(), &secret[..]);
    assert_eq!(client.username, "Unknown");
    assert_eq!(
        new_peer(&private_key, EphemeralKey::generate(), &[0u8; 10], server_id).err(),
        Some(HandshakeError::Malformed)
    );
}

#[test]
fn another_long_term_key_does_not_open_the_hello() {
    let private_key = long_term_key();
    let other = long_term_key();
    let client_id = hex_hash(b"client");
    let (client_key, hello) = initiate(&RsaPublicKey::from(&other), &client_id).unwrap();
    let server_key = EphemeralKey::generate();
    let reply = greeting(&server_key, &hex_hash(b"server")).unwrap();
    match accept(&private_key, server_key, &hello) {
        Err(e) => assert!(e == HandshakeError::Decryption || e == HandshakeError::Malformed),
        Ok((_, server_secret)) => {
            let (_, client_secret) = complete(client_key, &reply).unwrap();
            assert_ne!(server_secret, client_secret);
        }
    }
}

#[test]
fn initiator_needs_a_64_byte_identifier() {
    let public_key = RsaPublicKey::from(&long_term_key());
    assert_eq!(
        initiate(&public_key, "me").err(),
        Some(HandshakeError::BadPeerId)
    );
    assert_eq!(
        hello_message(&[1, 2, 3], "me"),
        Err(HandshakeError::BadPeerId)
    );
    let id = hex_hash(b"me");
    let message = hello_message(&[1, 2, 3], &id).unwrap();
    assert_eq!(&message[..3], &[1, 2, 3]);
    assert_eq!(&message[3..], id.as_bytes());
}

#[test]
fn long_term_key_too_small_for_the_public_key() {
    // a 256-bit modulus leaves room for 21 bytes, the public key has 32
    let small = RsaPrivateKey::new(&mut rand::thread_rng(), 256).unwrap();
    assert_eq!(
        initiate(&RsaPublicKey::from(&small), &hex_hash(b"me")).err(),
        Some(HandshakeError::Encryption)
    );
}

#[test]
fn greeting_is_public_key_then_identifier() {
    let key = EphemeralKey::from_secret(BOB_SECRET.to_vec()).unwrap();
    let id = hex_hash(b"relay");
    let message = greeting(&key, &id).unwrap();
    assert_eq!(&message[..32], &BOB_PUBLIC);
    assert_eq!(&message[32..], id.as_bytes());
    assert_eq!(greeting(&key, ""), Err(HandshakeError::BadPeerId));
}

#[test]
fn reply_is_taken_apart() {
    let id = hex_hash(b"relay");
    let mut reply = BOB_PUBLIC.to_vec();
    reply.extend_from_slice(id.as_bytes());
    assert_eq!(parse_reply(&reply), Ok((BOB_PUBLIC.to_vec(), id.clone())));
    assert_eq!(parse_reply(&reply[..95]), Err(HandshakeError::Malformed));
    let mut long = reply.clone();
    long.push(0);
    assert_eq!(parse_reply(&long), Err(HandshakeError::Malformed));
    assert_eq!(parse_reply(&[]), Err(HandshakeError::Malformed));
    let mut bad = reply.clone();
    bad[40] = 0xff;
    assert_eq!(parse_reply(&bad), Err(HandshakeError::BadPeerId));

    let alice = EphemeralKey::from_secret(ALICE_SECRET.to_vec()).unwrap();
    assert_eq!(complete(alice, &reply), Ok((id, hash(&SHARED))));
    let alice = EphemeralKey::from_secret(ALICE_SECRET.to_vec()).unwrap();
    assert_eq!(complete(alice, &bad), Err(HandshakeError::BadPeerId));
    let alice = EphemeralKey::from_secret(ALICE_SECRET.to_vec()).unwrap();
    assert_eq!(complete(alice, &reply[..50]), Err(HandshakeError::Malformed));
}

#[test]
fn hello_is_taken_apart() {
    let id = hex_hash(b"client");
    let mut hello = vec![7u8; 128];
    hello.extend_from_slice(id.as_bytes());
    assert_eq!(split_hello(&hello, 128), Ok((vec![7u8; 128], id.clone())));
    assert_eq!(split_hello(&hello, 127), Err(HandshakeError::Malformed));
    assert_eq!(split_hello(&hello, 129), Err(HandshakeError::Malformed));
    assert_eq!(split_hello(&hello[..63], 0), Err(HandshakeError::Malformed));
    assert_eq!(
        split_hello(&hello, usize::MAX),
        Err(HandshakeError::Malformed)
    );
    assert_eq!(split_hello(id.as_bytes(), 0), Ok((vec![], id)));
    let mut bad = hello.clone();
    bad[130] = 0xc0;
    assert_eq!(split_hello(&bad, 128), Err(HandshakeError::BadPeerId));
}

#[test]
fn opened_hello_gives_the_peer_s_public_key() {
    assert_eq!(peer_public(&ALICE_PUBLIC), Ok(ALICE_PUBLIC.to_vec()));
    let mut longer = ALICE_PUBLIC.to_vec();
    longer.extend_from_slice(&[1, 2, 3]);
    assert_eq!(peer_public(&longer), Ok(ALICE_PUBLIC.to_vec()));
    assert_eq!(
        peer_public(&ALICE_PUBLIC[..31]),
        Err(HandshakeError::Malformed)
    );
    assert_eq!(peer_public(&[]), Err(HandshakeError::Malformed));

    let bob = EphemeralKey::from_secret(BOB_SECRET.to_vec()).unwrap();
    assert_eq!(accept_opened(bob, &ALICE_PUBLIC), Ok(hash(&SHARED)));
    let bob = EphemeralKey::from_secret(BOB_SECRET.to_vec()).unwrap();
    assert_eq!(accept_opened(bob, &[0u8; 5]), Err(HandshakeError::Malformed));
}

#[test]
fn accept_refuses_malformed_hellos() {
    let private_key = long_term_key();
    let id = hex_hash(b"client");
    // too short for an identifier
    assert_eq!(
        accept(&private_key, EphemeralKey::generate(), &[0u8; 63]),
        Err(HandshakeError::Malformed)
    );
    // not the size that the key asks for
    let mut short = vec![0u8; 63];
    short.extend_from_slice(id.as_bytes());
    assert_eq!(
        accept(&private_key, EphemeralKey::generate(), &short),
        Err(HandshakeError::Malformed)
    );
    // the right size, but nothing that the key sealed
    let mut noise = vec![0xabu8; 64];
    noise.extend_from_slice(id.as_bytes());
    let r = accept(&private_key, EphemeralKey::generate(), &noise);
    assert!(r == Err(HandshakeError::Decryption) || r == Err(HandshakeError::Malformed));
    // the right size, the identifier is not text
    let mut bad = vec![0u8; 64];
    bad.extend_from_slice(&[0xff; 64]);
    assert_eq!(
        accept(&private_key, EphemeralKey::generate(), &bad),
        Err(HandshakeError::BadPeerId)
    );
}

#[test]
fn accept_gives_each_failure_its_error() {
    let private_key = long_term_key();
    let public_key = RsaPublicKey::from(&private_key);
    let id = hex_hash(b"client");
    // one byte short, one byte long
    let (_, hello) = initiate(&public_key, &id).unwrap();
    assert_eq!(
        accept(&private_key, EphemeralKey::generate(), &hello[1..]),
        Err(HandshakeError::Malformed)
    );
    let mut long = vec![0u8];
    long.extend_from_slice(&hello);
    assert_eq!(
        accept(&private_key, EphemeralKey::generate(), &long),
        Err(HandshakeError::Malformed)
    );
    // the identifier is not text: told before the key is asked
    let mut bad = hello.clone();
    let last = bad.len() - 1;
    bad[last] = 0xff;
    assert_eq!(
        accept(&private_key, EphemeralKey::generate(), &bad),
        Err(HandshakeError::BadPeerId)
    );
    // what the key opens is shorter than a public key
    let mut rng = rand::thread_rng();
    let mut short = public_key
        .encrypt(&mut rng, rsa::Pkcs1v15Encrypt, &[7u8; 31])
        .unwrap();
    short.extend_from_slice(id.as_bytes());
    assert_eq!(
        accept(&private_key, EphemeralKey::generate(), &short),
        Err(HandshakeError::Malformed)
    );
    assert_eq!(
        new_peer(&private_key, EphemeralKey::generate(), &short, hex_hash(b"relay")).err(),
        Some(HandshakeError::Malformed)
    );
    // what the key opens is longer: its first 32 bytes are the public key
    let server_key = EphemeralKey::from_secret(BOB_SECRET.to_vec()).unwrap();
    let mut opened = ALICE_PUBLIC.to_vec();
    opened.push(1);
    let mut longer = public_key
        .encrypt(&mut rng, rsa::Pkcs1v15Encrypt, &opened)
        .unwrap();
    longer.extend_from_slice(id.as_bytes());
    assert_eq!(
        accept(&private_key, server_key, &longer),
        Ok((id, hash(&SHARED)))
    );
}
