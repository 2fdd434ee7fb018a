//! The key exchange that opens a connection.
//!
//! The initiator draws an ephemeral Diffie-Hellman key, seals its public half
//! under the responder's long-term RSA key and sends it with its own
//! identifier. The responder answers in the clear with the public half of its
//! own ephemeral key and its identifier. Both hash the Diffie-Hellman value
//! into the 32-byte secret of the connection.
//!
//! Reading and sending are the caller's part: the functions here build what
//! is sent and take what was read.

use crate::encryption::random_bytes;
use crate::stream::{is_peer_id, text_is_peer_id, PEER_ID_LEN};
use crate::text::string_from_utf8;
use crate::{hash, sha3_256};
use rsa::traits::PublicKeyParts;
use rsa::Pkcs1v15Encrypt;
use vstd::prelude::*;
use vstd::slice::{slice_subrange, slice_to_vec};
use vstd::utf8::{decode_utf8, encode_utf8, valid_utf8};
use x25519_dalek::x25519;

verus! {

/// The length of a Diffie-Hellman key, public or secret, in bytes.
pub const DH_KEY_LEN: usize = 32;

/// The length of the responder's answer: its public key, then its identifier.
pub const REPLY_LEN: usize = 96;

/// The public half of a long-term RSA key pair. Its inside is not looked at.
#[verifier::external_type_specification]
#[verifier::external_body]
pub struct ExRsaPublicKey(rsa::RsaPublicKey);

/// A long-term RSA key pair. Its inside is not looked at.
#[verifier::external_type_specification]
#[verifier::external_body]
pub struct ExRsaPrivateKey(rsa::RsaPrivateKey);

/// Why a key exchange was given up.
#[derive(Debug, Clone, Copy, PartialEq, Eq)]
pub enum HandshakeError {
    /// An identifier is not 64 bytes of text.
    BadPeerId,
    /// A message of the exchange does not have the size it must have.
    Malformed,
    /// The long-term public key did not seal the ephemeral key.
    Encryption,
    /// The long-term private key did not open what the initiator sent.
    Decryption,
}

/// The X25519 function: a scalar applied to the u-coordinate of a point.
pub uninterp spec fn x25519_point(scalar: Seq<u8>, point: Seq<u8>) -> Seq<u8>;

/// The base point of X25519: the u-coordinate 9.
pub open spec fn x25519_base() -> Seq<u8> {
    Seq::new(
        DH_KEY_LEN as nat,
        |i: int|
            if i == 0 {
                9u8
            } else {
                0u8
            },
    )
}

/// The secret of a connection: the digest of the Diffie-Hellman value of one
/// side's scalar and the other side's public key.
pub open spec fn shared_secret(scalar: Seq<u8>, their_public: Seq<u8>) -> Seq<u8> {
    sha3_256(x25519_point(scalar, their_public))
}

/// Whether `point` is the public key of `scalar`: the scalar applied to the
/// base point.
pub open spec fn is_public_of(point: Seq<u8>, scalar: Seq<u8>) -> bool {
    &&& scalar.len() == DH_KEY_LEN
    &&& point == x25519_point(scalar, x25519_base())
}

/// Applies a scalar to a point with `x25519_dalek::x25519`.
///
/// Trusted: the result is 32 bytes long and is named `x25519_point` of the
/// two arguments. And the two sides of an exchange agree: where the point is
/// the public key of some scalar, the result is what that scalar makes of the
/// public key of this one.
#[verifier::external_body]
fn x25519_multiply(scalar: &[u8], point: &[u8]) -> (product: Vec<u8>)
    requires
        scalar@.len() == DH_KEY_LEN,
        point@.len() == DH_KEY_LEN,
    ensures
        product@ == x25519_point(scalar@, point@),
        product@.len() == DH_KEY_LEN,
        forall|other: Seq<u8>| #[trigger]
            is_public_of(point@, other) ==> product@ == x25519_point(
                other,
                x25519_point(scalar@, x25519_base()),
            ),
{
    let mut k = [0u8; 32];
    k.copy_from_slice(scalar);
    let mut u = [0u8; 32];
    u.copy_from_slice(point);
    x25519(k, u).to_vec()
}

/// The size of a long-term key's modulus, in bytes.
pub uninterp spec fn rsa_size(key: rsa::RsaPrivateKey) -> nat;

/// What a long-term key opens under PKCS#1 v1.5 padding, without blinding, or
/// `None` where it refuses what was sealed.
pub uninterp spec fn rsa_opened(key: rsa::RsaPrivateKey, sealed: Seq<u8>) -> Option<Seq<u8>>;

/// The size of the key's modulus in bytes, with `PublicKeyParts::size`.
///
/// Trusted: the number is named `rsa_size` of the key.
#[verifier::external_body]
fn rsa_modulus_size(key: &rsa::RsaPrivateKey) -> (size: usize)
    ensures
        size == rsa_size(*key),
{
    key.size()
}

/// Seals a message with `RsaPublicKey::encrypt` under PKCS#1 v1.5 padding,
/// which is random.
///
/// Trusted: nothing is claimed of the result.
#[verifier::external_body]
fn rsa_encrypt(key: &rsa::RsaPublicKey, message: &[u8]) -> (sealed: Option<Vec<u8>>) {
    key.encrypt(&mut rand::thread_rng(), Pkcs1v15Encrypt, message).ok()
}

/// Opens a message with `RsaPrivateKey::decrypt` under PKCS#1 v1.5 padding.
/// No random value takes part: the key and the bytes decide.
///
/// Trusted: what it returns is named `rsa_opened` of the key and the bytes.
#[verifier::external_body]
fn rsa_decrypt(key: &rsa::RsaPrivateKey, sealed: &[u8]) -> (message: Option<Vec<u8>>)
    ensures
        message is Some <==> rsa_opened(*key, sealed@) is Some,
        message matches Some(bytes) ==> rsa_opened(*key, sealed@) == Some(bytes@),
{
    key.decrypt(Pkcs1v15Encrypt, sealed).ok()
}

/// An ephemeral Diffie-Hellman key pair. It is made for one connection and
/// used up by the one exchange that it takes part in.
pub struct EphemeralKey {
    secret: Vec<u8>,
    public: Vec<u8>,
}

impl EphemeralKey {
    /// The secret half: the scalar.
    pub closed spec fn scalar(&self) -> Seq<u8> {
        self.secret@
    }

    /// The public half: the scalar applied to the base point.
    pub open spec fn public(&self) -> Seq<u8> {
        x25519_point(self.scalar(), x25519_base())
    }

    #[verifier::type_invariant]
    spec fn well_formed(self) -> bool {
        &&& self.secret@.len() == DH_KEY_LEN
        &&& self.public@.len() == DH_KEY_LEN
        &&& self.public@ == x25519_point(self.secret@, x25519_base())
    }

    /// The key pair of a given scalar, which must be 32 bytes long.
    pub fn from_secret(secret: Vec<u8>) -> (key: Option<Self>)
        ensures
            key is Some <==> secret@.len() == DH_KEY_LEN,
            key matches Some(pair) ==> pair.scalar() == secret@,
    {
        if secret.len() != DH_KEY_LEN {
            return None;
        }
        let mut base: Vec<u8> = Vec::new();
        base.push(9);
        while base.len() < DH_KEY_LEN
            invariant
                1 <= base.len() <= DH_KEY_LEN,
                base@[0] == 9,
                forall|i: int| 1 <= i < base.len() ==> base@[i] == 0,
            decreases DH_KEY_LEN - base.len(),
        {
            base.push(0);
        }
        assert(base@ =~= x25519_base());
        let public = x25519_multiply(secret.as_slice(), base.as_slice());
        Some(Self { secret, public })
    }

    /// A fresh key pair, its scalar drawn from the system's random source.
    ///
    /// Which scalar is drawn is not known beforehand. Whatever it is, it is 32
    /// bytes long, and the public half of the pair is that scalar applied to
    /// the base point.
    pub fn generate() -> (key: Self)
        ensures
            key.scalar().len() == DH_KEY_LEN,
            is_public_of(key.public(), key.scalar()),
    {
        let secret = random_bytes(DH_KEY_LEN);
        Self::from_secret(secret).unwrap()
    }

    /// A copy of the public half.
    pub fn public_key(&self) -> (public: Vec<u8>)
        ensures
            public@ == self.public(),
            public@.len() == DH_KEY_LEN,
    {
        proof {
            use_type_invariant(self);
        }
        self.public.clone()
    }

    /// The Diffie-Hellman value of this key and the other side's public key.
    /// The key pair is used up.
    pub fn diffie_hellman(self, their_public: &[u8]) -> (value: Vec<u8>)
        requires
            their_public@.len() == DH_KEY_LEN,
        ensures
            value@ == x25519_point(self.scalar(), their_public@),
            value@.len() == DH_KEY_LEN,
            forall|other: Seq<u8>| #[trigger]
                is_public_of(their_public@, other) ==> value@ == x25519_point(
                    other,
                    self.public(),
                ),
    {
        proof {
            use_type_invariant(&self);
        }
        x25519_multiply(self.secret.as_slice(), their_public)
    }
}

/// The secret of a connection, from one side's key pair and the other side's
/// public key.
///
/// The two sides derive the same secret: where `their_public` is the public
/// key of the other side's scalar, the secret is what the other side derives
/// from this side's public key.
pub fn derive_secret(ephemeral: EphemeralKey, their_public: &[u8]) -> (secret: Vec<u8>)
    requires
        their_public@.len() == DH_KEY_LEN,
    ensures
        secret@ == shared_secret(ephemeral.scalar(), their_public@),
        secret@.len() == crate::DIGEST_LEN,
        forall|other: Seq<u8>| #[trigger]
            is_public_of(their_public@, other) ==> secret@ == shared_secret(
                other,
                ephemeral.public(),
            ),
{
    let value = ephemeral.diffie_hellman(their_public);
    hash(value.as_slice())
}

/// The initiator's message: its sealed public key, then its identifier.
pub fn hello_message(sealed_public: &[u8], my_id: &str) -> (r: Result<Vec<u8>, HandshakeError>)
    ensures
        !is_peer_id(my_id@) ==> r == Err::<Vec<u8>, HandshakeError>(HandshakeError::BadPeerId),
        is_peer_id(my_id@) ==> r is Ok && r->Ok_0@ == sealed_public@ + encode_utf8(my_id@),
{
    if !text_is_peer_id(my_id) {
        return Err(HandshakeError::BadPeerId);
    }
    let mut message = slice_to_vec(sealed_public);
    message.extend_from_slice(my_id.as_bytes());
    Ok(message)
}

/// The responder's answer: its public key in the clear, then its identifier.
pub fn greeting(ephemeral: &EphemeralKey, server_id: &str) -> (r: Result<Vec<u8>, HandshakeError>)
    ensures
        !is_peer_id(server_id@) ==> r == Err::<Vec<u8>, HandshakeError>(
            HandshakeError::BadPeerId,
        ),
        is_peer_id(server_id@) ==> r is Ok && r->Ok_0@ == ephemeral.public() + encode_utf8(
            server_id@,
        ),
        r matches Ok(message) ==> message@.len() == REPLY_LEN,
{
    if !text_is_peer_id(server_id) {
        return Err(HandshakeError::BadPeerId);
    }
    let mut message = ephemeral.public_key();
    message.extend_from_slice(server_id.as_bytes());
    Ok(message)
}

/// Whether a responder's answer has the size it must have and ends in text.
pub open spec fn reply_well_formed(reply: Seq<u8>) -> bool {
    &&& reply.len() == REPLY_LEN
    &&& valid_utf8(reply.skip(DH_KEY_LEN as int))
}

/// Takes a responder's answer apart: its public key and its identifier.
pub fn parse_reply(reply: &[u8]) -> (r: Result<(Vec<u8>, String), HandshakeError>)
    ensures
        reply@.len() != REPLY_LEN ==> r == Err::<(Vec<u8>, String), HandshakeError>(
            HandshakeError::Malformed,
        ),
        reply@.len() == REPLY_LEN && !reply_well_formed(reply@) ==> r == Err::<
            (Vec<u8>, String),
            HandshakeError,
        >(HandshakeError::BadPeerId),
        reply_well_formed(reply@) ==> {
            &&& r is Ok
            &&& r->Ok_0.0@ == reply@.take(DH_KEY_LEN as int)
            &&& r->Ok_0.1@ == decode_utf8(reply@.skip(DH_KEY_LEN as int))
        },
{
    if reply.len() != REPLY_LEN {
        return Err(HandshakeError::Malformed);
    }
    let public = slice_to_vec(slice_subrange(reply, 0, DH_KEY_LEN));
    let id_buf = slice_to_vec(slice_subrange(reply, DH_KEY_LEN, REPLY_LEN));
    assert(public@ =~= reply@.take(DH_KEY_LEN as int));
    assert(id_buf@ =~= reply@.skip(DH_KEY_LEN as int));
    match string_from_utf8(id_buf) {
        Some(id) => Ok((public, id)),
        None => Err(HandshakeError::BadPeerId),
    }
}

/// The initiator's first step: a fresh key pair, and the message that carries
/// its public half, sealed under the responder's long-term key, and the
/// initiator's identifier.
///
/// The padding under the long-term key is random, and the key may refuse to
/// seal: on an identifier of 64 bytes the step either succeeds or fails with
/// `Encryption`, and on no other identifier does it succeed. A message that
/// comes back ends in the identifier; what stands in front of it is what the
/// key returned.
pub fn initiate(public_key: &rsa::RsaPublicKey, my_id: &str) -> (r: Result<
    (EphemeralKey, Vec<u8>),
    HandshakeError,
>)
    ensures
        !is_peer_id(my_id@) ==> r is Err && r->Err_0 == HandshakeError::BadPeerId,
        is_peer_id(my_id@) ==> r is Ok || (r is Err && r->Err_0 == HandshakeError::Encryption),
        r matches Ok(started) ==> {
            &&& started.1@.len() >= PEER_ID_LEN
            &&& started.1@.skip(started.1@.len() - PEER_ID_LEN) == encode_utf8(my_id@)
        },
{
    if !text_is_peer_id(my_id) {
        return Err(HandshakeError::BadPeerId);
    }
    let ephemeral = EphemeralKey::generate();
    let public = ephemeral.public_key();
    match rsa_encrypt(public_key, public.as_slice()) {
        Some(public_encrypted) => {
            match hello_message(public_encrypted.as_slice(), my_id) {
                Ok(message) => {
                    assert(message@.skip(message@.len() - PEER_ID_LEN) =~= encode_utf8(my_id@));
                    Ok((ephemeral, message))
                },
                Err(e) => Err(e),
            }
        },
        None => Err(HandshakeError::Encryption),
    }
}

/// The initiator's second step: from the responder's answer, the responder's
/// identifier and the secret of the connection.
///
/// Where the answer carries the public key of the responder's scalar, the
/// secret is the one that the responder derives from the initiator's public
/// key.
pub fn complete(ephemeral: EphemeralKey, reply: &[u8]) -> (r: Result<
    (String, Vec<u8>),
    HandshakeError,
>)
    ensures
        reply@.len() != REPLY_LEN ==> r == Err::<(String, Vec<u8>), HandshakeError>(
            HandshakeError::Malformed,
        ),
        reply@.len() == REPLY_LEN && !reply_well_formed(reply@) ==> r == Err::<
            (String, Vec<u8>),
            HandshakeError,
        >(HandshakeError::BadPeerId),
        reply_well_formed(reply@) ==> {
            &&& r is Ok
            &&& r->Ok_0.0@ == decode_utf8(reply@.skip(DH_KEY_LEN as int))
            &&& r->Ok_0.1@ == shared_secret(ephemeral.scalar(), reply@.take(DH_KEY_LEN as int))
            &&& r->Ok_0.1@.len() == crate::DIGEST_LEN
            &&& forall|other: Seq<u8>| #[trigger]
                is_public_of(reply@.take(DH_KEY_LEN as int), other) ==> r->Ok_0.1@
                    == shared_secret(other, ephemeral.public())
        },
{
    match parse_reply(reply) {
        Ok((their_public, id)) => {
            let secret = derive_secret(ephemeral, their_public.as_slice());
            Ok((id, secret))
        },
        Err(e) => Err(e),
    }
}

/// Whether what the initiator sent has the size that a long-term key of
/// `key_size` bytes asks for, and ends in text.
pub open spec fn hello_well_formed(buffer: Seq<u8>, key_size: int) -> bool {
    &&& buffer.len() == key_size + PEER_ID_LEN
    &&& valid_utf8(buffer.skip(key_size))
}

/// Takes the initiator's message apart: the sealed public key, as long as the
/// long-term key's modulus, and the identifier.
pub fn split_hello(buffer: &[u8], key_size: usize) -> (r: Result<
    (Vec<u8>, String),
    HandshakeError,
>)
    ensures
        buffer@.len() != key_size + PEER_ID_LEN ==> r == Err::<(Vec<u8>, String), HandshakeError>(
            HandshakeError::Malformed,
        ),
        buffer@.len() == key_size + PEER_ID_LEN && !hello_well_formed(buffer@, key_size as int)
            ==> r == Err::<(Vec<u8>, String), HandshakeError>(HandshakeError::BadPeerId),
        hello_well_formed(buffer@, key_size as int) ==> {
            &&& r is Ok
            &&& r->Ok_0.0@ == buffer@.take(key_size as int)
            &&& r->Ok_0.1@ == decode_utf8(buffer@.skip(key_size as int))
        },
{
    if buffer.len() < PEER_ID_LEN || buffer.len() - PEER_ID_LEN != key_size {
        return Err(HandshakeError::Malformed);
    }
    let encrypted_buf = slice_to_vec(slice_subrange(buffer, 0, key_size));
    let id_buf = slice_to_vec(slice_subrange(buffer, key_size, buffer.len()));
    assert(encrypted_buf@ =~= buffer@.take(key_size as int));
    assert(id_buf@ =~= buffer@.skip(key_size as int));
    match string_from_utf8(id_buf) {
        Some(id) => Ok((encrypted_buf, id)),
        None => Err(HandshakeError::BadPeerId),
    }
}

/// The initiator's public key, from what the long-term key opened: its first
/// 32 bytes.
pub fn peer_public(opened: &[u8]) -> (r: Result<Vec<u8>, HandshakeError>)
    ensures
        opened@.len() < DH_KEY_LEN ==> r == Err::<Vec<u8>, HandshakeError>(
            HandshakeError::Malformed,
        ),
        opened@.len() >= DH_KEY_LEN ==> r is Ok && r->Ok_0@ == opened@.take(DH_KEY_LEN as int),
{
    if opened.len() < DH_KEY_LEN {
        return Err(HandshakeError::Malformed);
    }
    let public = slice_to_vec(slice_subrange(opened, 0, DH_KEY_LEN));
    assert(public@ =~= opened@.take(DH_KEY_LEN as int));
    Ok(public)
}

/// The end of the responder's part, from what the long-term key opened: the
/// secret of the connection.
///
/// Where the key opened the public key of the initiator's scalar, the secret
/// is the one that the initiator derives from the responder's public key.
pub fn accept_opened(ephemeral: EphemeralKey, opened: &[u8]) -> (r: Result<Vec<u8>, HandshakeError>)
    ensures
        opened@.len() < DH_KEY_LEN ==> r == Err::<Vec<u8>, HandshakeError>(
            HandshakeError::Malformed,
        ),
        opened@.len() >= DH_KEY_LEN ==> {
            &&& r is Ok
            &&& r->Ok_0@ == shared_secret(ephemeral.scalar(), opened@.take(DH_KEY_LEN as int))
            &&& r->Ok_0@.len() == crate::DIGEST_LEN
            &&& forall|other: Seq<u8>| #[trigger]
                is_public_of(opened@.take(DH_KEY_LEN as int), other) ==> r->Ok_0@
                    == shared_secret(other, ephemeral.public())
        },
{
    match peer_public(opened) {
        Ok(their_public) => Ok(derive_secret(ephemeral, their_public.as_slice())),
        Err(e) => Err(e),
    }
}

/// What the responder makes of the initiator's message under a long-term key
/// and the scalar of its ephemeral key: the initiator's identifier and the
/// secret of the connection, or why the exchange is given up.
///
/// The message must be as long as the key's modulus and an identifier, and
/// must end in text. The key must open its front part, to 32 bytes at least:
/// the first 32 are the initiator's public key.
pub open spec fn accepted(key: rsa::RsaPrivateKey, scalar: Seq<u8>, buffer: Seq<u8>) -> Result<
    (Seq<char>, Seq<u8>),
    HandshakeError,
> {
    let size = rsa_size(key) as int;
    if buffer.len() != size + PEER_ID_LEN {
        Err(HandshakeError::Malformed)
    } else if !valid_utf8(buffer.skip(size)) {
        Err(HandshakeError::BadPeerId)
    } else {
        match rsa_opened(key, buffer.take(size)) {
            None => Err(HandshakeError::Decryption),
            Some(opened) => if opened.len() < DH_KEY_LEN {
                Err(HandshakeError::Malformed)
            } else {
                Ok(
                    (
                        decode_utf8(buffer.skip(size)),
                        shared_secret(scalar, opened.take(DH_KEY_LEN as int)),
                    ),
                )
            },
        }
    }
}

/// The responder's part: from the initiator's message, the initiator's
/// identifier and the secret of the connection.
///
/// Where the long-term key opened the public key of the initiator's scalar,
/// the secret is the one that the initiator derives from the responder's
/// public key.
pub fn accept(private_key: &rsa::RsaPrivateKey, ephemeral: EphemeralKey, buffer: &[u8]) -> (r:
    Result<(String, Vec<u8>), HandshakeError>)
    ensures
        match accepted(*private_key, ephemeral.scalar(), buffer@) {
            Ok(done) => {
                &&& r is Ok
                &&& r->Ok_0.0@ == done.0
                &&& r->Ok_0.1@ == done.1
                &&& is_peer_id(done.0)
                &&& done.1.len() == crate::DIGEST_LEN
            },
            Err(e) => r is Err && r->Err_0 == e,
        },
        r is Ok ==> forall|other: Seq<u8>| #[trigger]
            is_public_of(
                rsa_opened(*private_key, buffer@.take(rsa_size(*private_key) as int))->0.take(
                    DH_KEY_LEN as int,
                ),
                other,
            ) ==> r->Ok_0.1@ == shared_secret(other, ephemeral.public()),
{
    let size = rsa_modulus_size(private_key);
    match split_hello(buffer, size) {
        Ok((encrypted_buf, id)) => {
            proof {
                vstd::utf8::decode_utf8_encode_utf8(buffer@.skip(size as int));
            }
            match rsa_decrypt(private_key, encrypted_buf.as_slice()) {
                Some(their_public_input) => {
                    match accept_opened(ephemeral, their_public_input.as_slice()) {
                        Ok(secret) => {
                            assert(secret@ == shared_secret(
                                ephemeral.scalar(),
                                their_public_input@.take(DH_KEY_LEN as int),
                            ));
                            Ok((id, secret))
                        },
                        Err(e) => Err(e),
                    }
                },
                None => Err(HandshakeError::Decryption),
            }
        },
        Err(e) => Err(e),
    }
}

} // verus!
