//! The authenticated encryption layer: AES-256-GCM under a 32-byte key, every
//! message behind the 12-byte nonce that it was sealed with.

use aes_gcm::aead::rand_core::RngCore;
use aes_gcm::aead::{Aead, KeyInit, OsRng};
use aes_gcm::{Aes256Gcm, Nonce};
use vstd::prelude::*;

verus! {

/// The length of a key, in bytes.
pub const KEY_LEN: usize = 32;

/// The length of a nonce, in bytes.
pub const NONCE_LEN: usize = 12;

/// The length of the authentication tag that closes a sealed text, in bytes.
pub const TAG_LEN: usize = 16;

/// The longest plaintext that the cipher seals, in bytes.
pub const MAX_PLAINTEXT_LEN: u64 = 0x10_0000_0000;

/// Why a message was not sealed or not opened.
#[derive(Debug, Clone, Copy, PartialEq, Eq)]
pub enum CipherError {
    /// The key is not 32 bytes long.
    InvalidKey,
    /// The nonce is not 12 bytes long.
    InvalidNonce,
    /// The plaintext is longer than the cipher seals.
    TooLong,
    /// The message is too short to hold a nonce.
    Malformed,
    /// The message was not sealed under this key, or was changed since.
    Rejected,
}

/// What AES-256-GCM makes of a plaintext under a key and a nonce, with no
/// associated data: the ciphertext, then the tag.
pub uninterp spec fn aes256gcm_seal(key: Seq<u8>, nonce: Seq<u8>, plaintext: Seq<u8>) -> Seq<u8>;

/// What AES-256-GCM recovers from a ciphertext and its tag under a key and a
/// nonce, with no associated data, or `None` where it rejects them.
pub uninterp spec fn aes256gcm_open(key: Seq<u8>, nonce: Seq<u8>, sealed: Seq<u8>) -> Option<
    Seq<u8>,
>;

/// A message: the nonce, then what the cipher made of the data under it.
pub open spec fn sealed_message(key: Seq<u8>, nonce: Seq<u8>, data: Seq<u8>) -> Seq<u8> {
    nonce + aes256gcm_seal(key, nonce, data)
}

/// Whether `message` is `data` sealed under `key` and the nonce that the
/// message starts with.
pub open spec fn is_sealed(message: Seq<u8>, key: Seq<u8>, data: Seq<u8>) -> bool {
    &&& message.len() >= NONCE_LEN
    &&& message == sealed_message(key, message.take(NONCE_LEN as int), data)
}

/// What a message opens to under `key`, or `None` where it is too short or
/// the cipher rejects it.
pub open spec fn open_message(key: Seq<u8>, message: Seq<u8>) -> Option<Seq<u8>> {
    if message.len() < NONCE_LEN {
        None
    } else {
        aes256gcm_open(key, message.take(NONCE_LEN as int), message.skip(NONCE_LEN as int))
    }
}

/// Messages sealed under different nonces differ, whatever the key and the data.
pub proof fn lemma_nonce_tells_messages_apart(
    key: Seq<u8>,
    first_nonce: Seq<u8>,
    second_nonce: Seq<u8>,
    data: Seq<u8>,
)
    requires
        first_nonce.len() == NONCE_LEN,
        second_nonce.len() == NONCE_LEN,
        first_nonce != second_nonce,
    ensures
        sealed_message(key, first_nonce, data) != sealed_message(key, second_nonce, data),
{
    let first = sealed_message(key, first_nonce, data);
    let second = sealed_message(key, second_nonce, data);
    assert(first.take(NONCE_LEN as int) =~= first_nonce);
    assert(second.take(NONCE_LEN as int) =~= second_nonce);
}

/// Fills a fresh buffer from the operating system's random source, with
/// `OsRng::fill_bytes`.
///
/// Trusted: the buffer has the length asked for. Nothing is claimed of its
/// contents. The random source is taken to be available.
#[verifier::external_body]
pub(crate) fn random_bytes(count: usize) -> (bytes: Vec<u8>)
    ensures
        bytes@.len() == count,
{
    let mut bytes = vec![0u8; count];
    OsRng.fill_bytes(&mut bytes);
    bytes
}

/// Seals a plaintext with `Aes256Gcm::encrypt`.
///
/// Trusted: the cipher refuses exactly the plaintexts longer than its limit;
/// what it returns otherwise is the plaintext's length and a tag long, and is
/// named `aes256gcm_seal` of the three arguments.
#[verifier::external_body]
fn seal(key: &[u8], nonce: &[u8], plaintext: &[u8]) -> (sealed: Option<Vec<u8>>)
    requires
        key@.len() == KEY_LEN,
        nonce@.len() == NONCE_LEN,
    ensures
        sealed is Some <==> plaintext@.len() <= MAX_PLAINTEXT_LEN,
        sealed matches Some(bytes) ==> {
            &&& bytes@ == aes256gcm_seal(key@, nonce@, plaintext@)
            &&& bytes@.len() == plaintext@.len() + TAG_LEN
        },
{
    let cipher = Aes256Gcm::new_from_slice(key).ok()?;
    cipher.encrypt(Nonce::from_slice(nonce), plaintext).ok()
}

/// Opens a sealed text with `Aes256Gcm::decrypt`.
///
/// Trusted: what it returns is named `aes256gcm_open` of the three arguments
/// and is a tag shorter than what was sealed; and it recovers every plaintext
/// that the cipher sealed under the same key and nonce.
#[verifier::external_body]
fn open(key: &[u8], nonce: &[u8], sealed: &[u8]) -> (plaintext: Option<Vec<u8>>)
    requires
        key@.len() == KEY_LEN,
        nonce@.len() == NONCE_LEN,
    ensures
        plaintext is Some <==> aes256gcm_open(key@, nonce@, sealed@) is Some,
        plaintext matches Some(bytes) ==> {
            &&& aes256gcm_open(key@, nonce@, sealed@) == Some(bytes@)
            &&& bytes@.len() + TAG_LEN == sealed@.len()
        },
        forall|message: Seq<u8>|
            message.len() <= MAX_PLAINTEXT_LEN && sealed@ == #[trigger] aes256gcm_seal(
                key@,
                nonce@,
                message,
            ) ==> plaintext is Some && plaintext->0@ == message,
{
    let cipher = Aes256Gcm::new_from_slice(key).ok()?;
    cipher.decrypt(Nonce::from_slice(nonce), sealed).ok()
}

/// A fresh random nonce.
pub fn generate_nonce() -> (nonce: Vec<u8>)
    ensures
        nonce@.len() == NONCE_LEN,
{
    random_bytes(NONCE_LEN)
}

/// Seals `data` under `key_buff` and the given nonce, and puts the nonce in front.
pub fn encrypt_with_nonce(key_buff: &[u8], nonce: &[u8], data: &[u8]) -> (r: Result<
    Vec<u8>,
    CipherError,
>)
    ensures
        key_buff@.len() != KEY_LEN ==> r == Err::<Vec<u8>, CipherError>(CipherError::InvalidKey),
        key_buff@.len() == KEY_LEN && nonce@.len() != NONCE_LEN ==> r == Err::<
            Vec<u8>,
            CipherError,
        >(CipherError::InvalidNonce),
        key_buff@.len() == KEY_LEN && nonce@.len() == NONCE_LEN && data@.len() > MAX_PLAINTEXT_LEN
            ==> r == Err::<Vec<u8>, CipherError>(CipherError::TooLong),
        key_buff@.len() == KEY_LEN && nonce@.len() == NONCE_LEN && data@.len() <= MAX_PLAINTEXT_LEN
            ==> r is Ok && r->Ok_0@ == sealed_message(key_buff@, nonce@, data@),
        r matches Ok(message) ==> message@.len() == NONCE_LEN + data@.len() + TAG_LEN,
{
    if key_buff.len() != KEY_LEN {
        return Err(CipherError::InvalidKey);
    }
    if nonce.len() != NONCE_LEN {
        return Err(CipherError::InvalidNonce);
    }
    match seal(key_buff, nonce, data) {
        Some(mut ciphered) => {
            let mut message: Vec<u8> = Vec::new();
            message.extend_from_slice(nonce);
            message.append(&mut ciphered);
            Ok(message)
        },
        None => Err(CipherError::TooLong),
    }
}

/// Seals `data` under `key_buff` and a fresh random nonce, and puts the nonce
/// in front.
///
/// Which nonce is drawn is not known beforehand: the result is `data` sealed
/// under the nonce that it starts with.
pub fn encrypt(key_buff: &[u8], data: &[u8]) -> (r: Result<Vec<u8>, CipherError>)
    ensures
        key_buff@.len() != KEY_LEN ==> r == Err::<Vec<u8>, CipherError>(CipherError::InvalidKey),
        key_buff@.len() == KEY_LEN && data@.len() > MAX_PLAINTEXT_LEN ==> r == Err::<
            Vec<u8>,
            CipherError,
        >(CipherError::TooLong),
        key_buff@.len() == KEY_LEN && data@.len() <= MAX_PLAINTEXT_LEN ==> r is Ok && is_sealed(
            r->Ok_0@,
            key_buff@,
            data@,
        ),
        r matches Ok(message) ==> message@.len() == NONCE_LEN + data@.len() + TAG_LEN,
{
    let nonce_buff = generate_nonce();
    let r = encrypt_with_nonce(key_buff, nonce_buff.as_slice(), data);
    proof {
        if r is Ok {
            assert(r->Ok_0@.take(NONCE_LEN as int) =~= nonce_buff@);
        }
    }
    r
}

/// Opens a message: the nonce in front of it, then what was sealed.
///
/// It never hands back anything but what the cipher recovered, which is a
/// nonce and a tag shorter than the message: a message too short to hold both
/// opens to nothing. And it recovers what `encrypt` sealed under the same key.
pub fn decrypt(key_buff: &[u8], buffer: Vec<u8>) -> (r: Result<Vec<u8>, CipherError>)
    ensures
        key_buff@.len() != KEY_LEN ==> r == Err::<Vec<u8>, CipherError>(CipherError::InvalidKey),
        key_buff@.len() == KEY_LEN && buffer@.len() < NONCE_LEN ==> r == Err::<
            Vec<u8>,
            CipherError,
        >(CipherError::Malformed),
        key_buff@.len() == KEY_LEN && buffer@.len() >= NONCE_LEN ==> match open_message(
            key_buff@,
            buffer@,
        ) {
            Some(data) => r is Ok && r->Ok_0@ == data,
            None => r == Err::<Vec<u8>, CipherError>(CipherError::Rejected),
        },
        r matches Ok(data) ==> data@.len() + NONCE_LEN + TAG_LEN == buffer@.len(),
        forall|data: Seq<u8>|
            key_buff@.len() == KEY_LEN && data.len() <= MAX_PLAINTEXT_LEN && #[trigger] is_sealed(
                buffer@,
                key_buff@,
                data,
            ) ==> r is Ok && r->Ok_0@ == data,
{
    if key_buff.len() != KEY_LEN {
        return Err(CipherError::InvalidKey);
    }
    if buffer.len() < NONCE_LEN {
        return Err(CipherError::Malformed);
    }
    let nonce_buff = vstd::slice::slice_subrange(buffer.as_slice(), 0, NONCE_LEN);
    let cipher_text = vstd::slice::slice_subrange(buffer.as_slice(), NONCE_LEN, buffer.len());
    assert(nonce_buff@ =~= buffer@.take(NONCE_LEN as int));
    assert(cipher_text@ =~= buffer@.skip(NONCE_LEN as int));
    let opened = open(key_buff, nonce_buff, cipher_text);
    proof {
        assert forall|data: Seq<u8>|
            data.len() <= MAX_PLAINTEXT_LEN && #[trigger] is_sealed(
                buffer@,
                key_buff@,
                data,
            ) implies opened is Some && opened->0@ == data by {
            let sealed = aes256gcm_seal(key_buff@, nonce_buff@, data);
            assert(buffer@ == nonce_buff@ + sealed);
            assert(cipher_text@ =~= sealed);
        }
    }
    match opened {
        Some(data) => Ok(data),
        None => Err(CipherError::Rejected),
    }
}

} // verus!
