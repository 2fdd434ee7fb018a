//! A secure chat relay: the wire codec, the authenticated encryption layer,
//! the frame format, the key exchange and the two actors that own the
//! per-connection state.

use sha3::{Digest, Sha3_256};
use vstd::prelude::*;
use vstd::utf8::encode_utf8;

pub mod encoding;
pub mod encryption;
pub mod endian;
pub mod handshake;
pub mod server;
pub mod stream;
pub mod table;
pub mod tcp_client;
pub mod text;
pub mod window;

verus! {

/// The length of a digest, in bytes.
pub const DIGEST_LEN: usize = 32;

/// The SHA3-256 digest of a run of bytes.
pub uninterp spec fn sha3_256(data: Seq<u8>) -> Seq<u8>;

/// Digests bytes with `Sha3_256::new_with_prefix` and `finalize`.
///
/// Trusted: the digest is 32 bytes long and is named `sha3_256` of the input.
#[verifier::external_body]
fn sha3_256_digest(data: &[u8]) -> (digest: Vec<u8>)
    ensures
        digest@ == sha3_256(data@),
        digest@.len() == DIGEST_LEN,
{
    Sha3_256::new_with_prefix(data).finalize().to_vec()
}

/// The ASCII code of a hexadecimal digit, in lower case.
pub open spec fn hex_digit(value: u8) -> u8
    recommends
        value < 16,
{
    if value < 10 {
        (0x30 + value) as u8
    } else {
        (0x57 + value) as u8
    }
}

/// Two hexadecimal digits for every byte, in lower case, as ASCII codes.
pub open spec fn lower_hex(data: Seq<u8>) -> Seq<u8> {
    Seq::new(
        2 * data.len(),
        |i: int|
            if i % 2 == 0 {
                hex_digit(data[i / 2] / 16)
            } else {
                hex_digit(data[i / 2] % 16)
            },
    )
}

/// The hexadecimal digits of one byte without a leading zero, as ASCII codes.
pub open spec fn short_hex(byte: u8) -> Seq<u8> {
    if byte < 16 {
        seq![hex_digit(byte)]
    } else {
        seq![hex_digit(byte / 16), hex_digit(byte % 16)]
    }
}

/// The bytes of a list in hexadecimal, a comma and a space between them, as
/// ASCII codes.
pub open spec fn hex_items(data: Seq<u8>) -> Seq<u8>
    decreases data.len(),
{
    if data.len() == 0 {
        Seq::empty()
    } else if data.len() == 1 {
        short_hex(data[0])
    } else {
        hex_items(data.drop_last()) + seq![0x2cu8, 0x20u8] + short_hex(data.last())
    }
}

/// A list of bytes in hexadecimal between square brackets, as ASCII codes.
pub open spec fn hex_list(data: Seq<u8>) -> Seq<u8> {
    seq![0x5bu8] + hex_items(data) + seq![0x5du8]
}

fn digit(value: u8) -> (code: u8)
    requires
        value < 16,
    ensures
        code == hex_digit(value),
        code < 0x80,
{
    if value < 10 {
        0x30 + value
    } else {
        0x57 + value
    }
}

/// The SHA3-256 digest of `data`.
pub fn hash(data: &[u8]) -> (digest: Vec<u8>)
    ensures
        digest@ == sha3_256(data@),
        digest@.len() == DIGEST_LEN,
{
    sha3_256_digest(data)
}

/// The bytes of `data` as a list for a log line: in hexadecimal without
/// leading zeros, between square brackets.
pub fn hex(data: &[u8]) -> (text: String)
    ensures
        text@ == text::ascii_text(hex_list(data@)),
{
    let mut out: Vec<u8> = Vec::new();
    out.push(0x5b);
    let mut i: usize = 0;
    while i < data.len()
        invariant
            i <= data.len(),
            out@ == seq![0x5bu8] + hex_items(data@.take(i as int)),
            text::all_ascii(out@),
        decreases data.len() - i,
    {
        let ghost before = out@;
        if i > 0 {
            out.push(0x2c);
            out.push(0x20);
        }
        let byte = data[i];
        if byte >= 16 {
            out.push(digit(byte / 16));
        }
        out.push(digit(byte % 16));
        proof {
            let seen = data@.take(i as int + 1);
            assert(seen.drop_last() =~= data@.take(i as int));
            assert(seen.last() == byte);
            assert(out@ =~= seq![0x5bu8] + hex_items(seen));
        }
        i = i + 1;
    }
    out.push(0x5d);
    assert(data@.take(data.len() as int) =~= data@);
    assert(out@ =~= hex_list(data@));
    text::ascii_string(out)
}

/// The SHA3-256 digest of `data` in hexadecimal: 64 lower-case digits, the
/// form of a peer identifier.
pub fn hex_hash(data: &[u8]) -> (text: String)
    ensures
        text@ == text::ascii_text(lower_hex(sha3_256(data@))),
        encode_utf8(text@) == lower_hex(sha3_256(data@)),
        stream::is_peer_id(text@),
{
    let hash = sha3_256_digest(data);
    let mut out: Vec<u8> = Vec::new();
    let mut i: usize = 0;
    while i < hash.len()
        invariant
            i <= hash.len(),
            out@.len() == 2 * i,
            forall|k: int| 0 <= k < out@.len() ==> out@[k] == lower_hex(hash@)[k],
            text::all_ascii(out@),
        decreases hash.len() - i,
    {
        let byte = hash[i];
        out.push(digit(byte / 16));
        out.push(digit(byte % 16));
        i = i + 1;
    }
    assert(out@ =~= lower_hex(hash@));
    text::ascii_string(out)
}

} // verus!
