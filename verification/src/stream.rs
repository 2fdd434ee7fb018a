//! The frame codec: the units that travel on a connection.
//!
//! A frame is the length of its ciphertext as eight big-endian bytes, the
//! 64-byte identifier of a peer, and the ciphertext. The length covers the
//! ciphertext only, on the way out and on the way in.

use crate::encoding::Reader;
use crate::encryption::{encrypt, is_sealed, KEY_LEN, MAX_PLAINTEXT_LEN, NONCE_LEN, TAG_LEN};
use crate::endian::{lemma_u64_round_trip, u64_be, u64_from_be};
use crate::text::string_from_utf8;
use vstd::prelude::*;
use vstd::slice::slice_to_vec;
use vstd::utf8::{decode_utf8, encode_utf8, valid_utf8};

verus! {

/// The length of the length field, in bytes.
pub const LENGTH_FIELD_LEN: usize = 8;

/// The length of a peer identifier on the wire, in bytes.
pub const PEER_ID_LEN: usize = 64;

/// The length of what stands in front of the ciphertext, in bytes.
pub const HEADER_LEN: usize = 72;

/// What the loop that reads frames does after a read that gave no frame.
#[derive(Debug, Clone, Copy, PartialEq, Eq)]
pub enum StreamOperation {
    /// The frame was skipped; the next one can be read.
    Continue,
    /// The stream has ended.
    Break,
}

/// Why a read off a connection failed.
#[derive(Debug, Clone, Copy, PartialEq, Eq)]
pub enum ReadFailure {
    /// The stream ended.
    EndOfStream,
    /// The peer reset the connection.
    Reset,
    /// Anything else.
    Other,
}

/// What the loop that reads frames does after a read that failed, by the
/// failure and by how much of the frame had been received.
///
/// The end of the stream and a reset end the loop. After any other failure
/// the loop goes on, unless not even the length of the frame was received:
/// then nothing tells where the next frame begins.
pub open spec fn after_failure(received: nat, failure: ReadFailure) -> StreamOperation {
    if failure == ReadFailure::Other && received >= LENGTH_FIELD_LEN {
        StreamOperation::Continue
    } else {
        StreamOperation::Break
    }
}

/// Whether a text is a peer identifier: exactly 64 bytes when serialized.
pub open spec fn is_peer_id(text: Seq<char>) -> bool {
    encode_utf8(text).len() == PEER_ID_LEN
}

/// The bytes of a frame.
pub open spec fn frame_bytes(peer_id: Seq<u8>, ciphertext: Seq<u8>) -> Seq<u8> {
    u64_be(ciphertext.len() as u64) + peer_id + ciphertext
}

/// Whether `bytes` starts with a whole frame.
pub open spec fn frame_complete(bytes: Seq<u8>) -> bool {
    &&& bytes.len() >= HEADER_LEN
    &&& u64_from_be(bytes.take(LENGTH_FIELD_LEN as int)) <= bytes.len() - HEADER_LEN
}

/// The number of bytes that the frame at the start of `bytes` takes.
pub open spec fn frame_len(bytes: Seq<u8>) -> int
    recommends
        bytes.len() >= LENGTH_FIELD_LEN,
{
    HEADER_LEN + u64_from_be(bytes.take(LENGTH_FIELD_LEN as int))
}

/// The identifier bytes of the frame at the start of `bytes`.
pub open spec fn frame_peer_id(bytes: Seq<u8>) -> Seq<u8>
    recommends
        bytes.len() >= HEADER_LEN,
{
    bytes.subrange(LENGTH_FIELD_LEN as int, HEADER_LEN as int)
}

/// The ciphertext of the frame at the start of `bytes`.
pub open spec fn frame_ciphertext(bytes: Seq<u8>) -> Seq<u8>
    recommends
        frame_complete(bytes),
{
    bytes.subrange(HEADER_LEN as int, frame_len(bytes))
}

/// A frame in front of any bytes is whole, and is read back as the identifier
/// and the ciphertext that it was made from.
pub proof fn lemma_frame_read_back(peer_id: Seq<u8>, ciphertext: Seq<u8>, tail: Seq<u8>)
    requires
        peer_id.len() == PEER_ID_LEN,
        ciphertext.len() <= u64::MAX,
    ensures
        frame_complete(frame_bytes(peer_id, ciphertext) + tail),
        frame_len(frame_bytes(peer_id, ciphertext) + tail) == frame_bytes(
            peer_id,
            ciphertext,
        ).len(),
        frame_peer_id(frame_bytes(peer_id, ciphertext) + tail) == peer_id,
        frame_ciphertext(frame_bytes(peer_id, ciphertext) + tail) == ciphertext,
        (frame_bytes(peer_id, ciphertext) + tail).skip(
            frame_bytes(peer_id, ciphertext).len() as int,
        ) == tail,
{
    let frame = frame_bytes(peer_id, ciphertext);
    let bytes = frame + tail;
    lemma_u64_round_trip(ciphertext.len() as u64);
    assert(bytes.take(LENGTH_FIELD_LEN as int) =~= u64_be(ciphertext.len() as u64));
    assert(frame_peer_id(bytes) =~= peer_id);
    assert(frame_ciphertext(bytes) =~= ciphertext);
    assert(bytes.skip(frame.len() as int) =~= tail);
}

/// A frame that was cut anywhere before its end is not a whole frame: the
/// stream that holds nothing else has ended.
pub proof fn lemma_truncated_frame_is_incomplete(peer_id: Seq<u8>, ciphertext: Seq<u8>, kept: int)
    requires
        peer_id.len() == PEER_ID_LEN,
        ciphertext.len() <= u64::MAX,
        0 <= kept < frame_bytes(peer_id, ciphertext).len(),
    ensures
        !frame_complete(frame_bytes(peer_id, ciphertext).take(kept)),
{
    let frame = frame_bytes(peer_id, ciphertext);
    let cut = frame.take(kept);
    lemma_u64_round_trip(ciphertext.len() as u64);
    if kept >= HEADER_LEN {
        assert(cut.take(LENGTH_FIELD_LEN as int) =~= u64_be(ciphertext.len() as u64));
    }
}

/// Whether a text is a peer identifier: exactly 64 bytes when serialized.
pub fn text_is_peer_id(text: &str) -> (is_id: bool)
    ensures
        is_id == is_peer_id(text@),
{
    text.as_bytes().len() == PEER_ID_LEN
}

/// What the loop that reads frames does after a read that failed, where
/// `received` is what had been received of the frame.
pub fn on_read_failure(received: &[u8], failure: ReadFailure) -> (next: StreamOperation)
    ensures
        next == after_failure(received@.len(), failure),
{
    match failure {
        ReadFailure::EndOfStream => StreamOperation::Break,
        ReadFailure::Reset => StreamOperation::Break,
        ReadFailure::Other => {
            if received.len() >= LENGTH_FIELD_LEN {
                StreamOperation::Continue
            } else {
                StreamOperation::Break
            }
        },
    }
}

/// The number of bytes that are still to come before `bytes` starts with a
/// whole frame; zero where it does.
pub fn bytes_missing(bytes: &[u8]) -> (missing: u64)
    ensures
        missing == 0 <==> frame_complete(bytes@),
        bytes@.len() < HEADER_LEN ==> missing == HEADER_LEN - bytes@.len(),
        bytes@.len() >= HEADER_LEN && !frame_complete(bytes@) ==> missing == frame_len(bytes@)
            - bytes@.len(),
{
    if bytes.len() < HEADER_LEN {
        return (HEADER_LEN - bytes.len()) as u64;
    }
    let mut header = Reader::from_bytes(slice_to_vec(bytes));
    assert(header@.take(LENGTH_FIELD_LEN as int) =~= bytes@.take(LENGTH_FIELD_LEN as int));
    let size = header.u64();
    let held = (bytes.len() - HEADER_LEN) as u64;
    if size <= held {
        0
    } else {
        size - held
    }
}

/// Puts a ciphertext in a frame under a peer identifier.
///
/// An identifier that is not 64 bytes long has no place in a frame.
pub fn write_frame(peer_id: &str, ciphertext: &[u8]) -> (frame: Option<Vec<u8>>)
    ensures
        frame is Some <==> is_peer_id(peer_id@),
        frame matches Some(bytes) ==> bytes@ == frame_bytes(encode_utf8(peer_id@), ciphertext@),
{
    if !text_is_peer_id(peer_id) {
        return None;
    }
    let len = ciphertext.len() as u64;
    let mut out = crate::encoding::Writer::new();
    out.u64(len);
    out.bytes(peer_id.as_bytes());
    out.bytes(ciphertext);
    let bytes = out.dump();
    assert(bytes@ =~= frame_bytes(encode_utf8(peer_id@), ciphertext@));
    Some(bytes)
}

/// Whether `data` can be sealed under `key` and framed under `peer_id`.
pub open spec fn can_seal(key: Seq<u8>, peer_id: Seq<char>, data: Seq<u8>) -> bool {
    &&& key.len() == KEY_LEN
    &&& is_peer_id(peer_id)
    &&& data.len() <= MAX_PLAINTEXT_LEN
}

/// Whether `payload` is a frame under `peer_id` whose ciphertext is `data`
/// sealed under `key`: the header, then the nonce, the sealed data and the tag.
pub open spec fn is_payload(
    payload: Seq<u8>,
    peer_id: Seq<char>,
    key: Seq<u8>,
    data: Seq<u8>,
) -> bool {
    &&& payload.len() == HEADER_LEN + NONCE_LEN + data.len() + TAG_LEN
    &&& is_sealed(payload.skip(HEADER_LEN as int), key, data)
    &&& payload == frame_bytes(encode_utf8(peer_id), payload.skip(HEADER_LEN as int))
}

/// A payload is one whole frame. Its length field counts the ciphertext only:
/// the nonce, the sealed data and the tag. Its identifier reads back as the
/// peer's, and its ciphertext is the data sealed under the key: it opens to
/// the data.
pub proof fn lemma_payload_reads_back(
    payload: Seq<u8>,
    peer_id: Seq<char>,
    key: Seq<u8>,
    data: Seq<u8>,
)
    requires
        is_payload(payload, peer_id, key, data),
        is_peer_id(peer_id),
        payload.len() <= u64::MAX,
    ensures
        frame_complete(payload),
        frame_len(payload) == payload.len(),
        u64_from_be(payload.take(LENGTH_FIELD_LEN as int)) == NONCE_LEN + data.len() + TAG_LEN,
        frame_peer_id(payload) == encode_utf8(peer_id),
        valid_utf8(frame_peer_id(payload)),
        decode_utf8(frame_peer_id(payload)) == peer_id,
        is_sealed(frame_ciphertext(payload), key, data),
{
    let ciphertext = payload.skip(HEADER_LEN as int);
    lemma_frame_read_back(encode_utf8(peer_id), ciphertext, Seq::empty());
    assert(payload + Seq::<u8>::empty() =~= payload);
    vstd::utf8::encode_utf8_valid_utf8(peer_id);
    vstd::utf8::encode_utf8_decode_utf8(peer_id);
}

/// Seals `data` under `key` and a fresh nonce, and frames it under `peer_id`.
///
/// Nothing is made where the key is not 32 bytes long, the identifier is not
/// 64 bytes long, or the data is longer than the cipher seals.
pub fn seal_frame(peer_id: &str, key: &[u8], data: &[u8]) -> (payload: Option<Vec<u8>>)
    ensures
        payload is Some <==> can_seal(key@, peer_id@, data@),
        payload matches Some(bytes) ==> is_payload(bytes@, peer_id@, key@, data@),
{
    if !text_is_peer_id(peer_id) {
        return None;
    }
    match encrypt(key, data) {
        Ok(encrypted_buf) => {
            let framed = write_frame(peer_id, encrypted_buf.as_slice());
            proof {
                let bytes = framed->0@;
                assert(bytes.skip(HEADER_LEN as int) =~= encrypted_buf@);
            }
            framed
        },
        Err(_) => None,
    }
}

/// Reads the next frame off a stream of received bytes.
///
/// A stream that ends before the frame is whole has ended: the answer is
/// `Break`, and nothing is left of the stream. A whole frame is taken off the
/// stream. Where its identifier is not text, the frame is skipped and the
/// answer is `Continue`; otherwise the answer is the identifier and the
/// ciphertext.
pub fn read_stream(stream: &mut Reader) -> (r: Result<(String, Vec<u8>), StreamOperation>)
    ensures
        !frame_complete(old(stream)@) ==> {
            &&& r == Err::<(String, Vec<u8>), StreamOperation>(StreamOperation::Break)
            &&& final(stream)@.len() == 0
        },
        frame_complete(old(stream)@) ==> final(stream)@ == old(stream)@.skip(
            frame_len(old(stream)@),
        ),
        frame_complete(old(stream)@) && !valid_utf8(frame_peer_id(old(stream)@)) ==> r == Err::<
            (String, Vec<u8>),
            StreamOperation,
        >(StreamOperation::Continue),
        frame_complete(old(stream)@) && valid_utf8(frame_peer_id(old(stream)@)) ==> {
            &&& r is Ok
            &&& r->Ok_0.0@ == decode_utf8(frame_peer_id(old(stream)@))
            &&& r->Ok_0.1@ == frame_ciphertext(old(stream)@)
        },
{
    if stream.remaining() < HEADER_LEN {
        let rest = stream.remaining();
        let _ = stream.bytes(rest);
        return Err(StreamOperation::Break);
    }
    let size = stream.u64();
    let id = slice_to_vec(stream.bytes(PEER_ID_LEN));
    assert(id@ =~= frame_peer_id(old(stream)@));
    if (stream.remaining() as u64) < size {
        let rest = stream.remaining();
        let _ = stream.bytes(rest);
        return Err(StreamOperation::Break);
    }
    let encrypted_buf = slice_to_vec(stream.bytes(size as usize));
    assert(encrypted_buf@ =~= frame_ciphertext(old(stream)@));
    assert(stream@ =~= old(stream)@.skip(frame_len(old(stream)@)));
    match string_from_utf8(id) {
        Some(the_id) => Ok((the_id, encrypted_buf)),
        None => Err(StreamOperation::Continue),
    }
}

} // verus!
