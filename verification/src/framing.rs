//! Framing of wire values: length-prefixed messages for reliable streams and
//! tagged datagrams for unreliable delivery.

use crate::wire::{
    get_le, le_bytes, le_value, lemma_le_bounds, lemma_le_bytes_len, lemma_le_round_trip,
    lemma_le_value_bound, numbers_are_written_lowest_byte_first, put_le,
    the_lowest_byte_comes_first, Wire,
};
use bytes::Bytes;
use vstd::prelude::*;
use vstd::slice::slice_subrange;

verus! {

// ---------------------------------------------------------------------------
// bytes
// ---------------------------------------------------------------------------

/// A cheaply clonable byte buffer of the `bytes` crate.
#[verifier::external_type_specification]
#[verifier::external_body]
pub struct ExBytes(bytes::Bytes);

/// The bytes that a `bytes::Bytes` holds.
pub uninterp spec fn content(b: bytes::Bytes) -> Seq<u8>;

/// `bytes::Bytes::from(Vec<u8>)`: the buffer holds the bytes of the vector.
#[verifier::external_body]
fn bytes_from_vec(v: Vec<u8>) -> (b: Bytes)
    ensures
        content(b) == v@,
{
    Bytes::from(v)
}

// ---------------------------------------------------------------------------
// Length-prefixed messages
// ---------------------------------------------------------------------------

/// The largest message that a stream reader accepts.
pub const MAX_MESSAGE_BYTES: usize = 1048576;

/// A payload behind its length, a 4-byte little-endian number.
pub open spec fn framed(payload: Seq<u8>) -> Seq<u8> {
    le_bytes(payload.len() % 0x1_0000_0000, 4) + payload
}

/// The first framed value of `s`, with the number of bytes the frame takes.
/// Bytes of the frame that the value leaves over are not looked at.
pub open spec fn unframed<T: Wire>(s: Seq<u8>) -> Option<(T::Model, nat)> {
    if s.len() < 4 {
        None
    } else {
        let n = le_value(s.take(4));
        if s.len() < 4 + n {
            None
        } else {
            match T::dec(s.subrange(4, 4 + n as int)) {
                Some((m, rest)) => Some((m, 4 + n)),
                None => None,
            }
        }
    }
}

/// What a sender frames, a receiver gets back, whatever follows in the
/// stream: the value, and the number of bytes up to the next frame.
pub proof fn frame_round_trip<T: Wire>(m: T::Model, tail: Seq<u8>)
    requires
        T::enc(m).len() <= u32::MAX,
    ensures
        unframed::<T>(framed(T::enc(m)) + tail) == Some((m, framed(T::enc(m)).len())),
{
    let payload = T::enc(m);
    let s = framed(payload) + tail;
    lemma_le_bounds();
    lemma_le_round_trip(payload.len(), 4);
    assert(s.take(4) =~= le_bytes(payload.len(), 4));
    assert(s.subrange(4, 4 + payload.len() as int) =~= payload + Seq::empty());
    T::round_trip(m, Seq::empty());
}

/// Encodes a value into length-prefixed bytes.
pub fn encode_frame<T: Wire>(value: &T) -> (out: Vec<u8>)
    ensures
        out@ == framed(T::enc(value.model())),
{
    let mut payload: Vec<u8> = Vec::new();
    value.put(&mut payload);
    assert(payload@ =~= T::enc(value.model()));
    let len: u64 = payload.len() as u64 % 0x1_0000_0000;
    let mut out: Vec<u8> = Vec::new();
    put_le(&mut out, len, 4);
    out.extend_from_slice(payload.as_slice());
    assert(out@ =~= framed(payload@));
    out
}

/// Decodes a value from a length-prefixed byte slice.
/// Returns `(value, bytes_consumed)`.
pub fn decode_frame<T: Wire>(buf: &[u8]) -> (r: Option<(T, usize)>)
    ensures
        match unframed::<T>(buf@) {
            Some((m, n)) => r matches Some((v, k)) && v.model() == m && k == n,
            None => r is None,
        },
{
    if buf.len() < 4 {
        return None;
    }
    let len = get_le(buf, 0, 4);
    assert(buf@.take(4) =~= buf@.subrange(0, 4));
    if len > (buf.len() - 4) as u64 {
        return None;
    }
    let end: usize = 4 + len as usize;
    let payload = slice_subrange(buf, 4, end);
    assert(payload@.skip(0) =~= payload@);
    match T::get(payload, 0) {
        Some((v, _)) => Some((v, end)),
        None => None,
    }
}

/// The payload length that a 4-byte prefix announces, or the length that is
/// over the limit of a message.
pub fn announced_len(prefix: &[u8]) -> (r: Result<usize, usize>)
    requires
        prefix@.len() == 4,
    ensures
        match r {
            Ok(n) => n == le_value(prefix@) && n <= MAX_MESSAGE_BYTES,
            Err(n) => n == le_value(prefix@) && n > MAX_MESSAGE_BYTES,
        },
{
    let len = get_le(prefix, 0, 4);
    proof {
        assert(prefix@.subrange(0, 4) =~= prefix@);
        lemma_le_value_bound(prefix@);
        lemma_le_bounds();
    }
    if len as usize > MAX_MESSAGE_BYTES {
        Err(len as usize)
    } else {
        Ok(len as usize)
    }
}

/// Decodes a message that was read from a stream in two parts: the prefix,
/// whose length `announced_len` accepted, and the payload of that length.
pub fn decode_parts<T: Wire>(prefix: &[u8], payload: &[u8]) -> (r: Option<T>)
    ensures
        match unframed::<T>(prefix@ + payload@) {
            Some((m, n)) => r matches Some(v) && v.model() == m,
            None => r is None,
        },
{
    let mut whole: Vec<u8> = Vec::new();
    whole.extend_from_slice(prefix);
    whole.extend_from_slice(payload);
    assert(whole@ =~= prefix@ + payload@);
    match decode_frame::<T>(whole.as_slice()) {
        Some((v, _)) => Some(v),
        None => None,
    }
}

/// A stream delivers each message intact: the announced length of a framed
/// value is the length of its payload, and the parts decode to the value.
pub proof fn stream_delivers<T: Wire>(m: T::Model)
    requires
        T::enc(m).len() <= MAX_MESSAGE_BYTES,
    ensures
        framed(T::enc(m)).len() == 4 + T::enc(m).len(),
        le_value(framed(T::enc(m)).take(4)) == T::enc(m).len(),
        unframed::<T>(framed(T::enc(m)).take(4) + framed(T::enc(m)).skip(4)) == Some(
            (m, framed(T::enc(m)).len()),
        ),
{
    let s = framed(T::enc(m));
    lemma_le_bounds();
    lemma_le_round_trip(T::enc(m).len(), 4);
    assert(s.take(4) =~= le_bytes(T::enc(m).len(), 4));
    frame_round_trip::<T>(m, Seq::empty());
    assert(s.take(4) + s.skip(4) =~= s + Seq::empty());
}

// ---------------------------------------------------------------------------
// Tagged datagrams
// ---------------------------------------------------------------------------

/// The value in a datagram with the given tag.
pub open spec fn untagged<T: Wire>(tag: u8, s: Seq<u8>) -> Option<T::Model> {
    if s.len() == 0 || s[0] != tag {
        None
    } else {
        match T::dec(s.skip(1)) {
            Some((m, rest)) => Some(m),
            None => None,
        }
    }
}

/// A value sent in a tagged datagram is the value received.
pub proof fn datagram_round_trip<T: Wire>(tag: u8, m: T::Model)
    requires
        T::enc(m).len() <= u64::MAX,
    ensures
        untagged::<T>(tag, seq![tag] + T::enc(m)) == Some(m),
{
    assert((seq![tag] + T::enc(m)).skip(1) =~= T::enc(m) + Seq::empty());
    T::round_trip(m, Seq::empty());
}

/// A datagram with one tag is never taken for one with another.
pub proof fn tags_are_told_apart<T: Wire>(tag: u8, other: u8, payload: Seq<u8>)
    requires
        tag != other,
    ensures
        untagged::<T>(other, seq![tag] + payload) is None,
{
}

/// Puts a tag byte in front of a packet.
pub fn tag_packet(tag: u8, packet: &[u8]) -> (b: Bytes)
    ensures
        content(b) == seq![tag] + packet@,
{
    let mut bytes: Vec<u8> = Vec::new();
    bytes.push(tag);
    bytes.extend_from_slice(packet);
    assert(bytes@ =~= seq![tag] + packet@);
    bytes_from_vec(bytes)
}

/// Encodes a value as a tagged datagram.
pub fn encode_tagged<T: Wire>(tag: u8, value: &T) -> (b: Bytes)
    ensures
        content(b) == seq![tag] + T::enc(value.model()),
{
    let mut payload: Vec<u8> = Vec::new();
    value.put(&mut payload);
    assert(payload@ =~= T::enc(value.model()));
    tag_packet(tag, payload.as_slice())
}

/// Decodes a tagged datagram. `None` if the tag byte is missing or wrong, or
/// decoding fails.
pub fn decode_tagged<T: Wire>(tag: u8, buf: &[u8]) -> (r: Option<T>)
    ensures
        match untagged::<T>(tag, buf@) {
            Some(m) => r matches Some(v) && v.model() == m,
            None => r is None,
        },
{
    if buf.len() == 0 || buf[0] != tag {
        return None;
    }
    match T::get(buf, 1) {
        Some((v, _)) => Some(v),
        None => None,
    }
}

/// A frame begins with the length of its payload in four bytes, lowest first, and the
/// payload follows. It is read by that length alone: where so many bytes are there, the
/// frame takes four more, and its value is the one in those bytes.
pub proof fn frames_begin_with_their_length<T: Wire>(payload: Seq<u8>, s: Seq<u8>)
    ensures
        payload.len() <= u32::MAX ==> ({
            let f = framed(payload);
            &&& f.len() == 4 + payload.len()
            &&& payload.len() == f[0] + 0x100 * f[1] + 0x1_0000 * f[2] + 0x100_0000 * f[3]
            &&& f.skip(4) == payload
        }),
        s.len() < 4 ==> unframed::<T>(s) is None,
        s.len() >= 4 ==> ({
            let n = s[0] + 0x100 * s[1] + 0x1_0000 * s[2] + 0x100_0000 * s[3];
            &&& s.len() < 4 + n ==> unframed::<T>(s) is None
            &&& s.len() >= 4 + n ==> match T::dec(s.subrange(4, 4 + n)) {
                Some((m, _)) => unframed::<T>(s) == Some((m, (4 + n) as nat)),
                None => unframed::<T>(s) is None,
            }
        }),
{
    if payload.len() <= u32::MAX {
        numbers_are_written_lowest_byte_first(payload.len());
        lemma_le_bytes_len(payload.len(), 4);
        assert(payload.len() % 0x1_0000_0000 == payload.len());
        assert(framed(payload).skip(4) =~= payload);
    }
    if s.len() >= 4 {
        the_lowest_byte_comes_first(s.take(4));
    }
}

} // verus!
