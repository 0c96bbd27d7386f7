//! Helpers for framing input packets on a QUIC unidirectional stream.
//!
//! Each packet is length-prefixed: 4-byte little-endian `u32` followed by
//! the bincode-encoded `InputPacket` payload.

use super::codec::lemma_input_packet_len;
use super::packets::InputPacket;
use crate::framing::{decode_frame, encode_frame, frame_round_trip, framed, unframed};
use crate::wire::Wire;
use vstd::prelude::*;

verus! {

/// Encode an `InputPacket` into length-prefixed bytes ready to write to QUIC.
pub fn encode_packet(packet: &InputPacket) -> (out: Vec<u8>)
    ensures
        out@ == framed(InputPacket::enc(*packet)),
{
    encode_frame(packet)
}

/// Decode an `InputPacket` from a length-prefixed byte slice.
/// Returns `(packet, bytes_consumed)`.
pub fn decode_packet(buf: &[u8]) -> (r: Option<(InputPacket, usize)>)
    ensures
        match unframed::<InputPacket>(buf@) {
            Some((m, n)) => r matches Some((packet, k)) && packet == m && k == n,
            None => r is None,
        },
{
    decode_frame::<InputPacket>(buf)
}

/// `decode_packet` undoes `encode_packet`, whatever follows in the stream.
pub proof fn input_packet_round_trip(packet: InputPacket, tail: Seq<u8>)
    ensures
        unframed::<InputPacket>(framed(InputPacket::enc(packet)) + tail) == Some(
            (packet, framed(InputPacket::enc(packet)).len()),
        ),
{
    lemma_input_packet_len(packet);
    frame_round_trip::<InputPacket>(packet, tail);
}

} // verus!
