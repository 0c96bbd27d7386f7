//! Helpers for framing control messages and datagrams.
//!
//! Control messages on the QUIC bidirectional stream are length-prefixed:
//! 4-byte little-endian `u32` followed by the bincode-encoded `ControlMsg`
//! payload.
//!
//! QUIC unreliable datagrams carry a 1-byte type tag as the very first byte so
//! a single `conn.read_datagram()` call can dispatch between video fragments,
//! cursor state updates, and mouse-move input events:
//!
//! | Tag | Direction | Content |
//! |-----|-----------|---------|
//! | `DATAGRAM_TAG_CURSOR` (0x01) | server to client | bincode-encoded `RemoteCursorState` |
//! | `DATAGRAM_TAG_VIDEO`  (0x02) | server to client | 24-byte `VideoPacketHeader` + encoded video or FEC parity data |
//! | `DATAGRAM_TAG_INPUT`  (0x03) | client to server | bincode-encoded `InputPacket` carrying `InputEvent::MouseMove` |

use super::codec::{lemma_cursor_state_len, lemma_input_packet_len};
use super::packets::{ControlMsg, ControlMsgView, InputPacket, RemoteCursorState};
use crate::framing::{
    content, datagram_round_trip, decode_frame, decode_tagged, encode_frame, encode_tagged,
    frame_round_trip, framed, tag_packet, unframed, untagged,
};
use crate::wire::Wire;
use bytes::Bytes;
use vstd::prelude::*;

verus! {

/// Datagram type tag for cursor state updates.
pub const DATAGRAM_TAG_CURSOR: u8 = 0x01;

/// Datagram type tag for video fragment packets.
pub const DATAGRAM_TAG_VIDEO: u8 = 0x02;

/// Datagram type tag for unreliable mouse-move input packets (client to server).
///
/// Only `InputEvent::MouseMove` is routed this way. All other input events
/// (key presses, mouse buttons, scroll) remain on the reliable input stream
/// so that ordering and delivery guarantees are preserved.
pub const DATAGRAM_TAG_INPUT: u8 = 0x03;

/// Encode a `ControlMsg` into length-prefixed bytes ready to write to a QUIC stream.
pub fn encode_msg(msg: &ControlMsg) -> (out: Vec<u8>)
    ensures
        out@ == framed(ControlMsg::enc(msg@)),
{
    encode_frame(msg)
}

/// Decode a `ControlMsg` from a length-prefixed byte slice.
/// Returns `(msg, bytes_consumed)`.
pub fn decode_msg(buf: &[u8]) -> (r: Option<(ControlMsg, usize)>)
    ensures
        match unframed::<ControlMsg>(buf@) {
            Some((m, n)) => r matches Some((msg, k)) && msg@ == m && k == n,
            None => r is None,
        },
{
    decode_frame::<ControlMsg>(buf)
}

/// Encode a cursor-state update as a tagged QUIC datagram.
///
/// Wire format: `[DATAGRAM_TAG_CURSOR (1 byte)] [bincode(RemoteCursorState)]`
pub fn encode_cursor_datagram(state: &RemoteCursorState) -> (b: Bytes)
    ensures
        content(b) == seq![DATAGRAM_TAG_CURSOR] + RemoteCursorState::enc(*state),
{
    encode_tagged(DATAGRAM_TAG_CURSOR, state)
}

/// Decode a cursor-state datagram received over QUIC.
/// Returns `None` if the tag byte is missing or wrong, or decoding fails.
pub fn decode_cursor_datagram(buf: &[u8]) -> (r: Option<RemoteCursorState>)
    ensures
        r == untagged::<RemoteCursorState>(DATAGRAM_TAG_CURSOR, buf@),
{
    decode_tagged::<RemoteCursorState>(DATAGRAM_TAG_CURSOR, buf)
}

/// Wrap a pre-built video fragment packet (24-byte header + encoded or parity data) in a
/// tagged QUIC datagram ready to pass to `Connection::send_datagram`.
///
/// Wire format: `[DATAGRAM_TAG_VIDEO (1 byte)] [VideoPacketHeader (24 bytes)] [video or parity data]`
pub fn encode_video_datagram(packet: &[u8]) -> (b: Bytes)
    ensures
        content(b) == seq![DATAGRAM_TAG_VIDEO] + packet@,
{
    tag_packet(DATAGRAM_TAG_VIDEO, packet)
}

/// Encode an `InputPacket` as an unreliable QUIC datagram (client to server).
///
/// Wire format: `[DATAGRAM_TAG_INPUT (1 byte)] [bincode(InputPacket)]`
///
/// Only `InputEvent::MouseMove` events should be sent this way; all other
/// input events travel on the reliable input stream.
pub fn encode_input_datagram(packet: &InputPacket) -> (b: Bytes)
    ensures
        content(b) == seq![DATAGRAM_TAG_INPUT] + InputPacket::enc(*packet),
{
    encode_tagged(DATAGRAM_TAG_INPUT, packet)
}

/// Decode an input datagram received over QUIC.
///
/// Returns `None` if the tag byte is missing or wrong, or bincode decoding fails.
pub fn decode_input_datagram(buf: &[u8]) -> (r: Option<InputPacket>)
    ensures
        r == untagged::<InputPacket>(DATAGRAM_TAG_INPUT, buf@),
{
    decode_tagged::<InputPacket>(DATAGRAM_TAG_INPUT, buf)
}

/// `decode_msg` undoes `encode_msg`, whatever follows the message: it gives the
/// message and the length of its frame. (A frame announces at most 2^32 - 1
/// payload bytes.)
pub proof fn control_msg_round_trip(m: ControlMsgView, tail: Seq<u8>)
    requires
        ControlMsg::enc(m).len() <= u32::MAX,
    ensures
        unframed::<ControlMsg>(framed(ControlMsg::enc(m)) + tail) == Some(
            (m, framed(ControlMsg::enc(m)).len()),
        ),
{
    frame_round_trip::<ControlMsg>(m, tail);
}

/// A cursor state sent as a datagram is the state received.
pub proof fn cursor_datagram_round_trip(state: RemoteCursorState)
    ensures
        untagged::<RemoteCursorState>(
            DATAGRAM_TAG_CURSOR,
            seq![DATAGRAM_TAG_CURSOR] + RemoteCursorState::enc(state),
        ) == Some(state),
{
    lemma_cursor_state_len(state);
    datagram_round_trip::<RemoteCursorState>(DATAGRAM_TAG_CURSOR, state);
}

/// An input packet sent as a datagram is the packet received.
pub proof fn input_datagram_round_trip(packet: InputPacket)
    ensures
        untagged::<InputPacket>(
            DATAGRAM_TAG_INPUT,
            seq![DATAGRAM_TAG_INPUT] + InputPacket::enc(packet),
        ) == Some(packet),
{
    lemma_input_packet_len(packet);
    datagram_round_trip::<InputPacket>(DATAGRAM_TAG_INPUT, packet);
}

/// Each kind of datagram has its first byte: 1 for the cursor, 2 for video and 3 for input.
/// One that begins with another byte, or is empty, is none of that kind.
pub proof fn datagrams_are_told_by_their_first_byte(s: Seq<u8>)
    ensures
        DATAGRAM_TAG_VIDEO == 2,
        s.len() == 0 || s[0] != 1 ==> untagged::<RemoteCursorState>(DATAGRAM_TAG_CURSOR, s) is None,
        s.len() == 0 || s[0] != 3 ==> untagged::<InputPacket>(DATAGRAM_TAG_INPUT, s) is None,
        s.len() > 0 && s[0] == 1 ==> match RemoteCursorState::dec(s.skip(1)) {
            Some((state, _)) => untagged::<RemoteCursorState>(DATAGRAM_TAG_CURSOR, s) == Some(
                state,
            ),
            None => untagged::<RemoteCursorState>(DATAGRAM_TAG_CURSOR, s) is None,
        },
        s.len() > 0 && s[0] == 3 ==> match InputPacket::dec(s.skip(1)) {
            Some((packet, _)) => untagged::<InputPacket>(DATAGRAM_TAG_INPUT, s) == Some(packet),
            None => untagged::<InputPacket>(DATAGRAM_TAG_INPUT, s) is None,
        },
{
}

} // verus!
