//! On-wire packet definitions for the streamd video and input channels.
//!
//! Video frames are split into fragments.
//! Input events travel over a QUIC unidirectional stream.

use crate::wire::{
    get_le, le_bytes, le_value, lemma_le_bounds, lemma_le_round_trip, lemma_le_value_bound, put_le,
    the_lowest_byte_comes_first,
};
use crate::yin_yang_proto::packets::{clone_codecs, clone_displays, clone_opt_string};
pub use crate::yin_yang_proto::packets::{
    display_views, opt_view, Codec, DisplayInfo, DisplayInfoView, InputEvent, InputPacket,
    KeyModifiers, MouseButton, RemoteCursorState, SessionReject,
};
use vstd::prelude::*;
use vstd::slice::slice_subrange;

verus! {

// ---------------------------------------------------------------------------
// Video transport
// ---------------------------------------------------------------------------

/// Flags of a video packet, as a set of the masks below.
#[derive(Clone, Copy, Debug, PartialEq, Eq, Structural)]
pub struct VideoFlags {
    pub bits: u8,
}

impl VideoFlags {
    /// This frame is an IDR (keyframe).
    pub const KEY_FRAME: u8 = 0b0000_0001;

    /// This is the final slice in the frame.
    pub const LAST_SLICE: u8 = 0b0000_0010;

    /// All flags of `mask` are set.
    pub open spec fn has(self, mask: u8) -> bool {
        self.bits & mask == mask
    }

    pub fn contains(&self, mask: u8) -> (r: bool)
        ensures
            r == self.has(mask),
    {
        self.bits & mask == mask
    }

    /// Keeps the known flags and drops every other bit.
    pub fn from_bits_truncate(bits: u8) -> (r: VideoFlags)
        ensures
            r.bits == bits & 0b0000_0011,
    {
        VideoFlags { bits: bits & 0b0000_0011 }
    }

    /// The flags of a packet that does or does not carry each of them.
    pub open spec fn of(key_frame: bool, last_slice: bool) -> VideoFlags {
        VideoFlags {
            bits: if key_frame {
                if last_slice {
                    3
                } else {
                    1
                }
            } else if last_slice {
                2
            } else {
                0
            },
        }
    }

    /// Collects the flags of a packet.
    pub fn collect(key_frame: bool, last_slice: bool) -> (r: VideoFlags)
        ensures
            r == VideoFlags::of(key_frame, last_slice),
    {
        let mut bits: u8 = 0;
        if key_frame {
            bits = bits | VideoFlags::KEY_FRAME;
        }
        if last_slice {
            bits = bits | VideoFlags::LAST_SLICE;
        }
        proof {
            assert(0u8 | 1u8 == 1u8 && 0u8 | 2u8 == 2u8 && 1u8 | 2u8 == 3u8) by (bit_vector);
        }
        VideoFlags { bits }
    }
}

/// A packet's flags tell exactly what was collected into them.
pub proof fn flags_tell(key_frame: bool, last_slice: bool)
    ensures
        VideoFlags::of(key_frame, last_slice).has(VideoFlags::KEY_FRAME) == key_frame,
        VideoFlags::of(key_frame, last_slice).has(VideoFlags::LAST_SLICE) == last_slice,
{
    assert(3u8 & 1u8 == 1u8 && 3u8 & 2u8 == 2u8 && 1u8 & 1u8 == 1u8 && 1u8 & 2u8 == 0u8 && 2u8
        & 1u8 == 0u8 && 2u8 & 2u8 == 2u8 && 0u8 & 1u8 == 0u8 && 0u8 & 2u8 == 0u8) by (bit_vector);
}

/// Header prepended to every video datagram. 18 bytes.
///
/// A single compressed frame may be split into multiple fragments.
/// Slices allow the decoder to start on the first slice before the second
/// has been encoded.
#[derive(Clone, Copy, Debug, PartialEq, Eq, Structural)]
pub struct VideoPacketHeader {
    /// Monotonically increasing frame counter (wraps at u32::MAX).
    pub frame_seq: u32,
    /// Microseconds since Unix epoch at encode-complete time.
    pub timestamp_us: u64,
    /// Which slice of the frame this fragment belongs to (0-indexed).
    pub slice_idx: u8,
    /// Bitfield of frame flags.
    pub flags: VideoFlags,
    /// Fragment index within the current slice (0-indexed).
    pub frag_idx: u16,
    /// Total number of fragments in the current slice.
    pub frag_total: u16,
}

impl VideoPacketHeader {
    /// Serialized as fixed little-endian bytes.
    pub const SIZE: usize = 18;

    pub fn is_keyframe(&self) -> (r: bool)
        ensures
            r == self.flags.has(VideoFlags::KEY_FRAME),
    {
        self.flags.contains(VideoFlags::KEY_FRAME)
    }

    pub fn is_last_slice(&self) -> (r: bool)
        ensures
            r == self.flags.has(VideoFlags::LAST_SLICE),
    {
        self.flags.contains(VideoFlags::LAST_SLICE)
    }

    /// The 18 bytes of the header.
    pub open spec fn bytes(self) -> Seq<u8> {
        le_bytes(self.frame_seq as nat, 4) + le_bytes(self.timestamp_us as nat, 8) + seq![
            self.slice_idx,
            self.flags.bits,
        ] + le_bytes(self.frag_idx as nat, 2) + le_bytes(self.frag_total as nat, 2)
    }

    /// The header in the first 18 bytes of `s`.
    pub open spec fn of_bytes(s: Seq<u8>) -> VideoPacketHeader {
        VideoPacketHeader {
            frame_seq: le_value(s.subrange(0, 4)) as u32,
            timestamp_us: le_value(s.subrange(4, 12)) as u64,
            slice_idx: s[12],
            flags: VideoFlags { bits: s[13] & 0b0000_0011 },
            frag_idx: le_value(s.subrange(14, 16)) as u16,
            frag_total: le_value(s.subrange(16, 18)) as u16,
        }
    }

    /// Appends the header.
    pub fn put(&self, out: &mut Vec<u8>)
        ensures
            final(out)@ == old(out)@ + self.bytes(),
    {
        put_le(out, self.frame_seq as u64, 4);
        put_le(out, self.timestamp_us, 8);
        out.push(self.slice_idx);
        out.push(self.flags.bits);
        put_le(out, self.frag_idx as u64, 2);
        put_le(out, self.frag_total as u64, 2);
        assert(out@ =~= old(out)@ + self.bytes());
    }
}

/// Parse a `VideoPacketHeader` from the first 18 bytes of a datagram.
/// Returns `(header, remaining_payload)` on success.
pub fn parse_video_header(buf: &[u8]) -> (r: Option<(VideoPacketHeader, &[u8])>)
    ensures
        r is Some <==> buf@.len() >= VideoPacketHeader::SIZE,
        r matches Some((header, payload)) ==> header == VideoPacketHeader::of_bytes(buf@)
            && payload@ == buf@.skip(18),
{
    if buf.len() < VideoPacketHeader::SIZE {
        return None;
    }
    let frame_seq = get_le(buf, 0, 4) as u32;
    let timestamp_us = get_le(buf, 4, 8);
    let slice_idx = buf[12];
    let flags = VideoFlags::from_bits_truncate(buf[13]);
    let frag_idx = get_le(buf, 14, 2) as u16;
    let frag_total = get_le(buf, 16, 2) as u16;
    let payload = slice_subrange(buf, VideoPacketHeader::SIZE, buf.len());
    proof {
        lemma_le_bounds();
        lemma_le_value_bound(buf@.subrange(0, 4));
        lemma_le_value_bound(buf@.subrange(4, 12));
        lemma_le_value_bound(buf@.subrange(14, 16));
        lemma_le_value_bound(buf@.subrange(16, 18));
        assert(payload@ =~= buf@.skip(18));
    }
    Some((
        VideoPacketHeader { frame_seq, timestamp_us, slice_idx, flags, frag_idx, frag_total },
        payload,
    ))
}

/// A header with known flags survives the wire: the bytes of the header
/// followed by any payload parse to that header and that payload.
pub proof fn video_header_round_trip(h: VideoPacketHeader, payload: Seq<u8>)
    requires
        h.flags.bits <= 0b0000_0011,
    ensures
        (h.bytes() + payload).len() == VideoPacketHeader::SIZE + payload.len(),
        VideoPacketHeader::of_bytes(h.bytes() + payload) == h,
        (h.bytes() + payload).skip(18) == payload,
{
    lemma_le_bounds();
    let s = h.bytes() + payload;
    lemma_le_round_trip(h.frame_seq as nat, 4);
    lemma_le_round_trip(h.timestamp_us as nat, 8);
    lemma_le_round_trip(h.frag_idx as nat, 2);
    lemma_le_round_trip(h.frag_total as nat, 2);
    assert(s.subrange(0, 4) =~= le_bytes(h.frame_seq as nat, 4));
    assert(s.subrange(4, 12) =~= le_bytes(h.timestamp_us as nat, 8));
    assert(s.subrange(14, 16) =~= le_bytes(h.frag_idx as nat, 2));
    assert(s.subrange(16, 18) =~= le_bytes(h.frag_total as nat, 2));
    assert(s.skip(18) =~= payload);
    let b = h.flags.bits;
    assert(b <= 3 ==> b & 0b0000_0011u8 == b) by (bit_vector);
}

/// Maximum UDP payload for internet-safe packets.
pub const MTU_WAN: usize = 1200;

/// Maximum UDP payload when jumbo frames are available (LAN).
pub const MTU_LAN: usize = 8900;

// ---------------------------------------------------------------------------
// QUIC control messages (stream #0)
// ---------------------------------------------------------------------------

/// Sent by the client immediately after QUIC connection is established.
#[derive(Debug)]
pub struct SessionRequest {
    /// Protocol version: must match server.
    pub version: u32,
    pub max_fps: u8,
    pub width: u32,
    pub height: u32,
    /// Ordered preference list; server picks the first it supports.
    pub preferred_codecs: Vec<Codec>,
    /// Stable server-provided display identifier to capture.
    /// If omitted, the server chooses a default display.
    pub display_id: Option<String>,
}

/// The content of a `SessionRequest`.
pub struct SessionRequestView {
    pub version: u32,
    pub max_fps: u8,
    pub width: u32,
    pub height: u32,
    pub preferred_codecs: Seq<Codec>,
    pub display_id: Option<Seq<char>>,
}

impl View for SessionRequest {
    type V = SessionRequestView;

    open spec fn view(&self) -> SessionRequestView {
        SessionRequestView {
            version: self.version,
            max_fps: self.max_fps,
            width: self.width,
            height: self.height,
            preferred_codecs: self.preferred_codecs@,
            display_id: opt_view(self.display_id),
        }
    }
}

/// Server response to `SessionRequest`.
#[derive(Debug)]
pub struct SessionAccept {
    pub codec: Codec,
    pub fps: u8,
    pub width: u32,
    pub height: u32,
    /// UDP port the server will send video to (on the same address).
    pub video_udp_port: u16,
    /// UDP port the client should bind for receiving video.
    pub client_video_udp_port: u16,
    /// The display the server selected for this session.
    pub selected_display: DisplayInfo,
}

/// The content of a `SessionAccept`.
pub struct SessionAcceptView {
    pub codec: Codec,
    pub fps: u8,
    pub width: u32,
    pub height: u32,
    pub video_udp_port: u16,
    pub client_video_udp_port: u16,
    pub selected_display: DisplayInfoView,
}

impl View for SessionAccept {
    type V = SessionAcceptView;

    open spec fn view(&self) -> SessionAcceptView {
        SessionAcceptView {
            codec: self.codec,
            fps: self.fps,
            width: self.width,
            height: self.height,
            video_udp_port: self.video_udp_port,
            client_video_udp_port: self.client_video_udp_port,
            selected_display: self.selected_display@,
        }
    }
}

impl Clone for SessionRequest {
    fn clone(&self) -> (r: SessionRequest)
        ensures
            r@ == self@,
    {
        SessionRequest {
            version: self.version,
            max_fps: self.max_fps,
            width: self.width,
            height: self.height,
            preferred_codecs: clone_codecs(&self.preferred_codecs),
            display_id: clone_opt_string(&self.display_id),
        }
    }
}

impl Clone for SessionAccept {
    fn clone(&self) -> (r: SessionAccept)
        ensures
            r@ == self@,
    {
        SessionAccept {
            codec: self.codec,
            fps: self.fps,
            width: self.width,
            height: self.height,
            video_udp_port: self.video_udp_port,
            client_video_udp_port: self.client_video_udp_port,
            selected_display: self.selected_display.clone(),
        }
    }
}

impl Clone for ControlMsg {
    fn clone(&self) -> (r: ControlMsg)
        ensures
            r@ == self@,
    {
        match self {
            ControlMsg::QueryDisplays => ControlMsg::QueryDisplays,
            ControlMsg::AvailableDisplays(d) => ControlMsg::AvailableDisplays(clone_displays(d)),
            ControlMsg::SessionRequest(r) => ControlMsg::SessionRequest(r.clone()),
            ControlMsg::SessionAccept(a) => ControlMsg::SessionAccept(a.clone()),
            ControlMsg::SessionReject(r) => ControlMsg::SessionReject(r.clone()),
            ControlMsg::RequestIdr => ControlMsg::RequestIdr,
            ControlMsg::Heartbeat(t) => ControlMsg::Heartbeat(*t),
            ControlMsg::Goodbye => ControlMsg::Goodbye,
        }
    }
}

/// Control message envelope: all messages on QUIC stream #0 use this.
#[derive(Debug)]
pub enum ControlMsg {
    /// Ask the server for the currently available capture displays.
    QueryDisplays,
    /// Server response to `QueryDisplays`.
    AvailableDisplays(Vec<DisplayInfo>),
    SessionRequest(SessionRequest),
    SessionAccept(SessionAccept),
    SessionReject(SessionReject),
    /// Client requests an immediate IDR keyframe (e.g. after packet loss).
    RequestIdr,
    /// Heartbeat with server-side telemetry.
    Heartbeat(ServerTelemetry),
    /// Graceful shutdown.
    Goodbye,
}

/// The content of a `ControlMsg`.
pub enum ControlMsgView {
    QueryDisplays,
    AvailableDisplays(Seq<DisplayInfoView>),
    SessionRequest(SessionRequestView),
    SessionAccept(SessionAcceptView),
    SessionReject(Seq<char>),
    RequestIdr,
    Heartbeat(ServerTelemetry),
    Goodbye,
}

impl View for ControlMsg {
    type V = ControlMsgView;

    open spec fn view(&self) -> ControlMsgView {
        match self {
            ControlMsg::QueryDisplays => ControlMsgView::QueryDisplays,
            ControlMsg::AvailableDisplays(d) => ControlMsgView::AvailableDisplays(
                display_views(d@),
            ),
            ControlMsg::SessionRequest(r) => ControlMsgView::SessionRequest(r@),
            ControlMsg::SessionAccept(a) => ControlMsgView::SessionAccept(a@),
            ControlMsg::SessionReject(r) => ControlMsgView::SessionReject(r@),
            ControlMsg::RequestIdr => ControlMsgView::RequestIdr,
            ControlMsg::Heartbeat(t) => ControlMsgView::Heartbeat(*t),
            ControlMsg::Goodbye => ControlMsgView::Goodbye,
        }
    }
}

/// Per-heartbeat telemetry stamped by the server.
#[derive(Clone, Copy, Debug, PartialEq, Eq, Structural)]
pub struct ServerTelemetry {
    /// Average encode time in microseconds over the last second.
    pub avg_encode_us: u32,
    /// Current UDP send queue depth in frames.
    pub send_queue_frames: u8,
    /// Number of IDR frames sent in the last second.
    pub idr_count: u8,
}

/// Protocol version. Both sides must agree or the server rejects the session.
pub const PROTOCOL_VERSION: u32 = 2;

/// Each flag of a video packet is one bit: the lowest for a keyframe, and the next for the
/// last slice.
pub proof fn video_flags_are_single_bits(flags: VideoFlags)
    ensures
        flags.has(VideoFlags::KEY_FRAME) <==> flags.bits % 2 == 1,
        flags.has(VideoFlags::LAST_SLICE) <==> (flags.bits / 2) % 2 == 1,
{
    let b = flags.bits;
    assert((b & 1 == 1 <==> b % 2 == 1) && (b & 2 == 2 <==> (b / 2) % 2 == 1)) by (bit_vector);
}

/// Where the fields of a header stand in its bytes: the number of the frame in the first
/// four, its time in the next eight, the slice in byte 12 and the flags in byte 13, then
/// the fragment and the number of fragments in two bytes each. The lowest byte of each
/// comes first, and of the flags the two lowest bits count.
pub proof fn headers_are_read_at_their_places(s: Seq<u8>)
    requires
        s.len() >= 18,
    ensures
        ({
            let h = VideoPacketHeader::of_bytes(s);
            &&& h.frame_seq == s[0] + 0x100 * s[1] + 0x1_0000 * s[2] + 0x100_0000 * s[3]
            &&& h.timestamp_us == s[4] + 0x100 * s[5] + 0x1_0000 * s[6] + 0x100_0000 * s[7]
                + 0x1_0000_0000 * s[8] + 0x100_0000_0000 * s[9] + 0x1_0000_0000_0000 * s[10]
                + 0x100_0000_0000_0000 * s[11]
            &&& h.slice_idx == s[12]
            &&& h.flags.bits == s[13] % 4
            &&& h.frag_idx == s[14] + 0x100 * s[15]
            &&& h.frag_total == s[16] + 0x100 * s[17]
        }),
{
    the_lowest_byte_comes_first(s.subrange(0, 4));
    the_lowest_byte_comes_first(s.subrange(4, 12));
    the_lowest_byte_comes_first(s.subrange(14, 16));
    the_lowest_byte_comes_first(s.subrange(16, 18));
    let f = s[13];
    assert(f & 3 == f % 4) by (bit_vector);
}

} // verus!
