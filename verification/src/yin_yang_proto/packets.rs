//! On-wire packet definitions for the Yin-Yang video and input channels.
//!
//! Video frames are split into fragments and delivered as QUIC unreliable
//! datagrams on the shared control connection (see `VideoTransport`).
//! Input events travel over a QUIC unidirectional stream.

use crate::wire::{
    get_le, le_bytes, le_value, lemma_le_bounds, lemma_le_round_trip, lemma_le_value_bound,
    slice_to_vec, the_lowest_byte_comes_first,
};
use vstd::prelude::*;
use vstd::slice::slice_subrange;

verus! {

// ---------------------------------------------------------------------------
// Video transport
// ---------------------------------------------------------------------------

/// Flags of a video packet, as a set of the masks below.
#[derive(Clone, Copy, Debug, PartialEq, Eq, Structural)]
pub struct VideoFlags {
    pub bits: u8,
}

impl VideoFlags {
    /// This frame is an IDR (keyframe).
    pub const KEY_FRAME: u8 = 0b0000_0001;

    /// This packet belongs to the final slice in the frame.
    pub const LAST_SLICE: u8 = 0b0000_0010;

    /// This packet carries XOR parity bytes rather than encoded video data.
    pub const FEC_PARITY: u8 = 0b0000_0100;

    /// All flags of `mask` are set.
    pub open spec fn has(self, mask: u8) -> bool {
        self.bits & mask == mask
    }

    pub fn contains(&self, mask: u8) -> (r: bool)
        ensures
            r == self.has(mask),
    {
        self.bits & mask == mask
    }

    /// Keeps the known flags and drops every other bit.
    pub fn from_bits_truncate(bits: u8) -> (r: VideoFlags)
        ensures
            r.bits == bits & 0b0000_0111,
    {
        VideoFlags { bits: bits & 0b0000_0111 }
    }
}

/// Header prepended to every video datagram fragment. 24 bytes, fixed layout.
///
/// A single compressed frame may be split into multiple fragments because QUIC
/// datagram payloads are bounded by the path MTU. Slices allow the decoder to
/// start on the first slice while the second is still in flight. Each slice is
/// additionally protected with XOR parity over fixed-size groups of data
/// fragments so the receiver can recover one lost fragment per group without
/// waiting for an IDR.
#[derive(Clone, Copy, Debug, PartialEq, Eq, Structural)]
pub struct VideoPacketHeader {
    /// Monotonically increasing frame counter (wraps at u32::MAX).
    pub frame_seq: u32,
    /// Microseconds since Unix epoch at encode-complete time.
    pub timestamp_us: u64,
    /// Which slice of the frame this packet belongs to (0-indexed).
    pub slice_idx: u8,
    /// Bitfield of frame and packet flags.
    pub flags: VideoFlags,
    /// Data-fragment index within the current slice (0-indexed) for normal
    /// packets, or the FEC group index for parity packets.
    pub frag_idx: u16,
    /// Total number of data fragments in the current slice.
    pub frag_total: u16,
    /// Total compressed payload bytes in the current slice.
    pub slice_len: u32,
    /// Payload size used for all non-final data fragments in the slice.
    pub frag_payload_size: u16,
}

impl VideoPacketHeader {
    /// Serialized as fixed little-endian bytes.
    pub const SIZE: usize = 24;

    pub fn is_keyframe(&self) -> (r: bool)
        ensures
            r == self.flags.has(VideoFlags::KEY_FRAME),
    {
        self.flags.contains(VideoFlags::KEY_FRAME)
    }

    pub fn is_last_slice(&self) -> (r: bool)
        ensures
            r == self.flags.has(VideoFlags::LAST_SLICE),
    {
        self.flags.contains(VideoFlags::LAST_SLICE)
    }

    pub fn is_fec_parity(&self) -> (r: bool)
        ensures
            r == self.flags.has(VideoFlags::FEC_PARITY),
    {
        self.flags.contains(VideoFlags::FEC_PARITY)
    }

    /// The 24 bytes of the header.
    pub open spec fn bytes(self) -> Seq<u8> {
        le_bytes(self.frame_seq as nat, 4) + le_bytes(self.timestamp_us as nat, 8) + seq![
            self.slice_idx,
            self.flags.bits,
        ] + le_bytes(self.frag_idx as nat, 2) + le_bytes(self.frag_total as nat, 2) + le_bytes(
            self.slice_len as nat,
            4,
        ) + le_bytes(self.frag_payload_size as nat, 2)
    }

    /// The header in the first 24 bytes of `s`.
    pub open spec fn of_bytes(s: Seq<u8>) -> VideoPacketHeader {
        VideoPacketHeader {
            frame_seq: le_value(s.subrange(0, 4)) as u32,
            timestamp_us: le_value(s.subrange(4, 12)) as u64,
            slice_idx: s[12],
            flags: VideoFlags { bits: s[13] & 0b0000_0111 },
            frag_idx: le_value(s.subrange(14, 16)) as u16,
            frag_total: le_value(s.subrange(16, 18)) as u16,
            slice_len: le_value(s.subrange(18, 22)) as u32,
            frag_payload_size: le_value(s.subrange(22, 24)) as u16,
        }
    }
}

/// Number of data fragments protected by one XOR parity datagram.
///
/// Each parity packet can recover any single lost data fragment within its
/// group. A group size of 4 keeps overhead at 25% while still repairing the
/// most common isolated datagram loss pattern.
pub const VIDEO_FEC_DATA_SHARDS: usize = 4;

/// How the server delivers video frames to the client.
#[derive(Clone, Copy, Debug, PartialEq, Eq, Structural)]
pub enum VideoTransport {
    /// Video fragments are sent as QUIC unreliable datagrams on the existing
    /// control connection. No additional port or socket is required on either
    /// end: the client-initiated QUIC connection handles NAT traversal for
    /// both directions.
    QuicDatagram,
}

/// Parse a `VideoPacketHeader` from the first 24 bytes of a datagram payload.
/// Returns `(header, remaining_payload)` on success.
pub fn parse_video_header(buf: &[u8]) -> (r: Option<(VideoPacketHeader, &[u8])>)
    ensures
        r is Some <==> buf@.len() >= VideoPacketHeader::SIZE,
        r matches Some((header, payload)) ==> header == VideoPacketHeader::of_bytes(buf@)
            && payload@ == buf@.skip(24),
{
    if buf.len() < VideoPacketHeader::SIZE {
        return None;
    }
    let frame_seq = get_le(buf, 0, 4) as u32;
    let timestamp_us = get_le(buf, 4, 8);
    let slice_idx = buf[12];
    let flags = VideoFlags::from_bits_truncate(buf[13]);
    let frag_idx = get_le(buf, 14, 2) as u16;
    let frag_total = get_le(buf, 16, 2) as u16;
    let slice_len = get_le(buf, 18, 4) as u32;
    let frag_payload_size = get_le(buf, 22, 2) as u16;
    let payload = slice_subrange(buf, VideoPacketHeader::SIZE, buf.len());
    proof {
        lemma_le_bounds();
        lemma_le_value_bound(buf@.subrange(0, 4));
        lemma_le_value_bound(buf@.subrange(4, 12));
        lemma_le_value_bound(buf@.subrange(14, 16));
        lemma_le_value_bound(buf@.subrange(16, 18));
        lemma_le_value_bound(buf@.subrange(18, 22));
        lemma_le_value_bound(buf@.subrange(22, 24));
        assert(payload@ =~= buf@.skip(24));
    }
    Some((
        VideoPacketHeader {
            frame_seq,
            timestamp_us,
            slice_idx,
            flags,
            frag_idx,
            frag_total,
            slice_len,
            frag_payload_size,
        },
        payload,
    ))
}

/// A header with known flags survives the wire: the bytes of the header
/// followed by any payload parse to that header and that payload.
pub proof fn video_header_round_trip(h: VideoPacketHeader, payload: Seq<u8>)
    requires
        h.flags.bits <= 0b0000_0111,
    ensures
        (h.bytes() + payload).len() == VideoPacketHeader::SIZE + payload.len(),
        VideoPacketHeader::of_bytes(h.bytes() + payload) == h,
        (h.bytes() + payload).skip(24) == payload,
{
    lemma_le_bounds();
    let s = h.bytes() + payload;
    lemma_le_round_trip(h.frame_seq as nat, 4);
    lemma_le_round_trip(h.timestamp_us as nat, 8);
    lemma_le_round_trip(h.frag_idx as nat, 2);
    lemma_le_round_trip(h.frag_total as nat, 2);
    lemma_le_round_trip(h.slice_len as nat, 4);
    lemma_le_round_trip(h.frag_payload_size as nat, 2);
    assert(s.subrange(0, 4) =~= le_bytes(h.frame_seq as nat, 4));
    assert(s.subrange(4, 12) =~= le_bytes(h.timestamp_us as nat, 8));
    assert(s.subrange(14, 16) =~= le_bytes(h.frag_idx as nat, 2));
    assert(s.subrange(16, 18) =~= le_bytes(h.frag_total as nat, 2));
    assert(s.subrange(18, 22) =~= le_bytes(h.slice_len as nat, 4));
    assert(s.subrange(22, 24) =~= le_bytes(h.frag_payload_size as nat, 2));
    assert(s.skip(24) =~= payload);
    let b = h.flags.bits;
    assert(b <= 7 ==> b & 0b0000_0111u8 == b) by (bit_vector);
}

/// Conservative maximum video payload bytes per QUIC datagram on internet paths.
/// Accounts for QUIC short-header overhead (~28 bytes), the 1-byte datagram
/// type tag, and the 24-byte video fragment header, leaving room for the
/// encoded video data. The actual limit is negotiated at runtime via
/// `Connection::max_datagram_size()`; this constant is the safe fallback.
pub const MTU_WAN: usize = 1200;

// ---------------------------------------------------------------------------
// Input events
// ---------------------------------------------------------------------------

/// A single input event sent from the Mac client to the server.
#[derive(Clone, Copy, Debug, PartialEq, Eq, Structural)]
pub struct InputPacket {
    /// Microseconds since Unix epoch when the event was captured.
    pub timestamp_us: u64,
    pub event: InputEvent,
}

/// All input event variants forwarded from client to server.
#[derive(Clone, Copy, Debug, PartialEq, Eq, Structural)]
pub enum InputEvent {
    /// Relative mouse movement (delta pixels).
    MouseMove { dx: i16, dy: i16 },
    /// Mouse button press/release.
    MouseButton { button: MouseButton, pressed: bool },
    /// Scroll wheel. The deltas are single-precision numbers, held as their bits.
    MouseScroll { dx_bits: u32, dy_bits: u32 },
    /// Keyboard key press/release using USB HID usage codes.
    /// Using HID codes ensures layout-independence between Mac and Linux/Windows.
    KeyEvent { hid_usage: u32, pressed: bool, modifiers: KeyModifiers },
}

#[derive(Clone, Copy, Debug, PartialEq, Eq, Hash, Structural)]
pub enum MouseButton {
    Left,
    Right,
    Middle,
    Side(u8),
}

/// The modifier keys in force, as a set of the masks below.
#[derive(Clone, Copy, Debug, PartialEq, Eq, Structural)]
pub struct KeyModifiers {
    pub bits: u32,
}

impl KeyModifiers {
    pub const SHIFT: u32 = 1;

    pub const CTRL: u32 = 2;

    pub const ALT: u32 = 4;

    pub const META: u32 = 8;

    pub const CAPS: u32 = 16;

    pub const NUMLOCK: u32 = 32;

    /// All modifiers of `mask` are in force.
    pub open spec fn has(self, mask: u32) -> bool {
        self.bits & mask == mask
    }

    pub fn empty() -> (r: KeyModifiers)
        ensures
            r.bits == 0,
    {
        KeyModifiers { bits: 0 }
    }

    pub fn contains(&self, mask: u32) -> (r: bool)
        ensures
            r == self.has(mask),
    {
        self.bits & mask == mask
    }

    /// Adds the modifiers of `mask` if `on`, else takes them away.
    pub fn set(&mut self, mask: u32, on: bool)
        ensures
            final(self).bits == if on {
                old(self).bits | mask
            } else {
                old(self).bits & !mask
            },
    {
        if on {
            self.bits = self.bits | mask;
        } else {
            self.bits = self.bits & !mask;
        }
    }

    /// Turns each modifier of `mask` over.
    pub fn toggle(&mut self, mask: u32)
        ensures
            final(self).bits == old(self).bits ^ mask,
    {
        self.bits = self.bits ^ mask;
    }
}

// ---------------------------------------------------------------------------
// QUIC control messages (stream #0)
// ---------------------------------------------------------------------------

/// Sent by the client immediately after QUIC connection is established.
#[derive(Debug)]
pub struct SessionRequest {
    /// Protocol version: must match server.
    pub version: u32,
    /// Stable logical client session identifier reused across reconnects.
    pub client_session_id: String,
    /// Whether the server may adapt bitrate/FPS during the session.
    pub adaptive_streaming: bool,
    pub max_fps: u8,
    pub min_fps: u8,
    /// Zero means "use the server default floor".
    pub min_bitrate_bps: u32,
    /// Zero means "use the server preset ceiling".
    pub max_bitrate_bps: u32,
    pub width: u32,
    pub height: u32,
    /// Ordered preference list; server picks the first it supports.
    pub preferred_codecs: Vec<Codec>,
    /// Stable server-provided display identifier to capture.
    /// If omitted, the server chooses a default display.
    pub display_id: Option<String>,
}

/// The content of a `SessionRequest`.
pub struct SessionRequestView {
    pub version: u32,
    pub client_session_id: Seq<char>,
    pub adaptive_streaming: bool,
    pub max_fps: u8,
    pub min_fps: u8,
    pub min_bitrate_bps: u32,
    pub max_bitrate_bps: u32,
    pub width: u32,
    pub height: u32,
    pub preferred_codecs: Seq<Codec>,
    pub display_id: Option<Seq<char>>,
}

impl View for SessionRequest {
    type V = SessionRequestView;

    open spec fn view(&self) -> SessionRequestView {
        SessionRequestView {
            version: self.version,
            client_session_id: self.client_session_id@,
            adaptive_streaming: self.adaptive_streaming,
            max_fps: self.max_fps,
            min_fps: self.min_fps,
            min_bitrate_bps: self.min_bitrate_bps,
            max_bitrate_bps: self.max_bitrate_bps,
            width: self.width,
            height: self.height,
            preferred_codecs: self.preferred_codecs@,
            display_id: opt_view(self.display_id),
        }
    }
}

/// Server response to `SessionRequest`.
#[derive(Debug)]
pub struct SessionAccept {
    pub codec: Codec,
    pub fps: u8,
    pub width: u32,
    pub height: u32,
    /// How the server will deliver video to the client.
    pub video_transport: VideoTransport,
    /// The display the server selected for this session.
    pub selected_display: DisplayInfo,
}

/// The content of a `SessionAccept`.
pub struct SessionAcceptView {
    pub codec: Codec,
    pub fps: u8,
    pub width: u32,
    pub height: u32,
    pub video_transport: VideoTransport,
    pub selected_display: DisplayInfoView,
}

impl View for SessionAccept {
    type V = SessionAcceptView;

    open spec fn view(&self) -> SessionAcceptView {
        SessionAcceptView {
            codec: self.codec,
            fps: self.fps,
            width: self.width,
            height: self.height,
            video_transport: self.video_transport,
            selected_display: self.selected_display@,
        }
    }
}

/// Server rejection (bad version, unsupported codec, etc.).
#[derive(Debug)]
pub struct SessionReject {
    pub reason: String,
}

impl View for SessionReject {
    type V = Seq<char>;

    open spec fn view(&self) -> Seq<char> {
        self.reason@
    }
}

/// Codec identifier, ordered from lowest to highest latency.
#[derive(Clone, Copy, Debug, PartialEq, Eq, Structural)]
pub enum Codec {
    H264,
    Hevc,
    Av1,
}

/// A display/output currently available on the server.
#[derive(Debug)]
pub struct DisplayInfo {
    /// Stable machine-readable identifier used in `SessionRequest.display_id`.
    pub id: String,
    /// Display ordinal in the server-provided list.
    pub index: u32,
    /// Short name for the display when the platform exposes one.
    pub name: String,
    /// Optional human-readable description.
    pub description: Option<String>,
    /// Current pixel width of the display.
    pub width: u32,
    /// Current pixel height of the display.
    pub height: u32,
}

/// The content of a `DisplayInfo`.
pub struct DisplayInfoView {
    pub id: Seq<char>,
    pub index: u32,
    pub name: Seq<char>,
    pub description: Option<Seq<char>>,
    pub width: u32,
    pub height: u32,
}

impl View for DisplayInfo {
    type V = DisplayInfoView;

    open spec fn view(&self) -> DisplayInfoView {
        DisplayInfoView {
            id: self.id@,
            index: self.index,
            name: self.name@,
            description: opt_view(self.description),
            width: self.width,
            height: self.height,
        }
    }
}

/// A copy of an optional string.
pub fn clone_opt_string(text: &Option<String>) -> (r: Option<String>)
    ensures
        opt_view(r) == opt_view(*text),
{
    match text {
        Some(t) => Some(t.clone()),
        None => None,
    }
}

/// The view of an optional string.
pub open spec fn opt_view(text: Option<String>) -> Option<Seq<char>> {
    match text {
        Some(t) => Some(t@),
        None => None,
    }
}

impl Clone for DisplayInfo {
    fn clone(&self) -> (r: DisplayInfo)
        ensures
            r@ == self@,
    {
        DisplayInfo {
            id: self.id.clone(),
            index: self.index,
            name: self.name.clone(),
            description: clone_opt_string(&self.description),
            width: self.width,
            height: self.height,
        }
    }
}

/// A copy of a list of displays.
pub fn clone_displays(displays: &Vec<DisplayInfo>) -> (r: Vec<DisplayInfo>)
    ensures
        display_views(r@) == display_views(displays@),
{
    let mut r: Vec<DisplayInfo> = Vec::new();
    let mut i: usize = 0;
    while i < displays.len()
        invariant
            i <= displays@.len(),
            r@.len() == i,
            forall|j: int| 0 <= j < i ==> (#[trigger] r@[j])@ == displays@[j]@,
        decreases displays@.len() - i,
    {
        r.push(displays[i].clone());
        i = i + 1;
    }
    assert(display_views(r@) =~= display_views(displays@));
    r
}

/// A copy of a list of codecs.
pub fn clone_codecs(codecs: &Vec<Codec>) -> (r: Vec<Codec>)
    ensures
        r@ == codecs@,
{
    let mut r: Vec<Codec> = Vec::new();
    let mut i: usize = 0;
    while i < codecs.len()
        invariant
            i <= codecs@.len(),
            r@ == codecs@.take(i as int),
        decreases codecs@.len() - i,
    {
        r.push(codecs[i]);
        i = i + 1;
        assert(r@ =~= codecs@.take(i as int));
    }
    assert(r@ =~= codecs@);
    r
}

impl Clone for SessionRequest {
    fn clone(&self) -> (r: SessionRequest)
        ensures
            r@ == self@,
    {
        SessionRequest {
            version: self.version,
            client_session_id: self.client_session_id.clone(),
            adaptive_streaming: self.adaptive_streaming,
            max_fps: self.max_fps,
            min_fps: self.min_fps,
            min_bitrate_bps: self.min_bitrate_bps,
            max_bitrate_bps: self.max_bitrate_bps,
            width: self.width,
            height: self.height,
            preferred_codecs: clone_codecs(&self.preferred_codecs),
            display_id: clone_opt_string(&self.display_id),
        }
    }
}

impl Clone for SessionAccept {
    fn clone(&self) -> (r: SessionAccept)
        ensures
            r@ == self@,
    {
        SessionAccept {
            codec: self.codec,
            fps: self.fps,
            width: self.width,
            height: self.height,
            video_transport: self.video_transport,
            selected_display: self.selected_display.clone(),
        }
    }
}

impl Clone for SessionReject {
    fn clone(&self) -> (r: SessionReject)
        ensures
            r@ == self@,
    {
        SessionReject { reason: self.reason.clone() }
    }
}

impl Clone for RemoteCursorShape {
    fn clone(&self) -> (r: RemoteCursorShape)
        ensures
            r@ == self@,
    {
        RemoteCursorShape {
            generation: self.generation,
            kind: self.kind,
            width: self.width,
            height: self.height,
            pitch: self.pitch,
            data: slice_to_vec(self.data.as_slice()),
        }
    }
}

impl Clone for ControlMsg {
    fn clone(&self) -> (r: ControlMsg)
        ensures
            r@ == self@,
    {
        match self {
            ControlMsg::QueryDisplays => ControlMsg::QueryDisplays,
            ControlMsg::AvailableDisplays(d) => ControlMsg::AvailableDisplays(clone_displays(d)),
            ControlMsg::SessionRequest(r) => ControlMsg::SessionRequest(r.clone()),
            ControlMsg::SessionAccept(a) => ControlMsg::SessionAccept(a.clone()),
            ControlMsg::SessionReject(r) => ControlMsg::SessionReject(r.clone()),
            ControlMsg::ClientTelemetry(t) => ControlMsg::ClientTelemetry(*t),
            ControlMsg::RequestIdr => ControlMsg::RequestIdr,
            ControlMsg::Heartbeat(t) => ControlMsg::Heartbeat(*t),
            ControlMsg::CursorShape(c) => ControlMsg::CursorShape(c.clone()),
            ControlMsg::CursorState(c) => ControlMsg::CursorState(*c),
            ControlMsg::Goodbye => ControlMsg::Goodbye,
            ControlMsg::FrameLost(seq) => ControlMsg::FrameLost(*seq),
        }
    }
}

/// Control message envelope: all messages on QUIC stream #0 use this.
#[derive(Debug)]
pub enum ControlMsg {
    /// Ask the server for the currently available capture displays.
    QueryDisplays,
    /// Server response to `QueryDisplays`.
    AvailableDisplays(Vec<DisplayInfo>),
    SessionRequest(SessionRequest),
    SessionAccept(SessionAccept),
    SessionReject(SessionReject),
    /// Client-side rolling telemetry used by the server adaptation loop.
    ClientTelemetry(ClientTelemetry),
    /// Client requests an immediate IDR keyframe (e.g. after packet loss).
    RequestIdr,
    /// Heartbeat with server-side telemetry.
    Heartbeat(ServerTelemetry),
    /// Reliable cursor shape update from the server.
    CursorShape(RemoteCursorShape),
    /// Cursor state update. Usually delivered as a QUIC datagram, with this
    /// stream variant available as a compatibility fallback.
    CursorState(RemoteCursorState),
    /// Graceful shutdown.
    Goodbye,
    /// Client reports that `frame_seq` was unrecoverably lost.
    ///
    /// The server responds by invalidating the matching encoded frame so
    /// subsequent P-frames reference only clean frames, avoiding a full IDR
    /// cycle.
    FrameLost(u32),
}

/// The content of a `ControlMsg`.
pub enum ControlMsgView {
    QueryDisplays,
    AvailableDisplays(Seq<DisplayInfoView>),
    SessionRequest(SessionRequestView),
    SessionAccept(SessionAcceptView),
    SessionReject(Seq<char>),
    ClientTelemetry(ClientTelemetry),
    RequestIdr,
    Heartbeat(ServerTelemetry),
    CursorShape(RemoteCursorShapeView),
    CursorState(RemoteCursorState),
    Goodbye,
    FrameLost(u32),
}

/// The contents of a list of displays.
pub open spec fn display_views(displays: Seq<DisplayInfo>) -> Seq<DisplayInfoView> {
    displays.map_values(|d: DisplayInfo| d@)
}

impl View for ControlMsg {
    type V = ControlMsgView;

    open spec fn view(&self) -> ControlMsgView {
        match self {
            ControlMsg::QueryDisplays => ControlMsgView::QueryDisplays,
            ControlMsg::AvailableDisplays(d) => ControlMsgView::AvailableDisplays(
                display_views(d@),
            ),
            ControlMsg::SessionRequest(r) => ControlMsgView::SessionRequest(r@),
            ControlMsg::SessionAccept(a) => ControlMsgView::SessionAccept(a@),
            ControlMsg::SessionReject(r) => ControlMsgView::SessionReject(r@),
            ControlMsg::ClientTelemetry(t) => ControlMsgView::ClientTelemetry(*t),
            ControlMsg::RequestIdr => ControlMsgView::RequestIdr,
            ControlMsg::Heartbeat(t) => ControlMsgView::Heartbeat(*t),
            ControlMsg::CursorShape(c) => ControlMsgView::CursorShape(c@),
            ControlMsg::CursorState(c) => ControlMsgView::CursorState(*c),
            ControlMsg::Goodbye => ControlMsgView::Goodbye,
            ControlMsg::FrameLost(seq) => ControlMsgView::FrameLost(*seq),
        }
    }
}

/// Per-window telemetry stamped by the client.
#[derive(Clone, Copy, Debug, PartialEq, Eq, Structural)]
pub struct ClientTelemetry {
    /// Number of unrecoverable frames dropped by the reassembler.
    pub unrecoverable_frames: u32,
    /// Number of frames that required FEC repair before decode.
    pub recovered_frames: u32,
    /// Number of individual fragments recovered by FEC.
    pub recovered_fragments: u32,
    /// Number of frames presented by the renderer.
    pub presented_frames: u32,
    /// Number of frames dropped by the renderer while keeping latency low.
    pub render_dropped_frames: u32,
    /// Average time from datagram reassembly to decode submission.
    pub avg_decode_queue_us: u32,
    /// Average time from decode completion to render submission.
    pub avg_render_queue_us: u32,
}

/// Per-heartbeat telemetry stamped by the server.
#[derive(Clone, Copy, Debug, PartialEq, Eq, Structural)]
pub struct ServerTelemetry {
    /// Average time spent waiting for/obtaining a frame from capture.
    pub avg_capture_wait_us: u32,
    /// Average time spent converting/preparing the frame for encode.
    pub avg_capture_convert_us: u32,
    /// Average encode time in microseconds over the last second.
    pub avg_encode_us: u32,
    /// Average time spent packetising and sending the frame.
    pub avg_send_us: u32,
    /// Average time spent waiting for QUIC datagram send buffer space.
    pub avg_send_wait_us: u32,
    /// Maximum time spent waiting for QUIC datagram send buffer space.
    pub max_send_wait_us: u32,
    /// Average total pipeline time per frame.
    pub avg_pipeline_us: u32,
    /// Current send queue depth in frames.
    pub send_queue_frames: u8,
    /// Number of IDR frames sent in the last second.
    pub idr_count: u8,
    /// Number of frames processed in the last telemetry window.
    pub frame_count: u32,
    /// Current encoder bitrate target in bits per second.
    pub encoder_bitrate_bps: u32,
    /// Current target framerate for capture/encode pacing.
    pub target_fps: u8,
    /// Number of video datagrams successfully sent in the last telemetry window.
    pub video_datagrams_sent: u32,
    /// Number of video datagrams dropped after a failed send in the last telemetry window.
    pub video_datagrams_dropped: u32,
    /// Effective maximum QUIC datagram size used for the current path.
    pub max_datagram_size: u32,
    /// Effective encoded payload bytes per video fragment.
    pub fragment_payload_bytes: u32,
}

#[derive(Clone, Copy, Debug, PartialEq, Eq, Structural)]
pub enum RemoteCursorShapeKind {
    Color,
    MaskedColor,
    Monochrome,
}

#[derive(Debug)]
pub struct RemoteCursorShape {
    pub generation: u64,
    pub kind: RemoteCursorShapeKind,
    pub width: u32,
    pub height: u32,
    pub pitch: u32,
    pub data: Vec<u8>,
}

/// The content of a `RemoteCursorShape`.
pub struct RemoteCursorShapeView {
    pub generation: u64,
    pub kind: RemoteCursorShapeKind,
    pub width: u32,
    pub height: u32,
    pub pitch: u32,
    pub data: Seq<u8>,
}

impl View for RemoteCursorShape {
    type V = RemoteCursorShapeView;

    open spec fn view(&self) -> RemoteCursorShapeView {
        RemoteCursorShapeView {
            generation: self.generation,
            kind: self.kind,
            width: self.width,
            height: self.height,
            pitch: self.pitch,
            data: self.data@,
        }
    }
}

#[derive(Clone, Copy, Debug, PartialEq, Eq, Structural)]
pub struct RemoteCursorState {
    pub timestamp_us: u64,
    pub generation: u64,
    pub visible: bool,
    pub x: i32,
    pub y: i32,
}

/// Protocol version. Both sides must agree or the server rejects the session.
pub const PROTOCOL_VERSION: u32 = 9;

/// Each flag of a video packet is one bit: the lowest for a keyframe, the next for the last
/// slice, and the third for parity.
pub proof fn video_flags_are_single_bits(flags: VideoFlags)
    ensures
        flags.has(VideoFlags::KEY_FRAME) <==> flags.bits % 2 == 1,
        flags.has(VideoFlags::LAST_SLICE) <==> (flags.bits / 2) % 2 == 1,
        flags.has(VideoFlags::FEC_PARITY) <==> (flags.bits / 4) % 2 == 1,
{
    let b = flags.bits;
    assert((b & 1 == 1 <==> b % 2 == 1) && (b & 2 == 2 <==> (b / 2) % 2 == 1) && (b & 4 == 4
        <==> (b / 4) % 2 == 1)) by (bit_vector);
}

/// Each modifier key is one bit: from the lowest, shift, control, alt, meta, caps lock and
/// num lock.
pub proof fn modifiers_are_single_bits(modifiers: KeyModifiers)
    ensures
        modifiers.has(KeyModifiers::SHIFT) <==> modifiers.bits % 2 == 1,
        modifiers.has(KeyModifiers::CTRL) <==> (modifiers.bits / 2) % 2 == 1,
        modifiers.has(KeyModifiers::ALT) <==> (modifiers.bits / 4) % 2 == 1,
        modifiers.has(KeyModifiers::META) <==> (modifiers.bits / 8) % 2 == 1,
        modifiers.has(KeyModifiers::CAPS) <==> (modifiers.bits / 16) % 2 == 1,
        modifiers.has(KeyModifiers::NUMLOCK) <==> (modifiers.bits / 32) % 2 == 1,
{
    let b = modifiers.bits;
    assert((b & 1 == 1 <==> b % 2 == 1) && (b & 2 == 2 <==> (b / 2) % 2 == 1) && (b & 4 == 4
        <==> (b / 4) % 2 == 1) && (b & 8 == 8 <==> (b / 8) % 2 == 1) && (b & 16 == 16 <==> (b / 16)
        % 2 == 1) && (b & 32 == 32 <==> (b / 32) % 2 == 1)) by (bit_vector);
}

/// Where the fields of a header stand in its bytes: the number of the frame in the first
/// four, its time in the next eight, the slice in byte 12 and the flags in byte 13, then
/// the fragment, the number of fragments, the length of the slice and the size of a
/// fragment, in two, two, four and two bytes. The lowest byte of each comes first, and of
/// the flags the three lowest bits count.
pub proof fn headers_are_read_at_their_places(s: Seq<u8>)
    requires
        s.len() >= 24,
    ensures
        ({
            let h = VideoPacketHeader::of_bytes(s);
            &&& h.frame_seq == s[0] + 0x100 * s[1] + 0x1_0000 * s[2] + 0x100_0000 * s[3]
            &&& h.timestamp_us == s[4] + 0x100 * s[5] + 0x1_0000 * s[6] + 0x100_0000 * s[7]
                + 0x1_0000_0000 * s[8] + 0x100_0000_0000 * s[9] + 0x1_0000_0000_0000 * s[10]
                + 0x100_0000_0000_0000 * s[11]
            &&& h.slice_idx == s[12]
            &&& h.flags.bits == s[13] % 8
            &&& h.frag_idx == s[14] + 0x100 * s[15]
            &&& h.frag_total == s[16] + 0x100 * s[17]
            &&& h.slice_len == s[18] + 0x100 * s[19] + 0x1_0000 * s[20] + 0x100_0000 * s[21]
            &&& h.frag_payload_size == s[22] + 0x100 * s[23]
        }),
{
    the_lowest_byte_comes_first(s.subrange(0, 4));
    the_lowest_byte_comes_first(s.subrange(4, 12));
    the_lowest_byte_comes_first(s.subrange(14, 16));
    the_lowest_byte_comes_first(s.subrange(16, 18));
    the_lowest_byte_comes_first(s.subrange(18, 22));
    the_lowest_byte_comes_first(s.subrange(22, 24));
    let f = s[13];
    assert(f & 7 == f % 8) by (bit_vector);
}

} // verus!
