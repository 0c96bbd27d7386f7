//! Video frame reassembly from QUIC unreliable datagrams.
//!
//! The server sends each encoded frame as one or more datagram fragments, each
//! carrying a fixed-size `VideoPacketHeader` followed by compressed video data
//! or XOR parity bytes. `VideoFrameReassembler` accumulates those packets and
//! emits a complete `DecodedFrame` once every data fragment of every slice in a
//! frame has arrived.
//!
//! Because QUIC datagrams are unreliable, fragments can still be lost. The
//! receiver first attempts single-fragment recovery inside each FEC group. If a
//! frame remains incomplete once it falls sufficiently far behind newer
//! traffic, the reassembler evicts it and signals that the client should
//! request an IDR keyframe from the server. Packets of a frame that was emitted
//! are passed over as long as the frame lies within the reorder window.

use super::slice_state::{fragments_fill_the_slice, SliceState, SliceView};
use crate::clock::now_us;
use crate::yin_yang_proto::packets::{
    parse_video_header, VideoFlags, VideoPacketHeader, VIDEO_FEC_DATA_SHARDS,
};
use std::collections::{HashMap, HashSet};
use vstd::prelude::*;

verus! {

broadcast use vstd::std_specs::hash::group_hash_axioms;

/// QUIC datagrams can arrive slightly later than newer frames when the sender is
/// pacing a large burst such as a 4K/120 frame. Incomplete frames are kept
/// long enough to catch those stragglers before escalating to an IDR request.
pub const FRAME_REORDER_WINDOW: u32 = 32;

// ---------------------------------------------------------------------------
// Frame order
// ---------------------------------------------------------------------------

/// How far `seq` is behind `reference`, counting round the 32-bit circle.
pub open spec fn behind(reference: u32, seq: u32) -> int {
    if reference >= seq {
        reference - seq
    } else {
        reference - seq + 0x1_0000_0000
    }
}

/// `lhs` comes before `rhs`, if they are less than half the circle apart.
pub open spec fn older(lhs: u32, rhs: u32) -> bool {
    0 < behind(rhs, lhs) < 0x7fff_ffff
}

/// `seq` is the newest frame, or so little behind it that packets of it may still
/// come.
pub open spec fn in_window(newest: u32, seq: u32) -> bool {
    behind(newest, seq) <= FRAME_REORDER_WINDOW
}

/// `seq` is too far behind `reference` to be waited for.
pub open spec fn significantly_older(reference: u32, seq: u32) -> bool {
    FRAME_REORDER_WINDOW < behind(reference, seq) < 0x7fff_ffff
}

pub fn is_older_than(lhs: u32, rhs: u32) -> (r: bool)
    ensures
        r == older(lhs, rhs),
{
    let distance = rhs.wrapping_sub(lhs);
    distance != 0 && distance < u32::MAX / 2
}

pub fn is_significantly_older(reference: u32, seq: u32) -> (r: bool)
    ensures
        r == significantly_older(reference, seq),
{
    let distance = reference.wrapping_sub(seq);
    distance > FRAME_REORDER_WINDOW && distance < u32::MAX / 2
}

/// No frame is older than itself, and of two frames at most one is the older.
pub proof fn frame_order_is_strict(a: u32, b: u32)
    ensures
        !older(a, a),
        !(older(a, b) && older(b, a)),
{
}

/// The order survives the wrap of the frame counter: the next frame is newer
/// than the current one, whatever the counter shows.
pub proof fn next_frame_is_newer(seq: u32)
    ensures
        older(seq, (if seq == u32::MAX {
            0
        } else {
            (seq + 1) as u32
        })),
{
}

/// A frame that is too far behind is older.
pub proof fn stale_frames_are_older(reference: u32, seq: u32)
    requires
        significantly_older(reference, seq),
    ensures
        older(seq, reference),
{
}

// ---------------------------------------------------------------------------
// Frames
// ---------------------------------------------------------------------------

/// A reassembled, ready-to-decode frame.
#[derive(Debug)]
pub struct DecodedFrame {
    /// Concatenated NAL data for the entire frame (all slices, in order).
    pub data: Vec<u8>,
    pub frame_seq: u32,
    pub timestamp_us: u64,
    pub is_keyframe: bool,
    /// Local wall-clock time (microseconds since Unix epoch) when the frame was
    /// fully reassembled. Used to measure end-to-end latency.
    pub received_at_us: u64,
}

/// Loss signal emitted by the reassembler when a frame became unrecoverable.
#[derive(Clone, Copy, Debug, PartialEq, Eq, Structural)]
pub struct ReassemblyLoss {
    pub frame_seq: u32,
    pub dropped_frames: usize,
}

/// Result of feeding one video datagram into the reassembler.
#[derive(Debug)]
pub struct PushOutcome {
    pub frame: Option<DecodedFrame>,
    pub loss: Option<ReassemblyLoss>,
    pub recovered_fragments: u16,
    pub recovered_frame: bool,
}

impl PushOutcome {
    pub fn empty() -> (r: PushOutcome)
        ensures
            r.frame is None,
            r.loss is None,
            r.recovered_fragments == 0,
            r.recovered_frame == false,
    {
        PushOutcome { frame: None, loss: None, recovered_fragments: 0, recovered_frame: false }
    }
}

/// What a receiver knows of a frame.
#[verifier::ext_equal]
pub struct FrameView {
    pub slices: Map<u8, SliceView>,
    pub num_slices_expected: Option<u8>,
    pub timestamp_us: u64,
    pub is_keyframe: bool,
}

/// The slices below `n` that are there, one behind the other.
pub open spec fn joined_slices(slices: Map<u8, SliceView>, n: nat) -> Seq<u8>
    decreases n,
{
    if n == 0 {
        Seq::empty()
    } else {
        joined_slices(slices, (n - 1) as nat) + (if slices.contains_key((n - 1) as u8) {
            slices[(n - 1) as u8].assembled()
        } else {
            Seq::empty()
        })
    }
}

impl FrameView {
    /// A frame of which nothing has arrived.
    pub open spec fn fresh(timestamp_us: u64, is_keyframe: bool) -> FrameView {
        FrameView { slices: Map::empty(), num_slices_expected: None, timestamp_us, is_keyframe }
    }

    /// The number of slices, once a packet of the last slice has told it.
    pub open spec fn expected_after(self, h: VideoPacketHeader) -> Option<u8> {
        if h.flags.has(VideoFlags::LAST_SLICE) {
            let told = if h.slice_idx == u8::MAX {
                u8::MAX
            } else {
                (h.slice_idx + 1) as u8
            };
            match self.num_slices_expected {
                Some(n) => Some(
                    if n >= told {
                        n
                    } else {
                        told
                    },
                ),
                None => Some(told),
            }
        } else {
            self.num_slices_expected
        }
    }

    /// The slice that a packet belongs to, or `None` for one without fragments.
    pub open spec fn slice_for(self, h: VideoPacketHeader) -> Option<SliceView> {
        if self.slices.contains_key(h.slice_idx) {
            Some(self.slices[h.slice_idx])
        } else if h.frag_total == 0 {
            None
        } else {
            Some(SliceView::fresh(h.frag_total, h.slice_len, h.frag_payload_size))
        }
    }

    /// The slice with a packet taken in, and whether a fragment was recovered;
    /// `None` for a malformed packet.
    pub open spec fn slice_with(
        slice: SliceView,
        h: VideoPacketHeader,
        payload: Seq<u8>,
    ) -> Option<(SliceView, bool)> {
        let i = h.frag_idx as int;
        if !slice.agrees(h.frag_total, h.slice_len, h.frag_payload_size) {
            None
        } else if h.flags.has(VideoFlags::FEC_PARITY) {
            if slice.group_payload_len(i) != Some(payload.len()) {
                None
            } else {
                let s = slice.with_parity(i, payload);
                Some((s.after_recovery(i), s.recovered(i) is Some))
            }
        } else if slice.payload_len(i) != Some(payload.len()) {
            None
        } else if slice.data[i] is Some {
            Some((slice, false))
        } else {
            let s = slice.with_data(i, payload);
            Some((s.after_recovery(i / 4), s.recovered(i / 4) is Some))
        }
    }

    /// The frame with a packet taken in, and whether a fragment was recovered;
    /// `None` where the packet is malformed and the frame has to be dropped.
    pub open spec fn with_packet(
        self,
        h: VideoPacketHeader,
        payload: Seq<u8>,
    ) -> Option<(FrameView, bool)> {
        match self.slice_for(h) {
            None => None,
            Some(slice) => match Self::slice_with(slice, h, payload) {
                None => None,
                Some((s, repaired)) => Some(
                    (
                        FrameView {
                            slices: self.slices.insert(h.slice_idx, s),
                            num_slices_expected: self.expected_after(h),
                            timestamp_us: h.timestamp_us,
                            is_keyframe: self.is_keyframe || h.flags.has(VideoFlags::KEY_FRAME),
                        },
                        repaired,
                    ),
                ),
            },
        }
    }

    /// The number of slices is known, and each of them is complete.
    pub open spec fn complete(self) -> bool {
        self.num_slices_expected matches Some(n) && forall|i: u8|
            i < n ==> #[trigger] self.slices.contains_key(i) && self.slices[i].complete()
    }

    /// The bytes of the frame: its slices in order.
    pub open spec fn assembled(self) -> Seq<u8> {
        joined_slices(self.slices, 256)
    }

    /// Some fragment of the frame was recovered.
    pub open spec fn repaired(self) -> bool {
        exists|i: u8| #[trigger]
            self.slices.contains_key(i) && self.slices[i].recovered_fragments > 0
    }
}

/// Per-frame reassembly state.
#[derive(Debug)]
struct FrameState {
    slices: HashMap<u8, SliceState>,
    num_slices_expected: Option<u8>,
    timestamp_us: u64,
    is_keyframe: bool,
}

impl View for FrameState {
    type V = FrameView;

    closed spec fn view(&self) -> FrameView {
        FrameView {
            slices: self.slices@.map_values(|s: SliceState| s@),
            num_slices_expected: self.num_slices_expected,
            timestamp_us: self.timestamp_us,
            is_keyframe: self.is_keyframe,
        }
    }
}

impl FrameState {
    fn new(timestamp_us: u64, is_keyframe: bool) -> (r: FrameState)
        ensures
            r@ == FrameView::fresh(timestamp_us, is_keyframe),
    {
        let r = FrameState {
            slices: HashMap::new(),
            num_slices_expected: None,
            timestamp_us,
            is_keyframe,
        };
        assert(r@ =~= FrameView::fresh(timestamp_us, is_keyframe));
        r
    }

    /// Takes a packet in. `None` where the frame has to be dropped.
    fn take_packet(self, hdr: &VideoPacketHeader, payload: &[u8]) -> (r: Option<(FrameState, bool)>)
        ensures
            match self@.with_packet(*hdr, payload@) {
                Some((f, repaired)) => r matches Some((state, got)) && state@ == f && got
                    == repaired,
                None => r is None,
            },
    {
        let mut entry = self;
        let ghost before = entry@;
        let num_slices_expected = if hdr.is_last_slice() {
            let told: u8 = hdr.slice_idx.saturating_add(1);
            match entry.num_slices_expected {
                Some(existing) => if existing >= told {
                    Some(existing)
                } else {
                    Some(told)
                },
                None => Some(told),
            }
        } else {
            entry.num_slices_expected
        };
        let mut slice = match entry.slices.remove(&hdr.slice_idx) {
            Some(existing) => existing,
            None => match SliceState::new(hdr.frag_total, hdr.slice_len, hdr.frag_payload_size) {
                Some(fresh) => fresh,
                None => {
                    return None;
                },
            },
        };
        assert(before.slice_for(*hdr) == Some(slice@));
        if !slice.matches_metadata(hdr.frag_total, hdr.slice_len, hdr.frag_payload_size) {
            return None;
        }
        let mut repaired = false;
        if hdr.is_fec_parity() {
            match slice.expected_group_payload_len(hdr.frag_idx as usize) {
                Some(expected_len) => {
                    if payload.len() != expected_len {
                        return None;
                    }
                },
                None => {
                    return None;
                },
            }
            let _ = slice.insert_parity(hdr.frag_idx, crate::wire::slice_to_vec(payload));
            repaired = slice.maybe_recover_group(hdr.frag_idx as usize);
        } else {
            match slice.expected_payload_len(hdr.frag_idx as usize) {
                Some(expected_len) => {
                    if payload.len() != expected_len {
                        return None;
                    }
                },
                None => {
                    return None;
                },
            }
            if slice.insert_data(hdr.frag_idx, crate::wire::slice_to_vec(payload)) {
                let group_idx: usize = hdr.frag_idx as usize / VIDEO_FEC_DATA_SHARDS;
                repaired = slice.maybe_recover_group(group_idx);
            }
        }
        let ghost after = slice@;
        entry.slices.insert(hdr.slice_idx, slice);
        entry.num_slices_expected = num_slices_expected;
        entry.timestamp_us = hdr.timestamp_us;
        entry.is_keyframe = entry.is_keyframe || hdr.is_keyframe();
        assert(entry@.slices =~= before.slices.insert(hdr.slice_idx, after));
        Some((entry, repaired))
    }

    fn is_complete(&self) -> (r: bool)
        ensures
            r == self@.complete(),
    {
        let total: u8 = match self.num_slices_expected {
            Some(n) => n,
            None => {
                return false;
            },
        };
        let mut i: u8 = 0;
        while i < total
            invariant
                i <= total,
                self.num_slices_expected == Some(total),
                forall|j: u8|
                    j < i ==> #[trigger] self@.slices.contains_key(j)
                        && self@.slices[j].complete(),
            decreases total - i,
        {
            match self.slices.get(&i) {
                Some(slice) => {
                    assert(self@.slices.contains_key(i) && self@.slices[i] == slice@);
                    if !slice.is_complete() {
                        return false;
                    }
                },
                None => {
                    assert(!self@.slices.contains_key(i));
                    return false;
                },
            }
            i = i + 1;
        }
        true
    }

    fn assemble(&self) -> (out: Vec<u8>)
        ensures
            out@ == self@.assembled(),
    {
        let mut out: Vec<u8> = Vec::new();
        let mut n: u16 = 0;
        while n < 256
            invariant
                n <= 256,
                out@ == joined_slices(self@.slices, n as nat),
            decreases 256 - n,
        {
            let id: u8 = n as u8;
            match self.slices.get(&id) {
                Some(slice) => {
                    assert(self@.slices.contains_key(id) && self@.slices[id] == slice@);
                    let bytes = slice.assemble();
                    out.extend_from_slice(bytes.as_slice());
                },
                None => {
                    assert(!self@.slices.contains_key(id));
                },
            }
            n = n + 1;
            assert(out@ =~= joined_slices(self@.slices, n as nat));
        }
        out
    }

    /// Whether any fragment of the frame was recovered.
    fn has_recovered_fragments(&self) -> (r: bool)
        ensures
            r == self@.repaired(),
    {
        let mut n: u16 = 0;
        while n < 256
            invariant
                n <= 256,
                forall|i: u8|
                    i < n && #[trigger] self@.slices.contains_key(i)
                        ==> self@.slices[i].recovered_fragments == 0,
            decreases 256 - n,
        {
            let id: u8 = n as u8;
            match self.slices.get(&id) {
                Some(slice) => {
                    assert(self@.slices.contains_key(id) && self@.slices[id] == slice@);
                    if slice.was_repaired() {
                        return true;
                    }
                },
                None => {
                    assert(!self@.slices.contains_key(id));
                },
            }
            n = n + 1;
        }
        false
    }
}

// ---------------------------------------------------------------------------
// Statistics
// ---------------------------------------------------------------------------

/// Statistics of a window of about one second.
#[derive(Clone, Copy, Debug, PartialEq, Eq, Structural)]
pub struct ReassemblerStats {
    pub assembled_frames: u32,
    pub dropped_frames: u32,
    pub recovered_fragments: u32,
    pub recovered_frames: u32,
}

/// `n` more, up to the limit of a counter.
pub open spec fn plus(count: u32, n: int) -> u32 {
    if count + n <= u32::MAX {
        (count + n) as u32
    } else {
        u32::MAX
    }
}

impl ReassemblerStats {
    /// The statistics with the outcome of one more datagram counted.
    pub open spec fn counting(self, outcome: PushOutcome) -> ReassemblerStats {
        ReassemblerStats {
            assembled_frames: plus(
                self.assembled_frames,
                if outcome.frame is Some {
                    1
                } else {
                    0
                },
            ),
            dropped_frames: plus(
                self.dropped_frames,
                match outcome.loss {
                    Some(loss) => loss.dropped_frames as u32 as int,
                    None => 0,
                },
            ),
            recovered_fragments: plus(self.recovered_fragments, outcome.recovered_fragments as int),
            recovered_frames: plus(
                self.recovered_frames,
                if outcome.recovered_frame {
                    1
                } else {
                    0
                },
            ),
        }
    }

    /// Nothing counted.
    pub open spec fn zero() -> ReassemblerStats {
        ReassemblerStats {
            assembled_frames: 0,
            dropped_frames: 0,
            recovered_fragments: 0,
            recovered_frames: 0,
        }
    }

    pub fn new() -> (r: ReassemblerStats)
        ensures
            r == ReassemblerStats::zero(),
    {
        ReassemblerStats {
            assembled_frames: 0,
            dropped_frames: 0,
            recovered_fragments: 0,
            recovered_frames: 0,
        }
    }

    pub fn record_assembled(&mut self)
        ensures
            *final(self) == (ReassemblerStats {
                assembled_frames: plus(old(self).assembled_frames, 1),
                ..*old(self)
            }),
    {
        self.assembled_frames = self.assembled_frames.saturating_add(1);
    }

    /// Counts dropped frames; more than 32 bits of them count as their low 32 bits.
    pub fn record_dropped(&mut self, frames: usize)
        ensures
            *final(self) == (ReassemblerStats {
                dropped_frames: plus(old(self).dropped_frames, frames as u32 as int),
                ..*old(self)
            }),
    {
        #[verifier::truncate]
        let frames: u32 = frames as u32;
        self.dropped_frames = self.dropped_frames.saturating_add(frames);
    }

    pub fn record_recovered_fragment(&mut self)
        ensures
            *final(self) == (ReassemblerStats {
                recovered_fragments: plus(old(self).recovered_fragments, 1),
                ..*old(self)
            }),
    {
        self.recovered_fragments = self.recovered_fragments.saturating_add(1);
    }

    pub fn record_recovered_frame(&mut self)
        ensures
            *final(self) == (ReassemblerStats {
                recovered_frames: plus(old(self).recovered_frames, 1),
                ..*old(self)
            }),
    {
        self.recovered_frames = self.recovered_frames.saturating_add(1);
    }

    /// Hands the window out once a second has passed, and starts a new one.
    pub fn take_window(&mut self, elapsed_us: u64) -> (r: Option<ReassemblerStats>)
        ensures
            elapsed_us < 1_000_000 ==> r is None && *final(self) == *old(self),
            elapsed_us >= 1_000_000 ==> r == Some(*old(self)) && *final(self)
                == ReassemblerStats::zero(),
    {
        if elapsed_us < 1_000_000 {
            return None;
        }
        let window = *self;
        *self = ReassemblerStats::new();
        Some(window)
    }
}

// ---------------------------------------------------------------------------
// Reassembler
// ---------------------------------------------------------------------------

/// What the reassembler knows.
#[verifier::ext_equal]
pub struct ReassemblerView {
    /// The incomplete frames, by sequence number.
    pub frames: Map<u32, FrameView>,
    /// The newest sequence number seen.
    pub max_seen: Option<u32>,
    /// The frames within the reorder window that were handed out.
    pub delivered: Set<u32>,
}

impl ReassemblerView {
    pub open spec fn fresh() -> ReassemblerView {
        ReassemblerView { frames: Map::empty(), max_seen: None, delivered: Set::empty() }
    }

    /// The frame was handed out and lies within the reorder window: packets of it are
    /// too late. A number that comes round again has long been forgotten.
    pub open spec fn settled(self, seq: u32) -> bool {
        self.delivered.contains(seq)
    }

    /// No frame is both in flight and handed out, and no number behind the reorder
    /// window is remembered.
    pub open spec fn wf(self) -> bool {
        &&& forall|s: u32| #[trigger] self.frames.contains_key(s) ==> !self.settled(s)
        &&& forall|s: u32| #[trigger]
            self.delivered.contains(s) ==> (self.max_seen matches Some(newest) && in_window(
                newest,
                s,
            ))
    }

    /// The numbers that are still remembered once frame `newest` was seen.
    pub open spec fn remembered(delivered: Set<u32>, newest: u32) -> Set<u32> {
        delivered.filter(|s: u32| in_window(newest, s))
    }

    /// The newest sequence number after a packet of frame `seq`.
    pub open spec fn max_after(self, seq: u32) -> u32 {
        match self.max_seen {
            Some(current) => if older(seq, current) {
                current
            } else {
                seq
            },
            None => seq,
        }
    }

    /// The frame that a packet belongs to.
    pub open spec fn frame_for(self, h: VideoPacketHeader) -> FrameView {
        if self.frames.contains_key(h.frame_seq) {
            self.frames[h.frame_seq]
        } else {
            FrameView::fresh(h.timestamp_us, h.flags.has(VideoFlags::KEY_FRAME))
        }
    }

    /// The frames that are too far behind.
    pub open spec fn stale(frames: Map<u32, FrameView>, max_seen: u32) -> Set<u32> {
        frames.dom().filter(|seq: u32| significantly_older(max_seen, seq))
    }

    /// The frames that may still be completed.
    pub open spec fn kept(frames: Map<u32, FrameView>, max_seen: u32) -> Map<u32, FrameView> {
        frames.remove_keys(Self::stale(frames, max_seen))
    }

    /// The loss that the eviction of stale frames signals: how many there are,
    /// and the oldest of them.
    pub open spec fn eviction_loss(
        frames: Map<u32, FrameView>,
        max_seen: u32,
        loss: Option<ReassemblyLoss>,
    ) -> bool {
        let stale = Self::stale(frames, max_seen);
        match loss {
            None => stale.len() == 0 && stale.finite(),
            Some(l) => {
                &&& stale.contains(l.frame_seq)
                &&& stale.finite()
                &&& l.dropped_frames == stale.len()
                &&& forall|seq: u32| #[trigger]
                    stale.contains(seq) ==> behind(max_seen, seq) <= behind(max_seen, l.frame_seq)
            },
        }
    }

    /// The frames left once a packet has been taken into its frame: all of them
    /// but this one where it is complete, else with this one brought up to date.
    pub open spec fn frames_with(self, seq: u32, f: FrameView) -> Map<u32, FrameView> {
        if f.complete() {
            self.frames.remove(seq)
        } else {
            self.frames.insert(seq, f)
        }
    }
}

/// A frame as it is handed to the decoder.
pub open spec fn decoded(frame: DecodedFrame, seq: u32, f: FrameView, received_at_us: u64) -> bool {
    &&& frame.data@ == f.assembled()
    &&& frame.frame_seq == seq
    &&& frame.timestamp_us == f.timestamp_us
    &&& frame.is_keyframe == f.is_keyframe
    &&& frame.received_at_us == received_at_us
}

/// What feeding a datagram does to the reassembler, and what it gives.
pub open spec fn push_result(
    before: ReassemblerView,
    data: Seq<u8>,
    received_at_us: u64,
    after: ReassemblerView,
    outcome: PushOutcome,
) -> bool {
    if data.len() < VideoPacketHeader::SIZE || before.settled(
        VideoPacketHeader::of_bytes(data).frame_seq,
    ) {
        // Too short for a header, or late for a frame that was handed out: nothing
        // changes.
        &&& after == before
        &&& outcome.frame is None
        &&& outcome.loss is None
        &&& outcome.recovered_fragments == 0
        &&& !outcome.recovered_frame
    } else {
        let h = VideoPacketHeader::of_bytes(data);
        let max_seen = before.max_after(h.frame_seq);
        match before.frame_for(h).with_packet(h, data.skip(24)) {
            // Malformed: the frame is dropped and reported lost.
            None => {
                &&& after == (ReassemblerView {
                    frames: before.frames.remove(h.frame_seq),
                    max_seen: Some(max_seen),
                    delivered: ReassemblerView::remembered(before.delivered, max_seen),
                })
                &&& outcome.frame is None
                &&& outcome.loss == Some(
                    ReassemblyLoss { frame_seq: h.frame_seq, dropped_frames: 1 },
                )
                &&& outcome.recovered_fragments == 0
                &&& !outcome.recovered_frame
            },
            Some((f, repaired)) => {
                let frames = before.frames_with(h.frame_seq, f);
                &&& after == (ReassemblerView {
                    frames: ReassemblerView::kept(frames, max_seen),
                    max_seen: Some(max_seen),
                    delivered: ReassemblerView::remembered(
                        if f.complete() {
                            before.delivered.insert(h.frame_seq)
                        } else {
                            before.delivered
                        },
                        max_seen,
                    ),
                })
                &&& ReassemblerView::eviction_loss(frames, max_seen, outcome.loss)
                &&& outcome.frame is Some <==> f.complete()
                &&& outcome.frame matches Some(frame) ==> decoded(
                    frame,
                    h.frame_seq,
                    f,
                    received_at_us,
                )
                &&& outcome.recovered_fragments == if repaired {
                    1u16
                } else {
                    0u16
                }
                &&& outcome.recovered_frame == (f.complete() && f.repaired())
            },
        }
    }
}

/// Stateful reassembler that turns a stream of raw datagram payloads (the
/// bytes *after* the `DATAGRAM_TAG_VIDEO` byte has been stripped) into
/// complete `DecodedFrame`s.
#[derive(Debug)]
pub struct VideoFrameReassembler {
    /// In-flight reassembly state, keyed by `frame_seq`.
    frames: HashMap<u32, FrameState>,
    stats: ReassemblerStats,
    max_seen_frame_seq: Option<u32>,
    /// The frames within the reorder window that were handed out. Their late packets
    /// are passed over, so that none of them is taken for a lost one.
    delivered: HashSet<u32>,
}

impl View for VideoFrameReassembler {
    type V = ReassemblerView;

    closed spec fn view(&self) -> ReassemblerView {
        ReassemblerView {
            frames: self.frames@.map_values(|f: FrameState| f@),
            max_seen: self.max_seen_frame_seq,
            delivered: self.delivered@,
        }
    }
}

impl Default for VideoFrameReassembler {
    fn default() -> (r: VideoFrameReassembler)
        ensures
            r@ == ReassemblerView::fresh(),
            r@.wf(),
            r.statistics() == ReassemblerStats::zero(),
    {
        VideoFrameReassembler::new()
    }
}

impl VideoFrameReassembler {
    /// The statistics of the window that is running.
    pub closed spec fn statistics(&self) -> ReassemblerStats {
        self.stats
    }

    pub fn new() -> (r: VideoFrameReassembler)
        ensures
            r@ == ReassemblerView::fresh(),
            r@.wf(),
            r.statistics() == ReassemblerStats::zero(),
    {
        let r = VideoFrameReassembler {
            frames: HashMap::new(),
            stats: ReassemblerStats::new(),
            max_seen_frame_seq: None,
            delivered: HashSet::new(),
        };
        assert(r@ =~= ReassemblerView::fresh());
        r
    }

    /// Feed one datagram payload (tag byte already stripped).
    ///
    /// Returns a decoded frame when a full frame was assembled and a loss
    /// signal when one or more frames became unrecoverable.
    pub fn push_datagram(&mut self, data: &[u8]) -> (outcome: PushOutcome)
        ensures
            exists|received_at_us: u64| #[trigger]
                push_result(old(self)@, data@, received_at_us, final(self)@, outcome),
            old(self)@.wf() ==> final(self)@.wf(),
            final(self).statistics() == old(self).statistics().counting(outcome),
    {
        let received_at_us = now_us();
        self.push_datagram_at(data, received_at_us)
    }

    /// Feed one datagram payload that arrived at the given time.
    pub fn push_datagram_at(&mut self, data: &[u8], received_at_us: u64) -> (outcome: PushOutcome)
        ensures
            push_result(old(self)@, data@, received_at_us, final(self)@, outcome),
            old(self)@.wf() ==> final(self)@.wf(),
            final(self).statistics() == old(self).statistics().counting(outcome),
    {
        let (hdr, payload) = match parse_video_header(data) {
            Some(x) => x,
            None => {
                return PushOutcome::empty();
            },
        };
        let seq: u32 = hdr.frame_seq;
        if self.delivered.contains(&seq) {
            return PushOutcome::empty();
        }
        let max_seen: u32 = match self.max_seen_frame_seq {
            Some(current) => if is_older_than(seq, current) {
                current
            } else {
                seq
            },
            None => seq,
        };
        self.max_seen_frame_seq = Some(max_seen);

        let entry = match self.frames.remove(&seq) {
            Some(entry) => entry,
            None => FrameState::new(hdr.timestamp_us, hdr.is_keyframe()),
        };
        assert(entry@ == old(self)@.frame_for(hdr));
        assert(self@.frames =~= old(self)@.frames.remove(seq));
        let (state, repaired) = match entry.take_packet(&hdr, payload) {
            Some(x) => x,
            None => {
                self.stats.record_dropped(1);
                self.forget_delivered(max_seen);
                return PushOutcome {
                    frame: None,
                    loss: Some(ReassemblyLoss { frame_seq: seq, dropped_frames: 1 }),
                    recovered_fragments: 0,
                    recovered_frame: false,
                };
            },
        };
        if repaired {
            self.stats.record_recovered_fragment();
        }
        let recovered_fragments: u16 = if repaired {
            1
        } else {
            0
        };
        let ghost f = state@;
        let mut recovered_frame = false;
        let frame = if state.is_complete() {
            self.delivered.insert(seq);
            self.stats.record_assembled();
            recovered_frame = state.has_recovered_fragments();
            if recovered_frame {
                self.stats.record_recovered_frame();
            }
            Some(
                DecodedFrame {
                    data: state.assemble(),
                    frame_seq: seq,
                    timestamp_us: state.timestamp_us,
                    is_keyframe: state.is_keyframe,
                    received_at_us,
                },
            )
        } else {
            self.frames.insert(seq, state);
            None
        };
        assert(self@.frames =~= old(self)@.frames_with(seq, f));
        self.forget_delivered(max_seen);
        let loss = self.evict_stale_frames(max_seen);
        PushOutcome { frame, loss, recovered_fragments, recovered_frame }
    }

    /// Forgets the delivered frames that are behind the reorder window.
    fn forget_delivered(&mut self, newest: u32)
        ensures
            final(self)@ == (ReassemblerView {
                delivered: ReassemblerView::remembered(old(self)@.delivered, newest),
                ..old(self)@
            }),
            final(self).statistics() == old(self).statistics(),
    {
        let mut kept: HashSet<u32> = HashSet::new();
        let mut distance: u32 = 0;
        while distance <= FRAME_REORDER_WINDOW
            invariant
                distance <= FRAME_REORDER_WINDOW + 1,
                self@ == old(self)@,
                self.stats == old(self).stats,
                forall|s: u32| #[trigger]
                    kept@.contains(s) <==> self@.delivered.contains(s) && behind(newest, s)
                        < distance,
            decreases FRAME_REORDER_WINDOW + 1 - distance,
        {
            let seq: u32 = newest.wrapping_sub(distance);
            assert(behind(newest, seq) == distance);
            if self.delivered.contains(&seq) {
                kept.insert(seq);
            }
            distance = distance + 1;
        }
        self.delivered = kept;
        assert(self@ =~= (ReassemblerView {
            delivered: ReassemblerView::remembered(old(self)@.delivered, newest),
            ..old(self)@
        }));
    }

    /// Hands out the statistics of a window of one second.
    pub fn take_stats(&mut self, elapsed_us: u64) -> (r: Option<ReassemblerStats>)
        ensures
            final(self)@ == old(self)@,
            elapsed_us < 1_000_000 ==> r is None && final(self).statistics() == old(
                self,
            ).statistics(),
            elapsed_us >= 1_000_000 ==> r == Some(old(self).statistics())
                && final(self).statistics() == ReassemblerStats::zero(),
    {
        self.stats.take_window(elapsed_us)
    }

    /// Drops the frames that are too far behind the newest one.
    fn evict_stale_frames(&mut self, max_seen: u32) -> (loss: Option<ReassemblyLoss>)
        ensures
            final(self)@ == (ReassemblerView {
                frames: ReassemblerView::kept(old(self)@.frames, max_seen),
                ..old(self)@
            }),
            ReassemblerView::eviction_loss(old(self)@.frames, max_seen, loss),
            final(self).statistics() == (ReassemblerStats {
                dropped_frames: plus(
                    old(self).statistics().dropped_frames,
                    match loss {
                        Some(loss) => loss.dropped_frames as u32 as int,
                        None => 0,
                    },
                ),
                ..old(self).statistics()
            }),
    {
        let stale_frames = self.stale_keys(max_seen);
        let ghost stale = ReassemblerView::stale(self@.frames, max_seen);
        assert(stale_frames@.to_set() =~= stale);
        proof {
            stale_frames@.unique_seq_to_set();
        }
        if stale_frames.len() == 0 {
            assert(self@.frames =~= ReassemblerView::kept(self@.frames, max_seen)) by {
                assert forall|k: u32| !stale.contains(k) by {
                    assert(!stale_frames@.contains(k));
                }
            }
            return None;
        }
        let mut oldest: u32 = stale_frames[0];
        let mut i: usize = 1;
        assert(stale_frames@.contains(oldest));
        while i < stale_frames.len()
            invariant
                1 <= i <= stale_frames@.len(),
                stale_frames@.to_set() == stale,
                stale == ReassemblerView::stale(self@.frames, max_seen),
                stale_frames@.contains(oldest),
                forall|j: int|
                    0 <= j < i ==> behind(max_seen, #[trigger] stale_frames@[j]) <= behind(
                        max_seen,
                        oldest,
                    ),
            decreases stale_frames@.len() - i,
        {
            let seq: u32 = stale_frames[i];
            assert(stale_frames@.contains(seq));
            assert(stale.contains(seq) && stale.contains(oldest));
            if is_older_than(seq, oldest) {
                oldest = seq;
            }
            i = i + 1;
        }
        let mut k: usize = 0;
        assert(self@.frames.remove_keys(stale_frames@.take(0).to_set()) =~= self@.frames);
        while k < stale_frames.len()
            invariant
                k <= stale_frames@.len(),
                self@.frames == old(self)@.frames.remove_keys(
                    stale_frames@.take(k as int).to_set(),
                ),
                self@.max_seen == old(self)@.max_seen,
                self.stats == old(self).stats,
                self@.delivered == old(self)@.delivered,
            decreases stale_frames@.len() - k,
        {
            let seq: u32 = stale_frames[k];
            let ghost before = self@.frames;
            let _ = self.frames.remove(&seq);
            proof {
                let done = stale_frames@.take(k as int);
                let more = stale_frames@.take(k + 1);
                assert(more =~= done.push(seq));
                assert(self@.frames =~= before.remove(seq));
                assert forall|x: u32| #[trigger] more.to_set().contains(x) <==> done.to_set().contains(
                    x,
                ) || x == seq by {
                    if done.contains(x) {
                        let j = done.index_of(x);
                        assert(more[j] == x);
                    }
                    assert(more[k as int] == seq);
                }
                assert(self@.frames =~= old(self)@.frames.remove_keys(more.to_set()));
            }
            k = k + 1;
        }
        assert(stale_frames@.take(k as int) =~= stale_frames@);
        self.stats.record_dropped(stale_frames.len());
        assert forall|seq: u32| #[trigger] stale.contains(seq) implies behind(max_seen, seq)
            <= behind(max_seen, oldest) by {
            let j = stale_frames@.index_of(seq);
            assert(stale_frames@[j] == seq);
        }
        Some(ReassemblyLoss { frame_seq: oldest, dropped_frames: stale_frames.len() })
    }

    /// The sequence numbers of the frames that are too far behind.
    fn stale_keys(&self, max_seen: u32) -> (r: Vec<u32>)
        ensures
            r@.no_duplicates(),
            forall|seq: u32|
                #![trigger r@.contains(seq)]
                r@.contains(seq) <==> ReassemblerView::stale(self@.frames, max_seen).contains(seq),
    {
        let keys = self.pending_keys();
        let mut stale: Vec<u32> = Vec::new();
        let mut i: usize = 0;
        while i < keys.len()
            invariant
                i <= keys@.len(),
                keys@.no_duplicates(),
                stale@.no_duplicates(),
                forall|seq: u32|
                    #![trigger stale@.contains(seq)]
                    stale@.contains(seq) <==> keys@.take(i as int).contains(seq)
                        && significantly_older(max_seen, seq),
            decreases keys@.len() - i,
        {
            let seq: u32 = keys[i];
            let ghost had = stale@;
            proof {
                let done = keys@.take(i as int);
                let more = keys@.take(i + 1);
                assert(more =~= done.push(seq));
                assert(!done.contains(seq));
                assert forall|x: u32| #[trigger] more.contains(x) <==> done.contains(x) || x == seq by {
                    if done.contains(x) {
                        let j = done.index_of(x);
                        assert(more[j] == x);
                    }
                    assert(more[i as int] == seq);
                }
            }
            if is_significantly_older(max_seen, seq) {
                stale.push(seq);
                assert(!had.contains(seq));
                assert forall|j: int| 0 <= j < had.len() implies #[trigger] had[j] != seq by {
                    assert(had.contains(had[j]));
                }
                assert forall|x: u32| #[trigger] stale@.contains(x) <==> had.contains(x) || x
                    == seq by {
                    if had.contains(x) {
                        let j = had.index_of(x);
                        assert(stale@[j] == x);
                    }
                    assert(stale@[had.len() as int] == seq);
                }
            }
            i = i + 1;
        }
        assert(keys@.take(i as int) =~= keys@);
        stale
    }

    /// The sequence numbers of the incomplete frames, each once.
    fn pending_keys(&self) -> (r: Vec<u32>)
        ensures
            r@.no_duplicates(),
            forall|seq: u32|
                #![trigger r@.contains(seq)]
                r@.contains(seq) <==> self@.frames.contains_key(seq),
    {
        let mut keys: Vec<u32> = Vec::new();
        for key in it: self.frames.keys()
            invariant
                keys@.len() == it.index(),
                forall|i: int| 0 <= i < keys@.len() ==> keys@[i] == *#[trigger] it.seq()[i],
        {
            keys.push(*key);
        }
        proof {
            let seq = vstd::std_specs::iter::IteratorSpec::remaining(
                &vstd::std_specs::hash::spec_keys_iter(&self.frames),
            );
            assert(keys@ =~= seq.unref());
            assert forall|k: u32| #[trigger] keys@.contains(k) <==> self@.frames.contains_key(k) by {
                assert(seq.unref().to_set().contains(k) <==> self.frames@.dom().contains(k));
            }
        }
        keys
    }
}

/// Frames are ordered round the circle of their numbers: of a frame that is `n` behind
/// another, packets are waited for up to 32, it is given up from 33 on, and from almost half
/// the circle on it is rather ahead.
pub proof fn frames_are_ordered_round_the_circle(seq: u32, n: int)
    requires
        0 <= n < 0x1_0000_0000,
    ensures
        ({
            let reference = ((seq + n) % 0x1_0000_0000) as u32;
            &&& behind(reference, seq) == n
            &&& older(seq, reference) <==> 1 <= n <= 0x7fff_fffe
            &&& in_window(reference, seq) <==> n <= 32
            &&& significantly_older(reference, seq) <==> 33 <= n <= 0x7fff_fffe
        }),
{
}

/// The statistics count what the datagrams brought.
pub proof fn statistics_count_what_came(stats: ReassemblerStats, outcome: PushOutcome)
    requires
        stats.assembled_frames < u32::MAX,
        stats.recovered_frames < u32::MAX,
        stats.recovered_fragments + outcome.recovered_fragments <= u32::MAX,
        outcome.loss matches Some(loss) ==> stats.dropped_frames + loss.dropped_frames <= u32::MAX,
    ensures
        ({
            let after = stats.counting(outcome);
            &&& after.assembled_frames == stats.assembled_frames + (if outcome.frame is Some {
                1nat
            } else {
                0nat
            })
            &&& after.dropped_frames == stats.dropped_frames + (match outcome.loss {
                Some(loss) => loss.dropped_frames as nat,
                None => 0,
            })
            &&& after.recovered_fragments == stats.recovered_fragments + outcome.recovered_fragments
            &&& after.recovered_frames == stats.recovered_frames + (if outcome.recovered_frame {
                1nat
            } else {
                0nat
            })
        }),
{
}

/// A packet touches its own slice alone. The frame is a keyframe once one of its packets says
/// so, has the time of the packet that came last, and as many slices as the packets of the
/// last slice tell.
pub proof fn packets_touch_their_slice_alone(
    f: FrameView,
    h: VideoPacketHeader,
    payload: Seq<u8>,
    i: u8,
)
    requires
        f.with_packet(h, payload) is Some,
    ensures
        ({
            let (g, _) = f.with_packet(h, payload)->0;
            &&& g.slices.contains_key(h.slice_idx)
            &&& i != h.slice_idx ==> (g.slices.contains_key(i) <==> f.slices.contains_key(i))
            &&& i != h.slice_idx && f.slices.contains_key(i) ==> g.slices[i] == f.slices[i]
            &&& g.timestamp_us == h.timestamp_us
            &&& g.is_keyframe <==> f.is_keyframe || h.flags.has(VideoFlags::KEY_FRAME)
            &&& !h.flags.has(VideoFlags::LAST_SLICE) ==> g.num_slices_expected
                == f.num_slices_expected
            &&& h.flags.has(VideoFlags::LAST_SLICE) && h.slice_idx < u8::MAX ==> match (
                f.num_slices_expected,
                g.num_slices_expected,
            ) {
                (Some(n), Some(m)) => m >= n && m > h.slice_idx && (m == n || m == h.slice_idx + 1),
                (None, Some(m)) => m == h.slice_idx + 1,
                _ => false,
            }
        }),
{
}

/// A packet is taken in if it describes its slice as the first one did and its payload has
/// the length that its place asks for; else its frame has to be dropped.
pub proof fn packets_are_taken_by_their_length(
    f: FrameView,
    h: VideoPacketHeader,
    payload: Seq<u8>,
)
    requires
        !f.slices.contains_key(h.slice_idx),
    ensures
        h.frag_total == 0 ==> f.with_packet(h, payload) is None,
        !h.flags.has(VideoFlags::FEC_PARITY) && h.frag_idx >= h.frag_total ==> f.with_packet(
            h,
            payload,
        ) is None,
        !h.flags.has(VideoFlags::FEC_PARITY) && h.frag_idx + 1 < h.frag_total ==> (f.with_packet(
            h,
            payload,
        ) is Some <==> payload.len() == h.frag_payload_size),
        !h.flags.has(VideoFlags::FEC_PARITY) && h.frag_idx + 1 == h.frag_total ==> (f.with_packet(
            h,
            payload,
        ) is Some <==> h.frag_idx * h.frag_payload_size + payload.len() == h.slice_len),
        h.flags.has(VideoFlags::FEC_PARITY) && 4 * h.frag_idx >= h.frag_total ==> f.with_packet(
            h,
            payload,
        ) is None,
{
    if h.frag_total > 0 {
        let s = SliceView::fresh(h.frag_total, h.slice_len, h.frag_payload_size);
        fragments_fill_the_slice(s, h.frag_idx as int);
    }
}

/// A packet that describes its slice otherwise than the first one did is not taken in.
pub proof fn slices_are_described_in_one_way(f: FrameView, h: VideoPacketHeader, payload: Seq<u8>)
    requires
        f.slices.contains_key(h.slice_idx),
        f.with_packet(h, payload) is Some,
    ensures
        f.slices[h.slice_idx].frag_total == h.frag_total,
        f.slices[h.slice_idx].slice_len == h.slice_len,
        f.slices[h.slice_idx].frag_payload_size == h.frag_payload_size,
{
}

/// A packet leaves the other frames alone, except that those more than 32 behind the newest
/// are dropped, each of which is counted, and the oldest is named. The newest number never
/// goes back.
pub proof fn frames_are_dropped_from_the_oldest_on(
    before: ReassemblerView,
    data: Seq<u8>,
    received_at_us: u64,
    after: ReassemblerView,
    outcome: PushOutcome,
    seq: u32,
)
    requires
        push_result(before, data, received_at_us, after, outcome),
        data.len() >= 24,
        !before.settled(VideoPacketHeader::of_bytes(data).frame_seq),
        seq != VideoPacketHeader::of_bytes(data).frame_seq,
    ensures
        after.max_seen is Some,
        ({
            let h = VideoPacketHeader::of_bytes(data);
            let newest = after.max_seen->0;
            let taken = before.frame_for(h).with_packet(h, data.skip(24)) is Some;
            &&& newest == h.frame_seq || before.max_seen == Some(newest)
            &&& before.max_seen matches Some(was) ==> !older(newest, was)
            &&& !older(newest, h.frame_seq)
            &&& after.frames.contains_key(seq) ==> before.frames.contains_key(seq)
                && after.frames[seq] == before.frames[seq]
            &&& taken && before.frames.contains_key(seq) ==> (after.frames.contains_key(seq) <==> !(
            32 < behind(newest, seq) <= 0x7fff_fffe))
            &&& taken && before.frames.contains_key(seq) && !after.frames.contains_key(seq)
                ==> outcome.loss is Some && behind(newest, seq) <= behind(
                newest,
                outcome.loss->0.frame_seq,
            )
            &&& !taken ==> outcome.frame is None && outcome.loss == Some(
                ReassemblyLoss { frame_seq: h.frame_seq, dropped_frames: 1 },
            ) && !after.frames.contains_key(h.frame_seq)
            &&& !taken && before.frames.contains_key(seq) ==> after.frames.contains_key(seq)
        }),
{
    let h = VideoPacketHeader::of_bytes(data);
    match before.frame_for(h).with_packet(h, data.skip(24)) {
        None => {},
        Some((f, repaired)) => {
            let frames = before.frames_with(h.frame_seq, f);
            let newest = before.max_after(h.frame_seq);
            let stale = ReassemblerView::stale(frames, newest);
            assert(stale.contains(seq) <==> frames.contains_key(seq) && significantly_older(
                newest,
                seq,
            ));
            if stale.contains(seq) && outcome.loss is None {
                assert(stale.len() == 0);
            }
        },
    }
}

/// A frame comes out when its last fragment came, under its number and with the time at which
/// that was, and is then remembered while it lies within 32 frames of the newest one.
pub proof fn frames_come_out_with_their_last_fragment(
    before: ReassemblerView,
    data: Seq<u8>,
    received_at_us: u64,
    after: ReassemblerView,
    outcome: PushOutcome,
)
    requires
        push_result(before, data, received_at_us, after, outcome),
        outcome.frame is Some,
    ensures
        ({
            let h = VideoPacketHeader::of_bytes(data);
            let frame = outcome.frame->0;
            &&& data.len() >= 24
            &&& frame.frame_seq == h.frame_seq
            &&& frame.timestamp_us == h.timestamp_us
            &&& frame.received_at_us == received_at_us
            &&& frame.is_keyframe <==> h.flags.has(VideoFlags::KEY_FRAME) || (
            before.frames.contains_key(h.frame_seq) && before.frames[h.frame_seq].is_keyframe)
            &&& !before.delivered.contains(h.frame_seq)
            &&& !after.frames.contains_key(h.frame_seq)
            &&& after.max_seen matches Some(newest) && (after.delivered.contains(h.frame_seq)
                <==> behind(newest, h.frame_seq) <= 32)
        }),
{
}

/// A datagram that is too short for a header, or that belongs to a frame that came out
/// already, changes nothing and brings nothing.
pub proof fn late_packets_are_passed_over(
    before: ReassemblerView,
    data: Seq<u8>,
    received_at_us: u64,
    after: ReassemblerView,
    outcome: PushOutcome,
)
    requires
        push_result(before, data, received_at_us, after, outcome),
        data.len() < 24 || before.delivered.contains(VideoPacketHeader::of_bytes(data).frame_seq),
    ensures
        after == before,
        outcome.frame is None && outcome.loss is None,
        outcome.recovered_fragments == 0 && !outcome.recovered_frame,
{
}

/// A window begins with nothing counted.
pub proof fn windows_begin_empty()
    ensures
        ReassemblerStats::zero().assembled_frames == 0,
        ReassemblerStats::zero().dropped_frames == 0,
        ReassemblerStats::zero().recovered_fragments == 0,
        ReassemblerStats::zero().recovered_frames == 0,
{
}

} // verus!
