//! Video frame reassembly from QUIC unreliable datagrams.
//!
//! The server sends each encoded frame as one or more datagram fragments, each
//! carrying an 18-byte `VideoPacketHeader` followed by compressed video data.
//! `VideoFrameReassembler` accumulates those fragments and emits a complete
//! `DecodedFrame` once every fragment of every slice in a frame has arrived.
//!
//! Because QUIC datagrams are unreliable, fragments can be lost. The receiver
//! evicts any incomplete frames whose sequence number falls more than 64
//! frames behind the latest completed frame, allowing the decoder to recover
//! by requesting an IDR (keyframe) from the server.

use crate::clock::now_us;
use crate::streamd_proto::packets::{parse_video_header, VideoFlags, VideoPacketHeader};
use crate::yang::slice_state::{frag_view, frag_views, joined};
use crate::yang::video_rx::behind;
use std::collections::HashMap;
use vstd::prelude::*;

verus! {

broadcast use vstd::std_specs::hash::group_hash_axioms;

/// How many frames an incomplete frame may lie behind the latest completed one.
pub const EVICTION_DISTANCE: u32 = 64;

/// A reassembled, ready-to-decode frame.
#[derive(Debug)]
pub struct DecodedFrame {
    /// Concatenated NAL data for the entire frame (all slices, in order).
    pub data: Vec<u8>,
    pub frame_seq: u32,
    pub timestamp_us: u64,
    pub is_keyframe: bool,
    /// Local wall-clock time (microseconds since Unix epoch) when the frame was
    /// fully reassembled. Used to measure end-to-end latency.
    pub received_at_us: u64,
}

/// What a receiver knows of a slice: its fragments.
#[verifier::ext_equal]
pub struct SliceView {
    pub frags: Seq<Option<Seq<u8>>>,
}

impl SliceView {
    pub open spec fn fresh(total: u16) -> SliceView {
        SliceView { frags: Seq::new(total as nat, |i: int| None) }
    }

    /// Stores a fragment, unless one is already there.
    pub open spec fn with_frag(self, i: int, payload: Seq<u8>) -> SliceView {
        if self.frags[i] is None {
            SliceView { frags: self.frags.update(i, Some(payload)) }
        } else {
            self
        }
    }

    pub open spec fn complete(self) -> bool {
        forall|i: int| 0 <= i < self.frags.len() ==> (#[trigger] self.frags[i]) is Some
    }

    pub open spec fn assembled(self) -> Seq<u8> {
        joined(self.frags, self.frags.len())
    }
}

#[derive(Debug)]
struct SliceState {
    frags: Vec<Option<Vec<u8>>>,
}

impl View for SliceState {
    type V = SliceView;

    closed spec fn view(&self) -> SliceView {
        SliceView { frags: frag_views(self.frags@) }
    }
}

impl SliceState {
    fn new(total: u16) -> (r: SliceState)
        ensures
            r@ == SliceView::fresh(total),
    {
        let mut frags: Vec<Option<Vec<u8>>> = Vec::new();
        let mut i: u16 = 0;
        while i < total
            invariant
                i <= total,
                frags@.len() == i,
                forall|j: int| 0 <= j < i ==> (#[trigger] frags@[j]) is None,
            decreases total - i,
        {
            frags.push(None);
            i = i + 1;
        }
        let r = SliceState { frags };
        assert(r@.frags =~= SliceView::fresh(total).frags);
        r
    }

    fn len(&self) -> (n: usize)
        ensures
            n == self@.frags.len(),
    {
        self.frags.len()
    }

    fn insert(&mut self, idx: u16, data: Vec<u8>)
        requires
            idx < old(self)@.frags.len(),
        ensures
            final(self)@ == old(self)@.with_frag(idx as int, data@),
    {
        let i: usize = idx as usize;
        assert(self@.frags[i as int] == frag_view(self.frags@[i as int]));
        if self.frags[i].is_none() {
            self.frags.set(i, Some(data));
            assert(self@.frags =~= old(self)@.frags.update(i as int, Some(data@)));
        }
    }

    fn is_complete(&self) -> (r: bool)
        ensures
            r == self@.complete(),
    {
        let mut i: usize = 0;
        while i < self.frags.len()
            invariant
                i <= self.frags@.len(),
                forall|j: int| 0 <= j < i ==> (#[trigger] self@.frags[j]) is Some,
            decreases self.frags@.len() - i,
        {
            assert(self@.frags[i as int] == frag_view(self.frags@[i as int]));
            if self.frags[i].is_none() {
                return false;
            }
            i = i + 1;
        }
        true
    }

    fn assemble(&self) -> (out: Vec<u8>)
        ensures
            out@ == self@.assembled(),
    {
        let mut out: Vec<u8> = Vec::new();
        let mut i: usize = 0;
        while i < self.frags.len()
            invariant
                i <= self.frags@.len(),
                out@ == joined(self@.frags, i as nat),
            decreases self.frags@.len() - i,
        {
            assert(self@.frags[i as int] == frag_view(self.frags@[i as int]));
            match &self.frags[i] {
                Some(frag) => {
                    out.extend_from_slice(frag.as_slice());
                },
                None => {},
            }
            i = i + 1;
            assert(out@ =~= joined(self@.frags, i as nat));
        }
        out
    }
}

/// What a receiver knows of a frame.
#[verifier::ext_equal]
pub struct FrameView {
    pub slices: Map<u8, SliceView>,
    pub num_slices_expected: Option<u8>,
    pub timestamp_us: u64,
    pub is_keyframe: bool,
}

/// The slices below `n` that are there, one behind the other.
pub open spec fn joined_slices(slices: Map<u8, SliceView>, n: nat) -> Seq<u8>
    decreases n,
{
    if n == 0 {
        Seq::empty()
    } else {
        joined_slices(slices, (n - 1) as nat) + (if slices.contains_key((n - 1) as u8) {
            slices[(n - 1) as u8].assembled()
        } else {
            Seq::empty()
        })
    }
}

impl FrameView {
    /// A frame of which nothing has arrived. The first packet gives its time
    /// and tells whether it is a keyframe.
    pub open spec fn fresh(h: VideoPacketHeader) -> FrameView {
        FrameView {
            slices: Map::empty(),
            num_slices_expected: None,
            timestamp_us: h.timestamp_us,
            is_keyframe: h.flags.has(VideoFlags::KEY_FRAME),
        }
    }

    /// The slice that a packet belongs to.
    pub open spec fn slice_for(self, h: VideoPacketHeader) -> SliceView {
        if self.slices.contains_key(h.slice_idx) {
            self.slices[h.slice_idx]
        } else {
            SliceView::fresh(h.frag_total)
        }
    }

    /// The packet has a place in the frame: its fragment is one of the slice's,
    /// and the number of slices it tells fits eight bits.
    pub open spec fn has_place(self, h: VideoPacketHeader) -> bool {
        &&& h.frag_idx < self.slice_for(h).frags.len()
        &&& h.flags.has(VideoFlags::LAST_SLICE) ==> h.slice_idx < u8::MAX
    }

    /// The frame with a packet taken in.
    pub open spec fn with_packet(self, h: VideoPacketHeader, payload: Seq<u8>) -> FrameView {
        FrameView {
            slices: self.slices.insert(
                h.slice_idx,
                self.slice_for(h).with_frag(h.frag_idx as int, payload),
            ),
            num_slices_expected: if h.flags.has(VideoFlags::LAST_SLICE) {
                Some((h.slice_idx + 1) as u8)
            } else {
                self.num_slices_expected
            },
            ..self
        }
    }

    /// The number of slices is known, and each of them is complete.
    pub open spec fn complete(self) -> bool {
        self.num_slices_expected matches Some(n) && forall|i: u8|
            i < n ==> #[trigger] self.slices.contains_key(i) && self.slices[i].complete()
    }

    /// The bytes of the frame: its slices in order.
    pub open spec fn assembled(self) -> Seq<u8> {
        joined_slices(self.slices, 256)
    }
}

/// Per-frame reassembly state.
#[derive(Debug)]
struct FrameState {
    slices: HashMap<u8, SliceState>,
    num_slices_expected: Option<u8>,
    timestamp_us: u64,
    is_keyframe: bool,
}

impl View for FrameState {
    type V = FrameView;

    closed spec fn view(&self) -> FrameView {
        FrameView {
            slices: self.slices@.map_values(|s: SliceState| s@),
            num_slices_expected: self.num_slices_expected,
            timestamp_us: self.timestamp_us,
            is_keyframe: self.is_keyframe,
        }
    }
}

impl FrameState {
    fn new(hdr: &VideoPacketHeader) -> (r: FrameState)
        ensures
            r@ == FrameView::fresh(*hdr),
    {
        let r = FrameState {
            slices: HashMap::new(),
            num_slices_expected: None,
            timestamp_us: hdr.timestamp_us,
            is_keyframe: hdr.is_keyframe(),
        };
        assert(r@ =~= FrameView::fresh(*hdr));
        r
    }

    fn fits(&self, hdr: &VideoPacketHeader) -> (r: bool)
        ensures
            r == self@.has_place(*hdr),
    {
        let len: usize = match self.slices.get(&hdr.slice_idx) {
            Some(slice) => slice.len(),
            None => hdr.frag_total as usize,
        };
        (hdr.frag_idx as usize) < len && !(hdr.is_last_slice() && hdr.slice_idx == u8::MAX)
    }

    fn take_packet(&mut self, hdr: &VideoPacketHeader, payload: &[u8])
        requires
            old(self)@.has_place(*hdr),
        ensures
            final(self)@ == old(self)@.with_packet(*hdr, payload@),
    {
        let ghost before = self@;
        if hdr.is_last_slice() {
            self.num_slices_expected = Some(hdr.slice_idx + 1);
        }
        let mut slice = match self.slices.remove(&hdr.slice_idx) {
            Some(existing) => existing,
            None => SliceState::new(hdr.frag_total),
        };
        assert(slice@ == before.slice_for(*hdr));
        slice.insert(hdr.frag_idx, crate::wire::slice_to_vec(payload));
        let ghost after = slice@;
        self.slices.insert(hdr.slice_idx, slice);
        assert(self@.slices =~= before.slices.insert(hdr.slice_idx, after));
    }

    fn is_complete(&self) -> (r: bool)
        ensures
            r == self@.complete(),
    {
        let total: u8 = match self.num_slices_expected {
            Some(n) => n,
            None => {
                return false;
            },
        };
        let mut i: u8 = 0;
        while i < total
            invariant
                i <= total,
                self.num_slices_expected == Some(total),
                forall|j: u8|
                    j < i ==> #[trigger] self@.slices.contains_key(j)
                        && self@.slices[j].complete(),
            decreases total - i,
        {
            match self.slices.get(&i) {
                Some(slice) => {
                    assert(self@.slices.contains_key(i) && self@.slices[i] == slice@);
                    if !slice.is_complete() {
                        return false;
                    }
                },
                None => {
                    assert(!self@.slices.contains_key(i));
                    return false;
                },
            }
            i = i + 1;
        }
        true
    }

    fn assemble(&self) -> (out: Vec<u8>)
        ensures
            out@ == self@.assembled(),
    {
        let mut out: Vec<u8> = Vec::new();
        let mut n: u16 = 0;
        while n < 256
            invariant
                n <= 256,
                out@ == joined_slices(self@.slices, n as nat),
            decreases 256 - n,
        {
            let id: u8 = n as u8;
            match self.slices.get(&id) {
                Some(slice) => {
                    assert(self@.slices.contains_key(id) && self@.slices[id] == slice@);
                    let bytes = slice.assemble();
                    out.extend_from_slice(bytes.as_slice());
                },
                None => {
                    assert(!self@.slices.contains_key(id));
                },
            }
            n = n + 1;
            assert(out@ =~= joined_slices(self@.slices, n as nat));
        }
        out
    }
}

/// Statistics of a window of about one second.
#[derive(Clone, Copy, Debug, PartialEq, Eq, Structural)]
pub struct ReassemblerStats {
    pub assembled_frames: u32,
    pub dropped_frames: u32,
}

/// `n` more, up to the limit of a counter.
pub open spec fn plus(count: u32, n: int) -> u32 {
    if count + n <= u32::MAX {
        (count + n) as u32
    } else {
        u32::MAX
    }
}

impl ReassemblerStats {
    /// Nothing counted.
    pub open spec fn zero() -> ReassemblerStats {
        ReassemblerStats { assembled_frames: 0, dropped_frames: 0 }
    }

    pub fn new() -> (r: ReassemblerStats)
        ensures
            r == ReassemblerStats::zero(),
    {
        ReassemblerStats { assembled_frames: 0, dropped_frames: 0 }
    }

    pub fn record_assembled(&mut self)
        ensures
            *final(self) == (ReassemblerStats {
                assembled_frames: plus(old(self).assembled_frames, 1),
                ..*old(self)
            }),
    {
        self.assembled_frames = self.assembled_frames.saturating_add(1);
    }

    pub fn record_dropped(&mut self)
        ensures
            *final(self) == (ReassemblerStats {
                dropped_frames: plus(old(self).dropped_frames, 1),
                ..*old(self)
            }),
    {
        self.dropped_frames = self.dropped_frames.saturating_add(1);
    }

    /// Hands the window out once a second has passed, and starts a new one.
    pub fn take_window(&mut self, elapsed_us: u64) -> (r: Option<ReassemblerStats>)
        ensures
            elapsed_us < 1_000_000 ==> r is None && *final(self) == *old(self),
            elapsed_us >= 1_000_000 ==> r == Some(*old(self)) && *final(self)
                == ReassemblerStats::zero(),
    {
        if elapsed_us < 1_000_000 {
            return None;
        }
        let window = *self;
        *self = ReassemblerStats::new();
        Some(window)
    }
}

/// The incomplete frames, by sequence number.
pub type PendingFrames = Map<u32, FrameView>;

/// The frame that a packet belongs to.
pub open spec fn frame_for(frames: PendingFrames, h: VideoPacketHeader) -> FrameView {
    if frames.contains_key(h.frame_seq) {
        frames[h.frame_seq]
    } else {
        FrameView::fresh(h)
    }
}

/// The datagram can be taken in: it is too short to be parsed, or it has a
/// place in its frame.
pub open spec fn acceptable(frames: PendingFrames, data: Seq<u8>) -> bool {
    data.len() >= VideoPacketHeader::SIZE ==> {
        let h = VideoPacketHeader::of_bytes(data);
        frame_for(frames, h).has_place(h)
    }
}

/// Frame `seq` is given up once frame `done` is complete: it is too far behind, counting
/// round the 32-bit circle. A frame that is half the circle behind or more is ahead.
pub open spec fn given_up(done: u32, seq: u32) -> bool {
    EVICTION_DISTANCE < behind(done, seq) < 0x7fff_ffff
}

/// How many frames are given up once frame `done` is complete.
pub open spec fn lost(frames: PendingFrames, done: u32) -> int {
    frames.len() - kept(frames, done).len()
}

/// The frames that may still be completed once frame `done` is complete.
pub open spec fn kept(frames: PendingFrames, done: u32) -> PendingFrames {
    frames.remove_keys(frames.dom().filter(|seq: u32| given_up(done, seq)))
}

/// What feeding a datagram does to the pending frames, and what it gives.
pub open spec fn push_result(
    before: PendingFrames,
    data: Seq<u8>,
    received_at_us: u64,
    after: PendingFrames,
    r: Option<DecodedFrame>,
) -> bool {
    if data.len() < VideoPacketHeader::SIZE {
        after == before && r is None
    } else {
        let h = VideoPacketHeader::of_bytes(data);
        let f = frame_for(before, h).with_packet(h, data.skip(18));
        if f.complete() {
            &&& after == kept(before.remove(h.frame_seq), h.frame_seq)
            &&& r matches Some(frame) && frame.data@ == f.assembled() && frame.frame_seq
                == h.frame_seq && frame.timestamp_us == f.timestamp_us && frame.is_keyframe
                == f.is_keyframe && frame.received_at_us == received_at_us
        } else {
            after == before.insert(h.frame_seq, f) && r is None
        }
    }
}

/// The statistics with one more datagram counted: a frame that it completes, and
/// the frames that are given up for it.
pub open spec fn counted(
    stats: ReassemblerStats,
    before: PendingFrames,
    r: Option<DecodedFrame>,
) -> ReassemblerStats {
    match r {
        Some(frame) => ReassemblerStats {
            assembled_frames: plus(stats.assembled_frames, 1),
            dropped_frames: plus(
                stats.dropped_frames,
                lost(before.remove(frame.frame_seq), frame.frame_seq),
            ),
        },
        None => stats,
    }
}

/// Stateful reassembler that turns a stream of raw datagram payloads (the
/// bytes *after* the `DATAGRAM_TAG_VIDEO` byte has been stripped) into
/// complete `DecodedFrame`s.
///
/// Call `push_datagram` for each video datagram payload received from
/// `Connection::read_datagram`. It returns `Some(frame)` when the last
/// fragment of a frame arrives, `None` otherwise.
#[derive(Debug)]
pub struct VideoFrameReassembler {
    /// In-flight reassembly state, keyed by `frame_seq`.
    frames: HashMap<u32, FrameState>,
    stats: ReassemblerStats,
}

impl View for VideoFrameReassembler {
    type V = PendingFrames;

    closed spec fn view(&self) -> PendingFrames {
        self.frames@.map_values(|f: FrameState| f@)
    }
}

impl VideoFrameReassembler {
    /// The statistics of the window that is running.
    pub closed spec fn statistics(&self) -> ReassemblerStats {
        self.stats
    }

    pub fn new() -> (r: VideoFrameReassembler)
        ensures
            r@ == PendingFrames::empty(),
            r.statistics() == ReassemblerStats::zero(),
    {
        let r = VideoFrameReassembler { frames: HashMap::new(), stats: ReassemblerStats::new() };
        assert(r@ =~= PendingFrames::empty());
        r
    }

    /// Whether a datagram can be taken in: a fragment outside its slice, or a
    /// last slice numbered 255, cannot.
    pub fn accepts(&self, data: &[u8]) -> (r: bool)
        ensures
            r == acceptable(self@, data@),
    {
        match parse_video_header(data) {
            None => true,
            Some((hdr, _)) => match self.frames.get(&hdr.frame_seq) {
                Some(entry) => entry.fits(&hdr),
                None => FrameState::new(&hdr).fits(&hdr),
            },
        }
    }

    /// Feed one datagram payload (tag byte already stripped).
    ///
    /// Returns `Some(frame)` when a complete frame is assembled, `None`
    /// while waiting for more fragments.
    pub fn push_datagram(&mut self, data: &[u8]) -> (r: Option<DecodedFrame>)
        requires
            acceptable(old(self)@, data@),
        ensures
            exists|received_at_us: u64| #[trigger]
                push_result(old(self)@, data@, received_at_us, final(self)@, r),
            final(self).statistics() == counted(old(self).statistics(), old(self)@, r),
    {
        let received_at_us = now_us();
        self.push_datagram_at(data, received_at_us)
    }

    /// Feed one datagram payload that arrived at the given time.
    pub fn push_datagram_at(&mut self, data: &[u8], received_at_us: u64) -> (r: Option<
        DecodedFrame,
    >)
        requires
            acceptable(old(self)@, data@),
        ensures
            push_result(old(self)@, data@, received_at_us, final(self)@, r),
            final(self).statistics() == counted(old(self).statistics(), old(self)@, r),
    {
        let (hdr, payload) = match parse_video_header(data) {
            Some(x) => x,
            None => {
                return None;
            },
        };
        let seq: u32 = hdr.frame_seq;
        let mut state = match self.frames.remove(&seq) {
            Some(entry) => entry,
            None => FrameState::new(&hdr),
        };
        assert(state@ == frame_for(old(self)@, hdr));
        assert(self@ =~= old(self)@.remove(seq));
        state.take_packet(&hdr, payload);
        let ghost f = state@;
        if !state.is_complete() {
            self.frames.insert(seq, state);
            assert(self@ =~= old(self)@.insert(seq, f));
            return None;
        }
        let frame = DecodedFrame {
            data: state.assemble(),
            frame_seq: seq,
            timestamp_us: state.timestamp_us,
            is_keyframe: state.is_keyframe,
            received_at_us,
        };
        self.stats.record_assembled();
        self.evict(seq);
        Some(frame)
    }

    /// Hands out the statistics of a window of one second.
    pub fn take_stats(&mut self, elapsed_us: u64) -> (r: Option<ReassemblerStats>)
        ensures
            final(self)@ == old(self)@,
            elapsed_us < 1_000_000 ==> r is None && final(self).statistics() == old(
                self,
            ).statistics(),
            elapsed_us >= 1_000_000 ==> r == Some(old(self).statistics())
                && final(self).statistics() == ReassemblerStats::zero(),
    {
        self.stats.take_window(elapsed_us)
    }

    /// Gives up the incomplete frames that are too far behind frame `done`.
    fn evict(&mut self, done: u32)
        ensures
            final(self)@ == kept(old(self)@, done),
            final(self).statistics() == (ReassemblerStats {
                dropped_frames: plus(
                    old(self).statistics().dropped_frames,
                    lost(old(self)@, done),
                ),
                ..old(self).statistics()
            }),
    {
        let mut keys: Vec<u32> = Vec::new();
        for key in it: self.frames.keys()
            invariant
                keys@.len() == it.index(),
                forall|i: int| 0 <= i < keys@.len() ==> keys@[i] == *#[trigger] it.seq()[i],
        {
            keys.push(*key);
        }
        proof {
            let seq = vstd::std_specs::iter::IteratorSpec::remaining(
                &vstd::std_specs::hash::spec_keys_iter(&self.frames),
            );
            assert(keys@ =~= seq.unref());
            assert forall|k: u32| #[trigger] keys@.contains(k) <==> self@.contains_key(k) by {
                assert(seq.unref().to_set().contains(k) <==> self.frames@.dom().contains(k));
            }
        }
        let mut i: usize = 0;
        while i < keys.len()
            invariant
                i <= keys@.len(),
                forall|k: u32|
                    #![trigger self@.contains_key(k)]
                    self@.contains_key(k) <==> old(self)@.contains_key(k) && !(given_up(done, k)
                        && keys@.take(i as int).contains(k)),
                forall|k: u32| #[trigger]
                    self@.contains_key(k) ==> self@[k] == old(self)@[k],
                self@.len() <= old(self)@.len(),
                self.stats == (ReassemblerStats {
                    dropped_frames: plus(
                        old(self).stats.dropped_frames,
                        old(self)@.len() - self@.len(),
                    ),
                    ..old(self).stats
                }),
            decreases keys@.len() - i,
        {
            let seq: u32 = keys[i];
            let ghost before = self@;
            proof {
                let before_keys = keys@.take(i as int);
                let more = keys@.take(i + 1);
                assert(more =~= before_keys.push(seq));
                assert forall|x: u32| #[trigger] more.contains(x) <==> before_keys.contains(x) || x
                    == seq by {
                    if before_keys.contains(x) {
                        let j = before_keys.index_of(x);
                        assert(more[j] == x);
                    }
                    assert(more[i as int] == seq);
                }
            }
            let distance: u32 = done.wrapping_sub(seq);
            assert(distance == behind(done, seq));
            if distance > EVICTION_DISTANCE && distance < u32::MAX / 2 {
                let ghost held = self.frames@;
                if self.frames.remove(&seq).is_some() {
                    self.stats.record_dropped();
                }
                proof {
                    assert(self@ =~= before.remove(seq));
                    assert(before.dom() =~= held.dom());
                    assert(held.dom().finite());
                    assert(self@.dom() =~= before.dom().remove(seq));
                }
            }
            i = i + 1;
        }
        assert(keys@.take(i as int) =~= keys@);
        assert forall|k: u32| #[trigger] kept(old(self)@, done).contains_key(k) <==> self@.contains_key(
            k,
        ) by {
            assert(keys@.contains(k) <==> old(self)@.contains_key(k));
        }
        assert(self@ =~= kept(old(self)@, done));
    }
}

/// No frame near the latest completed one is given up: an incomplete frame of
/// the last 64 stays, and so does one that is ahead, also where the frame counter
/// wraps between them.
pub proof fn recent_frames_are_kept(frames: PendingFrames, done: u32, seq: u32)
    requires
        frames.contains_key(seq),
        behind(done, seq) <= 64 || 0 < behind(seq, done) <= 0x8000_0000,
    ensures
        kept(frames, done).contains_key(seq),
        kept(frames, done)[seq] == frames[seq],
{
}

/// Frames are given up round the circle of their numbers: from 65 behind the one that was
/// completed on, up to almost half the circle.
pub proof fn frames_are_given_up_round_the_circle(seq: u32, n: int)
    requires
        0 <= n < 0x1_0000_0000,
    ensures
        given_up(((seq + n) % 0x1_0000_0000) as u32, seq) <==> 65 <= n <= 0x7fff_fffe,
{
}

/// A packet touches its own slice alone, and in it only a fragment that was missing. The
/// frame keeps the time and the kind that its first packet told, and has as many slices as
/// the last packet of its last slice tells.
pub proof fn packets_touch_their_fragment_alone(
    f: FrameView,
    h: VideoPacketHeader,
    payload: Seq<u8>,
    i: u8,
    k: int,
)
    requires
        f.has_place(h),
    ensures
        ({
            let g = f.with_packet(h, payload);
            let s = f.slice_for(h);
            let t = g.slices[h.slice_idx];
            &&& g.timestamp_us == f.timestamp_us && g.is_keyframe == f.is_keyframe
            &&& g.slices.contains_key(h.slice_idx)
            &&& i != h.slice_idx ==> (g.slices.contains_key(i) <==> f.slices.contains_key(i))
            &&& i != h.slice_idx && f.slices.contains_key(i) ==> g.slices[i] == f.slices[i]
            &&& t.frags.len() == s.frags.len()
            &&& 0 <= k < s.frags.len() && k != h.frag_idx ==> t.frags[k] == s.frags[k]
            &&& s.frags[h.frag_idx as int] is None ==> t.frags[h.frag_idx as int] == Some(payload)
            &&& s.frags[h.frag_idx as int] is Some ==> t.frags[h.frag_idx as int]
                == s.frags[h.frag_idx as int]
            &&& h.flags.has(VideoFlags::LAST_SLICE) ==> (g.num_slices_expected matches Some(n) && n
                == h.slice_idx + 1)
            &&& !h.flags.has(VideoFlags::LAST_SLICE) ==> g.num_slices_expected
                == f.num_slices_expected
        }),
{
}

/// The first packet of a frame tells its time and whether it is a keyframe, and the first
/// packet of a slice how many fragments the slice has; all of them are missing then.
pub proof fn first_packets_tell_of_the_rest(h: VideoPacketHeader, frames: PendingFrames, k: int)
    ensures
        !frames.contains_key(h.frame_seq) ==> ({
            let f = frame_for(frames, h);
            &&& f.timestamp_us == h.timestamp_us
            &&& f.is_keyframe <==> h.flags.has(VideoFlags::KEY_FRAME)
            &&& f.num_slices_expected is None
            &&& f.slice_for(h).frags.len() == h.frag_total
            &&& 0 <= k < h.frag_total ==> f.slice_for(h).frags[k] is None
            &&& f.has_place(h) <==> h.frag_idx < h.frag_total && !(h.flags.has(
                VideoFlags::LAST_SLICE,
            ) && h.slice_idx == 255)
        }),
        frames.contains_key(h.frame_seq) ==> frame_for(frames, h) == frames[h.frame_seq],
{
}

/// A packet leaves the other frames alone, except that once it completes its frame, those
/// that are more than 64 behind it are given up.
pub proof fn other_frames_wait(
    before: PendingFrames,
    data: Seq<u8>,
    received_at_us: u64,
    after: PendingFrames,
    r: Option<DecodedFrame>,
    seq: u32,
)
    requires
        push_result(before, data, received_at_us, after, r),
        data.len() >= 18,
        seq != VideoPacketHeader::of_bytes(data).frame_seq,
    ensures
        ({
            let h = VideoPacketHeader::of_bytes(data);
            &&& after.contains_key(seq) ==> before.contains_key(seq) && after[seq] == before[seq]
            &&& r is None && before.contains_key(seq) ==> after.contains_key(seq)
            &&& r is Some && before.contains_key(seq) ==> (after.contains_key(seq) <==> !(64
                < behind(h.frame_seq, seq) <= 0x7fff_fffe))
            &&& r is Some <==> !after.contains_key(h.frame_seq)
            &&& r matches Some(frame) ==> frame.frame_seq == h.frame_seq && frame.received_at_us
                == received_at_us && frame.timestamp_us == frame_for(before, h).timestamp_us
                && frame.is_keyframe == frame_for(before, h).is_keyframe
        }),
{
}

/// A frame that comes out is counted, and so is each frame that was given up for it; else
/// the counts stay.
pub proof fn statistics_count_what_came(
    stats: ReassemblerStats,
    before: PendingFrames,
    data: Seq<u8>,
    received_at_us: u64,
    after: PendingFrames,
    r: Option<DecodedFrame>,
)
    requires
        push_result(before, data, received_at_us, after, r),
        data.len() >= 18,
        before.dom().finite(),
        stats.assembled_frames < u32::MAX,
        stats.dropped_frames + before.len() <= u32::MAX,
    ensures
        r is None ==> counted(stats, before, r) == stats,
        r is Some ==> ({
            let h = VideoPacketHeader::of_bytes(data);
            let c = counted(stats, before, r);
            let own = if before.contains_key(h.frame_seq) {
                1nat
            } else {
                0nat
            };
            &&& c.assembled_frames == stats.assembled_frames + 1
            &&& c.dropped_frames + own + after.len() == stats.dropped_frames + before.len()
        }),
{
    if r is Some {
        let h = VideoPacketHeader::of_bytes(data);
        let rest = before.remove(h.frame_seq);
        let gone = rest.dom().filter(|seq: u32| given_up(h.frame_seq, seq));
        assert(rest.remove_keys(gone).dom() =~= rest.dom().difference(gone));
        vstd::set_lib::lemma_len_subset(rest.dom().difference(gone), rest.dom());
        assert(rest.dom() =~= before.dom().remove(h.frame_seq));
    }
}

/// A window begins with nothing counted.
pub proof fn windows_begin_empty()
    ensures
        ReassemblerStats::zero().assembled_frames == 0,
        ReassemblerStats::zero().dropped_frames == 0,
{
}

/// A datagram of fewer than 18 bytes is passed over. One with a header is taken in if its
/// fragment is one of its slice's, and its slice, where it is the last, is not number 255.
pub proof fn datagrams_are_accepted_by_their_place(frames: PendingFrames, data: Seq<u8>)
    ensures
        data.len() < 18 ==> acceptable(frames, data),
        data.len() >= 18 ==> ({
            let h = VideoPacketHeader::of_bytes(data);
            let known = frames.contains_key(h.frame_seq) && frames[h.frame_seq].slices.contains_key(
                h.slice_idx,
            );
            let places = if known {
                frames[h.frame_seq].slices[h.slice_idx].frags.len()
            } else {
                h.frag_total as nat
            };
            acceptable(frames, data) <==> h.frag_idx < places && !(h.flags.has(
                VideoFlags::LAST_SLICE,
            ) && h.slice_idx == 255)
        }),
{
}

} // verus!
