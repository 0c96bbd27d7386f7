//! What holds of the reassembler over a whole stream of datagrams.

use super::slice_state::SliceView;
use super::video_laws::{
    after_arrivals, arrived_but_for, at_most_one_lost, complete_frame_is_the_source, data_arrived,
    frame_packet_is_taken_in, one_loss_per_group_costs_nothing, taken, SourceFrame, SourceSlice,
};
use super::video_rx::{
    behind, in_window, push_result, FrameView, PushOutcome, ReassemblerView, FRAME_REORDER_WINDOW,
};
use crate::fragments::lemma_frag_count;
use crate::yin_yang_proto::packets::{VideoFlags, VideoPacketHeader};
use vstd::prelude::*;

verus! {

/// Datagrams that are fed to a reassembler one after the other: what arrives when,
/// what the reassembler knows before each and at the end, and what each gives.
pub struct Stream {
    pub datagrams: Seq<Seq<u8>>,
    pub times: Seq<u64>,
    pub states: Seq<ReassemblerView>,
    pub outcomes: Seq<PushOutcome>,
}

/// Packets in the order in which they arrive: header and payload of each.
pub type Packets = Seq<(VideoPacketHeader, Seq<u8>)>;

impl Stream {
    /// Datagram `i` leads from one state to the next.
    pub open spec fn pushed(self, i: int) -> bool {
        push_result(
            self.states[i],
            self.datagrams[i],
            self.times[i],
            self.states[i + 1],
            self.outcomes[i],
        )
    }

    pub open spec fn valid(self) -> bool {
        &&& self.times.len() == self.datagrams.len()
        &&& self.outcomes.len() == self.datagrams.len()
        &&& self.states.len() == self.datagrams.len() + 1
        &&& forall|i: int| 0 <= i < self.datagrams.len() ==> #[trigger] self.pushed(i)
    }

    /// The header of datagram `i`.
    pub open spec fn header(self, i: int) -> VideoPacketHeader {
        VideoPacketHeader::of_bytes(self.datagrams[i])
    }

    /// Datagram `i` is a packet of frame `seq`.
    pub open spec fn of_frame(self, seq: u32, i: int) -> bool {
        self.datagrams[i].len() >= VideoPacketHeader::SIZE && self.header(i).frame_seq == seq
    }

    /// The packets of frame `seq` among the first `n` datagrams.
    pub open spec fn packets(self, seq: u32, n: int) -> Packets
        decreases n,
    {
        if n <= 0 {
            Seq::empty()
        } else if self.of_frame(seq, n - 1) {
            self.packets(seq, n - 1).push((self.header(n - 1), self.datagrams[n - 1].skip(24)))
        } else {
            self.packets(seq, n - 1)
        }
    }
}

/// A datagram gave nothing: no frame, no loss, nothing recovered.
pub open spec fn nothing_came(outcome: PushOutcome) -> bool {
    &&& outcome.frame is None
    &&& outcome.loss is None
    &&& outcome.recovered_fragments == 0
    &&& !outcome.recovered_frame
}

/// A datagram neither gave frame `seq` nor reported it as lost.
pub open spec fn silent_on(outcome: PushOutcome, seq: u32) -> bool {
    &&& outcome.frame matches Some(frame) ==> frame.frame_seq != seq
    &&& outcome.loss matches Some(loss) ==> loss.frame_seq != seq
}

/// Frame `seq` lies within the reorder window.
pub open spec fn within_window(v: ReassemblerView, seq: u32) -> bool {
    v.max_seen matches Some(newest) && in_window(newest, seq)
}

// ---------------------------------------------------------------------------
// Every state
// ---------------------------------------------------------------------------

/// Whatever is fed to the reassembler, no frame is ever both in flight and handed out,
/// and no number behind the reorder window is remembered.
pub proof fn every_state_is_well_formed(stream: Stream, n: int)
    requires
        stream.valid(),
        stream.states[0].wf(),
        0 <= n <= stream.datagrams.len(),
    ensures
        stream.states[n].wf(),
    decreases n,
{
    if n > 0 {
        every_state_is_well_formed(stream, n - 1);
        assert(stream.pushed(n - 1));
    }
}

/// What is remembered of the frames that were handed out stays small: at most the
/// numbers of the reorder window and the newest one.
pub proof fn few_numbers_are_remembered(v: ReassemblerView)
    requires
        v.wf(),
    ensures
        v.delivered.finite(),
        v.delivered.len() <= FRAME_REORDER_WINDOW + 1,
{
    match v.max_seen {
        None => {
            assert(v.delivered =~= Set::empty());
        },
        Some(newest) => {
            let window = Seq::new(
                (FRAME_REORDER_WINDOW + 1) as nat,
                |d: int|
                    if newest >= d {
                        (newest - d) as u32
                    } else {
                        (newest - d + 0x1_0000_0000) as u32
                    },
            );
            assert forall|s: u32| v.delivered.contains(s) implies #[trigger] window.to_set().contains(
                s,
            ) by {
                assert(window[behind(newest, s)] == s);
            }
            window.lemma_cardinality_of_set();
            assert(v.delivered.subset_of(window.to_set()));
            vstd::set_lib::lemma_len_subset(v.delivered, window.to_set());
        },
    }
}

// ---------------------------------------------------------------------------
// Delivered frames
// ---------------------------------------------------------------------------

/// The frame was delivered, and nothing of it is pending.
spec fn done_with(v: ReassemblerView, seq: u32) -> bool {
    v.settled(seq) && !v.frames.contains_key(seq)
}

/// A packet of another frame, or none, leaves a frame as it is while that lies within
/// the reorder window.
proof fn lemma_other_packet(
    before: ReassemblerView,
    data: Seq<u8>,
    received_at_us: u64,
    after: ReassemblerView,
    outcome: PushOutcome,
    seq: u32,
)
    requires
        push_result(before, data, received_at_us, after, outcome),
        data.len() < VideoPacketHeader::SIZE || VideoPacketHeader::of_bytes(data).frame_seq != seq,
        before.frames.contains_key(seq) || before.settled(seq) ==> within_window(after, seq),
    ensures
        after.frames.contains_key(seq) == before.frames.contains_key(seq),
        before.frames.contains_key(seq) ==> after.frames[seq] == before.frames[seq],
        after.settled(seq) == before.settled(seq),
        silent_on(outcome, seq),
{
    if data.len() >= VideoPacketHeader::SIZE {
        let h = VideoPacketHeader::of_bytes(data);
        if !before.settled(h.frame_seq) {
            if let Some((f, repaired)) = before.frame_for(h).with_packet(h, data.skip(24)) {
                let frames = before.frames_with(h.frame_seq, f);
                assert(frames.contains_key(seq) == before.frames.contains_key(seq));
                if let Some(loss) = outcome.loss {
                    assert(ReassemblerView::stale(frames, before.max_after(h.frame_seq)).contains(
                        loss.frame_seq,
                    ));
                    assert(frames.contains_key(loss.frame_seq));
                }
            }
        }
    }
}

/// One datagram does not undo a delivery.
proof fn lemma_stays_done(
    before: ReassemblerView,
    data: Seq<u8>,
    received_at_us: u64,
    after: ReassemblerView,
    outcome: PushOutcome,
    seq: u32,
)
    requires
        push_result(before, data, received_at_us, after, outcome),
        done_with(before, seq),
        within_window(after, seq),
    ensures
        done_with(after, seq),
        silent_on(outcome, seq),
        data.len() >= VideoPacketHeader::SIZE && VideoPacketHeader::of_bytes(data).frame_seq == seq
            ==> after == before && nothing_came(outcome),
{
    if data.len() < VideoPacketHeader::SIZE || VideoPacketHeader::of_bytes(data).frame_seq != seq {
        lemma_other_packet(before, data, received_at_us, after, outcome, seq);
    }
}

/// A delivery settles the frame.
proof fn lemma_delivery_settles(
    before: ReassemblerView,
    data: Seq<u8>,
    received_at_us: u64,
    after: ReassemblerView,
    outcome: PushOutcome,
)
    requires
        push_result(before, data, received_at_us, after, outcome),
        outcome.frame is Some,
        within_window(after, outcome.frame->0.frame_seq),
    ensures
        done_with(after, outcome.frame->0.frame_seq),
{
}

/// A frame that was delivered is neither delivered again nor reported as lost, and its
/// later packets change nothing and give nothing, as long as it lies within the reorder
/// window.
pub proof fn delivered_frames_are_never_lost(stream: Stream, i: int, j: int)
    requires
        stream.valid(),
        0 <= i < j < stream.datagrams.len(),
        stream.outcomes[i].frame is Some,
        forall|k: int|
            i < k <= j + 1 ==> within_window(
                #[trigger] stream.states[k],
                stream.outcomes[i].frame->0.frame_seq,
            ),
    ensures
        silent_on(stream.outcomes[j], stream.outcomes[i].frame->0.frame_seq),
        stream.of_frame(stream.outcomes[i].frame->0.frame_seq, j) ==> stream.states[j + 1]
            == stream.states[j] && nothing_came(stream.outcomes[j]),
{
    lemma_done_until(stream, i, j);
    assert(stream.pushed(j));
    assert(within_window(stream.states[j + 1], stream.outcomes[i].frame->0.frame_seq));
    lemma_stays_done(
        stream.states[j],
        stream.datagrams[j],
        stream.times[j],
        stream.states[j + 1],
        stream.outcomes[j],
        stream.outcomes[i].frame->0.frame_seq,
    );
}

proof fn lemma_done_until(stream: Stream, i: int, j: int)
    requires
        stream.valid(),
        0 <= i < j <= stream.datagrams.len(),
        stream.outcomes[i].frame is Some,
        forall|k: int|
            i < k <= j ==> within_window(
                #[trigger] stream.states[k],
                stream.outcomes[i].frame->0.frame_seq,
            ),
    ensures
        done_with(stream.states[j], stream.outcomes[i].frame->0.frame_seq),
    decreases j,
{
    assert(stream.pushed(j - 1));
    assert(within_window(stream.states[j], stream.outcomes[i].frame->0.frame_seq));
    if j == i + 1 {
        lemma_delivery_settles(
            stream.states[i],
            stream.datagrams[i],
            stream.times[i],
            stream.states[j],
            stream.outcomes[i],
        );
    } else {
        lemma_done_until(stream, i, j - 1);
        lemma_stays_done(
            stream.states[j - 1],
            stream.datagrams[j - 1],
            stream.times[j - 1],
            stream.states[j],
            stream.outcomes[j - 1],
            stream.outcomes[i].frame->0.frame_seq,
        );
    }
}

// ---------------------------------------------------------------------------
// A frame among others
// ---------------------------------------------------------------------------

/// Nothing is known of frame `seq` at first: it is neither in flight nor settled. From
/// its first packet on it lies within the reorder window.
pub open spec fn new_frame(seq: u32, stream: Stream) -> bool {
    &&& !stream.states[0].frames.contains_key(seq)
    &&& !stream.states[0].settled(seq)
    &&& forall|a: int, n: int|
        0 <= a < n <= stream.datagrams.len() && #[trigger] stream.of_frame(seq, a)
            ==> within_window(#[trigger] stream.states[n], seq)
}

/// Every packet with number `seq` is one that the sender may send for the frame. Packets
/// of other frames, and datagrams that are no packets, may come between them.
pub open spec fn packets_of(src: SourceFrame, seq: u32, stream: Stream) -> bool {
    &&& src.valid()
    &&& stream.valid()
    &&& forall|a: int|
        0 <= a < stream.datagrams.len() && #[trigger] stream.of_frame(seq, a) ==> src.sends(
            stream.header(a),
            stream.datagrams[a].skip(24),
        )
}

/// Of each group at most one data fragment is missing, and then not its parity fragment;
/// a packet tells which slice is the last.
pub open spec fn enough_arrived(src: SourceFrame, arrivals: Packets) -> bool {
    &&& exists|a: int|
        0 <= a < arrivals.len() && (#[trigger] arrivals[a]).0.flags.has(VideoFlags::LAST_SLICE)
    &&& forall|k: int, g: int|
        0 <= k < src.slices.len() && 0 <= g < src.slices[k].groups() ==> #[trigger] at_most_one_lost(
            src,
            arrivals,
            k,
            g,
        )
}

/// One of the packets tells that the frame is a keyframe.
pub open spec fn told_keyframe(arrivals: Packets) -> bool {
    exists|a: int|
        0 <= a < arrivals.len() && (#[trigger] arrivals[a]).0.flags.has(VideoFlags::KEY_FRAME)
}

/// Datagram `d` gives the frame that was sent, and does not report it as lost.
pub open spec fn gives_frame(src: SourceFrame, seq: u32, stream: Stream, d: int) -> bool {
    &&& stream.outcomes[d].frame matches Some(frame) && frame.data@ == src.bytes()
        && frame.frame_seq == seq && frame.timestamp_us == stream.header(d).timestamp_us
        && frame.is_keyframe == told_keyframe(stream.packets(seq, d + 1)) && frame.received_at_us
        == stream.times[d]
    &&& stream.outcomes[d].loss matches Some(loss) ==> loss.frame_seq != seq
}

/// The frame before its first packet.
spec fn unseen(arrivals: Packets) -> FrameView {
    let h = arrivals[0].0;
    FrameView::fresh(h.timestamp_us, h.flags.has(VideoFlags::KEY_FRAME))
}

/// The frame once all of its packets have been taken in.
spec fn frame_after(arrivals: Packets) -> FrameView {
    after_arrivals(unseen(arrivals), arrivals, arrivals.len())
}

/// The first packets are the same in a longer stretch of the stream.
proof fn lemma_packets_grow(stream: Stream, seq: u32, n: int, m: int)
    requires
        0 <= n <= m,
    ensures
        stream.packets(seq, n).len() <= stream.packets(seq, m).len(),
        forall|j: int|
            0 <= j < stream.packets(seq, n).len() ==> #[trigger] stream.packets(seq, m)[j]
                == stream.packets(seq, n)[j],
    decreases m,
{
    if n < m {
        lemma_packets_grow(stream, seq, n, m - 1);
    }
}

/// Every packet comes from a datagram.
proof fn lemma_packet_source(stream: Stream, seq: u32, n: int, j: int) -> (a: int)
    requires
        0 <= n,
        0 <= j < stream.packets(seq, n).len(),
    ensures
        0 <= a < n,
        stream.of_frame(seq, a),
        stream.packets(seq, n)[j] == (stream.header(a), stream.datagrams[a].skip(24)),
    decreases n,
{
    if stream.of_frame(seq, n - 1) && j == stream.packets(seq, n).len() - 1 {
        n - 1
    } else {
        lemma_packet_source(stream, seq, n - 1, j)
    }
}

/// Packets that come later do not change what the first ones made.
proof fn lemma_same_arrivals(f: FrameView, p: Packets, q: Packets, n: nat)
    requires
        n <= p.len(),
        n <= q.len(),
        forall|j: int| 0 <= j < n ==> p[j] == q[j],
    ensures
        after_arrivals(f, p, n) == after_arrivals(f, q, n),
    decreases n,
{
    if n > 0 {
        lemma_same_arrivals(f, p, q, (n - 1) as nat);
    }
}

/// One more packet.
proof fn lemma_one_more_arrival(p: Packets, h: VideoPacketHeader, payload: Seq<u8>)
    ensures
        frame_after(p.push((h, payload))) == taken(
            if p.len() == 0 {
                FrameView::fresh(h.timestamp_us, h.flags.has(VideoFlags::KEY_FRAME))
            } else {
                frame_after(p)
            },
            h,
            payload,
        ),
        told_keyframe(p.push((h, payload))) == (told_keyframe(p) || h.flags.has(
            VideoFlags::KEY_FRAME,
        )),
{
    let q = p.push((h, payload));
    lemma_same_arrivals(unseen(q), p, q, p.len());
    assert(q[p.len() as int] == (h, payload));
    if p.len() == 0 {
        assert(after_arrivals(unseen(q), q, 0) == unseen(q));
    }
    assert(after_arrivals(unseen(q), q, q.len()) == taken(
        after_arrivals(unseen(q), q, p.len()),
        h,
        payload,
    ));
    if told_keyframe(p) {
        let a = choose|a: int|
            0 <= a < p.len() && (#[trigger] p[a]).0.flags.has(VideoFlags::KEY_FRAME);
        assert(q[a].0.flags.has(VideoFlags::KEY_FRAME));
    }
    if told_keyframe(q) {
        let a = choose|a: int|
            0 <= a < q.len() && (#[trigger] q[a]).0.flags.has(VideoFlags::KEY_FRAME);
        if a < p.len() {
            assert(p[a].0.flags.has(VideoFlags::KEY_FRAME));
        }
    }
}

/// The frame has not come out with the first `n` datagrams: it is pending, or no packet
/// of it has come.
spec fn pending(src: SourceFrame, seq: u32, stream: Stream, n: int) -> bool {
    let arrivals = stream.packets(seq, n);
    &&& !stream.states[n].settled(seq)
    &&& stream.states[n].frames.contains_key(seq) == (arrivals.len() > 0)
    &&& arrivals.len() > 0 ==> {
        let f = frame_after(arrivals);
        &&& stream.states[n].frames[seq] == f
        &&& src.held_in(f)
        &&& !f.complete()
        &&& f.is_keyframe == told_keyframe(arrivals)
    }
    &&& forall|a: int| 0 <= a < n ==> silent_on(#[trigger] stream.outcomes[a], seq)
}

/// The frame came out with datagram `d`, and with no other of the first `n`.
spec fn came_out(src: SourceFrame, seq: u32, stream: Stream, n: int, d: int) -> bool {
    &&& 0 <= d < n
    &&& stream.of_frame(seq, d)
    &&& done_with(stream.states[n], seq)
    &&& gives_frame(src, seq, stream, d)
    &&& forall|a: int| 0 <= a < n && a != d ==> silent_on(#[trigger] stream.outcomes[a], seq)
}

/// A packet of the frame while it is pending.
proof fn lemma_frame_packet(src: SourceFrame, seq: u32, stream: Stream, n: int)
    requires
        packets_of(src, seq, stream),
        new_frame(seq, stream),
        0 <= n < stream.datagrams.len(),
        stream.of_frame(seq, n),
        pending(src, seq, stream, n),
    ensures
        frame_after(stream.packets(seq, n + 1)).complete() ==> came_out(
            src,
            seq,
            stream,
            n + 1,
            n,
        ),
        !frame_after(stream.packets(seq, n + 1)).complete() ==> pending(src, seq, stream, n + 1),
{
    let h = stream.header(n);
    let payload = stream.datagrams[n].skip(24);
    let before = stream.states[n];
    let after = stream.states[n + 1];
    let p = stream.packets(seq, n);
    let q = stream.packets(seq, n + 1);
    assert(stream.pushed(n));
    assert(within_window(after, seq));
    assert(q == p.push((h, payload)));
    lemma_one_more_arrival(p, h, payload);
    let f = before.frame_for(h);
    frame_packet_is_taken_in(src, f, h, payload);
    let g = taken(f, h, payload);
    assert(frame_after(q) == g);
    let frames = before.frames_with(seq, g);
    let newest = before.max_after(seq);
    let stale = ReassemblerView::stale(frames, newest);
    assert(!stale.contains(seq));
    if let Some(loss) = stream.outcomes[n].loss {
        assert(stale.contains(loss.frame_seq));
    }
    if g.complete() {
        complete_frame_is_the_source(src, g);
        assert(gives_frame(src, seq, stream, n));
    }
}

/// A datagram that is no packet of the frame while it is pending.
proof fn lemma_pending_stays(src: SourceFrame, seq: u32, stream: Stream, n: int)
    requires
        packets_of(src, seq, stream),
        new_frame(seq, stream),
        0 <= n < stream.datagrams.len(),
        !stream.of_frame(seq, n),
        pending(src, seq, stream, n),
    ensures
        pending(src, seq, stream, n + 1),
{
    assert(stream.pushed(n));
    assert(stream.packets(seq, n + 1) == stream.packets(seq, n));
    if stream.packets(seq, n).len() > 0 {
        let a = lemma_packet_source(stream, seq, n, 0);
        assert(within_window(stream.states[n + 1], seq));
    }
    lemma_other_packet(
        stream.states[n],
        stream.datagrams[n],
        stream.times[n],
        stream.states[n + 1],
        stream.outcomes[n],
        seq,
    );
}

/// After any number of datagrams the frame is pending or came out.
proof fn lemma_pending_or_out(src: SourceFrame, seq: u32, stream: Stream, n: int)
    requires
        packets_of(src, seq, stream),
        new_frame(seq, stream),
        0 <= n <= stream.datagrams.len(),
    ensures
        pending(src, seq, stream, n) || exists|d: int| #[trigger]
            came_out(src, seq, stream, n, d),
    decreases n,
{
    if n == 0 {
        assert(stream.packets(seq, 0) == Packets::empty());
        assert(pending(src, seq, stream, 0));
    } else {
        lemma_pending_or_out(src, seq, stream, n - 1);
        if pending(src, seq, stream, n - 1) {
            if stream.of_frame(seq, n - 1) {
                lemma_frame_packet(src, seq, stream, n - 1);
            } else {
                lemma_pending_stays(src, seq, stream, n - 1);
            }
        } else {
            let d = choose|d: int| #[trigger] came_out(src, seq, stream, n - 1, d);
            assert(came_out(src, seq, stream, n - 1, d));
            assert(stream.pushed(n - 1));
            assert(within_window(stream.states[n], seq));
            lemma_stays_done(
                stream.states[n - 1],
                stream.datagrams[n - 1],
                stream.times[n - 1],
                stream.states[n],
                stream.outcomes[n - 1],
                seq,
            );
            assert(came_out(src, seq, stream, n, d));
        }
    }
}

/// The packets that have arrived are packets of the frame.
proof fn lemma_all_sent(src: SourceFrame, seq: u32, stream: Stream, n: int)
    requires
        packets_of(src, seq, stream),
        0 <= n <= stream.datagrams.len(),
    ensures
        forall|j: int|
            0 <= j < stream.packets(seq, n).len() ==> src.sends(
                (#[trigger] stream.packets(seq, n)[j]).0,
                stream.packets(seq, n)[j].1,
            ),
{
    assert forall|j: int| 0 <= j < stream.packets(seq, n).len() implies src.sends(
        (#[trigger] stream.packets(seq, n)[j]).0,
        stream.packets(seq, n)[j].1,
    ) by {
        let a = lemma_packet_source(stream, seq, n, j);
    }
}

/// A frame comes out once though fragments of it were lost. Take a reassembler in any
/// state in which nothing is known of the frame, and feed it data and parity fragments of
/// the frame in any order and however often each, with any other datagrams between them:
/// if of each group at most one data fragment is missing, and then not its parity
/// fragment, and the frame stays within the reorder window, exactly one datagram gives
/// the frame, as it was sent, and none reports it as lost.
pub proof fn one_loss_per_group_gives_the_frame(src: SourceFrame, seq: u32, stream: Stream) -> (d:
    int)
    requires
        packets_of(src, seq, stream),
        new_frame(seq, stream),
        enough_arrived(src, stream.packets(seq, stream.datagrams.len() as int)),
    ensures
        0 <= d < stream.datagrams.len(),
        stream.of_frame(seq, d),
        gives_frame(src, seq, stream, d),
        forall|a: int|
            0 <= a < stream.datagrams.len() && a != d ==> silent_on(
                #[trigger] stream.outcomes[a],
                seq,
            ),
{
    let n = stream.datagrams.len() as int;
    let arrivals = stream.packets(seq, n);
    lemma_all_sent(src, seq, stream, n);
    one_loss_per_group_costs_nothing(src, unseen(arrivals), arrivals);
    lemma_pending_or_out(src, seq, stream, n);
    choose|d: int| #[trigger] came_out(src, seq, stream, n, d)
}

// ---------------------------------------------------------------------------
// Frames without a loss
// ---------------------------------------------------------------------------

/// The packet holds fragment `i` of slice `k`.
spec fn brings(h: VideoPacketHeader, k: int, i: int) -> bool {
    h.slice_idx == k && h.frag_idx == i
}

/// Fragment `i` of slice `k` is held.
spec fn holds_fragment(f: FrameView, k: u8, i: int) -> bool {
    f.slices.contains_key(k) && 0 <= i < f.slices[k].data.len() && f.slices[k].data[i] is Some
}

/// No parity has arrived, and nothing was recovered.
spec fn bare_slice(s: SliceView) -> bool {
    s.recovered_fragments == 0 && forall|g: int|
        0 <= g < s.parity.len() ==> (#[trigger] s.parity[g]) is None
}

spec fn bare(f: FrameView) -> bool {
    forall|k: u8| #[trigger] f.slices.contains_key(k) ==> bare_slice(f.slices[k])
}

/// A data fragment taken into a slice without parity.
proof fn lemma_bare_slice(src: SourceSlice, s: SliceView, h: VideoPacketHeader, payload: Seq<u8>)
    requires
        src.valid(),
        src.held_in(s),
        src.sends(h, payload),
        !h.flags.has(VideoFlags::FEC_PARITY),
        bare_slice(s),
        FrameView::slice_with(s, h, payload) is Some,
    ensures
        FrameView::slice_with(s, h, payload) matches Some((after, repaired)) && !repaired
            && bare_slice(after) && after.data.len() == s.data.len() && (forall|i: int|
            0 <= i < s.data.len() ==> ((#[trigger] after.data[i]) is Some <==> s.data[i] is Some
                || i == h.frag_idx)),
{
    let i = h.frag_idx as int;
    if s.data[i] is None {
        let t = s.with_data(i, payload);
        assert(t.parity == s.parity);
        assert(t.recovered(i / 4) is None);
        assert(t.after_recovery(i / 4) == t);
    }
}

/// A data fragment taken into a frame without parity.
proof fn lemma_bare_frame(src: SourceFrame, f: FrameView, h: VideoPacketHeader, payload: Seq<u8>)
    requires
        src.valid(),
        src.held_in(f),
        src.sends(h, payload),
        !h.flags.has(VideoFlags::FEC_PARITY),
        bare(f),
    ensures
        f.with_packet(h, payload) matches Some((after, repaired)) && ({
            &&& !repaired
            &&& src.held_in(after)
            &&& bare(after)
            &&& !after.repaired()
            &&& after.timestamp_us == h.timestamp_us
            &&& after.is_keyframe == (f.is_keyframe || h.flags.has(VideoFlags::KEY_FRAME))
            &&& f.num_slices_expected is Some || h.flags.has(VideoFlags::LAST_SLICE)
                ==> after.num_slices_expected is Some
            &&& forall|k: u8, i: int| #[trigger]
                holds_fragment(after, k, i) <==> holds_fragment(f, k, i) || brings(h, k as int, i)
        }),
{
    frame_packet_is_taken_in(src, f, h, payload);
    let slice = src.slices[h.slice_idx as int];
    assert(slice.valid());
    let s = f.slice_for(h)->0;
    if !f.slices.contains_key(h.slice_idx) {
        lemma_frag_count(slice.data.len(), slice.size);
        assert(bare_slice(s));
    }
    lemma_bare_slice(slice, s, h, payload);
    if let Some((after, repaired)) = f.with_packet(h, payload) {
        assert forall|k: u8| #[trigger] after.slices.contains_key(k) implies bare_slice(
            after.slices[k],
        ) by {
            if k != h.slice_idx {
                assert(f.slices.contains_key(k));
            }
        }
        assert forall|k: u8, i: int| #[trigger]
            holds_fragment(after, k, i) <==> holds_fragment(f, k, i) || brings(h, k as int, i) by {
            if k == h.slice_idx {
                assert(after.slices[k].data.len() == s.data.len());
                if 0 <= i < s.data.len() {
                    assert(after.slices[k].data[i] is Some <==> s.data[i] is Some || i
                        == h.frag_idx);
                }
            }
        }
    }
}

/// Without parity, only fragments that have arrived are held.
proof fn lemma_bare_arrivals(src: SourceFrame, f: FrameView, p: Packets, n: nat)
    requires
        src.valid(),
        f.slices =~= Map::empty(),
        f.num_slices_expected is None,
        n <= p.len(),
        forall|j: int|
            0 <= j < p.len() ==> src.sends((#[trigger] p[j]).0, p[j].1) && !p[j].0.flags.has(
                VideoFlags::FEC_PARITY,
            ),
    ensures
        src.held_in(after_arrivals(f, p, n)),
        bare(after_arrivals(f, p, n)),
        forall|k: u8, i: int| #[trigger]
            holds_fragment(after_arrivals(f, p, n), k, i) ==> data_arrived(p, k as int, i),
    decreases n,
{
    if n > 0 {
        lemma_bare_arrivals(src, f, p, (n - 1) as nat);
        let before = after_arrivals(f, p, (n - 1) as nat);
        let (h, payload) = p[n - 1];
        lemma_bare_frame(src, before, h, payload);
        assert forall|k: u8, i: int| #[trigger]
            holds_fragment(after_arrivals(f, p, n), k, i) implies data_arrived(p, k as int, i) by {
            if !holds_fragment(before, k, i) {
                assert(brings(p[n - 1].0, k as int, i));
            }
        }
    }
}

/// All data fragments of a frame arrive, and no parity fragment. The last missing one
/// comes with datagram `d`. Every packet of the last slice says that it is of the last.
pub open spec fn whole_frame(src: SourceFrame, seq: u32, stream: Stream, d: int) -> bool {
    &&& packets_of(src, seq, stream)
    &&& forall|a: int|
        0 <= a < stream.datagrams.len() && #[trigger] stream.of_frame(seq, a)
            ==> !stream.header(a).flags.has(VideoFlags::FEC_PARITY) && stream.header(a).flags.has(
            VideoFlags::LAST_SLICE,
        ) == (stream.header(a).slice_idx + 1 == src.slices.len())
    &&& 0 <= d < stream.datagrams.len()
    &&& stream.of_frame(seq, d)
    &&& forall|k: int, i: int|
        0 <= k < src.slices.len() && 0 <= i < src.slices[k].count() ==> #[trigger] data_arrived(
            stream.packets(seq, d + 1),
            k,
            i,
        )
    &&& !data_arrived(
        stream.packets(seq, d),
        stream.header(d).slice_idx as int,
        stream.header(d).frag_idx as int,
    )
}

/// Once all data fragments have arrived, enough have.
proof fn lemma_enough(src: SourceFrame, seq: u32, stream: Stream, d: int, n: int)
    requires
        whole_frame(src, seq, stream, d),
        d < n <= stream.datagrams.len(),
    ensures
        enough_arrived(src, stream.packets(seq, n)),
{
    let p = stream.packets(seq, d + 1);
    let q = stream.packets(seq, n);
    lemma_packets_grow(stream, seq, d + 1, n);
    assert forall|k: int, i: int|
        0 <= k < src.slices.len() && 0 <= i < src.slices[k].count() implies #[trigger] data_arrived(
        q,
        k,
        i,
    ) by {
        assert(data_arrived(p, k, i));
        let a = choose|a: int|
            0 <= a < p.len() && (#[trigger] p[a]).0.slice_idx == k && p[a].0.frag_idx == i
                && !p[a].0.flags.has(VideoFlags::FEC_PARITY);
        assert(q[a] == p[a]);
    }
    assert forall|k: int, g: int|
        0 <= k < src.slices.len() && 0 <= g < src.slices[k].groups() implies #[trigger] at_most_one_lost(
        src,
        q,
        k,
        g,
    ) by {
        assert(arrived_but_for(src, q, k, g, SliceView::group_start(g)));
    }
    let last = src.slices.len() - 1;
    assert(src.slices[last].valid());
    lemma_frag_count(src.slices[last].data.len(), src.slices[last].size);
    assert(data_arrived(q, last, 0));
    let j = choose|a: int|
        0 <= a < q.len() && (#[trigger] q[a]).0.slice_idx == last && q[a].0.frag_idx == 0
            && !q[a].0.flags.has(VideoFlags::FEC_PARITY);
    let a = lemma_packet_source(stream, seq, n, j);
    assert(q[j].0.flags.has(VideoFlags::LAST_SLICE));
}

/// The packets of a frame without parity.
proof fn lemma_only_data(src: SourceFrame, seq: u32, stream: Stream, d: int, n: int)
    requires
        whole_frame(src, seq, stream, d),
        0 <= n <= stream.datagrams.len(),
    ensures
        ({
            let p = stream.packets(seq, n);
            &&& forall|j: int|
                0 <= j < p.len() ==> src.sends((#[trigger] p[j]).0, p[j].1) && !p[j].0.flags.has(
                    VideoFlags::FEC_PARITY,
                )
            &&& p.len() > 0 ==> src.held_in(frame_after(p)) && bare(frame_after(p))
            &&& p.len() > 0 ==> forall|k: u8, i: int| #[trigger]
                holds_fragment(frame_after(p), k, i) ==> data_arrived(p, k as int, i)
        }),
{
    let p = stream.packets(seq, n);
    assert forall|j: int| 0 <= j < p.len() implies src.sends((#[trigger] p[j]).0, p[j].1)
        && !p[j].0.flags.has(VideoFlags::FEC_PARITY) by {
        let a = lemma_packet_source(stream, seq, n, j);
    }
    if p.len() > 0 {
        lemma_bare_arrivals(src, unseen(p), p, p.len());
    }
}

/// A frame comes out with the last of its fragments, and with no other. Take a
/// reassembler in any state in which nothing is known of the frame, and feed it the data
/// fragments of the frame in any order and however often each, with any other datagrams
/// between them: if the frame stays within the reorder window, the datagram that brings
/// the last missing fragment gives the frame, as it was sent, no other one does, none
/// reports it as lost, and nothing of it is recovered.
pub proof fn last_fragment_gives_the_frame(src: SourceFrame, seq: u32, stream: Stream, d: int)
    requires
        whole_frame(src, seq, stream, d),
        new_frame(seq, stream),
    ensures
        gives_frame(src, seq, stream, d),
        forall|a: int|
            0 <= a < stream.datagrams.len() && a != d ==> silent_on(
                #[trigger] stream.outcomes[a],
                seq,
            ),
        forall|a: int|
            0 <= a < stream.datagrams.len() && #[trigger] stream.of_frame(seq, a)
                ==> stream.outcomes[a].recovered_fragments == 0
                && !stream.outcomes[a].recovered_frame,
{
    let len = stream.datagrams.len() as int;
    lemma_enough(src, seq, stream, d, len);
    let e = one_loss_per_group_gives_the_frame(src, seq, stream);
    lemma_until_out(src, seq, stream, e);
    if e < d {
        lemma_frame_packet(src, seq, stream, e);
        let p = stream.packets(seq, e + 1);
        let f = frame_after(p);
        let h = stream.header(d);
        lemma_only_data(src, seq, stream, d, e + 1);
        assert(f.complete());
        assert(holds_fragment(f, h.slice_idx, h.frag_idx as int)) by {
            assert(src.sends(h, stream.datagrams[d].skip(24)));
            assert(f.num_slices_expected == Some(src.slices.len() as u8));
            assert(f.slices.contains_key(h.slice_idx));
            assert(f.slices[h.slice_idx].complete());
            assert(f.slices[h.slice_idx].data[h.frag_idx as int] is Some);
        }
        assert(data_arrived(p, h.slice_idx as int, h.frag_idx as int));
        lemma_packets_grow(stream, seq, e + 1, d);
        let q = stream.packets(seq, d);
        let a = choose|a: int|
            0 <= a < p.len() && (#[trigger] p[a]).0.slice_idx == h.slice_idx && p[a].0.frag_idx
                == h.frag_idx && !p[a].0.flags.has(VideoFlags::FEC_PARITY);
        assert(q[a] == p[a]);
    }
    if e > d {
        let p = stream.packets(seq, d + 1);
        lemma_enough(src, seq, stream, d, d + 1);
        lemma_all_sent(src, seq, stream, d + 1);
        one_loss_per_group_costs_nothing(src, unseen(p), p);
        assert(pending(src, seq, stream, d + 1));
    }
    assert forall|a: int|
        0 <= a < stream.datagrams.len() && #[trigger] stream.of_frame(seq, a) implies stream.outcomes[a].recovered_fragments
        == 0 && !stream.outcomes[a].recovered_frame by {
        lemma_nothing_recovered(src, seq, stream, d, e, a);
    }
}

/// The frame is pending until it comes out.
proof fn lemma_until_out(src: SourceFrame, seq: u32, stream: Stream, e: int)
    requires
        packets_of(src, seq, stream),
        new_frame(seq, stream),
        0 <= e < stream.datagrams.len(),
        gives_frame(src, seq, stream, e),
        forall|a: int|
            0 <= a < stream.datagrams.len() && a != e ==> silent_on(
                #[trigger] stream.outcomes[a],
                seq,
            ),
    ensures
        forall|n: int| 0 <= n <= e ==> #[trigger] pending(src, seq, stream, n),
        forall|n: int|
            e < n <= stream.datagrams.len() ==> done_with(#[trigger] stream.states[n], seq),
{
    assert forall|n: int| 0 <= n <= e implies #[trigger] pending(src, seq, stream, n) by {
        lemma_pending_or_out(src, seq, stream, n);
        if !pending(src, seq, stream, n) {
            let d = choose|d: int| #[trigger] came_out(src, seq, stream, n, d);
            assert(came_out(src, seq, stream, n, d));
            assert(silent_on(stream.outcomes[d], seq));
        }
    }
    assert forall|n: int| e < n <= stream.datagrams.len() implies done_with(
        #[trigger] stream.states[n],
        seq,
    ) by {
        lemma_pending_or_out(src, seq, stream, n);
        if pending(src, seq, stream, n) {
            assert(silent_on(stream.outcomes[e], seq));
        } else {
            let d = choose|d: int| #[trigger] came_out(src, seq, stream, n, d);
            assert(came_out(src, seq, stream, n, d));
        }
    }
}

/// A data fragment of a frame without parity recovers nothing.
proof fn lemma_nothing_recovered(
    src: SourceFrame,
    seq: u32,
    stream: Stream,
    d: int,
    e: int,
    a: int,
)
    requires
        whole_frame(src, seq, stream, d),
        0 <= a < stream.datagrams.len(),
        stream.of_frame(seq, a),
        a <= e ==> pending(src, seq, stream, a),
        a > e ==> done_with(stream.states[a], seq),
    ensures
        stream.outcomes[a].recovered_fragments == 0,
        !stream.outcomes[a].recovered_frame,
{
    assert(stream.pushed(a));
    if a <= e {
        let h = stream.header(a);
        lemma_only_data(src, seq, stream, d, a);
        lemma_bare_frame(src, stream.states[a].frame_for(h), h, stream.datagrams[a].skip(24));
    }
}

// ---------------------------------------------------------------------------
// A frame alone
// ---------------------------------------------------------------------------

/// A fresh reassembler that is fed packets of one frame only.
pub open spec fn frame_alone(seq: u32, stream: Stream) -> bool {
    &&& stream.valid()
    &&& stream.states[0] == ReassemblerView::fresh()
    &&& forall|a: int| 0 <= a < stream.datagrams.len() ==> #[trigger] stream.of_frame(seq, a)
}

/// Only this frame is known.
proof fn lemma_only_frame(seq: u32, stream: Stream, n: int)
    requires
        frame_alone(seq, stream),
        0 <= n <= stream.datagrams.len(),
    ensures
        forall|s: u32| #[trigger] stream.states[n].frames.contains_key(s) ==> s == seq,
        stream.states[n].max_seen == if n == 0 {
            None
        } else {
            Some(seq)
        },
    decreases n,
{
    if n > 0 {
        lemma_only_frame(seq, stream, n - 1);
        assert(stream.pushed(n - 1));
        assert(stream.of_frame(seq, n - 1));
    }
}

/// A frame that is fed alone to a fresh reassembler is new to it and stays within the
/// reorder window, and no other frame is reported as lost.
pub proof fn a_frame_alone_is_never_late(seq: u32, stream: Stream)
    requires
        frame_alone(seq, stream),
    ensures
        new_frame(seq, stream),
        forall|a: int|
            0 <= a < stream.datagrams.len() ==> ((#[trigger] stream.outcomes[a]).loss matches Some(
                loss,
            ) ==> loss.frame_seq == seq),
{
    assert forall|a: int, n: int|
        0 <= a < n <= stream.datagrams.len() && #[trigger] stream.of_frame(
            seq,
            a,
        ) implies within_window(#[trigger] stream.states[n], seq) by {
        lemma_only_frame(seq, stream, n);
    }
    assert forall|a: int| 0 <= a < stream.datagrams.len() implies ((
    #[trigger] stream.outcomes[a]).loss matches Some(loss) ==> loss.frame_seq == seq) by {
        lemma_only_frame(seq, stream, a);
        assert(stream.pushed(a));
        assert(stream.of_frame(seq, a));
        let before = stream.states[a];
        let h = stream.header(a);
        if let Some(loss) = stream.outcomes[a].loss {
            if let Some((f, repaired)) = before.frame_for(h).with_packet(
                h,
                stream.datagrams[a].skip(24),
            ) {
                let frames = before.frames_with(seq, f);
                assert(ReassemblerView::stale(frames, before.max_after(seq)).contains(
                    loss.frame_seq,
                ));
                assert(frames.contains_key(loss.frame_seq));
            }
        }
    }
}

/// A frame that is fed alone to a fresh reassembler, with at most one data fragment of
/// each group missing, comes out once, and no loss is reported at all.
pub proof fn a_frame_alone_comes_out(src: SourceFrame, seq: u32, stream: Stream) -> (d: int)
    requires
        frame_alone(seq, stream),
        packets_of(src, seq, stream),
        enough_arrived(src, stream.packets(seq, stream.datagrams.len() as int)),
    ensures
        0 <= d < stream.datagrams.len(),
        gives_frame(src, seq, stream, d),
        forall|a: int|
            0 <= a < stream.datagrams.len() && a != d ==> (#[trigger] stream.outcomes[a]).frame
                is None,
        forall|a: int|
            0 <= a < stream.datagrams.len() ==> (#[trigger] stream.outcomes[a]).loss is None,
{
    a_frame_alone_is_never_late(seq, stream);
    let d = one_loss_per_group_gives_the_frame(src, seq, stream);
    assert forall|a: int| 0 <= a < stream.datagrams.len() && a != d implies (
    #[trigger] stream.outcomes[a]).frame is None by {
        assert(stream.pushed(a));
        assert(stream.of_frame(seq, a));
        assert(silent_on(stream.outcomes[a], seq));
    }
    assert forall|a: int| 0 <= a < stream.datagrams.len() implies (
    #[trigger] stream.outcomes[a]).loss is None by {
        if a != d {
            assert(silent_on(stream.outcomes[a], seq));
        }
    }
    d
}

} // verus!
