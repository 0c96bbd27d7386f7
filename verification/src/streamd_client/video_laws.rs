//! What holds of the reassembler over a whole stream of datagrams.

use super::video_rx::{
    acceptable, frame_for, given_up, joined_slices, push_result, DecodedFrame, FrameView,
    PendingFrames, SliceView,
};
use crate::streamd_proto::packets::{VideoFlags, VideoPacketHeader};
use crate::yang::slice_state::joined;
use vstd::prelude::*;

verus! {

/// A frame as the sender has it: of each slice the pieces, of whatever size, that are
/// sent one by one.
pub struct SourceFrame {
    pub frame_seq: u32,
    pub timestamp_us: u64,
    pub pieces: Seq<Seq<Seq<u8>>>,
}

/// The first `n` pieces, one behind the other.
pub open spec fn put_together(pieces: Seq<Seq<u8>>, n: nat) -> Seq<u8>
    decreases n,
{
    if n == 0 {
        Seq::empty()
    } else {
        put_together(pieces, (n - 1) as nat) + pieces[n - 1]
    }
}

impl SourceFrame {
    /// The frame can be described by packet headers.
    pub open spec fn valid(self) -> bool {
        &&& 0 < self.pieces.len() <= 255
        &&& forall|k: int|
            0 <= k < self.pieces.len() ==> 0 < (#[trigger] self.pieces[k]).len() <= u16::MAX
    }

    /// The bytes of a slice.
    pub open spec fn slice(self, k: int) -> Seq<u8> {
        put_together(self.pieces[k], self.pieces[k].len())
    }

    /// The encoded frame: its slices in order.
    pub open spec fn bytes(self) -> Seq<u8> {
        put_together(
            Seq::new(self.pieces.len(), |k: int| self.slice(k)),
            self.pieces.len(),
        )
    }

    /// A datagram with a piece of the frame. No packet but those of the last slice may
    /// say that it is of the last.
    pub open spec fn sends(self, data: Seq<u8>) -> bool {
        let h = VideoPacketHeader::of_bytes(data);
        &&& data.len() >= VideoPacketHeader::SIZE
        &&& h.frame_seq == self.frame_seq
        &&& h.timestamp_us == self.timestamp_us
        &&& h.slice_idx < self.pieces.len()
        &&& h.frag_total == self.pieces[h.slice_idx as int].len()
        &&& h.frag_idx < h.frag_total
        &&& data.skip(18) == self.pieces[h.slice_idx as int][h.frag_idx as int]
        &&& h.flags.has(VideoFlags::LAST_SLICE) ==> h.slice_idx + 1 == self.pieces.len()
    }

    /// What the receiver holds of the frame is true.
    pub open spec fn held_in(self, f: FrameView) -> bool {
        &&& f.num_slices_expected is None || f.num_slices_expected == Some(
            self.pieces.len() as u8,
        )
        &&& forall|k: u8| #[trigger]
            f.slices.contains_key(k) ==> k < self.pieces.len() && self.slice_held(
                k as int,
                f.slices[k],
            )
    }

    pub open spec fn slice_held(self, k: int, s: SliceView) -> bool {
        &&& s.frags.len() == self.pieces[k].len()
        &&& forall|i: int|
            0 <= i < s.frags.len() ==> ((#[trigger] s.frags[i]) is None || s.frags[i] == Some(
                self.pieces[k][i],
            ))
    }
}

/// A frame that is complete is the frame that was sent.
pub proof fn complete_frame_is_the_source(src: SourceFrame, f: FrameView)
    requires
        src.valid(),
        src.held_in(f),
        f.complete(),
    ensures
        f.assembled() == src.bytes(),
{
    lemma_joined_slices(src, f, 256);
}

proof fn lemma_joined_pieces(src: SourceFrame, k: int, s: SliceView, n: nat)
    requires
        src.slice_held(k, s),
        s.complete(),
        n <= s.frags.len(),
    ensures
        joined(s.frags, n) == put_together(src.pieces[k], n),
    decreases n,
{
    if n > 0 {
        lemma_joined_pieces(src, k, s, (n - 1) as nat);
        assert(s.frags[n - 1] is Some);
    }
}

proof fn lemma_joined_slices(src: SourceFrame, f: FrameView, n: nat)
    requires
        src.valid(),
        src.held_in(f),
        f.complete(),
        n <= 256,
    ensures
        ({
            let slices = Seq::new(src.pieces.len(), |k: int| src.slice(k));
            joined_slices(f.slices, n) == if n <= src.pieces.len() {
                put_together(slices, n)
            } else {
                src.bytes()
            }
        }),
    decreases n,
{
    let slices = Seq::new(src.pieces.len(), |k: int| src.slice(k));
    if n > 0 {
        lemma_joined_slices(src, f, (n - 1) as nat);
        let id = (n - 1) as u8;
        if n <= src.pieces.len() {
            assert(f.slices.contains_key(id));
            assert(f.slices[id].complete());
            lemma_joined_pieces(src, id as int, f.slices[id], f.slices[id].frags.len());
            assert(slices[n - 1] == src.slice(id as int));
        } else {
            assert(!f.slices.contains_key(id));
        }
        assert(joined_slices(f.slices, n) =~= if n <= src.pieces.len() {
            put_together(slices, n)
        } else {
            src.bytes()
        });
    }
}

/// Datagrams that are fed to a reassembler one after the other: what arrives when,
/// the pending frames before each and at the end, and what each gives.
pub struct Stream {
    pub datagrams: Seq<Seq<u8>>,
    pub times: Seq<u64>,
    pub states: Seq<PendingFrames>,
    pub outcomes: Seq<Option<DecodedFrame>>,
}

impl Stream {
    /// Datagram `i` leads from one state to the next.
    pub open spec fn pushed(self, i: int) -> bool {
        push_result(
            self.states[i],
            self.datagrams[i],
            self.times[i],
            self.states[i + 1],
            self.outcomes[i],
        )
    }

    pub open spec fn valid(self) -> bool {
        &&& self.times.len() == self.datagrams.len()
        &&& self.outcomes.len() == self.datagrams.len()
        &&& self.states.len() == self.datagrams.len() + 1
        &&& forall|i: int| 0 <= i < self.datagrams.len() ==> #[trigger] self.pushed(i)
    }

    /// The header of datagram `i`.
    pub open spec fn header(self, i: int) -> VideoPacketHeader {
        VideoPacketHeader::of_bytes(self.datagrams[i])
    }

    /// Datagram `i` is a packet of frame `seq`.
    pub open spec fn of_frame(self, seq: u32, i: int) -> bool {
        self.datagrams[i].len() >= VideoPacketHeader::SIZE && self.header(i).frame_seq == seq
    }

    /// Datagram `i` is the first packet of frame `seq`.
    pub open spec fn first_of(self, seq: u32, i: int) -> bool {
        self.of_frame(seq, i) && forall|a: int| 0 <= a < i ==> !#[trigger] self.of_frame(seq, a)
    }
}

/// The packet holds piece `i` of slice `k`.
pub open spec fn brings(h: VideoPacketHeader, k: int, i: int) -> bool {
    h.slice_idx == k && h.frag_idx == i
}

/// Piece `i` of slice `k` of frame `seq` is among the datagrams from `lo` to `hi`.
pub open spec fn brought(stream: Stream, seq: u32, lo: int, hi: int, k: int, i: int) -> bool {
    exists|a: int|
        lo <= a < hi && #[trigger] stream.of_frame(seq, a) && brings(stream.header(a), k, i)
}

/// One of the datagrams from `lo` to `hi` tells which slice of frame `seq` is the last.
pub open spec fn told_last(stream: Stream, seq: u32, lo: int, hi: int) -> bool {
    exists|a: int|
        lo <= a < hi && #[trigger] stream.of_frame(seq, a) && stream.header(a).flags.has(
            VideoFlags::LAST_SLICE,
        )
}

/// All pieces of the frame are among the datagrams from `lo` to `hi`, and so is one that
/// tells which slice is the last.
pub open spec fn all_there(src: SourceFrame, stream: Stream, lo: int, hi: int) -> bool {
    &&& told_last(stream, src.frame_seq, lo, hi)
    &&& forall|k: int, i: int|
        0 <= k < src.pieces.len() && 0 <= i < src.pieces[k].len() ==> #[trigger] brought(
            stream,
            src.frame_seq,
            lo,
            hi,
            k,
            i,
        )
}

/// Every packet with the number of the frame holds a piece of it, and what is held of
/// the frame at first is true. Packets of other frames, and datagrams that are no
/// packets, may come between them.
pub open spec fn pieces_of(src: SourceFrame, stream: Stream) -> bool {
    &&& src.valid()
    &&& stream.valid()
    &&& stream.states[0].contains_key(src.frame_seq) ==> src.held_in(
        stream.states[0][src.frame_seq],
    )
    &&& forall|a: int|
        0 <= a < stream.datagrams.len() && #[trigger] stream.of_frame(src.frame_seq, a)
            ==> src.sends(stream.datagrams[a])
}

/// Nothing is held of the frame at first. Its pieces arrive in any order; with datagram
/// `d` they are all there, and not before. What comes after `d` is not the whole frame
/// again. No frame that is completed while this one is in flight gives it up.
pub open spec fn whole_frame(src: SourceFrame, stream: Stream, d: int) -> bool {
    let seq = src.frame_seq;
    &&& pieces_of(src, stream)
    &&& !stream.states[0].contains_key(seq)
    &&& 0 <= d < stream.datagrams.len()
    &&& all_there(src, stream, 0, d + 1)
    &&& !all_there(src, stream, 0, d)
    &&& !all_there(src, stream, d + 1, stream.datagrams.len() as int)
    &&& forall|b: int, a: int|
        0 <= b < a < d && #[trigger] stream.of_frame(seq, b) ==> (
        #[trigger] stream.outcomes[a] matches Some(frame) ==> !given_up(frame.frame_seq, seq))
}

/// A datagram did not give frame `seq`.
pub open spec fn silent_on(outcome: Option<DecodedFrame>, seq: u32) -> bool {
    outcome matches Some(frame) ==> frame.frame_seq != seq
}

/// Piece `i` of slice `k` is held.
spec fn holds_piece(f: FrameView, k: u8, i: int) -> bool {
    f.slices.contains_key(k) && 0 <= i < f.slices[k].frags.len() && f.slices[k].frags[i] is Some
}

/// A piece is taken in, and what is held stays true.
proof fn lemma_frame_grows(src: SourceFrame, f: FrameView, data: Seq<u8>)
    requires
        src.valid(),
        src.held_in(f),
        src.sends(data),
    ensures
        f.has_place(VideoPacketHeader::of_bytes(data)),
        ({
            let h = VideoPacketHeader::of_bytes(data);
            let g = f.with_packet(h, data.skip(18));
            &&& src.held_in(g)
            &&& g.num_slices_expected is Some <==> f.num_slices_expected is Some || h.flags.has(
                VideoFlags::LAST_SLICE,
            )
            &&& forall|k: u8, i: int| #[trigger]
                holds_piece(g, k, i) <==> holds_piece(f, k, i) || brings(h, k as int, i)
        }),
{
    let h = VideoPacketHeader::of_bytes(data);
    let g = f.with_packet(h, data.skip(18));
    assert(src.slice_held(h.slice_idx as int, f.slice_for(h)));
    assert forall|k: u8| #[trigger] g.slices.contains_key(k) implies k < src.pieces.len()
        && src.slice_held(k as int, g.slices[k]) by {
        if k != h.slice_idx {
            assert(f.slices.contains_key(k));
        }
    }
}

/// A packet of another frame, or none, leaves a frame as it is or gives it up.
proof fn lemma_other_packet(
    before: PendingFrames,
    data: Seq<u8>,
    received_at_us: u64,
    after: PendingFrames,
    r: Option<DecodedFrame>,
    seq: u32,
)
    requires
        push_result(before, data, received_at_us, after, r),
        data.len() < VideoPacketHeader::SIZE || VideoPacketHeader::of_bytes(data).frame_seq != seq,
    ensures
        silent_on(r, seq),
        after.contains_key(seq) ==> before.contains_key(seq) && after[seq] == before[seq],
        before.contains_key(seq) && (r matches Some(frame) ==> !given_up(frame.frame_seq, seq))
            ==> after.contains_key(seq),
{
}

/// What is held of the frame is true at any time.
proof fn lemma_held(src: SourceFrame, stream: Stream, n: int)
    requires
        pieces_of(src, stream),
        0 <= n <= stream.datagrams.len(),
    ensures
        stream.states[n].contains_key(src.frame_seq) ==> src.held_in(
            stream.states[n][src.frame_seq],
        ),
    decreases n,
{
    if n > 0 {
        let m = n - 1;
        lemma_held(src, stream, m);
        assert(stream.pushed(m));
        if stream.of_frame(src.frame_seq, m) {
            lemma_frame_grows(
                src,
                frame_for(stream.states[m], stream.header(m)),
                stream.datagrams[m],
            );
        } else {
            lemma_other_packet(
                stream.states[m],
                stream.datagrams[m],
                stream.times[m],
                stream.states[n],
                stream.outcomes[m],
                src.frame_seq,
            );
        }
    }
}

/// A piece of a frame can be fed to the reassembler at any time: whatever pieces of the
/// frame it was fed before, and whatever other datagrams, it accepts every further piece.
pub proof fn pieces_are_always_accepted(src: SourceFrame, stream: Stream, n: int, data: Seq<u8>)
    requires
        pieces_of(src, stream),
        0 <= n <= stream.datagrams.len(),
        src.sends(data),
    ensures
        acceptable(stream.states[n], data),
{
    lemma_held(src, stream, n);
    lemma_frame_grows(src, frame_for(stream.states[n], VideoPacketHeader::of_bytes(data)), data);
}

/// Only what was brought is held.
spec fn at_most_brought(stream: Stream, seq: u32, lo: int, hi: int, f: FrameView) -> bool {
    &&& f.num_slices_expected is Some ==> told_last(stream, seq, lo, hi)
    &&& forall|k: u8, i: int| #[trigger]
        holds_piece(f, k, i) ==> brought(stream, seq, lo, hi, k as int, i)
}

/// A longer stretch of the stream brings no less.
proof fn lemma_more_is_brought(src: SourceFrame, stream: Stream, lo: int, hi: int, more: int)
    requires
        lo <= hi <= more,
    ensures
        all_there(src, stream, lo, hi) ==> all_there(src, stream, lo, more),
        told_last(stream, src.frame_seq, lo, hi) ==> told_last(stream, src.frame_seq, lo, more),
        forall|k: int, i: int| #[trigger]
            brought(stream, src.frame_seq, lo, hi, k, i) ==> brought(
                stream,
                src.frame_seq,
                lo,
                more,
                k,
                i,
            ),
{
    assert forall|k: int, i: int| #[trigger]
        brought(stream, src.frame_seq, lo, hi, k, i) implies brought(
        stream,
        src.frame_seq,
        lo,
        more,
        k,
        i,
    ) by {
        let a = choose|a: int|
            lo <= a < hi && #[trigger] stream.of_frame(src.frame_seq, a) && brings(
                stream.header(a),
                k,
                i,
            );
        assert(stream.of_frame(src.frame_seq, a));
    }
    if told_last(stream, src.frame_seq, lo, hi) {
        let a = choose|a: int|
            lo <= a < hi && #[trigger] stream.of_frame(src.frame_seq, a) && stream.header(
                a,
            ).flags.has(VideoFlags::LAST_SLICE);
        assert(stream.of_frame(src.frame_seq, a));
    }
    if all_there(src, stream, lo, hi) {
        assert forall|k: int, i: int|
            0 <= k < src.pieces.len() && 0 <= i < src.pieces[k].len() implies #[trigger] brought(
            stream,
            src.frame_seq,
            lo,
            more,
            k,
            i,
        ) by {
            assert(brought(stream, src.frame_seq, lo, hi, k, i));
        }
    }
}

/// A complete frame holds all pieces.
proof fn lemma_complete_holds_all(src: SourceFrame, stream: Stream, lo: int, hi: int, f: FrameView)
    requires
        src.valid(),
        src.held_in(f),
        f.complete(),
        at_most_brought(stream, src.frame_seq, lo, hi, f),
    ensures
        all_there(src, stream, lo, hi),
{
    assert forall|k: int, i: int|
        0 <= k < src.pieces.len() && 0 <= i < src.pieces[k].len() implies #[trigger] brought(
        stream,
        src.frame_seq,
        lo,
        hi,
        k,
        i,
    ) by {
        let id = k as u8;
        assert(f.slices.contains_key(id));
        assert(f.slices[id].complete());
        assert(f.slices[id].frags[i] is Some);
        assert(holds_piece(f, id, i));
    }
}

/// While not all pieces are there the frame does not come out.
proof fn lemma_incomplete(src: SourceFrame, stream: Stream, lo: int, n: int)
    requires
        pieces_of(src, stream),
        0 <= lo <= n <= stream.datagrams.len(),
        !stream.states[lo].contains_key(src.frame_seq),
        !all_there(src, stream, lo, n),
    ensures
        stream.states[n].contains_key(src.frame_seq) ==> at_most_brought(
            stream,
            src.frame_seq,
            lo,
            n,
            stream.states[n][src.frame_seq],
        ),
        forall|a: int| lo <= a < n ==> silent_on(#[trigger] stream.outcomes[a], src.frame_seq),
    decreases n,
{
    if lo < n {
        let m = n - 1;
        let seq = src.frame_seq;
        lemma_more_is_brought(src, stream, lo, m, n);
        lemma_incomplete(src, stream, lo, m);
        lemma_held(src, stream, m);
        assert(stream.pushed(m));
        if stream.of_frame(seq, m) {
            let h = stream.header(m);
            let f = frame_for(stream.states[m], h);
            let g = f.with_packet(h, stream.datagrams[m].skip(18));
            lemma_frame_grows(src, f, stream.datagrams[m]);
            assert(at_most_brought(stream, seq, lo, n, g)) by {
                assert forall|k: u8, i: int| #[trigger] holds_piece(g, k, i) implies brought(
                    stream,
                    seq,
                    lo,
                    n,
                    k as int,
                    i,
                ) by {
                    if holds_piece(f, k, i) {
                        assert(brought(stream, seq, lo, m, k as int, i));
                    }
                }
            }
            if g.complete() {
                lemma_complete_holds_all(src, stream, lo, n, g);
            }
        } else {
            lemma_other_packet(
                stream.states[m],
                stream.datagrams[m],
                stream.times[m],
                stream.states[n],
                stream.outcomes[m],
                seq,
            );
            if stream.states[n].contains_key(seq) {
                let f = stream.states[n][seq];
                assert forall|k: u8, i: int| #[trigger] holds_piece(f, k, i) implies brought(
                    stream,
                    seq,
                    lo,
                    n,
                    k as int,
                    i,
                ) by {
                    assert(brought(stream, seq, lo, m, k as int, i));
                }
            }
        }
    }
}

/// Everything that the first `n` datagrams brought is held.
spec fn at_least_brought(src: SourceFrame, stream: Stream, n: int, f: FrameView) -> bool {
    let seq = src.frame_seq;
    &&& f.timestamp_us == src.timestamp_us
    &&& forall|b: int|
        0 <= b < n && #[trigger] stream.first_of(seq, b) ==> f.is_keyframe == stream.header(
            b,
        ).flags.has(VideoFlags::KEY_FRAME)
    &&& told_last(stream, seq, 0, n) ==> f.num_slices_expected is Some
    &&& forall|k: u8, i: int| #[trigger]
        brought(stream, seq, 0, n, k as int, i) ==> holds_piece(f, k, i)
}

/// One more piece is held.
proof fn lemma_more_is_held(src: SourceFrame, stream: Stream, n: int, f: FrameView)
    requires
        src.valid(),
        src.held_in(f),
        0 <= n < stream.datagrams.len(),
        stream.of_frame(src.frame_seq, n),
        src.sends(stream.datagrams[n]),
        (exists|b: int| 0 <= b < n && #[trigger] stream.of_frame(src.frame_seq, b))
            ==> at_least_brought(src, stream, n, f),
        !(exists|b: int| 0 <= b < n && #[trigger] stream.of_frame(src.frame_seq, b)) ==> f
            == FrameView::fresh(stream.header(n)),
    ensures
        at_least_brought(
            src,
            stream,
            n + 1,
            f.with_packet(stream.header(n), stream.datagrams[n].skip(18)),
        ),
{
    let seq = src.frame_seq;
    let h = stream.header(n);
    let g = f.with_packet(h, stream.datagrams[n].skip(18));
    lemma_frame_grows(src, f, stream.datagrams[n]);
    assert forall|k: u8, i: int| #[trigger]
        brought(stream, seq, 0, n + 1, k as int, i) implies holds_piece(g, k, i) by {
        let a = choose|a: int|
            0 <= a < n + 1 && #[trigger] stream.of_frame(seq, a) && brings(
                stream.header(a),
                k as int,
                i,
            );
        if a < n {
            assert(stream.of_frame(seq, a));
            assert(brought(stream, seq, 0, n, k as int, i));
            assert(holds_piece(f, k, i));
        }
    }
    assert(told_last(stream, seq, 0, n + 1) ==> g.num_slices_expected is Some) by {
        if told_last(stream, seq, 0, n + 1) {
            let a = choose|a: int|
                0 <= a < n + 1 && #[trigger] stream.of_frame(seq, a) && stream.header(a).flags.has(
                    VideoFlags::LAST_SLICE,
                );
            if a < n {
                assert(stream.of_frame(seq, a));
                assert(told_last(stream, seq, 0, n));
            }
        }
    }
    assert forall|b: int| 0 <= b < n + 1 && #[trigger] stream.first_of(seq, b) implies g.is_keyframe
        == stream.header(b).flags.has(VideoFlags::KEY_FRAME) by {
        if b < n {
            assert(stream.of_frame(seq, b));
        }
    }
}

/// Until all pieces are there, whatever was brought is held.
proof fn lemma_in_flight(src: SourceFrame, stream: Stream, d: int, n: int)
    requires
        whole_frame(src, stream, d),
        0 <= n <= d,
    ensures
        stream.states[n].contains_key(src.frame_seq) <==> exists|b: int|
            0 <= b < n && #[trigger] stream.of_frame(src.frame_seq, b),
        stream.states[n].contains_key(src.frame_seq) ==> at_least_brought(
            src,
            stream,
            n,
            stream.states[n][src.frame_seq],
        ),
    decreases n,
{
    if n > 0 {
        let m = n - 1;
        let seq = src.frame_seq;
        lemma_in_flight(src, stream, d, m);
        lemma_held(src, stream, m);
        lemma_more_is_brought(src, stream, 0, n, d);
        lemma_incomplete(src, stream, 0, n);
        assert(stream.pushed(m));
        assert(silent_on(stream.outcomes[m], seq));
        if stream.of_frame(seq, m) {
            let h = stream.header(m);
            let f = frame_for(stream.states[m], h);
            lemma_more_is_held(src, stream, m, f);
        } else {
            lemma_other_packet(
                stream.states[m],
                stream.datagrams[m],
                stream.times[m],
                stream.states[n],
                stream.outcomes[m],
                seq,
            );
            if stream.states[m].contains_key(seq) {
                let b = choose|b: int| 0 <= b < m && #[trigger] stream.of_frame(seq, b);
                assert(stream.of_frame(seq, b));
                lemma_nothing_new(src, stream, m, stream.states[m][seq]);
            }
        }
    }
}

/// A datagram that is no packet of the frame brings nothing of it.
proof fn lemma_nothing_new(src: SourceFrame, stream: Stream, n: int, f: FrameView)
    requires
        0 <= n,
        !stream.of_frame(src.frame_seq, n),
        at_least_brought(src, stream, n, f),
    ensures
        at_least_brought(src, stream, n + 1, f),
{
    let seq = src.frame_seq;
    assert forall|k: u8, i: int| #[trigger]
        brought(stream, seq, 0, n + 1, k as int, i) implies holds_piece(f, k, i) by {
        let a = choose|a: int|
            0 <= a < n + 1 && #[trigger] stream.of_frame(seq, a) && brings(
                stream.header(a),
                k as int,
                i,
            );
        assert(stream.of_frame(seq, a));
        assert(brought(stream, seq, 0, n, k as int, i));
    }
    if told_last(stream, seq, 0, n + 1) {
        let a = choose|a: int|
            0 <= a < n + 1 && #[trigger] stream.of_frame(seq, a) && stream.header(a).flags.has(
                VideoFlags::LAST_SLICE,
            );
        assert(stream.of_frame(seq, a));
        assert(told_last(stream, seq, 0, n));
    }
}

/// The datagram with which all pieces are there is a packet of the frame.
proof fn lemma_last_piece(src: SourceFrame, stream: Stream, d: int)
    requires
        whole_frame(src, stream, d),
    ensures
        stream.of_frame(src.frame_seq, d),
{
    let seq = src.frame_seq;
    if !stream.of_frame(seq, d) {
        assert forall|k: int, i: int|
            0 <= k < src.pieces.len() && 0 <= i < src.pieces[k].len() implies #[trigger] brought(
            stream,
            seq,
            0,
            d,
            k,
            i,
        ) by {
            assert(brought(stream, seq, 0, d + 1, k, i));
            let a = choose|a: int|
                0 <= a < d + 1 && #[trigger] stream.of_frame(seq, a) && brings(
                    stream.header(a),
                    k,
                    i,
                );
            assert(stream.of_frame(seq, a));
        }
        let a = choose|a: int|
            0 <= a < d + 1 && #[trigger] stream.of_frame(seq, a) && stream.header(a).flags.has(
                VideoFlags::LAST_SLICE,
            );
        assert(stream.of_frame(seq, a));
        assert(all_there(src, stream, 0, d));
    }
}

/// A frame comes out with the last of its pieces, and with no other. Take a reassembler
/// in any state in which nothing is held of the frame, and feed it the pieces of the frame
/// in any order, however they were cut, with any other datagrams between them: if no frame
/// that is completed meanwhile gives this one up, the datagram that brings the last missing
/// piece gives the frame, as it was sent, and no other one does.
pub proof fn last_piece_gives_the_frame(src: SourceFrame, stream: Stream, d: int)
    requires
        whole_frame(src, stream, d),
    ensures
        stream.of_frame(src.frame_seq, d),
        stream.outcomes[d] matches Some(frame) && frame.data@ == src.bytes() && frame.frame_seq
            == src.frame_seq && frame.timestamp_us == src.timestamp_us && frame.received_at_us
            == stream.times[d] && (forall|b: int|
            0 <= b <= d && #[trigger] stream.first_of(src.frame_seq, b) ==> frame.is_keyframe
                == stream.header(b).flags.has(VideoFlags::KEY_FRAME)),
        forall|a: int|
            0 <= a < stream.datagrams.len() && a != d ==> silent_on(
                #[trigger] stream.outcomes[a],
                src.frame_seq,
            ),
{
    let seq = src.frame_seq;
    let h = stream.header(d);
    lemma_last_piece(src, stream, d);
    lemma_in_flight(src, stream, d, d);
    lemma_incomplete(src, stream, 0, d);
    lemma_held(src, stream, d);
    assert(stream.pushed(d));
    let f = frame_for(stream.states[d], h);
    lemma_more_is_held(src, stream, d, f);
    lemma_frame_grows(src, f, stream.datagrams[d]);
    let g = f.with_packet(h, stream.datagrams[d].skip(18));
    assert(g.complete()) by {
        assert forall|k: u8| k < src.pieces.len() implies #[trigger] g.slices.contains_key(k)
            && g.slices[k].complete() by {
            assert(src.pieces[k as int].len() > 0);
            assert(brought(stream, seq, 0, d + 1, k as int, 0));
            assert(holds_piece(g, k, 0));
            assert forall|i: int| 0 <= i < g.slices[k].frags.len() implies (
            #[trigger] g.slices[k].frags[i]) is Some by {
                assert(brought(stream, seq, 0, d + 1, k as int, i));
                assert(holds_piece(g, k, i));
            }
        }
    }
    complete_frame_is_the_source(src, g);
    assert(!stream.states[d + 1].contains_key(seq));
    lemma_incomplete(src, stream, d + 1, stream.datagrams.len() as int);
}

} // verus!
