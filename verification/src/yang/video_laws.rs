//! What the receiver owes the sender: a frame that is cut into fragments and
//! protected by parity comes out of the reassembler byte for byte, whatever
//! the order in which its packets arrive, whichever arrive twice, and with one
//! fragment of each group lost.

use super::slice_state::{
    joined, lemma_first_gap, lemma_longest_bounds, padded_byte, xor_except, SliceView,
};
use super::video_rx::{
    joined_slices, push_result, FrameView, PushOutcome, ReassemblerView,
};
use crate::fragments::{
    frag, frag_count, frags_joined, fragments_make_up_the_whole, lemma_frag_bounds,
    lemma_frag_count,
};
use crate::yin_yang_proto::packets::{VideoFlags, VideoPacketHeader};
use vstd::prelude::*;

verus! {

/// A slice as the sender has it: its bytes and the fragment size.
pub struct SourceSlice {
    pub data: Seq<u8>,
    pub size: nat,
}

impl SourceSlice {
    /// The slice can be described by packet headers.
    pub open spec fn valid(self) -> bool {
        &&& 0 < self.size <= u16::MAX
        &&& 0 < self.data.len() <= u32::MAX
        &&& self.count() <= u16::MAX
    }

    /// The number of data fragments.
    pub open spec fn count(self) -> nat {
        frag_count(self.data.len(), self.size)
    }

    /// The number of parity groups.
    pub open spec fn groups(self) -> nat {
        (self.count() + 3) / 4
    }

    /// Data fragment `i`.
    pub open spec fn frag(self, i: int) -> Seq<u8> {
        frag(self.data, self.size, i)
    }

    /// All data fragments.
    pub open spec fn frags(self) -> Seq<Option<Seq<u8>>> {
        Seq::new(self.count(), |i: int| Some(self.frag(i)))
    }

    /// The slice before anything has arrived.
    pub open spec fn unseen(self) -> SliceView {
        SliceView::fresh(self.count() as u16, self.data.len() as u32, self.size as u16)
    }

    /// The parity fragment of a group: the XOR of its fragments.
    pub open spec fn parity(self, g: int) -> Seq<u8> {
        Seq::new(
            self.unseen().group_payload_len(g)->0,
            |k: int|
                xor_except(
                    self.frags(),
                    SliceView::group_start(g),
                    self.unseen().group_end(g),
                    -1,
                    k,
                ),
        )
    }

    /// A header describes this slice.
    pub open spec fn described_by(self, h: VideoPacketHeader) -> bool {
        &&& h.frag_total == self.count()
        &&& h.slice_len == self.data.len()
        &&& h.frag_payload_size == self.size
    }

    /// A packet that the sender may send for this slice.
    pub open spec fn sends(self, h: VideoPacketHeader, payload: Seq<u8>) -> bool {
        &&& self.described_by(h)
        &&& if h.flags.has(VideoFlags::FEC_PARITY) {
            h.frag_idx < self.groups() && payload == self.parity(h.frag_idx as int)
        } else {
            h.frag_idx < self.count() && payload == self.frag(h.frag_idx as int)
        }
    }

    /// What the receiver holds of the slice is true, and nothing that parity
    /// can repair is missing.
    pub open spec fn held_in(self, s: SliceView) -> bool {
        &&& s.frag_total == self.count()
        &&& s.slice_len == self.data.len()
        &&& s.frag_payload_size == self.size
        &&& s.data.len() == self.count()
        &&& s.parity.len() == self.groups()
        &&& forall|i: int|
            0 <= i < s.data.len() ==> (#[trigger] s.data[i] is None || s.data[i] == Some(
                self.frag(i),
            ))
        &&& forall|g: int|
            0 <= g < s.parity.len() ==> (#[trigger] s.parity[g] is None || s.parity[g] == Some(
                self.parity(g),
            ))
        &&& forall|g: int|
            0 <= g < s.parity.len() && (#[trigger] s.parity[g]) is Some ==> s.sole_gap(
                SliceView::group_start(g),
                s.group_end(g),
            ) is None
    }
}

/// The receiver expects each fragment at the length at which it is sent.
proof fn lemma_expected_len(src: SourceSlice, s: SliceView, i: int)
    requires
        src.valid(),
        s.data.len() == src.count(),
        s.slice_len == src.data.len(),
        s.frag_payload_size == src.size,
        0 <= i < src.count(),
    ensures
        s.payload_len(i) == Some(src.frag(i).len()),
{
    lemma_frag_bounds(src.data.len(), src.size, i);
    let z = src.size as int;
    assert((i + 1) * z == i * z + z) by (nonlinear_arith);
    assert(z * (src.count() - 1) == (src.count() - 1) * z) by (nonlinear_arith);
}

/// Every fragment of a group has a length, so the group has one.
proof fn lemma_longest_exists(src: SourceSlice, s: SliceView, lo: int, hi: int)
    requires
        src.valid(),
        s.data.len() == src.count(),
        s.slice_len == src.data.len(),
        s.frag_payload_size == src.size,
        0 <= lo < hi <= src.count(),
    ensures
        s.longest(lo, hi) is Some,
        s.longest(lo, hi) == src.unseen().longest(lo, hi),
    decreases hi - lo,
{
    lemma_expected_len(src, s, lo);
    lemma_expected_len(src, src.unseen(), lo);
    if lo + 1 < hi {
        lemma_longest_exists(src, s, lo + 1, hi);
    }
}

proof fn lemma_group_bounds(src: SourceSlice, g: int)
    requires
        src.valid(),
        0 <= g < src.groups(),
    ensures
        0 <= SliceView::group_start(g) < src.unseen().group_end(g) <= src.count(),
{
}

/// XOR over the fragments held is XOR over the true fragments, where all but
/// the one left out are held.
proof fn lemma_xor_same(
    a: Seq<Option<Seq<u8>>>,
    b: Seq<Option<Seq<u8>>>,
    lo: int,
    hi: int,
    skip: int,
    k: int,
)
    requires
        forall|i: int| lo <= i < hi && i != skip ==> a[i] == b[i],
    ensures
        xor_except(a, lo, hi, skip, k) == xor_except(b, lo, hi, skip, k),
    decreases hi - lo,
{
    if lo < hi {
        lemma_xor_same(a, b, lo, hi - 1, skip, k);
    }
}

/// The XOR of a group is any one of its bytes XORed with the rest.
proof fn lemma_xor_split(a: Seq<Option<Seq<u8>>>, lo: int, hi: int, m: int, k: int)
    requires
        lo <= m < hi,
        0 <= lo,
    ensures
        xor_except(a, lo, hi, -1, k) == padded_byte(a[m], k) ^ xor_except(a, lo, hi, m, k),
    decreases hi - lo,
{
    let b = padded_byte(a[hi - 1], k);
    if m == hi - 1 {
        lemma_xor_skip_outside(a, lo, hi - 1, m, k);
        let x = xor_except(a, lo, hi - 1, -1, k);
        assert(x ^ b == b ^ (x ^ 0)) by (bit_vector);
    } else {
        lemma_xor_split(a, lo, hi - 1, m, k);
        let p = padded_byte(a[m], k);
        let x = xor_except(a, lo, hi - 1, m, k);
        assert((p ^ x) ^ b == p ^ (x ^ b)) by (bit_vector);
    }
}

/// Leaving out a fragment outside the range leaves nothing out.
proof fn lemma_xor_skip_outside(a: Seq<Option<Seq<u8>>>, lo: int, hi: int, m: int, k: int)
    requires
        m >= hi,
        0 <= lo,
    ensures
        xor_except(a, lo, hi, m, k) == xor_except(a, lo, hi, -1, k),
    decreases hi - lo,
{
    if lo < hi {
        lemma_xor_skip_outside(a, lo, hi - 1, m, k);
    }
}

/// Parity repairs any single lost fragment of a group: from the parity fragment
/// and the other fragments of the group, the receiver rebuilds exactly the
/// fragment that was sent.
pub proof fn parity_rebuilds_a_lost_fragment(src: SourceSlice, s: SliceView, g: int, m: int)
    requires
        src.valid(),
        0 <= g < src.groups(),
        s.data.len() == src.count(),
        s.slice_len == src.data.len(),
        s.frag_payload_size == src.size,
        s.parity.len() == src.groups(),
        s.parity[g] == Some(src.parity(g)),
        SliceView::group_start(g) <= m < s.group_end(g),
        forall|i: int|
            SliceView::group_start(g) <= i < s.group_end(g) && i != m ==> #[trigger] s.data[i]
                == Some(src.frag(i)),
    ensures
        s.rebuilt(g, m, src.frag(m).len()) == src.frag(m),
{
    let lo = SliceView::group_start(g);
    let hi = s.group_end(g);
    lemma_group_bounds(src, g);
    lemma_longest_exists(src, src.unseen(), lo, hi);
    lemma_longest_bounds(src.unseen(), lo, hi, m);
    lemma_expected_len(src, src.unseen(), m);
    let rebuilt = s.rebuilt(g, m, src.frag(m).len());
    assert forall|k: int| 0 <= k < src.frag(m).len() implies #[trigger] rebuilt[k] == src.frag(
        m,
    )[k] by {
        lemma_xor_same(s.data, src.frags(), lo, hi, m, k);
        lemma_xor_split(src.frags(), lo, hi, m, k);
        let p = padded_byte(src.frags()[m], k);
        let x = xor_except(src.frags(), lo, hi, m, k);
        assert((p ^ x) ^ x == p) by (bit_vector);
    }
    assert(rebuilt =~= src.frag(m));
}

/// One repair step: recovery of a group keeps what is held true, and leaves
/// nothing in the group that parity could still repair.
proof fn lemma_recovery(src: SourceSlice, s: SliceView, g: int)
    requires
        src.valid(),
        0 <= g < src.groups(),
        s.frag_total == src.count(),
        s.slice_len == src.data.len(),
        s.frag_payload_size == src.size,
        s.data.len() == src.count(),
        s.parity.len() == src.groups(),
        forall|i: int|
            0 <= i < s.data.len() ==> (#[trigger] s.data[i] is None || s.data[i] == Some(
                src.frag(i),
            )),
        forall|j: int|
            0 <= j < s.parity.len() ==> (#[trigger] s.parity[j] is None || s.parity[j] == Some(
                src.parity(j),
            )),
        forall|j: int|
            0 <= j < s.parity.len() && j != g && (#[trigger] s.parity[j]) is Some ==> s.sole_gap(
                SliceView::group_start(j),
                s.group_end(j),
            ) is None,
    ensures
        src.held_in(s.after_recovery(g)),
{
    let lo = SliceView::group_start(g);
    let hi = s.group_end(g);
    lemma_group_bounds(src, g);
    lemma_longest_exists(src, s, lo, hi);
    let after = s.after_recovery(g);
    if s.parity[g] is Some {
        assert(s.group_payload_len(g) == Some(s.parity[g]->0.len()));
        lemma_first_gap(s, lo, hi);
        if let Some(m) = s.sole_gap(lo, hi) {
            lemma_first_gap(s, m + 1, hi);
            lemma_expected_len(src, s, m);
            parity_rebuilds_a_lost_fragment(src, s, g, m);
            assert(after.data == s.data.update(m, Some(src.frag(m))));
            lemma_first_gap(after, lo, hi);
            assert(after.first_gap(lo, hi) is None) by {
                if let Some(x) = after.first_gap(lo, hi) {
                    assert(after.data[x] is None);
                    assert(x != m);
                    assert(s.data[x] is None);
                }
            }
            assert forall|j: int|
                0 <= j < after.parity.len() && (#[trigger] after.parity[j])
                    is Some implies after.sole_gap(
                SliceView::group_start(j),
                after.group_end(j),
            ) is None by {
                if j != g {
                    lemma_gap_elsewhere(s, after, SliceView::group_start(j), s.group_end(j), m);
                    lemma_first_gap(s, SliceView::group_start(j), s.group_end(j));
                    if let Some(f) = s.first_gap(SliceView::group_start(j), s.group_end(j)) {
                        lemma_gap_elsewhere(s, after, f + 1, s.group_end(j), m);
                    }
                }
            }
        }
    }
}

/// A gap search over a range does not see a change outside it.
proof fn lemma_gap_elsewhere(s: SliceView, t: SliceView, lo: int, hi: int, m: int)
    requires
        t.data.len() == s.data.len(),
        forall|i: int| 0 <= i < s.data.len() && i != m ==> t.data[i] == s.data[i],
        0 <= lo,
        hi <= s.data.len(),
        m < lo || m >= hi,
    ensures
        t.first_gap(lo, hi) == s.first_gap(lo, hi),
    decreases hi - lo,
{
    if lo < hi && s.data[lo] is Some {
        lemma_gap_elsewhere(s, t, lo + 1, hi, m);
    }
}

/// Nothing is held of an unseen slice.
proof fn lemma_unseen(src: SourceSlice)
    requires
        src.valid(),
    ensures
        src.held_in(src.unseen()),
{
}

/// A packet of the slice is taken in, and what is held stays true.
pub proof fn slice_packet_is_taken_in(
    src: SourceSlice,
    s: SliceView,
    h: VideoPacketHeader,
    payload: Seq<u8>,
)
    requires
        src.valid(),
        src.held_in(s),
        src.sends(h, payload),
    ensures
        FrameView::slice_with(s, h, payload) matches Some((after, repaired)) && src.held_in(after),
{
    let i = h.frag_idx as int;
    if h.flags.has(VideoFlags::FEC_PARITY) {
        lemma_group_bounds(src, i);
        lemma_longest_exists(src, s, SliceView::group_start(i), s.group_end(i));
        lemma_longest_exists(src, src.unseen(), SliceView::group_start(i), s.group_end(i));
        let t = s.with_parity(i, payload);
        assert forall|j: int|
            0 <= j < t.parity.len() && j != i && (#[trigger] t.parity[j]) is Some implies t.sole_gap(
            SliceView::group_start(j),
            t.group_end(j),
        ) is None by {
            assert(s.parity[j] is Some);
            lemma_gap_same_data(s, t, SliceView::group_start(j), t.group_end(j));
            lemma_first_gap(s, SliceView::group_start(j), s.group_end(j));
            if let Some(f) = s.first_gap(SliceView::group_start(j), s.group_end(j)) {
                lemma_gap_same_data(s, t, f + 1, t.group_end(j));
            }
        }
        lemma_recovery(src, t, i);
    } else {
        lemma_expected_len(src, s, i);
        if s.data[i] is None {
            let t = s.with_data(i, payload);
            let g = i / 4;
            assert forall|j: int|
                0 <= j < t.parity.len() && j != g && (#[trigger] t.parity[j])
                    is Some implies t.sole_gap(SliceView::group_start(j), t.group_end(j)) is None by {
                assert(s.parity[j] is Some);
                lemma_gap_elsewhere(s, t, SliceView::group_start(j), s.group_end(j), i);
                lemma_first_gap(s, SliceView::group_start(j), s.group_end(j));
                if let Some(f) = s.first_gap(SliceView::group_start(j), s.group_end(j)) {
                    lemma_gap_elsewhere(s, t, f + 1, s.group_end(j), i);
                }
            }
            lemma_recovery(src, t, g);
        }
    }
}

proof fn lemma_gap_same_data(s: SliceView, t: SliceView, lo: int, hi: int)
    requires
        t.data == s.data,
    ensures
        t.first_gap(lo, hi) == s.first_gap(lo, hi),
    decreases hi - lo,
{
    if lo < hi {
        lemma_gap_same_data(s, t, lo + 1, hi);
    }
}

/// A slice that is complete is the slice that was sent.
pub proof fn complete_slice_is_the_source(src: SourceSlice, s: SliceView)
    requires
        src.valid(),
        src.held_in(s),
        s.complete(),
    ensures
        s.assembled() == src.data,
{
    lemma_joined(src, s, src.count());
    fragments_make_up_the_whole(src.data, src.size);
}

proof fn lemma_joined(src: SourceSlice, s: SliceView, n: nat)
    requires
        src.valid(),
        src.held_in(s),
        s.complete(),
        n <= src.count(),
    ensures
        joined(s.data, n) == frags_joined(src.data, src.size, n),
    decreases n,
{
    if n > 0 {
        lemma_joined(src, s, (n - 1) as nat);
        assert(s.data[n - 1] is Some);
    }
}

// ---------------------------------------------------------------------------
// Frames
// ---------------------------------------------------------------------------

/// A frame as the sender has it: its slices in order.
pub struct SourceFrame {
    pub slices: Seq<SourceSlice>,
}

/// The slices below `n`, one behind the other.
pub open spec fn source_bytes(slices: Seq<SourceSlice>, n: nat) -> Seq<u8>
    decreases n,
{
    if n == 0 {
        Seq::empty()
    } else {
        source_bytes(slices, (n - 1) as nat) + slices[n - 1].data
    }
}

impl SourceFrame {
    pub open spec fn valid(self) -> bool {
        &&& 0 < self.slices.len() <= 255
        &&& forall|i: int| 0 <= i < self.slices.len() ==> (#[trigger] self.slices[i]).valid()
    }

    /// The encoded frame.
    pub open spec fn bytes(self) -> Seq<u8> {
        source_bytes(self.slices, self.slices.len())
    }

    /// A packet that the sender may send for this frame. Only packets of the
    /// last slice say that it is the last.
    pub open spec fn sends(self, h: VideoPacketHeader, payload: Seq<u8>) -> bool {
        &&& h.slice_idx < self.slices.len()
        &&& h.flags.has(VideoFlags::LAST_SLICE) ==> h.slice_idx + 1 == self.slices.len()
        &&& self.slices[h.slice_idx as int].sends(h, payload)
    }

    /// What the receiver holds of the frame is true.
    pub open spec fn held_in(self, f: FrameView) -> bool {
        &&& f.num_slices_expected is None || f.num_slices_expected == Some(
            self.slices.len() as u8,
        )
        &&& forall|i: u8| #[trigger]
            f.slices.contains_key(i) ==> i < self.slices.len()
                && self.slices[i as int].held_in(f.slices[i])
    }
}

/// A packet of the frame never makes the receiver drop the frame, and what is
/// held of the frame stays true.
pub proof fn frame_packet_is_taken_in(
    src: SourceFrame,
    f: FrameView,
    h: VideoPacketHeader,
    payload: Seq<u8>,
)
    requires
        src.valid(),
        src.held_in(f),
        src.sends(h, payload),
    ensures
        f.with_packet(h, payload) matches Some((after, repaired)) && src.held_in(after),
{
    let slice = src.slices[h.slice_idx as int];
    assert(slice.valid());
    if !f.slices.contains_key(h.slice_idx) {
        lemma_unseen(slice);
        lemma_frag_count(slice.data.len(), slice.size);
    }
    slice_packet_is_taken_in(slice, f.slice_for(h)->0, h, payload);
}

/// A frame that is complete is the frame that was sent.
pub proof fn complete_frame_is_the_source(src: SourceFrame, f: FrameView)
    requires
        src.valid(),
        src.held_in(f),
        f.complete(),
    ensures
        f.assembled() == src.bytes(),
{
    lemma_joined_slices(src, f, 256);
}

proof fn lemma_joined_slices(src: SourceFrame, f: FrameView, n: nat)
    requires
        src.valid(),
        src.held_in(f),
        f.complete(),
        n <= 256,
    ensures
        n <= src.slices.len() ==> joined_slices(f.slices, n) == source_bytes(src.slices, n),
        n > src.slices.len() ==> joined_slices(f.slices, n) == src.bytes(),
    decreases n,
{
    if n > 0 {
        lemma_joined_slices(src, f, (n - 1) as nat);
        let id = (n - 1) as u8;
        if n <= src.slices.len() {
            assert(f.slices.contains_key(id));
            assert(src.slices[id as int].valid());
            complete_slice_is_the_source(src.slices[id as int], f.slices[id]);
        } else {
            assert(!f.slices.contains_key(id));
        }
        assert(joined_slices(f.slices, n) =~= if n <= src.slices.len() {
            source_bytes(src.slices, n)
        } else {
            src.bytes()
        });
    }
}

/// The frame with a packet taken in; a packet that has no place in it leaves it as
/// it is.
pub open spec fn taken(f: FrameView, h: VideoPacketHeader, payload: Seq<u8>) -> FrameView {
    match f.with_packet(h, payload) {
        Some((after, _)) => after,
        None => f,
    }
}

/// The frame as the receiver holds it after the first `n` packets of `arrivals`.
pub open spec fn after_arrivals(
    f: FrameView,
    arrivals: Seq<(VideoPacketHeader, Seq<u8>)>,
    n: nat,
) -> FrameView
    decreases n,
{
    if n == 0 {
        f
    } else {
        let (h, payload) = arrivals[n - 1];
        taken(after_arrivals(f, arrivals, (n - 1) as nat), h, payload)
    }
}

/// Data fragment `i` of slice `k` is among the arrivals.
pub open spec fn data_arrived(
    arrivals: Seq<(VideoPacketHeader, Seq<u8>)>,
    k: int,
    i: int,
) -> bool {
    exists|a: int|
        0 <= a < arrivals.len() && (#[trigger] arrivals[a]).0.slice_idx == k
            && arrivals[a].0.frag_idx == i && !arrivals[a].0.flags.has(VideoFlags::FEC_PARITY)
}

/// The parity fragment of group `g` of slice `k` is among the arrivals.
pub open spec fn parity_arrived(
    arrivals: Seq<(VideoPacketHeader, Seq<u8>)>,
    k: int,
    g: int,
) -> bool {
    exists|a: int|
        0 <= a < arrivals.len() && (#[trigger] arrivals[a]).0.slice_idx == k
            && arrivals[a].0.frag_idx == g && arrivals[a].0.flags.has(VideoFlags::FEC_PARITY)
}

/// Of group `g` of slice `k`, every data fragment but `m` has arrived, and fragment
/// `m` itself or the parity fragment of the group.
pub open spec fn arrived_but_for(
    src: SourceFrame,
    arrivals: Seq<(VideoPacketHeader, Seq<u8>)>,
    k: int,
    g: int,
    m: int,
) -> bool {
    &&& SliceView::group_start(g) <= m < src.slices[k].unseen().group_end(g)
    &&& forall|i: int|
        SliceView::group_start(g) <= i < src.slices[k].unseen().group_end(g) && i != m
            ==> #[trigger] data_arrived(arrivals, k, i)
    &&& data_arrived(arrivals, k, m) || parity_arrived(arrivals, k, g)
}

/// At most one data fragment of group `g` of slice `k` was lost, and then its parity
/// fragment was not.
pub open spec fn at_most_one_lost(
    src: SourceFrame,
    arrivals: Seq<(VideoPacketHeader, Seq<u8>)>,
    k: int,
    g: int,
) -> bool {
    exists|m: int| #[trigger] arrived_but_for(src, arrivals, k, g, m)
}

/// What a packet brought is held.
spec fn holds(f: FrameView, h: VideoPacketHeader) -> bool {
    &&& f.slices.contains_key(h.slice_idx)
    &&& if h.flags.has(VideoFlags::FEC_PARITY) {
        h.frag_idx < f.slices[h.slice_idx].parity.len()
            && f.slices[h.slice_idx].parity[h.frag_idx as int] is Some
    } else {
        h.frag_idx < f.slices[h.slice_idx].data.len()
            && f.slices[h.slice_idx].data[h.frag_idx as int] is Some
    }
    &&& h.flags.has(VideoFlags::LAST_SLICE) ==> f.num_slices_expected is Some
}

/// A packet taken into a slice is held there, and so is what was held before.
proof fn lemma_slice_step(
    src: SourceSlice,
    s: SliceView,
    h: VideoPacketHeader,
    payload: Seq<u8>,
)
    requires
        src.valid(),
        src.held_in(s),
        src.sends(h, payload),
    ensures
        FrameView::slice_with(s, h, payload) matches Some((after, _)) && ({
            &&& after.data.len() == s.data.len()
            &&& after.parity.len() == s.parity.len()
            &&& forall|i: int|
                0 <= i < s.data.len() && (#[trigger] s.data[i]) is Some ==> after.data[i] is Some
            &&& forall|g: int|
                0 <= g < s.parity.len() && (#[trigger] s.parity[g]) is Some ==> after.parity[g]
                    is Some
            &&& if h.flags.has(VideoFlags::FEC_PARITY) {
                after.parity[h.frag_idx as int] is Some
            } else {
                after.data[h.frag_idx as int] is Some
            }
        }),
{
    slice_packet_is_taken_in(src, s, h, payload);
}

/// A packet taken into a frame is held there, and so is what was held before.
proof fn lemma_frame_step(
    src: SourceFrame,
    f: FrameView,
    h: VideoPacketHeader,
    payload: Seq<u8>,
    earlier: VideoPacketHeader,
)
    requires
        src.valid(),
        src.held_in(f),
        src.sends(h, payload),
    ensures
        src.held_in(taken(f, h, payload)),
        holds(taken(f, h, payload), h),
        holds(f, earlier) ==> holds(taken(f, h, payload), earlier),
{
    frame_packet_is_taken_in(src, f, h, payload);
    let slice = src.slices[h.slice_idx as int];
    assert(slice.valid());
    if !f.slices.contains_key(h.slice_idx) {
        lemma_unseen(slice);
        lemma_frag_count(slice.data.len(), slice.size);
    }
    lemma_slice_step(slice, f.slice_for(h)->0, h, payload);
}

/// Everything that arrived is held.
proof fn lemma_arrivals(
    src: SourceFrame,
    f: FrameView,
    arrivals: Seq<(VideoPacketHeader, Seq<u8>)>,
    n: nat,
)
    requires
        src.valid(),
        src.held_in(f),
        n <= arrivals.len(),
        forall|a: int|
            0 <= a < arrivals.len() ==> src.sends((#[trigger] arrivals[a]).0, arrivals[a].1),
    ensures
        src.held_in(after_arrivals(f, arrivals, n)),
        forall|a: int|
            0 <= a < n ==> holds(after_arrivals(f, arrivals, n), (#[trigger] arrivals[a]).0),
    decreases n,
{
    if n > 0 {
        lemma_arrivals(src, f, arrivals, (n - 1) as nat);
        let before = after_arrivals(f, arrivals, (n - 1) as nat);
        let (h, payload) = arrivals[n - 1];
        lemma_frame_step(src, before, h, payload, h);
        assert forall|a: int| 0 <= a < n implies holds(
            after_arrivals(f, arrivals, n),
            (#[trigger] arrivals[a]).0,
        ) by {
            lemma_frame_step(src, before, h, payload, arrivals[a].0);
        }
    }
}

/// A slice of which at most one fragment per group was lost is complete.
proof fn lemma_slice_complete(
    src: SourceFrame,
    end: FrameView,
    arrivals: Seq<(VideoPacketHeader, Seq<u8>)>,
    k: u8,
)
    requires
        src.valid(),
        src.held_in(end),
        k < src.slices.len(),
        forall|a: int| 0 <= a < arrivals.len() ==> holds(end, (#[trigger] arrivals[a]).0),
        forall|g: int|
            0 <= g < src.slices[k as int].groups() ==> #[trigger] at_most_one_lost(
                src,
                arrivals,
                k as int,
                g,
            ),
    ensures
        end.slices.contains_key(k),
        end.slices[k].complete(),
{
    let slice = src.slices[k as int];
    assert(slice.valid());
    lemma_frag_count(slice.data.len(), slice.size);
    assert(end.slices.contains_key(k)) by {
        assert(at_most_one_lost(src, arrivals, k as int, 0));
        let m = choose|m: int| #[trigger] arrived_but_for(src, arrivals, k as int, 0, m);
        assert(arrived_but_for(src, arrivals, k as int, 0, m));
    }
    let s = end.slices[k];
    assert forall|i: int| 0 <= i < s.data.len() implies (#[trigger] s.data[i]) is Some by {
        let g = i / 4;
        lemma_group_bounds(slice, g);
        let lo = SliceView::group_start(g);
        let hi = s.group_end(g);
        assert(at_most_one_lost(src, arrivals, k as int, g));
        let m = choose|m: int| #[trigger] arrived_but_for(src, arrivals, k as int, g, m);
        assert(arrived_but_for(src, arrivals, k as int, g, m));
        assert forall|j: int| lo <= j < hi && j != m implies (#[trigger] s.data[j]) is Some by {
            assert(data_arrived(arrivals, k as int, j));
        }
        if s.data[m] is None {
            assert(parity_arrived(arrivals, k as int, g));
            assert(s.parity[g] is Some);
            lemma_first_gap(s, lo, hi);
            lemma_first_gap(s, m + 1, hi);
            assert(s.sole_gap(lo, hi) is Some);
        }
    }
}

/// One lost fragment per group costs nothing. Whatever the order in which the packets
/// of a frame arrive, and whichever arrive twice: if of each group at most one data
/// fragment was lost, and then not its parity fragment, and a packet told which slice
/// is the last, the frame is complete and is the frame that was sent.
pub proof fn one_loss_per_group_costs_nothing(
    src: SourceFrame,
    f: FrameView,
    arrivals: Seq<(VideoPacketHeader, Seq<u8>)>,
)
    requires
        src.valid(),
        src.held_in(f),
        forall|a: int|
            0 <= a < arrivals.len() ==> src.sends((#[trigger] arrivals[a]).0, arrivals[a].1),
        exists|a: int|
            0 <= a < arrivals.len() && (#[trigger] arrivals[a]).0.flags.has(VideoFlags::LAST_SLICE),
        forall|k: int, g: int|
            0 <= k < src.slices.len() && 0 <= g < src.slices[k].groups()
                ==> #[trigger] at_most_one_lost(src, arrivals, k, g),
    ensures
        after_arrivals(f, arrivals, arrivals.len()).complete(),
        after_arrivals(f, arrivals, arrivals.len()).assembled() == src.bytes(),
{
    lemma_arrivals(src, f, arrivals, arrivals.len());
    let end = after_arrivals(f, arrivals, arrivals.len());
    let a = choose|a: int|
        0 <= a < arrivals.len() && (#[trigger] arrivals[a]).0.flags.has(VideoFlags::LAST_SLICE);
    assert(holds(end, arrivals[a].0));
    assert forall|k: u8| k < src.slices.len() implies #[trigger] end.slices.contains_key(k)
        && end.slices[k].complete() by {
        lemma_slice_complete(src, end, arrivals, k);
    }
    complete_frame_is_the_source(src, end);
}

/// The reassembler delivers what was sent. Take any packet of a frame, with
/// whatever other frames are pending: if what the reassembler holds of the
/// frame is true, it still is afterwards, the frame is not reported as
/// malformed, and a frame that comes out is the frame that was sent.
pub proof fn reassembler_delivers_what_was_sent(
    src: SourceFrame,
    before: ReassemblerView,
    data: Seq<u8>,
    received_at_us: u64,
    after: ReassemblerView,
    outcome: PushOutcome,
)
    requires
        src.valid(),
        data.len() >= VideoPacketHeader::SIZE,
        src.sends(VideoPacketHeader::of_bytes(data), data.skip(24)),
        before.frames.contains_key(VideoPacketHeader::of_bytes(data).frame_seq) ==> src.held_in(
            before.frames[VideoPacketHeader::of_bytes(data).frame_seq],
        ),
        push_result(before, data, received_at_us, after, outcome),
    ensures
        outcome.frame matches Some(frame) ==> frame.data@ == src.bytes(),
        after.frames.contains_key(VideoPacketHeader::of_bytes(data).frame_seq) ==> src.held_in(
            after.frames[VideoPacketHeader::of_bytes(data).frame_seq],
        ),
        before.frame_for(VideoPacketHeader::of_bytes(data)).with_packet(
            VideoPacketHeader::of_bytes(data),
            data.skip(24),
        ) is Some,
{
    let h = VideoPacketHeader::of_bytes(data);
    let f = before.frame_for(h);
    frame_packet_is_taken_in(src, f, h, data.skip(24));
    if let Some((g, repaired)) = f.with_packet(h, data.skip(24)) {
        if g.complete() {
            complete_frame_is_the_source(src, g);
        }
    }
}

/// Packets of one frame do not touch another: every other pending frame is
/// kept as it was, or given up because it is too far behind the newest one.
pub proof fn other_frames_are_left_alone(
    before: ReassemblerView,
    data: Seq<u8>,
    received_at_us: u64,
    after: ReassemblerView,
    outcome: PushOutcome,
    seq: u32,
)
    requires
        data.len() >= VideoPacketHeader::SIZE,
        push_result(before, data, received_at_us, after, outcome),
        seq != VideoPacketHeader::of_bytes(data).frame_seq,
        before.frames.contains_key(seq),
    ensures
        after.frames.contains_key(seq) ==> after.frames[seq] == before.frames[seq],
        !after.frames.contains_key(seq) ==> outcome.loss is Some
            && super::video_rx::significantly_older(
            before.max_after(VideoPacketHeader::of_bytes(data).frame_seq),
            seq,
        ),
{
    let h = VideoPacketHeader::of_bytes(data);
    let max_seen = before.max_after(h.frame_seq);
    if before.settled(h.frame_seq) {
        assert(after.frames.contains_key(seq));
    } else if let Some((f, repaired)) = before.frame_for(h).with_packet(h, data.skip(24)) {
        let frames = before.frames_with(h.frame_seq, f);
        assert(frames.contains_key(seq) && frames[seq] == before.frames[seq]);
        let stale = ReassemblerView::stale(frames, max_seen);
        if stale.contains(seq) {
            assert(stale.len() > 0) by {
                if stale.len() == 0 && stale.finite() {
                    assert(stale =~= Set::empty());
                }
            }
        }
    }
}

} // verus!
