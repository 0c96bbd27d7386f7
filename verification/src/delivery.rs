//! From the streamd server's packetiser to the streamd client's reassembler:
//! a frame that is cut into datagrams comes out byte for byte, in whatever
//! order its datagrams arrive, whichever arrive twice, and whatever other frames
//! are in flight.

use crate::fragments::{
    frag, frag_count, frags_joined, fragments_make_up_the_whole, lemma_frag_count,
};
use crate::streamd_client::video_laws::{
    last_piece_gives_the_frame, put_together, silent_on, whole_frame, SourceFrame, Stream,
};
use crate::streamd_client::video_rx::{
    acceptable, frame_for, joined_slices, push_result, DecodedFrame, FrameView, PendingFrames,
    SliceView,
};
use crate::streamd_proto::control::DATAGRAM_TAG_VIDEO;
use crate::streamd_proto::packets::{
    flags_tell, video_header_round_trip, VideoPacketHeader,
};
use crate::streamd_server::video_tx::{fragment_datagram, fragment_header, low16, FrameMeta};
use crate::yang::slice_state::joined;
use vstd::prelude::*;

verus! {

/// A frame that the headers can describe: between one and 255 slices, none of
/// them empty, none cut into more than 2^16 - 1 fragments.
pub open spec fn sendable(meta: FrameMeta, slices: Seq<Seq<u8>>) -> bool {
    &&& meta.fragment_payload > 0
    &&& 0 < slices.len() <= 255
    &&& forall|k: int|
        0 <= k < slices.len() ==> (#[trigger] slices[k]).len() > 0 && frag_count(
            slices[k].len(),
            meta.fragment_payload,
        ) <= u16::MAX
}

/// The number of fragments of slice `k`.
pub open spec fn count(meta: FrameMeta, slices: Seq<Seq<u8>>, k: int) -> nat {
    frag_count(slices[k].len(), meta.fragment_payload)
}

/// The header of fragment `i` of slice `k`.
pub open spec fn header(
    meta: FrameMeta,
    slices: Seq<Seq<u8>>,
    k: int,
    i: int,
) -> VideoPacketHeader {
    fragment_header(meta, k, k + 1 == slices.len(), count(meta, slices, k), i)
}

/// `(k, i)` names a fragment of the frame.
pub open spec fn names_fragment(
    meta: FrameMeta,
    slices: Seq<Seq<u8>>,
    k: int,
    i: int,
) -> bool {
    0 <= k < slices.len() && 0 <= i < count(meta, slices, k)
}

/// The receiver's reading of a datagram, its tag byte stripped, is what the
/// sender wrote: the header and the bytes of the fragment.
pub proof fn datagram_is_read_back(meta: FrameMeta, slices: Seq<Seq<u8>>, k: int, i: int)
    requires
        sendable(meta, slices),
        names_fragment(meta, slices, k, i),
    ensures
        ({
            let d = fragment_datagram(meta, k, k + 1 == slices.len(), slices[k], i);
            &&& d[0] == DATAGRAM_TAG_VIDEO
            &&& d.skip(1).len() >= VideoPacketHeader::SIZE
            &&& VideoPacketHeader::of_bytes(d.skip(1)) == header(meta, slices, k, i)
            &&& d.skip(1).skip(18) == frag(slices[k], meta.fragment_payload, i)
        }),
{
    let h = header(meta, slices, k, i);
    let payload = frag(slices[k], meta.fragment_payload, i);
    let d = fragment_datagram(meta, k, k + 1 == slices.len(), slices[k], i);
    assert(d.skip(1) =~= h.bytes() + payload);
    video_header_round_trip(h, payload);
}

/// What the receiver holds of the frame is true.
pub open spec fn held_in(meta: FrameMeta, slices: Seq<Seq<u8>>, f: FrameView) -> bool {
    &&& f.timestamp_us == meta.timestamp_us
    &&& f.num_slices_expected is None || f.num_slices_expected == Some(slices.len() as u8)
    &&& forall|k: u8| #[trigger]
        f.slices.contains_key(k) ==> k < slices.len() && f.slices[k].frags.len() == count(
            meta,
            slices,
            k as int,
        )
    &&& forall|k: u8, i: int|
        #![trigger f.slices[k].frags[i]]
        f.slices.contains_key(k) && 0 <= i < f.slices[k].frags.len() ==> f.slices[k].frags[i]
            is None || f.slices[k].frags[i] == Some(
            frag(slices[k as int], meta.fragment_payload, i),
        )
}

/// Fragment `i` of slice `k` is held.
pub open spec fn holds(f: FrameView, k: int, i: int) -> bool {
    f.slices.contains_key(k as u8) && 0 <= i < f.slices[k as u8].frags.len()
        && f.slices[k as u8].frags[i] is Some
}

/// A packet of the frame always has a place in it; taking it in keeps what is
/// held true and loses nothing, and the packet's fragment is then held.
pub proof fn packet_is_taken_in(
    meta: FrameMeta,
    slices: Seq<Seq<u8>>,
    f: FrameView,
    k: int,
    i: int,
)
    requires
        sendable(meta, slices),
        names_fragment(meta, slices, k, i),
        held_in(meta, slices, f),
    ensures
        f.has_place(header(meta, slices, k, i)),
        ({
            let after = f.with_packet(
                header(meta, slices, k, i),
                frag(slices[k], meta.fragment_payload, i),
            );
            &&& held_in(meta, slices, after)
            &&& holds(after, k, i)
            &&& forall|a: int, b: int|
                0 <= a < slices.len() && #[trigger] holds(f, a, b) ==> holds(after, a, b)
            &&& f.num_slices_expected is Some ==> after.num_slices_expected is Some
            &&& k + 1 == slices.len() && i + 1 == count(meta, slices, k)
                ==> after.num_slices_expected is Some
        }),
{
    let n = count(meta, slices, k);
    let h = header(meta, slices, k, i);
    assert(slices[k].len() > 0 && n <= u16::MAX);
    assert(low16(i) == i && low16(n as int) == n);
    flags_tell(
        meta.is_keyframe && k == 0 && low16(i) == 0,
        k + 1 == slices.len() && low16(i) + 1 == low16(n as int),
    );
    let payload = frag(slices[k], meta.fragment_payload, i);
    let after = f.with_packet(h, payload);
    let old_slice = f.slice_for(h);
    assert(old_slice.frags.len() == n);
    assert forall|a: u8, b: int|
        #![trigger after.slices[a].frags[b]]
        after.slices.contains_key(a) && 0 <= b
            < after.slices[a].frags.len() implies after.slices[a].frags[b] is None
        || after.slices[a].frags[b] == Some(
        frag(slices[a as int], meta.fragment_payload, b),
    ) by {
        if a == k {
            if f.slices.contains_key(a) {
                let _ = f.slices[a].frags[b];
            }
        } else {
            let _ = f.slices[a].frags[b];
        }
    }
}

/// A frame that is complete is the frame that was sent: its slices in order.
pub proof fn complete_frame_is_the_source(meta: FrameMeta, slices: Seq<Seq<u8>>, f: FrameView)
    requires
        sendable(meta, slices),
        held_in(meta, slices, f),
        f.complete(),
    ensures
        f.assembled() == slices.flatten(),
{
    lemma_joined_slices(meta, slices, f, 256);
    assert(slices.take(slices.len() as int) =~= slices);
}

proof fn lemma_joined_slices(meta: FrameMeta, slices: Seq<Seq<u8>>, f: FrameView, n: nat)
    requires
        sendable(meta, slices),
        held_in(meta, slices, f),
        f.complete(),
        n <= 256,
    ensures
        n <= slices.len() ==> joined_slices(f.slices, n) == slices.take(n as int).flatten(),
        n > slices.len() ==> joined_slices(f.slices, n) == slices.flatten(),
    decreases n,
{
    if n == 0 {
        assert(slices.take(0) =~= Seq::empty());
    } else {
        lemma_joined_slices(meta, slices, f, (n - 1) as nat);
        assert(slices.take(slices.len() as int) =~= slices);
        let id = (n - 1) as u8;
        if n <= slices.len() {
            assert(f.slices.contains_key(id));
            lemma_slice_is_the_source(meta, slices, f.slices[id], id as int);
            let before = slices.take(n - 1);
            assert(slices.take(n as int) =~= before.push(slices[n - 1]));
            before.lemma_flatten_push(slices[n - 1]);
            assert(joined_slices(f.slices, n) =~= slices.take(n as int).flatten());
        } else {
            assert(!f.slices.contains_key(id));
            assert(joined_slices(f.slices, n) =~= slices.flatten());
        }
    }
}

proof fn lemma_slice_is_the_source(
    meta: FrameMeta,
    slices: Seq<Seq<u8>>,
    s: SliceView,
    k: int,
)
    requires
        sendable(meta, slices),
        0 <= k < slices.len(),
        s.complete(),
        s.frags.len() == count(meta, slices, k),
        forall|i: int|
            0 <= i < s.frags.len() ==> (#[trigger] s.frags[i]) is None || s.frags[i] == Some(
                frag(slices[k], meta.fragment_payload, i),
            ),
    ensures
        s.assembled() == slices[k],
{
    assert(slices[k].len() > 0);
    lemma_joined(slices[k], meta.fragment_payload, s, s.frags.len());
    fragments_make_up_the_whole(slices[k], meta.fragment_payload);
}

proof fn lemma_joined(data: Seq<u8>, size: nat, s: SliceView, n: nat)
    requires
        n <= s.frags.len(),
        s.complete(),
        forall|i: int|
            0 <= i < s.frags.len() ==> (#[trigger] s.frags[i]) is None || s.frags[i] == Some(
                frag(data, size, i),
            ),
    ensures
        joined(s.frags, n) == frags_joined(data, size, n),
    decreases n,
{
    if n > 0 {
        lemma_joined(data, size, s, (n - 1) as nat);
        assert(s.frags[n - 1] is Some);
    }
}

/// The reassembler delivers what was sent. It accepts any datagram of a frame,
/// with whatever other frames are pending; if what it holds of the frame is
/// true, it still is afterwards; and a frame that comes out is the frame sent.
pub proof fn reassembler_delivers_what_was_sent(
    meta: FrameMeta,
    slices: Seq<Seq<u8>>,
    k: int,
    i: int,
    before: PendingFrames,
    received_at_us: u64,
    after: PendingFrames,
    r: Option<DecodedFrame>,
)
    requires
        sendable(meta, slices),
        names_fragment(meta, slices, k, i),
        before.contains_key(meta.frame_seq) ==> held_in(meta, slices, before[meta.frame_seq]),
        push_result(
            before,
            fragment_datagram(meta, k, k + 1 == slices.len(), slices[k], i).skip(1),
            received_at_us,
            after,
            r,
        ),
    ensures
        acceptable(
            before,
            fragment_datagram(meta, k, k + 1 == slices.len(), slices[k], i).skip(1),
        ),
        after.contains_key(meta.frame_seq) ==> held_in(meta, slices, after[meta.frame_seq]),
        r matches Some(frame) ==> frame.data@ == slices.flatten() && frame.frame_seq
            == meta.frame_seq && frame.timestamp_us == meta.timestamp_us,
{
    datagram_is_read_back(meta, slices, k, i);
    let h = header(meta, slices, k, i);
    let f = frame_for(before, h);
    assert(held_in(meta, slices, f));
    packet_is_taken_in(meta, slices, f, k, i);
    let g = f.with_packet(h, frag(slices[k], meta.fragment_payload, i));
    if g.complete() {
        complete_frame_is_the_source(meta, slices, g);
    }
}

/// The frame as the receiver holds it after the packets of the first `n`
/// fragments named in `arrivals`.
pub open spec fn after_arrivals(
    meta: FrameMeta,
    slices: Seq<Seq<u8>>,
    f: FrameView,
    arrivals: Seq<(int, int)>,
    n: nat,
) -> FrameView
    decreases n,
{
    if n == 0 {
        f
    } else {
        let (k, i) = arrivals[n - 1];
        after_arrivals(meta, slices, f, arrivals, (n - 1) as nat).with_packet(
            header(meta, slices, k, i),
            frag(slices[k], meta.fragment_payload, i),
        )
    }
}

/// Whatever the order, and whichever packets arrive twice: once every fragment
/// of a frame has arrived, the frame is complete and is the frame sent.
pub proof fn every_order_delivers_the_frame(
    meta: FrameMeta,
    slices: Seq<Seq<u8>>,
    f: FrameView,
    arrivals: Seq<(int, int)>,
)
    requires
        sendable(meta, slices),
        held_in(meta, slices, f),
        forall|a: int|
            0 <= a < arrivals.len() ==> names_fragment(
                meta,
                slices,
                (#[trigger] arrivals[a]).0,
                arrivals[a].1,
            ),
        forall|k: int, i: int| #[trigger]
            names_fragment(meta, slices, k, i) ==> arrivals.contains((k, i)),
    ensures
        after_arrivals(meta, slices, f, arrivals, arrivals.len()).complete(),
        after_arrivals(meta, slices, f, arrivals, arrivals.len()).assembled() == slices.flatten(),
{
    lemma_arrivals(meta, slices, f, arrivals, arrivals.len());
    let end = after_arrivals(meta, slices, f, arrivals, arrivals.len());
    let last = slices.len() - 1;
    assert(slices[last].len() > 0);
    lemma_frag_count(slices[last].len(), meta.fragment_payload);
    assert(names_fragment(meta, slices, last, count(meta, slices, last) - 1));
    assert(arrivals.contains((last, count(meta, slices, last) - 1)));
    let w = arrivals.index_of((last, count(meta, slices, last) - 1));
    assert(arrivals[w] == (last, count(meta, slices, last) - 1));
    assert forall|k: u8| k < slices.len() implies #[trigger] end.slices.contains_key(k)
        && end.slices[k].complete() by {
        assert(slices[k as int].len() > 0);
        lemma_frag_count(slices[k as int].len(), meta.fragment_payload);
        assert forall|i: int| 0 <= i < count(meta, slices, k as int) implies holds(
            end,
            k as int,
            i,
        ) by {
            assert(names_fragment(meta, slices, k as int, i));
            let a = arrivals.index_of((k as int, i));
            assert(arrivals[a] == (k as int, i));
        }
        assert(holds(end, k as int, 0));
        assert forall|i: int| 0 <= i < end.slices[k].frags.len() implies (
        #[trigger] end.slices[k].frags[i]) is Some by {
            assert(holds(end, k as int, i));
        }
    }
    complete_frame_is_the_source(meta, slices, end);
}

proof fn lemma_arrivals(
    meta: FrameMeta,
    slices: Seq<Seq<u8>>,
    f: FrameView,
    arrivals: Seq<(int, int)>,
    n: nat,
)
    requires
        sendable(meta, slices),
        held_in(meta, slices, f),
        n <= arrivals.len(),
        forall|a: int|
            0 <= a < arrivals.len() ==> names_fragment(
                meta,
                slices,
                (#[trigger] arrivals[a]).0,
                arrivals[a].1,
            ),
    ensures
        held_in(meta, slices, after_arrivals(meta, slices, f, arrivals, n)),
        forall|a: int|
            0 <= a < n ==> holds(
                after_arrivals(meta, slices, f, arrivals, n),
                (#[trigger] arrivals[a]).0,
                arrivals[a].1,
            ),
        forall|a: int|
            0 <= a < n && (#[trigger] arrivals[a]).0 + 1 == slices.len() && arrivals[a].1 + 1
                == count(meta, slices, arrivals[a].0) ==> after_arrivals(
                meta,
                slices,
                f,
                arrivals,
                n,
            ).num_slices_expected is Some,
    decreases n,
{
    if n > 0 {
        lemma_arrivals(meta, slices, f, arrivals, (n - 1) as nat);
        let before = after_arrivals(meta, slices, f, arrivals, (n - 1) as nat);
        let (k, i) = arrivals[n - 1];
        packet_is_taken_in(meta, slices, before, k, i);
    }
}

// ---------------------------------------------------------------------------
// Among other frames
// ---------------------------------------------------------------------------

/// The frame as it is sent: of each slice the fragments.
pub open spec fn source(meta: FrameMeta, slices: Seq<Seq<u8>>) -> SourceFrame {
    SourceFrame {
        frame_seq: meta.frame_seq,
        timestamp_us: meta.timestamp_us,
        pieces: Seq::new(
            slices.len(),
            |k: int|
                Seq::new(
                    count(meta, slices, k),
                    |i: int| frag(slices[k], meta.fragment_payload, i),
                ),
        ),
    }
}

/// The datagrams that are sent for a frame hold its pieces, and the pieces make up its
/// slices.
pub proof fn datagrams_hold_the_pieces(meta: FrameMeta, slices: Seq<Seq<u8>>)
    requires
        sendable(meta, slices),
    ensures
        source(meta, slices).valid(),
        source(meta, slices).bytes() == slices.flatten(),
        forall|k: int, i: int| #[trigger]
            names_fragment(meta, slices, k, i) ==> source(meta, slices).sends(
                fragment_datagram(meta, k, k + 1 == slices.len(), slices[k], i).skip(1),
            ),
{
    let src = source(meta, slices);
    assert forall|k: int| 0 <= k < src.pieces.len() implies 0 < (#[trigger] src.pieces[k]).len()
        <= u16::MAX by {
        assert(slices[k].len() > 0);
        lemma_frag_count(slices[k].len(), meta.fragment_payload);
    }
    assert forall|k: int, i: int| #[trigger] names_fragment(meta, slices, k, i) implies src.sends(
        fragment_datagram(meta, k, k + 1 == slices.len(), slices[k], i).skip(1),
    ) by {
        let n = count(meta, slices, k);
        datagram_is_read_back(meta, slices, k, i);
        assert(slices[k].len() > 0 && n <= u16::MAX);
        assert(low16(i) == i && low16(n as int) == n);
        flags_tell(
            meta.is_keyframe && k == 0 && low16(i) == 0,
            k + 1 == slices.len() && low16(i) + 1 == low16(n as int),
        );
    }
    lemma_source_bytes(meta, slices, slices.len());
    assert(slices.take(slices.len() as int) =~= slices);
}

proof fn lemma_source_slice(meta: FrameMeta, slices: Seq<Seq<u8>>, k: int, n: nat)
    requires
        0 <= k < slices.len(),
        n <= count(meta, slices, k),
    ensures
        put_together(source(meta, slices).pieces[k], n) == frags_joined(
            slices[k],
            meta.fragment_payload,
            n,
        ),
    decreases n,
{
    if n > 0 {
        lemma_source_slice(meta, slices, k, (n - 1) as nat);
    }
}

proof fn lemma_source_bytes(meta: FrameMeta, slices: Seq<Seq<u8>>, n: nat)
    requires
        sendable(meta, slices),
        n <= slices.len(),
    ensures
        put_together(
            Seq::new(slices.len(), |k: int| source(meta, slices).slice(k)),
            n,
        ) == slices.take(n as int).flatten(),
    decreases n,
{
    if n == 0 {
        assert(slices.take(0) =~= Seq::empty());
    } else {
        lemma_source_bytes(meta, slices, (n - 1) as nat);
        let k = n - 1;
        assert(slices[k].len() > 0);
        lemma_source_slice(meta, slices, k, count(meta, slices, k));
        fragments_make_up_the_whole(slices[k], meta.fragment_payload);
        let before = slices.take(k);
        assert(slices.take(n as int) =~= before.push(slices[k]));
        before.lemma_flatten_push(slices[k]);
    }
}

/// A frame that was sent comes out once. Take a reassembler in any state in which nothing
/// is held of the frame, and feed it the frame's datagrams in any order, with any others
/// between them: the datagram that brings the last missing fragment gives the slices that
/// were sent, one behind the other, and no other datagram gives the frame.
pub proof fn sent_frames_come_out_once(
    meta: FrameMeta,
    slices: Seq<Seq<u8>>,
    stream: Stream,
    d: int,
)
    requires
        sendable(meta, slices),
        whole_frame(source(meta, slices), stream, d),
    ensures
        stream.outcomes[d] matches Some(frame) && frame.data@ == slices.flatten()
            && frame.frame_seq == meta.frame_seq && frame.timestamp_us == meta.timestamp_us
            && frame.received_at_us == stream.times[d],
        forall|a: int|
            0 <= a < stream.datagrams.len() && a != d ==> silent_on(
                #[trigger] stream.outcomes[a],
                meta.frame_seq,
            ),
{
    datagrams_hold_the_pieces(meta, slices);
    last_piece_gives_the_frame(source(meta, slices), stream, d);
}

} // verus!
