//! QUIC datagram video sender.
//!
//! `QuicVideoSender` fragments encoded NAL slices into MTU-sized chunks, each
//! of which travels as a QUIC unreliable datagram on the existing control
//! connection. Because the client opened the QUIC connection outbound, both
//! LAN and WAN topologies work without any inbound port forwarding on the
//! client.
//!
//! Each datagram wire format:
//! ```text
//! [DATAGRAM_TAG_VIDEO (1 byte)]
//! [VideoPacketHeader  (18 bytes)]
//! [encoded video data (variable)]
//! ```
//!
//! Datagrams are unreliable and unordered, matching raw-UDP semantics. A lost
//! fragment causes the receiver to drop the incomplete frame and request an IDR.
//!
//! ## Fragment payload sizing
//!
//! The maximum video data bytes that fit in one datagram is derived from the
//! QUIC-negotiated path MTU:
//!
//! ```text
//! fragment_payload = max_datagram_size - 1 (type tag) - 18 (VideoPacketHeader)
//! ```
//!
//! QUIC performs PMTU probing asynchronously after the handshake completes, so
//! the size is asked for anew with every frame. All slices within a single
//! frame share the same `fragment_payload`: the `frag_total` field must match
//! across every fragment of a given slice.

use crate::fragments::{frag, frag_count, lemma_frag_bounds, lemma_frag_count};
use crate::framing::content;
use crate::streamd_proto::control::{encode_video_datagram, DATAGRAM_TAG_VIDEO};
use crate::streamd_proto::packets::{VideoFlags, VideoPacketHeader, MTU_WAN};
use bytes::Bytes;
use vstd::prelude::*;
use vstd::slice::slice_subrange;

verus! {

/// The video bytes per datagram for a given maximum datagram size.
pub open spec fn fragment_payload(max_datagram_size: Option<usize>) -> nat {
    let size = match max_datagram_size {
        Some(n) => if n >= MTU_WAN {
            n
        } else {
            MTU_WAN
        },
        None => MTU_WAN,
    };
    (size - 1 - VideoPacketHeader::SIZE) as nat
}

/// A frame to be sent: its number, time and kind, and how it is cut.
pub struct FrameMeta {
    pub frame_seq: u32,
    pub timestamp_us: u64,
    pub is_keyframe: bool,
    pub fragment_payload: nat,
}

/// The low 16 bits of a count.
pub open spec fn low16(n: int) -> u16 {
    (n % 0x1_0000) as u16
}

/// The header of fragment `i` of a slice of `count` fragments.
pub open spec fn fragment_header(
    meta: FrameMeta,
    slice_idx: int,
    is_last_slice: bool,
    count: nat,
    i: int,
) -> VideoPacketHeader {
    VideoPacketHeader {
        frame_seq: meta.frame_seq,
        timestamp_us: meta.timestamp_us,
        slice_idx: (slice_idx % 256) as u8,
        flags: VideoFlags::of(
            meta.is_keyframe && slice_idx == 0 && low16(i) == 0,
            is_last_slice && low16(i) + 1 == low16(count as int),
        ),
        frag_idx: low16(i),
        frag_total: low16(count as int),
    }
}

/// The datagram of fragment `i` of a slice.
pub open spec fn fragment_datagram(
    meta: FrameMeta,
    slice_idx: int,
    is_last_slice: bool,
    data: Seq<u8>,
    i: int,
) -> Seq<u8> {
    seq![DATAGRAM_TAG_VIDEO] + (fragment_header(
        meta,
        slice_idx,
        is_last_slice,
        frag_count(data.len(), meta.fragment_payload),
        i,
    ).bytes() + frag(data, meta.fragment_payload, i))
}

/// The datagrams of a slice, in order.
pub open spec fn slice_datagrams(
    meta: FrameMeta,
    slice_idx: int,
    is_last_slice: bool,
    data: Seq<u8>,
) -> Seq<Seq<u8>> {
    Seq::new(
        frag_count(data.len(), meta.fragment_payload),
        |i: int| fragment_datagram(meta, slice_idx, is_last_slice, data, i),
    )
}

/// The datagrams of the first `n` slices of a frame, in order.
pub open spec fn frame_datagrams(meta: FrameMeta, slices: Seq<Seq<u8>>, n: nat) -> Seq<Seq<u8>>
    decreases n,
{
    if n == 0 {
        Seq::empty()
    } else {
        frame_datagrams(meta, slices, (n - 1) as nat) + slice_datagrams(
            meta,
            n - 1,
            n == slices.len(),
            slices[n - 1],
        )
    }
}

/// The bytes of a list of slices.
pub open spec fn slice_views(slices: Seq<Vec<u8>>) -> Seq<Seq<u8>> {
    slices.map_values(|s: Vec<u8>| s@)
}

/// The bytes of a list of datagrams.
pub open spec fn datagram_views(datagrams: Seq<Bytes>) -> Seq<Seq<u8>> {
    datagrams.map_values(|b: Bytes| content(b))
}

/// The number of fragments of the last slice is not a multiple of 2^16, in
/// which case its packets could not say which of them is the last.
pub open spec fn last_slice_countable(slices: Seq<Seq<u8>>, payload: nat) -> bool {
    slices.len() > 0 && slices.last().len() > 0 ==> low16(
        frag_count(slices.last().len(), payload) as int,
    ) != 0
}

/// Cuts encoded video frames into datagrams.
#[derive(Debug)]
pub struct QuicVideoSender {
    /// Per-sender frame sequence counter.
    pub frame_seq: u32,
    /// Fragment payload size used in the previous frame; zero before the first.
    pub last_fragment_payload: usize,
}

impl QuicVideoSender {
    pub fn new() -> (r: QuicVideoSender)
        ensures
            r.frame_seq == 0,
            r.last_fragment_payload == 0,
    {
        QuicVideoSender { frame_seq: 0, last_fragment_payload: 0 }
    }

    /// The current maximum video data bytes per datagram fragment, for the
    /// maximum datagram size that the connection reports.
    ///
    /// While the path MTU is unknown, the internet-safe size `MTU_WAN` is
    /// used. A reported size below it is raised to it, so that a very small
    /// MTU cannot produce an empty fragment or a runaway fragment count.
    pub fn current_fragment_payload(&mut self, max_datagram_size: Option<usize>) -> (payload: usize)
        ensures
            payload == fragment_payload(max_datagram_size),
            final(self).last_fragment_payload == payload,
            final(self).frame_seq == old(self).frame_seq,
    {
        let max_dg: usize = match max_datagram_size {
            Some(n) => if n >= MTU_WAN {
                n
            } else {
                MTU_WAN
            },
            None => MTU_WAN,
        };
        let payload: usize = max_dg - 1 - VideoPacketHeader::SIZE;
        self.last_fragment_payload = payload;
        payload
    }

    /// Cuts one encoded frame consisting of one or more NAL slices into the
    /// datagrams to be sent, in order.
    ///
    /// Each slice is fragmented independently so the receiver can begin
    /// decoding slice 0 while slice 1 is still in flight.
    pub fn send_frame(
        &mut self,
        slices: &Vec<Vec<u8>>,
        is_keyframe: bool,
        timestamp_us: u64,
        max_datagram_size: Option<usize>,
    ) -> (datagrams: Vec<Bytes>)
        requires
            last_slice_countable(slice_views(slices@), fragment_payload(max_datagram_size)),
        ensures
            datagram_views(datagrams@) == frame_datagrams(
                FrameMeta {
                    frame_seq: old(self).frame_seq,
                    timestamp_us,
                    is_keyframe,
                    fragment_payload: fragment_payload(max_datagram_size),
                },
                slice_views(slices@),
                slices@.len(),
            ),
            final(self).frame_seq == if old(self).frame_seq == u32::MAX {
                0
            } else {
                (old(self).frame_seq + 1) as u32
            },
            final(self).last_fragment_payload == fragment_payload(max_datagram_size),
    {
        let frame_seq: u32 = self.frame_seq;
        self.frame_seq = self.frame_seq.wrapping_add(1);
        let payload: usize = self.current_fragment_payload(max_datagram_size);
        let ghost meta = FrameMeta {
            frame_seq,
            timestamp_us,
            is_keyframe,
            fragment_payload: payload as nat,
        };
        let ghost views = slice_views(slices@);
        let mut datagrams: Vec<Bytes> = Vec::new();
        assert(datagram_views(datagrams@) =~= Seq::empty());
        let mut k: usize = 0;
        while k < slices.len()
            invariant
                k <= slices@.len(),
                views == slice_views(slices@),
                payload > 0,
                meta == (FrameMeta {
                    frame_seq,
                    timestamp_us,
                    is_keyframe,
                    fragment_payload: payload as nat,
                }),
                last_slice_countable(views, payload as nat),
                datagram_views(datagrams@) == frame_datagrams(meta, views, k as nat),
            decreases slices@.len() - k,
        {
            let is_last_slice = k == slices.len() - 1;
            assert(views[k as int] == slices@[k as int]@);
            proof {
                if is_last_slice {
                    assert(views.last() == views[k as int]);
                }
            }
            send_slice(
                frame_seq,
                timestamp_us,
                k,
                is_last_slice,
                is_keyframe && k == 0,
                slices[k].as_slice(),
                payload,
                Ghost(meta),
                &mut datagrams,
            );
            k = k + 1;
        }
        datagrams
    }
}

/// Cuts a slice into datagrams and appends them.
fn send_slice(
    frame_seq: u32,
    timestamp_us: u64,
    slice_idx: usize,
    is_last_slice: bool,
    is_keyframe: bool,
    data: &[u8],
    payload: usize,
    Ghost(meta): Ghost<FrameMeta>,
    datagrams: &mut Vec<Bytes>,
)
    requires
        payload > 0,
        meta.frame_seq == frame_seq,
        meta.timestamp_us == timestamp_us,
        is_keyframe == (meta.is_keyframe && slice_idx == 0),
        meta.fragment_payload == payload,
        is_last_slice && data@.len() > 0 ==> low16(frag_count(data@.len(), payload as nat) as int)
            != 0,
    ensures
        datagram_views(final(datagrams)@) == datagram_views(old(datagrams)@) + slice_datagrams(
            meta,
            slice_idx as int,
            is_last_slice,
            data@,
        ),
{
    let len: usize = data.len();
    let ghost count = frag_count(len as nat, payload as nat);
    if len == 0 {
        proof {
            let z = payload as int;
            assert((z - 1) / z == 0) by (nonlinear_arith)
                requires
                    z > 0,
            ;
        }
        assert(datagram_views(datagrams@) =~= datagram_views(old(datagrams)@) + slice_datagrams(
            meta,
            slice_idx as int,
            is_last_slice,
            data@,
        ));
        return;
    }
    proof {
        lemma_frag_count(len as nat, payload as nat);
        lemma_ceil(len as nat, payload as nat);
    }
    let total: usize = (len - 1) / payload + 1;
    let total_frags: u16 = (total % 0x1_0000) as u16;
    let mut i: usize = 0;
    assert(datagram_views(datagrams@) =~= datagram_views(old(datagrams)@) + slice_datagrams(
        meta,
        slice_idx as int,
        is_last_slice,
        data@,
    ).take(0));
    while i < total
        invariant
            i <= total,
            total == count,
            count == frag_count(len as nat, payload as nat),
            len == data@.len(),
            len > 0,
            payload > 0,
            total_frags == low16(count as int),
            is_last_slice ==> total_frags != 0,
            meta.frame_seq == frame_seq,
            meta.timestamp_us == timestamp_us,
            is_keyframe == (meta.is_keyframe && slice_idx == 0),
            meta.fragment_payload == payload,
            datagram_views(datagrams@) == datagram_views(old(datagrams)@) + slice_datagrams(
                meta,
                slice_idx as int,
                is_last_slice,
                data@,
            ).take(i as int),
        decreases total - i,
    {
        proof {
            lemma_frag_bounds(len as nat, payload as nat, i as int);
            assert(i * payload == i as int * payload as int);
        }
        let start: usize = i * payload;
        let end: usize = if len - start > payload {
            start + payload
        } else {
            len
        };
        assert((i + 1) * payload == start + payload) by (nonlinear_arith)
            requires
                start == i * payload,
        ;
        let chunk = slice_subrange(data, start, end);
        assert(chunk@ =~= frag(data@, payload as nat, i as int));
        let frag_idx: u16 = (i % 0x1_0000) as u16;
        let header = VideoPacketHeader {
            frame_seq,
            timestamp_us,
            slice_idx: (slice_idx % 256) as u8,
            flags: VideoFlags::collect(
                is_keyframe && frag_idx == 0,
                is_last_slice && frag_idx == total_frags - 1,
            ),
            frag_idx,
            frag_total: total_frags,
        };
        let mut packet: Vec<u8> = Vec::new();
        header.put(&mut packet);
        packet.extend_from_slice(chunk);
        let datagram = encode_video_datagram(packet.as_slice());
        proof {
            let all = slice_datagrams(meta, slice_idx as int, is_last_slice, data@);
            assert(packet@ =~= header.bytes() + chunk@);
            assert(content(datagram) =~= all[i as int]);
            assert(all.take(i + 1) =~= all.take(i as int).push(all[i as int]));
            assert(datagram_views(datagrams@.push(datagram)) =~= datagram_views(datagrams@).push(
                content(datagram),
            ));
        }
        datagrams.push(datagram);
        i = i + 1;
        assert(datagram_views(datagrams@) =~= datagram_views(old(datagrams)@) + slice_datagrams(
            meta,
            slice_idx as int,
            is_last_slice,
            data@,
        ).take(i as int));
    }
    assert(slice_datagrams(meta, slice_idx as int, is_last_slice, data@).take(i as int)
        =~= slice_datagrams(meta, slice_idx as int, is_last_slice, data@));
}

/// Rounding up, written without overflow.
proof fn lemma_ceil(len: nat, size: nat)
    requires
        size > 0,
        len > 0,
    ensures
        frag_count(len, size) == (len - 1) / size as int + 1,
{
    let z = size as int;
    let l = len as int;
    assert((l + z - 1) / z == (l - 1) / z + 1) by (nonlinear_arith)
        requires
            z > 0,
            l > 0,
    ;
}

// ---------------------------------------------------------------------------
// Laws
// ---------------------------------------------------------------------------

/// A datagram is filled: tag, header and video bytes take the size that the connection
/// reports, but never less than 1200 bytes.
pub proof fn datagrams_are_filled(max_datagram_size: Option<usize>)
    ensures
        max_datagram_size matches Some(n) ==> (n >= 1200 ==> 1 + 18 + fragment_payload(
            max_datagram_size,
        ) == n),
        max_datagram_size matches Some(n) ==> (n < 1200 ==> 1 + 18 + fragment_payload(
            max_datagram_size,
        ) == 1200),
        max_datagram_size is None ==> 1 + 18 + fragment_payload(max_datagram_size) == 1200,
{
}

/// The header of a fragment tells the frame, its time, the slice, which fragment it is and
/// of how many. The first fragment of the first slice tells a keyframe, and the last
/// fragment of the last slice that it is the last, and no other does.
pub proof fn headers_tell_the_fragment(
    meta: FrameMeta,
    slice_idx: int,
    is_last_slice: bool,
    count: nat,
    i: int,
)
    requires
        0 <= slice_idx < 256,
        0 <= i < count <= u16::MAX,
    ensures
        ({
            let h = fragment_header(meta, slice_idx, is_last_slice, count, i);
            &&& h.frame_seq == meta.frame_seq
            &&& h.timestamp_us == meta.timestamp_us
            &&& h.slice_idx == slice_idx
            &&& h.frag_idx == i
            &&& h.frag_total == count
            &&& h.flags.has(1) <==> meta.is_keyframe && slice_idx == 0 && i == 0
            &&& h.flags.has(2) <==> is_last_slice && i + 1 == count
        }),
{
    crate::streamd_proto::packets::flags_tell(
        meta.is_keyframe && slice_idx == 0 && low16(i) == 0,
        is_last_slice && low16(i) + 1 == low16(count as int),
    );
}

/// How many datagrams the first `k` slices make.
pub open spec fn datagrams_before(meta: FrameMeta, slices: Seq<Seq<u8>>, k: nat) -> nat
    decreases k,
{
    if k == 0 {
        0
    } else {
        datagrams_before(meta, slices, (k - 1) as nat) + frag_count(
            slices[k - 1].len(),
            meta.fragment_payload,
        )
    }
}

proof fn lemma_frame_len(meta: FrameMeta, slices: Seq<Seq<u8>>, n: nat)
    ensures
        frame_datagrams(meta, slices, n).len() == datagrams_before(meta, slices, n),
    decreases n,
{
    if n > 0 {
        lemma_frame_len(meta, slices, (n - 1) as nat);
    }
}

/// A frame is sent slice by slice and fragment by fragment: one datagram for each fragment,
/// in order, that begins with the tag of video and the header and ends with the bytes of
/// the fragment.
pub proof fn frames_are_sent_in_order(
    meta: FrameMeta,
    slices: Seq<Seq<u8>>,
    n: nat,
    k: nat,
    i: nat,
)
    requires
        k < n <= slices.len(),
        i < frag_count(slices[k as int].len(), meta.fragment_payload),
    ensures
        ({
            let sent = frame_datagrams(meta, slices, n);
            let at = (datagrams_before(meta, slices, k) + i) as int;
            let data = slices[k as int];
            &&& sent.len() == datagrams_before(meta, slices, n)
            &&& 0 <= at < sent.len()
            &&& sent[at] == seq![0x02u8] + (fragment_header(
                meta,
                k as int,
                k + 1 == slices.len(),
                frag_count(data.len(), meta.fragment_payload),
                i as int,
            ).bytes() + frag(data, meta.fragment_payload, i as int))
        }),
    decreases n,
{
    lemma_frame_len(meta, slices, n);
    lemma_frame_len(meta, slices, (n - 1) as nat);
    if k + 1 < n {
        frames_are_sent_in_order(meta, slices, (n - 1) as nat, k, i);
    }
}

} // verus!
