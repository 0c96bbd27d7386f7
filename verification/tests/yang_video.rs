use streamd::yang::video_rx::VideoFrameReassembler;
use streamd::yin_yang_proto::packets::{VideoFlags, VideoPacketHeader};

#[allow(clippy::too_many_arguments)]
fn build_packet(
    frame_seq: u32,
    slice_idx: u8,
    flags: u8,
    frag_idx: u16,
    frag_total: u16,
    slice_len: u32,
    frag_payload_size: u16,
    payload: &[u8],
) -> Vec<u8> {
    let mut packet = Vec::with_capacity(VideoPacketHeader::SIZE + payload.len());
    packet.extend_from_slice(&frame_seq.to_le_bytes());
    packet.extend_from_slice(&123_u64.to_le_bytes());
    packet.push(slice_idx);
    packet.push(flags);
    packet.extend_from_slice(&frag_idx.to_le_bytes());
    packet.extend_from_slice(&frag_total.to_le_bytes());
    packet.extend_from_slice(&slice_len.to_le_bytes());
    packet.extend_from_slice(&frag_payload_size.to_le_bytes());
    packet.extend_from_slice(payload);
    packet
}

#[test]
fn recovers_single_lost_fragment_from_parity() {
    let mut reassembler = VideoFrameReassembler::new();

    let frag_total = 4;
    let frag_payload_size = 3;
    let slice_len = 12;
    let fragments = [b"abc", b"def", b"ghi", b"jkl"];
    let parity = {
        let mut parity = vec![0u8; 3];
        for fragment in fragments {
            for (dst, src) in parity.iter_mut().zip(fragment.iter().copied()) {
                *dst ^= src;
            }
        }
        parity
    };

    for (frag_idx, fragment) in fragments.into_iter().enumerate() {
        if frag_idx == 2 {
            continue;
        }
        let outcome = reassembler.push_datagram(&build_packet(
            1,
            0,
            VideoFlags::LAST_SLICE,
            frag_idx as u16,
            frag_total,
            slice_len,
            frag_payload_size,
            fragment,
        ));
        assert!(outcome.frame.is_none());
        assert!(outcome.loss.is_none());
    }

    let outcome = reassembler.push_datagram(&build_packet(
        1,
        0,
        VideoFlags::LAST_SLICE | VideoFlags::FEC_PARITY,
        0,
        frag_total,
        slice_len,
        frag_payload_size,
        &parity,
    ));

    let frame = outcome.frame.expect("frame should be recovered");
    assert_eq!(frame.data, b"abcdefghijkl");
    assert!(outcome.loss.is_none());
}

#[test]
fn signals_loss_after_unrecoverable_gap() {
    let mut reassembler = VideoFrameReassembler::new();

    let partial = build_packet(10, 0, VideoFlags::LAST_SLICE, 0, 2, 6, 3, b"abc");
    let outcome = reassembler.push_datagram(&partial);
    assert!(outcome.frame.is_none());
    assert!(outcome.loss.is_none());

    let complete_frame = build_packet(50, 0, VideoFlags::LAST_SLICE, 0, 1, 3, 3, b"xyz");
    let outcome = reassembler.push_datagram(&complete_frame);
    assert_eq!(
        outcome.frame.expect("new frame should complete").data,
        b"xyz"
    );
    assert!(outcome.loss.is_some());
    let loss = outcome.loss.expect("loss signal expected");
    assert_eq!(loss.frame_seq, 10);
    assert_eq!(loss.dropped_frames, 1);
}

#[test]
fn one_fragment_of_each_group_may_be_lost() {
    let slices: [&[u8]; 2] = [b"abcdefghijklmnopqrstuvw", b"1234567"];
    let mut packets = Vec::new();
    for (slice_idx, slice) in slices.into_iter().enumerate() {
        let flags = if slice_idx == 1 {
            VideoFlags::LAST_SLICE
        } else {
            0
        };
        let fragments: Vec<&[u8]> = slice.chunks(3).collect();
        let build = |flags: u8, frag_idx: usize, payload: &[u8]| {
            build_packet(
                7,
                slice_idx as u8,
                flags,
                frag_idx as u16,
                fragments.len() as u16,
                slice.len() as u32,
                3,
                payload,
            )
        };
        for (group_idx, group) in fragments.chunks(4).enumerate() {
            let mut parity = vec![0u8; 3];
            for (i, fragment) in group.iter().enumerate() {
                for (dst, src) in parity.iter_mut().zip(fragment.iter().copied()) {
                    *dst ^= src;
                }
                if i != group.len() - 1 {
                    packets.push(build(flags, group_idx * 4 + i, fragment));
                }
            }
            packets.push(build(flags | VideoFlags::FEC_PARITY, group_idx, &parity));
        }
    }

    let mut reassembler = VideoFrameReassembler::new();
    let mut frame = None;
    for packet in packets.iter().rev() {
        for _ in 0..2 {
            if frame.is_none() {
                let outcome = reassembler.push_datagram(packet);
                assert!(outcome.loss.is_none());
                frame = outcome.frame;
            }
        }
    }
    let frame = frame.expect("frame should be recovered");
    assert_eq!(frame.data, b"abcdefghijklmnopqrstuvw1234567");
    assert!(reassembler.take_stats(999_999).is_none());
    let stats = reassembler.take_stats(1_000_000).expect("a window");
    assert_eq!((stats.assembled_frames, stats.dropped_frames), (1, 0));
    assert_eq!((stats.recovered_fragments, stats.recovered_frames), (3, 1));
    let stats = reassembler.take_stats(1_000_000).expect("a window");
    assert_eq!((stats.assembled_frames, stats.recovered_fragments), (0, 0));
}

#[test]
fn delivered_frames_are_not_reported_as_lost() {
    let mut reassembler = VideoFrameReassembler::new();
    let first = build_packet(1, 0, VideoFlags::LAST_SLICE, 0, 2, 6, 3, b"abc");
    let second = build_packet(1, 0, VideoFlags::LAST_SLICE, 1, 2, 6, 3, b"def");
    let parity = build_packet(
        1,
        0,
        VideoFlags::LAST_SLICE | VideoFlags::FEC_PARITY,
        0,
        2,
        6,
        3,
        &[5, 7, 5],
    );
    assert!(reassembler.push_datagram(&first).frame.is_none());
    let frame = reassembler.push_datagram(&second).frame.expect("frame");
    assert_eq!(frame.data, b"abcdef");

    for late in [&parity, &first, &second] {
        let outcome = reassembler.push_datagram(late);
        assert!(outcome.frame.is_none() && outcome.loss.is_none());
    }
    let newer = build_packet(33, 0, VideoFlags::LAST_SLICE, 0, 1, 3, 3, b"xyz");
    let outcome = reassembler.push_datagram(&newer);
    assert_eq!(outcome.frame.expect("frame").data, b"xyz");
    assert!(outcome.loss.is_none());
    for late in [&parity, &first, &second] {
        let outcome = reassembler.push_datagram(late);
        assert!(outcome.frame.is_none() && outcome.loss.is_none());
    }
    let stats = reassembler.take_stats(1_000_000).expect("a window");
    assert_eq!((stats.assembled_frames, stats.dropped_frames), (2, 0));

    let newer = build_packet(50, 0, VideoFlags::LAST_SLICE, 0, 1, 3, 3, b"xyz");
    assert!(reassembler.push_datagram(&newer).loss.is_none());
    let stale = build_packet(3, 0, VideoFlags::LAST_SLICE, 0, 2, 6, 3, b"abc");
    let loss = reassembler.push_datagram(&stale).loss.expect("lost");
    assert_eq!((loss.frame_seq, loss.dropped_frames), (3, 1));
}

#[test]
fn numbers_behind_the_window_are_forgotten() {
    let mut reassembler = VideoFrameReassembler::new();
    let whole = |seq: u32| build_packet(seq, 0, VideoFlags::LAST_SLICE, 0, 1, 3, 3, b"abc");
    assert!(reassembler.push_datagram(&whole(1)).frame.is_some());
    assert!(reassembler.push_datagram(&whole(33)).frame.is_some());
    assert!(reassembler.push_datagram(&whole(1)).frame.is_none());
    assert!(reassembler.push_datagram(&whole(34)).frame.is_some());
    assert!(reassembler.push_datagram(&whole(1)).frame.is_some());
    assert!(reassembler.push_datagram(&whole(2)).frame.is_some());
    assert!(reassembler.push_datagram(&whole(2)).frame.is_none());
}

#[test]
fn numbers_that_come_round_again_are_new_frames() {
    let mut reassembler = VideoFrameReassembler::new();
    for seq in [7, 0x6000_0000, 0xC000_0000, 7] {
        let packet = build_packet(seq, 0, VideoFlags::LAST_SLICE, 0, 1, 3, 3, b"abc");
        assert_eq!(
            reassembler.push_datagram(&packet).frame.expect("frame").frame_seq,
            seq
        );
        assert!(reassembler.push_datagram(&packet).frame.is_none());
    }
}

#[test]
fn frames_whose_number_comes_round_again_are_reassembled() {
    let first = build_packet(1, 0, VideoFlags::LAST_SLICE, 0, 2, 6, 3, b"abc");
    let second = build_packet(1, 0, VideoFlags::LAST_SLICE, 1, 2, 6, 3, b"def");
    let malformed = build_packet(1, 0, VideoFlags::LAST_SLICE, 1, 2, 6, 3, b"de");
    for is_malformed in [false, true] {
        let mut reassembler = VideoFrameReassembler::new();
        for seq in [1, 0x7000_0000, 0xE000_0000] {
            let packet = build_packet(seq, 0, VideoFlags::LAST_SLICE, 0, 1, 3, 3, b"xyz");
            let outcome = reassembler.push_datagram(&packet);
            assert_eq!(outcome.frame.expect("frame").frame_seq, seq);
        }
        let outcome = reassembler.push_datagram(&first);
        assert!(outcome.frame.is_none() && outcome.loss.is_none());
        if is_malformed {
            let outcome = reassembler.push_datagram(&malformed);
            assert!(outcome.frame.is_none());
            let loss = outcome.loss.expect("lost");
            assert_eq!((loss.frame_seq, loss.dropped_frames), (1, 1));
            assert!(reassembler.push_datagram(&second).frame.is_none());
            let outcome = reassembler.push_datagram(&first);
            assert_eq!(outcome.frame.expect("frame").data, b"abcdef");
        } else {
            let outcome = reassembler.push_datagram(&second);
            assert_eq!(outcome.frame.expect("frame").data, b"abcdef");
            assert!(outcome.loss.is_none());
        }
    }
}

#[test]
fn frames_come_out_once_among_others() {
    let mut reassembler = VideoFrameReassembler::new();
    let packet = |seq: u32, i: u16| {
        let payload = [seq as u8, i as u8];
        build_packet(seq, 0, VideoFlags::LAST_SLICE, i, 3, 6, 2, &payload)
    };
    let mut frames = Vec::new();
    for round in [2, 0, 2, 1, 0] {
        for seq in 5..9 {
            let outcome = reassembler.push_datagram_at(&packet(seq, round), 4);
            assert!(outcome.loss.is_none() && outcome.recovered_fragments == 0);
            frames.extend(outcome.frame.map(|frame| (frame.frame_seq, frame.data)));
        }
        assert!(reassembler.push_datagram(b"short").frame.is_none());
    }
    assert_eq!(frames.len(), 4);
    for (i, (seq, data)) in frames.into_iter().enumerate() {
        assert_eq!(seq as usize, 5 + i);
        assert_eq!(data, [seq as u8, 0, seq as u8, 1, seq as u8, 2]);
    }
}

#[test]
fn fragments_give_the_frame_in_any_order() {
    let slices: [&[u8]; 2] = [b"abcdefg", b"12345"];
    let mut packets = Vec::new();
    for (slice_idx, slice) in slices.into_iter().enumerate() {
        for (i, fragment) in slice.chunks(3).enumerate() {
            let mut flags = if slice_idx == 1 {
                VideoFlags::LAST_SLICE
            } else {
                0
            };
            if slice_idx == 0 && i == 0 {
                flags |= VideoFlags::KEY_FRAME;
            }
            packets.push(build_packet(
                9,
                slice_idx as u8,
                flags,
                i as u16,
                slice.len().div_ceil(3) as u16,
                slice.len() as u32,
                3,
                fragment,
            ));
        }
    }
    for shift in 0..packets.len() {
        packets.rotate_left(shift);
        let mut reassembler = VideoFrameReassembler::new();
        for (i, packet) in packets.iter().enumerate() {
            let outcome = reassembler.push_datagram_at(packet, 5);
            assert!(outcome.loss.is_none() && outcome.recovered_fragments == 0);
            assert_eq!(outcome.frame.is_some(), i + 1 == packets.len());
            if let Some(frame) = outcome.frame {
                assert_eq!(frame.data, b"abcdefg12345");
                assert!(frame.is_keyframe && frame.received_at_us == 5);
            }
            assert!(reassembler.push_datagram_at(packet, 6).frame.is_none());
        }
    }
}
