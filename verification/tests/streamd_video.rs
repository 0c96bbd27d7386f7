use streamd::clock::{cap_us, low_us, now_us};
use streamd::streamd_client::cursor::RemoteCursorStore;
use streamd::streamd_client::nal::{
    annexb_to_avcc, extract_sps_pps, plan_decode, split_nals, DecodeSubmitStats, DecoderState,
};
use streamd::streamd_client::render::{check_picture, PictureError, RenderStep, VideoWindow};
use streamd::streamd_client::video_rx::{DecodedFrame, VideoFrameReassembler};
use streamd::streamd_proto::packets::{
    parse_video_header, VideoFlags, VideoPacketHeader, MTU_WAN,
};
use streamd::streamd_server::video_tx::QuicVideoSender;
use streamd::yin_yang_proto::packets::{
    RemoteCursorShape, RemoteCursorShapeKind, RemoteCursorState,
};

fn packet(frame_seq: u32, slice_idx: u8, last: bool, frag: (u16, u16), payload: &[u8]) -> Vec<u8> {
    let mut bytes = Vec::new();
    VideoPacketHeader {
        frame_seq,
        timestamp_us: 7,
        slice_idx,
        flags: VideoFlags::collect(true, last),
        frag_idx: frag.0,
        frag_total: frag.1,
    }
    .put(&mut bytes);
    bytes.extend_from_slice(payload);
    bytes
}

#[test]
fn video_headers_have_eighteen_bytes() {
    let bytes = packet(0x0102_0304, 5, true, (6, 0x0708), b"xy");
    assert_eq!(
        bytes,
        vec![4, 3, 2, 1, 7, 0, 0, 0, 0, 0, 0, 0, 5, 3, 6, 0, 8, 7, b'x', b'y']
    );
    let (header, payload) = parse_video_header(&bytes).expect("a header");
    assert_eq!(header.frame_seq, 0x0102_0304);
    assert!(header.is_keyframe() && header.is_last_slice());
    assert_eq!((header.frag_idx, header.frag_total), (6, 0x0708));
    assert_eq!(payload, b"xy");
    assert!(parse_video_header(&bytes[..17]).is_none());
    let mut odd = bytes.clone();
    odd[13] = 0xFD;
    assert_eq!(parse_video_header(&odd).expect("a header").0.flags.bits, 1);
}

#[test]
fn frames_are_put_together_in_any_order() {
    let mut reassembler = VideoFrameReassembler::new();
    assert!(reassembler.push_datagram(&packet(1, 1, true, (1, 2), b"fg")).is_none());
    assert!(reassembler.push_datagram(&packet(1, 0, false, (0, 1), b"abc")).is_none());
    let frame = reassembler
        .push_datagram_at(&packet(1, 1, true, (0, 2), b"de"), 99)
        .expect("complete");
    assert_eq!(frame.data, b"abcdefg");
    assert_eq!((frame.frame_seq, frame.timestamp_us, frame.received_at_us), (1, 7, 99));
    assert!(frame.is_keyframe);
    assert!(reassembler.push_datagram(&[1, 2, 3]).is_none());
    let stats = reassembler.take_stats(1_000_000).expect("a window");
    assert_eq!(stats.assembled_frames, 1);
}

#[test]
fn frames_are_given_up_beyond_the_window() {
    let mut reassembler = VideoFrameReassembler::new();
    reassembler.push_datagram(&packet(0, 0, true, (0, 2), b"a"));
    reassembler.push_datagram(&packet(64, 0, true, (0, 1), b"x")).expect("complete");
    assert!(reassembler.push_datagram(&packet(0, 0, true, (1, 2), b"b")).is_some());
    reassembler.push_datagram(&packet(1, 0, true, (0, 2), b"a"));
    reassembler.push_datagram(&packet(66, 0, true, (0, 1), b"x")).expect("complete");
    assert!(reassembler.push_datagram(&packet(1, 0, true, (1, 2), b"b")).is_none());
}

#[test]
fn frames_are_given_up_across_the_wrap() {
    let mut reassembler = VideoFrameReassembler::new();
    for (old, kept) in [(0xFFFF_FFF0, false), (0xFFFF_FFF1, true), (0x41, true)] {
        reassembler.push_datagram(&packet(old, 0, true, (0, 2), b"a"));
        reassembler.push_datagram(&packet(0x31, 0, true, (0, 1), b"x")).expect("complete");
        let frame = reassembler.push_datagram(&packet(old, 0, true, (1, 2), b"b"));
        assert_eq!(frame.is_some(), kept);
    }
    // The first frame is given up with either of its pieces.
    let stats = reassembler.take_stats(1_000_000).expect("a window");
    assert_eq!((stats.assembled_frames, stats.dropped_frames), (5, 2));
}

#[test]
fn pieces_of_several_frames_are_kept_apart() {
    let mut reassembler = VideoFrameReassembler::new();
    let mut frames = Vec::new();
    for piece in [1, 0, 1, 2] {
        for seq in [9, 4, 0xFFFF_FFFE] {
            let packet = packet(seq, 0, true, (piece, 3), &[seq as u8, piece as u8]);
            assert!(reassembler.accepts(&packet));
            let frame = reassembler.push_datagram_at(&packet, 1);
            frames.extend(frame.map(|frame| (frame.frame_seq, frame.data)));
        }
        assert!(reassembler.push_datagram(b"short").is_none());
    }
    let expected = |seq: u32| (seq, vec![seq as u8, 0, seq as u8, 1, seq as u8, 2]);
    assert_eq!(frames, vec![expected(9), expected(4), expected(0xFFFF_FFFE)]);
}

#[test]
fn packets_without_a_place_are_told() {
    let mut reassembler = VideoFrameReassembler::new();
    assert!(reassembler.accepts(&packet(1, 0, true, (0, 1), b"a")));
    assert!(!reassembler.accepts(&packet(1, 0, true, (1, 1), b"a")));
    reassembler.push_datagram(&packet(1, 0, true, (0, 2), b"a"));
    assert!(!reassembler.accepts(&packet(1, 0, true, (2, 3), b"a")));
}

#[test]
fn sent_frames_arrive_whole() {
    let mut sender = QuicVideoSender::new();
    assert_eq!(sender.current_fragment_payload(None), MTU_WAN - 19);
    assert_eq!(sender.current_fragment_payload(Some(1500)), 1481);
    let slices: Vec<Vec<u8>> = vec![(0..=255).cycle().take(3000).collect(), vec![9; 1181]];
    let datagrams = sender.send_frame(&slices, true, 77, None);
    assert_eq!(datagrams.len(), 4);
    assert!(datagrams.iter().all(|d| d[0] == 2 && d.len() <= MTU_WAN));
    assert_eq!(datagrams[0].len(), MTU_WAN);
    let mut reassembler = VideoFrameReassembler::new();
    let mut frames = Vec::new();
    for datagram in datagrams.iter().rev() {
        assert!(reassembler.accepts(&datagram[1..]));
        frames.extend(reassembler.push_datagram(&datagram[1..]));
    }
    assert_eq!(frames.len(), 1);
    assert_eq!(frames[0].data, slices.concat());
    assert_eq!((frames[0].frame_seq, frames[0].timestamp_us), (0, 77));
    let again = sender.send_frame(&slices, false, 78, Some(19 + 4000));
    assert_eq!(again.len(), 2);
    assert_eq!(again[0][1..5], [1, 0, 0, 0]);
}

#[test]
fn nal_units_are_found() {
    let stream = [0, 0, 0, 1, 0x67, 1, 2, 0, 0, 1, 0x68, 3, 0, 0, 1, 0x65, 9];
    assert_eq!(
        split_nals(&stream),
        vec![&[0x67u8, 1, 2][..], &[0x68, 3][..], &[0x65, 9][..]]
    );
    let (sps, pps) = extract_sps_pps(&stream);
    assert_eq!(sps, Some(vec![0x67, 1, 2]));
    assert_eq!(pps, Some(vec![0x68, 3]));
    assert_eq!(
        annexb_to_avcc(&stream),
        vec![0, 0, 0, 3, 0x67, 1, 2, 0, 0, 0, 2, 0x68, 3, 0, 0, 0, 2, 0x65, 9]
    );
    assert!(split_nals(&[1, 2, 3]).is_empty());
    assert!(annexb_to_avcc(&[]).is_empty());
}

#[test]
fn decoding_waits_for_parameter_sets() {
    let frame = |is_keyframe: bool, data: &[u8]| DecodedFrame {
        data: data.to_vec(),
        frame_seq: 1,
        timestamp_us: 2,
        is_keyframe,
        received_at_us: 3,
    };
    let key = [0, 0, 1, 0x67, 1, 0, 0, 1, 0x68, 3, 0, 0, 1, 0x65, 9];
    let mut decoder = DecoderState::new();
    let plan = plan_decode(&frame(false, &key));
    assert!(plan.new_session.is_none());
    assert!(!decoder.submits(&plan));
    let plan = plan_decode(&frame(true, &key));
    assert_eq!(plan.new_session, Some((vec![0x67, 1], vec![0x68, 3])));
    decoder.session_recreated(true);
    assert!(decoder.submits(&plan));
    assert!(!decoder.submits(&plan_decode(&frame(false, &[]))));
    decoder.session_recreated(false);
    assert!(!decoder.submits(&plan));

    let mut stats = DecodeSubmitStats::new();
    stats.record_submit(100, 150);
    stats.record_submit(200, 100);
    assert_eq!(stats.take_window(999_999), None);
    assert_eq!(stats.take_window(1_000_000), Some((2, 25)));
    assert_eq!(stats.take_window(1_000_000), Some((0, 0)));
}

#[test]
fn cursors_are_shown_with_their_frames() {
    let state = |timestamp_us: u64, generation: u64, x: i32| RemoteCursorState {
        timestamp_us,
        generation,
        visible: true,
        x,
        y: 0,
    };
    let shape = |generation: u64| RemoteCursorShape {
        generation,
        kind: RemoteCursorShapeKind::Color,
        width: 1,
        height: 1,
        pitch: 4,
        data: vec![1, 2, 3, 4],
    };
    let mut store = RemoteCursorStore::default();
    assert!(store.snapshot_for(5).is_none());
    store.apply_state(state(20, 1, 2));
    store.apply_state(state(10, 1, 1));
    store.apply_state(state(10, 1, 1));
    assert_eq!(store.snapshot_for(5).expect("earliest").state.x, 1);
    assert_eq!(store.snapshot_for(19).expect("in time").state.x, 1);
    assert_eq!(store.snapshot_for(20).expect("in time").state.x, 2);
    assert!(store.snapshot_for(20).expect("in time").shape.is_none());
    store.apply_shape(shape(1));
    assert_eq!(store.snapshot_for(20).expect("in time").shape.expect("known").pitch, 4);
    for generation in 2..=33 {
        store.apply_shape(shape(generation));
    }
    assert!(store.snapshot_for(20).expect("in time").shape.is_none());
    store.apply_state(state(5_000_021, 33, 3));
    assert_eq!(store.snapshot_for(0).expect("earliest").state.x, 3);
}

#[test]
fn pictures_are_checked_and_windows_resized() {
    assert_eq!(check_picture(true, 2, 0x3432_3076), Ok(()));
    assert_eq!(check_picture(true, 2, 0x3432_3066), Ok(()));
    assert_eq!(check_picture(false, 2, 0x3432_3066), Err(PictureError::NotPlanar));
    assert_eq!(check_picture(true, 3, 0x3432_3066), Err(PictureError::PlaneCount));
    assert_eq!(check_picture(true, 2, 1), Err(PictureError::PixelFormat));
    let mut window = VideoWindow { width: 8, height: 4 };
    assert_eq!(window.turn(Some((8, 4)), true), RenderStep::Present { resize: false });
    assert_eq!(window.turn(Some((8, 5)), false), RenderStep::Present { resize: true });
    assert_eq!(window.height, 5);
    assert_eq!(window.turn(None, false), RenderStep::Wait);
    assert_eq!(window.turn(None, true), RenderStep::Stop);
}

#[test]
fn the_clock_counts_microseconds() {
    let then = now_us();
    assert!(then > 1_577_836_800_000_000 && then < 4_102_444_800_000_000);
    assert_eq!(low_us(then as u128), then);
    assert_eq!(low_us(u64::MAX as u128 + 6), 5);
    assert_eq!(cap_us(5), 5);
    assert_eq!(cap_us(u32::MAX as u128 + 1), u32::MAX);
}

#[test]
fn pieces_of_any_size_give_the_frame_in_any_order() {
    let mut packets = vec![
        packet(4, 0, false, (0, 3), b"a"),
        packet(4, 0, false, (1, 3), b"bcde"),
        packet(4, 0, false, (2, 3), b"fg"),
        packet(4, 1, true, (0, 2), b""),
        packet(4, 1, false, (1, 2), b"hi"),
    ];
    for shift in 0..packets.len() {
        packets.rotate_left(shift);
        let mut reassembler = VideoFrameReassembler::new();
        for (i, packet) in packets.iter().enumerate() {
            assert!(reassembler.accepts(packet));
            let frame = reassembler.push_datagram_at(packet, 1);
            assert_eq!(frame.is_some(), i + 1 == packets.len());
            if let Some(frame) = frame {
                assert_eq!(frame.data, b"abcdefghi");
            }
        }
    }
}

#[test]
fn start_codes_of_both_lengths_are_split() {
    let stream = [0, 0, 1, 5, 6, 0, 0, 0, 1, 7, 0, 0, 0, 0, 1, 8, 0, 0, 1, 9];
    assert_eq!(split_nals(&stream), vec![&[5, 6][..], &[7, 0], &[8], &[9]]);
}
