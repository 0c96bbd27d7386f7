use streamd::streamd_client::args::{parse_args, Arg, ArgsError, Parsed};
use streamd::streamd_client::cursor::RemoteCursorStore;
use streamd::yang::control::{
    closing_words, is_last_message, reconnect_backoff_ms, report_frame_loss, route_input,
    session_request, take_control_msg, ConnectError, ControlStep, DatagramDispatcher, Handshake,
    HandshakeStep, InputRoute, Supervisor, SupervisorEvent, SupervisorStep,
};
use streamd::yang::interpolator::{AllocationFailed, Extent, FrameInterpolator};
use streamd::yang::options::ClientOptions;
use streamd::yang::render::{
    drawable_count, frame_times, full_range, is_done, record_telemetry, update_cursor_resources,
    CursorTexture, FrameInfo, PresentPlan, RenderLoop, RenderQueue, RenderStats, TextureStep,
};
use streamd::yang::telemetry::ClientTelemetryAccumulator;
use streamd::yang::video_rx::{ReassemblyLoss, VideoFrameReassembler};
use streamd::yin_yang_proto::control::{
    decode_input_datagram, encode_cursor_datagram, encode_video_datagram,
};
use streamd::yin_yang_proto::input::decode_packet;
use streamd::yin_yang_proto::packets::{
    parse_video_header, Codec, ControlMsg, DisplayInfo, InputEvent, InputPacket, MouseButton,
    RemoteCursorShape, RemoteCursorShapeKind, RemoteCursorState, VideoFlags, PROTOCOL_VERSION,
};

fn options() -> ClientOptions {
    ClientOptions {
        client_session_id: "yang-1-2".into(),
        adaptive_streaming: true,
        display_selector: Some("1".into()),
        list_displays: false,
        max_fps: 120,
        min_fps: 30,
        min_bitrate_bps: 1,
        max_bitrate_bps: 2,
        interpolate: false,
    }
}

fn display(index: u32) -> DisplayInfo {
    DisplayInfo {
        id: format!("wayland:{index}"),
        index,
        name: "DP-3".into(),
        description: None,
        width: 0,
        height: 2160,
    }
}

#[test]
fn handshakes_lead_to_a_session_request() {
    let (mut handshake, first) = Handshake::begin();
    assert!(matches!(first, ControlMsg::QueryDisplays));
    let step = handshake.step(
        &options(),
        ControlMsg::AvailableDisplays(vec![display(0), display(1)]),
    );
    match step {
        HandshakeStep::Send(ControlMsg::SessionRequest(request)) => {
            assert_eq!(request.version, PROTOCOL_VERSION);
            assert_eq!(request.client_session_id, "yang-1-2");
            assert!(request.adaptive_streaming);
            assert_eq!((request.max_fps, request.min_fps), (120, 30));
            assert_eq!((request.min_bitrate_bps, request.max_bitrate_bps), (1, 2));
            assert_eq!((request.width, request.height), (1920, 2160));
            assert_eq!(request.preferred_codecs, vec![Codec::H264, Codec::Hevc]);
            assert_eq!(request.display_id.as_deref(), Some("wayland:1"));
        }
        other => panic!("unexpected step: {other:?}"),
    }
    assert!(matches!(
        handshake.step(&options(), ControlMsg::RequestIdr),
        HandshakeStep::Fail(ConnectError::UnexpectedSession(ControlMsg::RequestIdr))
    ));
    assert_eq!(session_request(&options(), &display(7)).display_id.as_deref(), Some("wayland:7"));
}

#[test]
fn losses_are_reported_with_rare_keyframe_requests() {
    let loss = ReassemblyLoss {
        frame_seq: 9,
        dropped_frames: 2,
    };
    let mut last = None;
    let report = report_frame_loss(loss, &mut last, 1_000_000);
    assert!(matches!(
        report[..],
        [ControlMsg::FrameLost(9), ControlMsg::RequestIdr]
    ));
    assert_eq!(last, Some(1_000_000));
    let report = report_frame_loss(loss, &mut last, 1_249_999);
    assert!(matches!(report[..], [ControlMsg::FrameLost(9)]));
    let report = report_frame_loss(loss, &mut last, 1_250_000);
    assert_eq!(report.len(), 2);
    assert_eq!(last, Some(1_250_000));
    assert_eq!(report_frame_loss(loss, &mut last, 5).len(), 1);
}

fn video_packet(frame_seq: u32, frag: (u16, u16), flags: u8, payload: &[u8]) -> Vec<u8> {
    let mut packet = Vec::new();
    packet.extend_from_slice(&frame_seq.to_le_bytes());
    packet.extend_from_slice(&5u64.to_le_bytes());
    packet.push(0);
    packet.push(flags);
    packet.extend_from_slice(&frag.0.to_le_bytes());
    packet.extend_from_slice(&frag.1.to_le_bytes());
    packet.extend_from_slice(&(payload.len() as u32).to_le_bytes());
    packet.extend_from_slice(&(payload.len() as u16).to_le_bytes());
    packet.extend_from_slice(payload);
    packet
}

#[test]
fn video_headers_have_twenty_four_bytes() {
    let packet = video_packet(3, (0, 1), VideoFlags::LAST_SLICE, b"abc");
    let (header, payload) = parse_video_header(&packet).expect("a header");
    assert_eq!((header.frame_seq, header.slice_len, header.frag_payload_size), (3, 3, 3));
    assert_eq!(payload, b"abc");
    assert!(parse_video_header(&packet[..23]).is_none());
}

#[test]
fn datagrams_are_dispatched_by_tag() {
    let mut dispatcher = DatagramDispatcher::new();
    let mut telemetry = ClientTelemetryAccumulator::default();
    let mut cursors = RemoteCursorStore::default();
    let whole = video_packet(1, (0, 1), VideoFlags::LAST_SLICE | VideoFlags::KEY_FRAME, b"abc");
    let result = dispatcher.dispatch(
        &encode_video_datagram(&whole),
        77,
        1,
        &mut telemetry,
        &mut cursors,
    );
    let frame = result.frame.expect("a frame");
    assert_eq!(frame.data, b"abc");
    assert_eq!((frame.frame_seq, frame.received_at_us), (1, 77));
    assert!(frame.is_keyframe && result.messages.is_empty());

    let broken = video_packet(2, (0, 0), 0, b"abc");
    let result = dispatcher.dispatch(
        &encode_video_datagram(&broken),
        78,
        2,
        &mut telemetry,
        &mut cursors,
    );
    assert!(matches!(
        result.messages[..],
        [ControlMsg::FrameLost(2), ControlMsg::RequestIdr]
    ));
    assert_eq!(telemetry.unrecoverable_frames, 1);

    let state = RemoteCursorState {
        timestamp_us: 3,
        generation: 0,
        visible: true,
        x: 8,
        y: 9,
    };
    dispatcher.dispatch(&encode_cursor_datagram(&state), 79, 3, &mut telemetry, &mut cursors);
    assert_eq!(cursors.snapshot_for(3).expect("shown").state, state);
    for odd in [&[][..], &[9][..], &[1][..]] {
        let result = dispatcher.dispatch(odd, 80, 4, &mut telemetry, &mut cursors);
        assert!(result.frame.is_none() && result.messages.is_empty());
    }
    assert!(dispatcher.take_stats(999_999).is_none());
    let stats = dispatcher.take_stats(1_000_000).expect("a window");
    assert_eq!((stats.assembled_frames, stats.dropped_frames), (1, 1));
    let stats = dispatcher.take_stats(1_000_000).expect("a window");
    assert_eq!((stats.assembled_frames, stats.dropped_frames), (0, 0));
}

#[test]
fn stale_frames_are_lost_beyond_the_window() {
    let mut reassembler = VideoFrameReassembler::new();
    reassembler.push_datagram(&video_packet(1, (0, 2), VideoFlags::LAST_SLICE, b"abc"));
    let outcome =
        reassembler.push_datagram_at(&video_packet(40, (0, 1), VideoFlags::LAST_SLICE, b"x"), 3);
    assert_eq!(outcome.frame.expect("complete").received_at_us, 3);
    assert_eq!(outcome.loss.expect("lost").frame_seq, 1);
    let stats = reassembler.take_stats(1_000_000).expect("a window");
    assert_eq!(stats.dropped_frames, 1);
}

#[test]
fn control_messages_reach_the_cursor_store() {
    let mut cursors = RemoteCursorStore::default();
    let shape = RemoteCursorShape {
        generation: 4,
        kind: RemoteCursorShapeKind::Color,
        width: 1,
        height: 1,
        pitch: 4,
        data: vec![1, 2, 3, 4],
    };
    let state = RemoteCursorState {
        timestamp_us: 3,
        generation: 4,
        visible: true,
        x: 8,
        y: 9,
    };
    assert_eq!(
        take_control_msg(&mut cursors, Some(ControlMsg::CursorShape(shape))),
        ControlStep::Continue
    );
    assert_eq!(
        take_control_msg(&mut cursors, Some(ControlMsg::CursorState(state))),
        ControlStep::Continue
    );
    assert!(cursors.snapshot_for(3).expect("shown").shape.is_some());
    assert_eq!(
        take_control_msg(&mut cursors, Some(ControlMsg::RequestIdr)),
        ControlStep::Unexpected
    );
    assert_eq!(
        take_control_msg(&mut cursors, Some(ControlMsg::Goodbye)),
        ControlStep::Stop
    );
    assert_eq!(take_control_msg(&mut cursors, None), ControlStep::Stop);
    assert!(is_last_message(&ControlMsg::Goodbye));
    assert!(!is_last_message(&ControlMsg::RequestIdr));
}

#[test]
fn only_mouse_moves_are_datagrams() {
    let packet = InputPacket {
        timestamp_us: 1,
        event: InputEvent::MouseMove { dx: 1, dy: 2 },
    };
    match route_input(&packet) {
        InputRoute::Datagram(bytes) => assert_eq!(decode_input_datagram(&bytes), Some(packet)),
        other => panic!("unexpected route: {other:?}"),
    }
    let packet = InputPacket {
        timestamp_us: 1,
        event: InputEvent::MouseButton {
            button: MouseButton::Left,
            pressed: true,
        },
    };
    match route_input(&packet) {
        InputRoute::Stream(bytes) => {
            assert_eq!(decode_packet(&bytes), Some((packet, bytes.len())))
        }
        other => panic!("unexpected route: {other:?}"),
    }
}

#[test]
fn dropped_connections_are_retried_within_the_budget() {
    let mut supervisor = Supervisor::new();
    assert_eq!(
        supervisor.step(SupervisorEvent::Disconnected),
        SupervisorStep::Close { graceful: false }
    );
    let mut step = supervisor.step(SupervisorEvent::Closed {
        shutdown: false,
        now_ms: 1_000,
    });
    for (attempt, ms) in [250, 500, 1_000, 2_000, 2_000].into_iter().enumerate() {
        assert_eq!(step, SupervisorStep::Wait { ms });
        assert_eq!(reconnect_backoff_ms(attempt as u64), ms);
        assert_eq!(
            supervisor.step(SupervisorEvent::Waited { shutdown: false }),
            SupervisorStep::Connect
        );
        step = supervisor.step(SupervisorEvent::Attempted {
            connected: false,
            shutdown: false,
            now_ms: 15_999,
        });
    }
    assert_eq!(
        supervisor.step(SupervisorEvent::Waited { shutdown: false }),
        SupervisorStep::Connect
    );
    assert_eq!(
        supervisor.step(SupervisorEvent::Attempted {
            connected: false,
            shutdown: false,
            now_ms: 16_000,
        }),
        SupervisorStep::GiveUp
    );
    assert_eq!(supervisor.step(SupervisorEvent::Shutdown), SupervisorStep::Idle);
}

#[test]
fn supervised_sessions_shut_down() {
    let mut supervisor = Supervisor::new();
    assert_eq!(
        supervisor.step(SupervisorEvent::Shutdown),
        SupervisorStep::Close { graceful: true }
    );
    let mut supervisor = Supervisor::new();
    supervisor.step(SupervisorEvent::Disconnected);
    assert_eq!(
        supervisor.step(SupervisorEvent::Closed {
            shutdown: true,
            now_ms: 0
        }),
        SupervisorStep::Finish
    );
    let mut supervisor = Supervisor::new();
    supervisor.step(SupervisorEvent::Disconnected);
    supervisor.step(SupervisorEvent::Closed {
        shutdown: false,
        now_ms: 0,
    });
    supervisor.step(SupervisorEvent::Waited { shutdown: false });
    assert_eq!(
        supervisor.step(SupervisorEvent::Attempted {
            connected: true,
            shutdown: false,
            now_ms: 1
        }),
        SupervisorStep::Serve
    );
    supervisor.step(SupervisorEvent::Disconnected);
    supervisor.step(SupervisorEvent::Closed {
        shutdown: false,
        now_ms: 0,
    });
    assert_eq!(
        supervisor.step(SupervisorEvent::Waited { shutdown: true }),
        SupervisorStep::Finish
    );
    assert_eq!(closing_words(true), (0, "client shutdown"));
    assert_eq!(closing_words(false), (1, "connection cleanup"));
}

fn frame(width: u32, is_keyframe: bool) -> FrameInfo {
    FrameInfo {
        frame_seq: 1,
        width,
        height: 1080,
        timestamp_us: 5,
        is_keyframe,
        received_at_us: 100,
        decode_submitted_at_us: 130,
        decoded_at_us: 200,
    }
}

#[test]
fn the_newest_frame_is_shown() {
    let mut queue: RenderQueue<u32> = RenderQueue::new();
    let mut dropped = 0;
    queue.offer(1, &mut dropped);
    assert_eq!(dropped, 0);
    queue.offer(2, &mut dropped);
    assert_eq!((queue.take(), dropped), (Some(2), 1));
    assert_eq!(queue.take(), None);
    assert_eq!(queue.offer_all(vec![3, 4, 5]), 2);
    assert_eq!(queue.offer_all(vec![6, 7]), 2);
    assert_eq!(queue.offer_all(vec![]), 0);
    assert_eq!(queue.take(), Some(7));
    assert!(is_done(true, false) && !is_done(true, true) && !is_done(false, false));
}

#[test]
fn frames_of_one_size_are_interpolated() {
    let mut state = RenderLoop::new(1920, 1080, true);
    let plan = |resize: bool, interpolate: bool| PresentPlan {
        resize,
        interpolate,
    };
    assert_eq!(state.next_frame(&frame(1920, false)), plan(false, false));
    assert_eq!(state.next_frame(&frame(1920, false)), plan(false, true));
    assert_eq!(state.next_frame(&frame(1920, true)), plan(false, false));
    assert_eq!(state.next_frame(&frame(1280, false)), plan(true, false));
    assert_eq!(state.next_frame(&frame(1280, false)), plan(false, true));
    let mut plain = RenderLoop::new(1920, 1080, false);
    plain.next_frame(&frame(1920, false));
    assert_eq!(plain.next_frame(&frame(1920, false)), plan(false, false));
    assert_eq!((drawable_count(true), drawable_count(false)), (3, 2));
    assert_eq!(full_range(0x3432_3066), Some(true));
    assert_eq!(full_range(0x3432_3076), Some(false));
    assert_eq!(full_range(7), None);
}

#[test]
fn presented_frames_are_measured() {
    let times = frame_times(&frame(1, false), 260, 300);
    assert_eq!((times.decode_queue_us, times.decode_us), (30, 70));
    assert_eq!((times.render_queue_us, times.present_cpu_us), (60, 40));
    let back = frame_times(&frame(1, false), 100, 50);
    assert_eq!((back.render_queue_us, back.present_cpu_us), (0, 0));
    let mut stats = RenderStats::new();
    stats.record_presented(&times, 2);
    stats.record_presented(&times, 1);
    assert!(stats.take_window(5).is_none());
    let report = stats.take_window(1_000_000).expect("a window");
    assert_eq!((report.presented_frames, report.dropped_frames), (2, 3));
    assert_eq!((report.decode_queue_us, report.decode_us), (30, 70));
    assert_eq!((report.render_queue_us, report.present_cpu_us), (60, 40));
    assert_eq!(stats.take_window(1_000_000).expect("a window").decode_us, 0);
    let mut telemetry = ClientTelemetryAccumulator::default();
    record_telemetry(&mut telemetry, &times, 4);
    let sample = telemetry.drain();
    assert_eq!((sample.presented_frames, sample.render_dropped_frames), (1, 4));
    assert_eq!((sample.avg_decode_queue_us, sample.avg_render_queue_us), (30, 60));
}

#[test]
fn cursor_textures_follow_the_cursor() {
    let mut at_hand = None;
    let mut store = RemoteCursorStore::default();
    let (step, params) = update_cursor_resources(&mut at_hand, &None, &frame(1920, false));
    assert_eq!(step, TextureStep::Drop);
    assert_eq!((params.visible, params.frame_width), (0, 1920));
    store.apply_state(RemoteCursorState {
        timestamp_us: 1,
        generation: 9,
        visible: true,
        x: -4,
        y: 5,
    });
    let snapshot = store.snapshot_for(1);
    let (step, params) = update_cursor_resources(&mut at_hand, &snapshot, &frame(1920, false));
    assert_eq!(step, TextureStep::Drop);
    assert_eq!((params.visible, params.has_shape, params.origin_x), (1, 0, -4));
    store.apply_shape(RemoteCursorShape {
        generation: 9,
        kind: RemoteCursorShapeKind::Monochrome,
        width: 16,
        height: 8,
        pitch: 4,
        data: vec![0; 64],
    });
    let snapshot = store.snapshot_for(1);
    let (step, params) = update_cursor_resources(&mut at_hand, &snapshot, &frame(1920, false));
    assert_eq!(
        step,
        TextureStep::Make(CursorTexture::Mono {
            width: 4,
            height: 16,
            bytes_per_row: 4
        })
    );
    assert_eq!((params.kind, params.has_shape, params.width, params.height), (3, 1, 16, 8));
    assert_eq!(at_hand, Some(9));
    let (step, _) = update_cursor_resources(&mut at_hand, &snapshot, &frame(1920, false));
    assert_eq!(step, TextureStep::Keep);
}

#[test]
fn interpolation_covers_the_frame() {
    let (mut interpolator, sizes) = FrameInterpolator::new(1921, 1080);
    let extent = |width: u64, height: u64| Extent { width, height };
    assert_eq!(sizes.downsampled, extent(481, 270));
    assert_eq!(sizes.flow, extent(61, 34));
    assert_eq!(sizes.output, extent(1921, 1080));
    assert_eq!(interpolator.plan_resize(1921, 1080), None);
    assert_eq!(interpolator.resize(1921, 1080, false), Ok(()));
    let before = interpolator;
    let sizes = interpolator.plan_resize(32, 33).expect("resized");
    assert_eq!(sizes.flow, extent(1, 2));
    assert_eq!(interpolator.resize(32, 33, false), Err(AllocationFailed));
    assert_eq!(interpolator, before);
    assert_eq!(interpolator.resize(32, 33, true), Ok(()));
    assert_eq!(interpolator.textures, sizes);
    let passes = interpolator.encode(true);
    assert_eq!(passes.downsample_grid, extent(8, 9));
    assert_eq!((passes.match_groups, passes.match_threads), (extent(1, 2), 81));
    assert_eq!((passes.warp.full_range, passes.warp.width), (1, 32));
}

fn line(args: &[&str]) -> Vec<Arg> {
    args.iter()
        .map(|text| Arg {
            text: text.to_string(),
            is_address: text.contains(':'),
        })
        .collect()
}

#[test]
fn streamd_command_lines_are_read() {
    match parse_args(&line(&["10.0.0.1:9000", "--display", "--help", "--list-displays"])) {
        Ok(Parsed::Run { address, options }) => {
            assert_eq!(address, Some(0));
            assert_eq!(options.display_selector.as_deref(), Some("--help"));
            assert!(options.list_displays);
        }
        other => panic!("unexpected reading: {other:?}"),
    }
    match parse_args(&line(&["--display=DP-3"])) {
        Ok(Parsed::Run { address, options }) => {
            assert_eq!(address, None);
            assert_eq!(options.display_selector.as_deref(), Some("DP-3"));
            assert!(!options.list_displays);
        }
        other => panic!("unexpected reading: {other:?}"),
    }
    assert!(matches!(parse_args(&line(&["-h", "--odd"])), Ok(Parsed::Help)));
    assert!(matches!(
        parse_args(&line(&["--display"])),
        Err(ArgsError::DisplayWithoutValue)
    ));
    assert!(matches!(parse_args(&line(&["--odd"])), Err(ArgsError::UnknownFlag(0))));
    assert!(matches!(parse_args(&line(&["host"])), Err(ArgsError::BadAddress(0))));
    assert!(matches!(
        parse_args(&line(&["a:1", "b:2"])),
        Err(ArgsError::ExtraArgument(1))
    ));
}
