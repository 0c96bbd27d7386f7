use streamd::framing::{announced_len, decode_parts};
use streamd::streamd_proto::control as streamd_control;
use streamd::streamd_proto::packets as streamd_packets;
use streamd::yin_yang_proto::control::{
    decode_cursor_datagram, decode_input_datagram, decode_msg, encode_cursor_datagram,
    encode_input_datagram, encode_msg, encode_video_datagram, DATAGRAM_TAG_CURSOR,
    DATAGRAM_TAG_INPUT, DATAGRAM_TAG_VIDEO,
};
use streamd::yin_yang_proto::input::{decode_packet, encode_packet};
use streamd::yin_yang_proto::packets::{
    ClientTelemetry, Codec, ControlMsg, DisplayInfo, InputEvent, InputPacket, KeyModifiers,
    MouseButton, RemoteCursorShape, RemoteCursorShapeKind, RemoteCursorState, ServerTelemetry,
    SessionAccept, SessionReject, SessionRequest, VideoTransport, PROTOCOL_VERSION,
};

#[test]
fn round_trips_session_request_with_adaptive_bounds() {
    let request = SessionRequest {
        version: PROTOCOL_VERSION,
        client_session_id: "client-session-1".into(),
        adaptive_streaming: true,
        max_fps: 120,
        min_fps: 48,
        min_bitrate_bps: 12_000_000,
        max_bitrate_bps: 40_000_000,
        width: 2560,
        height: 1440,
        preferred_codecs: vec![Codec::Hevc, Codec::H264],
        display_id: Some("display-0".into()),
    };

    let encoded = encode_msg(&ControlMsg::SessionRequest(request.clone()));
    let (decoded, consumed) = decode_msg(&encoded).expect("decode session request");
    assert_eq!(consumed, encoded.len());

    match decoded {
        ControlMsg::SessionRequest(decoded_request) => {
            assert_eq!(decoded_request.version, request.version);
            assert_eq!(decoded_request.client_session_id, request.client_session_id);
            assert_eq!(
                decoded_request.adaptive_streaming,
                request.adaptive_streaming
            );
            assert_eq!(decoded_request.max_fps, request.max_fps);
            assert_eq!(decoded_request.min_fps, request.min_fps);
            assert_eq!(decoded_request.min_bitrate_bps, request.min_bitrate_bps);
            assert_eq!(decoded_request.max_bitrate_bps, request.max_bitrate_bps);
            assert_eq!(decoded_request.width, request.width);
            assert_eq!(decoded_request.height, request.height);
            assert_eq!(decoded_request.preferred_codecs.len(), 2);
            assert_eq!(decoded_request.display_id, request.display_id);
        }
        other => panic!("unexpected decoded control message: {other:?}"),
    }
}

#[test]
fn round_trips_client_and_server_telemetry() {
    let client = ClientTelemetry {
        unrecoverable_frames: 2,
        recovered_frames: 3,
        recovered_fragments: 5,
        presented_frames: 120,
        render_dropped_frames: 4,
        avg_decode_queue_us: 450,
        avg_render_queue_us: 800,
    };
    let server = ServerTelemetry {
        avg_capture_wait_us: 100,
        avg_capture_convert_us: 200,
        avg_encode_us: 300,
        avg_send_us: 400,
        avg_send_wait_us: 500,
        max_send_wait_us: 900,
        avg_pipeline_us: 1_200,
        send_queue_frames: 0,
        idr_count: 1,
        frame_count: 60,
        encoder_bitrate_bps: 25_000_000,
        target_fps: 60,
        video_datagrams_sent: 1000,
        video_datagrams_dropped: 7,
        max_datagram_size: 1200,
        fragment_payload_bytes: 1175,
    };

    let (decoded_client, _) =
        decode_msg(&encode_msg(&ControlMsg::ClientTelemetry(client.clone())))
            .expect("decode client telemetry");
    let (decoded_server, _) = decode_msg(&encode_msg(&ControlMsg::Heartbeat(server.clone())))
        .expect("decode server telemetry");

    match decoded_client {
        ControlMsg::ClientTelemetry(decoded) => {
            assert_eq!(decoded.unrecoverable_frames, client.unrecoverable_frames);
            assert_eq!(decoded.recovered_frames, client.recovered_frames);
            assert_eq!(decoded.recovered_fragments, client.recovered_fragments);
            assert_eq!(decoded.presented_frames, client.presented_frames);
            assert_eq!(decoded.render_dropped_frames, client.render_dropped_frames);
            assert_eq!(decoded.avg_decode_queue_us, client.avg_decode_queue_us);
            assert_eq!(decoded.avg_render_queue_us, client.avg_render_queue_us);
        }
        other => panic!("unexpected decoded client telemetry message: {other:?}"),
    }

    match decoded_server {
        ControlMsg::Heartbeat(decoded) => {
            assert_eq!(decoded.avg_capture_wait_us, server.avg_capture_wait_us);
            assert_eq!(
                decoded.avg_capture_convert_us,
                server.avg_capture_convert_us
            );
            assert_eq!(decoded.avg_encode_us, server.avg_encode_us);
            assert_eq!(decoded.avg_send_us, server.avg_send_us);
            assert_eq!(decoded.avg_send_wait_us, server.avg_send_wait_us);
            assert_eq!(decoded.max_send_wait_us, server.max_send_wait_us);
            assert_eq!(decoded.avg_pipeline_us, server.avg_pipeline_us);
            assert_eq!(decoded.send_queue_frames, server.send_queue_frames);
            assert_eq!(decoded.idr_count, server.idr_count);
            assert_eq!(decoded.frame_count, server.frame_count);
            assert_eq!(decoded.encoder_bitrate_bps, server.encoder_bitrate_bps);
            assert_eq!(decoded.target_fps, server.target_fps);
            assert_eq!(decoded.video_datagrams_sent, server.video_datagrams_sent);
            assert_eq!(
                decoded.video_datagrams_dropped,
                server.video_datagrams_dropped
            );
            assert_eq!(decoded.max_datagram_size, server.max_datagram_size);
            assert_eq!(
                decoded.fragment_payload_bytes,
                server.fragment_payload_bytes
            );
        }
        other => panic!("unexpected decoded server telemetry message: {other:?}"),
    }
}

#[test]
fn round_trips_available_displays() {
    let displays = vec![DisplayInfo {
        id: "display-0".into(),
        index: 0,
        name: "Primary".into(),
        description: Some("Main monitor".into()),
        width: 3840,
        height: 2160,
    }];

    let (decoded, _) = decode_msg(&encode_msg(&ControlMsg::AvailableDisplays(
        displays.clone(),
    )))
    .expect("decode displays");

    match decoded {
        ControlMsg::AvailableDisplays(decoded_displays) => {
            assert_eq!(decoded_displays.len(), 1);
            assert_eq!(decoded_displays[0].id, displays[0].id);
            assert_eq!(decoded_displays[0].name, displays[0].name);
            assert_eq!(decoded_displays[0].description, displays[0].description);
            assert_eq!(decoded_displays[0].width, displays[0].width);
            assert_eq!(decoded_displays[0].height, displays[0].height);
        }
        other => panic!("unexpected decoded display message: {other:?}"),
    }
}

#[test]
fn small_messages_have_these_bytes() {
    assert_eq!(encode_msg(&ControlMsg::QueryDisplays), vec![1, 0, 0, 0, 0]);
    assert_eq!(encode_msg(&ControlMsg::RequestIdr), vec![1, 0, 0, 0, 6]);
    assert_eq!(encode_msg(&ControlMsg::Goodbye), vec![1, 0, 0, 0, 10]);
    assert_eq!(encode_msg(&ControlMsg::FrameLost(250)), vec![2, 0, 0, 0, 11, 250]);
    assert_eq!(
        encode_msg(&ControlMsg::FrameLost(251)),
        vec![4, 0, 0, 0, 11, 251, 251, 0]
    );
    assert_eq!(
        encode_msg(&ControlMsg::FrameLost(70_000)),
        vec![6, 0, 0, 0, 11, 252, 0x70, 0x11, 1, 0]
    );
    assert_eq!(
        encode_msg(&ControlMsg::SessionReject(SessionReject {
            reason: "né".into()
        })),
        vec![5, 0, 0, 0, 4, 3, b'n', 0xC3, 0xA9]
    );
}

#[test]
fn cursor_and_input_datagrams_have_these_bytes() {
    let state = RemoteCursorState {
        timestamp_us: 5,
        generation: 1 << 40,
        visible: true,
        x: -1,
        y: 200,
    };
    let bytes = encode_cursor_datagram(&state);
    assert_eq!(
        &bytes[..],
        &[DATAGRAM_TAG_CURSOR, 5, 253, 0, 0, 0, 0, 0, 1, 0, 0, 1, 1, 251, 144, 1]
    );
    assert_eq!(decode_cursor_datagram(&bytes), Some(state));
    assert_eq!(decode_cursor_datagram(&bytes[1..]), None);
    assert_eq!(decode_cursor_datagram(&[]), None);
    assert_eq!(decode_cursor_datagram(&bytes[..10]), None);

    let packet = InputPacket {
        timestamp_us: 7,
        event: InputEvent::MouseMove { dx: -3, dy: 2 },
    };
    let bytes = encode_input_datagram(&packet);
    assert_eq!(&bytes[..], &[DATAGRAM_TAG_INPUT, 7, 0, 5, 4]);
    assert_eq!(decode_input_datagram(&bytes), Some(packet));
    assert_eq!(decode_cursor_datagram(&bytes), None);

    assert_eq!(&encode_video_datagram(&[9, 8])[..], &[DATAGRAM_TAG_VIDEO, 9, 8]);
}

#[test]
fn every_control_message_survives_the_wire() {
    let display = DisplayInfo {
        id: "wayland:68".into(),
        index: 1,
        name: "DP-3".into(),
        description: None,
        width: 0,
        height: 2160,
    };
    let messages = vec![
        ControlMsg::QueryDisplays,
        ControlMsg::AvailableDisplays(vec![]),
        ControlMsg::SessionAccept(SessionAccept {
            codec: Codec::Av1,
            fps: 255,
            width: u32::MAX,
            height: 0,
            video_transport: VideoTransport::QuicDatagram,
            selected_display: display,
        }),
        ControlMsg::SessionReject(SessionReject {
            reason: String::new(),
        }),
        ControlMsg::RequestIdr,
        ControlMsg::CursorShape(RemoteCursorShape {
            generation: u64::MAX,
            kind: RemoteCursorShapeKind::Monochrome,
            width: 32,
            height: 16,
            pitch: 4,
            data: (0..=255).collect(),
        }),
        ControlMsg::CursorState(RemoteCursorState {
            timestamp_us: u64::MAX,
            generation: 0,
            visible: false,
            x: i32::MIN,
            y: i32::MAX,
        }),
        ControlMsg::Goodbye,
        ControlMsg::FrameLost(u32::MAX),
    ];
    for msg in messages {
        let mut bytes = encode_msg(&msg);
        let len = bytes.len();
        bytes.extend_from_slice(&[1, 2, 3]);
        let (decoded, consumed) = decode_msg(&bytes).expect("decodes");
        assert_eq!(consumed, len);
        assert_eq!(format!("{decoded:?}"), format!("{msg:?}"));
        assert!(decode_msg(&bytes[..len - 1]).is_none());
    }
}

#[test]
fn frames_that_hold_no_message_are_refused() {
    assert!(decode_msg(&[]).is_none());
    assert!(decode_msg(&[1, 0, 0]).is_none());
    assert!(decode_msg(&[1, 0, 0, 0]).is_none());
    assert!(decode_msg(&[1, 0, 0, 0, 12]).is_none());
    assert!(decode_msg(&[0, 0, 0, 0, 0]).is_none());
}

#[test]
fn messages_are_read_from_a_stream_in_two_parts() {
    let bytes = encode_msg(&ControlMsg::FrameLost(9));
    assert_eq!(announced_len(&bytes[..4]), Ok(2));
    let msg: Option<ControlMsg> = decode_parts(&bytes[..4], &bytes[4..]);
    assert!(matches!(msg, Some(ControlMsg::FrameLost(9))));
    assert_eq!(announced_len(&[0, 0, 16, 0]), Ok(1 << 20));
    assert_eq!(announced_len(&[1, 0, 16, 0]), Err((1 << 20) + 1));
}

#[test]
fn every_input_event_survives_the_stream() {
    let events = vec![
        InputEvent::MouseMove {
            dx: i16::MIN,
            dy: i16::MAX,
        },
        InputEvent::MouseButton {
            button: MouseButton::Side(7),
            pressed: true,
        },
        InputEvent::MouseScroll {
            dx_bits: 1.5f32.to_bits(),
            dy_bits: (-2.0f32).to_bits(),
        },
        InputEvent::KeyEvent {
            hid_usage: 0xE0,
            pressed: false,
            modifiers: KeyModifiers {
                bits: KeyModifiers::CTRL | KeyModifiers::NUMLOCK,
            },
        },
    ];
    for event in events {
        let packet = InputPacket {
            timestamp_us: 1_700_000_000_000_000,
            event,
        };
        let bytes = encode_packet(&packet);
        assert_eq!(decode_packet(&bytes), Some((packet, bytes.len())));
    }
}

#[test]
fn streamd_messages_survive_the_wire() {
    let request = streamd_packets::ControlMsg::SessionRequest(streamd_packets::SessionRequest {
        version: streamd_packets::PROTOCOL_VERSION,
        max_fps: 60,
        width: 1920,
        height: 1080,
        preferred_codecs: vec![Codec::H264, Codec::Hevc],
        display_id: None,
    });
    let bytes = streamd_control::encode_msg(&request);
    assert_eq!(
        bytes,
        vec![13, 0, 0, 0, 2, 2, 60, 251, 128, 7, 251, 56, 4, 2, 0, 1, 0]
    );
    let (decoded, consumed) = streamd_control::decode_msg(&bytes).expect("decodes");
    assert_eq!(consumed, bytes.len());
    assert_eq!(format!("{decoded:?}"), format!("{request:?}"));

    let telemetry = streamd_packets::ControlMsg::Heartbeat(streamd_packets::ServerTelemetry {
        avg_encode_us: 1_000_000,
        send_queue_frames: 3,
        idr_count: 255,
    });
    let (decoded, _) =
        streamd_control::decode_msg(&streamd_control::encode_msg(&telemetry)).expect("decodes");
    assert_eq!(format!("{decoded:?}"), format!("{telemetry:?}"));
}
