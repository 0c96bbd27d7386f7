use streamd::streamd_client::control::{
    session_request, take_control_msg, take_cursor_datagram, ClientOptions, ConnectError,
    ControlStep, Handshake, HandshakeStep,
};
use streamd::streamd_client::cursor::RemoteCursorStore;
use streamd::streamd_proto::control::encode_cursor_datagram;
use streamd::streamd_proto::packets::{
    Codec, ControlMsg, DisplayInfo, RemoteCursorState, ServerTelemetry, SessionReject,
    SessionRequest, PROTOCOL_VERSION,
};
use streamd::streamd_server::control::{
    answer_request, negotiate_codec, resolve_display, ServerEvent, ServerSession, ServerTask,
};

fn display(id: &str, width: u32, height: u32) -> DisplayInfo {
    DisplayInfo {
        id: id.into(),
        index: 0,
        name: "DP-3".into(),
        description: None,
        width,
        height,
    }
}

fn request() -> SessionRequest {
    SessionRequest {
        version: PROTOCOL_VERSION,
        max_fps: 60,
        width: 1920,
        height: 1080,
        preferred_codecs: vec![Codec::H264, Codec::Hevc],
        display_id: None,
    }
}

fn reject_reason(reply: Option<ControlMsg>) -> String {
    match reply {
        Some(ControlMsg::SessionReject(reject)) => reject.reason,
        other => panic!("unexpected reply: {other:?}"),
    }
}

#[test]
fn codecs_are_negotiated_in_order() {
    let mut req = request();
    req.preferred_codecs = vec![Codec::Av1, Codec::Hevc, Codec::H264];
    assert_eq!(negotiate_codec(&req), Codec::Hevc);
    req.preferred_codecs = vec![Codec::Av1];
    assert_eq!(negotiate_codec(&req), Codec::H264);
    req.preferred_codecs = vec![];
    assert_eq!(negotiate_codec(&req), Codec::H264);
}

#[test]
fn displays_are_resolved_by_identifier() {
    let displays = vec![display("wayland:1", 1, 1), display("wayland:2", 2, 2)];
    assert_eq!(resolve_display(&displays, &None).expect("first").id, "wayland:1");
    assert_eq!(
        resolve_display(&displays, &Some("wayland:2".into())).expect("second").id,
        "wayland:2"
    );
    assert_eq!(
        resolve_display(&displays, &Some("wayland:3".into())).expect_err("none"),
        "requested display \"wayland:3\" is not available"
    );
    assert_eq!(
        resolve_display(&vec![], &None).expect_err("none"),
        "the server did not expose any capture displays"
    );
}

#[test]
fn granted_sessions_are_within_bounds() {
    let listed = Ok(vec![display("a", 0, 0)]);
    let mut req = request();
    req.max_fps = 0;
    req.width = 1;
    req.height = 1;
    let accept = answer_request(&req, &listed).expect("granted");
    assert_eq!((accept.fps, accept.width, accept.height), (1, 640, 480));
    assert_eq!((accept.video_udp_port, accept.client_video_udp_port), (9001, 9001));
    req.max_fps = 240;
    req.width = u32::MAX;
    req.height = u32::MAX;
    let accept = answer_request(&req, &listed).expect("granted");
    assert_eq!((accept.fps, accept.width, accept.height), (120, 7680, 4320));
    let accept = answer_request(&req, &Ok(vec![display("a", 10, 20)])).expect("granted");
    assert_eq!((accept.width, accept.height), (10, 20));
    assert_eq!(
        answer_request(&req, &Err("no compositor".into())).expect_err("refused"),
        "display enumeration failed: enumerate displays for session: no compositor"
    );
}

#[test]
fn a_session_runs_from_query_to_goodbye() {
    let mut session = ServerSession::new();
    let step = session.step(ServerEvent::Received(ControlMsg::QueryDisplays));
    assert_eq!(step.task, ServerTask::ListDisplays);
    assert!(step.reply.is_none());
    let step = session.step(ServerEvent::Displays(Ok(vec![display("a", 10, 20)])));
    assert_eq!(step.task, ServerTask::Wait);
    assert!(matches!(step.reply, Some(ControlMsg::AvailableDisplays(d)) if d.len() == 1));
    let step = session.step(ServerEvent::Received(ControlMsg::SessionRequest(request())));
    assert_eq!(step.task, ServerTask::ListDisplays);
    let step = session.step(ServerEvent::Displays(Ok(vec![display("a", 10, 20)])));
    assert_eq!(step.task, ServerTask::StartPipeline);
    assert!(matches!(step.reply, Some(ControlMsg::SessionAccept(a)) if a.width == 10));
    let step = session.step(ServerEvent::Received(ControlMsg::RequestIdr));
    assert_eq!(step.task, ServerTask::RequestIdr);
    let telemetry = ServerTelemetry {
        avg_encode_us: 1,
        send_queue_frames: 2,
        idr_count: 3,
    };
    let step = session.step(ServerEvent::Telemetry(Some(telemetry)));
    assert!(matches!(step.reply, Some(ControlMsg::Heartbeat(t)) if t == telemetry));
    let step = session.step(ServerEvent::Telemetry(None));
    assert!(step.reply.is_none());
    let step = session.step(ServerEvent::Received(ControlMsg::QueryDisplays));
    assert_eq!(step.task, ServerTask::Wait);
    let step = session.step(ServerEvent::Received(ControlMsg::Goodbye));
    assert_eq!(step.task, ServerTask::Finish);
    let step = session.step(ServerEvent::Received(ControlMsg::RequestIdr));
    assert_eq!(step.task, ServerTask::Wait);
}

#[test]
fn refused_requests_are_answered() {
    let mut req = request();
    req.version = 1;
    let step = ServerSession::new().step(ServerEvent::Received(ControlMsg::SessionRequest(req)));
    assert_eq!(step.task, ServerTask::Abort);
    assert_eq!(reject_reason(step.reply), "version mismatch: client=1 server=2");

    let step = ServerSession::new().step(ServerEvent::Received(ControlMsg::RequestIdr));
    assert_eq!(step.task, ServerTask::Abort);
    assert_eq!(
        reject_reason(step.reply),
        "expected QueryDisplays or SessionRequest"
    );

    let mut session = ServerSession::new();
    session.step(ServerEvent::Received(ControlMsg::QueryDisplays));
    let step = session.step(ServerEvent::Displays(Err("gone".into())));
    assert_eq!(
        reject_reason(step.reply),
        "display enumeration failed: enumerate displays: gone"
    );

    let mut session = ServerSession::new();
    session.step(ServerEvent::Received(ControlMsg::SessionRequest(request())));
    let step = session.step(ServerEvent::Displays(Ok(vec![])));
    assert_eq!(
        reject_reason(step.reply),
        "the server did not expose any capture displays"
    );
}

#[test]
fn clients_may_leave_at_any_time() {
    let step = ServerSession::new().step(ServerEvent::Received(ControlMsg::Goodbye));
    assert_eq!(step.task, ServerTask::Finish);
    let step = ServerSession::new().step(ServerEvent::ReadFailed);
    assert_eq!(step.task, ServerTask::Abort);
    assert!(step.reply.is_none());
    let mut session = ServerSession::new();
    session.step(ServerEvent::Received(ControlMsg::SessionRequest(request())));
    session.step(ServerEvent::Displays(Ok(vec![display("a", 1, 1)])));
    assert_eq!(session.step(ServerEvent::ReadFailed).task, ServerTask::Finish);
}

#[test]
fn a_client_gets_its_session() {
    let displays = vec![display("wayland:67", 0, 0), display("wayland:68", 3840, 2160)];
    let options = ClientOptions {
        display_selector: Some("wayland:68".into()),
        list_displays: false,
    };
    let mut server = ServerSession::new();
    let (mut client, first) = Handshake::begin();
    server.step(ServerEvent::Received(first));
    let told = server.step(ServerEvent::Displays(Ok(displays.clone())));
    let asked = match client.step(&options, told.reply.expect("displays")) {
        HandshakeStep::Send(msg) => msg,
        other => panic!("unexpected step: {other:?}"),
    };
    server.step(ServerEvent::Received(asked));
    let opened = server.step(ServerEvent::Displays(Ok(displays)));
    match client.step(&options, opened.reply.expect("answer")) {
        HandshakeStep::Run(accept) => {
            assert_eq!(accept.selected_display.id, "wayland:68");
            assert_eq!((accept.width, accept.height, accept.fps), (3840, 2160, 60));
            assert_eq!(accept.codec, Codec::H264);
        }
        other => panic!("unexpected step: {other:?}"),
    }
}

#[test]
fn client_handshakes_fail_with_a_reason() {
    let options = ClientOptions {
        display_selector: None,
        list_displays: false,
    };
    let reject = || {
        ControlMsg::SessionReject(SessionReject {
            reason: "busy".into(),
        })
    };
    let (mut client, _) = Handshake::begin();
    assert!(matches!(
        client.step(&options, reject()),
        HandshakeStep::Fail(ConnectError::QueryRejected(r)) if r == "busy"
    ));
    assert!(matches!(client.step(&options, reject()), HandshakeStep::Ignore));

    let (mut client, _) = Handshake::begin();
    assert!(matches!(
        client.step(&options, ControlMsg::Goodbye),
        HandshakeStep::Fail(ConnectError::UnexpectedDisplays(ControlMsg::Goodbye))
    ));

    let (mut client, _) = Handshake::begin();
    assert!(matches!(
        client.step(&options, ControlMsg::AvailableDisplays(vec![])),
        HandshakeStep::Fail(ConnectError::NoDisplay(_))
    ));

    let (mut client, _) = Handshake::begin();
    client.step(&options, ControlMsg::AvailableDisplays(vec![display("a", 1, 1)]));
    assert!(matches!(
        client.step(&options, reject()),
        HandshakeStep::Fail(ConnectError::SessionRejected(r)) if r == "busy"
    ));

    let (mut client, _) = Handshake::begin();
    client.step(&options, ControlMsg::AvailableDisplays(vec![display("a", 1, 1)]));
    assert!(matches!(
        client.step(&options, ControlMsg::QueryDisplays),
        HandshakeStep::Fail(ConnectError::UnexpectedSession(ControlMsg::QueryDisplays))
    ));

    let listing = ClientOptions {
        display_selector: None,
        list_displays: true,
    };
    let (mut client, _) = Handshake::begin();
    assert!(matches!(
        client.step(&listing, ControlMsg::AvailableDisplays(vec![display("a", 1, 1)])),
        HandshakeStep::List(d) if d.len() == 1
    ));
}

#[test]
fn session_requests_ask_for_sixty_frames() {
    let req = session_request(&display("a", 0, 720));
    assert_eq!(req.version, 2);
    assert_eq!(req.max_fps, 60);
    assert_eq!((req.width, req.height), (1920, 720));
    assert_eq!(req.preferred_codecs, vec![Codec::H264, Codec::Hevc]);
    assert_eq!(req.display_id.as_deref(), Some("a"));
}

#[test]
fn running_clients_take_reports_and_cursor_states() {
    let t = ServerTelemetry {
        avg_encode_us: 5,
        send_queue_frames: 0,
        idr_count: 0,
    };
    assert_eq!(
        take_control_msg(&Some(ControlMsg::Heartbeat(t))),
        ControlStep::Report(t)
    );
    assert_eq!(take_control_msg(&Some(ControlMsg::Goodbye)), ControlStep::Stop);
    assert_eq!(
        take_control_msg(&Some(ControlMsg::RequestIdr)),
        ControlStep::Unexpected
    );
    assert_eq!(take_control_msg(&None), ControlStep::Stop);

    let mut cursors = RemoteCursorStore::default();
    let state = RemoteCursorState {
        timestamp_us: 10,
        generation: 0,
        visible: true,
        x: 1,
        y: 2,
    };
    assert!(take_cursor_datagram(&mut cursors, &encode_cursor_datagram(&state)));
    assert!(!take_cursor_datagram(&mut cursors, &[9, 9]));
    assert_eq!(cursors.snapshot_for(10).expect("shown").state, state);
}
