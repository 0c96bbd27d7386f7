//! QUIC control channel: session handshake, IDR requests, heartbeats.
//!
//! The client keeps one logical session alive across transport reconnects. A
//! `Handshake` leads to each connection, a `DatagramDispatcher` and a few
//! functions serve it, and a `Supervisor` replaces it when it drops.

use crate::displays::{requested_size, select_display, selection, size_to_request};
use crate::framing::{content, framed, unframed, untagged};
use crate::streamd_client::cursor::{CursorStoreView, RemoteCursorStore};
use crate::wire::Wire;
use crate::yang::options::{ClientOptions, ClientOptionsView};
use crate::yang::telemetry::ClientTelemetryAccumulator;
use crate::yang::video_rx::{
    push_result, DecodedFrame, PushOutcome, ReassemblerStats, ReassemblerView, ReassemblyLoss,
    VideoFrameReassembler,
};
use crate::yin_yang_proto::control::{
    decode_cursor_datagram, encode_input_datagram, input_datagram_round_trip, DATAGRAM_TAG_CURSOR,
    DATAGRAM_TAG_INPUT, DATAGRAM_TAG_VIDEO,
};
use crate::yin_yang_proto::input::{encode_packet, input_packet_round_trip};
use crate::yin_yang_proto::packets::{
    display_views, Codec, ControlMsg, ControlMsgView, DisplayInfo, DisplayInfoView, InputEvent,
    InputPacket, RemoteCursorShapeView, RemoteCursorState, ServerTelemetry, SessionAccept, SessionAcceptView,
    SessionRequest, SessionRequestView, PROTOCOL_VERSION,
};
use bytes::Bytes;
use vstd::prelude::*;
use vstd::slice::slice_subrange;

verus! {

// ---------------------------------------------------------------------------
// Handshake
// ---------------------------------------------------------------------------

/// The session to request on a display.
pub open spec fn request_for(options: ClientOptionsView, display: DisplayInfoView) -> SessionRequestView {
    SessionRequestView {
        version: PROTOCOL_VERSION,
        client_session_id: options.client_session_id,
        adaptive_streaming: options.adaptive_streaming,
        max_fps: options.max_fps,
        min_fps: options.min_fps,
        min_bitrate_bps: options.min_bitrate_bps,
        max_bitrate_bps: options.max_bitrate_bps,
        width: requested_size(display).0,
        height: requested_size(display).1,
        preferred_codecs: seq![Codec::H264, Codec::Hevc],
        display_id: Some(display.id),
    }
}

/// The session to request on a display.
pub fn session_request(options: &ClientOptions, display: &DisplayInfo) -> (r: SessionRequest)
    ensures
        r@ == request_for(options@, display@),
{
    let (width, height) = size_to_request(display);
    let mut preferred_codecs: Vec<Codec> = Vec::new();
    preferred_codecs.push(Codec::H264);
    preferred_codecs.push(Codec::Hevc);
    assert(preferred_codecs@ =~= seq![Codec::H264, Codec::Hevc]);
    SessionRequest {
        version: PROTOCOL_VERSION,
        client_session_id: options.client_session_id.clone(),
        adaptive_streaming: options.adaptive_streaming,
        max_fps: options.max_fps,
        min_fps: options.min_fps,
        min_bitrate_bps: options.min_bitrate_bps,
        max_bitrate_bps: options.max_bitrate_bps,
        width,
        height,
        preferred_codecs,
        display_id: Some(display.id.clone()),
    }
}

/// Why no session came about.
#[derive(Debug)]
pub enum ConnectError {
    /// The server rejected the display query, for this reason.
    QueryRejected(String),
    /// The reply to the display query was another message.
    UnexpectedDisplays(ControlMsg),
    /// No display is selected, for this reason.
    NoDisplay(String),
    /// The server rejected the session, for this reason.
    SessionRejected(String),
    /// The reply to the session request was another message.
    UnexpectedSession(ControlMsg),
}

pub enum ConnectErrorView {
    QueryRejected(Seq<char>),
    UnexpectedDisplays(ControlMsgView),
    NoDisplay(Seq<char>),
    SessionRejected(Seq<char>),
    UnexpectedSession(ControlMsgView),
}

impl View for ConnectError {
    type V = ConnectErrorView;

    open spec fn view(&self) -> ConnectErrorView {
        match self {
            ConnectError::QueryRejected(reason) => ConnectErrorView::QueryRejected(reason@),
            ConnectError::UnexpectedDisplays(msg) => ConnectErrorView::UnexpectedDisplays(msg@),
            ConnectError::NoDisplay(reason) => ConnectErrorView::NoDisplay(reason@),
            ConnectError::SessionRejected(reason) => ConnectErrorView::SessionRejected(reason@),
            ConnectError::UnexpectedSession(msg) => ConnectErrorView::UnexpectedSession(msg@),
        }
    }
}

#[derive(Clone, Copy, Debug, PartialEq, Eq, Structural)]
pub enum HandshakeStage {
    AwaitingDisplays,
    AwaitingSession,
    Over,
}

/// What follows a message of the server.
#[derive(Debug)]
pub enum HandshakeStep {
    /// Send this, and read the reply.
    Send(ControlMsg),
    /// List these displays, say goodbye and close the connection.
    List(Vec<DisplayInfo>),
    /// Run the session.
    Run(SessionAccept),
    /// Close the connection.
    Fail(ConnectError),
    /// The message is none of the handshake.
    Ignore,
}

pub enum HandshakeStepView {
    Send(ControlMsgView),
    List(Seq<DisplayInfoView>),
    Run(SessionAcceptView),
    Fail(ConnectErrorView),
    Ignore,
}

impl View for HandshakeStep {
    type V = HandshakeStepView;

    open spec fn view(&self) -> HandshakeStepView {
        match self {
            HandshakeStep::Send(msg) => HandshakeStepView::Send(msg@),
            HandshakeStep::List(displays) => HandshakeStepView::List(display_views(displays@)),
            HandshakeStep::Run(accept) => HandshakeStepView::Run(accept@),
            HandshakeStep::Fail(error) => HandshakeStepView::Fail(error@),
            HandshakeStep::Ignore => HandshakeStepView::Ignore,
        }
    }
}

/// The handshake after a message of the server: the displays are asked for first,
/// then a session on the selected one.
pub open spec fn handshake(
    options: ClientOptionsView,
    stage: HandshakeStage,
    msg: ControlMsgView,
) -> (HandshakeStage, HandshakeStepView) {
    match stage {
        HandshakeStage::AwaitingDisplays => match msg {
            ControlMsgView::AvailableDisplays(displays) => if options.list_displays {
                (HandshakeStage::Over, HandshakeStepView::List(displays))
            } else {
                match selection(displays, options.display_selector) {
                    Ok(display) => (
                        HandshakeStage::AwaitingSession,
                        HandshakeStepView::Send(
                            ControlMsgView::SessionRequest(request_for(options, display)),
                        ),
                    ),
                    Err(reason) => (
                        HandshakeStage::Over,
                        HandshakeStepView::Fail(ConnectErrorView::NoDisplay(reason)),
                    ),
                }
            },
            ControlMsgView::SessionReject(reason) => (
                HandshakeStage::Over,
                HandshakeStepView::Fail(ConnectErrorView::QueryRejected(reason)),
            ),
            _ => (
                HandshakeStage::Over,
                HandshakeStepView::Fail(ConnectErrorView::UnexpectedDisplays(msg)),
            ),
        },
        HandshakeStage::AwaitingSession => match msg {
            ControlMsgView::SessionAccept(accept) => (
                HandshakeStage::Over,
                HandshakeStepView::Run(accept),
            ),
            ControlMsgView::SessionReject(reason) => (
                HandshakeStage::Over,
                HandshakeStepView::Fail(ConnectErrorView::SessionRejected(reason)),
            ),
            _ => (
                HandshakeStage::Over,
                HandshakeStepView::Fail(ConnectErrorView::UnexpectedSession(msg)),
            ),
        },
        HandshakeStage::Over => (stage, HandshakeStepView::Ignore),
    }
}

/// The handshake that leads to a session.
#[derive(Debug)]
pub struct Handshake {
    pub stage: HandshakeStage,
}

impl Handshake {
    /// Begins with the message to send first.
    pub fn begin() -> (r: (Handshake, ControlMsg))
        ensures
            r.0.stage == HandshakeStage::AwaitingDisplays,
            r.1@ == ControlMsgView::QueryDisplays,
    {
        (Handshake { stage: HandshakeStage::AwaitingDisplays }, ControlMsg::QueryDisplays)
    }

    /// Takes the next message of the server.
    pub fn step(&mut self, options: &ClientOptions, msg: ControlMsg) -> (r: HandshakeStep)
        ensures
            (final(self).stage, r@) == handshake(options@, old(self).stage, msg@),
    {
        match self.stage {
            HandshakeStage::AwaitingDisplays => {
                self.stage = HandshakeStage::Over;
                match msg {
                    ControlMsg::AvailableDisplays(displays) => {
                        if options.list_displays {
                            return HandshakeStep::List(displays);
                        }
                        match select_display(&displays, &options.display_selector) {
                            Ok(display) => {
                                self.stage = HandshakeStage::AwaitingSession;
                                HandshakeStep::Send(
                                    ControlMsg::SessionRequest(session_request(options, &display)),
                                )
                            },
                            Err(reason) => HandshakeStep::Fail(ConnectError::NoDisplay(reason)),
                        }
                    },
                    ControlMsg::SessionReject(reject) => HandshakeStep::Fail(
                        ConnectError::QueryRejected(reject.reason),
                    ),
                    other => HandshakeStep::Fail(ConnectError::UnexpectedDisplays(other)),
                }
            },
            HandshakeStage::AwaitingSession => {
                self.stage = HandshakeStage::Over;
                match msg {
                    ControlMsg::SessionAccept(accept) => HandshakeStep::Run(accept),
                    ControlMsg::SessionReject(reject) => HandshakeStep::Fail(
                        ConnectError::SessionRejected(reject.reason),
                    ),
                    other => HandshakeStep::Fail(ConnectError::UnexpectedSession(other)),
                }
            },
            HandshakeStage::Over => HandshakeStep::Ignore,
        }
    }
}

// ---------------------------------------------------------------------------
// Losses
// ---------------------------------------------------------------------------

/// Minimum interval between IDR fallback requests, in microseconds.
///
/// `FrameLost` is sent immediately on every loss event to trigger fast ref
/// invalidation. A `RequestIdr` is also sent if this interval has elapsed
/// since the last one, providing a safety net for sustained loss where the
/// entire reference chain is corrupt.
pub const IDR_FALLBACK_MIN_INTERVAL_US: u64 = 250_000;

/// An IDR request is due at `now_us`, when the last one was sent at `last_us`.
pub open spec fn idr_due(last_us: Option<u64>, now_us: u64) -> bool {
    match last_us {
        Some(last) => now_us - last >= IDR_FALLBACK_MIN_INTERVAL_US,
        None => true,
    }
}

/// The messages that report a loss.
pub open spec fn loss_report(loss: ReassemblyLoss, last_us: Option<u64>, now_us: u64) -> Seq<
    ControlMsgView,
> {
    if idr_due(last_us, now_us) {
        seq![ControlMsgView::FrameLost(loss.frame_seq), ControlMsgView::RequestIdr]
    } else {
        seq![ControlMsgView::FrameLost(loss.frame_seq)]
    }
}

/// The contents of a list of messages.
pub open spec fn msg_views(msgs: Seq<ControlMsg>) -> Seq<ControlMsgView> {
    msgs.map_values(|m: ControlMsg| m@)
}

/// Reports unrecoverable frame loss to the server.
///
/// **Fast path:** `FrameLost(frame_seq)` is sent immediately for every loss
/// event. For isolated losses (one or two frames) this allows recovery in a
/// single frame without an IDR.
///
/// **Fallback path:** If `IDR_FALLBACK_MIN_INTERVAL_US` has elapsed since the
/// last `RequestIdr`, one is sent as well.
pub fn report_frame_loss(loss: ReassemblyLoss, last_idr_us: &mut Option<u64>, now_us: u64) -> (r: Vec<
    ControlMsg,
>)
    ensures
        msg_views(r@) == loss_report(loss, *old(last_idr_us), now_us),
        *final(last_idr_us) == if idr_due(*old(last_idr_us), now_us) {
            Some(now_us)
        } else {
            *old(last_idr_us)
        },
{
    let mut r: Vec<ControlMsg> = Vec::new();
    let lost = ControlMsg::FrameLost(loss.frame_seq);
    r.push(lost);
    let due = match *last_idr_us {
        Some(last) => now_us >= last && now_us - last >= IDR_FALLBACK_MIN_INTERVAL_US,
        None => true,
    };
    if due {
        let request = ControlMsg::RequestIdr;
        r.push(request);
        *last_idr_us = Some(now_us);
    }
    assert(msg_views(r@) =~= loss_report(loss, *old(last_idr_us), now_us));
    r
}

/// Every loss is reported at once, and the requests for a keyframe that go with
/// the reports are never closer than the interval: right after one was sent, none
/// is due before that time has passed.
pub proof fn idr_requests_keep_their_distance(
    loss: ReassemblyLoss,
    last_us: Option<u64>,
    now_us: u64,
    later_us: u64,
)
    ensures
        loss_report(loss, last_us, now_us)[0] == ControlMsgView::FrameLost(loss.frame_seq),
        now_us <= later_us ==> (idr_due(Some(now_us), later_us) <==> later_us
            >= now_us + IDR_FALLBACK_MIN_INTERVAL_US),
{
}

// ---------------------------------------------------------------------------
// Datagrams
// ---------------------------------------------------------------------------

#[verifier::ext_equal]
pub struct DispatcherView {
    pub reassembler: ReassemblerView,
    /// The statistics of the reassembler.
    pub statistics: ReassemblerStats,
    /// When the last IDR was requested.
    pub last_idr_us: Option<u64>,
}

/// Dispatches the datagrams of a connection by type tag.
#[derive(Debug)]
pub struct DatagramDispatcher {
    reassembler: VideoFrameReassembler,
    last_idr_us: Option<u64>,
}

impl View for DatagramDispatcher {
    type V = DispatcherView;

    closed spec fn view(&self) -> DispatcherView {
        DispatcherView {
            reassembler: self.reassembler@,
            statistics: self.reassembler.statistics(),
            last_idr_us: self.last_idr_us,
        }
    }
}

/// What a datagram leads to.
#[derive(Debug)]
pub struct DatagramResult {
    /// The messages to send to the server.
    pub messages: Vec<ControlMsg>,
    /// The frame to decode.
    pub frame: Option<DecodedFrame>,
}

/// The counts with the outcome of a datagram.
pub open spec fn counted(
    telemetry: ClientTelemetryAccumulator,
    outcome: PushOutcome,
) -> ClientTelemetryAccumulator {
    let lost = match outcome.loss {
        Some(loss) => telemetry.with_reassembly(
            if loss.dropped_frames > u32::MAX {
                u32::MAX
            } else {
                loss.dropped_frames as u32
            },
            0,
            false,
        ),
        None => telemetry,
    };
    if outcome.recovered_fragments > 0 || outcome.recovered_frame {
        lost.with_reassembly(0, outcome.recovered_fragments as u32, outcome.recovered_frame)
    } else {
        lost
    }
}

/// What follows from the outcome of a video datagram.
pub open spec fn outcome_taken(
    before: DispatcherView,
    after: DispatcherView,
    now_us: u64,
    outcome: PushOutcome,
    result: DatagramResult,
) -> bool {
    &&& result.frame == outcome.frame
    &&& after.statistics == before.statistics.counting(outcome)
    &&& match outcome.loss {
        Some(loss) => {
            &&& msg_views(result.messages@) == loss_report(loss, before.last_idr_us, now_us)
            &&& after.last_idr_us == if idr_due(before.last_idr_us, now_us) {
                Some(now_us)
            } else {
                before.last_idr_us
            }
        },
        None => {
            &&& result.messages@.len() == 0
            &&& after.last_idr_us == before.last_idr_us
        },
    }
}

/// What a datagram does. Video fragments go to the reassembler, cursor states to
/// the cursor store, and all else is passed over.
pub open spec fn dispatched(
    before: DispatcherView,
    telemetry: ClientTelemetryAccumulator,
    cursors: CursorStoreView,
    bytes: Seq<u8>,
    received_at_us: u64,
    now_us: u64,
    after: DispatcherView,
    telemetry_after: ClientTelemetryAccumulator,
    cursors_after: CursorStoreView,
    result: DatagramResult,
) -> bool {
    if bytes.len() > 0 && bytes[0] == DATAGRAM_TAG_VIDEO {
        &&& cursors_after == cursors
        &&& exists|outcome: PushOutcome|
            {
                &&& #[trigger] push_result(
                    before.reassembler,
                    bytes.skip(1),
                    received_at_us,
                    after.reassembler,
                    outcome,
                )
                &&& telemetry_after == counted(telemetry, outcome)
                &&& outcome_taken(before, after, now_us, outcome, result)
            }
    } else {
        &&& after == before
        &&& telemetry_after == telemetry
        &&& result.messages@.len() == 0
        &&& result.frame is None
        &&& cursors_after == match untagged::<RemoteCursorState>(DATAGRAM_TAG_CURSOR, bytes) {
            Some(state) => cursors.with_state(state),
            None => cursors,
        }
    }
}

impl DatagramDispatcher {
    pub fn new() -> (r: DatagramDispatcher)
        ensures
            r@ == (DispatcherView {
                reassembler: ReassemblerView::fresh(),
                statistics: ReassemblerStats::zero(),
                last_idr_us: None,
            }),
    {
        DatagramDispatcher { reassembler: VideoFrameReassembler::new(), last_idr_us: None }
    }

    /// Takes a datagram that was received at wall-clock time `received_at_us`;
    /// `now_us` is the time by a clock that is never set back.
    pub fn dispatch(
        &mut self,
        bytes: &[u8],
        received_at_us: u64,
        now_us: u64,
        telemetry: &mut ClientTelemetryAccumulator,
        cursors: &mut RemoteCursorStore,
    ) -> (r: DatagramResult)
        requires
            old(cursors)@.wf(),
        ensures
            dispatched(
                old(self)@,
                *old(telemetry),
                old(cursors)@,
                bytes@,
                received_at_us,
                now_us,
                final(self)@,
                *final(telemetry),
                final(cursors)@,
                r,
            ),
            final(cursors)@.wf(),
    {
        if bytes.len() == 0 || bytes[0] != DATAGRAM_TAG_VIDEO {
            if let Some(state) = decode_cursor_datagram(bytes) {
                cursors.apply_state(state);
            }
            return DatagramResult { messages: Vec::new(), frame: None };
        }
        let ghost before = self@;
        let ghost counts = *telemetry;
        let packet = slice_subrange(bytes, 1, bytes.len());
        assert(packet@ =~= bytes@.skip(1));
        let outcome = self.reassembler.push_datagram_at(packet, received_at_us);
        let ghost whole = outcome;
        let mut messages: Vec<ControlMsg> = Vec::new();
        if let Some(loss) = outcome.loss {
            let dropped: u32 = if loss.dropped_frames as u64 > u32::MAX as u64 {
                u32::MAX
            } else {
                loss.dropped_frames as u32
            };
            telemetry.record_reassembly(dropped, 0, false);
            messages = report_frame_loss(loss, &mut self.last_idr_us, now_us);
        }
        if outcome.recovered_fragments > 0 || outcome.recovered_frame {
            telemetry.record_reassembly(
                0,
                outcome.recovered_fragments as u32,
                outcome.recovered_frame,
            );
        }
        let result = DatagramResult { messages, frame: outcome.frame };
        assert(*telemetry == counted(counts, whole));
        assert(outcome_taken(before, self@, now_us, whole, result));
        result
    }

    /// Hands out the statistics of the reassembler once a second has passed, and
    /// starts again from zero.
    pub fn take_stats(&mut self, elapsed_us: u64) -> (r: Option<ReassemblerStats>)
        ensures
            elapsed_us < 1_000_000 ==> r is None && final(self)@ == old(self)@,
            elapsed_us >= 1_000_000 ==> r == Some(old(self)@.statistics) && final(self)@
                == (DispatcherView { statistics: ReassemblerStats::zero(), ..old(self)@ }),
    {
        self.reassembler.take_stats(elapsed_us)
    }
}

// ---------------------------------------------------------------------------
// Messages of a running session
// ---------------------------------------------------------------------------

/// What a message of the server leads to.
#[derive(Clone, Copy, Debug, PartialEq, Eq, Structural)]
pub enum ControlStep {
    /// Read the next one.
    Continue,
    /// The server told of itself; read the next message.
    Report(ServerTelemetry),
    /// The message has no place in a running session; read the next one.
    Unexpected,
    /// The session is over.
    Stop,
}

/// What a message does to the cursor store, and where it leads. The session ends
/// with a goodbye, or when no message can be read.
pub open spec fn control_step(cursors: CursorStoreView, msg: Option<ControlMsgView>) -> (
    CursorStoreView,
    ControlStep,
) {
    match msg {
        None => (cursors, ControlStep::Stop),
        Some(msg) => match msg {
            ControlMsgView::Heartbeat(t) => (cursors, ControlStep::Report(t)),
            ControlMsgView::CursorShape(shape) => (
                cursors.with_shape(shape),
                ControlStep::Continue,
            ),
            ControlMsgView::CursorState(state) => (
                cursors.with_state(state),
                ControlStep::Continue,
            ),
            ControlMsgView::Goodbye => (cursors, ControlStep::Stop),
            _ => (cursors, ControlStep::Unexpected),
        },
    }
}

pub open spec fn opt_msg(msg: Option<ControlMsg>) -> Option<ControlMsgView> {
    match msg {
        Some(m) => Some(m@),
        None => None,
    }
}

/// Takes a message of the server, or that none could be read.
pub fn take_control_msg(cursors: &mut RemoteCursorStore, msg: Option<ControlMsg>) -> (r: ControlStep)
    requires
        old(cursors)@.wf(),
    ensures
        (final(cursors)@, r) == control_step(old(cursors)@, opt_msg(msg)),
        final(cursors)@.wf(),
{
    match msg {
        None => ControlStep::Stop,
        Some(msg) => match msg {
            ControlMsg::Heartbeat(t) => ControlStep::Report(t),
            ControlMsg::CursorShape(shape) => {
                cursors.apply_shape(shape);
                ControlStep::Continue
            },
            ControlMsg::CursorState(state) => {
                cursors.apply_state(state);
                ControlStep::Continue
            },
            ControlMsg::Goodbye => ControlStep::Stop,
            _ => ControlStep::Unexpected,
        },
    }
}

/// Nothing is sent to the server after a goodbye.
pub fn is_last_message(msg: &ControlMsg) -> (r: bool)
    ensures
        r == (msg@ is Goodbye),
{
    match msg {
        ControlMsg::Goodbye => true,
        _ => false,
    }
}

// ---------------------------------------------------------------------------
// Input
// ---------------------------------------------------------------------------

/// The way that an input packet takes to the server.
#[derive(Debug)]
pub enum InputRoute {
    /// As an unreliable datagram.
    Datagram(Bytes),
    /// On the reliable stream.
    Stream(Vec<u8>),
}

/// Mouse moves are sent as unreliable datagrams, so that none stalls the events
/// behind it. Key presses, mouse buttons, and scroll events require reliable
/// ordered delivery.
pub fn route_input(packet: &InputPacket) -> (r: InputRoute)
    ensures
        match packet.event {
            InputEvent::MouseMove { .. } => r matches InputRoute::Datagram(b) && content(b)
                == seq![DATAGRAM_TAG_INPUT] + InputPacket::enc(*packet),
            _ => r matches InputRoute::Stream(bytes) && bytes@ == framed(InputPacket::enc(*packet)),
        },
{
    match packet.event {
        InputEvent::MouseMove { .. } => InputRoute::Datagram(encode_input_datagram(packet)),
        _ => InputRoute::Stream(encode_packet(packet)),
    }
}

/// Whichever way a packet takes, the server reads the packet that was sent.
pub proof fn input_arrives_as_sent(packet: InputPacket, tail: Seq<u8>)
    ensures
        untagged::<InputPacket>(
            DATAGRAM_TAG_INPUT,
            seq![DATAGRAM_TAG_INPUT] + InputPacket::enc(packet),
        ) == Some(packet),
        unframed::<InputPacket>(framed(InputPacket::enc(packet)) + tail) == Some(
            (packet, framed(InputPacket::enc(packet)).len()),
        ),
{
    input_datagram_round_trip(packet);
    input_packet_round_trip(packet, tail);
}

// ---------------------------------------------------------------------------
// Supervision
// ---------------------------------------------------------------------------

/// How long reconnecting is tried for, in milliseconds.
pub const RECONNECT_BUDGET_MS: u64 = 15_000;

/// How long to wait before an attempt to reconnect, in milliseconds: a quarter of
/// a second, then twice as long each time, up to two seconds.
pub open spec fn backoff_ms(attempt: nat) -> nat {
    if attempt == 0 {
        250
    } else if attempt == 1 {
        500
    } else if attempt == 2 {
        1_000
    } else {
        2_000
    }
}

pub fn reconnect_backoff_ms(attempt: u64) -> (r: u64)
    ensures
        r == backoff_ms(attempt as nat),
{
    if attempt == 0 {
        250
    } else if attempt == 1 {
        500
    } else if attempt == 2 {
        1_000
    } else {
        2_000
    }
}

/// Where a supervised session stands.
#[derive(Clone, Copy, Debug, PartialEq, Eq, Structural)]
pub enum Supervision {
    Connected,
    /// The connection dropped and has been closed.
    Dropped,
    /// Waiting before an attempt.
    Waiting { deadline_ms: u64, attempt: u64 },
    /// Making an attempt.
    Connecting { deadline_ms: u64, attempt: u64 },
    Over,
}

/// What happened to it. `shutdown` tells whether the client is shutting down,
/// `now_ms` the time by a clock that is never set back.
#[derive(Clone, Copy, Debug, PartialEq, Eq, Structural)]
pub enum SupervisorEvent {
    /// The client shuts down.
    Shutdown,
    /// The connection dropped.
    Disconnected,
    /// The dropped connection has been closed.
    Closed { shutdown: bool, now_ms: u64 },
    /// The wait is over.
    Waited { shutdown: bool },
    /// The attempt is over.
    Attempted { connected: bool, shutdown: bool, now_ms: u64 },
}

/// What to do about it.
#[derive(Clone, Copy, Debug, PartialEq, Eq, Structural)]
pub enum SupervisorStep {
    /// Serve the connection.
    Serve,
    /// Close the connection, with a goodbye or without.
    Close { graceful: bool },
    /// Wait this long.
    Wait { ms: u64 },
    /// Connect again.
    Connect,
    /// The session is over.
    Finish,
    /// The session is over, and the whole client is to shut down.
    GiveUp,
    /// Nothing.
    Idle,
}

/// The next attempt, if there is time for one.
pub open spec fn next_attempt(deadline_ms: u64, attempt: u64, shutdown: bool, now_ms: u64) -> (
    Supervision,
    SupervisorStep,
) {
    if shutdown || now_ms >= deadline_ms {
        (Supervision::Over, SupervisorStep::GiveUp)
    } else {
        (
            Supervision::Waiting { deadline_ms, attempt },
            SupervisorStep::Wait { ms: backoff_ms(attempt as nat) as u64 },
        )
    }
}

/// The time until which reconnecting is tried.
pub open spec fn deadline(now_ms: u64) -> u64 {
    if now_ms + RECONNECT_BUDGET_MS > u64::MAX {
        u64::MAX
    } else {
        (now_ms + RECONNECT_BUDGET_MS) as u64
    }
}

/// The session after an event, and what to do about it.
pub open spec fn supervise(s: Supervision, event: SupervisorEvent) -> (Supervision, SupervisorStep) {
    match (s, event) {
        (Supervision::Connected, SupervisorEvent::Shutdown) => (
            Supervision::Over,
            SupervisorStep::Close { graceful: true },
        ),
        (Supervision::Connected, SupervisorEvent::Disconnected) => (
            Supervision::Dropped,
            SupervisorStep::Close { graceful: false },
        ),
        (Supervision::Dropped, SupervisorEvent::Closed { shutdown, now_ms }) => if shutdown {
            (Supervision::Over, SupervisorStep::Finish)
        } else {
            next_attempt(deadline(now_ms), 0, false, now_ms)
        },
        (
            Supervision::Waiting { deadline_ms, attempt },
            SupervisorEvent::Waited { shutdown },
        ) => if shutdown {
            (Supervision::Over, SupervisorStep::Finish)
        } else {
            (Supervision::Connecting { deadline_ms, attempt }, SupervisorStep::Connect)
        },
        (
            Supervision::Connecting { deadline_ms, attempt },
            SupervisorEvent::Attempted { connected, shutdown, now_ms },
        ) => if connected {
            (Supervision::Connected, SupervisorStep::Serve)
        } else {
            next_attempt(
                deadline_ms,
                if attempt < u64::MAX {
                    (attempt + 1) as u64
                } else {
                    attempt
                },
                shutdown,
                now_ms,
            )
        },
        _ => (s, SupervisorStep::Idle),
    }
}

/// The supervisor of a session.
#[derive(Debug)]
pub struct Supervisor {
    pub state: Supervision,
}

impl Supervisor {
    /// The supervisor of a session that has just been connected.
    pub fn new() -> (r: Supervisor)
        ensures
            r.state == Supervision::Connected,
    {
        Supervisor { state: Supervision::Connected }
    }

    fn next_attempt(&mut self, deadline_ms: u64, attempt: u64, shutdown: bool, now_ms: u64) -> (r:
        SupervisorStep)
        ensures
            (final(self).state, r) == next_attempt(deadline_ms, attempt, shutdown, now_ms),
    {
        if shutdown || now_ms >= deadline_ms {
            self.state = Supervision::Over;
            SupervisorStep::GiveUp
        } else {
            self.state = Supervision::Waiting { deadline_ms, attempt };
            SupervisorStep::Wait { ms: reconnect_backoff_ms(attempt) }
        }
    }

    /// Takes the next event.
    pub fn step(&mut self, event: SupervisorEvent) -> (r: SupervisorStep)
        ensures
            (final(self).state, r) == supervise(old(self).state, event),
    {
        match (self.state, event) {
            (Supervision::Connected, SupervisorEvent::Shutdown) => {
                self.state = Supervision::Over;
                SupervisorStep::Close { graceful: true }
            },
            (Supervision::Connected, SupervisorEvent::Disconnected) => {
                self.state = Supervision::Dropped;
                SupervisorStep::Close { graceful: false }
            },
            (Supervision::Dropped, SupervisorEvent::Closed { shutdown, now_ms }) => {
                if shutdown {
                    self.state = Supervision::Over;
                    SupervisorStep::Finish
                } else {
                    self.next_attempt(now_ms.saturating_add(RECONNECT_BUDGET_MS), 0, false, now_ms)
                }
            },
            (
                Supervision::Waiting { deadline_ms, attempt },
                SupervisorEvent::Waited { shutdown },
            ) => {
                if shutdown {
                    self.state = Supervision::Over;
                    SupervisorStep::Finish
                } else {
                    self.state = Supervision::Connecting { deadline_ms, attempt };
                    SupervisorStep::Connect
                }
            },
            (
                Supervision::Connecting { deadline_ms, attempt },
                SupervisorEvent::Attempted { connected, shutdown, now_ms },
            ) => {
                if connected {
                    self.state = Supervision::Connected;
                    SupervisorStep::Serve
                } else {
                    self.next_attempt(deadline_ms, attempt.saturating_add(1), shutdown, now_ms)
                }
            },
            _ => SupervisorStep::Idle,
        }
    }
}

/// The code and the reason with which a connection is closed.
pub fn closing_words(graceful: bool) -> (r: (u32, &'static str))
    ensures
        r.0 == if graceful {
            0u32
        } else {
            1u32
        },
        r.1@ == if graceful {
            "client shutdown"@
        } else {
            "connection cleanup"@
        },
{
    if graceful {
        (0, "client shutdown")
    } else {
        (1, "connection cleanup")
    }
}

/// A session that drops is connected again, unless the client shuts down: the
/// first attempt comes a quarter of a second later.
pub proof fn dropped_sessions_are_connected_again(now_ms: u64)
    requires
        now_ms < u64::MAX,
    ensures
        ({
            let (dropped, closing) = supervise(
                Supervision::Connected,
                SupervisorEvent::Disconnected,
            );
            let (waiting, wait) = supervise(
                dropped,
                SupervisorEvent::Closed { shutdown: false, now_ms },
            );
            let (connecting, connect) = supervise(
                waiting,
                SupervisorEvent::Waited { shutdown: false },
            );
            closing == (SupervisorStep::Close { graceful: false }) && wait
                == (SupervisorStep::Wait { ms: 250 }) && connect == SupervisorStep::Connect
        }),
{
}

/// Attempts end with the budget: one that fails at or after the deadline is the
/// last, and one that fails before is followed by another.
pub proof fn attempts_end_with_the_budget(deadline_ms: u64, attempt: u64, now_ms: u64)
    ensures
        ({
            let (after, step) = supervise(
                Supervision::Connecting { deadline_ms, attempt },
                SupervisorEvent::Attempted { connected: false, shutdown: false, now_ms },
            );
            if now_ms >= deadline_ms {
                after == Supervision::Over && step == SupervisorStep::GiveUp
            } else {
                (after matches Supervision::Waiting { deadline_ms: d, .. } && d == deadline_ms) && (
                step matches SupervisorStep::Wait { ms } && 250 <= ms <= 2_000)
            }
        }),
{
}

/// The waits grow from attempt to attempt, up to two seconds.
pub proof fn waits_grow(attempt: nat)
    ensures
        250 <= backoff_ms(attempt) <= backoff_ms(attempt + 1) <= 2_000,
{
}

/// A session that is over stays over.
pub proof fn finished_sessions_stay_finished(event: SupervisorEvent)
    ensures
        supervise(Supervision::Over, event) == (Supervision::Over, SupervisorStep::Idle),
{
}

/// A session is asked for in the current version, with the rates and the identifier of
/// the options, on the display and in its size where that is known, and in H.264 rather
/// than HEVC.
pub proof fn sessions_are_asked_for_as_wished(options: ClientOptionsView, display: DisplayInfoView)
    ensures
        ({
            let req = request_for(options, display);
            &&& req.version == 9
            &&& req.client_session_id == options.client_session_id
            &&& req.adaptive_streaming == options.adaptive_streaming
            &&& req.max_fps == options.max_fps
            &&& req.min_fps == options.min_fps
            &&& req.min_bitrate_bps == options.min_bitrate_bps
            &&& req.max_bitrate_bps == options.max_bitrate_bps
            &&& req.display_id == Some(display.id)
            &&& req.preferred_codecs.len() == 2 && req.preferred_codecs[0] is H264
                && req.preferred_codecs[1] is Hevc
            &&& display.width > 0 ==> req.width == display.width
            &&& display.height > 0 ==> req.height == display.height
            &&& display.width == 0 ==> req.width == 1920
            &&& display.height == 0 ==> req.height == 1080
        }),
{
}

/// The handshake takes each message in its place: the displays first, which are listed
/// where that was wished for and else lead to a request on the selected one; then the
/// session, which is run. A rejection and any other message end it, each with its own
/// error, and afterwards nothing counts.
pub proof fn messages_count_in_their_place(
    options: ClientOptionsView,
    displays: Seq<DisplayInfoView>,
    accept: SessionAcceptView,
    reason: Seq<char>,
    msg: ControlMsgView,
)
    ensures
        options.list_displays ==> handshake(
            options,
            HandshakeStage::AwaitingDisplays,
            ControlMsgView::AvailableDisplays(displays),
        ) == (HandshakeStage::Over, HandshakeStepView::List(displays)),
        !options.list_displays ==> match selection(displays, options.display_selector) {
            Ok(display) => handshake(
                options,
                HandshakeStage::AwaitingDisplays,
                ControlMsgView::AvailableDisplays(displays),
            ) == (
                HandshakeStage::AwaitingSession,
                HandshakeStepView::Send(
                    ControlMsgView::SessionRequest(request_for(options, display)),
                ),
            ),
            Err(why) => handshake(
                options,
                HandshakeStage::AwaitingDisplays,
                ControlMsgView::AvailableDisplays(displays),
            ) == (HandshakeStage::Over, HandshakeStepView::Fail(ConnectErrorView::NoDisplay(why))),
        },
        handshake(
            options,
            HandshakeStage::AwaitingSession,
            ControlMsgView::SessionAccept(accept),
        ) == (HandshakeStage::Over, HandshakeStepView::Run(accept)),
        handshake(
            options,
            HandshakeStage::AwaitingDisplays,
            ControlMsgView::SessionReject(reason),
        ) == (
            HandshakeStage::Over,
            HandshakeStepView::Fail(ConnectErrorView::QueryRejected(reason)),
        ),
        handshake(
            options,
            HandshakeStage::AwaitingSession,
            ControlMsgView::SessionReject(reason),
        ) == (
            HandshakeStage::Over,
            HandshakeStepView::Fail(ConnectErrorView::SessionRejected(reason)),
        ),
        !(msg is AvailableDisplays) && !(msg is SessionReject) ==> handshake(
            options,
            HandshakeStage::AwaitingDisplays,
            msg,
        ) == (
            HandshakeStage::Over,
            HandshakeStepView::Fail(ConnectErrorView::UnexpectedDisplays(msg)),
        ),
        !(msg is SessionAccept) && !(msg is SessionReject) ==> handshake(
            options,
            HandshakeStage::AwaitingSession,
            msg,
        ) == (
            HandshakeStage::Over,
            HandshakeStepView::Fail(ConnectErrorView::UnexpectedSession(msg)),
        ),
        handshake(options, HandshakeStage::Over, msg) == (
            HandshakeStage::Over,
            HandshakeStepView::Ignore,
        ),
{
}

/// A loss is reported by the number of the lost frame, and a keyframe is asked for right
/// behind it if none was asked for in the last quarter of a second.
pub proof fn losses_are_reported(loss: ReassemblyLoss, last_us: Option<u64>, now_us: u64)
    ensures
        ({
            let report = loss_report(loss, last_us, now_us);
            &&& 1 <= report.len() <= 2
            &&& report[0] == ControlMsgView::FrameLost(loss.frame_seq)
            &&& report.len() == 2 <==> (last_us matches Some(last) ==> now_us >= last + 250_000)
            &&& report.len() == 2 ==> report[1] == ControlMsgView::RequestIdr
        }),
{
}

/// What a datagram brought is added to the counts: the frames that were lost, and the
/// fragments and the frame that were recovered. The renderer's counts stay.
pub proof fn outcomes_are_counted(telemetry: ClientTelemetryAccumulator, outcome: PushOutcome)
    requires
        telemetry.unrecoverable_frames + (match outcome.loss {
            Some(loss) => loss.dropped_frames as nat,
            None => 0,
        }) <= u32::MAX,
        telemetry.recovered_fragments + outcome.recovered_fragments <= u32::MAX,
        telemetry.recovered_frames < u32::MAX,
    ensures
        ({
            let after = counted(telemetry, outcome);
            &&& after.unrecoverable_frames == telemetry.unrecoverable_frames + (match outcome.loss {
                Some(loss) => loss.dropped_frames as nat,
                None => 0,
            })
            &&& after.recovered_fragments == telemetry.recovered_fragments
                + outcome.recovered_fragments
            &&& after.recovered_frames == telemetry.recovered_frames + if outcome.recovered_frame {
                1nat
            } else {
                0nat
            }
            &&& after.presented_frames == telemetry.presented_frames
            &&& after.render_dropped_frames == telemetry.render_dropped_frames
            &&& after.total_decode_queue_us == telemetry.total_decode_queue_us
            &&& after.total_render_queue_us == telemetry.total_render_queue_us
        }),
{
}

/// A datagram counts by its first byte. One that begins with 2 goes to the reassembler
/// and leaves the cursor alone; one that begins with 1 can only move the cursor; any
/// other, and an empty one, changes nothing.
pub proof fn datagrams_go_by_their_first_byte(
    before: DispatcherView,
    telemetry: ClientTelemetryAccumulator,
    cursors: CursorStoreView,
    bytes: Seq<u8>,
    received_at_us: u64,
    now_us: u64,
    after: DispatcherView,
    telemetry_after: ClientTelemetryAccumulator,
    cursors_after: CursorStoreView,
    result: DatagramResult,
)
    requires
        dispatched(
            before,
            telemetry,
            cursors,
            bytes,
            received_at_us,
            now_us,
            after,
            telemetry_after,
            cursors_after,
            result,
        ),
    ensures
        bytes.len() == 0 || bytes[0] != 2 ==> after == before && telemetry_after == telemetry
            && result.frame is None && result.messages@.len() == 0,
        bytes.len() == 0 || bytes[0] != 1 ==> cursors_after == cursors,
        bytes.len() > 0 && bytes[0] == 1 ==> match RemoteCursorState::dec(bytes.skip(1)) {
            Some((state, _)) => cursors_after == cursors.with_state(state),
            None => cursors_after == cursors,
        },
        bytes.len() > 0 && bytes[0] == 2 ==> exists|outcome: PushOutcome|
            {
                &&& #[trigger] push_result(
                    before.reassembler,
                    bytes.skip(1),
                    received_at_us,
                    after.reassembler,
                    outcome,
                )
                &&& result.frame == outcome.frame
                &&& outcome.loss is None <==> result.messages@.len() == 0
                &&& outcome.loss matches Some(loss) ==> msg_views(result.messages@)[0]
                    == ControlMsgView::FrameLost(loss.frame_seq)
                &&& after.last_idr_us == if result.messages@.len() == 2 {
                    Some(now_us)
                } else {
                    before.last_idr_us
                }
            },
{
    if bytes.len() > 0 && bytes[0] == 2 {
        let outcome = choose|outcome: PushOutcome|
            {
                &&& #[trigger] push_result(
                    before.reassembler,
                    bytes.skip(1),
                    received_at_us,
                    after.reassembler,
                    outcome,
                )
                &&& telemetry_after == counted(telemetry, outcome)
                &&& outcome_taken(before, after, now_us, outcome, result)
            };
        assert(push_result(
            before.reassembler,
            bytes.skip(1),
            received_at_us,
            after.reassembler,
            outcome,
        ));
        assert(msg_views(result.messages@).len() == result.messages@.len());
    }
}

/// A running session takes the cursor's shapes and states, passes the server's telemetry
/// on, ends with a goodbye or when nothing can be read, and goes on in spite of any other
/// message. Only shapes and states change the cursor.
pub proof fn running_sessions_take_what_is_theirs(
    cursors: CursorStoreView,
    shape: RemoteCursorShapeView,
    state: RemoteCursorState,
    t: ServerTelemetry,
    msg: ControlMsgView,
)
    ensures
        control_step(cursors, Some(ControlMsgView::CursorShape(shape))) == (
            cursors.with_shape(shape),
            ControlStep::Continue,
        ),
        control_step(cursors, Some(ControlMsgView::CursorState(state))) == (
            cursors.with_state(state),
            ControlStep::Continue,
        ),
        control_step(cursors, Some(ControlMsgView::Heartbeat(t))) == (
            cursors,
            ControlStep::Report(t),
        ),
        !(msg is CursorShape) && !(msg is CursorState) ==> control_step(cursors, Some(msg)).0
            == cursors,
        control_step(cursors, Some(msg)).1 == ControlStep::Stop <==> msg is Goodbye,
        control_step(cursors, Some(msg)).1 == ControlStep::Continue <==> msg is CursorShape || msg
            is CursorState,
        control_step(cursors, Some(msg)).1 is Report <==> msg is Heartbeat,
        control_step(cursors, None) == (cursors, ControlStep::Stop),
{
}

/// The first wait is a quarter of a second, the next three are each twice as long as the
/// one before, and then it is always two seconds.
pub proof fn waits_double(attempt: nat)
    ensures
        backoff_ms(0) == 250,
        attempt < 3 ==> backoff_ms(attempt + 1) == 2 * backoff_ms(attempt),
        attempt >= 3 ==> backoff_ms(attempt) == 2_000,
{
}

/// Reconnecting is tried for fifteen seconds from the time at which the connection was
/// closed: the deadline stands from the first wait to the last attempt, and the attempts
/// are counted from zero.
pub proof fn reconnecting_is_tried_for_fifteen_seconds(
    now_ms: u64,
    deadline_ms: u64,
    attempt: u64,
    later_ms: u64,
)
    requires
        now_ms + 15_000 <= u64::MAX,
    ensures
        supervise(
            Supervision::Dropped,
            SupervisorEvent::Closed { shutdown: false, now_ms },
        ).0 == (Supervision::Waiting { deadline_ms: (now_ms + 15_000) as u64, attempt: 0 }),
        supervise(
            Supervision::Waiting { deadline_ms, attempt },
            SupervisorEvent::Waited { shutdown: false },
        ) == (Supervision::Connecting { deadline_ms, attempt }, SupervisorStep::Connect),
        later_ms < deadline_ms && attempt < u64::MAX ==> supervise(
            Supervision::Connecting { deadline_ms, attempt },
            SupervisorEvent::Attempted { connected: false, shutdown: false, now_ms: later_ms },
        ).0 == (Supervision::Waiting { deadline_ms, attempt: (attempt + 1) as u64 }),
        later_ms < deadline_ms && attempt == 0 ==> supervise(
            Supervision::Connecting { deadline_ms, attempt },
            SupervisorEvent::Attempted { connected: false, shutdown: false, now_ms: later_ms },
        ).1 == (SupervisorStep::Wait { ms: 500 }),
        later_ms < deadline_ms && attempt == 1 ==> supervise(
            Supervision::Connecting { deadline_ms, attempt },
            SupervisorEvent::Attempted { connected: false, shutdown: false, now_ms: later_ms },
        ).1 == (SupervisorStep::Wait { ms: 1_000 }),
        later_ms < deadline_ms && attempt >= 2 ==> supervise(
            Supervision::Connecting { deadline_ms, attempt },
            SupervisorEvent::Attempted { connected: false, shutdown: false, now_ms: later_ms },
        ).1 == (SupervisorStep::Wait { ms: 2_000 }),
{
}

/// An attempt that succeeds is served, whatever the time. A client that shuts down says
/// goodbye on a connection that stands, and makes no further attempt on one that does
/// not.
pub proof fn shutting_down_ends_the_session(
    deadline_ms: u64,
    attempt: u64,
    now_ms: u64,
    shutdown: bool,
)
    ensures
        supervise(
            Supervision::Connecting { deadline_ms, attempt },
            SupervisorEvent::Attempted { connected: true, shutdown, now_ms },
        ) == (Supervision::Connected, SupervisorStep::Serve),
        supervise(Supervision::Connected, SupervisorEvent::Shutdown) == (
            Supervision::Over,
            SupervisorStep::Close { graceful: true },
        ),
        supervise(Supervision::Dropped, SupervisorEvent::Closed { shutdown: true, now_ms }) == (
            Supervision::Over,
            SupervisorStep::Finish,
        ),
        supervise(
            Supervision::Waiting { deadline_ms, attempt },
            SupervisorEvent::Waited { shutdown: true },
        ) == (Supervision::Over, SupervisorStep::Finish),
        supervise(
            Supervision::Connecting { deadline_ms, attempt },
            SupervisorEvent::Attempted { connected: false, shutdown: true, now_ms },
        ) == (Supervision::Over, SupervisorStep::GiveUp),
{
}

/// An event that does not belong to where the session stands changes nothing.
pub proof fn supervisors_pass_over_events_out_of_turn(s: Supervision, event: SupervisorEvent)
    requires
        !(s is Connected && (event is Shutdown || event is Disconnected)),
        !(s is Dropped && event is Closed),
        !(s is Waiting && event is Waited),
        !(s is Connecting && event is Attempted),
    ensures
        supervise(s, event) == (s, SupervisorStep::Idle),
{
}

} // verus!
