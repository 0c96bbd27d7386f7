//! QUIC control channel: session handshake, IDR requests, heartbeats.
//!
//! A connection is a `ServerSession` that is told what happened and says what to
//! send and what to do next.

use crate::streamd_proto::packets::{
    display_views, opt_view, Codec, ControlMsg, ControlMsgView, DisplayInfo, DisplayInfoView,
    ServerTelemetry, SessionAccept, SessionAcceptView, SessionReject, SessionRequest,
    SessionRequestView, PROTOCOL_VERSION,
};
use crate::text::{decimal, push_decimal, push_quoted, quoted};
use vstd::prelude::*;
use vstd::string::StringExecFns;

verus! {

/// The port that video is sent from and to.
pub const VIDEO_PORT: u16 = 9001;

/// The fastest session that the server runs.
pub const MAX_FPS: u8 = 120;

// ---------------------------------------------------------------------------
// What a session gets
// ---------------------------------------------------------------------------

/// The server encodes H.264 and HEVC.
pub open spec fn supported(codec: Codec) -> bool {
    codec is H264 || codec is Hevc
}

/// The first codec of a preference list that the server supports, H.264 where it
/// supports none of them.
pub open spec fn negotiated(preferred: Seq<Codec>) -> Codec
    decreases preferred.len(),
{
    if preferred.len() == 0 {
        Codec::H264
    } else if supported(preferred[0]) {
        preferred[0]
    } else {
        negotiated(preferred.skip(1))
    }
}

pub fn negotiate_codec(req: &SessionRequest) -> (codec: Codec)
    ensures
        codec == negotiated(req@.preferred_codecs),
{
    let ghost all = req.preferred_codecs@;
    let mut i: usize = 0;
    assert(all.skip(0) =~= all);
    while i < req.preferred_codecs.len()
        invariant
            i <= all.len(),
            all == req.preferred_codecs@,
            negotiated(all) == negotiated(all.skip(i as int)),
        decreases all.len() - i,
    {
        let codec = req.preferred_codecs[i];
        match codec {
            Codec::H264 | Codec::Hevc => {
                return codec;
            },
            Codec::Av1 => {},
        }
        assert(all.skip(i as int).skip(1) =~= all.skip(i as int + 1));
        i = i + 1;
    }
    Codec::H264
}

/// The first display with this identifier.
pub open spec fn with_id(displays: Seq<DisplayInfoView>, id: Seq<char>) -> Option<DisplayInfoView>
    decreases displays.len(),
{
    if displays.len() == 0 {
        None
    } else if displays[0].id == id {
        Some(displays[0])
    } else {
        with_id(displays.skip(1), id)
    }
}

/// The display of a session, or why there is none: the requested one, or the
/// first where none was requested.
pub open spec fn resolved(displays: Seq<DisplayInfoView>, requested: Option<Seq<char>>) -> Result<
    DisplayInfoView,
    Seq<char>,
> {
    if displays.len() == 0 {
        Err("the server did not expose any capture displays"@)
    } else {
        match requested {
            Some(id) => match with_id(displays, id) {
                Some(display) => Ok(display),
                None => Err("requested display "@ + quoted(id) + " is not available"@),
            },
            None => Ok(displays[0]),
        }
    }
}

pub fn resolve_display(displays: &Vec<DisplayInfo>, requested_id: &Option<String>) -> (r: Result<
    DisplayInfo,
    String,
>)
    ensures
        match resolved(display_views(displays@), opt_view(*requested_id)) {
            Ok(d) => r matches Ok(display) && display@ == d,
            Err(reason) => r matches Err(text) && text@ == reason,
        },
{
    if displays.len() == 0 {
        return Err(String::from_str("the server did not expose any capture displays"));
    }
    let ghost all = display_views(displays@);
    match requested_id {
        None => Ok(displays[0].clone()),
        Some(id) => {
            let mut i: usize = 0;
            assert(all.skip(0) =~= all);
            while i < displays.len()
                invariant
                    i <= displays@.len(),
                    all == display_views(displays@),
                    with_id(all, id@) == with_id(all.skip(i as int), id@),
                    displays@.len() > 0,
                    *requested_id == Some(*id),
                decreases displays@.len() - i,
            {
                if displays[i].id == *id {
                    return Ok(displays[i].clone());
                }
                assert(all.skip(i as int).skip(1) =~= all.skip(i as int + 1));
                i = i + 1;
            }
            let mut reason = String::from_str("requested display ");
            push_quoted(&mut reason, id.as_str());
            reason.append(" is not available");
            Err(reason)
        },
    }
}

/// The rate of a session.
pub open spec fn session_fps(max_fps: u8) -> u8 {
    if max_fps == 0 {
        1
    } else if max_fps > MAX_FPS {
        MAX_FPS
    } else {
        max_fps
    }
}

/// `n`, but at least `low` and at most `high`.
pub open spec fn within(n: u32, low: u32, high: u32) -> u32 {
    if n < low {
        low
    } else if n > high {
        high
    } else {
        n
    }
}

fn keep_within(n: u32, low: u32, high: u32) -> (r: u32)
    requires
        low <= high,
    ensures
        r == within(n, low, high),
{
    if n < low {
        low
    } else if n > high {
        high
    } else {
        n
    }
}

/// The session that is granted to a request on a display. The display's own size
/// counts; where it is not known the requested one does, within bounds.
pub open spec fn granted(req: SessionRequestView, display: DisplayInfoView) -> SessionAcceptView {
    SessionAcceptView {
        codec: negotiated(req.preferred_codecs),
        fps: session_fps(req.max_fps),
        width: if display.width > 0 {
            display.width
        } else {
            within(req.width, 640, 7680)
        },
        height: if display.height > 0 {
            display.height
        } else {
            within(req.height, 480, 4320)
        },
        video_udp_port: VIDEO_PORT,
        client_video_udp_port: VIDEO_PORT,
        selected_display: display,
    }
}

/// The answer to a request: the granted session, or the reason for which there is
/// none. `listed` is what the enumeration of the displays gave.
pub open spec fn answer(
    req: SessionRequestView,
    listed: Result<Seq<DisplayInfoView>, Seq<char>>,
) -> Result<SessionAcceptView, Seq<char>> {
    match listed {
        Err(error) => Err("display enumeration failed: enumerate displays for session: "@ + error),
        Ok(displays) => match resolved(displays, req.display_id) {
            Err(reason) => Err(reason),
            Ok(display) => Ok(granted(req, display)),
        },
    }
}

fn enumeration_failed(attempt: &str, error: &String) -> (reason: String)
    ensures
        reason@ == attempt@ + error@,
{
    let mut reason = String::from_str(attempt);
    reason.append(error.as_str());
    reason
}

/// What the enumeration of the displays gave.
pub open spec fn listed(displays: Result<Vec<DisplayInfo>, String>) -> Result<
    Seq<DisplayInfoView>,
    Seq<char>,
> {
    match displays {
        Ok(d) => Ok(display_views(d@)),
        Err(error) => Err(error@),
    }
}

/// Answers a request of the right version.
pub fn answer_request(req: &SessionRequest, displays: &Result<Vec<DisplayInfo>, String>) -> (r:
    Result<SessionAccept, String>)
    ensures
        match answer(req@, listed(*displays)) {
            Ok(a) => r matches Ok(accept) && accept@ == a,
            Err(reason) => r matches Err(text) && text@ == reason,
        },
{
    let displays = match displays {
        Ok(displays) => displays,
        Err(error) => {
            return Err(
                enumeration_failed(
                    "display enumeration failed: enumerate displays for session: ",
                    error,
                ),
            );
        },
    };
    let display = match resolve_display(displays, &req.display_id) {
        Ok(display) => display,
        Err(reason) => {
            return Err(reason);
        },
    };
    let codec = negotiate_codec(req);
    let fps: u8 = if req.max_fps == 0 {
        1
    } else if req.max_fps > MAX_FPS {
        MAX_FPS
    } else {
        req.max_fps
    };
    let width: u32 = if display.width > 0 {
        display.width
    } else {
        keep_within(req.width, 640, 7680)
    };
    let height: u32 = if display.height > 0 {
        display.height
    } else {
        keep_within(req.height, 480, 4320)
    };
    Ok(
        SessionAccept {
            codec,
            fps,
            width,
            height,
            video_udp_port: VIDEO_PORT,
            client_video_udp_port: VIDEO_PORT,
            selected_display: display,
        },
    )
}

// ---------------------------------------------------------------------------
// The course of a connection
// ---------------------------------------------------------------------------

/// Where a connection stands.
#[derive(Debug)]
pub enum Phase {
    /// No session has been asked for.
    Greeting,
    /// The client wants to know the displays.
    Querying,
    /// A session has been asked for, and the displays are being listed.
    Opening(SessionRequest),
    /// Video is being sent.
    Running,
    /// The connection is over.
    Closed,
}

pub enum PhaseView {
    Greeting,
    Querying,
    Opening(SessionRequestView),
    Running,
    Closed,
}

impl View for Phase {
    type V = PhaseView;

    open spec fn view(&self) -> PhaseView {
        match self {
            Phase::Greeting => PhaseView::Greeting,
            Phase::Querying => PhaseView::Querying,
            Phase::Opening(req) => PhaseView::Opening(req@),
            Phase::Running => PhaseView::Running,
            Phase::Closed => PhaseView::Closed,
        }
    }
}

/// What happened on a connection.
#[derive(Debug)]
pub enum ServerEvent {
    Received(ControlMsg),
    /// The control stream ended or held no message.
    ReadFailed,
    /// The displays were listed, or could not be.
    Displays(Result<Vec<DisplayInfo>, String>),
    /// The pipeline was asked for telemetry.
    Telemetry(Option<ServerTelemetry>),
}

pub enum ServerEventView {
    Received(ControlMsgView),
    ReadFailed,
    Displays(Result<Seq<DisplayInfoView>, Seq<char>>),
    Telemetry(Option<ServerTelemetry>),
}

impl View for ServerEvent {
    type V = ServerEventView;

    open spec fn view(&self) -> ServerEventView {
        match self {
            ServerEvent::Received(msg) => ServerEventView::Received(msg@),
            ServerEvent::ReadFailed => ServerEventView::ReadFailed,
            ServerEvent::Displays(d) => ServerEventView::Displays(listed(*d)),
            ServerEvent::Telemetry(t) => ServerEventView::Telemetry(*t),
        }
    }
}

/// What is to be done next.
#[derive(Clone, Copy, Debug, PartialEq, Eq, Structural)]
pub enum ServerTask {
    /// Wait for the next event.
    Wait,
    /// List the displays.
    ListDisplays,
    /// Take input and start the pipeline, then wait.
    StartPipeline,
    /// Have the pipeline encode a keyframe, then wait.
    RequestIdr,
    /// The client left: take no more input, stop the pipeline.
    Finish,
    /// The connection failed.
    Abort,
}

/// A message to send, and what to do then.
#[derive(Debug)]
pub struct ServerStep {
    pub reply: Option<ControlMsg>,
    pub task: ServerTask,
}

pub struct ServerStepView {
    pub reply: Option<ControlMsgView>,
    pub task: ServerTask,
}

impl View for ServerStep {
    type V = ServerStepView;

    open spec fn view(&self) -> ServerStepView {
        ServerStepView {
            reply: match self.reply {
                Some(msg) => Some(msg@),
                None => None,
            },
            task: self.task,
        }
    }
}

pub open spec fn silently(phase: PhaseView, task: ServerTask) -> (PhaseView, ServerStepView) {
    (phase, ServerStepView { reply: None, task })
}

/// The client is told why it gets no session, and the connection is over.
pub open spec fn refused(reason: Seq<char>) -> (PhaseView, ServerStepView) {
    (
        PhaseView::Closed,
        ServerStepView {
            reply: Some(ControlMsgView::SessionReject(reason)),
            task: ServerTask::Abort,
        },
    )
}

/// Why a request of another protocol version is refused.
pub open spec fn version_mismatch(version: u32) -> Seq<char> {
    "version mismatch: client="@ + decimal(version as nat) + " server="@ + decimal(
        PROTOCOL_VERSION as nat,
    )
}

/// The course of a connection, one event at a time.
pub open spec fn server_step(phase: PhaseView, event: ServerEventView) -> (
    PhaseView,
    ServerStepView,
) {
    match (phase, event) {
        (PhaseView::Greeting, ServerEventView::Received(msg)) => match msg {
            ControlMsgView::QueryDisplays => silently(
                PhaseView::Querying,
                ServerTask::ListDisplays,
            ),
            ControlMsgView::SessionRequest(req) => if req.version != PROTOCOL_VERSION {
                refused(version_mismatch(req.version))
            } else {
                silently(PhaseView::Opening(req), ServerTask::ListDisplays)
            },
            ControlMsgView::Goodbye => silently(PhaseView::Closed, ServerTask::Finish),
            _ => refused("expected QueryDisplays or SessionRequest"@),
        },
        (PhaseView::Greeting, ServerEventView::ReadFailed) => silently(
            PhaseView::Closed,
            ServerTask::Abort,
        ),
        (PhaseView::Querying, ServerEventView::Displays(displays)) => match displays {
            Ok(displays) => (
                PhaseView::Greeting,
                ServerStepView {
                    reply: Some(ControlMsgView::AvailableDisplays(displays)),
                    task: ServerTask::Wait,
                },
            ),
            Err(error) => refused("display enumeration failed: enumerate displays: "@ + error),
        },
        (PhaseView::Opening(req), ServerEventView::Displays(displays)) => match answer(
            req,
            displays,
        ) {
            Ok(accept) => (
                PhaseView::Running,
                ServerStepView {
                    reply: Some(ControlMsgView::SessionAccept(accept)),
                    task: ServerTask::StartPipeline,
                },
            ),
            Err(reason) => refused(reason),
        },
        (PhaseView::Running, ServerEventView::Received(msg)) => match msg {
            ControlMsgView::RequestIdr => silently(PhaseView::Running, ServerTask::RequestIdr),
            ControlMsgView::Goodbye => silently(PhaseView::Closed, ServerTask::Finish),
            _ => silently(PhaseView::Running, ServerTask::Wait),
        },
        (PhaseView::Running, ServerEventView::ReadFailed) => silently(
            PhaseView::Closed,
            ServerTask::Finish,
        ),
        (PhaseView::Running, ServerEventView::Telemetry(Some(telemetry))) => (
            PhaseView::Running,
            ServerStepView {
                reply: Some(ControlMsgView::Heartbeat(telemetry)),
                task: ServerTask::Wait,
            },
        ),
        _ => silently(phase, ServerTask::Wait),
    }
}

/// A connection of the server.
#[derive(Debug)]
pub struct ServerSession {
    phase: Phase,
}

impl View for ServerSession {
    type V = PhaseView;

    closed spec fn view(&self) -> PhaseView {
        self.phase@
    }
}

fn wait(task: ServerTask) -> (r: ServerStep)
    ensures
        r@ == (ServerStepView { reply: None, task }),
{
    ServerStep { reply: None, task }
}

fn send(msg: ControlMsg, task: ServerTask) -> (r: ServerStep)
    ensures
        r@ == (ServerStepView { reply: Some(msg@), task }),
{
    ServerStep { reply: Some(msg), task }
}

fn refuse(reason: String) -> (r: ServerStep)
    ensures
        (PhaseView::Closed, r@) == refused(reason@),
{
    send(ControlMsg::SessionReject(SessionReject { reason }), ServerTask::Abort)
}

impl ServerSession {
    pub fn new() -> (r: ServerSession)
        ensures
            r@ == PhaseView::Greeting,
    {
        ServerSession { phase: Phase::Greeting }
    }

    /// Takes the next event.
    pub fn step(&mut self, event: ServerEvent) -> (r: ServerStep)
        ensures
            (final(self)@, r@) == server_step(old(self)@, event@),
    {
        let mut phase = Phase::Closed;
        std::mem::swap(&mut phase, &mut self.phase);
        let (next, step) = ServerSession::advance(phase, event);
        self.phase = next;
        step
    }

    fn advance(phase: Phase, event: ServerEvent) -> (r: (Phase, ServerStep))
        ensures
            (r.0@, r.1@) == server_step(phase@, event@),
    {
        match phase {
            Phase::Greeting => match event {
                ServerEvent::Received(msg) => ServerSession::greet(msg),
                ServerEvent::ReadFailed => (Phase::Closed, wait(ServerTask::Abort)),
                _ => (Phase::Greeting, wait(ServerTask::Wait)),
            },
            Phase::Querying => match event {
                ServerEvent::Displays(Ok(displays)) => (
                    Phase::Greeting,
                    send(ControlMsg::AvailableDisplays(displays), ServerTask::Wait),
                ),
                ServerEvent::Displays(Err(error)) => (
                    Phase::Closed,
                    refuse(
                        enumeration_failed(
                            "display enumeration failed: enumerate displays: ",
                            &error,
                        ),
                    ),
                ),
                _ => (Phase::Querying, wait(ServerTask::Wait)),
            },
            Phase::Opening(req) => match event {
                ServerEvent::Displays(displays) => match answer_request(&req, &displays) {
                    Ok(accept) => (
                        Phase::Running,
                        send(ControlMsg::SessionAccept(accept), ServerTask::StartPipeline),
                    ),
                    Err(reason) => (Phase::Closed, refuse(reason)),
                },
                _ => (Phase::Opening(req), wait(ServerTask::Wait)),
            },
            Phase::Running => match event {
                ServerEvent::Received(ControlMsg::RequestIdr) => (
                    Phase::Running,
                    wait(ServerTask::RequestIdr),
                ),
                ServerEvent::Received(ControlMsg::Goodbye) => (
                    Phase::Closed,
                    wait(ServerTask::Finish),
                ),
                ServerEvent::ReadFailed => (Phase::Closed, wait(ServerTask::Finish)),
                ServerEvent::Telemetry(Some(telemetry)) => (
                    Phase::Running,
                    send(ControlMsg::Heartbeat(telemetry), ServerTask::Wait),
                ),
                _ => (Phase::Running, wait(ServerTask::Wait)),
            },
            Phase::Closed => (Phase::Closed, wait(ServerTask::Wait)),
        }
    }

    /// The first message of a client.
    fn greet(msg: ControlMsg) -> (r: (Phase, ServerStep))
        ensures
            (r.0@, r.1@) == server_step(PhaseView::Greeting, ServerEventView::Received(msg@)),
    {
        match msg {
            ControlMsg::QueryDisplays => (Phase::Querying, wait(ServerTask::ListDisplays)),
            ControlMsg::SessionRequest(req) => {
                if req.version != PROTOCOL_VERSION {
                    let mut reason = String::from_str("version mismatch: client=");
                    push_decimal(&mut reason, req.version as u64);
                    reason.append(" server=");
                    push_decimal(&mut reason, PROTOCOL_VERSION as u64);
                    (Phase::Closed, refuse(reason))
                } else {
                    (Phase::Opening(req), wait(ServerTask::ListDisplays))
                }
            },
            ControlMsg::Goodbye => (Phase::Closed, wait(ServerTask::Finish)),
            _ => (
                Phase::Closed,
                refuse(String::from_str("expected QueryDisplays or SessionRequest")),
            ),
        }
    }
}

// ---------------------------------------------------------------------------
// Laws
// ---------------------------------------------------------------------------

/// A granted session is one that the server can run: a codec it supports, a rate
/// of 1 to 120 frames, a picture that is not empty, on a display of the list, and
/// on the requested one where one was requested.
pub proof fn granted_sessions_can_be_run(
    req: SessionRequestView,
    displays: Seq<DisplayInfoView>,
    accept: SessionAcceptView,
)
    requires
        answer(req, Ok(displays)) == Ok::<SessionAcceptView, Seq<char>>(accept),
    ensures
        supported(accept.codec),
        req.preferred_codecs.contains(accept.codec) || accept.codec is H264,
        1 <= accept.fps <= MAX_FPS,
        accept.fps <= req.max_fps || req.max_fps == 0,
        accept.width > 0 && accept.height > 0,
        displays.contains(accept.selected_display),
        req.display_id matches Some(id) ==> accept.selected_display.id == id,
{
    lemma_negotiated(req.preferred_codecs);
    match req.display_id {
        Some(id) => {
            lemma_with_id(displays, id);
        },
        None => {},
    }
}

proof fn lemma_negotiated(preferred: Seq<Codec>)
    ensures
        supported(negotiated(preferred)),
        preferred.contains(negotiated(preferred)) || negotiated(preferred) is H264,
    decreases preferred.len(),
{
    if preferred.len() > 0 {
        if supported(preferred[0]) {
        } else {
            let rest = preferred.skip(1);
            lemma_negotiated(rest);
            if rest.contains(negotiated(rest)) {
                let i = choose|i: int| 0 <= i < rest.len() && rest[i] == negotiated(rest);
                assert(preferred[i + 1] == rest[i]);
            }
        }
    }
}

proof fn lemma_with_id(displays: Seq<DisplayInfoView>, id: Seq<char>)
    ensures
        with_id(displays, id) matches Some(d) ==> d.id == id && displays.contains(d),
        with_id(displays, id) is None ==> forall|i: int|
            0 <= i < displays.len() ==> (#[trigger] displays[i]).id != id,
    decreases displays.len(),
{
    if displays.len() > 0 && displays[0].id != id {
        let rest = displays.skip(1);
        lemma_with_id(rest, id);
        match with_id(rest, id) {
            Some(d) => {
                let i = choose|i: int| 0 <= i < rest.len() && rest[i] == d;
                assert(displays[i + 1] == d);
            },
            None => {
                assert forall|i: int| 0 <= i < displays.len() implies (#[trigger] displays[i]).id
                    != id by {
                    if i > 0 {
                        assert(rest[i - 1] == displays[i]);
                    }
                }
            },
        }
    } else if displays.len() > 0 {
        assert(displays[0] == displays[0]);
    }
}

/// A display of the list can be asked for by its identifier: the request is
/// granted, on a display with that identifier.
pub proof fn listed_displays_can_be_requested(
    req: SessionRequestView,
    displays: Seq<DisplayInfoView>,
    i: int,
)
    requires
        0 <= i < displays.len(),
        req.display_id == Some(displays[i].id),
    ensures
        answer(req, Ok(displays)) matches Ok(accept) && accept.selected_display.id
            == displays[i].id,
{
    lemma_with_id(displays, displays[i].id);
}

/// The first codec that the client prefers and the server supports is used.
pub proof fn preference_order_is_kept(preferred: Seq<Codec>, i: int)
    requires
        0 <= i < preferred.len(),
        supported(preferred[i]),
        forall|j: int| 0 <= j < i ==> !supported(#[trigger] preferred[j]),
    ensures
        negotiated(preferred) == preferred[i],
    decreases i,
{
    if i > 0 {
        assert(!supported(preferred[0]));
        let rest = preferred.skip(1);
        assert(forall|j: int| 0 <= j < i - 1 ==> rest[j] == preferred[j + 1]);
        preference_order_is_kept(rest, i - 1);
    }
}

/// A client of another protocol version is told so and gets no session.
pub proof fn other_versions_are_refused(req: SessionRequestView)
    requires
        req.version != PROTOCOL_VERSION,
    ensures
        server_step(
            PhaseView::Greeting,
            ServerEventView::Received(ControlMsgView::SessionRequest(req)),
        ) == refused(version_mismatch(req.version)),
{
}

/// A client that asks for anything is answered: before a session runs, a
/// connection fails without an answer only where the control stream failed.
pub proof fn refusals_are_answered(phase: PhaseView, event: ServerEventView)
    ensures
        server_step(phase, event).1.task == ServerTask::Abort && !(event is ReadFailed) ==> (
        server_step(phase, event).1.reply matches Some(ControlMsgView::SessionReject(_))),
{
}

/// A pipeline is started for a session that was accepted, and for no other.
pub proof fn only_accepted_sessions_run(phase: PhaseView, event: ServerEventView)
    ensures
        server_step(phase, event).1.task == ServerTask::StartPipeline <==> (server_step(
            phase,
            event,
        ).1.reply matches Some(ControlMsgView::SessionAccept(_))),
        server_step(phase, event).0 is Running ==> phase is Running || server_step(
            phase,
            event,
        ).1.task == ServerTask::StartPipeline,
{
}

/// The list of displays can be asked for any number of times before a session.
pub proof fn displays_can_be_queried_again(displays: Seq<DisplayInfoView>)
    ensures
        ({
            let (querying, _) = server_step(
                PhaseView::Greeting,
                ServerEventView::Received(ControlMsgView::QueryDisplays),
            );
            let (after, step) = server_step(querying, ServerEventView::Displays(Ok(displays)));
            after == PhaseView::Greeting && step.reply == Some(
                ControlMsgView::AvailableDisplays(displays),
            )
        }),
{
}

/// The server encodes two codecs, and falls back to the first where a client knows neither.
pub proof fn two_codecs_are_supported(preferred: Seq<Codec>)
    ensures
        supported(Codec::H264),
        supported(Codec::Hevc),
        !supported(Codec::Av1),
        (forall|i: int| 0 <= i < preferred.len() ==> !supported(#[trigger] preferred[i]))
            ==> negotiated(preferred) is H264,
    decreases preferred.len(),
{
    if preferred.len() > 0 {
        let rest = preferred.skip(1);
        two_codecs_are_supported(rest);
        assert forall|i: int| 0 <= i < rest.len() && (forall|j: int|
            0 <= j < preferred.len() ==> !supported(#[trigger] preferred[j])) implies !supported(
            #[trigger] rest[i],
        ) by {
            assert(rest[i] == preferred[i + 1]);
        }
    }
}

/// A session runs at the rate that the client asked for, from 1 to 120 frames a second, and
/// at the nearest rate where it asked for another.
pub proof fn sessions_run_at_the_asked_rate(max_fps: u8)
    ensures
        1 <= max_fps <= 120 ==> session_fps(max_fps) == max_fps,
        max_fps == 0 ==> session_fps(max_fps) == 1,
        max_fps > 120 ==> session_fps(max_fps) == 120,
{
}

/// A session has the size of its display. A side that is not known is the one that the
/// client asked for, as far as it lies between 640 by 480 and 7680 by 4320. Video goes over
/// port 9001 at both ends.
pub proof fn sessions_have_the_size_of_their_display(
    req: SessionRequestView,
    display: DisplayInfoView,
)
    ensures
        ({
            let a = granted(req, display);
            &&& display.width > 0 ==> a.width == display.width
            &&& display.height > 0 ==> a.height == display.height
            &&& display.width == 0 && 640 <= req.width <= 7680 ==> a.width == req.width
            &&& display.height == 0 && 480 <= req.height <= 4320 ==> a.height == req.height
            &&& display.width == 0 && req.width < 640 ==> a.width == 640
            &&& display.width == 0 && req.width > 7680 ==> a.width == 7680
            &&& display.height == 0 && req.height < 480 ==> a.height == 480
            &&& display.height == 0 && req.height > 4320 ==> a.height == 4320
            &&& a.selected_display == display
            &&& a.video_udp_port == 9001 && a.client_video_udp_port == 9001
            &&& a.fps == session_fps(req.max_fps)
            &&& a.codec == negotiated(req.preferred_codecs)
        }),
{
}

/// A request is answered with a session on the first display with the identifier, or on the
/// first of all where it names none; or with the reason for which there is no session.
pub proof fn requests_are_answered(
    req: SessionRequestView,
    displays: Seq<DisplayInfoView>,
    error: Seq<char>,
)
    ensures
        answer(req, Err(error)) == Err::<SessionAcceptView, Seq<char>>(
            "display enumeration failed: enumerate displays for session: "@ + error,
        ),
        displays.len() == 0 ==> answer(req, Ok(displays)) == Err::<SessionAcceptView, Seq<char>>(
            "the server did not expose any capture displays"@,
        ),
        displays.len() > 0 && req.display_id is None ==> answer(req, Ok(displays)) == Ok::<
            SessionAcceptView,
            Seq<char>,
        >(granted(req, displays[0])),
        displays.len() > 0 && req.display_id is Some ==> match answer(req, Ok(displays)) {
            Ok(a) => exists|i: int|
                0 <= i < displays.len() && #[trigger] displays[i] == a.selected_display && Some(
                    displays[i].id,
                ) == req.display_id && a == granted(req, displays[i]) && forall|j: int|
                    0 <= j < i ==> Some((#[trigger] displays[j]).id) != req.display_id,
            Err(why) => (forall|j: int|
                0 <= j < displays.len() ==> Some((#[trigger] displays[j]).id) != req.display_id)
                && why == "requested display "@ + quoted(req.display_id->0) + " is not available"@,
        },
{
    if let Some(id) = req.display_id {
        lemma_first_with_id(displays, id);
    }
}

proof fn lemma_first_with_id(displays: Seq<DisplayInfoView>, id: Seq<char>)
    ensures
        match with_id(displays, id) {
            Some(d) => exists|i: int|
                0 <= i < displays.len() && #[trigger] displays[i] == d && d.id == id && forall|j: int|
                    0 <= j < i ==> (#[trigger] displays[j]).id != id,
            None => forall|j: int| 0 <= j < displays.len() ==> (#[trigger] displays[j]).id != id,
        },
    decreases displays.len(),
{
    if displays.len() > 0 {
        let rest = displays.skip(1);
        if displays[0].id == id {
            assert(displays[0] == with_id(displays, id)->0);
        } else {
            lemma_first_with_id(rest, id);
            match with_id(rest, id) {
                Some(d) => {
                    let i = choose|i: int|
                        0 <= i < rest.len() && #[trigger] rest[i] == d && d.id == id && forall|j: int|
                            0 <= j < i ==> (#[trigger] rest[j]).id != id;
                    assert(displays[i + 1] == d);
                    assert forall|j: int| 0 <= j < i + 1 implies (#[trigger] displays[j]).id != id by {
                        if j > 0 {
                            assert(rest[j - 1] == displays[j]);
                        }
                    }
                },
                None => {
                    assert forall|j: int| 0 <= j < displays.len() implies (
                    #[trigger] displays[j]).id != id by {
                        if j > 0 {
                            assert(rest[j - 1] == displays[j]);
                        }
                    }
                },
            }
        }
    }
}

/// Before a session, a client may ask for the displays, ask for a session of the server's
/// protocol version, or leave. Anything else is refused, and so is another version; the
/// refusal ends the connection.
pub proof fn clients_are_greeted(msg: ControlMsgView, req: SessionRequestView)
    ensures
        server_step(
            PhaseView::Greeting,
            ServerEventView::Received(ControlMsgView::QueryDisplays),
        ) == (
            PhaseView::Querying,
            ServerStepView { reply: None, task: ServerTask::ListDisplays },
        ),
        req.version == PROTOCOL_VERSION ==> server_step(
            PhaseView::Greeting,
            ServerEventView::Received(ControlMsgView::SessionRequest(req)),
        ) == (
            PhaseView::Opening(req),
            ServerStepView { reply: None, task: ServerTask::ListDisplays },
        ),
        req.version != PROTOCOL_VERSION ==> server_step(
            PhaseView::Greeting,
            ServerEventView::Received(ControlMsgView::SessionRequest(req)),
        ) == (
            PhaseView::Closed,
            ServerStepView {
                reply: Some(
                    ControlMsgView::SessionReject(
                        "version mismatch: client="@ + decimal(req.version as nat) + " server="@
                            + decimal(PROTOCOL_VERSION as nat),
                    ),
                ),
                task: ServerTask::Abort,
            },
        ),
        server_step(PhaseView::Greeting, ServerEventView::Received(ControlMsgView::Goodbye)) == (
            PhaseView::Closed,
            ServerStepView { reply: None, task: ServerTask::Finish },
        ),
        server_step(PhaseView::Greeting, ServerEventView::ReadFailed) == (
            PhaseView::Closed,
            ServerStepView { reply: None, task: ServerTask::Abort },
        ),
        !(msg is QueryDisplays || msg is SessionRequest || msg is Goodbye) ==> server_step(
            PhaseView::Greeting,
            ServerEventView::Received(msg),
        ) == (
            PhaseView::Closed,
            ServerStepView {
                reply: Some(
                    ControlMsgView::SessionReject("expected QueryDisplays or SessionRequest"@),
                ),
                task: ServerTask::Abort,
            },
        ),
{
}

/// Once the displays are listed, the client that asked for them gets the list, and the one
/// that asked for a session gets it and is sent video. Displays that cannot be listed end
/// the connection with the reason.
pub proof fn listed_displays_are_passed_on(
    req: SessionRequestView,
    displays: Seq<DisplayInfoView>,
    error: Seq<char>,
)
    ensures
        server_step(PhaseView::Querying, ServerEventView::Displays(Ok(displays))) == (
            PhaseView::Greeting,
            ServerStepView {
                reply: Some(ControlMsgView::AvailableDisplays(displays)),
                task: ServerTask::Wait,
            },
        ),
        server_step(PhaseView::Querying, ServerEventView::Displays(Err(error))) == (
            PhaseView::Closed,
            ServerStepView {
                reply: Some(
                    ControlMsgView::SessionReject(
                        "display enumeration failed: enumerate displays: "@ + error,
                    ),
                ),
                task: ServerTask::Abort,
            },
        ),
        match answer(req, Ok(displays)) {
            Ok(accept) => server_step(
                PhaseView::Opening(req),
                ServerEventView::Displays(Ok(displays)),
            ) == (
                PhaseView::Running,
                ServerStepView {
                    reply: Some(ControlMsgView::SessionAccept(accept)),
                    task: ServerTask::StartPipeline,
                },
            ),
            Err(why) => server_step(
                PhaseView::Opening(req),
                ServerEventView::Displays(Ok(displays)),
            ) == (
                PhaseView::Closed,
                ServerStepView {
                    reply: Some(ControlMsgView::SessionReject(why)),
                    task: ServerTask::Abort,
                },
            ),
        },
{
}

/// A running session makes a keyframe when it is asked for one, reports telemetry when
/// there is any, and ends when the client leaves or can no longer be read. Nothing else
/// changes it. A closed connection stays closed and does nothing.
pub proof fn running_sessions_serve(
    msg: ControlMsgView,
    telemetry: ServerTelemetry,
    event: ServerEventView,
)
    ensures
        server_step(PhaseView::Running, ServerEventView::Received(ControlMsgView::RequestIdr)) == (
            PhaseView::Running,
            ServerStepView { reply: None, task: ServerTask::RequestIdr },
        ),
        server_step(PhaseView::Running, ServerEventView::Received(ControlMsgView::Goodbye)) == (
            PhaseView::Closed,
            ServerStepView { reply: None, task: ServerTask::Finish },
        ),
        server_step(PhaseView::Running, ServerEventView::ReadFailed) == (
            PhaseView::Closed,
            ServerStepView { reply: None, task: ServerTask::Finish },
        ),
        server_step(PhaseView::Running, ServerEventView::Telemetry(Some(telemetry))) == (
            PhaseView::Running,
            ServerStepView {
                reply: Some(ControlMsgView::Heartbeat(telemetry)),
                task: ServerTask::Wait,
            },
        ),
        server_step(PhaseView::Running, ServerEventView::Telemetry(None)) == (
            PhaseView::Running,
            ServerStepView { reply: None, task: ServerTask::Wait },
        ),
        !(msg is RequestIdr) && !(msg is Goodbye) ==> server_step(
            PhaseView::Running,
            ServerEventView::Received(msg),
        ) == (PhaseView::Running, ServerStepView { reply: None, task: ServerTask::Wait }),
        server_step(PhaseView::Closed, event) == (
            PhaseView::Closed,
            ServerStepView { reply: None, task: ServerTask::Wait },
        ),
{
}

} // verus!
