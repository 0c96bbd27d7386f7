//! QUIC control channel: session handshake, heartbeats, cursor updates.

use crate::displays::{
    requested_size, select_display, selected_displays_are_listed, selection, size_to_request,
};
use crate::framing::{framed, untagged};
use crate::streamd_client::cursor::RemoteCursorStore;
use crate::streamd_proto::control::{decode_cursor_datagram, DATAGRAM_TAG_CURSOR};
use crate::streamd_proto::packets::{
    display_views, opt_view, Codec, ControlMsg, ControlMsgView, DisplayInfo, DisplayInfoView,
    InputPacket, RemoteCursorState, ServerTelemetry, SessionAccept, SessionAcceptView,
    SessionRequest, SessionRequestView, PROTOCOL_VERSION,
};
use crate::streamd_server::control::{
    answer, listed_displays_can_be_requested, server_step, PhaseView, ServerEventView,
};
use crate::wire::Wire;
use crate::yin_yang_proto::input::encode_packet;
use vstd::prelude::*;

verus! {

#[derive(Debug)]
pub struct ClientOptions {
    pub display_selector: Option<String>,
    pub list_displays: bool,
}

pub struct ClientOptionsView {
    pub display_selector: Option<Seq<char>>,
    pub list_displays: bool,
}

impl View for ClientOptions {
    type V = ClientOptionsView;

    open spec fn view(&self) -> ClientOptionsView {
        ClientOptionsView {
            display_selector: opt_view(self.display_selector),
            list_displays: self.list_displays,
        }
    }
}

/// The session to request on a display.
pub open spec fn request_for(display: DisplayInfoView) -> SessionRequestView {
    SessionRequestView {
        version: PROTOCOL_VERSION,
        max_fps: 60,
        width: requested_size(display).0,
        height: requested_size(display).1,
        preferred_codecs: seq![Codec::H264, Codec::Hevc],
        display_id: Some(display.id),
    }
}

/// The session to request on a display.
pub fn session_request(display: &DisplayInfo) -> (r: SessionRequest)
    ensures
        r@ == request_for(display@),
{
    let (width, height) = size_to_request(display);
    let mut preferred_codecs: Vec<Codec> = Vec::new();
    preferred_codecs.push(Codec::H264);
    preferred_codecs.push(Codec::Hevc);
    assert(preferred_codecs@ =~= seq![Codec::H264, Codec::Hevc]);
    SessionRequest {
        version: PROTOCOL_VERSION,
        max_fps: 60,
        width,
        height,
        preferred_codecs,
        display_id: Some(display.id.clone()),
    }
}

/// Why no session came about.
#[derive(Debug)]
pub enum ConnectError {
    /// The server rejected the display query, for this reason.
    QueryRejected(String),
    /// The reply to the display query was another message.
    UnexpectedDisplays(ControlMsg),
    /// No display is selected, for this reason.
    NoDisplay(String),
    /// The server rejected the session, for this reason.
    SessionRejected(String),
    /// The reply to the session request was another message.
    UnexpectedSession(ControlMsg),
}

pub enum ConnectErrorView {
    QueryRejected(Seq<char>),
    UnexpectedDisplays(ControlMsgView),
    NoDisplay(Seq<char>),
    SessionRejected(Seq<char>),
    UnexpectedSession(ControlMsgView),
}

impl View for ConnectError {
    type V = ConnectErrorView;

    open spec fn view(&self) -> ConnectErrorView {
        match self {
            ConnectError::QueryRejected(reason) => ConnectErrorView::QueryRejected(reason@),
            ConnectError::UnexpectedDisplays(msg) => ConnectErrorView::UnexpectedDisplays(msg@),
            ConnectError::NoDisplay(reason) => ConnectErrorView::NoDisplay(reason@),
            ConnectError::SessionRejected(reason) => ConnectErrorView::SessionRejected(reason@),
            ConnectError::UnexpectedSession(msg) => ConnectErrorView::UnexpectedSession(msg@),
        }
    }
}

#[derive(Clone, Copy, Debug, PartialEq, Eq, Structural)]
pub enum HandshakeStage {
    AwaitingDisplays,
    AwaitingSession,
    Over,
}

/// What follows a message of the server.
#[derive(Debug)]
pub enum HandshakeStep {
    /// Send this, and read the reply.
    Send(ControlMsg),
    /// List these displays and say goodbye.
    List(Vec<DisplayInfo>),
    /// Run the session.
    Run(SessionAccept),
    /// Close the connection.
    Fail(ConnectError),
    /// The message is none of the handshake.
    Ignore,
}

pub enum HandshakeStepView {
    Send(ControlMsgView),
    List(Seq<DisplayInfoView>),
    Run(SessionAcceptView),
    Fail(ConnectErrorView),
    Ignore,
}

impl View for HandshakeStep {
    type V = HandshakeStepView;

    open spec fn view(&self) -> HandshakeStepView {
        match self {
            HandshakeStep::Send(msg) => HandshakeStepView::Send(msg@),
            HandshakeStep::List(displays) => HandshakeStepView::List(display_views(displays@)),
            HandshakeStep::Run(accept) => HandshakeStepView::Run(accept@),
            HandshakeStep::Fail(error) => HandshakeStepView::Fail(error@),
            HandshakeStep::Ignore => HandshakeStepView::Ignore,
        }
    }
}

/// The handshake after a message of the server: the displays are asked for first,
/// then a session on the selected one.
pub open spec fn handshake(
    options: ClientOptionsView,
    stage: HandshakeStage,
    msg: ControlMsgView,
) -> (HandshakeStage, HandshakeStepView) {
    match stage {
        HandshakeStage::AwaitingDisplays => match msg {
            ControlMsgView::AvailableDisplays(displays) => if options.list_displays {
                (HandshakeStage::Over, HandshakeStepView::List(displays))
            } else {
                match selection(displays, options.display_selector) {
                    Ok(display) => (
                        HandshakeStage::AwaitingSession,
                        HandshakeStepView::Send(
                            ControlMsgView::SessionRequest(request_for(display)),
                        ),
                    ),
                    Err(reason) => (
                        HandshakeStage::Over,
                        HandshakeStepView::Fail(ConnectErrorView::NoDisplay(reason)),
                    ),
                }
            },
            ControlMsgView::SessionReject(reason) => (
                HandshakeStage::Over,
                HandshakeStepView::Fail(ConnectErrorView::QueryRejected(reason)),
            ),
            _ => (
                HandshakeStage::Over,
                HandshakeStepView::Fail(ConnectErrorView::UnexpectedDisplays(msg)),
            ),
        },
        HandshakeStage::AwaitingSession => match msg {
            ControlMsgView::SessionAccept(accept) => (
                HandshakeStage::Over,
                HandshakeStepView::Run(accept),
            ),
            ControlMsgView::SessionReject(reason) => (
                HandshakeStage::Over,
                HandshakeStepView::Fail(ConnectErrorView::SessionRejected(reason)),
            ),
            _ => (
                HandshakeStage::Over,
                HandshakeStepView::Fail(ConnectErrorView::UnexpectedSession(msg)),
            ),
        },
        HandshakeStage::Over => (stage, HandshakeStepView::Ignore),
    }
}

/// The handshake that leads to a session.
#[derive(Debug)]
pub struct Handshake {
    pub stage: HandshakeStage,
}

impl Handshake {
    /// Begins with the message to send first.
    pub fn begin() -> (r: (Handshake, ControlMsg))
        ensures
            r.0.stage == HandshakeStage::AwaitingDisplays,
            r.1@ == ControlMsgView::QueryDisplays,
    {
        (Handshake { stage: HandshakeStage::AwaitingDisplays }, ControlMsg::QueryDisplays)
    }

    /// Takes the next message of the server.
    pub fn step(&mut self, options: &ClientOptions, msg: ControlMsg) -> (r: HandshakeStep)
        ensures
            (final(self).stage, r@) == handshake(options@, old(self).stage, msg@),
    {
        match self.stage {
            HandshakeStage::AwaitingDisplays => {
                self.stage = HandshakeStage::Over;
                match msg {
                    ControlMsg::AvailableDisplays(displays) => {
                        if options.list_displays {
                            return HandshakeStep::List(displays);
                        }
                        match select_display(&displays, &options.display_selector) {
                            Ok(display) => {
                                self.stage = HandshakeStage::AwaitingSession;
                                HandshakeStep::Send(
                                    ControlMsg::SessionRequest(session_request(&display)),
                                )
                            },
                            Err(reason) => HandshakeStep::Fail(ConnectError::NoDisplay(reason)),
                        }
                    },
                    ControlMsg::SessionReject(reject) => HandshakeStep::Fail(
                        ConnectError::QueryRejected(reject.reason),
                    ),
                    other => HandshakeStep::Fail(ConnectError::UnexpectedDisplays(other)),
                }
            },
            HandshakeStage::AwaitingSession => {
                self.stage = HandshakeStage::Over;
                match msg {
                    ControlMsg::SessionAccept(accept) => HandshakeStep::Run(accept),
                    ControlMsg::SessionReject(reject) => HandshakeStep::Fail(
                        ConnectError::SessionRejected(reject.reason),
                    ),
                    other => HandshakeStep::Fail(ConnectError::UnexpectedSession(other)),
                }
            },
            HandshakeStage::Over => HandshakeStep::Ignore,
        }
    }
}

// ---------------------------------------------------------------------------
// A running session
// ---------------------------------------------------------------------------

/// What a message of the server leads to.
#[derive(Clone, Copy, Debug, PartialEq, Eq, Structural)]
pub enum ControlStep {
    /// The server told of itself; read the next message.
    Report(ServerTelemetry),
    /// The message has no place in a running session; read the next one.
    Unexpected,
    /// The session is over.
    Stop,
}

/// Takes a message of the server, or that none could be read. The session ends
/// with a goodbye, or when no message can be read.
pub fn take_control_msg(msg: &Option<ControlMsg>) -> (r: ControlStep)
    ensures
        r == match msg {
            None => ControlStep::Stop,
            Some(m) => match m@ {
                ControlMsgView::Heartbeat(t) => ControlStep::Report(t),
                ControlMsgView::Goodbye => ControlStep::Stop,
                _ => ControlStep::Unexpected,
            },
        },
{
    match msg {
        None => ControlStep::Stop,
        Some(ControlMsg::Heartbeat(t)) => ControlStep::Report(*t),
        Some(ControlMsg::Goodbye) => ControlStep::Stop,
        Some(_) => ControlStep::Unexpected,
    }
}

/// Takes a datagram. One that holds no cursor state is passed over, and this
/// returns `false`.
pub fn take_cursor_datagram(cursors: &mut RemoteCursorStore, bytes: &[u8]) -> (valid: bool)
    requires
        old(cursors)@.wf(),
    ensures
        final(cursors)@.wf(),
        match untagged::<RemoteCursorState>(DATAGRAM_TAG_CURSOR, bytes@) {
            Some(state) => valid && final(cursors)@ == old(cursors)@.with_state(state),
            None => !valid && final(cursors)@ == old(cursors)@,
        },
{
    match decode_cursor_datagram(bytes) {
        Some(state) => {
            cursors.apply_state(state);
            true
        },
        None => false,
    }
}

/// The bytes in which an input packet is written to the reliable stream.
pub fn input_bytes(packet: &InputPacket) -> (r: Vec<u8>)
    ensures
        r@ == framed(InputPacket::enc(*packet)),
{
    encode_packet(packet)
}

// ---------------------------------------------------------------------------
// Laws
// ---------------------------------------------------------------------------

/// A client of the server gets its session: it asks for the displays, asks for a
/// session on the one it selects, and is granted one on a display with that
/// identifier. `displays` is the list that the server gives out both times.
pub proof fn clients_get_their_sessions(
    options: ClientOptionsView,
    displays: Seq<DisplayInfoView>,
)
    requires
        !options.list_displays,
    ensures
        selection(displays, options.display_selector) matches Ok(display) ==> ({
            let asked = server_step(
                PhaseView::Greeting,
                ServerEventView::Received(ControlMsgView::QueryDisplays),
            ).0;
            let told = server_step(asked, ServerEventView::Displays(Ok(displays)));
            let request = handshake(
                options,
                HandshakeStage::AwaitingDisplays,
                told.1.reply->Some_0,
            );
            let opening = server_step(
                told.0,
                ServerEventView::Received(request.1->Send_0),
            ).0;
            let opened = server_step(opening, ServerEventView::Displays(Ok(displays)));
            let accepted = handshake(options, request.0, opened.1.reply->Some_0);
            opened.0 is Running && (accepted.1 matches HandshakeStepView::Run(accept)
                && accept.selected_display.id == display.id && accept.codec is H264
                && accept.fps == 60)
        }),
{
    match selection(displays, options.display_selector) {
        Ok(display) => {
            selected_displays_are_listed(displays, options.display_selector);
            let i = choose|i: int| 0 <= i < displays.len() && displays[i] == display;
            let request = request_for(display);
            listed_displays_can_be_requested(request, displays, i);
            assert(answer(request, Ok(displays)) is Ok);
        },
        Err(_) => {},
    }
}

/// What a client asks for: a session of its own protocol version, of 60 frames a second, in
/// H.264 or else in HEVC, on the display and in its size.
pub proof fn sessions_are_asked_for_as_displayed(display: DisplayInfoView)
    ensures
        ({
            let req = request_for(display);
            &&& req.version == PROTOCOL_VERSION
            &&& req.max_fps == 60
            &&& req.display_id == Some(display.id)
            &&& req.preferred_codecs.len() == 2 && req.preferred_codecs[0] is H264
                && req.preferred_codecs[1] is Hevc
            &&& display.width > 0 ==> req.width == display.width
            &&& display.height > 0 ==> req.height == display.height
            &&& display.width == 0 ==> req.width == 1920
            &&& display.height == 0 ==> req.height == 1080
        }),
{
}

/// The handshake takes each message in its place: the displays first, which are listed
/// where that was wished for and else lead to a request on the selected one; then the
/// session, which is run. A rejection and any other message end it, each with its own
/// error, and afterwards nothing counts.
pub proof fn messages_count_in_their_place(
    options: ClientOptionsView,
    displays: Seq<DisplayInfoView>,
    accept: SessionAcceptView,
    reason: Seq<char>,
    msg: ControlMsgView,
)
    ensures
        options.list_displays ==> handshake(
            options,
            HandshakeStage::AwaitingDisplays,
            ControlMsgView::AvailableDisplays(displays),
        ) == (HandshakeStage::Over, HandshakeStepView::List(displays)),
        !options.list_displays ==> match selection(displays, options.display_selector) {
            Ok(display) => handshake(
                options,
                HandshakeStage::AwaitingDisplays,
                ControlMsgView::AvailableDisplays(displays),
            ) == (
                HandshakeStage::AwaitingSession,
                HandshakeStepView::Send(ControlMsgView::SessionRequest(request_for(display))),
            ),
            Err(why) => handshake(
                options,
                HandshakeStage::AwaitingDisplays,
                ControlMsgView::AvailableDisplays(displays),
            ) == (HandshakeStage::Over, HandshakeStepView::Fail(ConnectErrorView::NoDisplay(why))),
        },
        handshake(
            options,
            HandshakeStage::AwaitingSession,
            ControlMsgView::SessionAccept(accept),
        ) == (HandshakeStage::Over, HandshakeStepView::Run(accept)),
        handshake(
            options,
            HandshakeStage::AwaitingDisplays,
            ControlMsgView::SessionReject(reason),
        ) == (
            HandshakeStage::Over,
            HandshakeStepView::Fail(ConnectErrorView::QueryRejected(reason)),
        ),
        handshake(
            options,
            HandshakeStage::AwaitingSession,
            ControlMsgView::SessionReject(reason),
        ) == (
            HandshakeStage::Over,
            HandshakeStepView::Fail(ConnectErrorView::SessionRejected(reason)),
        ),
        !(msg is AvailableDisplays) && !(msg is SessionReject) ==> handshake(
            options,
            HandshakeStage::AwaitingDisplays,
            msg,
        ) == (
            HandshakeStage::Over,
            HandshakeStepView::Fail(ConnectErrorView::UnexpectedDisplays(msg)),
        ),
        !(msg is SessionAccept) && !(msg is SessionReject) ==> handshake(
            options,
            HandshakeStage::AwaitingSession,
            msg,
        ) == (
            HandshakeStage::Over,
            HandshakeStepView::Fail(ConnectErrorView::UnexpectedSession(msg)),
        ),
        handshake(options, HandshakeStage::Over, msg) == (
            HandshakeStage::Over,
            HandshakeStepView::Ignore,
        ),
{
}

} // verus!
