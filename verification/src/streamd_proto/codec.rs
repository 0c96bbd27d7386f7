//! The bincode wire form of the streamd messages: the fields of each message
//! in order, an enum as its variant number followed by the variant's fields.

use super::packets::{
    Codec, ControlMsg, ControlMsgView, DisplayInfo, DisplayInfoView, ServerTelemetry,
    SessionAccept, SessionAcceptView, SessionReject, SessionRequest, SessionRequestView,
};
use crate::wire::{
    dec_content, enc_variant, get_content, lemma_variant_len, lemma_variant_read, put_variant,
    Wire,
};
use vstd::prelude::*;

verus! {

/// The fields of `SessionRequest` in wire order.
type SessionRequestFields = (u32, (u8, (u32, (u32, (Vec<Codec>, Option<String>)))));

impl Wire for SessionRequest {
    type Model = SessionRequestView;

    open spec fn model(&self) -> SessionRequestView {
        self@
    }

    open spec fn enc(m: SessionRequestView) -> Seq<u8> {
        SessionRequestFields::enc((m.version, (m.max_fps, (m.width, (m.height, (m.preferred_codecs, m.display_id))))))
    }

    open spec fn dec(s: Seq<u8>) -> Option<(SessionRequestView, Seq<u8>)> {
        match SessionRequestFields::dec(s) {
            None => None,
            Some(((version, (max_fps, (width, (height, (preferred_codecs, display_id))))), rest)) => Some((
                SessionRequestView { version, max_fps, width, height, preferred_codecs, display_id },
                rest,
            )),
        }
    }

    proof fn round_trip(m: SessionRequestView, tail: Seq<u8>) {
        SessionRequestFields::round_trip((m.version, (m.max_fps, (m.width, (m.height, (m.preferred_codecs, m.display_id))))), tail);
    }

    proof fn takes_a_byte(m: SessionRequestView) {
        SessionRequestFields::takes_a_byte((m.version, (m.max_fps, (m.width, (m.height, (m.preferred_codecs, m.display_id))))));
    }

    fn put(&self, out: &mut Vec<u8>) {
        self.version.put(out);
        self.max_fps.put(out);
        self.width.put(out);
        self.height.put(out);
        self.preferred_codecs.put(out);
        self.display_id.put(out);
        assert(out@ =~= old(out)@ + Self::enc(self.model()));
    }

    fn get(input: &[u8], at: usize) -> (r: Option<(SessionRequest, usize)>) {
        match SessionRequestFields::get(input, at) {
            None => None,
            Some(((version, (max_fps, (width, (height, (preferred_codecs, display_id))))), n)) => Some((
                SessionRequest { version, max_fps, width, height, preferred_codecs, display_id },
                n,
            )),
        }
    }
}

/// The fields of `SessionAccept` in wire order.
type SessionAcceptFields = (Codec, (u8, (u32, (u32, (u16, (u16, DisplayInfo))))));

impl Wire for SessionAccept {
    type Model = SessionAcceptView;

    open spec fn model(&self) -> SessionAcceptView {
        self@
    }

    open spec fn enc(m: SessionAcceptView) -> Seq<u8> {
        SessionAcceptFields::enc((m.codec, (m.fps, (m.width, (m.height, (m.video_udp_port, (m.client_video_udp_port, m.selected_display)))))))
    }

    open spec fn dec(s: Seq<u8>) -> Option<(SessionAcceptView, Seq<u8>)> {
        match SessionAcceptFields::dec(s) {
            None => None,
            Some(((codec, (fps, (width, (height, (video_udp_port, (client_video_udp_port, selected_display)))))), rest)) => Some((
                SessionAcceptView { codec, fps, width, height, video_udp_port, client_video_udp_port, selected_display },
                rest,
            )),
        }
    }

    proof fn round_trip(m: SessionAcceptView, tail: Seq<u8>) {
        SessionAcceptFields::round_trip((m.codec, (m.fps, (m.width, (m.height, (m.video_udp_port, (m.client_video_udp_port, m.selected_display)))))), tail);
    }

    proof fn takes_a_byte(m: SessionAcceptView) {
        SessionAcceptFields::takes_a_byte((m.codec, (m.fps, (m.width, (m.height, (m.video_udp_port, (m.client_video_udp_port, m.selected_display)))))));
    }

    fn put(&self, out: &mut Vec<u8>) {
        self.codec.put(out);
        self.fps.put(out);
        self.width.put(out);
        self.height.put(out);
        self.video_udp_port.put(out);
        self.client_video_udp_port.put(out);
        self.selected_display.put(out);
        assert(out@ =~= old(out)@ + Self::enc(self.model()));
    }

    fn get(input: &[u8], at: usize) -> (r: Option<(SessionAccept, usize)>) {
        match SessionAcceptFields::get(input, at) {
            None => None,
            Some(((codec, (fps, (width, (height, (video_udp_port, (client_video_udp_port, selected_display)))))), n)) => Some((
                SessionAccept { codec, fps, width, height, video_udp_port, client_video_udp_port, selected_display },
                n,
            )),
        }
    }
}

/// The fields of `ServerTelemetry` in wire order.
type ServerTelemetryFields = (u32, (u8, u8));

impl Wire for ServerTelemetry {
    type Model = ServerTelemetry;

    open spec fn model(&self) -> ServerTelemetry {
        *self
    }

    open spec fn enc(m: ServerTelemetry) -> Seq<u8> {
        ServerTelemetryFields::enc((m.avg_encode_us, (m.send_queue_frames, m.idr_count)))
    }

    open spec fn dec(s: Seq<u8>) -> Option<(ServerTelemetry, Seq<u8>)> {
        match ServerTelemetryFields::dec(s) {
            None => None,
            Some(((avg_encode_us, (send_queue_frames, idr_count)), rest)) => Some((
                ServerTelemetry { avg_encode_us, send_queue_frames, idr_count },
                rest,
            )),
        }
    }

    proof fn round_trip(m: ServerTelemetry, tail: Seq<u8>) {
        ServerTelemetryFields::round_trip((m.avg_encode_us, (m.send_queue_frames, m.idr_count)), tail);
    }

    proof fn takes_a_byte(m: ServerTelemetry) {
        ServerTelemetryFields::takes_a_byte((m.avg_encode_us, (m.send_queue_frames, m.idr_count)));
    }

    fn put(&self, out: &mut Vec<u8>) {
        (self.avg_encode_us, (self.send_queue_frames, self.idr_count)).put(out);
    }

    fn get(input: &[u8], at: usize) -> (r: Option<(ServerTelemetry, usize)>) {
        match ServerTelemetryFields::get(input, at) {
            None => None,
            Some(((avg_encode_us, (send_queue_frames, idr_count)), n)) => Some((
                ServerTelemetry { avg_encode_us, send_queue_frames, idr_count },
                n,
            )),
        }
    }
}

impl Wire for ControlMsg {
    type Model = ControlMsgView;

    open spec fn model(&self) -> ControlMsgView {
        self@
    }

    open spec fn enc(m: ControlMsgView) -> Seq<u8> {
        match m {
            ControlMsgView::QueryDisplays => u32::enc(0),
            ControlMsgView::AvailableDisplays(x) => enc_variant::<Vec<DisplayInfo>>(1, x),
            ControlMsgView::SessionRequest(x) => enc_variant::<SessionRequest>(2, x),
            ControlMsgView::SessionAccept(x) => enc_variant::<SessionAccept>(3, x),
            ControlMsgView::SessionReject(x) => enc_variant::<SessionReject>(4, x),
            ControlMsgView::RequestIdr => u32::enc(5),
            ControlMsgView::Heartbeat(x) => enc_variant::<ServerTelemetry>(6, x),
            ControlMsgView::Goodbye => u32::enc(7),
        }
    }

    open spec fn dec(s: Seq<u8>) -> Option<(ControlMsgView, Seq<u8>)> {
        match u32::dec(s) {
            None => None,
            Some((tag, rest)) => if tag == 0 {
                Some((ControlMsgView::QueryDisplays, rest))
            } else if tag == 1 {
                match dec_content::<Vec<DisplayInfo>>(rest) {
                    None => None,
                    Some((x, rest2)) => Some((ControlMsgView::AvailableDisplays(x), rest2)),
                }
            } else if tag == 2 {
                match dec_content::<SessionRequest>(rest) {
                    None => None,
                    Some((x, rest2)) => Some((ControlMsgView::SessionRequest(x), rest2)),
                }
            } else if tag == 3 {
                match dec_content::<SessionAccept>(rest) {
                    None => None,
                    Some((x, rest2)) => Some((ControlMsgView::SessionAccept(x), rest2)),
                }
            } else if tag == 4 {
                match dec_content::<SessionReject>(rest) {
                    None => None,
                    Some((x, rest2)) => Some((ControlMsgView::SessionReject(x), rest2)),
                }
            } else if tag == 5 {
                Some((ControlMsgView::RequestIdr, rest))
            } else if tag == 6 {
                match dec_content::<ServerTelemetry>(rest) {
                    None => None,
                    Some((x, rest2)) => Some((ControlMsgView::Heartbeat(x), rest2)),
                }
            } else if tag == 7 {
                Some((ControlMsgView::Goodbye, rest))
            } else {
                None
            },
        }
    }

    proof fn round_trip(m: ControlMsgView, tail: Seq<u8>) {
        match m {
            ControlMsgView::QueryDisplays => u32::round_trip(0, tail),
            ControlMsgView::AvailableDisplays(x) => lemma_variant_read::<Vec<DisplayInfo>>(1, x, tail),
            ControlMsgView::SessionRequest(x) => lemma_variant_read::<SessionRequest>(2, x, tail),
            ControlMsgView::SessionAccept(x) => lemma_variant_read::<SessionAccept>(3, x, tail),
            ControlMsgView::SessionReject(x) => lemma_variant_read::<SessionReject>(4, x, tail),
            ControlMsgView::RequestIdr => u32::round_trip(5, tail),
            ControlMsgView::Heartbeat(x) => lemma_variant_read::<ServerTelemetry>(6, x, tail),
            ControlMsgView::Goodbye => u32::round_trip(7, tail),
        }
    }

    proof fn takes_a_byte(m: ControlMsgView) {
        match m {
            ControlMsgView::QueryDisplays => u32::takes_a_byte(0),
            ControlMsgView::AvailableDisplays(x) => lemma_variant_len::<Vec<DisplayInfo>>(1, x),
            ControlMsgView::SessionRequest(x) => lemma_variant_len::<SessionRequest>(2, x),
            ControlMsgView::SessionAccept(x) => lemma_variant_len::<SessionAccept>(3, x),
            ControlMsgView::SessionReject(x) => lemma_variant_len::<SessionReject>(4, x),
            ControlMsgView::RequestIdr => u32::takes_a_byte(5),
            ControlMsgView::Heartbeat(x) => lemma_variant_len::<ServerTelemetry>(6, x),
            ControlMsgView::Goodbye => u32::takes_a_byte(7),
        }
    }

    fn put(&self, out: &mut Vec<u8>) {
        match self {
            ControlMsg::QueryDisplays => 0u32.put(out),
            ControlMsg::AvailableDisplays(x) => put_variant(1, x, out),
            ControlMsg::SessionRequest(x) => put_variant(2, x, out),
            ControlMsg::SessionAccept(x) => put_variant(3, x, out),
            ControlMsg::SessionReject(x) => put_variant(4, x, out),
            ControlMsg::RequestIdr => 5u32.put(out),
            ControlMsg::Heartbeat(x) => put_variant(6, x, out),
            ControlMsg::Goodbye => 7u32.put(out),
        }
    }

    fn get(input: &[u8], at: usize) -> (r: Option<(ControlMsg, usize)>) {
        match u32::get(input, at) {
            None => None,
            Some((tag, n)) => if tag == 0 {
                Some((ControlMsg::QueryDisplays, n))
            } else if tag == 1 {
                match get_content::<Vec<DisplayInfo>>(input, n) {
                    None => None,
                    Some((x, m)) => Some((ControlMsg::AvailableDisplays(x), m)),
                }
            } else if tag == 2 {
                match get_content::<SessionRequest>(input, n) {
                    None => None,
                    Some((x, m)) => Some((ControlMsg::SessionRequest(x), m)),
                }
            } else if tag == 3 {
                match get_content::<SessionAccept>(input, n) {
                    None => None,
                    Some((x, m)) => Some((ControlMsg::SessionAccept(x), m)),
                }
            } else if tag == 4 {
                match get_content::<SessionReject>(input, n) {
                    None => None,
                    Some((x, m)) => Some((ControlMsg::SessionReject(x), m)),
                }
            } else if tag == 5 {
                Some((ControlMsg::RequestIdr, n))
            } else if tag == 6 {
                match get_content::<ServerTelemetry>(input, n) {
                    None => None,
                    Some((x, m)) => Some((ControlMsg::Heartbeat(x), m)),
                }
            } else if tag == 7 {
                Some((ControlMsg::Goodbye, n))
            } else {
                None
            },
        }
    }
}

/// A session is asked for with the version first, and then the rate, the size, the codecs
/// and the display; it is accepted with its codec, its rate, its size, the two ports and
/// the display.
pub proof fn sessions_are_told_in_this_order(m: SessionRequestView, a: SessionAcceptView)
    ensures
        SessionRequest::enc(m) == u32::enc(m.version) + seq![m.max_fps] + u32::enc(m.width)
            + u32::enc(m.height) + Vec::<Codec>::enc(m.preferred_codecs) + Option::<String>::enc(
            m.display_id,
        ),
        SessionAccept::enc(a) == Codec::enc(a.codec) + seq![a.fps] + u32::enc(a.width) + u32::enc(
            a.height,
        ) + u16::enc(a.video_udp_port) + u16::enc(a.client_video_udp_port) + DisplayInfo::enc(
            a.selected_display,
        ),
{
    assert(SessionRequest::enc(m) =~= u32::enc(m.version) + seq![m.max_fps] + u32::enc(m.width)
        + u32::enc(m.height) + Vec::<Codec>::enc(m.preferred_codecs) + Option::<String>::enc(
        m.display_id,
    ));
    assert(SessionAccept::enc(a) =~= Codec::enc(a.codec) + seq![a.fps] + u32::enc(a.width)
        + u32::enc(a.height) + u16::enc(a.video_udp_port) + u16::enc(a.client_video_udp_port)
        + DisplayInfo::enc(a.selected_display));
}

/// A message is its number and then what it tells. The numbers: 0 for the query of
/// displays, 1 for the displays, 2 for the request, 3 for the acceptance and 4 for the
/// rejection of a session, 5 for the request of a keyframe, 6 for the server's telemetry,
/// which is the time of an encoding, the frames that wait and the keyframes, and 7 for a
/// goodbye.
pub proof fn messages_have_their_numbers(
    displays: Seq<DisplayInfoView>,
    request: SessionRequestView,
    accept: SessionAcceptView,
    reason: Seq<char>,
    server: ServerTelemetry,
)
    ensures
        ControlMsg::enc(ControlMsgView::QueryDisplays) == seq![0u8],
        ControlMsg::enc(ControlMsgView::AvailableDisplays(displays)) == seq![1u8] + Vec::<
            DisplayInfo,
        >::enc(displays),
        ControlMsg::enc(ControlMsgView::SessionRequest(request)) == seq![2u8] + SessionRequest::enc(
            request,
        ),
        ControlMsg::enc(ControlMsgView::SessionAccept(accept)) == seq![3u8] + SessionAccept::enc(
            accept,
        ),
        ControlMsg::enc(ControlMsgView::SessionReject(reason)) == seq![4u8] + String::enc(reason),
        ControlMsg::enc(ControlMsgView::RequestIdr) == seq![5u8],
        ControlMsg::enc(ControlMsgView::Heartbeat(server)) == seq![6u8] + u32::enc(
            server.avg_encode_us,
        ) + seq![server.send_queue_frames, server.idr_count],
        ControlMsg::enc(ControlMsgView::Goodbye) == seq![7u8],
{
    reveal(enc_variant);
    assert(ControlMsg::enc(ControlMsgView::Heartbeat(server)) =~= seq![6u8] + u32::enc(
        server.avg_encode_us,
    ) + seq![server.send_queue_frames, server.idr_count]);
}

} // verus!
