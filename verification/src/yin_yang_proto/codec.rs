//! The bincode wire form of the Yin-Yang messages: the fields of each message
//! in order, an enum as its variant number followed by the variant's fields.

use super::packets::{
    display_views, ClientTelemetry, Codec, ControlMsg, ControlMsgView, DisplayInfo,
    DisplayInfoView, InputEvent, InputPacket, KeyModifiers, MouseButton, RemoteCursorShape,
    RemoteCursorShapeKind, RemoteCursorShapeView, RemoteCursorState, ServerTelemetry,
    SessionAccept, SessionAcceptView, SessionReject, SessionRequest, SessionRequestView,
    VideoTransport,
};
use crate::wire::{
    dec_content, dec_list, enc_list, enc_variant, get_content, get_list, lemma_le_bytes_len,
    lemma_list_read, lemma_variant_len, lemma_variant_read, lemma_varint_len, models, put_list,
    put_variant, zigzag, Bits32, Wire,
};
use vstd::prelude::*;

verus! {

impl Wire for Codec {
    type Model = Codec;

    open spec fn model(&self) -> Codec {
        *self
    }

    open spec fn enc(m: Codec) -> Seq<u8> {
        match m {
            Codec::H264 => u32::enc(0),
            Codec::Hevc => u32::enc(1),
            Codec::Av1 => u32::enc(2),
        }
    }

    open spec fn dec(s: Seq<u8>) -> Option<(Codec, Seq<u8>)> {
        match u32::dec(s) {
            None => None,
            Some((tag, rest)) => if tag == 0 {
                Some((Codec::H264, rest))
            } else if tag == 1 {
                Some((Codec::Hevc, rest))
            } else if tag == 2 {
                Some((Codec::Av1, rest))
            } else {
                None
            },
        }
    }

    proof fn round_trip(m: Codec, tail: Seq<u8>) {
        match m {
            Codec::H264 => u32::round_trip(0, tail),
            Codec::Hevc => u32::round_trip(1, tail),
            Codec::Av1 => u32::round_trip(2, tail),
        }
    }

    proof fn takes_a_byte(m: Codec) {
    }

    fn put(&self, out: &mut Vec<u8>) {
        let tag: u32 = match self {
            Codec::H264 => 0,
            Codec::Hevc => 1,
            Codec::Av1 => 2,
        };
        tag.put(out);
    }

    fn get(input: &[u8], at: usize) -> (r: Option<(Codec, usize)>) {
        match u32::get(input, at) {
            None => None,
            Some((tag, n)) => if tag == 0 {
                Some((Codec::H264, n))
            } else if tag == 1 {
                Some((Codec::Hevc, n))
            } else if tag == 2 {
                Some((Codec::Av1, n))
            } else {
                None
            },
        }
    }
}

impl Wire for VideoTransport {
    type Model = VideoTransport;

    open spec fn model(&self) -> VideoTransport {
        *self
    }

    open spec fn enc(m: VideoTransport) -> Seq<u8> {
        match m {
            VideoTransport::QuicDatagram => u32::enc(0),
        }
    }

    open spec fn dec(s: Seq<u8>) -> Option<(VideoTransport, Seq<u8>)> {
        match u32::dec(s) {
            None => None,
            Some((tag, rest)) => if tag == 0 {
                Some((VideoTransport::QuicDatagram, rest))
            } else {
                None
            },
        }
    }

    proof fn round_trip(m: VideoTransport, tail: Seq<u8>) {
        match m {
            VideoTransport::QuicDatagram => u32::round_trip(0, tail),
        }
    }

    proof fn takes_a_byte(m: VideoTransport) {
    }

    fn put(&self, out: &mut Vec<u8>) {
        let tag: u32 = match self {
            VideoTransport::QuicDatagram => 0,
        };
        tag.put(out);
    }

    fn get(input: &[u8], at: usize) -> (r: Option<(VideoTransport, usize)>) {
        match u32::get(input, at) {
            None => None,
            Some((tag, n)) => if tag == 0 {
                Some((VideoTransport::QuicDatagram, n))
            } else {
                None
            },
        }
    }
}

impl Wire for RemoteCursorShapeKind {
    type Model = RemoteCursorShapeKind;

    open spec fn model(&self) -> RemoteCursorShapeKind {
        *self
    }

    open spec fn enc(m: RemoteCursorShapeKind) -> Seq<u8> {
        match m {
            RemoteCursorShapeKind::Color => u32::enc(0),
            RemoteCursorShapeKind::MaskedColor => u32::enc(1),
            RemoteCursorShapeKind::Monochrome => u32::enc(2),
        }
    }

    open spec fn dec(s: Seq<u8>) -> Option<(RemoteCursorShapeKind, Seq<u8>)> {
        match u32::dec(s) {
            None => None,
            Some((tag, rest)) => if tag == 0 {
                Some((RemoteCursorShapeKind::Color, rest))
            } else if tag == 1 {
                Some((RemoteCursorShapeKind::MaskedColor, rest))
            } else if tag == 2 {
                Some((RemoteCursorShapeKind::Monochrome, rest))
            } else {
                None
            },
        }
    }

    proof fn round_trip(m: RemoteCursorShapeKind, tail: Seq<u8>) {
        match m {
            RemoteCursorShapeKind::Color => u32::round_trip(0, tail),
            RemoteCursorShapeKind::MaskedColor => u32::round_trip(1, tail),
            RemoteCursorShapeKind::Monochrome => u32::round_trip(2, tail),
        }
    }

    proof fn takes_a_byte(m: RemoteCursorShapeKind) {
    }

    fn put(&self, out: &mut Vec<u8>) {
        let tag: u32 = match self {
            RemoteCursorShapeKind::Color => 0,
            RemoteCursorShapeKind::MaskedColor => 1,
            RemoteCursorShapeKind::Monochrome => 2,
        };
        tag.put(out);
    }

    fn get(input: &[u8], at: usize) -> (r: Option<(RemoteCursorShapeKind, usize)>) {
        match u32::get(input, at) {
            None => None,
            Some((tag, n)) => if tag == 0 {
                Some((RemoteCursorShapeKind::Color, n))
            } else if tag == 1 {
                Some((RemoteCursorShapeKind::MaskedColor, n))
            } else if tag == 2 {
                Some((RemoteCursorShapeKind::Monochrome, n))
            } else {
                None
            },
        }
    }
}

/// An ordered list of codecs.
impl Wire for Vec<Codec> {
    type Model = Seq<Codec>;

    open spec fn model(&self) -> Seq<Codec> {
        self@
    }

    open spec fn enc(m: Seq<Codec>) -> Seq<u8> {
        enc_list::<Codec>(m)
    }

    open spec fn dec(s: Seq<u8>) -> Option<(Seq<Codec>, Seq<u8>)> {
        dec_list::<Codec>(s)
    }

    proof fn round_trip(m: Seq<Codec>, tail: Seq<u8>) {
        lemma_list_read::<Codec>(m, tail);
    }

    proof fn takes_a_byte(m: Seq<Codec>) {
        lemma_varint_len(m.len());
    }

    fn put(&self, out: &mut Vec<u8>) {
        assert(models(self@) =~= self@);
        put_list(self, out);
    }

    fn get(input: &[u8], at: usize) -> (r: Option<(Vec<Codec>, usize)>) {
        match get_list::<Codec>(input, at) {
            None => None,
            Some((codecs, n)) => {
                assert(models(codecs@) =~= codecs@);
                Some((codecs, n))
            },
        }
    }
}

impl Wire for MouseButton {
    type Model = MouseButton;

    open spec fn model(&self) -> MouseButton {
        *self
    }

    open spec fn enc(m: MouseButton) -> Seq<u8> {
        match m {
            MouseButton::Left => u32::enc(0),
            MouseButton::Right => u32::enc(1),
            MouseButton::Middle => u32::enc(2),
            MouseButton::Side(n) => u32::enc(3) + u8::enc(n),
        }
    }

    open spec fn dec(s: Seq<u8>) -> Option<(MouseButton, Seq<u8>)> {
        match u32::dec(s) {
            None => None,
            Some((tag, rest)) => if tag == 0 {
                Some((MouseButton::Left, rest))
            } else if tag == 1 {
                Some((MouseButton::Right, rest))
            } else if tag == 2 {
                Some((MouseButton::Middle, rest))
            } else if tag == 3 {
                match u8::dec(rest) {
                    None => None,
                    Some((n, rest2)) => Some((MouseButton::Side(n), rest2)),
                }
            } else {
                None
            },
        }
    }

    proof fn round_trip(m: MouseButton, tail: Seq<u8>) {
        match m {
            MouseButton::Left => u32::round_trip(0, tail),
            MouseButton::Right => u32::round_trip(1, tail),
            MouseButton::Middle => u32::round_trip(2, tail),
            MouseButton::Side(n) => {
                assert(Self::enc(m) + tail =~= u32::enc(3) + (u8::enc(n) + tail));
                u32::round_trip(3, u8::enc(n) + tail);
                u8::round_trip(n, tail);
            },
        }
    }

    proof fn takes_a_byte(m: MouseButton) {
    }

    fn put(&self, out: &mut Vec<u8>) {
        match self {
            MouseButton::Left => {
                0u32.put(out);
            },
            MouseButton::Right => {
                1u32.put(out);
            },
            MouseButton::Middle => {
                2u32.put(out);
            },
            MouseButton::Side(n) => {
                3u32.put(out);
                n.put(out);
                assert(out@ =~= old(out)@ + Self::enc(self.model()));
            },
        }
    }

    fn get(input: &[u8], at: usize) -> (r: Option<(MouseButton, usize)>) {
        match u32::get(input, at) {
            None => None,
            Some((tag, n)) => if tag == 0 {
                Some((MouseButton::Left, n))
            } else if tag == 1 {
                Some((MouseButton::Right, n))
            } else if tag == 2 {
                Some((MouseButton::Middle, n))
            } else if tag == 3 {
                match u8::get(input, n) {
                    None => None,
                    Some((side, m)) => Some((MouseButton::Side(side), m)),
                }
            } else {
                None
            },
        }
    }
}

/// The modifiers travel as their bits; unknown bits are kept.
impl Wire for KeyModifiers {
    type Model = KeyModifiers;

    open spec fn model(&self) -> KeyModifiers {
        *self
    }

    open spec fn enc(m: KeyModifiers) -> Seq<u8> {
        u32::enc(m.bits)
    }

    open spec fn dec(s: Seq<u8>) -> Option<(KeyModifiers, Seq<u8>)> {
        match u32::dec(s) {
            None => None,
            Some((bits, rest)) => Some((KeyModifiers { bits }, rest)),
        }
    }

    proof fn round_trip(m: KeyModifiers, tail: Seq<u8>) {
        u32::round_trip(m.bits, tail);
    }

    proof fn takes_a_byte(m: KeyModifiers) {
        u32::takes_a_byte(m.bits);
    }

    fn put(&self, out: &mut Vec<u8>) {
        self.bits.put(out);
    }

    fn get(input: &[u8], at: usize) -> (r: Option<(KeyModifiers, usize)>) {
        match u32::get(input, at) {
            None => None,
            Some((bits, n)) => Some((KeyModifiers { bits }, n)),
        }
    }
}

type KeyEventFields = (u32, (bool, KeyModifiers));

impl Wire for InputEvent {
    type Model = InputEvent;

    open spec fn model(&self) -> InputEvent {
        *self
    }

    open spec fn enc(m: InputEvent) -> Seq<u8> {
        match m {
            InputEvent::MouseMove { dx, dy } => u32::enc(0) + <(i16, i16)>::enc((dx, dy)),
            InputEvent::MouseButton { button, pressed } => u32::enc(1) + <(
                MouseButton,
                bool,
            )>::enc((button, pressed)),
            InputEvent::MouseScroll { dx_bits, dy_bits } => u32::enc(2) + <(Bits32, Bits32)>::enc(
                (Bits32(dx_bits), Bits32(dy_bits)),
            ),
            InputEvent::KeyEvent { hid_usage, pressed, modifiers } => u32::enc(3)
                + KeyEventFields::enc((hid_usage, (pressed, modifiers))),
        }
    }

    open spec fn dec(s: Seq<u8>) -> Option<(InputEvent, Seq<u8>)> {
        match u32::dec(s) {
            None => None,
            Some((tag, rest)) => if tag == 0 {
                match <(i16, i16)>::dec(rest) {
                    None => None,
                    Some(((dx, dy), rest2)) => Some((InputEvent::MouseMove { dx, dy }, rest2)),
                }
            } else if tag == 1 {
                match <(MouseButton, bool)>::dec(rest) {
                    None => None,
                    Some(((button, pressed), rest2)) => Some(
                        (InputEvent::MouseButton { button, pressed }, rest2),
                    ),
                }
            } else if tag == 2 {
                match <(Bits32, Bits32)>::dec(rest) {
                    None => None,
                    Some(((dx, dy), rest2)) => Some(
                        (InputEvent::MouseScroll { dx_bits: dx.0, dy_bits: dy.0 }, rest2),
                    ),
                }
            } else if tag == 3 {
                match KeyEventFields::dec(rest) {
                    None => None,
                    Some(((hid_usage, (pressed, modifiers)), rest2)) => Some(
                        (InputEvent::KeyEvent { hid_usage, pressed, modifiers }, rest2),
                    ),
                }
            } else {
                None
            },
        }
    }

    proof fn round_trip(m: InputEvent, tail: Seq<u8>) {
        match m {
            InputEvent::MouseMove { dx, dy } => {
                let body = <(i16, i16)>::enc((dx, dy));
                assert(Self::enc(m) + tail =~= u32::enc(0) + (body + tail));
                u32::round_trip(0, body + tail);
                <(i16, i16)>::round_trip((dx, dy), tail);
            },
            InputEvent::MouseButton { button, pressed } => {
                let body = <(MouseButton, bool)>::enc((button, pressed));
                assert(Self::enc(m) + tail =~= u32::enc(1) + (body + tail));
                u32::round_trip(1, body + tail);
                <(MouseButton, bool)>::round_trip((button, pressed), tail);
            },
            InputEvent::MouseScroll { dx_bits, dy_bits } => {
                let both = (Bits32(dx_bits), Bits32(dy_bits));
                let body = <(Bits32, Bits32)>::enc(both);
                assert(Self::enc(m) + tail =~= u32::enc(2) + (body + tail));
                u32::round_trip(2, body + tail);
                <(Bits32, Bits32)>::round_trip(both, tail);
            },
            InputEvent::KeyEvent { hid_usage, pressed, modifiers } => {
                let fields = (hid_usage, (pressed, modifiers));
                let body = KeyEventFields::enc(fields);
                assert(Self::enc(m) + tail =~= u32::enc(3) + (body + tail));
                u32::round_trip(3, body + tail);
                KeyEventFields::round_trip(fields, tail);
            },
        }
    }

    proof fn takes_a_byte(m: InputEvent) {
    }

    fn put(&self, out: &mut Vec<u8>) {
        match *self {
            InputEvent::MouseMove { dx, dy } => {
                0u32.put(out);
                (dx, dy).put(out);
            },
            InputEvent::MouseButton { button, pressed } => {
                1u32.put(out);
                (button, pressed).put(out);
            },
            InputEvent::MouseScroll { dx_bits, dy_bits } => {
                2u32.put(out);
                (Bits32(dx_bits), Bits32(dy_bits)).put(out);
            },
            InputEvent::KeyEvent { hid_usage, pressed, modifiers } => {
                3u32.put(out);
                (hid_usage, (pressed, modifiers)).put(out);
            },
        }
        assert(out@ =~= old(out)@ + Self::enc(self.model()));
    }

    fn get(input: &[u8], at: usize) -> (r: Option<(InputEvent, usize)>) {
        match u32::get(input, at) {
            None => None,
            Some((tag, n)) => if tag == 0 {
                match <(i16, i16)>::get(input, n) {
                    None => None,
                    Some(((dx, dy), m)) => Some((InputEvent::MouseMove { dx, dy }, m)),
                }
            } else if tag == 1 {
                match <(MouseButton, bool)>::get(input, n) {
                    None => None,
                    Some(((button, pressed), m)) => Some(
                        (InputEvent::MouseButton { button, pressed }, m),
                    ),
                }
            } else if tag == 2 {
                match <(Bits32, Bits32)>::get(input, n) {
                    None => None,
                    Some(((dx, dy), m)) => Some(
                        (InputEvent::MouseScroll { dx_bits: dx.0, dy_bits: dy.0 }, m),
                    ),
                }
            } else if tag == 3 {
                match KeyEventFields::get(input, n) {
                    None => None,
                    Some(((hid_usage, (pressed, modifiers)), m)) => Some(
                        (InputEvent::KeyEvent { hid_usage, pressed, modifiers }, m),
                    ),
                }
            } else {
                None
            },
        }
    }
}

/// The fields of `InputPacket` in wire order.
type InputPacketFields = (u64, InputEvent);

impl Wire for InputPacket {
    type Model = InputPacket;

    open spec fn model(&self) -> InputPacket {
        *self
    }

    open spec fn enc(m: InputPacket) -> Seq<u8> {
        InputPacketFields::enc((m.timestamp_us, m.event))
    }

    open spec fn dec(s: Seq<u8>) -> Option<(InputPacket, Seq<u8>)> {
        match InputPacketFields::dec(s) {
            None => None,
            Some(((timestamp_us, event), rest)) => Some((
                InputPacket { timestamp_us, event },
                rest,
            )),
        }
    }

    proof fn round_trip(m: InputPacket, tail: Seq<u8>) {
        InputPacketFields::round_trip((m.timestamp_us, m.event), tail);
    }

    proof fn takes_a_byte(m: InputPacket) {
        InputPacketFields::takes_a_byte((m.timestamp_us, m.event));
    }

    fn put(&self, out: &mut Vec<u8>) {
        (self.timestamp_us, self.event).put(out);
    }

    fn get(input: &[u8], at: usize) -> (r: Option<(InputPacket, usize)>) {
        match InputPacketFields::get(input, at) {
            None => None,
            Some(((timestamp_us, event), n)) => Some((
                InputPacket { timestamp_us, event },
                n,
            )),
        }
    }
}

/// The fields of `DisplayInfo` in wire order.
type DisplayInfoFields = (String, (u32, (String, (Option<String>, (u32, u32)))));

impl Wire for DisplayInfo {
    type Model = DisplayInfoView;

    open spec fn model(&self) -> DisplayInfoView {
        self@
    }

    open spec fn enc(m: DisplayInfoView) -> Seq<u8> {
        DisplayInfoFields::enc((m.id, (m.index, (m.name, (m.description, (m.width, m.height))))))
    }

    open spec fn dec(s: Seq<u8>) -> Option<(DisplayInfoView, Seq<u8>)> {
        match DisplayInfoFields::dec(s) {
            None => None,
            Some(((id, (index, (name, (description, (width, height))))), rest)) => Some((
                DisplayInfoView { id, index, name, description, width, height },
                rest,
            )),
        }
    }

    proof fn round_trip(m: DisplayInfoView, tail: Seq<u8>) {
        DisplayInfoFields::round_trip((m.id, (m.index, (m.name, (m.description, (m.width, m.height))))), tail);
    }

    proof fn takes_a_byte(m: DisplayInfoView) {
        DisplayInfoFields::takes_a_byte((m.id, (m.index, (m.name, (m.description, (m.width, m.height))))));
    }

    fn put(&self, out: &mut Vec<u8>) {
        self.id.put(out);
        self.index.put(out);
        self.name.put(out);
        self.description.put(out);
        self.width.put(out);
        self.height.put(out);
        assert(out@ =~= old(out)@ + Self::enc(self.model()));
    }

    fn get(input: &[u8], at: usize) -> (r: Option<(DisplayInfo, usize)>) {
        match DisplayInfoFields::get(input, at) {
            None => None,
            Some(((id, (index, (name, (description, (width, height))))), n)) => Some((
                DisplayInfo { id, index, name, description, width, height },
                n,
            )),
        }
    }
}

/// Whether and between which bounds the rate may move, then the size asked for.
type RateFields = (bool, (u8, (u8, (u32, (u32, (u32, u32))))));

/// The fields of `SessionRequest` in wire order.
type SessionRequestFields = (u32, (String, (RateFields, (Vec<Codec>, Option<String>))));

/// The fields of a session request, grouped as `SessionRequestFields` groups them.
pub open spec fn session_request_fields(m: SessionRequestView) -> (
    u32,
    (
        Seq<char>,
        ((bool, (u8, (u8, (u32, (u32, (u32, u32)))))), (Seq<Codec>, Option<Seq<char>>)),
    ),
) {
    (
        m.version,
        (
            m.client_session_id,
            (
                (
                    m.adaptive_streaming,
                    (
                        m.max_fps,
                        (
                            m.min_fps,
                            (m.min_bitrate_bps, (m.max_bitrate_bps, (m.width, m.height))),
                        ),
                    ),
                ),
                (m.preferred_codecs, m.display_id),
            ),
        ),
    )
}

impl Wire for SessionRequest {
    type Model = SessionRequestView;

    open spec fn model(&self) -> SessionRequestView {
        self@
    }

    open spec fn enc(m: SessionRequestView) -> Seq<u8> {
        SessionRequestFields::enc(session_request_fields(m))
    }

    open spec fn dec(s: Seq<u8>) -> Option<(SessionRequestView, Seq<u8>)> {
        match SessionRequestFields::dec(s) {
            None => None,
            Some(((version, (client_session_id, (rate, (preferred_codecs, display_id)))), rest)) => {
                let (
                    adaptive_streaming,
                    (max_fps, (min_fps, (min_bitrate_bps, (max_bitrate_bps, (width, height))))),
                ) = rate;
                Some(
                    (
                        SessionRequestView {
                            version,
                            client_session_id,
                            adaptive_streaming,
                            max_fps,
                            min_fps,
                            min_bitrate_bps,
                            max_bitrate_bps,
                            width,
                            height,
                            preferred_codecs,
                            display_id,
                        },
                        rest,
                    ),
                )
            },
        }
    }

    proof fn round_trip(m: SessionRequestView, tail: Seq<u8>) {
        SessionRequestFields::round_trip(session_request_fields(m), tail);
    }

    proof fn takes_a_byte(m: SessionRequestView) {
        SessionRequestFields::takes_a_byte(session_request_fields(m));
    }

    fn put(&self, out: &mut Vec<u8>) {
        let rate: RateFields = (
            self.adaptive_streaming,
            (
                self.max_fps,
                (
                    self.min_fps,
                    (self.min_bitrate_bps, (self.max_bitrate_bps, (self.width, self.height))),
                ),
            ),
        );
        let ghost rate_bytes = RateFields::enc(rate.model());
        self.version.put(out);
        self.client_session_id.put(out);
        rate.put(out);
        self.preferred_codecs.put(out);
        self.display_id.put(out);
        assert(out@ =~= old(out)@ + (u32::enc(self.version) + (String::enc(
            self.client_session_id@,
        ) + (rate_bytes + (Vec::<Codec>::enc(self.preferred_codecs@) + Option::<String>::enc(
            self.display_id.model(),
        ))))));
    }

    fn get(input: &[u8], at: usize) -> (r: Option<(SessionRequest, usize)>) {
        match SessionRequestFields::get(input, at) {
            None => None,
            Some(((version, (client_session_id, (rate, (preferred_codecs, display_id)))), n)) => {
                let (
                    adaptive_streaming,
                    (max_fps, (min_fps, (min_bitrate_bps, (max_bitrate_bps, (width, height))))),
                ) = rate;
                Some(
                    (
                        SessionRequest {
                            version,
                            client_session_id,
                            adaptive_streaming,
                            max_fps,
                            min_fps,
                            min_bitrate_bps,
                            max_bitrate_bps,
                            width,
                            height,
                            preferred_codecs,
                            display_id,
                        },
                        n,
                    ),
                )
            },
        }
    }
}

/// A list of displays.
impl Wire for Vec<DisplayInfo> {
    type Model = Seq<DisplayInfoView>;

    open spec fn model(&self) -> Seq<DisplayInfoView> {
        display_views(self@)
    }

    open spec fn enc(m: Seq<DisplayInfoView>) -> Seq<u8> {
        enc_list::<DisplayInfo>(m)
    }

    open spec fn dec(s: Seq<u8>) -> Option<(Seq<DisplayInfoView>, Seq<u8>)> {
        dec_list::<DisplayInfo>(s)
    }

    proof fn round_trip(m: Seq<DisplayInfoView>, tail: Seq<u8>) {
        lemma_list_read::<DisplayInfo>(m, tail);
    }

    proof fn takes_a_byte(m: Seq<DisplayInfoView>) {
        lemma_varint_len(m.len());
    }

    fn put(&self, out: &mut Vec<u8>) {
        assert(models(self@) =~= display_views(self@));
        put_list(self, out);
    }

    fn get(input: &[u8], at: usize) -> (r: Option<(Vec<DisplayInfo>, usize)>) {
        match get_list::<DisplayInfo>(input, at) {
            None => None,
            Some((displays, n)) => {
                assert(models(displays@) =~= display_views(displays@));
                Some((displays, n))
            },
        }
    }
}

/// The fields of `SessionAccept` in wire order.
type SessionAcceptFields = (Codec, (u8, (u32, (u32, (VideoTransport, DisplayInfo)))));

impl Wire for SessionAccept {
    type Model = SessionAcceptView;

    open spec fn model(&self) -> SessionAcceptView {
        self@
    }

    open spec fn enc(m: SessionAcceptView) -> Seq<u8> {
        SessionAcceptFields::enc((m.codec, (m.fps, (m.width, (m.height, (m.video_transport, m.selected_display))))))
    }

    open spec fn dec(s: Seq<u8>) -> Option<(SessionAcceptView, Seq<u8>)> {
        match SessionAcceptFields::dec(s) {
            None => None,
            Some(((codec, (fps, (width, (height, (video_transport, selected_display))))), rest)) => Some((
                SessionAcceptView { codec, fps, width, height, video_transport, selected_display },
                rest,
            )),
        }
    }

    proof fn round_trip(m: SessionAcceptView, tail: Seq<u8>) {
        SessionAcceptFields::round_trip((m.codec, (m.fps, (m.width, (m.height, (m.video_transport, m.selected_display))))), tail);
    }

    proof fn takes_a_byte(m: SessionAcceptView) {
        SessionAcceptFields::takes_a_byte((m.codec, (m.fps, (m.width, (m.height, (m.video_transport, m.selected_display))))));
    }

    fn put(&self, out: &mut Vec<u8>) {
        self.codec.put(out);
        self.fps.put(out);
        self.width.put(out);
        self.height.put(out);
        self.video_transport.put(out);
        self.selected_display.put(out);
        assert(out@ =~= old(out)@ + Self::enc(self.model()));
    }

    fn get(input: &[u8], at: usize) -> (r: Option<(SessionAccept, usize)>) {
        match SessionAcceptFields::get(input, at) {
            None => None,
            Some(((codec, (fps, (width, (height, (video_transport, selected_display))))), n)) => Some((
                SessionAccept { codec, fps, width, height, video_transport, selected_display },
                n,
            )),
        }
    }
}

/// The fields of `SessionReject` in wire order.
type SessionRejectFields = String;

impl Wire for SessionReject {
    type Model = Seq<char>;

    open spec fn model(&self) -> Seq<char> {
        self@
    }

    open spec fn enc(m: Seq<char>) -> Seq<u8> {
        SessionRejectFields::enc(m)
    }

    open spec fn dec(s: Seq<u8>) -> Option<(Seq<char>, Seq<u8>)> {
        SessionRejectFields::dec(s)
    }

    proof fn round_trip(m: Seq<char>, tail: Seq<u8>) {
        SessionRejectFields::round_trip(m, tail);
    }

    proof fn takes_a_byte(m: Seq<char>) {
        SessionRejectFields::takes_a_byte(m);
    }

    fn put(&self, out: &mut Vec<u8>) {
        self.reason.put(out);
        assert(out@ =~= old(out)@ + Self::enc(self.model()));
    }

    fn get(input: &[u8], at: usize) -> (r: Option<(SessionReject, usize)>) {
        match SessionRejectFields::get(input, at) {
            None => None,
            Some((reason, n)) => Some((
                SessionReject { reason },
                n,
            )),
        }
    }
}

/// The fields of `ClientTelemetry` in wire order.
type ClientTelemetryFields = (u32, (u32, (u32, (u32, (u32, (u32, u32))))));

impl Wire for ClientTelemetry {
    type Model = ClientTelemetry;

    open spec fn model(&self) -> ClientTelemetry {
        *self
    }

    open spec fn enc(m: ClientTelemetry) -> Seq<u8> {
        ClientTelemetryFields::enc((m.unrecoverable_frames, (m.recovered_frames, (m.recovered_fragments, (m.presented_frames, (m.render_dropped_frames, (m.avg_decode_queue_us, m.avg_render_queue_us)))))))
    }

    open spec fn dec(s: Seq<u8>) -> Option<(ClientTelemetry, Seq<u8>)> {
        match ClientTelemetryFields::dec(s) {
            None => None,
            Some(((unrecoverable_frames, (recovered_frames, (recovered_fragments, (presented_frames, (render_dropped_frames, (avg_decode_queue_us, avg_render_queue_us)))))), rest)) => Some((
                ClientTelemetry { unrecoverable_frames, recovered_frames, recovered_fragments, presented_frames, render_dropped_frames, avg_decode_queue_us, avg_render_queue_us },
                rest,
            )),
        }
    }

    proof fn round_trip(m: ClientTelemetry, tail: Seq<u8>) {
        ClientTelemetryFields::round_trip((m.unrecoverable_frames, (m.recovered_frames, (m.recovered_fragments, (m.presented_frames, (m.render_dropped_frames, (m.avg_decode_queue_us, m.avg_render_queue_us)))))), tail);
    }

    proof fn takes_a_byte(m: ClientTelemetry) {
        ClientTelemetryFields::takes_a_byte((m.unrecoverable_frames, (m.recovered_frames, (m.recovered_fragments, (m.presented_frames, (m.render_dropped_frames, (m.avg_decode_queue_us, m.avg_render_queue_us)))))));
    }

    fn put(&self, out: &mut Vec<u8>) {
        (self.unrecoverable_frames, (self.recovered_frames, (self.recovered_fragments, (self.presented_frames, (self.render_dropped_frames, (self.avg_decode_queue_us, self.avg_render_queue_us)))))).put(out);
    }

    fn get(input: &[u8], at: usize) -> (r: Option<(ClientTelemetry, usize)>) {
        match ClientTelemetryFields::get(input, at) {
            None => None,
            Some(((unrecoverable_frames, (recovered_frames, (recovered_fragments, (presented_frames, (render_dropped_frames, (avg_decode_queue_us, avg_render_queue_us)))))), n)) => Some((
                ClientTelemetry { unrecoverable_frames, recovered_frames, recovered_fragments, presented_frames, render_dropped_frames, avg_decode_queue_us, avg_render_queue_us },
                n,
            )),
        }
    }
}

/// The fields of `ServerTelemetry` in wire order.
type ServerTelemetryFields = (u32, (u32, (u32, (u32, (u32, (u32, (u32, (u8, (u8, (u32, (u32, (u8, (u32, (u32, (u32, u32)))))))))))))));

impl Wire for ServerTelemetry {
    type Model = ServerTelemetry;

    open spec fn model(&self) -> ServerTelemetry {
        *self
    }

    open spec fn enc(m: ServerTelemetry) -> Seq<u8> {
        ServerTelemetryFields::enc((m.avg_capture_wait_us, (m.avg_capture_convert_us, (m.avg_encode_us, (m.avg_send_us, (m.avg_send_wait_us, (m.max_send_wait_us, (m.avg_pipeline_us, (m.send_queue_frames, (m.idr_count, (m.frame_count, (m.encoder_bitrate_bps, (m.target_fps, (m.video_datagrams_sent, (m.video_datagrams_dropped, (m.max_datagram_size, m.fragment_payload_bytes))))))))))))))))
    }

    open spec fn dec(s: Seq<u8>) -> Option<(ServerTelemetry, Seq<u8>)> {
        match ServerTelemetryFields::dec(s) {
            None => None,
            Some(((avg_capture_wait_us, (avg_capture_convert_us, (avg_encode_us, (avg_send_us, (avg_send_wait_us, (max_send_wait_us, (avg_pipeline_us, (send_queue_frames, (idr_count, (frame_count, (encoder_bitrate_bps, (target_fps, (video_datagrams_sent, (video_datagrams_dropped, (max_datagram_size, fragment_payload_bytes))))))))))))))), rest)) => Some((
                ServerTelemetry { avg_capture_wait_us, avg_capture_convert_us, avg_encode_us, avg_send_us, avg_send_wait_us, max_send_wait_us, avg_pipeline_us, send_queue_frames, idr_count, frame_count, encoder_bitrate_bps, target_fps, video_datagrams_sent, video_datagrams_dropped, max_datagram_size, fragment_payload_bytes },
                rest,
            )),
        }
    }

    proof fn round_trip(m: ServerTelemetry, tail: Seq<u8>) {
        ServerTelemetryFields::round_trip((m.avg_capture_wait_us, (m.avg_capture_convert_us, (m.avg_encode_us, (m.avg_send_us, (m.avg_send_wait_us, (m.max_send_wait_us, (m.avg_pipeline_us, (m.send_queue_frames, (m.idr_count, (m.frame_count, (m.encoder_bitrate_bps, (m.target_fps, (m.video_datagrams_sent, (m.video_datagrams_dropped, (m.max_datagram_size, m.fragment_payload_bytes))))))))))))))), tail);
    }

    proof fn takes_a_byte(m: ServerTelemetry) {
        ServerTelemetryFields::takes_a_byte((m.avg_capture_wait_us, (m.avg_capture_convert_us, (m.avg_encode_us, (m.avg_send_us, (m.avg_send_wait_us, (m.max_send_wait_us, (m.avg_pipeline_us, (m.send_queue_frames, (m.idr_count, (m.frame_count, (m.encoder_bitrate_bps, (m.target_fps, (m.video_datagrams_sent, (m.video_datagrams_dropped, (m.max_datagram_size, m.fragment_payload_bytes))))))))))))))));
    }

    fn put(&self, out: &mut Vec<u8>) {
        (self.avg_capture_wait_us, (self.avg_capture_convert_us, (self.avg_encode_us, (self.avg_send_us, (self.avg_send_wait_us, (self.max_send_wait_us, (self.avg_pipeline_us, (self.send_queue_frames, (self.idr_count, (self.frame_count, (self.encoder_bitrate_bps, (self.target_fps, (self.video_datagrams_sent, (self.video_datagrams_dropped, (self.max_datagram_size, self.fragment_payload_bytes))))))))))))))).put(out);
    }

    fn get(input: &[u8], at: usize) -> (r: Option<(ServerTelemetry, usize)>) {
        match ServerTelemetryFields::get(input, at) {
            None => None,
            Some(((avg_capture_wait_us, (avg_capture_convert_us, (avg_encode_us, (avg_send_us, (avg_send_wait_us, (max_send_wait_us, (avg_pipeline_us, (send_queue_frames, (idr_count, (frame_count, (encoder_bitrate_bps, (target_fps, (video_datagrams_sent, (video_datagrams_dropped, (max_datagram_size, fragment_payload_bytes))))))))))))))), n)) => Some((
                ServerTelemetry { avg_capture_wait_us, avg_capture_convert_us, avg_encode_us, avg_send_us, avg_send_wait_us, max_send_wait_us, avg_pipeline_us, send_queue_frames, idr_count, frame_count, encoder_bitrate_bps, target_fps, video_datagrams_sent, video_datagrams_dropped, max_datagram_size, fragment_payload_bytes },
                n,
            )),
        }
    }
}

/// The fields of `RemoteCursorShape` in wire order.
type RemoteCursorShapeFields = (u64, (RemoteCursorShapeKind, (u32, (u32, (u32, Vec<u8>)))));

impl Wire for RemoteCursorShape {
    type Model = RemoteCursorShapeView;

    open spec fn model(&self) -> RemoteCursorShapeView {
        self@
    }

    open spec fn enc(m: RemoteCursorShapeView) -> Seq<u8> {
        RemoteCursorShapeFields::enc((m.generation, (m.kind, (m.width, (m.height, (m.pitch, m.data))))))
    }

    open spec fn dec(s: Seq<u8>) -> Option<(RemoteCursorShapeView, Seq<u8>)> {
        match RemoteCursorShapeFields::dec(s) {
            None => None,
            Some(((generation, (kind, (width, (height, (pitch, data))))), rest)) => Some((
                RemoteCursorShapeView { generation, kind, width, height, pitch, data },
                rest,
            )),
        }
    }

    proof fn round_trip(m: RemoteCursorShapeView, tail: Seq<u8>) {
        RemoteCursorShapeFields::round_trip((m.generation, (m.kind, (m.width, (m.height, (m.pitch, m.data))))), tail);
    }

    proof fn takes_a_byte(m: RemoteCursorShapeView) {
        RemoteCursorShapeFields::takes_a_byte((m.generation, (m.kind, (m.width, (m.height, (m.pitch, m.data))))));
    }

    fn put(&self, out: &mut Vec<u8>) {
        self.generation.put(out);
        self.kind.put(out);
        self.width.put(out);
        self.height.put(out);
        self.pitch.put(out);
        self.data.put(out);
        assert(out@ =~= old(out)@ + Self::enc(self.model()));
    }

    fn get(input: &[u8], at: usize) -> (r: Option<(RemoteCursorShape, usize)>) {
        match RemoteCursorShapeFields::get(input, at) {
            None => None,
            Some(((generation, (kind, (width, (height, (pitch, data))))), n)) => Some((
                RemoteCursorShape { generation, kind, width, height, pitch, data },
                n,
            )),
        }
    }
}

/// The fields of `RemoteCursorState` in wire order.
type RemoteCursorStateFields = (u64, (u64, (bool, (i32, i32))));

impl Wire for RemoteCursorState {
    type Model = RemoteCursorState;

    open spec fn model(&self) -> RemoteCursorState {
        *self
    }

    open spec fn enc(m: RemoteCursorState) -> Seq<u8> {
        RemoteCursorStateFields::enc((m.timestamp_us, (m.generation, (m.visible, (m.x, m.y)))))
    }

    open spec fn dec(s: Seq<u8>) -> Option<(RemoteCursorState, Seq<u8>)> {
        match RemoteCursorStateFields::dec(s) {
            None => None,
            Some(((timestamp_us, (generation, (visible, (x, y)))), rest)) => Some((
                RemoteCursorState { timestamp_us, generation, visible, x, y },
                rest,
            )),
        }
    }

    proof fn round_trip(m: RemoteCursorState, tail: Seq<u8>) {
        RemoteCursorStateFields::round_trip((m.timestamp_us, (m.generation, (m.visible, (m.x, m.y)))), tail);
    }

    proof fn takes_a_byte(m: RemoteCursorState) {
        RemoteCursorStateFields::takes_a_byte((m.timestamp_us, (m.generation, (m.visible, (m.x, m.y)))));
    }

    fn put(&self, out: &mut Vec<u8>) {
        (self.timestamp_us, (self.generation, (self.visible, (self.x, self.y)))).put(out);
    }

    fn get(input: &[u8], at: usize) -> (r: Option<(RemoteCursorState, usize)>) {
        match RemoteCursorStateFields::get(input, at) {
            None => None,
            Some(((timestamp_us, (generation, (visible, (x, y)))), n)) => Some((
                RemoteCursorState { timestamp_us, generation, visible, x, y },
                n,
            )),
        }
    }
}

impl Wire for ControlMsg {
    type Model = ControlMsgView;

    open spec fn model(&self) -> ControlMsgView {
        self@
    }

    open spec fn enc(m: ControlMsgView) -> Seq<u8> {
        match m {
            ControlMsgView::QueryDisplays => u32::enc(0),
            ControlMsgView::AvailableDisplays(x) => enc_variant::<Vec<DisplayInfo>>(1, x),
            ControlMsgView::SessionRequest(x) => enc_variant::<SessionRequest>(2, x),
            ControlMsgView::SessionAccept(x) => enc_variant::<SessionAccept>(3, x),
            ControlMsgView::SessionReject(x) => enc_variant::<SessionReject>(4, x),
            ControlMsgView::ClientTelemetry(x) => enc_variant::<ClientTelemetry>(5, x),
            ControlMsgView::RequestIdr => u32::enc(6),
            ControlMsgView::Heartbeat(x) => enc_variant::<ServerTelemetry>(7, x),
            ControlMsgView::CursorShape(x) => enc_variant::<RemoteCursorShape>(8, x),
            ControlMsgView::CursorState(x) => enc_variant::<RemoteCursorState>(9, x),
            ControlMsgView::Goodbye => u32::enc(10),
            ControlMsgView::FrameLost(x) => enc_variant::<u32>(11, x),
        }
    }

    open spec fn dec(s: Seq<u8>) -> Option<(ControlMsgView, Seq<u8>)> {
        match u32::dec(s) {
            None => None,
            Some((tag, rest)) => if tag == 0 {
                Some((ControlMsgView::QueryDisplays, rest))
            } else if tag == 1 {
                match dec_content::<Vec<DisplayInfo>>(rest) {
                    None => None,
                    Some((x, rest2)) => Some((ControlMsgView::AvailableDisplays(x), rest2)),
                }
            } else if tag == 2 {
                match dec_content::<SessionRequest>(rest) {
                    None => None,
                    Some((x, rest2)) => Some((ControlMsgView::SessionRequest(x), rest2)),
                }
            } else if tag == 3 {
                match dec_content::<SessionAccept>(rest) {
                    None => None,
                    Some((x, rest2)) => Some((ControlMsgView::SessionAccept(x), rest2)),
                }
            } else if tag == 4 {
                match dec_content::<SessionReject>(rest) {
                    None => None,
                    Some((x, rest2)) => Some((ControlMsgView::SessionReject(x), rest2)),
                }
            } else if tag == 5 {
                match dec_content::<ClientTelemetry>(rest) {
                    None => None,
                    Some((x, rest2)) => Some((ControlMsgView::ClientTelemetry(x), rest2)),
                }
            } else if tag == 6 {
                Some((ControlMsgView::RequestIdr, rest))
            } else if tag == 7 {
                match dec_content::<ServerTelemetry>(rest) {
                    None => None,
                    Some((x, rest2)) => Some((ControlMsgView::Heartbeat(x), rest2)),
                }
            } else if tag == 8 {
                match dec_content::<RemoteCursorShape>(rest) {
                    None => None,
                    Some((x, rest2)) => Some((ControlMsgView::CursorShape(x), rest2)),
                }
            } else if tag == 9 {
                match dec_content::<RemoteCursorState>(rest) {
                    None => None,
                    Some((x, rest2)) => Some((ControlMsgView::CursorState(x), rest2)),
                }
            } else if tag == 10 {
                Some((ControlMsgView::Goodbye, rest))
            } else if tag == 11 {
                match dec_content::<u32>(rest) {
                    None => None,
                    Some((x, rest2)) => Some((ControlMsgView::FrameLost(x), rest2)),
                }
            } else {
                None
            },
        }
    }

    proof fn round_trip(m: ControlMsgView, tail: Seq<u8>) {
        match m {
            ControlMsgView::QueryDisplays => u32::round_trip(0, tail),
            ControlMsgView::AvailableDisplays(x) => lemma_variant_read::<Vec<DisplayInfo>>(1, x, tail),
            ControlMsgView::SessionRequest(x) => lemma_variant_read::<SessionRequest>(2, x, tail),
            ControlMsgView::SessionAccept(x) => lemma_variant_read::<SessionAccept>(3, x, tail),
            ControlMsgView::SessionReject(x) => lemma_variant_read::<SessionReject>(4, x, tail),
            ControlMsgView::ClientTelemetry(x) => lemma_variant_read::<ClientTelemetry>(5, x, tail),
            ControlMsgView::RequestIdr => u32::round_trip(6, tail),
            ControlMsgView::Heartbeat(x) => lemma_variant_read::<ServerTelemetry>(7, x, tail),
            ControlMsgView::CursorShape(x) => lemma_variant_read::<RemoteCursorShape>(8, x, tail),
            ControlMsgView::CursorState(x) => lemma_variant_read::<RemoteCursorState>(9, x, tail),
            ControlMsgView::Goodbye => u32::round_trip(10, tail),
            ControlMsgView::FrameLost(x) => lemma_variant_read::<u32>(11, x, tail),
        }
    }

    proof fn takes_a_byte(m: ControlMsgView) {
        match m {
            ControlMsgView::QueryDisplays => u32::takes_a_byte(0),
            ControlMsgView::AvailableDisplays(x) => lemma_variant_len::<Vec<DisplayInfo>>(1, x),
            ControlMsgView::SessionRequest(x) => lemma_variant_len::<SessionRequest>(2, x),
            ControlMsgView::SessionAccept(x) => lemma_variant_len::<SessionAccept>(3, x),
            ControlMsgView::SessionReject(x) => lemma_variant_len::<SessionReject>(4, x),
            ControlMsgView::ClientTelemetry(x) => lemma_variant_len::<ClientTelemetry>(5, x),
            ControlMsgView::RequestIdr => u32::takes_a_byte(6),
            ControlMsgView::Heartbeat(x) => lemma_variant_len::<ServerTelemetry>(7, x),
            ControlMsgView::CursorShape(x) => lemma_variant_len::<RemoteCursorShape>(8, x),
            ControlMsgView::CursorState(x) => lemma_variant_len::<RemoteCursorState>(9, x),
            ControlMsgView::Goodbye => u32::takes_a_byte(10),
            ControlMsgView::FrameLost(x) => lemma_variant_len::<u32>(11, x),
        }
    }

    fn put(&self, out: &mut Vec<u8>) {
        match self {
            ControlMsg::QueryDisplays => 0u32.put(out),
            ControlMsg::AvailableDisplays(x) => put_variant(1, x, out),
            ControlMsg::SessionRequest(x) => put_variant(2, x, out),
            ControlMsg::SessionAccept(x) => put_variant(3, x, out),
            ControlMsg::SessionReject(x) => put_variant(4, x, out),
            ControlMsg::ClientTelemetry(x) => put_variant(5, x, out),
            ControlMsg::RequestIdr => 6u32.put(out),
            ControlMsg::Heartbeat(x) => put_variant(7, x, out),
            ControlMsg::CursorShape(x) => put_variant(8, x, out),
            ControlMsg::CursorState(x) => put_variant(9, x, out),
            ControlMsg::Goodbye => 10u32.put(out),
            ControlMsg::FrameLost(x) => put_variant(11, x, out),
        }
    }

    fn get(input: &[u8], at: usize) -> (r: Option<(ControlMsg, usize)>) {
        match u32::get(input, at) {
            None => None,
            Some((tag, n)) => if tag == 0 {
                Some((ControlMsg::QueryDisplays, n))
            } else if tag == 1 {
                match get_content::<Vec<DisplayInfo>>(input, n) {
                    None => None,
                    Some((x, m)) => Some((ControlMsg::AvailableDisplays(x), m)),
                }
            } else if tag == 2 {
                match get_content::<SessionRequest>(input, n) {
                    None => None,
                    Some((x, m)) => Some((ControlMsg::SessionRequest(x), m)),
                }
            } else if tag == 3 {
                match get_content::<SessionAccept>(input, n) {
                    None => None,
                    Some((x, m)) => Some((ControlMsg::SessionAccept(x), m)),
                }
            } else if tag == 4 {
                match get_content::<SessionReject>(input, n) {
                    None => None,
                    Some((x, m)) => Some((ControlMsg::SessionReject(x), m)),
                }
            } else if tag == 5 {
                match get_content::<ClientTelemetry>(input, n) {
                    None => None,
                    Some((x, m)) => Some((ControlMsg::ClientTelemetry(x), m)),
                }
            } else if tag == 6 {
                Some((ControlMsg::RequestIdr, n))
            } else if tag == 7 {
                match get_content::<ServerTelemetry>(input, n) {
                    None => None,
                    Some((x, m)) => Some((ControlMsg::Heartbeat(x), m)),
                }
            } else if tag == 8 {
                match get_content::<RemoteCursorShape>(input, n) {
                    None => None,
                    Some((x, m)) => Some((ControlMsg::CursorShape(x), m)),
                }
            } else if tag == 9 {
                match get_content::<RemoteCursorState>(input, n) {
                    None => None,
                    Some((x, m)) => Some((ControlMsg::CursorState(x), m)),
                }
            } else if tag == 10 {
                Some((ControlMsg::Goodbye, n))
            } else if tag == 11 {
                match get_content::<u32>(input, n) {
                    None => None,
                    Some((x, m)) => Some((ControlMsg::FrameLost(x), m)),
                }
            } else {
                None
            },
        }
    }
}

/// A cursor state takes at most 37 bytes.
pub proof fn lemma_cursor_state_len(m: RemoteCursorState)
    ensures
        RemoteCursorState::enc(m).len() <= 37,
{
    lemma_varint_len(m.timestamp_us as nat);
    lemma_varint_len(m.generation as nat);
    lemma_varint_len(zigzag(m.x as int));
    lemma_varint_len(zigzag(m.y as int));
}

/// An input packet takes at most 37 bytes.
pub proof fn lemma_input_packet_len(m: InputPacket)
    ensures
        InputPacket::enc(m).len() <= 37,
{
    lemma_varint_len(m.timestamp_us as nat);
    match m.event {
        InputEvent::MouseMove { dx, dy } => {
            lemma_varint_len(zigzag(dx as int));
            lemma_varint_len(zigzag(dy as int));
        },
        InputEvent::MouseButton { button, pressed } => {},
        InputEvent::MouseScroll { dx_bits, dy_bits } => {
            lemma_le_bytes_len(dx_bits as nat, 4);
            lemma_le_bytes_len(dy_bits as nat, 4);
        },
        InputEvent::KeyEvent { hid_usage, pressed, modifiers } => {
            lemma_varint_len(hid_usage as nat);
            lemma_varint_len(modifiers.bits as nat);
        },
    }
}

/// The number of each kind of thing, which is its first byte.
pub proof fn kinds_have_their_numbers(n: u8)
    ensures
        Codec::enc(Codec::H264) == seq![0u8],
        Codec::enc(Codec::Hevc) == seq![1u8],
        Codec::enc(Codec::Av1) == seq![2u8],
        VideoTransport::enc(VideoTransport::QuicDatagram) == seq![0u8],
        RemoteCursorShapeKind::enc(RemoteCursorShapeKind::Color) == seq![0u8],
        RemoteCursorShapeKind::enc(RemoteCursorShapeKind::MaskedColor) == seq![1u8],
        RemoteCursorShapeKind::enc(RemoteCursorShapeKind::Monochrome) == seq![2u8],
        MouseButton::enc(MouseButton::Left) == seq![0u8],
        MouseButton::enc(MouseButton::Right) == seq![1u8],
        MouseButton::enc(MouseButton::Middle) == seq![2u8],
        MouseButton::enc(MouseButton::Side(n)) == seq![3u8, n],
{
    assert(MouseButton::enc(MouseButton::Side(n)) =~= seq![3u8, n]);
}

/// An input packet is its time, the number of the event's kind and then what the event
/// tells, in this order; scrolling by four bytes for each direction, the lowest first.
pub proof fn input_packets_tell_time_and_event(
    t: u64,
    dx: i16,
    dy: i16,
    button: MouseButton,
    pressed: bool,
    dx_bits: u32,
    dy_bits: u32,
    hid_usage: u32,
    modifiers: KeyModifiers,
)
    ensures
        InputPacket::enc(
            InputPacket { timestamp_us: t, event: InputEvent::MouseMove { dx, dy } },
        ) == u64::enc(t) + seq![0u8] + i16::enc(dx) + i16::enc(dy),
        InputPacket::enc(
            InputPacket { timestamp_us: t, event: InputEvent::MouseButton { button, pressed } },
        ) == u64::enc(t) + seq![1u8] + MouseButton::enc(button) + bool::enc(pressed),
        InputPacket::enc(
            InputPacket { timestamp_us: t, event: InputEvent::MouseScroll { dx_bits, dy_bits } },
        ) == u64::enc(t) + seq![2u8] + Bits32::enc(Bits32(dx_bits)) + Bits32::enc(Bits32(dy_bits)),
        InputPacket::enc(
            InputPacket {
                timestamp_us: t,
                event: InputEvent::KeyEvent { hid_usage, pressed, modifiers },
            },
        ) == u64::enc(t) + seq![3u8] + u32::enc(hid_usage) + bool::enc(pressed) + u32::enc(
            modifiers.bits,
        ),
{
    assert(InputPacket::enc(
        InputPacket { timestamp_us: t, event: InputEvent::MouseMove { dx, dy } },
    ) =~= u64::enc(t) + seq![0u8] + i16::enc(dx) + i16::enc(dy));
    assert(InputPacket::enc(
        InputPacket { timestamp_us: t, event: InputEvent::MouseButton { button, pressed } },
    ) =~= u64::enc(t) + seq![1u8] + MouseButton::enc(button) + bool::enc(pressed));
    assert(InputPacket::enc(
        InputPacket { timestamp_us: t, event: InputEvent::MouseScroll { dx_bits, dy_bits } },
    ) =~= u64::enc(t) + seq![2u8] + Bits32::enc(Bits32(dx_bits)) + Bits32::enc(Bits32(dy_bits)));
    assert(InputPacket::enc(
        InputPacket {
            timestamp_us: t,
            event: InputEvent::KeyEvent { hid_usage, pressed, modifiers },
        },
    ) =~= u64::enc(t) + seq![3u8] + u32::enc(hid_usage) + bool::enc(pressed) + u32::enc(
        modifiers.bits,
    ));
}

/// A display is told by its identifier, its index, its name, its description and its size.
pub proof fn displays_are_told_in_this_order(m: DisplayInfoView)
    ensures
        DisplayInfo::enc(m) == String::enc(m.id) + u32::enc(m.index) + String::enc(m.name)
            + Option::<String>::enc(m.description) + u32::enc(m.width) + u32::enc(m.height),
{
    assert(DisplayInfo::enc(m) =~= String::enc(m.id) + u32::enc(m.index) + String::enc(m.name)
        + Option::<String>::enc(m.description) + u32::enc(m.width) + u32::enc(m.height));
}

/// A cursor state is told by its time, its generation, whether it is visible, and where it
/// stands; a shape by its generation, its kind, its size, its pitch and its bytes.
pub proof fn cursors_are_told_in_this_order(m: RemoteCursorState, shape: RemoteCursorShapeView)
    ensures
        RemoteCursorState::enc(m) == u64::enc(m.timestamp_us) + u64::enc(m.generation) + bool::enc(
            m.visible,
        ) + i32::enc(m.x) + i32::enc(m.y),
        RemoteCursorShape::enc(shape) == u64::enc(shape.generation) + RemoteCursorShapeKind::enc(
            shape.kind,
        ) + u32::enc(shape.width) + u32::enc(shape.height) + u32::enc(shape.pitch) + Vec::<u8>::enc(
            shape.data,
        ),
{
    assert(RemoteCursorState::enc(m) =~= u64::enc(m.timestamp_us) + u64::enc(m.generation)
        + bool::enc(m.visible) + i32::enc(m.x) + i32::enc(m.y));
    assert(RemoteCursorShape::enc(shape) =~= u64::enc(shape.generation)
        + RemoteCursorShapeKind::enc(shape.kind) + u32::enc(shape.width) + u32::enc(shape.height)
        + u32::enc(shape.pitch) + Vec::<u8>::enc(shape.data));
}

/// A session is asked for with the version first, and then the client's identifier, the
/// rates, the size, the codecs and the display.
pub proof fn session_requests_are_told_in_this_order(m: SessionRequestView)
    ensures
        SessionRequest::enc(m) == u32::enc(m.version) + String::enc(m.client_session_id)
            + bool::enc(m.adaptive_streaming) + seq![m.max_fps, m.min_fps] + u32::enc(
            m.min_bitrate_bps,
        ) + u32::enc(m.max_bitrate_bps) + u32::enc(m.width) + u32::enc(m.height) + Vec::<
            Codec,
        >::enc(m.preferred_codecs) + Option::<String>::enc(m.display_id),
{
    assert(SessionRequest::enc(m) =~= u32::enc(m.version) + String::enc(m.client_session_id)
        + bool::enc(m.adaptive_streaming) + seq![m.max_fps, m.min_fps] + u32::enc(m.min_bitrate_bps)
        + u32::enc(m.max_bitrate_bps) + u32::enc(m.width) + u32::enc(m.height) + Vec::<Codec>::enc(
        m.preferred_codecs,
    ) + Option::<String>::enc(m.display_id));
}

/// A session is accepted with its codec, its rate, its size, the transport and the display.
pub proof fn session_acceptances_are_told_in_this_order(m: SessionAcceptView)
    ensures
        SessionAccept::enc(m) == Codec::enc(m.codec) + seq![m.fps] + u32::enc(m.width) + u32::enc(
            m.height,
        ) + VideoTransport::enc(m.video_transport) + DisplayInfo::enc(m.selected_display),
{
    assert(SessionAccept::enc(m) =~= Codec::enc(m.codec) + seq![m.fps] + u32::enc(m.width)
        + u32::enc(m.height) + VideoTransport::enc(m.video_transport) + DisplayInfo::enc(
        m.selected_display,
    ));
}

/// The client reports what was lost and recovered, then what was presented and dropped,
/// then the two averages.
pub proof fn client_telemetry_is_told_in_this_order(m: ClientTelemetry)
    ensures
        ClientTelemetry::enc(m) == u32::enc(m.unrecoverable_frames) + u32::enc(m.recovered_frames)
            + u32::enc(m.recovered_fragments) + u32::enc(m.presented_frames) + u32::enc(
            m.render_dropped_frames,
        ) + u32::enc(m.avg_decode_queue_us) + u32::enc(m.avg_render_queue_us),
{
    assert(ClientTelemetry::enc(m) =~= u32::enc(m.unrecoverable_frames) + u32::enc(
        m.recovered_frames,
    ) + u32::enc(m.recovered_fragments) + u32::enc(m.presented_frames) + u32::enc(
        m.render_dropped_frames,
    ) + u32::enc(m.avg_decode_queue_us) + u32::enc(m.avg_render_queue_us));
}

/// The server reports its times, then its counts and rates, then what became of the
/// datagrams.
pub proof fn server_telemetry_is_told_in_this_order(m: ServerTelemetry)
    ensures
        ServerTelemetry::enc(m) == u32::enc(m.avg_capture_wait_us) + u32::enc(
            m.avg_capture_convert_us,
        ) + u32::enc(m.avg_encode_us) + u32::enc(m.avg_send_us) + u32::enc(m.avg_send_wait_us)
            + u32::enc(m.max_send_wait_us) + u32::enc(m.avg_pipeline_us) + seq![
            m.send_queue_frames,
            m.idr_count,
        ] + u32::enc(m.frame_count) + u32::enc(m.encoder_bitrate_bps) + seq![m.target_fps]
            + u32::enc(m.video_datagrams_sent) + u32::enc(m.video_datagrams_dropped) + u32::enc(
            m.max_datagram_size,
        ) + u32::enc(m.fragment_payload_bytes),
{
    let tail3 = u32::enc(m.video_datagrams_sent) + (u32::enc(m.video_datagrams_dropped) + (u32::enc(
        m.max_datagram_size,
    ) + u32::enc(m.fragment_payload_bytes)));
    let tail2 = seq![m.send_queue_frames] + (seq![m.idr_count] + (u32::enc(m.frame_count) + (
    u32::enc(m.encoder_bitrate_bps) + (seq![m.target_fps] + tail3))));
    let tail1 = u32::enc(m.avg_send_us) + (u32::enc(m.avg_send_wait_us) + (u32::enc(
        m.max_send_wait_us,
    ) + (u32::enc(m.avg_pipeline_us) + tail2)));
    assert(ServerTelemetry::enc(m) == u32::enc(m.avg_capture_wait_us) + (u32::enc(
        m.avg_capture_convert_us,
    ) + (u32::enc(m.avg_encode_us) + tail1)));
    let head1 = u32::enc(m.avg_capture_wait_us) + u32::enc(m.avg_capture_convert_us) + u32::enc(
        m.avg_encode_us,
    );
    assert(ServerTelemetry::enc(m) =~= head1 + tail1);
    let head2 = head1 + u32::enc(m.avg_send_us) + u32::enc(m.avg_send_wait_us) + u32::enc(
        m.max_send_wait_us,
    ) + u32::enc(m.avg_pipeline_us);
    assert(head1 + tail1 =~= head2 + tail2);
    let head3 = head2 + seq![m.send_queue_frames, m.idr_count] + u32::enc(m.frame_count) + u32::enc(
        m.encoder_bitrate_bps,
    ) + seq![m.target_fps];
    assert(head2 + tail2 =~= head3 + tail3);
    assert(head3 + tail3 =~= head3 + u32::enc(m.video_datagrams_sent) + u32::enc(
        m.video_datagrams_dropped,
    ) + u32::enc(m.max_datagram_size) + u32::enc(m.fragment_payload_bytes));
}

/// A message is its number and then what it tells. The numbers: 0 for the query of
/// displays, 1 for the displays, 2 for the request, 3 for the acceptance and 4 for the
/// rejection of a session, 5 for the client's telemetry, 6 for the request of a keyframe, 7
/// for the server's telemetry, 8 for the shape and 9 for the state of the cursor, 10 for a
/// goodbye and 11 for a lost frame.
pub proof fn messages_have_their_numbers(
    displays: Seq<DisplayInfoView>,
    request: SessionRequestView,
    accept: SessionAcceptView,
    reason: Seq<char>,
    client: ClientTelemetry,
    server: ServerTelemetry,
    shape: RemoteCursorShapeView,
    state: RemoteCursorState,
    frame_seq: u32,
)
    ensures
        ControlMsg::enc(ControlMsgView::QueryDisplays) == seq![0u8],
        ControlMsg::enc(ControlMsgView::AvailableDisplays(displays)) == seq![1u8] + Vec::<
            DisplayInfo,
        >::enc(displays),
        ControlMsg::enc(ControlMsgView::SessionRequest(request)) == seq![2u8] + SessionRequest::enc(
            request,
        ),
        ControlMsg::enc(ControlMsgView::SessionAccept(accept)) == seq![3u8] + SessionAccept::enc(
            accept,
        ),
        ControlMsg::enc(ControlMsgView::SessionReject(reason)) == seq![4u8] + String::enc(reason),
        ControlMsg::enc(ControlMsgView::ClientTelemetry(client)) == seq![5u8]
            + ClientTelemetry::enc(client),
        ControlMsg::enc(ControlMsgView::RequestIdr) == seq![6u8],
        ControlMsg::enc(ControlMsgView::Heartbeat(server)) == seq![7u8] + ServerTelemetry::enc(
            server,
        ),
        ControlMsg::enc(ControlMsgView::CursorShape(shape)) == seq![8u8] + RemoteCursorShape::enc(
            shape,
        ),
        ControlMsg::enc(ControlMsgView::CursorState(state)) == seq![9u8] + RemoteCursorState::enc(
            state,
        ),
        ControlMsg::enc(ControlMsgView::Goodbye) == seq![10u8],
        ControlMsg::enc(ControlMsgView::FrameLost(frame_seq)) == seq![11u8] + u32::enc(frame_seq),
{
    reveal(enc_variant);
}

} // verus!
