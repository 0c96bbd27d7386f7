//! Input capture: keyboard and mouse events of the local machine become the
//! input packets that are sent to the server.
//!
//! While capture is on, events are forwarded and the pointer is held at the
//! centre of the screen. `Ctrl+Option+M`, or another key with these modifiers,
//! toggles capture. Whatever the server
//! was told is held down is released when capture ends, and the local releases
//! that belong to the toggle itself are kept from it.

use crate::yang::keys::{
    cg_keycode_to_rdev_key, code_of, hid_of, key_code, key_of_vk, rdev_key_to_hid, Key,
};
use crate::yin_yang_proto::packets::{InputEvent, InputPacket, KeyModifiers, MouseButton};
use std::collections::HashSet;
use vstd::prelude::*;

verus! {

broadcast use vstd::std_specs::hash::group_hash_axioms;

// ---------------------------------------------------------------------------
// Local events
// ---------------------------------------------------------------------------

/// A button of the local mouse.
#[derive(Clone, Copy, Debug, PartialEq, Eq, Structural)]
pub enum Button {
    Left,
    Right,
    Middle,
    Unknown(u8),
}

/// The button under which a local button is sent.
pub open spec fn sent_button(button: Button) -> MouseButton {
    match button {
        Button::Left => MouseButton::Left,
        Button::Right => MouseButton::Right,
        Button::Middle => MouseButton::Middle,
        Button::Unknown(n) => MouseButton::Side(n),
    }
}

pub fn map_mouse_button(button: Button) -> (r: MouseButton)
    ensures
        r == sent_button(button),
{
    match button {
        Button::Left => MouseButton::Left,
        Button::Right => MouseButton::Right,
        Button::Middle => MouseButton::Middle,
        Button::Unknown(n) => MouseButton::Side(n),
    }
}

/// A number that tells a button from every other.
pub open spec fn button_number(button: MouseButton) -> u16 {
    match button {
        MouseButton::Left => 0,
        MouseButton::Right => 1,
        MouseButton::Middle => 2,
        MouseButton::Side(n) => (3 + n) as u16,
    }
}

/// The button of a number.
pub open spec fn button_of(number: u16) -> MouseButton {
    if number == 0 {
        MouseButton::Left
    } else if number == 1 {
        MouseButton::Right
    } else if number == 2 {
        MouseButton::Middle
    } else {
        MouseButton::Side((number - 3) as u8)
    }
}

/// The number of a button gives the button back.
pub proof fn button_numbers_stay_apart(button: MouseButton)
    ensures
        button_of(button_number(button)) == button,
{
}

fn number_of_button(button: MouseButton) -> (r: u16)
    ensures
        r == button_number(button),
{
    match button {
        MouseButton::Left => 0,
        MouseButton::Right => 1,
        MouseButton::Middle => 2,
        MouseButton::Side(n) => 3 + n as u16,
    }
}

fn button_with_number(number: u16) -> (r: MouseButton)
    requires
        number <= 258,
    ensures
        r == button_of(number),
{
    if number == 0 {
        MouseButton::Left
    } else if number == 1 {
        MouseButton::Right
    } else if number == 2 {
        MouseButton::Middle
    } else {
        MouseButton::Side((number - 3) as u8)
    }
}

/// An event as the system's event tap reports it.
#[derive(Clone, Copy, Debug, PartialEq, Eq, Structural)]
pub enum TapEvent {
    KeyDown { keycode: i64 },
    KeyUp { keycode: i64 },
    FlagsChanged { keycode: i64, flags: u64 },
    LeftMouseDown,
    LeftMouseUp,
    RightMouseDown,
    RightMouseUp,
    OtherMouseDown { button: i64 },
    OtherMouseUp { button: i64 },
    /// The pointer moved, with or without a button held.
    Moved { delta_x: i64, delta_y: i64 },
    ScrollWheel { axis_1: i64, axis_2: i64 },
    Other,
}

/// An event of the local machine.
#[derive(Clone, Copy, Debug, PartialEq, Eq, Structural)]
pub enum RawEvent {
    KeyPress(Key),
    KeyRelease(Key),
    ButtonPress(Button),
    ButtonRelease(Button),
    /// The pointer is at the reported location, shifted by this much.
    MouseMove { shift_x: i64, shift_y: i64 },
    Wheel { delta_x: i64, delta_y: i64 },
}

/// The flag that a modifier key with this keycode raises.
pub open spec fn tap_flag(keycode: u16) -> Option<u64> {
    match keycode {
        56 | 60 => Some(0x0002_0000),
        59 | 62 => Some(0x0004_0000),
        58 | 61 => Some(0x0008_0000),
        55 | 54 => Some(0x0010_0000),
        57 => Some(0x0001_0000),
        63 => Some(0x0080_0000),
        _ => None,
    }
}

/// A modifier key with this keycode is active in `flags`.
pub open spec fn active_in(keycode: u16, flags: u64) -> bool {
    match tap_flag(keycode) {
        Some(flag) => flags & flag == flag,
        None => false,
    }
}

/// Returns `true` if the modifier key with the given keycode is currently
/// active in `flags`. Used to synthesise press/release from `FlagsChanged`.
pub fn modifier_key_pressed(keycode: u16, flags: u64) -> (r: bool)
    ensures
        r == active_in(keycode, flags),
{
    match keycode {
        56 | 60 => flags & 0x0002_0000 == 0x0002_0000,
        59 | 62 => flags & 0x0004_0000 == 0x0004_0000,
        58 | 61 => flags & 0x0008_0000 == 0x0008_0000,
        55 | 54 => flags & 0x0010_0000 == 0x0010_0000,
        57 => flags & 0x0001_0000 == 0x0001_0000,
        63 => flags & 0x0080_0000 == 0x0080_0000,
        _ => false,
    }
}

/// The key of a keycode, known or not.
pub open spec fn tapped_key(keycode: u16) -> Key {
    match key_of_vk(keycode) {
        Some(key) => key,
        None => Key::Unknown(keycode as u32),
    }
}

fn key_tapped(keycode: u16) -> (r: Key)
    ensures
        r == tapped_key(keycode),
{
    match cg_keycode_to_rdev_key(keycode) {
        Some(key) => key,
        None => Key::Unknown(keycode as u32),
    }
}

/// What an event of the tap says. While capture is on, the pointer is frozen and
/// its location never changes, so the raw deltas are added to it.
pub open spec fn tapped(event: TapEvent, captured: bool) -> Option<RawEvent> {
    match event {
        TapEvent::KeyDown { keycode } => Some(RawEvent::KeyPress(tapped_key(keycode as u16))),
        TapEvent::KeyUp { keycode } => Some(RawEvent::KeyRelease(tapped_key(keycode as u16))),
        TapEvent::FlagsChanged { keycode, flags } => Some(
            if active_in(keycode as u16, flags) {
                RawEvent::KeyPress(tapped_key(keycode as u16))
            } else {
                RawEvent::KeyRelease(tapped_key(keycode as u16))
            },
        ),
        TapEvent::LeftMouseDown => Some(RawEvent::ButtonPress(Button::Left)),
        TapEvent::LeftMouseUp => Some(RawEvent::ButtonRelease(Button::Left)),
        TapEvent::RightMouseDown => Some(RawEvent::ButtonPress(Button::Right)),
        TapEvent::RightMouseUp => Some(RawEvent::ButtonRelease(Button::Right)),
        TapEvent::OtherMouseDown { button } => Some(
            RawEvent::ButtonPress(Button::Unknown(button as u8)),
        ),
        TapEvent::OtherMouseUp { button } => Some(
            RawEvent::ButtonRelease(Button::Unknown(button as u8)),
        ),
        TapEvent::Moved { delta_x, delta_y } => Some(
            if captured {
                RawEvent::MouseMove { shift_x: delta_x, shift_y: delta_y }
            } else {
                RawEvent::MouseMove { shift_x: 0, shift_y: 0 }
            },
        ),
        TapEvent::ScrollWheel { axis_1, axis_2 } => Some(
            RawEvent::Wheel { delta_x: axis_2, delta_y: axis_1 },
        ),
        TapEvent::Other => None,
    }
}

/// Reads an event of the system's event tap.
pub fn read_tap_event(event: TapEvent, captured: bool) -> (r: Option<RawEvent>)
    ensures
        r == tapped(event, captured),
{
    match event {
        TapEvent::KeyDown { keycode } => {
            #[verifier::truncate]
            let code: u16 = keycode as u16;
            Some(RawEvent::KeyPress(key_tapped(code)))
        },
        TapEvent::KeyUp { keycode } => {
            #[verifier::truncate]
            let code: u16 = keycode as u16;
            Some(RawEvent::KeyRelease(key_tapped(code)))
        },
        TapEvent::FlagsChanged { keycode, flags } => {
            #[verifier::truncate]
            let code: u16 = keycode as u16;
            let key = key_tapped(code);
            if modifier_key_pressed(code, flags) {
                Some(RawEvent::KeyPress(key))
            } else {
                Some(RawEvent::KeyRelease(key))
            }
        },
        TapEvent::LeftMouseDown => Some(RawEvent::ButtonPress(Button::Left)),
        TapEvent::LeftMouseUp => Some(RawEvent::ButtonRelease(Button::Left)),
        TapEvent::RightMouseDown => Some(RawEvent::ButtonPress(Button::Right)),
        TapEvent::RightMouseUp => Some(RawEvent::ButtonRelease(Button::Right)),
        TapEvent::OtherMouseDown { button } => {
            #[verifier::truncate]
            let n: u8 = button as u8;
            Some(RawEvent::ButtonPress(Button::Unknown(n)))
        },
        TapEvent::OtherMouseUp { button } => {
            #[verifier::truncate]
            let n: u8 = button as u8;
            Some(RawEvent::ButtonRelease(Button::Unknown(n)))
        },
        TapEvent::Moved { delta_x, delta_y } => {
            if captured {
                Some(RawEvent::MouseMove { shift_x: delta_x, shift_y: delta_y })
            } else {
                Some(RawEvent::MouseMove { shift_x: 0, shift_y: 0 })
            }
        },
        TapEvent::ScrollWheel { axis_1, axis_2 } => Some(
            RawEvent::Wheel { delta_x: axis_2, delta_y: axis_1 },
        ),
        TapEvent::Other => None,
    }
}

// ---------------------------------------------------------------------------
// Modifiers
// ---------------------------------------------------------------------------

/// The modifier that a key with this usage ID stands for.
pub open spec fn modifier_mask(hid_usage: u32) -> Option<u32> {
    match hid_usage {
        0x39 => Some(KeyModifiers::CAPS),
        0x53 => Some(KeyModifiers::NUMLOCK),
        0xE0 | 0xE4 => Some(KeyModifiers::CTRL),
        0xE1 | 0xE5 => Some(KeyModifiers::SHIFT),
        0xE2 | 0xE6 => Some(KeyModifiers::ALT),
        0xE3 | 0xE7 => Some(KeyModifiers::META),
        _ => None,
    }
}

pub fn hid_modifier_flag(hid_usage: u32) -> (r: Option<u32>)
    ensures
        r == modifier_mask(hid_usage),
{
    match hid_usage {
        0x39 => Some(KeyModifiers::CAPS),
        0x53 => Some(KeyModifiers::NUMLOCK),
        0xE0 | 0xE4 => Some(KeyModifiers::CTRL),
        0xE1 | 0xE5 => Some(KeyModifiers::SHIFT),
        0xE2 | 0xE6 => Some(KeyModifiers::ALT),
        0xE3 | 0xE7 => Some(KeyModifiers::META),
        _ => None,
    }
}

/// The modifiers in force once a key has been pressed or released.
pub open spec fn modifiers_after(modifiers: KeyModifiers, key: Key, pressed: bool) -> KeyModifiers {
    let bits = modifiers.bits;
    let set = |mask: u32|
        KeyModifiers {
            bits: if pressed {
                bits | mask
            } else {
                bits & !mask
            },
        };
    match key {
        Key::ShiftLeft | Key::ShiftRight => set(KeyModifiers::SHIFT),
        Key::ControlLeft | Key::ControlRight => set(KeyModifiers::CTRL),
        Key::Alt | Key::AltGr => set(KeyModifiers::ALT),
        Key::MetaLeft | Key::MetaRight => set(KeyModifiers::META),
        Key::CapsLock => if pressed {
            KeyModifiers { bits: bits ^ KeyModifiers::CAPS }
        } else {
            modifiers
        },
        Key::NumLock => if pressed {
            KeyModifiers { bits: bits ^ KeyModifiers::NUMLOCK }
        } else {
            modifiers
        },
        _ => modifiers,
    }
}

/// The modifiers that are left once the keys of `keys` have been let go.
pub open spec fn modifiers_without(modifiers: KeyModifiers, keys: Seq<u32>) -> KeyModifiers
    decreases keys.len(),
{
    if keys.len() == 0 {
        modifiers
    } else {
        let before = modifiers_without(modifiers, keys.drop_last());
        match modifier_mask(keys.last()) {
            Some(mask) => KeyModifiers { bits: before.bits & !mask },
            None => before,
        }
    }
}

// ---------------------------------------------------------------------------
// The capture state
// ---------------------------------------------------------------------------

/// `list` names every element of `set`, and each once.
pub open spec fn lists<T>(list: Seq<T>, set: Set<T>) -> bool {
    &&& list.no_duplicates()
    &&& forall|x: T| #[trigger] list.contains(x) <==> set.contains(x)
}

/// `keys` grows from one to the next.
pub open spec fn ascending(keys: Seq<u32>) -> bool {
    forall|i: int, j: int| 0 <= i < j < keys.len() ==> keys[i] < keys[j]
}

pub open spec fn button_packet(number: u16, pressed: bool, timestamp_us: u64) -> InputPacket {
    InputPacket {
        timestamp_us,
        event: InputEvent::MouseButton { button: button_of(number), pressed },
    }
}

pub open spec fn key_packet(
    hid_usage: u32,
    pressed: bool,
    modifiers: KeyModifiers,
    timestamp_us: u64,
) -> InputPacket {
    InputPacket { timestamp_us, event: InputEvent::KeyEvent { hid_usage, pressed, modifiers } }
}

/// Where input capture stands. Keys and buttons are held by their numbers.
#[verifier::ext_equal]
pub struct CaptureView {
    /// Events are forwarded.
    pub captured: bool,
    pub modifiers: KeyModifiers,
    /// Keys that are down locally.
    pub pressed_keys: Set<u64>,
    /// Usage IDs of the keys that the server was told are down.
    pub remote_keys: Set<u32>,
    /// Keys whose next release is kept from the server.
    pub suppressed_keys: Set<u64>,
    pub pressed_buttons: Set<u16>,
    pub remote_buttons: Set<u16>,
    pub suppressed_buttons: Set<u16>,
    /// The centre of the screen is known, and movement is measured from there.
    pub centered: bool,
    /// An earlier position of the pointer is known.
    pub has_position: bool,
    /// The key that toggles capture together with `Ctrl` and `Option`.
    pub toggle_key: Key,
}

/// The packets that release the buttons of `buttons`, then the keys of `keys`,
/// then the modifier keys of `mods`, each of these under the modifiers that are
/// left without it.
pub open spec fn release_packets(
    buttons: Seq<u16>,
    keys: Seq<u32>,
    mods: Seq<u32>,
    modifiers: KeyModifiers,
    timestamp_us: u64,
) -> Seq<InputPacket> {
    Seq::new(buttons.len(), |i: int| button_packet(buttons[i], false, timestamp_us)) + Seq::new(
        keys.len(),
        |i: int| key_packet(keys[i], false, modifiers, timestamp_us),
    ) + Seq::new(
        mods.len(),
        |i: int|
            key_packet(
                mods[i],
                false,
                modifiers_without(modifiers, mods.take(i + 1)),
                timestamp_us,
            ),
    )
}

/// `buttons`, `keys` and `mods` are what the server holds down in `s`: the
/// buttons in any order, the plain keys and the modifier keys by their numbers.
pub open spec fn held_inputs(
    s: CaptureView,
    buttons: Seq<u16>,
    keys: Seq<u32>,
    mods: Seq<u32>,
) -> bool {
    &&& lists(buttons, s.remote_buttons)
    &&& lists(keys, s.remote_keys.filter(|k: u32| modifier_mask(k) is None))
    &&& lists(mods, s.remote_keys.filter(|k: u32| modifier_mask(k) is Some))
    &&& ascending(keys)
    &&& ascending(mods)
}

/// `packets` release all that the server holds down in `s`, and `modifiers` are
/// in force afterwards.
pub open spec fn releases_all(
    s: CaptureView,
    timestamp_us: u64,
    packets: Seq<InputPacket>,
    modifiers: KeyModifiers,
) -> bool {
    exists|buttons: Seq<u16>, keys: Seq<u32>, mods: Seq<u32>|
        #[trigger] held_inputs(s, buttons, keys, mods) && packets == release_packets(
            buttons,
            keys,
            mods,
            s.modifiers,
            timestamp_us,
        ) && modifiers == modifiers_without(s.modifiers, mods)
}

/// `s` with nothing held down at the server and `modifiers` in force.
pub open spec fn with_nothing_held(s: CaptureView, modifiers: KeyModifiers) -> CaptureView {
    CaptureView { remote_keys: Set::empty(), remote_buttons: Set::empty(), modifiers, ..s }
}

/// What follows an event.
#[derive(Debug)]
pub struct CaptureOutcome {
    /// The packets to send, in order.
    pub packets: Vec<InputPacket>,
    /// The capture mode that the platform is to be put in.
    pub mode: Option<bool>,
    /// The pointer is to be brought back to the centre.
    pub recenter: bool,
    /// The pointer's position is to be remembered.
    pub remember: bool,
}

#[verifier::ext_equal]
pub struct OutcomeView {
    pub packets: Seq<InputPacket>,
    pub mode: Option<bool>,
    pub recenter: bool,
    pub remember: bool,
}

impl View for CaptureOutcome {
    type V = OutcomeView;

    open spec fn view(&self) -> OutcomeView {
        OutcomeView {
            packets: self.packets@,
            mode: self.mode,
            recenter: self.recenter,
            remember: self.remember,
        }
    }
}

impl OutcomeView {
    pub open spec fn sends(packets: Seq<InputPacket>) -> OutcomeView {
        OutcomeView { packets, mode: None, recenter: false, remember: false }
    }

    pub open spec fn nothing() -> OutcomeView {
        OutcomeView::sends(Seq::empty())
    }
}

impl CaptureOutcome {
    fn nothing() -> (r: CaptureOutcome)
        ensures
            r@ == OutcomeView::nothing(),
    {
        let r = CaptureOutcome { packets: Vec::new(), mode: None, recenter: false, remember: false };
        assert(r@ =~= OutcomeView::nothing());
        r
    }

    fn sends(packet: InputPacket) -> (r: CaptureOutcome)
        ensures
            r@ == OutcomeView::sends(seq![packet]),
    {
        let mut packets: Vec<InputPacket> = Vec::new();
        packets.push(packet);
        let r = CaptureOutcome { packets, mode: None, recenter: false, remember: false };
        assert(r@ =~= OutcomeView::sends(seq![packet]));
        r
    }
}

impl CaptureView {
    /// Capture has not begun, and nothing is down.
    pub open spec fn idle(centered: bool, toggle_key: Key) -> CaptureView {
        CaptureView {
            captured: false,
            modifiers: KeyModifiers { bits: 0 },
            pressed_keys: Set::empty(),
            remote_keys: Set::empty(),
            suppressed_keys: Set::empty(),
            pressed_buttons: Set::empty(),
            remote_buttons: Set::empty(),
            suppressed_buttons: Set::empty(),
            centered,
            has_position: false,
            toggle_key,
        }
    }

    /// A key press that toggles capture.
    pub open spec fn toggles(self, key: Key) -> bool {
        key == self.toggle_key && self.modifiers.has(KeyModifiers::CTRL) && self.modifiers.has(
            KeyModifiers::ALT,
        )
    }

    /// The local releases of all that is down are kept from the server.
    pub open spec fn suppressing(self) -> CaptureView {
        CaptureView {
            suppressed_keys: self.suppressed_keys.union(self.pressed_keys),
            suppressed_buttons: self.suppressed_buttons.union(self.pressed_buttons),
            ..self
        }
    }

    /// Capture is toggled, which leads to `after`.
    pub open spec fn toggled(self, timestamp_us: u64, after: CaptureView, out: OutcomeView) -> bool {
        let s = self.suppressing();
        if self.captured {
            &&& releases_all(s, timestamp_us, out.packets, after.modifiers)
            &&& after == (CaptureView {
                captured: false,
                has_position: false,
                ..with_nothing_held(s, after.modifiers)
            })
            &&& out == (OutcomeView { mode: Some(false), ..OutcomeView::sends(out.packets) })
        } else {
            &&& after == (CaptureView { captured: true, ..s })
            &&& out == (OutcomeView { mode: Some(true), recenter: true, ..OutcomeView::nothing() })
        }
    }

    /// A key is pressed or released locally: the book-keeping before anything else.
    pub open spec fn key_noted(self, key: Key, pressed: bool) -> CaptureView {
        CaptureView {
            pressed_keys: if pressed {
                self.pressed_keys.insert(code_of(key))
            } else {
                self.pressed_keys.remove(code_of(key))
            },
            modifiers: modifiers_after(self.modifiers, key, pressed),
            ..self
        }
    }

    /// A key is pressed or released, which leads to `after`.
    pub open spec fn key_event(
        self,
        key: Key,
        pressed: bool,
        timestamp_us: u64,
        after: CaptureView,
        out: OutcomeView,
    ) -> bool {
        let s = self.key_noted(key, pressed);
        if pressed && s.toggles(key) {
            s.toggled(timestamp_us, after, out)
        } else if !pressed && s.suppressed_keys.contains(code_of(key)) {
            &&& after == (CaptureView {
                suppressed_keys: s.suppressed_keys.remove(code_of(key)),
                ..s
            })
            &&& out == OutcomeView::nothing()
        } else if !s.captured {
            after == s && out == OutcomeView::nothing()
        } else {
            match hid_of(key) {
                None => after == s && out == OutcomeView::nothing(),
                Some(hid_usage) => {
                    &&& after == (CaptureView {
                        remote_keys: if pressed {
                            s.remote_keys.insert(hid_usage)
                        } else {
                            s.remote_keys.remove(hid_usage)
                        },
                        ..s
                    })
                    &&& out == OutcomeView::sends(
                        seq![key_packet(hid_usage, pressed, s.modifiers, timestamp_us)],
                    )
                },
            }
        }
    }

    /// A button is pressed or released.
    pub open spec fn button_event(self, button: Button, pressed: bool, timestamp_us: u64) -> (
        CaptureView,
        OutcomeView,
    ) {
        let n = button_number(sent_button(button));
        let s = CaptureView {
            pressed_buttons: if pressed {
                self.pressed_buttons.insert(n)
            } else {
                self.pressed_buttons.remove(n)
            },
            ..self
        };
        if !pressed && s.suppressed_buttons.contains(n) {
            (
                CaptureView { suppressed_buttons: s.suppressed_buttons.remove(n), ..s },
                OutcomeView::nothing(),
            )
        } else if !s.captured {
            (s, OutcomeView::nothing())
        } else {
            (
                CaptureView {
                    remote_buttons: if pressed {
                        s.remote_buttons.insert(n)
                    } else {
                        s.remote_buttons.remove(n)
                    },
                    ..s
                },
                OutcomeView::sends(seq![button_packet(n, pressed, timestamp_us)]),
            )
        }
    }

    /// The pointer moved: `from_center` and `from_last` are its distances from
    /// the centre and from the last position, where these are known.
    pub open spec fn mouse_move(
        self,
        from_center: (i16, i16),
        from_last: (i16, i16),
        timestamp_us: u64,
    ) -> (CaptureView, OutcomeView) {
        let moved = |d: (i16, i16)|
            if d == (0i16, 0i16) {
                Seq::<InputPacket>::empty()
            } else {
                seq![
                    InputPacket {
                        timestamp_us,
                        event: InputEvent::MouseMove { dx: d.0, dy: d.1 },
                    },
                ]
            };
        if !self.captured {
            (CaptureView { has_position: false, ..self }, OutcomeView::nothing())
        } else if self.centered {
            let packets = moved(from_center);
            (self, OutcomeView { recenter: packets.len() > 0, ..OutcomeView::sends(packets) })
        } else if !self.has_position {
            (
                CaptureView { has_position: true, ..self },
                OutcomeView { remember: true, ..OutcomeView::nothing() },
            )
        } else {
            (self, OutcomeView { remember: true, ..OutcomeView::sends(moved(from_last)) })
        }
    }

    /// The wheel turned, by single-precision numbers given by their bits.
    pub open spec fn scroll(self, dx_bits: u32, dy_bits: u32, timestamp_us: u64) -> OutcomeView {
        if self.captured {
            OutcomeView::sends(
                seq![
                    InputPacket {
                        timestamp_us,
                        event: InputEvent::MouseScroll { dx_bits, dy_bits },
                    },
                ],
            )
        } else {
            OutcomeView::nothing()
        }
    }
}

/// An event of the local machine, with positions measured.
#[derive(Clone, Copy, Debug)]
pub enum CaptureEvent {
    MouseMove { from_center: (i16, i16), from_last: (i16, i16) },
    ButtonPress(Button),
    ButtonRelease(Button),
    Wheel { dx_bits: u32, dy_bits: u32 },
    KeyPress(Key),
    KeyRelease(Key),
}

impl CaptureView {
    /// An event leads to `after`.
    pub open spec fn event(
        self,
        event: CaptureEvent,
        timestamp_us: u64,
        after: CaptureView,
        out: OutcomeView,
    ) -> bool {
        match event {
            CaptureEvent::MouseMove { from_center, from_last } => (after, out) == self.mouse_move(
                from_center,
                from_last,
                timestamp_us,
            ),
            CaptureEvent::ButtonPress(button) => (after, out) == self.button_event(
                button,
                true,
                timestamp_us,
            ),
            CaptureEvent::ButtonRelease(button) => (after, out) == self.button_event(
                button,
                false,
                timestamp_us,
            ),
            CaptureEvent::Wheel { dx_bits, dy_bits } => after == self && out == self.scroll(
                dx_bits,
                dy_bits,
                timestamp_us,
            ),
            CaptureEvent::KeyPress(key) => self.key_event(key, true, timestamp_us, after, out),
            CaptureEvent::KeyRelease(key) => self.key_event(key, false, timestamp_us, after, out),
        }
    }
}

/// The state of input capture.
#[derive(Debug)]
pub struct CaptureState {
    captured: bool,
    modifiers: KeyModifiers,
    pressed_keys: HashSet<u64>,
    remote_pressed_keys: HashSet<u32>,
    suppressed_key_releases: HashSet<u64>,
    pressed_buttons: HashSet<u16>,
    remote_pressed_buttons: HashSet<u16>,
    suppressed_button_releases: HashSet<u16>,
    centered: bool,
    has_position: bool,
    toggle_key: Key,
}

impl View for CaptureState {
    type V = CaptureView;

    closed spec fn view(&self) -> CaptureView {
        CaptureView {
            captured: self.captured,
            modifiers: self.modifiers,
            pressed_keys: self.pressed_keys@,
            remote_keys: self.remote_pressed_keys@,
            suppressed_keys: self.suppressed_key_releases@,
            pressed_buttons: self.pressed_buttons@,
            remote_buttons: self.remote_pressed_buttons@,
            suppressed_buttons: self.suppressed_button_releases@,
            centered: self.centered,
            has_position: self.has_position,
            toggle_key: self.toggle_key,
        }
    }
}

/// Every number stands for a button.
pub open spec fn are_buttons(numbers: Set<u16>) -> bool {
    forall|n: u16| #[trigger] numbers.contains(n) ==> n <= 258
}

impl CaptureView {
    pub open spec fn wf(self) -> bool {
        &&& are_buttons(self.pressed_buttons)
        &&& are_buttons(self.remote_buttons)
        &&& are_buttons(self.suppressed_buttons)
    }
}

/// The elements of a set, in the order in which the set is walked.
fn listed<T: Copy + Eq + std::hash::Hash>(set: &HashSet<T>) -> (list: Vec<T>)
    requires
        vstd::std_specs::hash::obeys_key_model::<T>(),
    ensures
        lists(list@, set@),
{
    let mut list: Vec<T> = Vec::new();
    for n in it: set.iter()
        invariant
            list@.len() == it.index(),
            forall|i: int| 0 <= i < list@.len() ==> list@[i] == *#[trigger] it.seq()[i],
    {
        list.push(*n);
    }
    proof {
        let all = vstd::std_specs::iter::IteratorSpec::remaining(
            &vstd::std_specs::hash::spec_hash_keys_iter(set),
        ).unref();
        assert(list@ =~= all);
        assert(forall|x: T| all.to_set().contains(x) <==> all.contains(x));
    }
    list
}

/// The elements of a set of keys, from the smallest to the largest.
fn sorted(set: &HashSet<u32>) -> (list: Vec<u32>)
    ensures
        lists(list@, set@),
        ascending(list@),
{
    let keys = listed(set);
    let mut list: Vec<u32> = Vec::new();
    let mut n: usize = 0;
    while n < keys.len()
        invariant
            n <= keys@.len(),
            keys@.no_duplicates(),
            ascending(list@),
            forall|x: u32| #[trigger] list@.contains(x) <==> keys@.take(n as int).contains(x),
        decreases keys@.len() - n,
    {
        let key = keys[n];
        let ghost before = list@;
        let mut at: usize = 0;
        while at < list.len() && list[at] < key
            invariant
                list@ == before,
                at <= list@.len(),
                forall|i: int| 0 <= i < at ==> list@[i] < key,
            decreases list@.len() - at,
        {
            at = at + 1;
        }
        proof {
            assert(keys@.take(n as int + 1) =~= keys@.take(n as int).push(key));
            assert(!keys@.take(n as int).contains(key)) by {
                if keys@.take(n as int).contains(key) {
                    let i = choose|i: int| 0 <= i < n && keys@.take(n as int)[i] == key;
                    assert(keys@[i] == keys@[n as int]);
                }
            }
            assert(!before.contains(key));
            if at < before.len() {
                assert(before.contains(before[at as int]));
            }
        }
        list.insert(at, key);
        proof {
            let after = list@;
            assert(after == before.insert(at as int, key));
            assert forall|x: u32| #[trigger] after.contains(x) <==> keys@.take(n as int + 1).contains(x) by {
                let was = keys@.take(n as int);
                let now = keys@.take(n as int + 1);
                assert(now =~= was.push(key));
                if after.contains(x) {
                    let i = choose|i: int| 0 <= i < after.len() && after[i] == x;
                    if i < at {
                        assert(before[i] == x);
                        assert(before.contains(x));
                    } else if i > at {
                        assert(before[i - 1] == x);
                        assert(before.contains(x));
                    } else {
                        assert(now[n as int] == key);
                    }
                    if before.contains(x) {
                        let j = choose|j: int| 0 <= j < was.len() && was[j] == x;
                        assert(now[j] == x);
                    }
                }
                if now.contains(x) {
                    let j = choose|j: int| 0 <= j < now.len() && now[j] == x;
                    if j == n {
                        assert(after[at as int] == x);
                    } else {
                        assert(was[j] == x);
                        assert(before.contains(x));
                        let i = choose|i: int| 0 <= i < before.len() && before[i] == x;
                        if i < at {
                            assert(after[i] == x);
                        } else {
                            assert(after[i + 1] == x);
                        }
                    }
                }
            }
        }
        n = n + 1;
    }
    assert(keys@.take(keys@.len() as int) =~= keys@);
    list
}

impl CaptureState {
    /// Capture starts idle. `centered` tells whether the centre of the screen is
    /// known.
    pub fn new(centered: bool) -> (r: CaptureState)
        ensures
            r@ == CaptureView::idle(centered, Key::KeyM),
            r@.wf(),
    {
        CaptureState::with_toggle_key(centered, Key::KeyM)
    }

    /// Capture starts idle, and another key than `M` toggles it.
    pub fn with_toggle_key(centered: bool, toggle_key: Key) -> (r: CaptureState)
        ensures
            r@ == CaptureView::idle(centered, toggle_key),
            r@.wf(),
    {
        let r = CaptureState {
            captured: false,
            modifiers: KeyModifiers::empty(),
            pressed_keys: HashSet::new(),
            remote_pressed_keys: HashSet::new(),
            suppressed_key_releases: HashSet::new(),
            pressed_buttons: HashSet::new(),
            remote_pressed_buttons: HashSet::new(),
            suppressed_button_releases: HashSet::new(),
            centered,
            has_position: false,
            toggle_key,
        };
        assert(r@ =~= CaptureView::idle(centered, toggle_key));
        r
    }

    pub fn is_captured(&self) -> (r: bool)
        ensures
            r == self@.captured,
    {
        self.captured
    }

    /// Whether the last position of the pointer is known.
    pub fn has_position(&self) -> (r: bool)
        ensures
            r == self@.has_position,
    {
        self.has_position
    }

    /// Turns capture on or off. The platform is to follow if this returns `true`.
    pub fn set_capture_mode(&mut self, enabled: bool) -> (changed: bool)
        ensures
            final(self)@ == (CaptureView { captured: enabled, ..old(self)@ }),
            changed == (old(self)@.captured != enabled),
    {
        let was_enabled = self.captured;
        self.captured = enabled;
        was_enabled != enabled
    }

    /// The pointer is to be brought back to the centre of the screen, which is
    /// known or not. It is to be warped there if this returns `true`.
    pub fn recenter_pointer(&mut self, centered: bool) -> (warp: bool)
        ensures
            final(self)@ == (CaptureView {
                centered,
                has_position: old(self)@.captured && centered,
                ..old(self)@
            }),
            warp == (old(self)@.captured && centered),
    {
        self.centered = centered;
        self.has_position = self.captured && centered;
        self.captured && centered
    }

    fn update_modifier_state(&mut self, key: Key, pressed: bool)
        ensures
            final(self)@ == (CaptureView {
                modifiers: modifiers_after(old(self)@.modifiers, key, pressed),
                ..old(self)@
            }),
    {
        match key {
            Key::ShiftLeft | Key::ShiftRight => {
                self.modifiers.set(KeyModifiers::SHIFT, pressed);
            },
            Key::ControlLeft | Key::ControlRight => {
                self.modifiers.set(KeyModifiers::CTRL, pressed);
            },
            Key::Alt | Key::AltGr => {
                self.modifiers.set(KeyModifiers::ALT, pressed);
            },
            Key::MetaLeft | Key::MetaRight => {
                self.modifiers.set(KeyModifiers::META, pressed);
            },
            Key::CapsLock => {
                if pressed {
                    self.modifiers.toggle(KeyModifiers::CAPS);
                }
            },
            Key::NumLock => {
                if pressed {
                    self.modifiers.toggle(KeyModifiers::NUMLOCK);
                }
            },
            _ => {},
        }
    }

    fn should_toggle_capture(&self, key: Key) -> (r: bool)
        ensures
            r == self@.toggles(key),
    {
        key == self.toggle_key && self.modifiers.contains(KeyModifiers::CTRL)
            && self.modifiers.contains(KeyModifiers::ALT)
    }

    /// Releases all that the server holds down.
    pub fn release_remote_inputs(&mut self, timestamp_us: u64) -> (packets: Vec<InputPacket>)
        requires
            old(self)@.wf(),
        ensures
            releases_all(old(self)@, timestamp_us, packets@, final(self)@.modifiers),
            final(self)@ == with_nothing_held(old(self)@, final(self)@.modifiers),
            final(self)@.wf(),
    {
        let ghost s = self@;
        let mut packets: Vec<InputPacket> = Vec::new();
        let buttons = listed(&self.remote_pressed_buttons);
        let held = sorted(&self.remote_pressed_keys);
        self.remote_pressed_buttons.clear();
        self.remote_pressed_keys.clear();
        let mut i: usize = 0;
        while i < buttons.len()
            invariant
                i <= buttons@.len(),
                lists(buttons@, s.remote_buttons),
                are_buttons(s.remote_buttons),
                packets@ == Seq::new(
                    i as nat,
                    |j: int| button_packet(buttons@[j], false, timestamp_us),
                ),
            decreases buttons@.len() - i,
        {
            assert(buttons@.contains(buttons@[i as int]));
            let button = button_with_number(buttons[i]);
            packets.push(
                InputPacket {
                    timestamp_us,
                    event: InputEvent::MouseButton { button, pressed: false },
                },
            );
            i = i + 1;
            assert(packets@ =~= Seq::new(
                i as nat,
                |j: int| button_packet(buttons@[j], false, timestamp_us),
            ));
        }
        let ghost first = packets@;
        let mut keys: Vec<u32> = Vec::new();
        let mut mods: Vec<u32> = Vec::new();
        let mut k: usize = 0;
        while k < held.len()
            invariant
                k <= held@.len(),
                ascending(held@),
                ascending(keys@),
                ascending(mods@),
                forall|x: u32| #[trigger] keys@.contains(x) <==> held@.take(k as int).contains(x)
                    && modifier_mask(x) is None,
                forall|x: u32| #[trigger] mods@.contains(x) <==> held@.take(k as int).contains(x)
                    && modifier_mask(x) is Some,
            decreases held@.len() - k,
        {
            let hid_usage = held[k];
            let ghost before = held@.take(k as int);
            proof {
                assert(held@.take(k as int + 1) =~= before.push(hid_usage));
                assert forall|x: u32| before.contains(x) implies x < hid_usage by {
                    let j = choose|j: int| 0 <= j < before.len() && before[j] == x;
                    assert(held@[j] < held@[k as int]);
                }
                assert forall|j: int| 0 <= j < keys@.len() implies keys@[j] < hid_usage by {
                    assert(keys@.contains(keys@[j]));
                }
                assert forall|j: int| 0 <= j < mods@.len() implies mods@[j] < hid_usage by {
                    assert(mods@.contains(mods@[j]));
                }
                lemma_push_contains(before, hid_usage);
                lemma_push_contains(keys@, hid_usage);
                lemma_push_contains(mods@, hid_usage);
            }
            if hid_modifier_flag(hid_usage).is_some() {
                mods.push(hid_usage);
            } else {
                keys.push(hid_usage);
            }
            k = k + 1;
        }
        proof {
            assert(held@.take(held@.len() as int) =~= held@);
            lemma_ascending_is_distinct(keys@);
            lemma_ascending_is_distinct(mods@);
            assert(held_inputs(s, buttons@, keys@, mods@));
        }
        let mut i: usize = 0;
        while i < keys.len()
            invariant
                i <= keys@.len(),
                self.modifiers == s.modifiers,
                packets@ == first + Seq::new(
                    i as nat,
                    |j: int| key_packet(keys@[j], false, s.modifiers, timestamp_us),
                ),
                self@ == with_nothing_held(s, s.modifiers),
            decreases keys@.len() - i,
        {
            packets.push(
                InputPacket {
                    timestamp_us,
                    event: InputEvent::KeyEvent {
                        hid_usage: keys[i],
                        pressed: false,
                        modifiers: self.modifiers,
                    },
                },
            );
            i = i + 1;
            assert(packets@ =~= first + Seq::new(
                i as nat,
                |j: int| key_packet(keys@[j], false, s.modifiers, timestamp_us),
            ));
        }
        let ghost second = packets@;
        let mut i: usize = 0;
        assert(mods@.take(0) =~= Seq::empty());
        while i < mods.len()
            invariant
                i <= mods@.len(),
                self.modifiers == modifiers_without(s.modifiers, mods@.take(i as int)),
                packets@ == second + Seq::new(
                    i as nat,
                    |j: int|
                        key_packet(
                            mods@[j],
                            false,
                            modifiers_without(s.modifiers, mods@.take(j + 1)),
                            timestamp_us,
                        ),
                ),
                self@ == with_nothing_held(s, self.modifiers),
            decreases mods@.len() - i,
        {
            let hid_usage = mods[i];
            proof {
                assert(mods@.take(i as int + 1).drop_last() =~= mods@.take(i as int));
            }
            if let Some(mask) = hid_modifier_flag(hid_usage) {
                self.modifiers.set(mask, false);
            }
            packets.push(
                InputPacket {
                    timestamp_us,
                    event: InputEvent::KeyEvent {
                        hid_usage,
                        pressed: false,
                        modifiers: self.modifiers,
                    },
                },
            );
            i = i + 1;
            assert(packets@ =~= second + Seq::new(
                i as nat,
                |j: int|
                    key_packet(
                        mods@[j],
                        false,
                        modifiers_without(s.modifiers, mods@.take(j + 1)),
                        timestamp_us,
                    ),
            ));
        }
        proof {
            assert(mods@.take(mods@.len() as int) =~= mods@);
            assert(packets@ =~= release_packets(buttons@, keys@, mods@, s.modifiers, timestamp_us));
        }
        packets
    }

    fn toggle_capture(&mut self, timestamp_us: u64) -> (out: CaptureOutcome)
        requires
            old(self)@.wf(),
        ensures
            old(self)@.toggled(timestamp_us, final(self)@, out@),
            final(self)@.wf(),
    {
        let ghost s = self@;
        extend(&mut self.suppressed_key_releases, &self.pressed_keys);
        extend(&mut self.suppressed_button_releases, &self.pressed_buttons);
        assert(self@ =~= s.suppressing());
        if self.captured {
            let packets = self.release_remote_inputs(timestamp_us);
            self.set_capture_mode(false);
            self.has_position = false;
            CaptureOutcome { packets, mode: Some(false), recenter: false, remember: false }
        } else {
            self.set_capture_mode(true);
            let out = CaptureOutcome {
                packets: Vec::new(),
                mode: Some(true),
                recenter: true,
                remember: false,
            };
            assert(out@.packets =~= Seq::empty());
            out
        }
    }

    pub fn handle_key_event(&mut self, key: Key, pressed: bool, timestamp_us: u64) -> (out:
        CaptureOutcome)
        requires
            old(self)@.wf(),
        ensures
            old(self)@.key_event(key, pressed, timestamp_us, final(self)@, out@),
            final(self)@.wf(),
    {
        let ghost s = self@;
        let code: u64 = key_code(key);
        if pressed {
            self.pressed_keys.insert(code);
        } else {
            self.pressed_keys.remove(&code);
        }
        self.update_modifier_state(key, pressed);
        assert(self@ =~= s.key_noted(key, pressed));
        if pressed && self.should_toggle_capture(key) {
            return self.toggle_capture(timestamp_us);
        }
        if !pressed && self.suppressed_key_releases.remove(&code) {
            return CaptureOutcome::nothing();
        }
        assert(!pressed ==> self.suppressed_key_releases@ =~= s.suppressed_keys);
        if !self.captured {
            return CaptureOutcome::nothing();
        }
        match rdev_key_to_hid(key) {
            None => CaptureOutcome::nothing(),
            Some(hid_usage) => {
                if pressed {
                    self.remote_pressed_keys.insert(hid_usage);
                } else {
                    self.remote_pressed_keys.remove(&hid_usage);
                }
                CaptureOutcome::sends(
                    InputPacket {
                        timestamp_us,
                        event: InputEvent::KeyEvent {
                            hid_usage,
                            pressed,
                            modifiers: self.modifiers,
                        },
                    },
                )
            },
        }
    }

    pub fn handle_button_event(&mut self, button: Button, pressed: bool, timestamp_us: u64) -> (out:
        CaptureOutcome)
        requires
            old(self)@.wf(),
        ensures
            (final(self)@, out@) == old(self)@.button_event(button, pressed, timestamp_us),
            final(self)@.wf(),
    {
        let ghost s = self@;
        let button = map_mouse_button(button);
        let n: u16 = number_of_button(button);
        proof {
            button_numbers_stay_apart(button);
        }
        if pressed {
            self.pressed_buttons.insert(n);
        } else {
            self.pressed_buttons.remove(&n);
            if self.suppressed_button_releases.remove(&n) {
                return CaptureOutcome::nothing();
            }
            assert(self.suppressed_button_releases@ =~= s.suppressed_buttons);
        }
        if !self.captured {
            return CaptureOutcome::nothing();
        }
        if pressed {
            self.remote_pressed_buttons.insert(n);
        } else {
            self.remote_pressed_buttons.remove(&n);
        }
        CaptureOutcome::sends(
            InputPacket { timestamp_us, event: InputEvent::MouseButton { button, pressed } },
        )
    }

    pub fn handle_scroll(&mut self, dx_bits: u32, dy_bits: u32, timestamp_us: u64) -> (out:
        CaptureOutcome)
        ensures
            final(self)@ == old(self)@,
            out@ == old(self)@.scroll(dx_bits, dy_bits, timestamp_us),
    {
        if !self.captured {
            return CaptureOutcome::nothing();
        }
        CaptureOutcome::sends(
            InputPacket { timestamp_us, event: InputEvent::MouseScroll { dx_bits, dy_bits } },
        )
    }

    pub fn handle_mouse_move(
        &mut self,
        from_center: (i16, i16),
        from_last: (i16, i16),
        timestamp_us: u64,
    ) -> (out: CaptureOutcome)
        ensures
            (final(self)@, out@) == old(self)@.mouse_move(from_center, from_last, timestamp_us),
    {
        if !self.captured {
            self.has_position = false;
            return CaptureOutcome::nothing();
        }
        if self.centered {
            let (dx, dy) = from_center;
            if dx == 0 && dy == 0 {
                return CaptureOutcome::nothing();
            }
            let mut out = CaptureOutcome::sends(
                InputPacket { timestamp_us, event: InputEvent::MouseMove { dx, dy } },
            );
            out.recenter = true;
            return out;
        }
        if !self.has_position {
            self.has_position = true;
            let mut out = CaptureOutcome::nothing();
            out.remember = true;
            return out;
        }
        let (dx, dy) = from_last;
        let mut out = if dx != 0 || dy != 0 {
            CaptureOutcome::sends(
                InputPacket { timestamp_us, event: InputEvent::MouseMove { dx, dy } },
            )
        } else {
            CaptureOutcome::nothing()
        };
        out.remember = true;
        out
    }

    pub fn handle_event(&mut self, event: CaptureEvent, timestamp_us: u64) -> (out: CaptureOutcome)
        requires
            old(self)@.wf(),
        ensures
            old(self)@.event(event, timestamp_us, final(self)@, out@),
            final(self)@.wf(),
    {
        match event {
            CaptureEvent::MouseMove { from_center, from_last } => self.handle_mouse_move(
                from_center,
                from_last,
                timestamp_us,
            ),
            CaptureEvent::ButtonPress(button) => self.handle_button_event(
                button,
                true,
                timestamp_us,
            ),
            CaptureEvent::ButtonRelease(button) => self.handle_button_event(
                button,
                false,
                timestamp_us,
            ),
            CaptureEvent::Wheel { dx_bits, dy_bits } => self.handle_scroll(
                dx_bits,
                dy_bits,
                timestamp_us,
            ),
            CaptureEvent::KeyPress(key) => self.handle_key_event(key, true, timestamp_us),
            CaptureEvent::KeyRelease(key) => self.handle_key_event(key, false, timestamp_us),
        }
    }
}

/// Adds the elements of `more` to `set`.
fn extend<T: Copy + Eq + std::hash::Hash>(set: &mut HashSet<T>, more: &HashSet<T>)
    requires
        vstd::std_specs::hash::obeys_key_model::<T>(),
    ensures
        final(set)@ == old(set)@.union(more@),
{
    let list = listed(more);
    let ghost before = set@;
    let mut i: usize = 0;
    while i < list.len()
        invariant
            vstd::std_specs::hash::obeys_key_model::<T>(),
            i <= list@.len(),
            forall|x: T| #[trigger]
                set@.contains(x) <==> before.contains(x) || list@.take(i as int).contains(x),
        decreases list@.len() - i,
    {
        let n = list[i];
        proof {
            assert(list@.take(i as int + 1) =~= list@.take(i as int).push(n));
            lemma_push_contains(list@.take(i as int), n);
        }
        set.insert(n);
        i = i + 1;
    }
    assert(list@.take(list@.len() as int) =~= list@);
    assert(set@ =~= before.union(more@));
}

proof fn lemma_push_contains<T>(list: Seq<T>, last: T)
    ensures
        forall|x: T| #[trigger] list.push(last).contains(x) <==> list.contains(x) || x == last,
{
    assert forall|x: T| #[trigger] list.push(last).contains(x) <==> list.contains(x) || x == last by {
        let longer = list.push(last);
        if list.contains(x) {
            let i = choose|i: int| 0 <= i < list.len() && list[i] == x;
            assert(longer[i] == x);
        }
        if x == last {
            assert(longer[list.len() as int] == x);
        }
    }
}

proof fn lemma_ascending_is_distinct(keys: Seq<u32>)
    requires
        ascending(keys),
    ensures
        keys.no_duplicates(),
{
}

// ---------------------------------------------------------------------------
// Laws
// ---------------------------------------------------------------------------

/// The keys that are down at a server which held `held` and then took `packets`.
pub open spec fn keys_down(held: Set<u32>, packets: Seq<InputPacket>) -> Set<u32>
    decreases packets.len(),
{
    if packets.len() == 0 {
        held
    } else {
        let before = keys_down(held, packets.drop_last());
        match packets.last().event {
            InputEvent::KeyEvent { hid_usage, pressed, .. } => if pressed {
                before.insert(hid_usage)
            } else {
                before.remove(hid_usage)
            },
            _ => before,
        }
    }
}

/// The buttons that are down at a server which held `held` and then took
/// `packets`.
pub open spec fn buttons_down(held: Set<u16>, packets: Seq<InputPacket>) -> Set<u16>
    decreases packets.len(),
{
    if packets.len() == 0 {
        held
    } else {
        let before = buttons_down(held, packets.drop_last());
        match packets.last().event {
            InputEvent::MouseButton { button, pressed } => if pressed {
                before.insert(button_number(button))
            } else {
                before.remove(button_number(button))
            },
            _ => before,
        }
    }
}

/// Capture knows what the server holds down: a server that held what the state
/// says it holds, and takes the packets of an event, holds what the state says
/// afterwards.
pub proof fn state_follows_the_server(
    s: CaptureView,
    event: CaptureEvent,
    timestamp_us: u64,
    after: CaptureView,
    out: OutcomeView,
)
    requires
        s.wf(),
        s.event(event, timestamp_us, after, out),
    ensures
        keys_down(s.remote_keys, out.packets) == after.remote_keys,
        buttons_down(s.remote_buttons, out.packets) == after.remote_buttons,
{
    let packets = out.packets;
    if packets.len() == 0 {
    } else if packets.len() == 1 && packets.drop_last().len() == 0 && out.mode is None {
        reveal_with_fuel(keys_down, 2);
        reveal_with_fuel(buttons_down, 2);
        match event {
            CaptureEvent::ButtonPress(b) => {
                button_numbers_stay_apart(sent_button(b));
            },
            CaptureEvent::ButtonRelease(b) => {
                button_numbers_stay_apart(sent_button(b));
            },
            _ => {},
        }
    } else {
        let key = event->KeyPress_0;
        let noted = s.key_noted(key, true).suppressing();
        release_leaves_nothing_down(noted, timestamp_us, packets, after.modifiers);
    }
    if packets.len() == 0 && out.mode == Some(false) {
        let key = event->KeyPress_0;
        let noted = s.key_noted(key, true).suppressing();
        release_leaves_nothing_down(noted, timestamp_us, packets, after.modifiers);
    }
}

/// When capture ends, everything that the server was told is down is released.
pub proof fn release_leaves_nothing_down(
    s: CaptureView,
    timestamp_us: u64,
    packets: Seq<InputPacket>,
    modifiers: KeyModifiers,
)
    requires
        s.wf(),
        releases_all(s, timestamp_us, packets, modifiers),
    ensures
        keys_down(s.remote_keys, packets) == Set::<u32>::empty(),
        buttons_down(s.remote_buttons, packets) == Set::<u16>::empty(),
{
    let (buttons, keys, mods) = choose|buttons: Seq<u16>, keys: Seq<u32>, mods: Seq<u32>|
        #[trigger] held_inputs(s, buttons, keys, mods) && packets == release_packets(
            buttons,
            keys,
            mods,
            s.modifiers,
            timestamp_us,
        ) && modifiers == modifiers_without(s.modifiers, mods);
    assert forall|i: int| 0 <= i < packets.len() implies is_release(#[trigger] packets[i]) by {}
    lemma_only_releases(s.remote_keys, s.remote_buttons, packets);
    assert forall|k: u32| s.remote_keys.contains(k) implies exists|i: int|
        0 <= i < packets.len() && releases_key(#[trigger] packets[i], k) by {
        if modifier_mask(k) is None {
            assert(keys.contains(k));
            let j = choose|j: int| 0 <= j < keys.len() && keys[j] == k;
            assert(releases_key(packets[buttons.len() as int + j], k));
        } else {
            assert(mods.contains(k));
            let j = choose|j: int| 0 <= j < mods.len() && mods[j] == k;
            assert(releases_key(packets[buttons.len() as int + keys.len() as int + j], k));
        }
    }
    assert forall|n: u16| s.remote_buttons.contains(n) implies exists|i: int|
        0 <= i < packets.len() && releases_button(#[trigger] packets[i], n) by {
        assert(buttons.contains(n));
        let j = choose|j: int| 0 <= j < buttons.len() && buttons[j] == n;
        assert(button_number(button_of(n)) == n);
        assert(releases_button(packets[j], n));
    }
    assert(keys_down(s.remote_keys, packets) =~= Set::<u32>::empty());
    assert(buttons_down(s.remote_buttons, packets) =~= Set::<u16>::empty());
}

/// A release of this key.
pub open spec fn releases_key(packet: InputPacket, key: u32) -> bool {
    packet.event matches InputEvent::KeyEvent { hid_usage, pressed, .. } && hid_usage == key
        && !pressed
}

/// A release of this button.
pub open spec fn releases_button(packet: InputPacket, number: u16) -> bool {
    packet.event matches InputEvent::MouseButton { button, pressed } && button_number(button)
        == number && !pressed
}

/// A release of a key or a button.
pub open spec fn is_release(packet: InputPacket) -> bool {
    match packet.event {
        InputEvent::KeyEvent { pressed, .. } => !pressed,
        InputEvent::MouseButton { pressed, .. } => !pressed,
        _ => false,
    }
}

/// Where every packet is a release, what was held is down unless it was released.
proof fn lemma_only_releases(keys: Set<u32>, buttons: Set<u16>, packets: Seq<InputPacket>)
    requires
        forall|i: int| 0 <= i < packets.len() ==> is_release(#[trigger] packets[i]),
    ensures
        forall|k: u32| #[trigger]
            keys_down(keys, packets).contains(k) <==> keys.contains(k) && forall|i: int|
                0 <= i < packets.len() ==> !releases_key(#[trigger] packets[i], k),
        forall|n: u16| #[trigger]
            buttons_down(buttons, packets).contains(n) <==> buttons.contains(n) && forall|i: int|
                0 <= i < packets.len() ==> !releases_button(#[trigger] packets[i], n),
    decreases packets.len(),
{
    if packets.len() > 0 {
        let shorter = packets.drop_last();
        assert(forall|i: int| 0 <= i < shorter.len() ==> shorter[i] == packets[i]);
        lemma_only_releases(keys, buttons, shorter);
        let last = packets.len() - 1;
        assert(is_release(packets[last]));
        assert forall|k: u32| #[trigger]
            keys_down(keys, packets).contains(k) <==> keys.contains(k) && forall|i: int|
                0 <= i < packets.len() ==> !releases_key(#[trigger] packets[i], k) by {
            if keys_down(keys, packets).contains(k) {
                assert(keys_down(keys, shorter).contains(k));
                assert(!releases_key(packets[last], k));
                assert forall|i: int| 0 <= i < packets.len() implies !releases_key(
                    #[trigger] packets[i],
                    k,
                ) by {
                    if i < last {
                        assert(!releases_key(shorter[i], k));
                    }
                }
            } else if keys.contains(k) {
                if !keys_down(keys, shorter).contains(k) {
                    let i = choose|i: int|
                        0 <= i < shorter.len() && releases_key(#[trigger] shorter[i], k);
                    assert(releases_key(packets[i], k));
                } else {
                    assert(releases_key(packets[last], k));
                }
            }
        }
        assert forall|n: u16| #[trigger]
            buttons_down(buttons, packets).contains(n) <==> buttons.contains(n) && forall|i: int|
                0 <= i < packets.len() ==> !releases_button(#[trigger] packets[i], n) by {
            if buttons_down(buttons, packets).contains(n) {
                assert(buttons_down(buttons, shorter).contains(n));
                assert(!releases_button(packets[last], n));
                assert forall|i: int| 0 <= i < packets.len() implies !releases_button(
                    #[trigger] packets[i],
                    n,
                ) by {
                    if i < last {
                        assert(!releases_button(shorter[i], n));
                    }
                }
            } else if buttons.contains(n) {
                if !buttons_down(buttons, shorter).contains(n) {
                    let i = choose|i: int|
                        0 <= i < shorter.len() && releases_button(#[trigger] shorter[i], n);
                    assert(releases_button(packets[i], n));
                } else {
                    assert(releases_button(packets[last], n));
                }
            }
        }
    }
}

/// While capture is off nothing is sent.
pub proof fn nothing_is_sent_while_idle(
    s: CaptureView,
    event: CaptureEvent,
    timestamp_us: u64,
    after: CaptureView,
    out: OutcomeView,
)
    requires
        !s.captured,
        s.event(event, timestamp_us, after, out),
    ensures
        out.packets.len() == 0,
{
}

/// Of the keys that were down when capture was toggled, the server is told
/// nothing when they come up.
pub proof fn releases_after_a_toggle_are_kept_back(
    s: CaptureView,
    timestamp_us: u64,
    toggled: CaptureView,
    toggle_out: OutcomeView,
    key: Key,
    later_us: u64,
    after: CaptureView,
    out: OutcomeView,
)
    requires
        s.toggled(timestamp_us, toggled, toggle_out),
        s.pressed_keys.contains(code_of(key)),
        toggled.key_event(key, false, later_us, after, out),
    ensures
        out == OutcomeView::nothing(),
        after.remote_keys == toggled.remote_keys,
{
}

/// Of the buttons that were down when capture was toggled, the server is told
/// nothing when they come up.
pub proof fn button_releases_after_a_toggle_are_kept_back(
    s: CaptureView,
    timestamp_us: u64,
    toggled: CaptureView,
    toggle_out: OutcomeView,
    button: Button,
    later_us: u64,
)
    requires
        s.toggled(timestamp_us, toggled, toggle_out),
        s.pressed_buttons.contains(button_number(sent_button(button))),
    ensures
        toggled.button_event(button, false, later_us).1 == OutcomeView::nothing(),
{
}

/// `Ctrl+Option+M` turns capture on where it is off and off where it is on; so does
/// `Ctrl+Alt+Delete` where that is the key.
pub proof fn hotkey_toggles_capture(
    s: CaptureView,
    timestamp_us: u64,
    after: CaptureView,
    out: OutcomeView,
)
    requires
        s.modifiers.has(KeyModifiers::CTRL),
        s.modifiers.has(KeyModifiers::ALT),
        s.toggle_key is KeyM || s.toggle_key is Delete,
        s.key_event(s.toggle_key, true, timestamp_us, after, out),
    ensures
        after.captured == !s.captured,
        out.mode == Some(after.captured),
{
}

// ---------------------------------------------------------------------------
// What is forwarded
// ---------------------------------------------------------------------------

/// Every movement is forwarded. While capture is on, a movement is measured from the
/// centre where that is known, else from the last position where that is known. One that
/// leads anywhere gives one packet with exactly that distance; one that leads nowhere
/// gives none. The pointer is brought back to the centre after a movement from there, and
/// else its position is remembered. The first position is only remembered.
pub proof fn movements_are_forwarded(
    s: CaptureView,
    from_center: (i16, i16),
    from_last: (i16, i16),
    timestamp_us: u64,
    after: CaptureView,
    out: OutcomeView,
)
    requires
        s.captured,
        s.event(CaptureEvent::MouseMove { from_center, from_last }, timestamp_us, after, out),
    ensures
        s.centered && (from_center.0 != 0 || from_center.1 != 0) ==> out.packets == seq![
            InputPacket {
                timestamp_us,
                event: InputEvent::MouseMove { dx: from_center.0, dy: from_center.1 },
            },
        ],
        !s.centered && s.has_position && (from_last.0 != 0 || from_last.1 != 0) ==> out.packets
            == seq![
            InputPacket {
                timestamp_us,
                event: InputEvent::MouseMove { dx: from_last.0, dy: from_last.1 },
            },
        ],
        s.centered && from_center.0 == 0 && from_center.1 == 0 ==> out.packets.len() == 0,
        !s.centered && s.has_position && from_last.0 == 0 && from_last.1 == 0 ==> out.packets.len()
            == 0,
        !s.centered && !s.has_position ==> out.packets.len() == 0,
        out.recenter == (s.centered && (from_center.0 != 0 || from_center.1 != 0)),
        out.remember == !s.centered,
        out.mode is None,
        after == (CaptureView { has_position: s.has_position || !s.centered, ..s }),
{
}

/// While capture is off, a movement is not forwarded and the position is forgotten.
pub proof fn idle_movements_are_forgotten(
    s: CaptureView,
    from_center: (i16, i16),
    from_last: (i16, i16),
    timestamp_us: u64,
    after: CaptureView,
    out: OutcomeView,
)
    requires
        !s.captured,
        s.event(CaptureEvent::MouseMove { from_center, from_last }, timestamp_us, after, out),
    ensures
        after == (CaptureView { has_position: false, ..s }),
        out.packets.len() == 0,
        !out.recenter && !out.remember && out.mode is None,
{
}

/// The way that the packets move the remote pointer.
pub open spec fn way_sent(packets: Seq<InputPacket>) -> (int, int)
    decreases packets.len(),
{
    if packets.len() == 0 {
        (0, 0)
    } else {
        let (x, y) = way_sent(packets.drop_last());
        match packets.last().event {
            InputEvent::MouseMove { dx, dy } => (x + dx, y + dy),
            _ => (x, y),
        }
    }
}

/// The way that the local pointer was moved while capture was on: from the centre, or
/// from one position to the next.
pub open spec fn way_moved(states: Seq<CaptureView>, moves: Seq<((i16, i16), (i16, i16))>) -> (
    int,
    int,
)
    decreases moves.len(),
{
    if moves.len() == 0 {
        (0, 0)
    } else {
        let (x, y) = way_moved(states, moves.drop_last());
        let s = states[moves.len() - 1];
        let (from_center, from_last) = moves.last();
        if s.captured && s.centered {
            (x + from_center.0, y + from_center.1)
        } else if s.captured && s.has_position {
            (x + from_last.0, y + from_last.1)
        } else {
            (x, y)
        }
    }
}

/// The packets of all events, one behind the other.
pub open spec fn all_packets(outs: Seq<OutcomeView>) -> Seq<InputPacket>
    decreases outs.len(),
{
    if outs.len() == 0 {
        Seq::empty()
    } else {
        all_packets(outs.drop_last()) + outs.last().packets
    }
}

/// Movement `i` leads from one state to the next.
pub open spec fn moves_on(
    states: Seq<CaptureView>,
    moves: Seq<((i16, i16), (i16, i16))>,
    times: Seq<u64>,
    outs: Seq<OutcomeView>,
    i: int,
) -> bool {
    states[i].event(
        CaptureEvent::MouseMove { from_center: moves[i].0, from_last: moves[i].1 },
        times[i],
        states[i + 1],
        outs[i],
    )
}

/// The remote pointer goes the way of the local one: over any number of movements, the
/// distances that are sent add up to the distances that were measured.
pub proof fn movements_add_up(
    states: Seq<CaptureView>,
    moves: Seq<((i16, i16), (i16, i16))>,
    times: Seq<u64>,
    outs: Seq<OutcomeView>,
)
    requires
        states.len() == moves.len() + 1,
        times.len() == moves.len(),
        outs.len() == moves.len(),
        forall|i: int|
            0 <= i < moves.len() ==> #[trigger] moves_on(states, moves, times, outs, i),
    ensures
        way_sent(all_packets(outs)) == way_moved(states, moves),
    decreases moves.len(),
{
    if moves.len() > 0 {
        let n = moves.len() - 1;
        let fewer = states.drop_last();
        assert forall|i: int| 0 <= i < n implies #[trigger] moves_on(
            fewer,
            moves.drop_last(),
            times.drop_last(),
            outs.drop_last(),
            i,
        ) by {
            assert(moves_on(states, moves, times, outs, i));
        }
        movements_add_up(fewer, moves.drop_last(), times.drop_last(), outs.drop_last());
        lemma_same_way(fewer, states, moves.drop_last());
        assert(moves_on(states, moves, times, outs, n));
        let before = all_packets(outs.drop_last());
        let packets = outs[n].packets;
        if packets.len() == 0 {
            assert(before + packets =~= before);
        } else {
            assert((before + packets).drop_last() =~= before);
            assert((before + packets).last() == packets[0]);
        }
    }
}

proof fn lemma_same_way(
    a: Seq<CaptureView>,
    b: Seq<CaptureView>,
    moves: Seq<((i16, i16), (i16, i16))>,
)
    requires
        moves.len() <= a.len(),
        moves.len() <= b.len(),
        forall|i: int| 0 <= i < moves.len() ==> a[i] == b[i],
    ensures
        way_moved(a, moves) == way_moved(b, moves),
    decreases moves.len(),
{
    if moves.len() > 0 {
        lemma_same_way(a, b, moves.drop_last());
    }
}

/// The wheel is forwarded as it turned while capture is on, and only then.
pub proof fn scrolling_is_forwarded(
    s: CaptureView,
    dx_bits: u32,
    dy_bits: u32,
    timestamp_us: u64,
    after: CaptureView,
    out: OutcomeView,
)
    requires
        s.event(CaptureEvent::Wheel { dx_bits, dy_bits }, timestamp_us, after, out),
    ensures
        after == s,
        s.captured ==> out.packets == seq![
            InputPacket { timestamp_us, event: InputEvent::MouseScroll { dx_bits, dy_bits } },
        ],
        !s.captured ==> out.packets.len() == 0,
        out.mode is None && !out.recenter && !out.remember,
{
}

/// The number under which a local button is kept: the three named buttons first, then the
/// others by their own numbers.
pub proof fn buttons_keep_their_names(button: Button)
    ensures
        sent_button(Button::Left) is Left && button_number(MouseButton::Left) == 0,
        sent_button(Button::Right) is Right && button_number(MouseButton::Right) == 1,
        sent_button(Button::Middle) is Middle && button_number(MouseButton::Middle) == 2,
        button matches Button::Unknown(n) ==> (sent_button(button) matches MouseButton::Side(m)
            && m == n && button_number(sent_button(button)) == n + 3),
{
}

/// Buttons are forwarded. While capture is on, a press or a release of a button gives one
/// packet that names the button and says which of the two it was, except for a release
/// that is kept back. The state notes what is down here and at the server, of this button
/// and of no other.
pub proof fn buttons_are_forwarded(
    s: CaptureView,
    button: Button,
    pressed: bool,
    timestamp_us: u64,
    after: CaptureView,
    out: OutcomeView,
)
    requires
        s.event(
            if pressed {
                CaptureEvent::ButtonPress(button)
            } else {
                CaptureEvent::ButtonRelease(button)
            },
            timestamp_us,
            after,
            out,
        ),
    ensures
        ({
            let n = button_number(sent_button(button));
            let kept_back = !pressed && s.suppressed_buttons.contains(n);
            &&& s.captured && !kept_back ==> out.packets == seq![
                InputPacket {
                    timestamp_us,
                    event: InputEvent::MouseButton {
                        button: match button {
                            Button::Left => MouseButton::Left,
                            Button::Right => MouseButton::Right,
                            Button::Middle => MouseButton::Middle,
                            Button::Unknown(number) => MouseButton::Side(number),
                        },
                        pressed,
                    },
                },
            ]
            &&& !s.captured || kept_back ==> out.packets.len() == 0
            &&& out.mode is None && !out.recenter && !out.remember
            &&& after.pressed_buttons.contains(n) == pressed
            &&& after.remote_buttons.contains(n) == if s.captured && !kept_back {
                pressed
            } else {
                s.remote_buttons.contains(n)
            }
            &&& after.suppressed_buttons.contains(n) == (s.suppressed_buttons.contains(n)
                && pressed)
            &&& forall|m: u16|
                m != n ==> after.pressed_buttons.contains(m) == s.pressed_buttons.contains(m)
                    && after.remote_buttons.contains(m) == s.remote_buttons.contains(m)
                    && after.suppressed_buttons.contains(m) == s.suppressed_buttons.contains(m)
            &&& after.captured == s.captured && after.modifiers == s.modifiers
                && after.pressed_keys == s.pressed_keys && after.remote_keys == s.remote_keys
                && after.suppressed_keys == s.suppressed_keys && after.centered == s.centered
                && after.has_position == s.has_position && after.toggle_key == s.toggle_key
        }),
{
    button_numbers_stay_apart(sent_button(button));
}

/// Keys are forwarded. A press or a release of a key that does not toggle capture gives
/// one packet while capture is on, with the key's usage ID, what happened to it and the
/// modifiers in force afterwards, except for a key that has no usage ID and a release that
/// is kept back. The state notes what is down here and at the server, of this key and of
/// no other.
pub proof fn keys_are_forwarded(
    s: CaptureView,
    key: Key,
    pressed: bool,
    timestamp_us: u64,
    after: CaptureView,
    out: OutcomeView,
)
    requires
        s.event(
            if pressed {
                CaptureEvent::KeyPress(key)
            } else {
                CaptureEvent::KeyRelease(key)
            },
            timestamp_us,
            after,
            out,
        ),
        pressed && key == s.toggle_key ==> !(modifiers_after(s.modifiers, key, true).has(
            KeyModifiers::CTRL,
        ) && modifiers_after(s.modifiers, key, true).has(KeyModifiers::ALT)),
    ensures
        ({
            let kept_back = !pressed && s.suppressed_keys.contains(code_of(key));
            let sent = s.captured && !kept_back && hid_of(key) is Some;
            &&& after.modifiers == modifiers_after(s.modifiers, key, pressed)
            &&& sent ==> out.packets == seq![
                InputPacket {
                    timestamp_us,
                    event: InputEvent::KeyEvent {
                        hid_usage: hid_of(key)->0,
                        pressed,
                        modifiers: after.modifiers,
                    },
                },
            ]
            &&& !sent ==> out.packets.len() == 0
            &&& out.mode is None && !out.recenter && !out.remember
            &&& after.pressed_keys.contains(code_of(key)) == pressed
            &&& after.suppressed_keys.contains(code_of(key)) == (s.suppressed_keys.contains(
                code_of(key),
            ) && pressed)
            &&& sent ==> after.remote_keys.contains(hid_of(key)->0) == pressed
            &&& !sent ==> after.remote_keys == s.remote_keys
            &&& forall|other: u32|
                hid_of(key) != Some(other) ==> after.remote_keys.contains(other)
                    == s.remote_keys.contains(other)
            &&& forall|other: u64|
                other != code_of(key) ==> after.pressed_keys.contains(other)
                    == s.pressed_keys.contains(other) && after.suppressed_keys.contains(other)
                    == s.suppressed_keys.contains(other)
            &&& after.captured == s.captured && after.pressed_buttons == s.pressed_buttons
                && after.remote_buttons == s.remote_buttons && after.suppressed_buttons
                == s.suppressed_buttons && after.centered == s.centered && after.has_position
                == s.has_position && after.toggle_key == s.toggle_key
        }),
{
}

/// The hotkey is one key with two modifiers. Nothing else toggles capture: without
/// `Ctrl`, without `Alt`, with another key or on a release, capture stays as it is and the
/// platform is told nothing.
pub proof fn only_the_hotkey_toggles_capture(
    s: CaptureView,
    event: CaptureEvent,
    timestamp_us: u64,
    after: CaptureView,
    out: OutcomeView,
)
    requires
        s.event(event, timestamp_us, after, out),
        after.captured != s.captured || out.mode is Some,
    ensures
        event == CaptureEvent::KeyPress(s.toggle_key),
        ({
            let bits = modifiers_after(s.modifiers, s.toggle_key, true).bits;
            bits & 2 == 2 && bits & 4 == 4
        }),
        after.captured != s.captured,
        out.mode == Some(after.captured),
{
}

/// Turning capture on sends nothing and brings the pointer to the centre; turning it off
/// forgets the pointer's position and leaves nothing held at the server. In both cases the
/// releases of all that is down here, the hotkey with it, are kept back, and what is down
/// here stays noted.
pub proof fn toggling_starts_and_ends_capture(
    s: CaptureView,
    key: Key,
    timestamp_us: u64,
    after: CaptureView,
    out: OutcomeView,
)
    requires
        s.key_event(key, true, timestamp_us, after, out),
        out.mode is Some,
    ensures
        !s.captured ==> out.packets.len() == 0 && out.recenter && after.remote_keys == s.remote_keys
            && after.remote_buttons == s.remote_buttons && after.has_position == s.has_position
            && after.modifiers == modifiers_after(s.modifiers, key, true),
        s.captured ==> !out.recenter && !after.has_position && after.remote_keys == Set::<
            u32,
        >::empty() && after.remote_buttons == Set::<u16>::empty(),
        !out.remember,
        after.pressed_keys.contains(code_of(key)),
        after.pressed_buttons == s.pressed_buttons,
        forall|k: u64|
            after.suppressed_keys.contains(k) <==> s.suppressed_keys.contains(k)
                || s.pressed_keys.contains(k) || k == code_of(key),
        forall|n: u16|
            after.suppressed_buttons.contains(n) <==> s.suppressed_buttons.contains(n)
                || s.pressed_buttons.contains(n),
        after.centered == s.centered && after.toggle_key == s.toggle_key,
{
}

/// A modifier key stands for one modifier, and the same one on both sides: control, shift,
/// alt and meta, in the order of their usage IDs. The two locks have one of their own.
pub proof fn modifier_keys_come_in_pairs(hid_usage: u32)
    ensures
        0xE0 <= hid_usage <= 0xE3 ==> modifier_mask(hid_usage) == modifier_mask(
            (hid_usage + 4) as u32,
        ),
        modifier_mask(0xE0) == Some(2u32),
        modifier_mask(0xE1) == Some(1u32),
        modifier_mask(0xE2) == Some(4u32),
        modifier_mask(0xE3) == Some(8u32),
        modifier_mask(0x39) == Some(16u32),
        modifier_mask(0x53) == Some(32u32),
        modifier_mask(hid_usage) is Some <==> 0xE0 <= hid_usage <= 0xE7 || hid_usage == 0x39
            || hid_usage == 0x53,
{
}

/// A modifier is in force while its key is down: the press of a modifier key puts it in
/// force, the release takes it back, and no other modifier changes. A lock changes with
/// each press and keeps with the release. Other keys change nothing.
pub proof fn modifiers_follow_their_keys(modifiers: KeyModifiers, key: Key, pressed: bool)
    ensures
        ({
            let bits = modifiers.bits;
            let after = modifiers_after(modifiers, key, pressed).bits;
            match hid_of(key) {
                Some(hid) => match modifier_mask(hid) {
                    Some(mask) => if hid >= 0xE0 {
                        &&& pressed ==> after & mask == mask
                        &&& !pressed ==> after & mask == 0
                        &&& after & !mask == bits & !mask
                    } else if pressed {
                        &&& (after & mask == 0) != (bits & mask == 0)
                        &&& after & !mask == bits & !mask
                    } else {
                        after == bits
                    },
                    None => after == bits,
                },
                None => after == bits,
            }
        }),
{
    let bits = modifiers.bits;
    assert forall|mask: u32| #![trigger bits | mask] (bits | mask) & mask == mask && (bits | mask)
        & !mask == bits & !mask by {
        assert((bits | mask) & mask == mask && (bits | mask) & !mask == bits & !mask)
            by (bit_vector);
    }
    assert forall|mask: u32| #![trigger bits & !mask] (bits & !mask) & mask == 0 && (bits & !mask)
        & !mask == bits & !mask by {
        assert((bits & !mask) & mask == 0 && (bits & !mask) & !mask == bits & !mask)
            by (bit_vector);
    }
    assert(((bits ^ 16) & 16 == 0) != (bits & 16 == 0) && (bits ^ 16) & !16 == bits & !16)
        by (bit_vector);
    assert(((bits ^ 32) & 32 == 0) != (bits & 32 == 0) && (bits ^ 32) & !32 == bits & !32)
        by (bit_vector);
}

/// The modifiers that are left once keys have been let go: those of the keys are gone, and
/// the others are as they were.
pub proof fn released_modifiers_are_gone(modifiers: KeyModifiers, keys: Seq<u32>, j: int, others: u32)
    ensures
        ({
            let left = modifiers_without(modifiers, keys).bits;
            &&& 0 <= j < keys.len() ==> (modifier_mask(keys[j]) matches Some(mask) ==> left & mask
                == 0)
            &&& (forall|i: int|
                0 <= i < keys.len() ==> (modifier_mask(#[trigger] keys[i]) matches Some(mask) ==> mask
                    & others == 0)) ==> left & others == modifiers.bits & others
        }),
    decreases keys.len(),
{
    if keys.len() > 0 {
        let fewer = keys.drop_last();
        let last = keys.len() - 1;
        released_modifiers_are_gone(modifiers, fewer, j, others);
        let before = modifiers_without(modifiers, fewer).bits;
        let spared = forall|i: int|
            0 <= i < keys.len() ==> (modifier_mask(#[trigger] keys[i]) matches Some(mask) ==> mask
                & others == 0);
        if spared {
            assert forall|i: int| 0 <= i < fewer.len() implies (modifier_mask(
                #[trigger] fewer[i],
            ) matches Some(mask) ==> mask & others == 0) by {
                assert(modifier_mask(keys[i]) == modifier_mask(fewer[i]));
            }
            assert(modifier_mask(keys[last]) matches Some(mask) ==> mask & others == 0);
        }
        if let Some(mask) = modifier_mask(keys[last]) {
            assert((before & !mask) & mask == 0) by (bit_vector);
            assert(mask & others == 0 ==> (before & !mask) & others == before & others)
                by (bit_vector);
            if 0 <= j < last {
                if let Some(earlier) = modifier_mask(keys[j]) {
                    assert(fewer[j] == keys[j]);
                    assert(before & earlier == 0 ==> (before & !mask) & earlier == 0)
                        by (bit_vector);
                }
            }
        } else if 0 <= j < last {
            assert(fewer[j] == keys[j]);
        }
    }
}

// ---------------------------------------------------------------------------
// The event tap
// ---------------------------------------------------------------------------

/// The flag of a modifier key in the event tap is the modifier's own bit, shifted, for the
/// keys on both sides; the flag of the caps lock is the one below them.
pub proof fn tap_flags_are_the_modifiers(keycode: u16)
    ensures
        tap_flag(keycode) is Some <==> 54 <= keycode <= 63,
        key_of_vk(keycode) matches Some(key) ==> (hid_of(key) matches Some(hid) ==> (hid >= 0xE0
            ==> tap_flag(keycode) == Some((0x2_0000 * modifier_mask(hid)->0) as u64))),
        tap_flag(57) == Some(0x1_0000u64),
        tap_flag(63) == Some(0x80_0000u64),
{
}

/// Keys of the event tap are the keys of their keycodes: a known key is reported as
/// itself, an unknown one by its number. A modifier key is down while its flag is set.
pub proof fn taps_name_their_keys(key: Key, keycode: u16, flags: u64, captured: bool)
    requires
        crate::yang::keys::vk_of(key) == Some(keycode),
    ensures
        tapped(TapEvent::KeyDown { keycode: keycode as i64 }, captured) == Some(
            RawEvent::KeyPress(key),
        ),
        tapped(TapEvent::KeyUp { keycode: keycode as i64 }, captured) == Some(
            RawEvent::KeyRelease(key),
        ),
        tap_flag(keycode) matches Some(flag) ==> tapped(
            TapEvent::FlagsChanged { keycode: keycode as i64, flags },
            captured,
        ) == Some(
            if flags & flag == flag {
                RawEvent::KeyPress(key)
            } else {
                RawEvent::KeyRelease(key)
            },
        ),
{
    crate::yang::keys::key_tables_are_inverse(key, keycode);
    let wide: i64 = keycode as i64;
    assert(wide as u16 == keycode) by (bit_vector)
        requires
            wide == keycode as i64,
    ;
}

/// A keycode that stands for no key is reported by its number.
pub proof fn unknown_taps_keep_their_numbers(keycode: u16, captured: bool)
    requires
        key_of_vk(keycode) is None,
    ensures
        tapped(TapEvent::KeyDown { keycode: keycode as i64 }, captured) == Some(
            RawEvent::KeyPress(Key::Unknown(keycode as u32)),
        ),
        tapped(TapEvent::KeyUp { keycode: keycode as i64 }, captured) == Some(
            RawEvent::KeyRelease(Key::Unknown(keycode as u32)),
        ),
{
    let wide: i64 = keycode as i64;
    assert(wide as u16 == keycode) by (bit_vector)
        requires
            wide == keycode as i64,
    ;
}

/// The mouse in the event tap: buttons are reported as they are named, the pointer is
/// shifted by the raw distances while capture is on and not at all while it is off, and
/// the first axis of the wheel is the vertical one.
pub proof fn taps_report_the_mouse(a: i64, b: i64, n: u8, captured: bool)
    ensures
        tapped(TapEvent::LeftMouseDown, captured) == Some(RawEvent::ButtonPress(Button::Left)),
        tapped(TapEvent::LeftMouseUp, captured) == Some(RawEvent::ButtonRelease(Button::Left)),
        tapped(TapEvent::RightMouseDown, captured) == Some(RawEvent::ButtonPress(Button::Right)),
        tapped(TapEvent::RightMouseUp, captured) == Some(RawEvent::ButtonRelease(Button::Right)),
        tapped(TapEvent::OtherMouseDown { button: n as i64 }, captured) == Some(
            RawEvent::ButtonPress(Button::Unknown(n)),
        ),
        tapped(TapEvent::OtherMouseUp { button: n as i64 }, captured) == Some(
            RawEvent::ButtonRelease(Button::Unknown(n)),
        ),
        tapped(TapEvent::Moved { delta_x: a, delta_y: b }, true) == Some(
            RawEvent::MouseMove { shift_x: a, shift_y: b },
        ),
        tapped(TapEvent::Moved { delta_x: a, delta_y: b }, false) == Some(
            RawEvent::MouseMove { shift_x: 0, shift_y: 0 },
        ),
        tapped(TapEvent::ScrollWheel { axis_1: a, axis_2: b }, captured) == Some(
            RawEvent::Wheel { delta_x: b, delta_y: a },
        ),
        tapped(TapEvent::Other, captured) is None,
{
    let wide: i64 = n as i64;
    assert(wide as u8 == n) by (bit_vector)
        requires
            wide == n as i64,
    ;
}

/// What the server holds down is let go piece by piece, all at one time: first each button,
/// then each plain key under the modifiers that are in force, then each modifier key under
/// those that are left without it and without the ones before it.
pub proof fn releases_are_told_one_by_one(
    buttons: Seq<u16>,
    keys: Seq<u32>,
    mods: Seq<u32>,
    modifiers: KeyModifiers,
    t: u64,
    i: int,
)
    ensures
        ({
            let packets = release_packets(buttons, keys, mods, modifiers, t);
            let b = buttons.len();
            let k = keys.len();
            &&& packets.len() == b + k + mods.len()
            &&& 0 <= i < packets.len() ==> packets[i].timestamp_us == t
            &&& 0 <= i < b ==> (packets[i].event matches InputEvent::MouseButton { button, pressed }
                && button == button_of(buttons[i]) && !pressed)
            &&& b <= i < b + k ==> (packets[i].event matches InputEvent::KeyEvent {
                hid_usage,
                pressed,
                modifiers: m,
            } && hid_usage == keys[i - b] && !pressed && m == modifiers)
            &&& b + k <= i < packets.len() ==> (packets[i].event matches InputEvent::KeyEvent {
                hid_usage,
                pressed,
                modifiers: m,
            } && hid_usage == mods[i - b - k] && !pressed && (modifier_mask(
                mods[i - b - k],
            ) matches Some(mask) ==> m.bits & mask == 0 && m.bits == (if i == b + k {
                modifiers.bits
            } else {
                packets[i - 1].event->modifiers.bits
            }) & !mask))
        }),
{
    let packets = release_packets(buttons, keys, mods, modifiers, t);
    let b = buttons.len();
    let k = keys.len();
    if b + k <= i < packets.len() {
        let j = i - b - k;
        let so_far = mods.take(j + 1);
        assert(so_far.drop_last() =~= mods.take(j));
        released_modifiers_are_gone(modifiers, so_far, j, 0);
        assert(so_far[j] == mods[j]);
        if j == 0 {
            assert(mods.take(0) =~= Seq::empty());
        } else {
            assert(packets[i - 1] == key_packet(
                mods[j - 1],
                false,
                modifiers_without(modifiers, mods.take(j)),
                t,
            ));
        }
    }
}

/// Capture begins with nothing down, here or at the server, under no modifiers, and is off.
pub proof fn capture_begins_with_nothing_down(centered: bool, toggle_key: Key, k: u64, u: u32, b: u16)
    ensures
        ({
            let s = CaptureView::idle(centered, toggle_key);
            &&& !s.captured && s.modifiers.bits == 0 && !s.has_position
            &&& s.centered == centered && s.toggle_key == toggle_key
            &&& !s.pressed_keys.contains(k) && !s.suppressed_keys.contains(k)
            &&& !s.remote_keys.contains(u)
            &&& !s.pressed_buttons.contains(b) && !s.remote_buttons.contains(b)
                && !s.suppressed_buttons.contains(b)
        }),
{
}

/// The numbers that stand for buttons are those that a button has: three for the common
/// ones, and one for each of the 256 others.
pub proof fn buttons_have_these_numbers(button: MouseButton, n: u16)
    ensures
        are_buttons(set![button_number(button)]),
        are_buttons(set![n]) <==> n < 3 + 256,
{
    assert(set![n].contains(n));
}

} // verus!
