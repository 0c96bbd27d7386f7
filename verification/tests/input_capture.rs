use streamd::yang::capture::{
    hid_modifier_flag, map_mouse_button, modifier_key_pressed, read_tap_event, Button,
    CaptureEvent, CaptureState, RawEvent, TapEvent,
};
use streamd::yang::keys::{
    cg_keycode_to_rdev_key, key_code, rdev_key_to_hid, rdev_key_to_macos_vk, Key,
};
use streamd::yin_yang_proto::packets::{InputEvent, InputPacket, KeyModifiers, MouseButton};

fn key(hid_usage: u32, pressed: bool, bits: u32) -> InputEvent {
    InputEvent::KeyEvent {
        hid_usage,
        pressed,
        modifiers: KeyModifiers { bits },
    }
}

fn events(packets: Vec<InputPacket>) -> Vec<InputEvent> {
    packets.into_iter().map(|p| p.event).collect()
}

/// A state in which capture has just been turned on by the hotkey, with its keys
/// released again.
fn captured() -> CaptureState {
    let mut state = CaptureState::new(true);
    for k in [Key::ControlLeft, Key::Alt] {
        assert!(state.handle_key_event(k, true, 1).packets.is_empty());
    }
    let out = state.handle_key_event(Key::KeyM, true, 2);
    assert_eq!(out.mode, Some(true));
    assert!(out.recenter && out.packets.is_empty());
    for k in [Key::KeyM, Key::Alt, Key::ControlLeft] {
        assert!(state.handle_key_event(k, false, 3).packets.is_empty());
    }
    assert!(state.is_captured());
    state
}

#[test]
fn nothing_is_sent_while_capture_is_off() {
    let mut state = CaptureState::new(false);
    assert!(state.handle_key_event(Key::KeyA, true, 1).packets.is_empty());
    assert!(state.handle_button_event(Button::Left, true, 1).packets.is_empty());
    assert!(state.handle_scroll(0, 0, 1).packets.is_empty());
    assert!(state.handle_mouse_move((5, 5), (5, 5), 1).packets.is_empty());
    assert!(!state.is_captured());
}

#[test]
fn captured_keys_are_sent_by_usage_id() {
    let mut state = captured();
    let out = state.handle_key_event(Key::ShiftLeft, true, 10);
    assert_eq!(out.packets[0].timestamp_us, 10);
    assert_eq!(events(out.packets), vec![key(0xE1, true, KeyModifiers::SHIFT)]);
    let out = state.handle_key_event(Key::KeyA, true, 11);
    assert_eq!(events(out.packets), vec![key(0x04, true, KeyModifiers::SHIFT)]);
    let out = state.handle_key_event(Key::ShiftLeft, false, 12);
    assert_eq!(events(out.packets), vec![key(0xE1, false, 0)]);
    assert!(state.handle_key_event(Key::Pause, true, 13).packets.is_empty());
    assert!(state.handle_key_event(Key::Unknown(300), true, 13).packets.is_empty());
    let out = state.handle_key_event(Key::CapsLock, true, 14);
    assert_eq!(events(out.packets), vec![key(0x39, true, KeyModifiers::CAPS)]);
    let out = state.handle_key_event(Key::CapsLock, false, 15);
    assert_eq!(events(out.packets), vec![key(0x39, false, KeyModifiers::CAPS)]);
    let out = state.handle_key_event(Key::CapsLock, true, 16);
    assert_eq!(events(out.packets), vec![key(0x39, true, 0)]);
}

#[test]
fn leaving_capture_releases_what_is_held() {
    let mut state = captured();
    state.handle_button_event(Button::Right, true, 5);
    state.handle_key_event(Key::KeyB, true, 6);
    state.handle_key_event(Key::KeyA, true, 6);
    state.handle_key_event(Key::Alt, true, 7);
    state.handle_key_event(Key::ControlLeft, true, 7);
    let out = state.handle_key_event(Key::KeyM, true, 8);
    assert_eq!(out.mode, Some(false));
    assert!(!out.recenter);
    let both = KeyModifiers::CTRL | KeyModifiers::ALT;
    assert_eq!(
        events(out.packets),
        vec![
            InputEvent::MouseButton {
                button: MouseButton::Right,
                pressed: false
            },
            key(0x04, false, both),
            key(0x05, false, both),
            key(0xE0, false, KeyModifiers::ALT),
            key(0xE2, false, 0),
        ]
    );
    assert!(!state.is_captured());
    assert!(state.release_remote_inputs(9).is_empty());
    assert!(state.handle_key_event(Key::KeyA, false, 10).packets.is_empty());
    assert!(state.handle_button_event(Button::Right, false, 10).packets.is_empty());
}

#[test]
fn releases_that_belong_to_the_toggle_are_kept_back() {
    let mut state = CaptureState::new(true);
    state.handle_button_event(Button::Middle, true, 1);
    for k in [Key::ControlRight, Key::AltGr, Key::KeyM] {
        state.handle_key_event(k, true, 1);
    }
    assert!(state.is_captured());
    assert!(state.handle_key_event(Key::KeyM, false, 2).packets.is_empty());
    assert!(state.handle_button_event(Button::Middle, false, 2).packets.is_empty());
    let again = state.handle_button_event(Button::Middle, false, 3);
    assert_eq!(again.packets.len(), 1);
}

#[test]
fn buttons_and_wheel_are_sent() {
    let mut state = captured();
    let out = state.handle_event(CaptureEvent::ButtonPress(Button::Unknown(4)), 5);
    assert_eq!(
        events(out.packets),
        vec![InputEvent::MouseButton {
            button: MouseButton::Side(4),
            pressed: true
        }]
    );
    let out = state.handle_event(
        CaptureEvent::Wheel {
            dx_bits: 1.0f32.to_bits(),
            dy_bits: (-3.0f32).to_bits(),
        },
        6,
    );
    assert_eq!(
        events(out.packets),
        vec![InputEvent::MouseScroll {
            dx_bits: 0x3F80_0000,
            dy_bits: 0xC040_0000
        }]
    );
}

#[test]
fn movement_is_measured_from_the_centre_or_the_last_position() {
    let mut state = captured();
    let out = state.handle_mouse_move((3, -4), (9, 9), 5);
    assert!(out.recenter && !out.remember);
    assert_eq!(events(out.packets), vec![InputEvent::MouseMove { dx: 3, dy: -4 }]);
    let out = state.handle_mouse_move((0, 0), (9, 9), 5);
    assert!(out.packets.is_empty() && !out.recenter);

    assert!(!state.recenter_pointer(false));
    let out = state.handle_mouse_move((1, 1), (2, 2), 6);
    assert!(out.packets.is_empty() && out.remember && state.has_position());
    let out = state.handle_mouse_move((1, 1), (2, 2), 7);
    assert!(out.remember);
    assert_eq!(events(out.packets), vec![InputEvent::MouseMove { dx: 2, dy: 2 }]);
    assert!(state.recenter_pointer(true));
    assert!(state.set_capture_mode(false));
    assert!(!state.set_capture_mode(false));
    assert!(!state.recenter_pointer(true));
    assert!(!state.has_position());
}

#[test]
fn key_tables_are_each_others_inverse() {
    let mut known = 0;
    for keycode in 0..=u16::MAX {
        if let Some(k) = cg_keycode_to_rdev_key(keycode) {
            assert_eq!(rdev_key_to_macos_vk(k), Some(keycode));
            known += 1;
        }
    }
    assert_eq!(known, 102);
    assert_eq!(rdev_key_to_macos_vk(Key::PrintScreen), None);
    assert_eq!(rdev_key_to_hid(Key::Escape), Some(0x29));
    assert_ne!(key_code(Key::Pause), key_code(Key::ScrollLock));
    assert_ne!(key_code(Key::Unknown(0)), key_code(Key::KeyA));
}

#[test]
fn tap_events_are_read() {
    assert_eq!(
        read_tap_event(TapEvent::KeyDown { keycode: 0 }, false),
        Some(RawEvent::KeyPress(Key::KeyA))
    );
    assert_eq!(
        read_tap_event(TapEvent::KeyUp { keycode: 200 }, false),
        Some(RawEvent::KeyRelease(Key::Unknown(200)))
    );
    assert_eq!(
        read_tap_event(
            TapEvent::FlagsChanged {
                keycode: 56,
                flags: 0x0002_0100
            },
            true
        ),
        Some(RawEvent::KeyPress(Key::ShiftLeft))
    );
    assert_eq!(
        read_tap_event(TapEvent::FlagsChanged { keycode: 56, flags: 0 }, true),
        Some(RawEvent::KeyRelease(Key::ShiftLeft))
    );
    assert_eq!(
        read_tap_event(TapEvent::OtherMouseDown { button: 0x103 }, true),
        Some(RawEvent::ButtonPress(Button::Unknown(3)))
    );
    let moved = TapEvent::Moved {
        delta_x: 4,
        delta_y: -5,
    };
    assert_eq!(
        read_tap_event(moved, true),
        Some(RawEvent::MouseMove {
            shift_x: 4,
            shift_y: -5
        })
    );
    assert_eq!(
        read_tap_event(moved, false),
        Some(RawEvent::MouseMove {
            shift_x: 0,
            shift_y: 0
        })
    );
    assert_eq!(
        read_tap_event(TapEvent::ScrollWheel { axis_1: 1, axis_2: 2 }, false),
        Some(RawEvent::Wheel {
            delta_x: 2,
            delta_y: 1
        })
    );
    assert_eq!(read_tap_event(TapEvent::Other, true), None);
    assert!(modifier_key_pressed(63, 0x0080_0000));
    assert!(!modifier_key_pressed(0, u64::MAX));
    assert_eq!(hid_modifier_flag(0x53), Some(KeyModifiers::NUMLOCK));
    assert_eq!(hid_modifier_flag(0x04), None);
    assert_eq!(map_mouse_button(Button::Unknown(9)), MouseButton::Side(9));
}

#[test]
fn another_key_can_toggle_capture() {
    let mut state = CaptureState::with_toggle_key(false, Key::Delete);
    for key in [Key::ControlLeft, Key::Alt, Key::KeyM] {
        let out = state.handle_key_event(key, true, 1);
        assert_eq!(out.mode, None);
    }
    assert_eq!(state.handle_key_event(Key::Delete, true, 2).mode, Some(true));
    assert!(state.is_captured());
    assert_eq!(state.handle_key_event(Key::Delete, true, 3).mode, Some(false));
}
