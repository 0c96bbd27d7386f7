//! The keys of the local keyboard and their macOS virtual keycodes.

use crate::yin_yang_proto::keymap::{
    linux_evdev_of, macos_keycode_hid, macos_keycode_to_hid, usage_typing,
};
use vstd::prelude::*;

verus! {

/// A key of the local keyboard.
#[derive(Clone, Copy, Debug, PartialEq, Eq, Hash, Structural)]
pub enum Key {
    Alt,
    AltGr,
    Backspace,
    CapsLock,
    ControlLeft,
    ControlRight,
    Delete,
    DownArrow,
    End,
    Escape,
    F1,
    F10,
    F11,
    F12,
    F2,
    F3,
    F4,
    F5,
    F6,
    F7,
    F8,
    F9,
    Home,
    LeftArrow,
    MetaLeft,
    MetaRight,
    PageDown,
    PageUp,
    Return,
    RightArrow,
    ShiftLeft,
    ShiftRight,
    Space,
    Tab,
    UpArrow,
    PrintScreen,
    ScrollLock,
    Pause,
    NumLock,
    BackQuote,
    Num1,
    Num2,
    Num3,
    Num4,
    Num5,
    Num6,
    Num7,
    Num8,
    Num9,
    Num0,
    Minus,
    Equal,
    KeyQ,
    KeyW,
    KeyE,
    KeyR,
    KeyT,
    KeyY,
    KeyU,
    KeyI,
    KeyO,
    KeyP,
    LeftBracket,
    RightBracket,
    KeyA,
    KeyS,
    KeyD,
    KeyF,
    KeyG,
    KeyH,
    KeyJ,
    KeyK,
    KeyL,
    SemiColon,
    Quote,
    BackSlash,
    IntlBackslash,
    KeyZ,
    KeyX,
    KeyC,
    KeyV,
    KeyB,
    KeyN,
    KeyM,
    Comma,
    Dot,
    Slash,
    Insert,
    KpReturn,
    KpMinus,
    KpPlus,
    KpMultiply,
    KpDivide,
    Kp0,
    Kp1,
    Kp2,
    Kp3,
    Kp4,
    Kp5,
    Kp6,
    Kp7,
    Kp8,
    Kp9,
    KpDelete,
    Function,
    Unknown(u32),
}

/// The macOS virtual keycode of a key.
pub open spec fn vk_of(key: Key) -> Option<u16> {
    match key {
        Key::Alt => Some(58),
        Key::AltGr => Some(61),
        Key::Backspace => Some(51),
        Key::CapsLock => Some(57),
        Key::ControlLeft => Some(59),
        Key::ControlRight => Some(62),
        Key::Delete => Some(117),
        Key::DownArrow => Some(125),
        Key::End => Some(119),
        Key::Escape => Some(53),
        Key::F1 => Some(122),
        Key::F10 => Some(109),
        Key::F11 => Some(103),
        Key::F12 => Some(111),
        Key::F2 => Some(120),
        Key::F3 => Some(99),
        Key::F4 => Some(118),
        Key::F5 => Some(96),
        Key::F6 => Some(97),
        Key::F7 => Some(98),
        Key::F8 => Some(100),
        Key::F9 => Some(101),
        Key::Home => Some(115),
        Key::LeftArrow => Some(123),
        Key::MetaLeft => Some(55),
        Key::MetaRight => Some(54),
        Key::PageDown => Some(121),
        Key::PageUp => Some(116),
        Key::Return => Some(36),
        Key::RightArrow => Some(124),
        Key::ShiftLeft => Some(56),
        Key::ShiftRight => Some(60),
        Key::Space => Some(49),
        Key::Tab => Some(48),
        Key::UpArrow => Some(126),
        Key::NumLock => Some(71),
        Key::BackQuote => Some(50),
        Key::Num1 => Some(18),
        Key::Num2 => Some(19),
        Key::Num3 => Some(20),
        Key::Num4 => Some(21),
        Key::Num5 => Some(23),
        Key::Num6 => Some(22),
        Key::Num7 => Some(26),
        Key::Num8 => Some(28),
        Key::Num9 => Some(25),
        Key::Num0 => Some(29),
        Key::Minus => Some(27),
        Key::Equal => Some(24),
        Key::KeyQ => Some(12),
        Key::KeyW => Some(13),
        Key::KeyE => Some(14),
        Key::KeyR => Some(15),
        Key::KeyT => Some(17),
        Key::KeyY => Some(16),
        Key::KeyU => Some(32),
        Key::KeyI => Some(34),
        Key::KeyO => Some(31),
        Key::KeyP => Some(35),
        Key::LeftBracket => Some(33),
        Key::RightBracket => Some(30),
        Key::KeyA => Some(0),
        Key::KeyS => Some(1),
        Key::KeyD => Some(2),
        Key::KeyF => Some(3),
        Key::KeyH => Some(4),
        Key::KeyG => Some(5),
        Key::KeyZ => Some(6),
        Key::KeyX => Some(7),
        Key::KeyC => Some(8),
        Key::KeyV => Some(9),
        Key::IntlBackslash => Some(10),
        Key::KeyB => Some(11),
        Key::KeyL => Some(37),
        Key::KeyJ => Some(38),
        Key::Quote => Some(39),
        Key::KeyK => Some(40),
        Key::SemiColon => Some(41),
        Key::BackSlash => Some(42),
        Key::Comma => Some(43),
        Key::Slash => Some(44),
        Key::KeyN => Some(45),
        Key::KeyM => Some(46),
        Key::Dot => Some(47),
        Key::Insert => Some(114),
        Key::KpReturn => Some(76),
        Key::KpMinus => Some(78),
        Key::KpPlus => Some(69),
        Key::KpMultiply => Some(67),
        Key::KpDivide => Some(75),
        Key::Kp0 => Some(82),
        Key::Kp1 => Some(83),
        Key::Kp2 => Some(84),
        Key::Kp3 => Some(85),
        Key::Kp4 => Some(86),
        Key::Kp5 => Some(87),
        Key::Kp6 => Some(88),
        Key::Kp7 => Some(89),
        Key::Kp8 => Some(91),
        Key::Kp9 => Some(92),
        Key::KpDelete => Some(65),
        Key::Function => Some(63),
        Key::PrintScreen | Key::ScrollLock | Key::Pause => None,
        Key::Unknown(_) => None,
    }
}

/// Map a key to the corresponding macOS virtual keycode.
pub fn rdev_key_to_macos_vk(key: Key) -> (r: Option<u16>)
    ensures
        r == vk_of(key),
{
    match key {
        Key::Alt => Some(58),
        Key::AltGr => Some(61),
        Key::Backspace => Some(51),
        Key::CapsLock => Some(57),
        Key::ControlLeft => Some(59),
        Key::ControlRight => Some(62),
        Key::Delete => Some(117),
        Key::DownArrow => Some(125),
        Key::End => Some(119),
        Key::Escape => Some(53),
        Key::F1 => Some(122),
        Key::F10 => Some(109),
        Key::F11 => Some(103),
        Key::F12 => Some(111),
        Key::F2 => Some(120),
        Key::F3 => Some(99),
        Key::F4 => Some(118),
        Key::F5 => Some(96),
        Key::F6 => Some(97),
        Key::F7 => Some(98),
        Key::F8 => Some(100),
        Key::F9 => Some(101),
        Key::Home => Some(115),
        Key::LeftArrow => Some(123),
        Key::MetaLeft => Some(55),
        Key::MetaRight => Some(54),
        Key::PageDown => Some(121),
        Key::PageUp => Some(116),
        Key::Return => Some(36),
        Key::RightArrow => Some(124),
        Key::ShiftLeft => Some(56),
        Key::ShiftRight => Some(60),
        Key::Space => Some(49),
        Key::Tab => Some(48),
        Key::UpArrow => Some(126),
        Key::NumLock => Some(71),
        Key::BackQuote => Some(50),
        Key::Num1 => Some(18),
        Key::Num2 => Some(19),
        Key::Num3 => Some(20),
        Key::Num4 => Some(21),
        Key::Num5 => Some(23),
        Key::Num6 => Some(22),
        Key::Num7 => Some(26),
        Key::Num8 => Some(28),
        Key::Num9 => Some(25),
        Key::Num0 => Some(29),
        Key::Minus => Some(27),
        Key::Equal => Some(24),
        Key::KeyQ => Some(12),
        Key::KeyW => Some(13),
        Key::KeyE => Some(14),
        Key::KeyR => Some(15),
        Key::KeyT => Some(17),
        Key::KeyY => Some(16),
        Key::KeyU => Some(32),
        Key::KeyI => Some(34),
        Key::KeyO => Some(31),
        Key::KeyP => Some(35),
        Key::LeftBracket => Some(33),
        Key::RightBracket => Some(30),
        Key::KeyA => Some(0),
        Key::KeyS => Some(1),
        Key::KeyD => Some(2),
        Key::KeyF => Some(3),
        Key::KeyH => Some(4),
        Key::KeyG => Some(5),
        Key::KeyZ => Some(6),
        Key::KeyX => Some(7),
        Key::KeyC => Some(8),
        Key::KeyV => Some(9),
        Key::IntlBackslash => Some(10),
        Key::KeyB => Some(11),
        Key::KeyL => Some(37),
        Key::KeyJ => Some(38),
        Key::Quote => Some(39),
        Key::KeyK => Some(40),
        Key::SemiColon => Some(41),
        Key::BackSlash => Some(42),
        Key::Comma => Some(43),
        Key::Slash => Some(44),
        Key::KeyN => Some(45),
        Key::KeyM => Some(46),
        Key::Dot => Some(47),
        Key::Insert => Some(114),
        Key::KpReturn => Some(76),
        Key::KpMinus => Some(78),
        Key::KpPlus => Some(69),
        Key::KpMultiply => Some(67),
        Key::KpDivide => Some(75),
        Key::Kp0 => Some(82),
        Key::Kp1 => Some(83),
        Key::Kp2 => Some(84),
        Key::Kp3 => Some(85),
        Key::Kp4 => Some(86),
        Key::Kp5 => Some(87),
        Key::Kp6 => Some(88),
        Key::Kp7 => Some(89),
        Key::Kp8 => Some(91),
        Key::Kp9 => Some(92),
        Key::KpDelete => Some(65),
        Key::Function => Some(63),
        Key::PrintScreen | Key::ScrollLock | Key::Pause => None,
        Key::Unknown(_) => None,
    }
}

/// The key of a macOS virtual keycode.
pub open spec fn key_of_vk(keycode: u16) -> Option<Key> {
    match keycode {
        0 => Some(Key::KeyA),
        1 => Some(Key::KeyS),
        2 => Some(Key::KeyD),
        3 => Some(Key::KeyF),
        4 => Some(Key::KeyH),
        5 => Some(Key::KeyG),
        6 => Some(Key::KeyZ),
        7 => Some(Key::KeyX),
        8 => Some(Key::KeyC),
        9 => Some(Key::KeyV),
        10 => Some(Key::IntlBackslash),
        11 => Some(Key::KeyB),
        12 => Some(Key::KeyQ),
        13 => Some(Key::KeyW),
        14 => Some(Key::KeyE),
        15 => Some(Key::KeyR),
        16 => Some(Key::KeyY),
        17 => Some(Key::KeyT),
        18 => Some(Key::Num1),
        19 => Some(Key::Num2),
        20 => Some(Key::Num3),
        21 => Some(Key::Num4),
        22 => Some(Key::Num6),
        23 => Some(Key::Num5),
        24 => Some(Key::Equal),
        25 => Some(Key::Num9),
        26 => Some(Key::Num7),
        27 => Some(Key::Minus),
        28 => Some(Key::Num8),
        29 => Some(Key::Num0),
        30 => Some(Key::RightBracket),
        31 => Some(Key::KeyO),
        32 => Some(Key::KeyU),
        33 => Some(Key::LeftBracket),
        34 => Some(Key::KeyI),
        35 => Some(Key::KeyP),
        36 => Some(Key::Return),
        37 => Some(Key::KeyL),
        38 => Some(Key::KeyJ),
        39 => Some(Key::Quote),
        40 => Some(Key::KeyK),
        41 => Some(Key::SemiColon),
        42 => Some(Key::BackSlash),
        43 => Some(Key::Comma),
        44 => Some(Key::Slash),
        45 => Some(Key::KeyN),
        46 => Some(Key::KeyM),
        47 => Some(Key::Dot),
        48 => Some(Key::Tab),
        49 => Some(Key::Space),
        50 => Some(Key::BackQuote),
        51 => Some(Key::Backspace),
        53 => Some(Key::Escape),
        54 => Some(Key::MetaRight),
        55 => Some(Key::MetaLeft),
        56 => Some(Key::ShiftLeft),
        57 => Some(Key::CapsLock),
        58 => Some(Key::Alt),
        59 => Some(Key::ControlLeft),
        60 => Some(Key::ShiftRight),
        61 => Some(Key::AltGr),
        62 => Some(Key::ControlRight),
        63 => Some(Key::Function),
        65 => Some(Key::KpDelete),
        67 => Some(Key::KpMultiply),
        69 => Some(Key::KpPlus),
        71 => Some(Key::NumLock),
        75 => Some(Key::KpDivide),
        76 => Some(Key::KpReturn),
        78 => Some(Key::KpMinus),
        82 => Some(Key::Kp0),
        83 => Some(Key::Kp1),
        84 => Some(Key::Kp2),
        85 => Some(Key::Kp3),
        86 => Some(Key::Kp4),
        87 => Some(Key::Kp5),
        88 => Some(Key::Kp6),
        89 => Some(Key::Kp7),
        91 => Some(Key::Kp8),
        92 => Some(Key::Kp9),
        96 => Some(Key::F5),
        97 => Some(Key::F6),
        98 => Some(Key::F7),
        99 => Some(Key::F3),
        100 => Some(Key::F8),
        101 => Some(Key::F9),
        103 => Some(Key::F11),
        109 => Some(Key::F10),
        111 => Some(Key::F12),
        114 => Some(Key::Insert),
        115 => Some(Key::Home),
        116 => Some(Key::PageUp),
        117 => Some(Key::Delete),
        118 => Some(Key::F4),
        119 => Some(Key::End),
        120 => Some(Key::F2),
        121 => Some(Key::PageDown),
        122 => Some(Key::F1),
        123 => Some(Key::LeftArrow),
        124 => Some(Key::RightArrow),
        125 => Some(Key::DownArrow),
        126 => Some(Key::UpArrow),
        _ => None,
    }
}

/// Inversion of `rdev_key_to_macos_vk`: maps a macOS CGKeyCode to the
/// corresponding key without consulting Text Input Services.
pub fn cg_keycode_to_rdev_key(keycode: u16) -> (r: Option<Key>)
    ensures
        r == key_of_vk(keycode),
{
    match keycode {
        0 => Some(Key::KeyA),
        1 => Some(Key::KeyS),
        2 => Some(Key::KeyD),
        3 => Some(Key::KeyF),
        4 => Some(Key::KeyH),
        5 => Some(Key::KeyG),
        6 => Some(Key::KeyZ),
        7 => Some(Key::KeyX),
        8 => Some(Key::KeyC),
        9 => Some(Key::KeyV),
        10 => Some(Key::IntlBackslash),
        11 => Some(Key::KeyB),
        12 => Some(Key::KeyQ),
        13 => Some(Key::KeyW),
        14 => Some(Key::KeyE),
        15 => Some(Key::KeyR),
        16 => Some(Key::KeyY),
        17 => Some(Key::KeyT),
        18 => Some(Key::Num1),
        19 => Some(Key::Num2),
        20 => Some(Key::Num3),
        21 => Some(Key::Num4),
        22 => Some(Key::Num6),
        23 => Some(Key::Num5),
        24 => Some(Key::Equal),
        25 => Some(Key::Num9),
        26 => Some(Key::Num7),
        27 => Some(Key::Minus),
        28 => Some(Key::Num8),
        29 => Some(Key::Num0),
        30 => Some(Key::RightBracket),
        31 => Some(Key::KeyO),
        32 => Some(Key::KeyU),
        33 => Some(Key::LeftBracket),
        34 => Some(Key::KeyI),
        35 => Some(Key::KeyP),
        36 => Some(Key::Return),
        37 => Some(Key::KeyL),
        38 => Some(Key::KeyJ),
        39 => Some(Key::Quote),
        40 => Some(Key::KeyK),
        41 => Some(Key::SemiColon),
        42 => Some(Key::BackSlash),
        43 => Some(Key::Comma),
        44 => Some(Key::Slash),
        45 => Some(Key::KeyN),
        46 => Some(Key::KeyM),
        47 => Some(Key::Dot),
        48 => Some(Key::Tab),
        49 => Some(Key::Space),
        50 => Some(Key::BackQuote),
        51 => Some(Key::Backspace),
        53 => Some(Key::Escape),
        54 => Some(Key::MetaRight),
        55 => Some(Key::MetaLeft),
        56 => Some(Key::ShiftLeft),
        57 => Some(Key::CapsLock),
        58 => Some(Key::Alt),
        59 => Some(Key::ControlLeft),
        60 => Some(Key::ShiftRight),
        61 => Some(Key::AltGr),
        62 => Some(Key::ControlRight),
        63 => Some(Key::Function),
        65 => Some(Key::KpDelete),
        67 => Some(Key::KpMultiply),
        69 => Some(Key::KpPlus),
        71 => Some(Key::NumLock),
        75 => Some(Key::KpDivide),
        76 => Some(Key::KpReturn),
        78 => Some(Key::KpMinus),
        82 => Some(Key::Kp0),
        83 => Some(Key::Kp1),
        84 => Some(Key::Kp2),
        85 => Some(Key::Kp3),
        86 => Some(Key::Kp4),
        87 => Some(Key::Kp5),
        88 => Some(Key::Kp6),
        89 => Some(Key::Kp7),
        91 => Some(Key::Kp8),
        92 => Some(Key::Kp9),
        96 => Some(Key::F5),
        97 => Some(Key::F6),
        98 => Some(Key::F7),
        99 => Some(Key::F3),
        100 => Some(Key::F8),
        101 => Some(Key::F9),
        103 => Some(Key::F11),
        109 => Some(Key::F10),
        111 => Some(Key::F12),
        114 => Some(Key::Insert),
        115 => Some(Key::Home),
        116 => Some(Key::PageUp),
        117 => Some(Key::Delete),
        118 => Some(Key::F4),
        119 => Some(Key::End),
        120 => Some(Key::F2),
        121 => Some(Key::PageDown),
        122 => Some(Key::F1),
        123 => Some(Key::LeftArrow),
        124 => Some(Key::RightArrow),
        125 => Some(Key::DownArrow),
        126 => Some(Key::UpArrow),
        _ => None,
    }
}

/// The two tables are each other's inverse: a key has a keycode if and only if
/// that keycode stands for the key.
pub proof fn key_tables_are_inverse(key: Key, keycode: u16)
    ensures
        vk_of(key) == Some(keycode) <==> key_of_vk(keycode) == Some(key),
{
}

/// The USB HID usage ID under which a key is sent.
pub open spec fn hid_of(key: Key) -> Option<u32> {
    match vk_of(key) {
        Some(vk) => macos_keycode_hid(vk),
        None => None,
    }
}

pub fn rdev_key_to_hid(key: Key) -> (r: Option<u32>)
    ensures
        r == hid_of(key),
{
    match rdev_key_to_macos_vk(key) {
        Some(vk) => macos_keycode_to_hid(vk),
        None => None,
    }
}

/// No two keys are sent as the same usage ID.
pub proof fn keys_stay_apart(a: Key, b: Key)
    requires
        hid_of(a) is Some,
        hid_of(a) == hid_of(b),
    ensures
        a == b,
{
    let va = vk_of(a)->0;
    let vb = vk_of(b)->0;
    crate::yin_yang_proto::keymap::mac_keys_stay_apart(va, vb);
    key_tables_are_inverse(a, va);
    key_tables_are_inverse(b, vb);
}

/// A number that tells a key from every other: its keycode where it has one.
pub open spec fn code_of(key: Key) -> u64 {
    match vk_of(key) {
        Some(vk) => vk as u64,
        None => match key {
            Key::PrintScreen => 0x1_0000,
            Key::ScrollLock => 0x1_0001,
            Key::Pause => 0x1_0002,
            Key::Unknown(n) => (0x2_0000 + n) as u64,
            _ => 0x1_0003,
        },
    }
}

pub fn key_code(key: Key) -> (r: u64)
    ensures
        r == code_of(key),
{
    match rdev_key_to_macos_vk(key) {
        Some(vk) => vk as u64,
        None => match key {
            Key::PrintScreen => 0x1_0000,
            Key::ScrollLock => 0x1_0001,
            Key::Pause => 0x1_0002,
            Key::Unknown(n) => 0x2_0000 + n as u64,
            _ => 0x1_0003,
        },
    }
}

/// The number of a key tells it from every other key.
pub proof fn key_codes_stay_apart(a: Key, b: Key)
    requires
        code_of(a) == code_of(b),
    ensures
        a == b,
{
    if let Some(va) = vk_of(a) {
        key_tables_are_inverse(a, va);
        key_tables_are_inverse(b, va);
    }
}

/// The character that a key types on a US keyboard.
pub open spec fn typed_by(key: Key) -> Option<char> {
    match key {
        Key::KeyA => Some('a'),
        Key::KeyB => Some('b'),
        Key::KeyC => Some('c'),
        Key::KeyD => Some('d'),
        Key::KeyE => Some('e'),
        Key::KeyF => Some('f'),
        Key::KeyG => Some('g'),
        Key::KeyH => Some('h'),
        Key::KeyI => Some('i'),
        Key::KeyJ => Some('j'),
        Key::KeyK => Some('k'),
        Key::KeyL => Some('l'),
        Key::KeyM => Some('m'),
        Key::KeyN => Some('n'),
        Key::KeyO => Some('o'),
        Key::KeyP => Some('p'),
        Key::KeyQ => Some('q'),
        Key::KeyR => Some('r'),
        Key::KeyS => Some('s'),
        Key::KeyT => Some('t'),
        Key::KeyU => Some('u'),
        Key::KeyV => Some('v'),
        Key::KeyW => Some('w'),
        Key::KeyX => Some('x'),
        Key::KeyY => Some('y'),
        Key::KeyZ => Some('z'),
        Key::Num1 => Some('1'),
        Key::Num2 => Some('2'),
        Key::Num3 => Some('3'),
        Key::Num4 => Some('4'),
        Key::Num5 => Some('5'),
        Key::Num6 => Some('6'),
        Key::Num7 => Some('7'),
        Key::Num8 => Some('8'),
        Key::Num9 => Some('9'),
        Key::Num0 => Some('0'),
        Key::Minus => Some('-'),
        Key::Equal => Some('='),
        Key::LeftBracket => Some('['),
        Key::RightBracket => Some(']'),
        Key::BackSlash => Some('\\'),
        Key::SemiColon => Some(';'),
        Key::Quote => Some('\''),
        Key::BackQuote => Some('`'),
        Key::Comma => Some(','),
        Key::Dot => Some('.'),
        Key::Slash => Some('/'),
        _ => None,
    }
}

/// A key that types a character is sent as the usage ID of that character.
pub proof fn keys_are_sent_by_their_characters(key: Key)
    ensures
        typed_by(key) matches Some(c) ==> hid_of(key) == Some(usage_typing(c)),
{
}

/// The function key with this number.
pub open spec fn function_key(n: int) -> Key {
    if n == 1 {
        Key::F1
    } else if n == 2 {
        Key::F2
    } else if n == 3 {
        Key::F3
    } else if n == 4 {
        Key::F4
    } else if n == 5 {
        Key::F5
    } else if n == 6 {
        Key::F6
    } else if n == 7 {
        Key::F7
    } else if n == 8 {
        Key::F8
    } else if n == 9 {
        Key::F9
    } else if n == 10 {
        Key::F10
    } else if n == 11 {
        Key::F11
    } else {
        Key::F12
    }
}

/// The key of the number pad with this digit.
pub open spec fn pad_key(n: int) -> Key {
    if n == 0 {
        Key::Kp0
    } else if n == 1 {
        Key::Kp1
    } else if n == 2 {
        Key::Kp2
    } else if n == 3 {
        Key::Kp3
    } else if n == 4 {
        Key::Kp4
    } else if n == 5 {
        Key::Kp5
    } else if n == 6 {
        Key::Kp6
    } else if n == 7 {
        Key::Kp7
    } else if n == 8 {
        Key::Kp8
    } else {
        Key::Kp9
    }
}

/// The function keys and the digits of the number pad are sent in the order of their
/// numbers, with 0 after 9.
pub proof fn numbered_keys_are_sent_in_order(n: int)
    ensures
        1 <= n <= 12 ==> hid_of(function_key(n)) == Some((0x39 + n) as u32),
        1 <= n <= 9 ==> hid_of(pad_key(n)) == Some((0x58 + n) as u32),
        hid_of(pad_key(0)) == Some(0x62u32),
{
}

/// The keys without a character or a number are sent as the usage IDs of their names.
pub proof fn named_keys_are_sent_as_themselves()
    ensures
        hid_of(Key::Return) == Some(0x28u32),
        hid_of(Key::Escape) == Some(0x29u32),
        hid_of(Key::Backspace) == Some(0x2Au32),
        hid_of(Key::Tab) == Some(0x2Bu32),
        hid_of(Key::Space) == Some(0x2Cu32),
        hid_of(Key::CapsLock) == Some(0x39u32),
        hid_of(Key::Home) == Some(0x4Au32),
        hid_of(Key::PageUp) == Some(0x4Bu32),
        hid_of(Key::Delete) == Some(0x4Cu32),
        hid_of(Key::End) == Some(0x4Du32),
        hid_of(Key::PageDown) == Some(0x4Eu32),
        hid_of(Key::RightArrow) == Some(0x4Fu32),
        hid_of(Key::LeftArrow) == Some(0x50u32),
        hid_of(Key::DownArrow) == Some(0x51u32),
        hid_of(Key::UpArrow) == Some(0x52u32),
        hid_of(Key::NumLock) == Some(0x53u32),
        hid_of(Key::KpDivide) == Some(0x54u32),
        hid_of(Key::KpMultiply) == Some(0x55u32),
        hid_of(Key::KpMinus) == Some(0x56u32),
        hid_of(Key::KpPlus) == Some(0x57u32),
        hid_of(Key::KpReturn) == Some(0x58u32),
        hid_of(Key::KpDelete) == Some(0x63u32),
        hid_of(Key::ControlLeft) == Some(0xE0u32),
        hid_of(Key::ShiftLeft) == Some(0xE1u32),
        hid_of(Key::Alt) == Some(0xE2u32),
        hid_of(Key::MetaLeft) == Some(0xE3u32),
        hid_of(Key::ControlRight) == Some(0xE4u32),
        hid_of(Key::ShiftRight) == Some(0xE5u32),
        hid_of(Key::AltGr) == Some(0xE6u32),
        hid_of(Key::MetaRight) == Some(0xE7u32),
{
}

/// Which keys can be sent: all but those without a keycode, the `Fn` key, `Insert` and
/// the extra key of European keyboards. What can be sent reaches a Linux server.
pub proof fn most_keys_can_be_sent(key: Key)
    ensures
        hid_of(key) is None <==> (key is PrintScreen || key is ScrollLock || key is Pause
            || key is Unknown || key is Function || key is Insert || key is IntlBackslash),
        hid_of(key) matches Some(hid) ==> linux_evdev_of(hid) is Some,
{
}

} // verus!
