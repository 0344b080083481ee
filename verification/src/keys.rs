//! The closed set of physical keys and the two textual dialects that name
//! them.

use crate::error::Error;
use crate::text::{byte_of_text, chars_of, parse_byte, same, starts_with};
use vstd::prelude::*;

verus! {

/// A physical key.
#[derive(Debug, Hash, PartialEq, Eq, Clone, Copy, Structural)]
pub enum Key {
    Fn(u8),
    F13,
    F14,
    F15,
    F16,
    F17,
    F18,
    F19,
    F20,
    F21,
    F22,
    F23,
    F24,
    VolumeUp,
    VolumeDown,
    VolumeMute,
    Esc,
    F1,
    F2,
    F3,
    F4,
    F5,
    F6,
    F7,
    F8,
    F9,
    F10,
    F11,
    F12,
    PrintScreen,
    ScrollLock,
    Pause,
    Grave,
    One,
    Two,
    Three,
    Four,
    Five,
    Six,
    Seven,
    Eight,
    Nine,
    Zero,
    Minus,
    Equal,
    Backspace,
    Insert,
    Home,
    PageUp,
    Numlock,
    KpSlash,
    KpAsterisk,
    KpMinus,
    Tab,
    Q,
    W,
    E,
    R,
    T,
    Y,
    U,
    I,
    O,
    P,
    LeftBracket,
    RightBracket,
    Backslash,
    Delete,
    End,
    PageDown,
    Kp7,
    Kp8,
    Kp9,
    KpPlus,
    CapsLock,
    A,
    S,
    D,
    F,
    G,
    H,
    J,
    K,
    L,
    Semicolon,
    Apostrophe,
    Enter,
    Kp4,
    Kp5,
    Kp6,
    LeftShift,
    Z,
    X,
    C,
    V,
    B,
    N,
    M,
    Comma,
    Dot,
    Slash,
    RightShift,
    Up,
    Kp1,
    Kp2,
    Kp3,
    KpEqual,
    LeftCtrl,
    LeftMeta,
    LeftAlt,
    Space,
    RightAlt,
    RightMeta,
    Menu,
    RightCtrl,
    Left,
    Down,
    Right,
    Kp0,
    KpDot,
    KpEnter,
    MediaPlayPause,
    MouseCursorUp,
    MouseCursorDown,
    MouseCursorLeft,
    MouseCursorRight,
    MouseWheelUp,
    MouseWheelDown,
    MouseWheelLeft,
    MouseWheelRight,
    MouseButton1,
    MouseButton2,
    MouseButton3,
    MouseButton4,
    MouseButton5,
    MouseAcceleration0,
    MouseAcceleration1,
    MouseAcceleration2,
}

/// The position of a key in the source row.
#[derive(Debug, Hash, PartialEq, Eq, Clone, Copy, Structural)]
pub struct KeyIndex(pub u8);

impl KeyIndex {
    /// The index for a position, where a byte can hold it.
    pub fn from_usize(value: usize) -> (r: Result<KeyIndex, Error>)
        ensures
            r == (if value <= 255 {
                Ok::<KeyIndex, Error>(KeyIndex(value as u8))
            } else {
                Err(Error::TooManyKeys)
            }),
    {
        if value <= 255 {
            Ok(KeyIndex(value as u8))
        } else {
            Err(Error::TooManyKeys)
        }
    }

    /// The position that the index stands for.
    pub fn to_usize(&self) -> (r: usize)
        ensures
            r == self.0,
    {
        self.0 as usize
    }
}

impl Key {
    /// The keypad key of a decimal digit.
    pub fn from_digit(c: char) -> (r: Key)
        requires
            crate::text::digit_value(c).is_some(),
        ensures
            r == Key::keypad_of(c),
    {
        match c {
            '0' => Key::Kp0,
            '1' => Key::Kp1,
            '2' => Key::Kp2,
            '3' => Key::Kp3,
            '4' => Key::Kp4,
            '5' => Key::Kp5,
            '6' => Key::Kp6,
            '7' => Key::Kp7,
            '8' => Key::Kp8,
            _ => Key::Kp9,
        }
    }

    /// The keypad key that carries a digit; `Kp9` for anything else.
    pub open spec fn keypad_of(c: char) -> Key {
        if c == '0' {
            Key::Kp0
        } else if c == '1' {
            Key::Kp1
        } else if c == '2' {
            Key::Kp2
        } else if c == '3' {
            Key::Kp3
        } else if c == '4' {
            Key::Kp4
        } else if c == '5' {
            Key::Kp5
        } else if c == '6' {
            Key::Kp6
        } else if c == '7' {
            Key::Kp7
        } else if c == '8' {
            Key::Kp8
        } else {
            Key::Kp9
        }
    }

    /// Whether the key is one of the eight modifiers.
    pub open spec fn modifier(&self) -> bool {
        match self {
            Key::LeftShift
            | Key::RightShift
            | Key::LeftCtrl
            | Key::RightCtrl
            | Key::LeftMeta
            | Key::RightMeta
            | Key::LeftAlt
            | Key::RightAlt => true,
            _ => false,
        }
    }

    /// Whether the key is one of the eight modifiers.
    pub fn is_modifier(&self) -> (r: bool)
        ensures
            r == self.modifier(),
    {
        match self {
            Key::LeftShift
            | Key::RightShift
            | Key::LeftCtrl
            | Key::RightCtrl
            | Key::LeftMeta
            | Key::RightMeta
            | Key::LeftAlt
            | Key::RightAlt => true,
            _ => false,
        }
    }

    /// The key that a name of either dialect stands for. A name that begins
    /// with `fn` or `KeyFn` is a numbered function-layer key, and nothing
    /// else.
    pub open spec fn of_name(s: Seq<char>) -> Option<Key> {
        if has_prefix(s, "fn"@) {
            match byte_of_text(s.skip("fn"@.len() as int)) {
                Some(n) => Some(Key::Fn(n)),
                None => None,
            }
        } else if has_prefix(s, "KeyFn"@) {
            match byte_of_text(s.skip("KeyFn"@.len() as int)) {
                Some(n) => Some(Key::Fn(n)),
                None => None,
            }
        } else {
            Key::of_plain_name(s)
        }
    }

    /// The key that a name without a number stands for.
    pub open spec fn of_plain_name(s: Seq<char>) -> Option<Key> {
        if s == "KeyEsc"@ || s == "esc"@ {
            Some(Key::Esc)
        }         else if s == "KeyF1"@ || s == "f1"@ {
            Some(Key::F1)
        }         else if s == "KeyF2"@ || s == "f2"@ {
            Some(Key::F2)
        }         else if s == "KeyF3"@ || s == "f3"@ {
            Some(Key::F3)
        }         else if s == "KeyF4"@ || s == "f4"@ {
            Some(Key::F4)
        }         else if s == "KeyF5"@ || s == "f5"@ {
            Some(Key::F5)
        }         else if s == "KeyF6"@ || s == "f6"@ {
            Some(Key::F6)
        }         else if s == "KeyF7"@ || s == "f7"@ {
            Some(Key::F7)
        }         else if s == "KeyF8"@ || s == "f8"@ {
            Some(Key::F8)
        }         else if s == "KeyF9"@ || s == "f9"@ {
            Some(Key::F9)
        }         else if s == "KeyF10"@ || s == "f10"@ {
            Some(Key::F10)
        }         else if s == "KeyF11"@ || s == "f11"@ {
            Some(Key::F11)
        }         else if s == "KeyF12"@ || s == "f12"@ {
            Some(Key::F12)
        }         else if s == "KeyF13"@ || s == "f13"@ {
            Some(Key::F13)
        }         else if s == "KeyF14"@ || s == "f14"@ {
            Some(Key::F14)
        }         else if s == "KeyF15"@ || s == "f15"@ {
            Some(Key::F15)
        }         else if s == "KeyF16"@ || s == "f16"@ {
            Some(Key::F16)
        }         else if s == "KeyF17"@ || s == "f17"@ {
            Some(Key::F17)
        }         else if s == "KeyF18"@ || s == "f18"@ {
            Some(Key::F18)
        }         else if s == "KeyF19"@ || s == "f19"@ {
            Some(Key::F19)
        }         else if s == "KeyF20"@ || s == "f20"@ {
            Some(Key::F20)
        }         else if s == "KeyF21"@ || s == "f21"@ {
            Some(Key::F21)
        }         else if s == "KeyF22"@ || s == "f22"@ {
            Some(Key::F22)
        }         else if s == "KeyF23"@ || s == "f23"@ {
            Some(Key::F23)
        }         else if s == "KeyF24"@ || s == "f24"@ {
            Some(Key::F24)
        }         else if s == "PrintScreen"@ {
            Some(Key::PrintScreen)
        }         else if s == "ScrollLock"@ {
            Some(Key::ScrollLock)
        }         else if s == "Pause"@ {
            Some(Key::Pause)
        }         else if s == "Backquote"@ || s == "`"@ {
            Some(Key::Grave)
        }         else if s == "Digit1"@ || s == "1"@ {
            Some(Key::One)
        }         else if s == "Digit2"@ || s == "2"@ {
            Some(Key::Two)
        }         else if s == "Digit3"@ || s == "3"@ {
            Some(Key::Three)
        }         else if s == "Digit4"@ || s == "4"@ {
            Some(Key::Four)
        }         else if s == "Digit5"@ || s == "5"@ {
            Some(Key::Five)
        }         else if s == "Digit6"@ || s == "6"@ {
            Some(Key::Six)
        }         else if s == "Digit7"@ || s == "7"@ {
            Some(Key::Seven)
        }         else if s == "Digit8"@ || s == "8"@ {
            Some(Key::Eight)
        }         else if s == "Digit9"@ || s == "9"@ {
            Some(Key::Nine)
        }         else if s == "Digit0"@ || s == "0"@ {
            Some(Key::Zero)
        }         else if s == "Minus"@ || s == "-"@ {
            Some(Key::Minus)
        }         else if s == "Equal"@ || s == "="@ {
            Some(Key::Equal)
        }         else if s == "Backspace"@ || s == "bks"@ {
            Some(Key::Backspace)
        }         else if s == "Insert"@ || s == "ins"@ {
            Some(Key::Insert)
        }         else if s == "Home"@ || s == "home"@ {
            Some(Key::Home)
        }         else if s == "PageUp"@ || s == "pgup"@ {
            Some(Key::PageUp)
        }         else if s == "Numlock"@ {
            Some(Key::Numlock)
        }         else if s == "Tab"@ || s == "tab"@ {
            Some(Key::Tab)
        }         else if s == "KeyQ"@ || s == "q"@ {
            Some(Key::Q)
        }         else if s == "KeyW"@ || s == "w"@ {
            Some(Key::W)
        }         else if s == "KeyE"@ || s == "e"@ {
            Some(Key::E)
        }         else if s == "KeyR"@ || s == "r"@ {
            Some(Key::R)
        }         else if s == "KeyT"@ || s == "t"@ {
            Some(Key::T)
        }         else if s == "KeyY"@ || s == "y"@ {
            Some(Key::Y)
        }         else if s == "KeyU"@ || s == "u"@ {
            Some(Key::U)
        }         else if s == "KeyI"@ || s == "i"@ {
            Some(Key::I)
        }         else if s == "KeyO"@ || s == "o"@ {
            Some(Key::O)
        }         else if s == "KeyP"@ || s == "p"@ {
            Some(Key::P)
        }         else if s == "BracketLeft"@ || s == "["@ {
            Some(Key::LeftBracket)
        }         else if s == "BracketRight"@ || s == "]"@ {
            Some(Key::RightBracket)
        }         else if s == "Backslash"@ || s == "\\"@ {
            Some(Key::Backslash)
        }         else if s == "Delete"@ || s == "del"@ {
            Some(Key::Delete)
        }         else if s == "End"@ || s == "end"@ {
            Some(Key::End)
        }         else if s == "PageDown"@ || s == "pgdn"@ {
            Some(Key::PageDown)
        }         else if s == "CapsLock"@ || s == "caps"@ {
            Some(Key::CapsLock)
        }         else if s == "KeyA"@ || s == "a"@ {
            Some(Key::A)
        }         else if s == "KeyS"@ || s == "s"@ {
            Some(Key::S)
        }         else if s == "KeyD"@ || s == "d"@ {
            Some(Key::D)
        }         else if s == "KeyF"@ || s == "f"@ {
            Some(Key::F)
        }         else if s == "KeyG"@ || s == "g"@ {
            Some(Key::G)
        }         else if s == "KeyH"@ || s == "h"@ {
            Some(Key::H)
        }         else if s == "KeyJ"@ || s == "j"@ {
            Some(Key::J)
        }         else if s == "KeyK"@ || s == "k"@ {
            Some(Key::K)
        }         else if s == "KeyL"@ || s == "l"@ {
            Some(Key::L)
        }         else if s == "Semicolon"@ || s == ";"@ {
            Some(Key::Semicolon)
        }         else if s == "Quote"@ || s == "'"@ {
            Some(Key::Apostrophe)
        }         else if s == "Enter"@ || s == "ent"@ || s == "enter"@ {
            Some(Key::Enter)
        }         else if s == "KeyZ"@ || s == "z"@ {
            Some(Key::Z)
        }         else if s == "KeyX"@ || s == "x"@ {
            Some(Key::X)
        }         else if s == "KeyC"@ || s == "c"@ {
            Some(Key::C)
        }         else if s == "KeyV"@ || s == "v"@ {
            Some(Key::V)
        }         else if s == "KeyB"@ || s == "b"@ {
            Some(Key::B)
        }         else if s == "KeyN"@ || s == "n"@ {
            Some(Key::N)
        }         else if s == "KeyM"@ || s == "m"@ {
            Some(Key::M)
        }         else if s == "Comma"@ || s == ","@ {
            Some(Key::Comma)
        }         else if s == "Period"@ || s == "."@ {
            Some(Key::Dot)
        }         else if s == "Slash"@ || s == "/"@ {
            Some(Key::Slash)
        }         else if s == "Numpad0"@ || s == "kp0"@ {
            Some(Key::Kp0)
        }         else if s == "Numpad1"@ || s == "kp1"@ {
            Some(Key::Kp1)
        }         else if s == "Numpad2"@ || s == "kp2"@ {
            Some(Key::Kp2)
        }         else if s == "Numpad3"@ || s == "kp3"@ {
            Some(Key::Kp3)
        }         else if s == "Numpad4"@ || s == "kp4"@ {
            Some(Key::Kp4)
        }         else if s == "Numpad5"@ || s == "kp5"@ {
            Some(Key::Kp5)
        }         else if s == "Numpad6"@ || s == "kp6"@ {
            Some(Key::Kp6)
        }         else if s == "Numpad7"@ || s == "kp7"@ {
            Some(Key::Kp7)
        }         else if s == "Numpad8"@ || s == "kp8"@ {
            Some(Key::Kp8)
        }         else if s == "Numpad9"@ || s == "kp9"@ {
            Some(Key::Kp9)
        }         else if s == "NumpadPlus"@ || s == "kp+"@ {
            Some(Key::KpPlus)
        }         else if s == "NumpadEnter"@ || s == "kprt"@ {
            Some(Key::KpEnter)
        }         else if s == "NumpadDecimal"@ || s == "kp."@ {
            Some(Key::KpDot)
        }         else if s == "NumpadSlash"@ || s == "kp/"@ {
            Some(Key::KpSlash)
        }         else if s == "NumpadAsterisk"@ || s == "kp*"@ {
            Some(Key::KpAsterisk)
        }         else if s == "NumpadMinus"@ || s == "kp-"@ {
            Some(Key::KpMinus)
        }         else if s == "LeftShift"@ || s == "sft"@ || s == "lsft"@ || s == "LS"@ || s == "S"@ {
            Some(Key::LeftShift)
        }         else if s == "RightShift"@ || s == "rsft"@ || s == "RS"@ {
            Some(Key::RightShift)
        }         else if s == "LeftCtrl"@ || s == "lctl"@ || s == "ctl"@ || s == "LC"@ || s == "C"@ {
            Some(Key::LeftCtrl)
        }         else if s == "RightCtrl"@ || s == "rctl"@ || s == "RC"@ {
            Some(Key::RightCtrl)
        }         else if s == "LeftMeta"@ || s == "lmeta"@ || s == "meta"@ || s == "LM"@ || s == "M"@ {
            Some(Key::LeftMeta)
        }         else if s == "RightMeta"@ || s == "rmeta"@ || s == "RM"@ {
            Some(Key::RightMeta)
        }         else if s == "LeftAlt"@ || s == "lalt"@ || s == "alt"@ || s == "LA"@ || s == "A"@ {
            Some(Key::LeftAlt)
        }         else if s == "RightAlt"@ || s == "ralt"@ || s == "RA"@ {
            Some(Key::RightAlt)
        }         else if s == "Space"@ || s == "spc"@ {
            Some(Key::Space)
        }         else if s == "Menu"@ || s == "menu"@ {
            Some(Key::Menu)
        }         else if s == "ArrowLeft"@ || s == "lt"@ {
            Some(Key::Left)
        }         else if s == "ArrowDown"@ || s == "dn"@ {
            Some(Key::Down)
        }         else if s == "ArrowUp"@ || s == "up"@ {
            Some(Key::Up)
        }         else if s == "ArrowRight"@ || s == "rt"@ {
            Some(Key::Right)
        }         else if s == "VolumeUp"@ || s == "volu"@ || s == "vol+"@ {
            Some(Key::VolumeUp)
        }         else if s == "VolumeDown"@ || s == "vold"@ || s == "vol-"@ {
            Some(Key::VolumeDown)
        }         else if s == "VolumeMute"@ || s == "mute"@ {
            Some(Key::VolumeMute)
        } else {
            None
        }
    }

    /// Reads a key name of either dialect.
    pub fn from_str(s: &str) -> (r: Result<Key, Error>)
        ensures
            r == (match Key::of_name(s@) {
                Some(k) => Ok::<Key, Error>(k),
                None => Err(Error::UnknownKey),
            }),
    {
        let v = chars_of(s);
        if starts_with(&v, "fn") {
            let n = "fn".unicode_len();
            return match parse_byte(&v, n) {
                Some(b) => Ok(Key::Fn(b)),
                None => Err(Error::UnknownKey),
            };
        }
        if starts_with(&v, "KeyFn") {
            let n = "KeyFn".unicode_len();
            return match parse_byte(&v, n) {
                Some(b) => Ok(Key::Fn(b)),
                None => Err(Error::UnknownKey),
            };
        }
        match Key::from_plain_name(s) {
            Some(k) => Ok(k),
            None => Err(Error::UnknownKey),
        }
    }

    fn from_plain_name(s: &str) -> (r: Option<Key>)
        ensures
            r == Key::of_plain_name(s@),
    {
        if same(s, "KeyEsc") || same(s, "esc") {
            return Some(Key::Esc);
        }
        if same(s, "KeyF1") || same(s, "f1") {
            return Some(Key::F1);
        }
        if same(s, "KeyF2") || same(s, "f2") {
            return Some(Key::F2);
        }
        if same(s, "KeyF3") || same(s, "f3") {
            return Some(Key::F3);
        }
        if same(s, "KeyF4") || same(s, "f4") {
            return Some(Key::F4);
        }
        if same(s, "KeyF5") || same(s, "f5") {
            return Some(Key::F5);
        }
        if same(s, "KeyF6") || same(s, "f6") {
            return Some(Key::F6);
        }
        if same(s, "KeyF7") || same(s, "f7") {
            return Some(Key::F7);
        }
        if same(s, "KeyF8") || same(s, "f8") {
            return Some(Key::F8);
        }
        if same(s, "KeyF9") || same(s, "f9") {
            return Some(Key::F9);
        }
        if same(s, "KeyF10") || same(s, "f10") {
            return Some(Key::F10);
        }
        if same(s, "KeyF11") || same(s, "f11") {
            return Some(Key::F11);
        }
        if same(s, "KeyF12") || same(s, "f12") {
            return Some(Key::F12);
        }
        if same(s, "KeyF13") || same(s, "f13") {
            return Some(Key::F13);
        }
        if same(s, "KeyF14") || same(s, "f14") {
            return Some(Key::F14);
        }
        if same(s, "KeyF15") || same(s, "f15") {
            return Some(Key::F15);
        }
        if same(s, "KeyF16") || same(s, "f16") {
            return Some(Key::F16);
        }
        if same(s, "KeyF17") || same(s, "f17") {
            return Some(Key::F17);
        }
        if same(s, "KeyF18") || same(s, "f18") {
            return Some(Key::F18);
        }
        if same(s, "KeyF19") || same(s, "f19") {
            return Some(Key::F19);
        }
        if same(s, "KeyF20") || same(s, "f20") {
            return Some(Key::F20);
        }
        if same(s, "KeyF21") || same(s, "f21") {
            return Some(Key::F21);
        }
        if same(s, "KeyF22") || same(s, "f22") {
            return Some(Key::F22);
        }
        if same(s, "KeyF23") || same(s, "f23") {
            return Some(Key::F23);
        }
        if same(s, "KeyF24") || same(s, "f24") {
            return Some(Key::F24);
        }
        if same(s, "PrintScreen") {
            return Some(Key::PrintScreen);
        }
        if same(s, "ScrollLock") {
            return Some(Key::ScrollLock);
        }
        if same(s, "Pause") {
            return Some(Key::Pause);
        }
        if same(s, "Backquote") || same(s, "`") {
            return Some(Key::Grave);
        }
        if same(s, "Digit1") || same(s, "1") {
            return Some(Key::One);
        }
        if same(s, "Digit2") || same(s, "2") {
            return Some(Key::Two);
        }
        if same(s, "Digit3") || same(s, "3") {
            return Some(Key::Three);
        }
        if same(s, "Digit4") || same(s, "4") {
            return Some(Key::Four);
        }
        if same(s, "Digit5") || same(s, "5") {
            return Some(Key::Five);
        }
        if same(s, "Digit6") || same(s, "6") {
            return Some(Key::Six);
        }
        if same(s, "Digit7") || same(s, "7") {
            return Some(Key::Seven);
        }
        if same(s, "Digit8") || same(s, "8") {
            return Some(Key::Eight);
        }
        if same(s, "Digit9") || same(s, "9") {
            return Some(Key::Nine);
        }
        if same(s, "Digit0") || same(s, "0") {
            return Some(Key::Zero);
        }
        if same(s, "Minus") || same(s, "-") {
            return Some(Key::Minus);
        }
        if same(s, "Equal") || same(s, "=") {
            return Some(Key::Equal);
        }
        if same(s, "Backspace") || same(s, "bks") {
            return Some(Key::Backspace);
        }
        if same(s, "Insert") || same(s, "ins") {
            return Some(Key::Insert);
        }
        if same(s, "Home") || same(s, "home") {
            return Some(Key::Home);
        }
        if same(s, "PageUp") || same(s, "pgup") {
            return Some(Key::PageUp);
        }
        if same(s, "Numlock") {
            return Some(Key::Numlock);
        }
        if same(s, "Tab") || same(s, "tab") {
            return Some(Key::Tab);
        }
        if same(s, "KeyQ") || same(s, "q") {
            return Some(Key::Q);
        }
        if same(s, "KeyW") || same(s, "w") {
            return Some(Key::W);
        }
        if same(s, "KeyE") || same(s, "e") {
            return Some(Key::E);
        }
        if same(s, "KeyR") || same(s, "r") {
            return Some(Key::R);
        }
        if same(s, "KeyT") || same(s, "t") {
            return Some(Key::T);
        }
        if same(s, "KeyY") || same(s, "y") {
            return Some(Key::Y);
        }
        if same(s, "KeyU") || same(s, "u") {
            return Some(Key::U);
        }
        if same(s, "KeyI") || same(s, "i") {
            return Some(Key::I);
        }
        if same(s, "KeyO") || same(s, "o") {
            return Some(Key::O);
        }
        if same(s, "KeyP") || same(s, "p") {
            return Some(Key::P);
        }
        if same(s, "BracketLeft") || same(s, "[") {
            return Some(Key::LeftBracket);
        }
        if same(s, "BracketRight") || same(s, "]") {
            return Some(Key::RightBracket);
        }
        if same(s, "Backslash") || same(s, "\\") {
            return Some(Key::Backslash);
        }
        if same(s, "Delete") || same(s, "del") {
            return Some(Key::Delete);
        }
        if same(s, "End") || same(s, "end") {
            return Some(Key::End);
        }
        if same(s, "PageDown") || same(s, "pgdn") {
            return Some(Key::PageDown);
        }
        if same(s, "CapsLock") || same(s, "caps") {
            return Some(Key::CapsLock);
        }
        if same(s, "KeyA") || same(s, "a") {
            return Some(Key::A);
        }
        if same(s, "KeyS") || same(s, "s") {
            return Some(Key::S);
        }
        if same(s, "KeyD") || same(s, "d") {
            return Some(Key::D);
        }
        if same(s, "KeyF") || same(s, "f") {
            return Some(Key::F);
        }
        if same(s, "KeyG") || same(s, "g") {
            return Some(Key::G);
        }
        if same(s, "KeyH") || same(s, "h") {
            return Some(Key::H);
        }
        if same(s, "KeyJ") || same(s, "j") {
            return Some(Key::J);
        }
        if same(s, "KeyK") || same(s, "k") {
            return Some(Key::K);
        }
        if same(s, "KeyL") || same(s, "l") {
            return Some(Key::L);
        }
        if same(s, "Semicolon") || same(s, ";") {
            return Some(Key::Semicolon);
        }
        if same(s, "Quote") || same(s, "'") {
            return Some(Key::Apostrophe);
        }
        if same(s, "Enter") || same(s, "ent") || same(s, "enter") {
            return Some(Key::Enter);
        }
        if same(s, "KeyZ") || same(s, "z") {
            return Some(Key::Z);
        }
        if same(s, "KeyX") || same(s, "x") {
            return Some(Key::X);
        }
        if same(s, "KeyC") || same(s, "c") {
            return Some(Key::C);
        }
        if same(s, "KeyV") || same(s, "v") {
            return Some(Key::V);
        }
        if same(s, "KeyB") || same(s, "b") {
            return Some(Key::B);
        }
        if same(s, "KeyN") || same(s, "n") {
            return Some(Key::N);
        }
        if same(s, "KeyM") || same(s, "m") {
            return Some(Key::M);
        }
        if same(s, "Comma") || same(s, ",") {
            return Some(Key::Comma);
        }
        if same(s, "Period") || same(s, ".") {
            return Some(Key::Dot);
        }
        if same(s, "Slash") || same(s, "/") {
            return Some(Key::Slash);
        }
        if same(s, "Numpad0") || same(s, "kp0") {
            return Some(Key::Kp0);
        }
        if same(s, "Numpad1") || same(s, "kp1") {
            return Some(Key::Kp1);
        }
        if same(s, "Numpad2") || same(s, "kp2") {
            return Some(Key::Kp2);
        }
        if same(s, "Numpad3") || same(s, "kp3") {
            return Some(Key::Kp3);
        }
        if same(s, "Numpad4") || same(s, "kp4") {
            return Some(Key::Kp4);
        }
        if same(s, "Numpad5") || same(s, "kp5") {
            return Some(Key::Kp5);
        }
        if same(s, "Numpad6") || same(s, "kp6") {
            return Some(Key::Kp6);
        }
        if same(s, "Numpad7") || same(s, "kp7") {
            return Some(Key::Kp7);
        }
        if same(s, "Numpad8") || same(s, "kp8") {
            return Some(Key::Kp8);
        }
        if same(s, "Numpad9") || same(s, "kp9") {
            return Some(Key::Kp9);
        }
        if same(s, "NumpadPlus") || same(s, "kp+") {
            return Some(Key::KpPlus);
        }
        if same(s, "NumpadEnter") || same(s, "kprt") {
            return Some(Key::KpEnter);
        }
        if same(s, "NumpadDecimal") || same(s, "kp.") {
            return Some(Key::KpDot);
        }
        if same(s, "NumpadSlash") || same(s, "kp/") {
            return Some(Key::KpSlash);
        }
        if same(s, "NumpadAsterisk") || same(s, "kp*") {
            return Some(Key::KpAsterisk);
        }
        if same(s, "NumpadMinus") || same(s, "kp-") {
            return Some(Key::KpMinus);
        }
        if same(s, "LeftShift") || same(s, "sft") || same(s, "lsft") || same(s, "LS") || same(s, "S") {
            return Some(Key::LeftShift);
        }
        if same(s, "RightShift") || same(s, "rsft") || same(s, "RS") {
            return Some(Key::RightShift);
        }
        if same(s, "LeftCtrl") || same(s, "lctl") || same(s, "ctl") || same(s, "LC") || same(s, "C") {
            return Some(Key::LeftCtrl);
        }
        if same(s, "RightCtrl") || same(s, "rctl") || same(s, "RC") {
            return Some(Key::RightCtrl);
        }
        if same(s, "LeftMeta") || same(s, "lmeta") || same(s, "meta") || same(s, "LM") || same(s, "M") {
            return Some(Key::LeftMeta);
        }
        if same(s, "RightMeta") || same(s, "rmeta") || same(s, "RM") {
            return Some(Key::RightMeta);
        }
        if same(s, "LeftAlt") || same(s, "lalt") || same(s, "alt") || same(s, "LA") || same(s, "A") {
            return Some(Key::LeftAlt);
        }
        if same(s, "RightAlt") || same(s, "ralt") || same(s, "RA") {
            return Some(Key::RightAlt);
        }
        if same(s, "Space") || same(s, "spc") {
            return Some(Key::Space);
        }
        if same(s, "Menu") || same(s, "menu") {
            return Some(Key::Menu);
        }
        if same(s, "ArrowLeft") || same(s, "lt") {
            return Some(Key::Left);
        }
        if same(s, "ArrowDown") || same(s, "dn") {
            return Some(Key::Down);
        }
        if same(s, "ArrowUp") || same(s, "up") {
            return Some(Key::Up);
        }
        if same(s, "ArrowRight") || same(s, "rt") {
            return Some(Key::Right);
        }
        if same(s, "VolumeUp") || same(s, "volu") || same(s, "vol+") {
            return Some(Key::VolumeUp);
        }
        if same(s, "VolumeDown") || same(s, "vold") || same(s, "vol-") {
            return Some(Key::VolumeDown);
        }
        if same(s, "VolumeMute") || same(s, "mute") {
            return Some(Key::VolumeMute);
        }
        None
    }
}

/// Whether `s` begins with `prefix`.
pub open spec fn has_prefix(s: Seq<char>, prefix: Seq<char>) -> bool {
    prefix.len() <= s.len() && s.take(prefix.len() as int) == prefix
}

/// The keys of a row without repeats: each key where it stands first.
pub open spec fn distinct(keys: Seq<Key>) -> Seq<Key>
    decreases keys.len(),
{
    if keys.len() == 0 {
        Seq::empty()
    } else {
        let d = distinct(keys.drop_last());
        if d.contains(keys.last()) {
            d
        } else {
            d.push(keys.last())
        }
    }
}

/// The modifiers of a row, in order.
pub open spec fn mods_of(keys: Seq<Key>) -> Seq<Key>
    decreases keys.len(),
{
    if keys.len() == 0 {
        Seq::empty()
    } else if keys.last().modifier() {
        mods_of(keys.drop_last()).push(keys.last())
    } else {
        mods_of(keys.drop_last())
    }
}

/// The keys of a row that are no modifiers, in order.
pub open spec fn plain_of(keys: Seq<Key>) -> Seq<Key>
    decreases keys.len(),
{
    if keys.len() == 0 {
        Seq::empty()
    } else if keys.last().modifier() {
        plain_of(keys.drop_last())
    } else {
        plain_of(keys.drop_last()).push(keys.last())
    }
}

/// Whether `key` stands in `keys`.
pub fn has_key(keys: &Vec<Key>, key: Key) -> (r: bool)
    ensures
        r == keys@.contains(key),
{
    let mut i: usize = 0;
    while i < keys.len()
        invariant
            i <= keys.len(),
            forall|j: int| 0 <= j < i ==> keys@[j] != key,
        decreases keys.len() - i,
    {
        if keys[i] == key {
            return true;
        }
        i = i + 1;
    }
    false
}

/// The first position from `i` on at which `key` stands in `keys`.
pub open spec fn pos_of(keys: Seq<Key>, key: Key, i: int) -> Option<int>
    decreases keys.len() - i,
{
    if i < 0 || i >= keys.len() {
        None
    } else if keys[i] == key {
        Some(i)
    } else {
        pos_of(keys, key, i + 1)
    }
}

/// The position at which `key` stands first in `keys`.
pub fn position(keys: &Vec<Key>, key: Key) -> (r: Option<usize>)
    ensures
        match r {
            Some(i) => pos_of(keys@, key, 0) == Some(i as int) && i < keys.len() && keys@[i as int]
                == key,
            None => pos_of(keys@, key, 0).is_none(),
        },
{
    let mut i: usize = 0;
    while i < keys.len()
        invariant
            i <= keys.len(),
            pos_of(keys@, key, 0) == pos_of(keys@, key, i as int),
        decreases keys.len() - i,
    {
        if keys[i] == key {
            return Some(i);
        }
        i = i + 1;
    }
    None
}

/// The keys without repeats.
pub fn dedup(keys: &Vec<Key>) -> (r: Vec<Key>)
    ensures
        r@ == distinct(keys@),
{
    let mut out: Vec<Key> = Vec::new();
    let mut i: usize = 0;
    assert(keys@.take(0) =~= Seq::<Key>::empty());
    while i < keys.len()
        invariant
            i <= keys.len(),
            out@ == distinct(keys@.take(i as int)),
        decreases keys.len() - i,
    {
        assert(keys@.take(i + 1).drop_last() =~= keys@.take(i as int));
        if !has_key(&out, keys[i]) {
            out.push(keys[i]);
        }
        i = i + 1;
    }
    assert(keys@.take(i as int) =~= keys@);
    out
}

/// The modifiers of a row and its other keys, each in order.
pub fn split_mods(keys: &Vec<Key>) -> (r: (Vec<Key>, Vec<Key>))
    ensures
        r.0@ == mods_of(keys@),
        r.1@ == plain_of(keys@),
{
    let mut mods: Vec<Key> = Vec::new();
    let mut plain: Vec<Key> = Vec::new();
    let mut i: usize = 0;
    assert(keys@.take(0) =~= Seq::<Key>::empty());
    while i < keys.len()
        invariant
            i <= keys.len(),
            mods@ == mods_of(keys@.take(i as int)),
            plain@ == plain_of(keys@.take(i as int)),
        decreases keys.len() - i,
    {
        assert(keys@.take(i + 1).drop_last() =~= keys@.take(i as int));
        if keys[i].is_modifier() {
            mods.push(keys[i]);
        } else {
            plain.push(keys[i]);
        }
        i = i + 1;
    }
    assert(keys@.take(i as int) =~= keys@);
    (mods, plain)
}

} // verus!
