//! The firmware's names of key codes and of modifier sets.

use crate::keys::{dedup, distinct, has_key, Key};
use vstd::prelude::*;
use vstd::string::StringExecFns;

verus! {

/// A key code of the firmware, held by its name. The device layer turns the
/// name into the number that the firmware's table gives for it.
#[derive(Debug, PartialEq, Eq)]
pub struct Keycode(pub String);

impl View for Keycode {
    type V = Seq<char>;

    open spec fn view(&self) -> Seq<char> {
        self.0@
    }
}

impl Clone for Keycode {
    fn clone(&self) -> (r: Self)
        ensures
            r@ == self@,
    {
        Keycode(self.0.clone())
    }
}

impl Keycode {
    /// The key code of a key.
    pub fn from_key(key: &Key) -> (r: Keycode)
        ensures
            r@ == code_name(*key),
    {
        Keycode(String::from_str(key_to_string(key)))
    }

    /// The key code that a name stands for.
    pub fn from_name(name: String) -> (r: Keycode)
        ensures
            r@ == name@,
    {
        Keycode(name)
    }

    /// The name of the key code.
    pub fn name(&self) -> (r: &str)
        ensures
            r@ == self@,
    {
        self.0.as_str()
    }

    /// Whether two key codes have the same name.
    pub fn same(&self, other: &Keycode) -> (r: bool)
        ensures
            r == (self@ == other@),
    {
        crate::text::same(self.0.as_str(), other.0.as_str())
    }
}

/// The firmware's name of a key.
pub open spec fn code_name(k: Key) -> Seq<char> {
    match k {
        Key::Q => "KC_Q"@,
        Key::W => "KC_W"@,
        Key::E => "KC_E"@,
        Key::R => "KC_R"@,
        Key::T => "KC_T"@,
        Key::Y => "KC_Y"@,
        Key::U => "KC_U"@,
        Key::I => "KC_I"@,
        Key::O => "KC_O"@,
        Key::P => "KC_P"@,
        Key::A => "KC_A"@,
        Key::S => "KC_S"@,
        Key::D => "KC_D"@,
        Key::F => "KC_F"@,
        Key::G => "KC_G"@,
        Key::H => "KC_H"@,
        Key::J => "KC_J"@,
        Key::K => "KC_K"@,
        Key::L => "KC_L"@,
        Key::Z => "KC_Z"@,
        Key::X => "KC_X"@,
        Key::C => "KC_C"@,
        Key::V => "KC_V"@,
        Key::B => "KC_B"@,
        Key::N => "KC_N"@,
        Key::M => "KC_M"@,
        Key::Zero => "KC_0"@,
        Key::One => "KC_1"@,
        Key::Two => "KC_2"@,
        Key::Three => "KC_3"@,
        Key::Four => "KC_4"@,
        Key::Five => "KC_5"@,
        Key::Six => "KC_6"@,
        Key::Seven => "KC_7"@,
        Key::Eight => "KC_8"@,
        Key::Nine => "KC_9"@,
        Key::F1 => "KC_F1"@,
        Key::F2 => "KC_F2"@,
        Key::F3 => "KC_F3"@,
        Key::F4 => "KC_F4"@,
        Key::F5 => "KC_F5"@,
        Key::F6 => "KC_F6"@,
        Key::F7 => "KC_F7"@,
        Key::F8 => "KC_F8"@,
        Key::F9 => "KC_F9"@,
        Key::F10 => "KC_F10"@,
        Key::F11 => "KC_F11"@,
        Key::F12 => "KC_F12"@,
        Key::F13 => "KC_F13"@,
        Key::F14 => "KC_F14"@,
        Key::F15 => "KC_F15"@,
        Key::F16 => "KC_F16"@,
        Key::F17 => "KC_F17"@,
        Key::F18 => "KC_F18"@,
        Key::F19 => "KC_F19"@,
        Key::F20 => "KC_F20"@,
        Key::F21 => "KC_F21"@,
        Key::F22 => "KC_F22"@,
        Key::F23 => "KC_F23"@,
        Key::F24 => "KC_F24"@,
        Key::VolumeUp => "KC_AUDIO_VOL_UP"@,
        Key::VolumeDown => "KC_AUDIO_VOL_DOWN"@,
        Key::VolumeMute => "KC_AUDIO_MUTE"@,
        Key::Esc => "KC_ESCAPE"@,
        Key::PrintScreen => "KC_PRINT_SCREEN"@,
        Key::ScrollLock => "KC_SCROLL_LOCK"@,
        Key::Pause => "KC_PAUSE"@,
        Key::Grave => "KC_GRAVE"@,
        Key::Minus => "KC_MINUS"@,
        Key::Equal => "KC_EQUAL"@,
        Key::Backspace => "KC_BACKSPACE"@,
        Key::Insert => "KC_INSERT"@,
        Key::Home => "KC_HOME"@,
        Key::PageUp => "KC_PAGE_UP"@,
        Key::Numlock => "KC_NUM_LOCK"@,
        Key::KpSlash => "KC_KP_SLASH"@,
        Key::KpAsterisk => "KC_KP_ASTERISK"@,
        Key::KpMinus => "KC_KP_MINUS"@,
        Key::Tab => "KC_TAB"@,
        Key::LeftBracket => "KC_LEFT_BRACKET"@,
        Key::RightBracket => "KC_RIGHT_BRACKET"@,
        Key::Backslash => "KC_BACKSLASH"@,
        Key::Delete => "KC_DELETE"@,
        Key::End => "KC_END"@,
        Key::PageDown => "KC_PAGE_DOWN"@,
        Key::KpPlus => "KC_KP_PLUS"@,
        Key::CapsLock => "KC_CAPS_LOCK"@,
        Key::Semicolon => "KC_SEMICOLON"@,
        Key::Apostrophe => "KC_QUOTE"@,
        Key::Enter => "KC_ENTER"@,
        Key::LeftShift => "KC_LEFT_SHIFT"@,
        Key::Comma => "KC_COMMA"@,
        Key::Dot => "KC_DOT"@,
        Key::Slash => "KC_SLASH"@,
        Key::RightShift => "KC_RIGHT_SHIFT"@,
        Key::Up => "KC_UP"@,
        Key::Kp0 => "KC_KP_0"@,
        Key::Kp1 => "KC_KP_1"@,
        Key::Kp2 => "KC_KP_2"@,
        Key::Kp3 => "KC_KP_3"@,
        Key::Kp4 => "KC_KP_4"@,
        Key::Kp5 => "KC_KP_5"@,
        Key::Kp6 => "KC_KP_6"@,
        Key::Kp7 => "KC_KP_7"@,
        Key::Kp8 => "KC_KP_8"@,
        Key::Kp9 => "KC_KP_9"@,
        Key::KpEqual => "KC_KP_EQUAL"@,
        Key::LeftCtrl => "KC_LEFT_CTRL"@,
        Key::LeftMeta => "KC_LEFT_GUI"@,
        Key::LeftAlt => "KC_LEFT_ALT"@,
        Key::Space => "KC_SPACE"@,
        Key::RightAlt => "KC_RIGHT_ALT"@,
        Key::RightMeta => "KC_RIGHT_GUI"@,
        Key::Menu => "KC_APPLICATION"@,
        Key::RightCtrl => "KC_RIGHT_CTRL"@,
        Key::Left => "KC_LEFT"@,
        Key::Down => "KC_DOWN"@,
        Key::Right => "KC_RIGHT"@,
        Key::KpDot => "KC_KP_DOT"@,
        Key::KpEnter => "KC_KP_ENTER"@,
        Key::MediaPlayPause => "KC_MEDIA_PLAY_PAUSE"@,
        Key::MouseCursorUp => "KC_MS_UP"@,
        Key::MouseCursorDown => "KC_MS_DOWN"@,
        Key::MouseCursorLeft => "KC_MS_LEFT"@,
        Key::MouseCursorRight => "KC_MS_RIGHT"@,
        Key::MouseWheelUp => "KC_WH_U"@,
        Key::MouseWheelDown => "KC_WH_D"@,
        Key::MouseWheelLeft => "KC_WH_L"@,
        Key::MouseWheelRight => "KC_WH_R"@,
        Key::MouseButton1 => "KC_MS_BTN1"@,
        Key::MouseButton2 => "KC_MS_BTN2"@,
        Key::MouseButton3 => "KC_MS_BTN3"@,
        Key::MouseButton4 => "KC_MS_BTN4"@,
        Key::MouseButton5 => "KC_MS_BTN5"@,
        Key::MouseAcceleration0 => "KC_MS_ACCEL0"@,
        Key::MouseAcceleration1 => "KC_MS_ACCEL1"@,
        Key::MouseAcceleration2 => "KC_MS_ACCEL2"@,
        Key::Fn(_) => "KC_NO"@,
    }
}

/// The firmware's name of a key.
pub fn key_to_string(key: &Key) -> (r: &'static str)
    ensures
        r@ == code_name(*key),
{
    match key {
        Key::Q => "KC_Q",
        Key::W => "KC_W",
        Key::E => "KC_E",
        Key::R => "KC_R",
        Key::T => "KC_T",
        Key::Y => "KC_Y",
        Key::U => "KC_U",
        Key::I => "KC_I",
        Key::O => "KC_O",
        Key::P => "KC_P",
        Key::A => "KC_A",
        Key::S => "KC_S",
        Key::D => "KC_D",
        Key::F => "KC_F",
        Key::G => "KC_G",
        Key::H => "KC_H",
        Key::J => "KC_J",
        Key::K => "KC_K",
        Key::L => "KC_L",
        Key::Z => "KC_Z",
        Key::X => "KC_X",
        Key::C => "KC_C",
        Key::V => "KC_V",
        Key::B => "KC_B",
        Key::N => "KC_N",
        Key::M => "KC_M",
        Key::Zero => "KC_0",
        Key::One => "KC_1",
        Key::Two => "KC_2",
        Key::Three => "KC_3",
        Key::Four => "KC_4",
        Key::Five => "KC_5",
        Key::Six => "KC_6",
        Key::Seven => "KC_7",
        Key::Eight => "KC_8",
        Key::Nine => "KC_9",
        Key::F1 => "KC_F1",
        Key::F2 => "KC_F2",
        Key::F3 => "KC_F3",
        Key::F4 => "KC_F4",
        Key::F5 => "KC_F5",
        Key::F6 => "KC_F6",
        Key::F7 => "KC_F7",
        Key::F8 => "KC_F8",
        Key::F9 => "KC_F9",
        Key::F10 => "KC_F10",
        Key::F11 => "KC_F11",
        Key::F12 => "KC_F12",
        Key::F13 => "KC_F13",
        Key::F14 => "KC_F14",
        Key::F15 => "KC_F15",
        Key::F16 => "KC_F16",
        Key::F17 => "KC_F17",
        Key::F18 => "KC_F18",
        Key::F19 => "KC_F19",
        Key::F20 => "KC_F20",
        Key::F21 => "KC_F21",
        Key::F22 => "KC_F22",
        Key::F23 => "KC_F23",
        Key::F24 => "KC_F24",
        Key::VolumeUp => "KC_AUDIO_VOL_UP",
        Key::VolumeDown => "KC_AUDIO_VOL_DOWN",
        Key::VolumeMute => "KC_AUDIO_MUTE",
        Key::Esc => "KC_ESCAPE",
        Key::PrintScreen => "KC_PRINT_SCREEN",
        Key::ScrollLock => "KC_SCROLL_LOCK",
        Key::Pause => "KC_PAUSE",
        Key::Grave => "KC_GRAVE",
        Key::Minus => "KC_MINUS",
        Key::Equal => "KC_EQUAL",
        Key::Backspace => "KC_BACKSPACE",
        Key::Insert => "KC_INSERT",
        Key::Home => "KC_HOME",
        Key::PageUp => "KC_PAGE_UP",
        Key::Numlock => "KC_NUM_LOCK",
        Key::KpSlash => "KC_KP_SLASH",
        Key::KpAsterisk => "KC_KP_ASTERISK",
        Key::KpMinus => "KC_KP_MINUS",
        Key::Tab => "KC_TAB",
        Key::LeftBracket => "KC_LEFT_BRACKET",
        Key::RightBracket => "KC_RIGHT_BRACKET",
        Key::Backslash => "KC_BACKSLASH",
        Key::Delete => "KC_DELETE",
        Key::End => "KC_END",
        Key::PageDown => "KC_PAGE_DOWN",
        Key::KpPlus => "KC_KP_PLUS",
        Key::CapsLock => "KC_CAPS_LOCK",
        Key::Semicolon => "KC_SEMICOLON",
        Key::Apostrophe => "KC_QUOTE",
        Key::Enter => "KC_ENTER",
        Key::LeftShift => "KC_LEFT_SHIFT",
        Key::Comma => "KC_COMMA",
        Key::Dot => "KC_DOT",
        Key::Slash => "KC_SLASH",
        Key::RightShift => "KC_RIGHT_SHIFT",
        Key::Up => "KC_UP",
        Key::Kp0 => "KC_KP_0",
        Key::Kp1 => "KC_KP_1",
        Key::Kp2 => "KC_KP_2",
        Key::Kp3 => "KC_KP_3",
        Key::Kp4 => "KC_KP_4",
        Key::Kp5 => "KC_KP_5",
        Key::Kp6 => "KC_KP_6",
        Key::Kp7 => "KC_KP_7",
        Key::Kp8 => "KC_KP_8",
        Key::Kp9 => "KC_KP_9",
        Key::KpEqual => "KC_KP_EQUAL",
        Key::LeftCtrl => "KC_LEFT_CTRL",
        Key::LeftMeta => "KC_LEFT_GUI",
        Key::LeftAlt => "KC_LEFT_ALT",
        Key::Space => "KC_SPACE",
        Key::RightAlt => "KC_RIGHT_ALT",
        Key::RightMeta => "KC_RIGHT_GUI",
        Key::Menu => "KC_APPLICATION",
        Key::RightCtrl => "KC_RIGHT_CTRL",
        Key::Left => "KC_LEFT",
        Key::Down => "KC_DOWN",
        Key::Right => "KC_RIGHT",
        Key::KpDot => "KC_KP_DOT",
        Key::KpEnter => "KC_KP_ENTER",
        Key::MediaPlayPause => "KC_MEDIA_PLAY_PAUSE",
        Key::MouseCursorUp => "KC_MS_UP",
        Key::MouseCursorDown => "KC_MS_DOWN",
        Key::MouseCursorLeft => "KC_MS_LEFT",
        Key::MouseCursorRight => "KC_MS_RIGHT",
        Key::MouseWheelUp => "KC_WH_U",
        Key::MouseWheelDown => "KC_WH_D",
        Key::MouseWheelLeft => "KC_WH_L",
        Key::MouseWheelRight => "KC_WH_R",
        Key::MouseButton1 => "KC_MS_BTN1",
        Key::MouseButton2 => "KC_MS_BTN2",
        Key::MouseButton3 => "KC_MS_BTN3",
        Key::MouseButton4 => "KC_MS_BTN4",
        Key::MouseButton5 => "KC_MS_BTN5",
        Key::MouseAcceleration0 => "KC_MS_ACCEL0",
        Key::MouseAcceleration1 => "KC_MS_ACCEL1",
        Key::MouseAcceleration2 => "KC_MS_ACCEL2",
        Key::Fn(_) => "KC_NO",
    }
}

/// The firmware's name of a modifier.
pub open spec fn mod_name(k: Key) -> Option<Seq<char>> {
    match k {
        Key::LeftAlt => Some("LALT"@),
        Key::RightAlt => Some("RALT"@),
        Key::LeftCtrl => Some("LCTL"@),
        Key::RightCtrl => Some("RCTL"@),
        Key::LeftShift => Some("LSFT"@),
        Key::RightShift => Some("RSFT"@),
        Key::LeftMeta => Some("LGUI"@),
        Key::RightMeta => Some("RGUI"@),
        _ => None,
    }
}

/// The firmware's name of a modifier; `None` for any other key.
pub fn key_to_mod(key: &Key) -> (r: Option<&'static str>)
    ensures
        match r {
            Some(s) => mod_name(*key) == Some(s@),
            None => mod_name(*key).is_none(),
        },
{
    match key {
        Key::LeftAlt => Some("LALT"),
        Key::RightAlt => Some("RALT"),
        Key::LeftCtrl => Some("LCTL"),
        Key::RightCtrl => Some("RCTL"),
        Key::LeftShift => Some("LSFT"),
        Key::RightShift => Some("RSFT"),
        Key::LeftMeta => Some("LGUI"),
        Key::RightMeta => Some("RGUI"),
        _ => None,
    }
}

/// Whether two rows hold the same keys, whatever the order and the repeats.
pub open spec fn same_set(a: Seq<Key>, b: Seq<Key>) -> bool {
    forall|k: Key| a.contains(k) <==> b.contains(k)
}

/// The firmware's name of a modifier set: one of its combination names, or
/// the name of the modifier where the set holds one key.
pub open spec fn set_name(mods: Seq<Key>) -> Option<Seq<char>> {
    if same_set(mods, seq![Key::LeftCtrl, Key::LeftShift, Key::LeftAlt, Key::LeftMeta]) {
        Some("HYPR"@)
    } else if same_set(mods, seq![Key::LeftCtrl, Key::LeftShift, Key::LeftAlt]) {
        Some("MEH"@)
    } else if same_set(mods, seq![Key::LeftCtrl, Key::LeftAlt, Key::LeftMeta]) {
        Some("LCAG"@)
    } else if same_set(mods, seq![Key::LeftCtrl, Key::LeftShift]) {
        Some("LCS"@)
    } else if same_set(mods, seq![Key::LeftCtrl, Key::LeftAlt]) {
        Some("LCA"@)
    } else if same_set(mods, seq![Key::LeftCtrl, Key::LeftMeta]) {
        Some("LCG"@)
    } else if same_set(mods, seq![Key::RightCtrl, Key::RightMeta]) {
        Some("RCG"@)
    } else if same_set(mods, seq![Key::LeftShift, Key::LeftAlt]) {
        Some("LSA"@)
    } else if same_set(mods, seq![Key::LeftShift, Key::LeftMeta]) {
        Some("LSG"@)
    } else if distinct(mods).len() == 1 {
        mod_name(mods[0])
    } else {
        None
    }
}

fn subset(a: &Vec<Key>, b: &Vec<Key>) -> (r: bool)
    ensures
        r == (forall|k: Key| a@.contains(k) ==> b@.contains(k)),
{
    let mut i: usize = 0;
    while i < a.len()
        invariant
            i <= a.len(),
            forall|j: int| 0 <= j < i ==> b@.contains(#[trigger] a@[j]),
        decreases a.len() - i,
    {
        if !has_key(b, a[i]) {
            assert(a@.contains(a@[i as int]));
            return false;
        }
        i = i + 1;
    }
    assert forall|k: Key| a@.contains(k) implies b@.contains(k) by {
        let j = choose|j: int| 0 <= j < a@.len() && a@[j] == k;
        assert(b@.contains(a@[j]));
    }
    true
}

fn is_set(mods: &Vec<Key>, want: Vec<Key>) -> (r: bool)
    ensures
        r == same_set(mods@, want@),
{
    subset(mods, &want) && subset(&want, mods)
}

/// The firmware's name of a modifier set, where it has one.
pub fn format_mods(mods: &Vec<Key>) -> (r: Option<&'static str>)
    ensures
        match r {
            Some(s) => set_name(mods@) == Some(s@),
            None => set_name(mods@).is_none(),
        },
{
    if is_set(mods, vec![Key::LeftCtrl, Key::LeftShift, Key::LeftAlt, Key::LeftMeta]) {
        Some("HYPR")
    } else if is_set(mods, vec![Key::LeftCtrl, Key::LeftShift, Key::LeftAlt]) {
        Some("MEH")
    } else if is_set(mods, vec![Key::LeftCtrl, Key::LeftAlt, Key::LeftMeta]) {
        Some("LCAG")
    } else if is_set(mods, vec![Key::LeftCtrl, Key::LeftShift]) {
        Some("LCS")
    } else if is_set(mods, vec![Key::LeftCtrl, Key::LeftAlt]) {
        Some("LCA")
    } else if is_set(mods, vec![Key::LeftCtrl, Key::LeftMeta]) {
        Some("LCG")
    } else if is_set(mods, vec![Key::RightCtrl, Key::RightMeta]) {
        Some("RCG")
    } else if is_set(mods, vec![Key::LeftShift, Key::LeftAlt]) {
        Some("LSA")
    } else if is_set(mods, vec![Key::LeftShift, Key::LeftMeta]) {
        Some("LSG")
    } else if dedup(mods).len() == 1 {
        proof {
            if mods@.len() == 0 {
                assert(distinct(mods@).len() == 0);
            }
        }
        key_to_mod(&mods[0])
    } else {
        None
    }
}

} // verus!
