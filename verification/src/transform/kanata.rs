//! The text back-end: lowers resolved layers to the remapper's dialect.

use crate::error::Error;
use crate::keys::{dedup, distinct, mods_of, plain_of, split_mods, Key};
use crate::layout::action::{tap_keys, taps, Action, ActionV};
use crate::text::{begins_form, decimal, is_form, joined, push_decimal, push_joined, texts};
use vstd::prelude::*;
use vstd::string::StringExecFns;

verus! {

/// The tapping term written into every `tap-hold`, in milliseconds.
pub const TAP_HOLD_MS: u16 = 200;

/// Whether the remapper has a name for the key.
pub open spec fn named(k: Key) -> bool {
    match k {
        Key::MouseCursorUp
        | Key::MouseCursorDown
        | Key::MouseCursorLeft
        | Key::MouseCursorRight
        | Key::MouseAcceleration0
        | Key::MouseAcceleration1
        | Key::MouseAcceleration2 => false,
        _ => true,
    }
}

/// The remapper's name of a key; empty where it has none.
pub open spec fn key_name(k: Key) -> Seq<char> {
    match k {
        Key::Fn(x) => if x == 1 {
            "fn"@
        } else {
            "fn"@ + decimal(x as nat)
        },
        Key::F13 => "f13"@,
        Key::F14 => "f14"@,
        Key::F15 => "f15"@,
        Key::F16 => "f16"@,
        Key::F17 => "f17"@,
        Key::F18 => "f18"@,
        Key::F19 => "f19"@,
        Key::F20 => "f20"@,
        Key::F21 => "f21"@,
        Key::F22 => "f22"@,
        Key::F23 => "f23"@,
        Key::F24 => "f24"@,
        Key::VolumeUp => "volu"@,
        Key::VolumeDown => "vold"@,
        Key::VolumeMute => "mute"@,
        Key::Esc => "esc"@,
        Key::F1 => "f1"@,
        Key::F2 => "f2"@,
        Key::F3 => "f3"@,
        Key::F4 => "f4"@,
        Key::F5 => "f5"@,
        Key::F6 => "f6"@,
        Key::F7 => "f7"@,
        Key::F8 => "f8"@,
        Key::F9 => "f9"@,
        Key::F10 => "f10"@,
        Key::F11 => "f11"@,
        Key::F12 => "f12"@,
        Key::PrintScreen => "prnt"@,
        Key::ScrollLock => "sclk"@,
        Key::Pause => "pause"@,
        Key::Grave => "grv"@,
        Key::Zero => "0"@,
        Key::One => "1"@,
        Key::Two => "2"@,
        Key::Three => "3"@,
        Key::Four => "4"@,
        Key::Five => "5"@,
        Key::Six => "6"@,
        Key::Seven => "7"@,
        Key::Eight => "8"@,
        Key::Nine => "9"@,
        Key::Minus => "-"@,
        Key::Equal => "="@,
        Key::Backspace => "bks"@,
        Key::Insert => "ins"@,
        Key::Home => "home"@,
        Key::PageUp => "pgup"@,
        Key::PageDown => "pgdn"@,
        Key::Numlock => "nlck"@,
        Key::Tab => "tab"@,
        Key::LeftBracket => "["@,
        Key::RightBracket => "]"@,
        Key::Backslash => "\\"@,
        Key::Delete => "del"@,
        Key::End => "end"@,
        Key::CapsLock => "caps"@,
        Key::Q => "q"@,
        Key::W => "w"@,
        Key::E => "e"@,
        Key::R => "r"@,
        Key::T => "t"@,
        Key::Y => "y"@,
        Key::U => "u"@,
        Key::I => "i"@,
        Key::O => "o"@,
        Key::P => "p"@,
        Key::A => "a"@,
        Key::S => "s"@,
        Key::D => "d"@,
        Key::F => "f"@,
        Key::G => "g"@,
        Key::H => "h"@,
        Key::J => "j"@,
        Key::K => "k"@,
        Key::L => "l"@,
        Key::Z => "z"@,
        Key::X => "x"@,
        Key::C => "c"@,
        Key::V => "v"@,
        Key::B => "b"@,
        Key::N => "n"@,
        Key::M => "m"@,
        Key::Enter => "enter"@,
        Key::LeftShift => "lsft"@,
        Key::RightShift => "rsft"@,
        Key::LeftCtrl => "lctl"@,
        Key::RightCtrl => "rctl"@,
        Key::LeftMeta => "lmeta"@,
        Key::RightMeta => "rmeta"@,
        Key::LeftAlt => "lalt"@,
        Key::RightAlt => "ralt"@,
        Key::Comma => ","@,
        Key::Dot => "."@,
        Key::Slash => "/"@,
        Key::Space => "spc"@,
        Key::Menu => "menu"@,
        Key::Semicolon => ";"@,
        Key::Apostrophe => "'"@,
        Key::Up => "up"@,
        Key::Down => "down"@,
        Key::Left => "left"@,
        Key::Right => "right"@,
        Key::Kp0 => "kp0"@,
        Key::Kp1 => "kp1"@,
        Key::Kp2 => "kp2"@,
        Key::Kp3 => "kp3"@,
        Key::Kp4 => "kp4"@,
        Key::Kp5 => "kp5"@,
        Key::Kp6 => "kp6"@,
        Key::Kp7 => "kp7"@,
        Key::Kp8 => "kp8"@,
        Key::Kp9 => "kp9"@,
        Key::KpDot => "kp."@,
        Key::KpEnter => "kprt"@,
        Key::KpPlus => "kp+"@,
        Key::KpSlash => "kp/"@,
        Key::KpAsterisk => "kp*"@,
        Key::KpMinus => "kp-"@,
        Key::KpEqual => "kp="@,
        Key::MediaPlayPause => "pp"@,
        Key::MouseWheelUp => "mwu"@,
        Key::MouseWheelDown => "mwd"@,
        Key::MouseWheelLeft => "mwl"@,
        Key::MouseWheelRight => "mwr"@,
        Key::MouseButton1 => "mlft"@,
        Key::MouseButton2 => "mrgt"@,
        Key::MouseButton3 => "mmid"@,
        Key::MouseButton4 => "mbck"@,
        Key::MouseButton5 => "mfwd"@,
        _ => Seq::empty(),
    }
}

/// Whether the remapper has a name for the key.
pub fn has_kanata_name(key: &Key) -> (r: bool)
    ensures
        r == named(*key),
{
    match key {
        Key::MouseCursorUp
        | Key::MouseCursorDown
        | Key::MouseCursorLeft
        | Key::MouseCursorRight
        | Key::MouseAcceleration0
        | Key::MouseAcceleration1
        | Key::MouseAcceleration2 => false,
        _ => true,
    }
}

fn fixed_name(key: &Key) -> (r: &'static str)
    requires
        named(*key),
        !(*key is Fn),
    ensures
        r@ == key_name(*key),
{
    match key {
        Key::F13 => "f13",
        Key::F14 => "f14",
        Key::F15 => "f15",
        Key::F16 => "f16",
        Key::F17 => "f17",
        Key::F18 => "f18",
        Key::F19 => "f19",
        Key::F20 => "f20",
        Key::F21 => "f21",
        Key::F22 => "f22",
        Key::F23 => "f23",
        Key::F24 => "f24",
        Key::VolumeUp => "volu",
        Key::VolumeDown => "vold",
        Key::VolumeMute => "mute",
        Key::Esc => "esc",
        Key::F1 => "f1",
        Key::F2 => "f2",
        Key::F3 => "f3",
        Key::F4 => "f4",
        Key::F5 => "f5",
        Key::F6 => "f6",
        Key::F7 => "f7",
        Key::F8 => "f8",
        Key::F9 => "f9",
        Key::F10 => "f10",
        Key::F11 => "f11",
        Key::F12 => "f12",
        Key::PrintScreen => "prnt",
        Key::ScrollLock => "sclk",
        Key::Pause => "pause",
        Key::Grave => "grv",
        Key::Zero => "0",
        Key::One => "1",
        Key::Two => "2",
        Key::Three => "3",
        Key::Four => "4",
        Key::Five => "5",
        Key::Six => "6",
        Key::Seven => "7",
        Key::Eight => "8",
        Key::Nine => "9",
        Key::Minus => "-",
        Key::Equal => "=",
        Key::Backspace => "bks",
        Key::Insert => "ins",
        Key::Home => "home",
        Key::PageUp => "pgup",
        Key::PageDown => "pgdn",
        Key::Numlock => "nlck",
        Key::Tab => "tab",
        Key::LeftBracket => "[",
        Key::RightBracket => "]",
        Key::Backslash => "\\",
        Key::Delete => "del",
        Key::End => "end",
        Key::CapsLock => "caps",
        Key::Q => "q",
        Key::W => "w",
        Key::E => "e",
        Key::R => "r",
        Key::T => "t",
        Key::Y => "y",
        Key::U => "u",
        Key::I => "i",
        Key::O => "o",
        Key::P => "p",
        Key::A => "a",
        Key::S => "s",
        Key::D => "d",
        Key::F => "f",
        Key::G => "g",
        Key::H => "h",
        Key::J => "j",
        Key::K => "k",
        Key::L => "l",
        Key::Z => "z",
        Key::X => "x",
        Key::C => "c",
        Key::V => "v",
        Key::B => "b",
        Key::N => "n",
        Key::M => "m",
        Key::Enter => "enter",
        Key::LeftShift => "lsft",
        Key::RightShift => "rsft",
        Key::LeftCtrl => "lctl",
        Key::RightCtrl => "rctl",
        Key::LeftMeta => "lmeta",
        Key::RightMeta => "rmeta",
        Key::LeftAlt => "lalt",
        Key::RightAlt => "ralt",
        Key::Comma => ",",
        Key::Dot => ".",
        Key::Slash => "/",
        Key::Space => "spc",
        Key::Menu => "menu",
        Key::Semicolon => ";",
        Key::Apostrophe => "'",
        Key::Up => "up",
        Key::Down => "down",
        Key::Left => "left",
        Key::Right => "right",
        Key::Kp0 => "kp0",
        Key::Kp1 => "kp1",
        Key::Kp2 => "kp2",
        Key::Kp3 => "kp3",
        Key::Kp4 => "kp4",
        Key::Kp5 => "kp5",
        Key::Kp6 => "kp6",
        Key::Kp7 => "kp7",
        Key::Kp8 => "kp8",
        Key::Kp9 => "kp9",
        Key::KpDot => "kp.",
        Key::KpEnter => "kprt",
        Key::KpPlus => "kp+",
        Key::KpSlash => "kp/",
        Key::KpAsterisk => "kp*",
        Key::KpMinus => "kp-",
        Key::KpEqual => "kp=",
        Key::MediaPlayPause => "pp",
        Key::MouseWheelUp => "mwu",
        Key::MouseWheelDown => "mwd",
        Key::MouseWheelLeft => "mwl",
        Key::MouseWheelRight => "mwr",
        Key::MouseButton1 => "mlft",
        Key::MouseButton2 => "mrgt",
        Key::MouseButton3 => "mmid",
        Key::MouseButton4 => "mbck",
        Key::MouseButton5 => "mfwd",
        _ => "",
    }
}

/// The remapper's name of a key that has one.
pub fn key_to_kanata(key: &Key) -> (r: String)
    requires
        named(*key),
    ensures
        r@ == key_name(*key),
{
    match key {
        Key::Fn(x) => {
            let mut out = String::from_str("fn");
            if *x != 1 {
                push_decimal(&mut out, *x as usize);
            } else {
                assert("fn"@ + Seq::<char>::empty() =~= "fn"@);
            }
            out
        },
        _ => String::from_str(fixed_name(key)),
    }
}

/// The remapper's letter for a modifier.
pub open spec fn mod_letter(k: Key) -> Option<Seq<char>> {
    match k {
        Key::LeftCtrl => Some("C"@),
        Key::RightCtrl => Some("RC"@),
        Key::LeftShift => Some("S"@),
        Key::RightShift => Some("RS"@),
        Key::LeftAlt => Some("A"@),
        Key::RightAlt => Some("A"@),
        Key::LeftMeta => Some("M"@),
        Key::RightMeta => Some("RM"@),
        _ => None,
    }
}

/// The letters of a row of modifiers; `None` where a key of the row is no
/// modifier.
pub open spec fn mod_letters(keys: Seq<Key>) -> Option<Seq<Seq<char>>>
    decreases keys.len(),
{
    if keys.len() == 0 {
        Some(Seq::empty())
    } else {
        match (mod_letters(keys.drop_last()), mod_letter(keys.last())) {
            (Some(init), Some(l)) => Some(init.push(l)),
            _ => None,
        }
    }
}

/// The prefix that a set of modifiers makes: the letter of each distinct
/// modifier, in the order in which they first stand, hyphens between them.
pub open spec fn mods_prefix(mods: Seq<Key>) -> Option<Seq<char>> {
    match mod_letters(distinct(mods)) {
        Some(ls) => Some(joined(ls, "-"@)),
        None => None,
    }
}

fn letter(key: &Key) -> (r: Option<&'static str>)
    ensures
        match r {
            Some(s) => mod_letter(*key) == Some(s@),
            None => mod_letter(*key).is_none(),
        },
{
    match key {
        Key::LeftCtrl => Some("C"),
        Key::RightCtrl => Some("RC"),
        Key::LeftShift => Some("S"),
        Key::RightShift => Some("RS"),
        Key::LeftAlt => Some("A"),
        Key::RightAlt => Some("A"),
        Key::LeftMeta => Some("M"),
        Key::RightMeta => Some("RM"),
        _ => None,
    }
}

/// The prefix of a modifier set, or `None` where a key is no modifier.
#[verifier::loop_isolation(false)]
pub fn format_mods(mods: &Vec<Key>) -> (r: Option<String>)
    ensures
        match r {
            Some(s) => mods_prefix(mods@) == Some(s@),
            None => mods_prefix(mods@).is_none(),
        },
{
    let set = dedup(mods);
    let mut letters: Vec<String> = Vec::new();
    let mut i: usize = 0;
    assert(set@.take(0) =~= Seq::<Key>::empty());
    assert(texts(letters@) =~= Seq::<Seq<char>>::empty());
    while i < set.len()
        invariant
            i <= set.len(),
            mod_letters(set@.take(i as int)) == Some(texts(letters@)),
        decreases set.len() - i,
    {
        assert(set@.take(i + 1).drop_last() =~= set@.take(i as int));
        assert(set@.take(i + 1).last() == set@[i as int]);
        match letter(&set[i]) {
            None => {
                proof {
                    letters_fail(set@, i + 1);
                }
                return None;
            },
            Some(l) => {
                let ghost before = texts(letters@);
                let owned = String::from_str(l);
                letters.push(owned);
                assert(texts(letters@) =~= before.push(l@));
            },
        }
        i = i + 1;
    }
    assert(set@.take(i as int) =~= set@);
    let mut out = String::new();
    push_joined(&mut out, &letters, "-");
    assert(Seq::<char>::empty() + joined(texts(letters@), "-"@) =~= joined(texts(letters@), "-"@));
    Some(out)
}

/// A row has no letters once one of its prefixes has none.
pub proof fn letters_fail(keys: Seq<Key>, i: int)
    requires
        0 <= i <= keys.len(),
        mod_letters(keys.take(i)).is_none(),
    ensures
        mod_letters(keys).is_none(),
    decreases keys.len() - i,
{
    if i == keys.len() {
        assert(keys.take(i) =~= keys);
    } else {
        assert(keys.take(i + 1).drop_last() =~= keys.take(i));
        letters_fail(keys, i + 1);
    }
}

/// The texts of a row that are forms (with `forms`), or that are not.
pub open spec fn select(ts: Seq<Seq<char>>, forms: bool) -> Seq<Seq<char>>
    decreases ts.len(),
{
    if ts.len() == 0 {
        Seq::empty()
    } else if is_form(ts.last()) == forms {
        select(ts.drop_last(), forms).push(ts.last())
    } else {
        select(ts.drop_last(), forms)
    }
}

/// The remapper's text of an action.
pub open spec fn kanata_text(a: ActionV) -> Result<Seq<char>, Error>
    decreases a, 0int,
{
    match a {
        ActionV::Tap(k) => if named(k) {
            Ok(key_name(k))
        } else {
            Err(Error::Unsupported)
        },
        ActionV::Transparent => Ok("_"@),
        ActionV::NoAction => Ok("XX"@),
        ActionV::Alias(n) => Ok("@"@ + n),
        ActionV::TapHold(tap, hold) => match kanata_text(*tap) {
            Err(e) => Err(e),
            Ok(t) => match kanata_text(*hold) {
                Err(e) => Err(e),
                Ok(h) => Ok(
                    "(tap-hold "@ + decimal(TAP_HOLD_MS as nat) + " "@ + decimal(
                        TAP_HOLD_MS as nat,
                    ) + " "@ + t + " "@ + h + ")"@,
                ),
            },
        },
        ActionV::Multi(v) => if is_combo(v) {
            let plain = plain_of(tap_keys(v, 0)->0)[0];
            if named(plain) {
                Ok(mods_prefix(mods_of(tap_keys(v, 0)->0))->0 + "-"@ + key_name(plain))
            } else {
                Err(Error::Unsupported)
            }
        } else {
            match kanata_texts(v, 0) {
                Err(e) => Err(e),
                Ok(ts) => Ok(
                    "(multi "@ + joined(select(ts, true), " "@) + " "@ + joined(
                        select(ts, false),
                        " "@,
                    ) + ")"@,
                ),
            }
        },
        ActionV::LayerWhileHeld(n) => Ok("(layer-while-held "@ + n + ")"@),
        ActionV::LayerSwitch(n) => Ok("(layer-switch "@ + n + ")"@),
        ActionV::Unicode(_) => Err(Error::Unresolved),
        ActionV::Sequence(v) => match kanata_texts(v, 0) {
            Err(e) => Err(e),
            Ok(ts) => Ok("(macro "@ + joined(ts, " "@) + ")"@),
        },
        ActionV::Hold(_) => Err(Error::NotInSequence),
        ActionV::Release(_) => Err(Error::NotInSequence),
    }
}

/// Whether a row of actions is a modifier combination: taps only, exactly
/// one of them no modifier, and at least one a modifier.
pub open spec fn is_combo(v: Seq<ActionV>) -> bool {
    match tap_keys(v, 0) {
        Some(keys) => plain_of(keys).len() == 1 && mods_of(keys).len() > 0 && mods_prefix(
            mods_of(keys),
        ).is_some(),
        None => false,
    }
}

/// `kanata_text` of each action of a row from position `i` on; the first
/// error wins.
pub open spec fn kanata_texts(v: Seq<ActionV>, i: int) -> Result<Seq<Seq<char>>, Error>
    decreases v, v.len() - i,
{
    if i < 0 || i >= v.len() {
        Ok(Seq::empty())
    } else {
        match kanata_text(v[i]) {
            Err(e) => Err(e),
            Ok(t) => match kanata_texts(v, i + 1) {
                Err(e) => Err(e),
                Ok(rest) => Ok(seq![t] + rest),
            },
        }
    }
}

fn pick(ts: &Vec<String>, forms: bool) -> (r: Vec<String>)
    ensures
        texts(r@) == select(texts(ts@), forms),
{
    let ghost all = texts(ts@);
    let mut out: Vec<String> = Vec::new();
    let mut i: usize = 0;
    assert(all.take(0) =~= Seq::<Seq<char>>::empty());
    assert(texts(out@) =~= Seq::<Seq<char>>::empty());
    while i < ts.len()
        invariant
            i <= ts.len(),
            all == texts(ts@),
            texts(out@) == select(all.take(i as int), forms),
        decreases ts.len() - i,
    {
        assert(all.take(i + 1).drop_last() =~= all.take(i as int));
        assert(all.take(i + 1).last() == ts@[i as int]@);
        if begins_form(ts[i].as_str()) == forms {
            let ghost before = texts(out@);
            out.push(ts[i].clone());
            assert(texts(out@) =~= before.push(ts@[i as int]@));
        }
        i = i + 1;
    }
    assert(all.take(i as int) =~= all);
    out
}

/// Lowers an action to the remapper's text.
#[verifier::loop_isolation(false)]
pub fn action_to_kanata(action: &Action) -> (r: Result<String, Error>)
    ensures
        match r {
            Ok(s) => kanata_text(action@) == Ok::<Seq<char>, Error>(s@),
            Err(e) => kanata_text(action@) == Err::<Seq<char>, Error>(e),
        },
    decreases action, 1int,
{
    match action {
        Action::Tap(key) => if has_kanata_name(key) {
            Ok(key_to_kanata(key))
        } else {
            Err(Error::Unsupported)
        },
        Action::Transparent => Ok(String::from_str("_")),
        Action::NoAction => Ok(String::from_str("XX")),
        Action::Alias(n) => {
            let mut out = String::from_str("@");
            out.append(n.as_str());
            Ok(out)
        },
        Action::TapHold(tap, hold) => {
            let t = match action_to_kanata(tap) {
                Ok(t) => t,
                Err(e) => {
                    return Err(e);
                },
            };
            let h = match action_to_kanata(hold) {
                Ok(h) => h,
                Err(e) => {
                    return Err(e);
                },
            };
            let mut out = String::from_str("(tap-hold ");
            push_decimal(&mut out, TAP_HOLD_MS as usize);
            out.append(" ");
            push_decimal(&mut out, TAP_HOLD_MS as usize);
            out.append(" ");
            out.append(t.as_str());
            out.append(" ");
            out.append(h.as_str());
            out.append(")");
            Ok(out)
        },
        Action::Multi(elems) => {
            match taps(elems) {
                Some(keys) => {
                    let (mods, plain) = split_mods(&keys);
                    if plain.len() == 1 && mods.len() > 0 {
                        match format_mods(&mods) {
                            Some(prefix) => {
                                if !has_kanata_name(&plain[0]) {
                                    return Err(Error::Unsupported);
                                }
                                let mut out = prefix;
                                out.append("-");
                                out.append(key_to_kanata(&plain[0]).as_str());
                                return Ok(out);
                            },
                            None => {},
                        }
                    }
                },
                None => {},
            }
            let ts = match lower_row(elems) {
                Ok(ts) => ts,
                Err(e) => {
                    return Err(e);
                },
            };
            let forms = pick(&ts, true);
            let atoms = pick(&ts, false);
            let mut out = String::from_str("(multi ");
            push_joined(&mut out, &forms, " ");
            out.append(" ");
            push_joined(&mut out, &atoms, " ");
            out.append(")");
            Ok(out)
        },
        Action::LayerWhileHeld(l) => {
            let mut out = String::from_str("(layer-while-held ");
            out.append(l.as_str());
            out.append(")");
            Ok(out)
        },
        Action::LayerSwitch(l) => {
            let mut out = String::from_str("(layer-switch ");
            out.append(l.as_str());
            out.append(")");
            Ok(out)
        },
        Action::Unicode(_) => Err(Error::Unresolved),
        Action::Sequence(actions) => {
            let ts = match lower_row(actions) {
                Ok(ts) => ts,
                Err(e) => {
                    return Err(e);
                },
            };
            let mut out = String::from_str("(macro ");
            push_joined(&mut out, &ts, " ");
            out.append(")");
            Ok(out)
        },
        Action::Hold(_) => Err(Error::NotInSequence),
        Action::Release(_) => Err(Error::NotInSequence),
    }
}

#[verifier::loop_isolation(false)]
fn lower_row(v: &Vec<Action>) -> (r: Result<Vec<String>, Error>)
    ensures
        match r {
            Ok(ts) => kanata_texts(crate::layout::action::views(v@), 0) == Ok::<
                Seq<Seq<char>>,
                Error,
            >(texts(ts@)),
            Err(e) => kanata_texts(crate::layout::action::views(v@), 0) == Err::<
                Seq<Seq<char>>,
                Error,
            >(e),
        },
    decreases v, 0int,
{
    let ghost vs = crate::layout::action::views(v@);
    let mut out: Vec<String> = Vec::new();
    let mut i: usize = 0;
    assert(texts(out@) =~= Seq::<Seq<char>>::empty());
    while i < v.len()
        invariant
            i <= v.len(),
            kanata_texts(vs, 0) == (match kanata_texts(vs, i as int) {
                Ok(rest) => Ok::<Seq<Seq<char>>, Error>(texts(out@) + rest),
                Err(e) => Err(e),
            }),
        decreases v.len() - i,
    {
        match action_to_kanata(&v[i]) {
            Err(e) => {
                return Err(e);
            },
            Ok(t) => {
                let ghost before = texts(out@);
                proof {
                    match kanata_texts(vs, i + 1) {
                        Ok(rest) => {
                            assert(before + (seq![t@] + rest) =~= before.push(t@) + rest);
                        },
                        Err(_) => {},
                    }
                }
                out.push(t);
                assert(texts(out@) =~= before.push(t@));
            },
        }
        i = i + 1;
    }
    assert(texts(out@) + Seq::<Seq<char>>::empty() =~= texts(out@));
    Ok(out)
}

} // verus!
