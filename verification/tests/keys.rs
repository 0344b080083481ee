use kdl::keys::{dedup, has_key, position, split_mods, Key, KeyIndex};
use kdl::text::{chars_of, parse_byte, push_decimal, starts_with, string_of};
use kdl::Error;

#[test]
fn both_dialects_name_the_same_key() {
    assert_eq!(Key::from_str("KeyA"), Ok(Key::A));
    assert_eq!(Key::from_str("a"), Ok(Key::A));
    assert_eq!(Key::from_str("Digit1"), Ok(Key::One));
    assert_eq!(Key::from_str("1"), Ok(Key::One));
    assert_eq!(Key::from_str("ArrowLeft"), Ok(Key::Left));
    assert_eq!(Key::from_str("lt"), Ok(Key::Left));
    assert_eq!(Key::from_str("sft"), Ok(Key::LeftShift));
    assert_eq!(Key::from_str("spc"), Ok(Key::Space));
    assert_eq!(Key::from_str("\\"), Ok(Key::Backslash));
    assert_eq!(Key::from_str("PrintScreen"), Ok(Key::PrintScreen));
    assert_eq!(Key::from_str("kp-"), Ok(Key::KpMinus));
    assert_eq!(Key::from_str("vol+"), Ok(Key::VolumeUp));
    assert_eq!(Key::from_str("C"), Ok(Key::LeftCtrl));
    assert_eq!(Key::from_str("c"), Ok(Key::C));
}

#[test]
fn numbered_function_keys() {
    assert_eq!(Key::from_str("fn1"), Ok(Key::Fn(1)));
    assert_eq!(Key::from_str("fn255"), Ok(Key::Fn(255)));
    assert_eq!(Key::from_str("fn007"), Ok(Key::Fn(7)));
    assert_eq!(Key::from_str("fn+5"), Ok(Key::Fn(5)));
    assert_eq!(Key::from_str("KeyFn12"), Ok(Key::Fn(12)));
    assert_eq!(Key::from_str("fn"), Err(Error::UnknownKey));
    assert_eq!(Key::from_str("fn256"), Err(Error::UnknownKey));
    assert_eq!(Key::from_str("fn-1"), Err(Error::UnknownKey));
    assert_eq!(Key::from_str("fn1x"), Err(Error::UnknownKey));
    assert_eq!(Key::from_str("fn+"), Err(Error::UnknownKey));
    assert_eq!(Key::from_str("f1"), Ok(Key::F1));
    assert_eq!(Key::from_str("f24"), Ok(Key::F24));
}

#[test]
fn unknown_key_names() {
    assert_eq!(Key::from_str(""), Err(Error::UnknownKey));
    assert_eq!(Key::from_str("keya"), Err(Error::UnknownKey));
    assert_eq!(Key::from_str("Print"), Err(Error::UnknownKey));
}

#[test]
fn keypad_digits() {
    assert_eq!(Key::from_digit('0'), Key::Kp0);
    assert_eq!(Key::from_digit('5'), Key::Kp5);
    assert_eq!(Key::from_digit('9'), Key::Kp9);
}

#[test]
fn the_eight_modifiers() {
    let mods = [
        Key::LeftShift,
        Key::RightShift,
        Key::LeftCtrl,
        Key::RightCtrl,
        Key::LeftMeta,
        Key::RightMeta,
        Key::LeftAlt,
        Key::RightAlt,
    ];
    for k in mods {
        assert!(k.is_modifier());
    }
    for k in [Key::A, Key::Space, Key::Fn(1), Key::CapsLock, Key::Menu] {
        assert!(!k.is_modifier());
    }
}

#[test]
fn key_index_is_one_byte() {
    assert_eq!(KeyIndex::from_usize(0), Ok(KeyIndex(0)));
    assert_eq!(KeyIndex::from_usize(255), Ok(KeyIndex(255)));
    assert_eq!(KeyIndex::from_usize(256), Err(Error::TooManyKeys));
    assert_eq!(KeyIndex(7).to_usize(), 7);
}

#[test]
fn rows_of_keys() {
    let keys = vec![Key::LeftCtrl, Key::A, Key::LeftCtrl, Key::LeftShift, Key::A];
    assert_eq!(dedup(&keys), vec![Key::LeftCtrl, Key::A, Key::LeftShift]);
    assert_eq!(
        split_mods(&keys),
        (vec![Key::LeftCtrl, Key::LeftCtrl, Key::LeftShift], vec![Key::A, Key::A])
    );
    assert!(has_key(&keys, Key::LeftShift));
    assert!(!has_key(&keys, Key::B));
    assert_eq!(position(&keys, Key::A), Some(1));
    assert_eq!(position(&keys, Key::B), None);
}

#[test]
fn text_helpers() {
    let v = chars_of("héllo");
    assert_eq!(v, vec!['h', 'é', 'l', 'l', 'o']);
    assert_eq!(string_of(&v, 1, 3), "él");
    assert!(starts_with(&v, "hé"));
    assert!(!starts_with(&v, "hello"));
    assert!(!starts_with(&v, "héllo!"));
    let mut s = String::from("n=");
    push_decimal(&mut s, 0);
    push_decimal(&mut s, 1203);
    assert_eq!(s, "n=01203");
    assert_eq!(parse_byte(&chars_of("x42"), 1), Some(42));
    assert_eq!(parse_byte(&chars_of("255"), 0), Some(255));
    assert_eq!(parse_byte(&chars_of("256"), 0), None);
    assert_eq!(parse_byte(&chars_of(""), 0), None);
    assert_eq!(parse_byte(&chars_of("1e"), 0), None);
    assert_eq!(parse_byte(&chars_of("00000000000000000000009"), 0), Some(9));
}

#[test]
fn every_error_has_a_message() {
    assert_eq!(Error::Reader.message(), "Parse error");
    assert_eq!(Error::Shape.to_string(), "Syntax error");
    assert_eq!(Error::CycleDetected.to_string(), "Cycle detected");
    assert_eq!(Error::ReservedLayer.to_string(), "Cannot override src layer");
    assert_eq!(Error::MissingVial.to_string(), "Vial is not defined");
}
