use kdl::keys::Key;
use kdl::layout::action::Action;
use kdl::sexpr::from_str;
use kdl::transform::graph::{priority_topo_sort, Node};
use kdl::transform::kanata::{action_to_kanata, format_mods, has_kanata_name, key_to_kanata};
use kdl::transform::vial::actions::direct_name;
use kdl::transform::vial::keycode::{format_mods as vial_mods, key_to_mod, key_to_string};
use kdl::transform::vial::overrides::mods_to_names;
use kdl::transform::vial::{Keycode, Macro, MacroAction, Override, TapDance, Vial, VialAction};
use kdl::Error;

fn action(source: &str) -> Action {
    Action::from_expr(&from_str(source).unwrap()).unwrap()
}

fn kanata(source: &str) -> Result<String, Error> {
    action_to_kanata(&action(source))
}

fn code(name: &str) -> Keycode {
    Keycode(name.to_string())
}

fn layers() -> Vec<String> {
    vec!["default".to_string(), "nav".to_string(), "sym".to_string()]
}

fn lowered(source: &str) -> Result<VialAction, Error> {
    VialAction::from_action(&action(source), &layers())
}

fn keycode(source: &str) -> Result<VialAction, Error> {
    Vial::new(layers()).action_to_vial(&action(source))
}

#[test]
fn kanata_names_of_keys() {
    assert_eq!(key_to_kanata(&Key::A), "a");
    assert_eq!(key_to_kanata(&Key::Fn(1)), "fn");
    assert_eq!(key_to_kanata(&Key::Fn(12)), "fn12");
    assert_eq!(key_to_kanata(&Key::Fn(0)), "fn0");
    assert_eq!(key_to_kanata(&Key::LeftShift), "lsft");
    assert_eq!(key_to_kanata(&Key::Left), "left");
    assert_eq!(key_to_kanata(&Key::PrintScreen), "prnt");
    assert_eq!(key_to_kanata(&Key::Backslash), "\\");
    assert_eq!(key_to_kanata(&Key::MediaPlayPause), "pp");
    assert!(has_kanata_name(&Key::MouseWheelUp));
    assert!(!has_kanata_name(&Key::MouseCursorUp));
    assert!(!has_kanata_name(&Key::MouseAcceleration2));
}

#[test]
fn kanata_modifier_prefix() {
    assert_eq!(format_mods(&vec![Key::LeftCtrl, Key::LeftShift]), Some("C-S".to_string()));
    assert_eq!(
        format_mods(&vec![Key::LeftShift, Key::LeftCtrl, Key::LeftShift]),
        Some("S-C".to_string())
    );
    assert_eq!(format_mods(&vec![Key::RightMeta]), Some("RM".to_string()));
    assert_eq!(format_mods(&vec![Key::RightAlt]), Some("A".to_string()));
    assert_eq!(format_mods(&vec![]), Some(String::new()));
    assert_eq!(format_mods(&vec![Key::LeftCtrl, Key::A]), None);
}

#[test]
fn kanata_text_of_actions() {
    assert_eq!(kanata("a"), Ok("a".to_string()));
    assert_eq!(kanata("_"), Ok("_".to_string()));
    assert_eq!(kanata("X"), Ok("XX".to_string()));
    assert_eq!(kanata("@x"), Ok("@x".to_string()));
    assert_eq!(kanata("(tap-hold a lctl)"), Ok("(tap-hold 200 200 a lctl)".to_string()));
    assert_eq!(kanata("(layer-while-held nav)"), Ok("(layer-while-held nav)".to_string()));
    assert_eq!(kanata("(layer-switch nav)"), Ok("(layer-switch nav)".to_string()));
    assert_eq!(kanata("C-S-a"), Ok("C-S-a".to_string()));
    assert_eq!(kanata("(multi lsft b)"), Ok("S-b".to_string()));
    assert_eq!(kanata("(multi a)"), Ok("(multi  a)".to_string()));
    assert_eq!(kanata("(multi a b)"), Ok("(multi  a b)".to_string()));
    assert_eq!(
        kanata("(multi a (layer-while-held nav) b (tap-hold c d))"),
        Ok("(multi (layer-while-held nav) (tap-hold 200 200 c d) a b)".to_string())
    );
    assert_eq!(kanata("(multi)"), Ok("(multi  )".to_string()));
    assert_eq!(
        action_to_kanata(&Action::Sequence(vec![action("a"), action("C-b")])),
        Ok("(macro a C-b)".to_string())
    );
}

#[test]
fn kanata_errors() {
    assert_eq!(kanata(".x"), Err(Error::Unresolved));
    assert_eq!(action_to_kanata(&Action::Hold(Key::A)), Err(Error::NotInSequence));
    assert_eq!(action_to_kanata(&Action::Release(Key::A)), Err(Error::NotInSequence));
    assert_eq!(
        action_to_kanata(&Action::Sequence(vec![Action::Hold(Key::A)])),
        Err(Error::NotInSequence)
    );
    assert_eq!(action_to_kanata(&Action::Tap(Key::MouseCursorUp)), Err(Error::Unsupported));
    assert_eq!(kanata("(multi a (tap-hold b .x))"), Err(Error::Unresolved));
}

#[test]
fn firmware_names_of_keys_and_modifiers() {
    assert_eq!(key_to_string(&Key::A), "KC_A");
    assert_eq!(key_to_string(&Key::Fn(3)), "KC_NO");
    assert_eq!(key_to_string(&Key::LeftMeta), "KC_LEFT_GUI");
    assert_eq!(key_to_string(&Key::MouseButton1), "KC_MS_BTN1");
    assert_eq!(key_to_mod(&Key::LeftMeta), Some("LGUI"));
    assert_eq!(key_to_mod(&Key::RightAlt), Some("RALT"));
    assert_eq!(key_to_mod(&Key::A), None);
    assert_eq!(Keycode::from_key(&Key::Enter), code("KC_ENTER"));
    assert_eq!(Keycode::from_name("MO(1)".to_string()).name(), "MO(1)");
}

#[test]
fn firmware_names_of_modifier_sets() {
    let c = Key::LeftCtrl;
    let s = Key::LeftShift;
    let a = Key::LeftAlt;
    let g = Key::LeftMeta;
    assert_eq!(vial_mods(&vec![c, s, a, g]), Some("HYPR"));
    assert_eq!(vial_mods(&vec![g, a, s, c, c]), Some("HYPR"));
    assert_eq!(vial_mods(&vec![c, s, a]), Some("MEH"));
    assert_eq!(vial_mods(&vec![c, a, g]), Some("LCAG"));
    assert_eq!(vial_mods(&vec![s, c]), Some("LCS"));
    assert_eq!(vial_mods(&vec![c, a]), Some("LCA"));
    assert_eq!(vial_mods(&vec![c, g]), Some("LCG"));
    assert_eq!(vial_mods(&vec![Key::RightCtrl, Key::RightMeta]), Some("RCG"));
    assert_eq!(vial_mods(&vec![s, a]), Some("LSA"));
    assert_eq!(vial_mods(&vec![s, g]), Some("LSG"));
    assert_eq!(vial_mods(&vec![a]), Some("LALT"));
    assert_eq!(vial_mods(&vec![Key::RightShift, Key::RightShift]), Some("RSFT"));
    assert_eq!(vial_mods(&vec![]), None);
    assert_eq!(vial_mods(&vec![a, g]), None);
    assert_eq!(vial_mods(&vec![Key::A]), None);
    assert_eq!(vial_mods(&vec![c, Key::RightShift]), None);
}

#[test]
fn key_codes_of_simple_actions() {
    assert_eq!(lowered("a"), Ok(VialAction::Keycode(code("KC_A"))));
    assert_eq!(lowered("X"), Ok(VialAction::Keycode(code("KC_NO"))));
    assert_eq!(lowered("_"), Ok(VialAction::Keycode(code("KC_TRANSPARENT"))));
    assert_eq!(lowered("(layer-switch nav)"), Ok(VialAction::Keycode(code("DF(1)"))));
    assert_eq!(lowered("(layer-while-held sym)"), Ok(VialAction::Keycode(code("MO(2)"))));
    assert_eq!(lowered("(layer-while-held default)"), Ok(VialAction::Keycode(code("MO(0)"))));
    assert_eq!(lowered("(tap-hold a lsft)"), Ok(VialAction::Keycode(code("LSFT_T(KC_A)"))));
    assert_eq!(lowered("(tap-hold a rmeta)"), Ok(VialAction::Keycode(code("RGUI_T(KC_A)"))));
    assert_eq!(
        lowered("(tap-hold spc (layer-while-held nav))"),
        Ok(VialAction::Keycode(code("LT(1,KC_SPACE)")))
    );
    assert_eq!(
        lowered("(tap-hold spc (layer-switch sym))"),
        Ok(VialAction::Keycode(code("LT(2,KC_SPACE)")))
    );
    assert_eq!(
        lowered("(tap-hold a (multi lctl lsft))"),
        Ok(VialAction::Keycode(code("MT(LCTL|LSFT,KC_A)")))
    );
    assert_eq!(lowered("C-S-a"), Ok(VialAction::Keycode(code("LCS(KC_A)"))));
    assert_eq!(lowered("A-tab"), Ok(VialAction::Keycode(code("LALT(KC_TAB)"))));
    assert_eq!(lowered("C-S-A-M-x"), Ok(VialAction::Keycode(code("HYPR(KC_X)"))));
    assert_eq!(
        direct_name(&action("C-S-a"), &layers()),
        Some(Ok("LCS(KC_A)".to_string()))
    );
    assert_eq!(direct_name(&action("(tap-hold a b)"), &layers()), None);
}

#[test]
fn key_code_errors() {
    assert_eq!(lowered("@x"), Err(Error::Unresolved));
    assert_eq!(lowered(".x"), Err(Error::Unresolved));
    assert_eq!(lowered("(layer-switch nowhere)"), Err(Error::MissingLayer));
    assert_eq!(lowered("(layer-while-held nowhere)"), Err(Error::MissingLayer));
    assert_eq!(lowered("(tap-hold a (layer-while-held nowhere))"), Err(Error::MissingLayer));
    assert_eq!(
        VialAction::from_action(&Action::Hold(Key::A), &layers()),
        Err(Error::NotInSequence)
    );
    assert_eq!(lowered("(multi a b)"), Err(Error::Unsupported));
    assert_eq!(lowered("(tap-hold (multi a b) c)"), Err(Error::Unsupported));
}

#[test]
fn tap_hold_becomes_a_tap_dance() {
    let want = TapDance {
        tap: code("KC_A"),
        hold: code("KC_B"),
        double_tap: code("KC_NO"),
        tap_hold: code("KC_NO"),
        tapping_term: 200,
    };
    match lowered("(tap-hold a b)") {
        Ok(VialAction::TapDance(td)) => {
            assert!(td.same(&want));
            assert_eq!(td.tapping_term, 200);
        }
        other => panic!("{:?}", other),
    }
    match lowered("(tap-hold (tap-hold a b) (tap-hold c d))") {
        Ok(VialAction::TapDance(td)) => {
            assert_eq!(td.tap, code("KC_A"));
            assert_eq!(td.hold, code("KC_D"));
        }
        other => panic!("{:?}", other),
    }
    assert!(matches!(VialAction::tap_hold(code("x"), code("y")), VialAction::TapDance(_)));
}

#[test]
fn holds_and_releases_become_macro_steps() {
    let seq = Action::Sequence(vec![Action::Hold(Key::LeftShift), Action::Release(Key::LeftShift)]);
    match VialAction::from_action(&seq, &layers()) {
        Ok(VialAction::Macro(m)) => assert_eq!(
            m.0,
            vec![
                MacroAction::Down(code("KC_LEFT_SHIFT")),
                MacroAction::Up(code("KC_LEFT_SHIFT"))
            ]
        ),
        other => panic!("{:?}", other),
    }
    let mixed = Action::Sequence(vec![Action::Hold(Key::LeftShift), Action::Tap(Key::A)]);
    assert_eq!(VialAction::from_action(&mixed, &layers()).err(), Some(Error::Unsupported));
}

#[test]
fn equal_macros_and_tap_dances_share_a_number() {
    let mut vial = Vial::new(layers());
    let a = vial.action_to_keycode(&action("(tap-hold a b)")).unwrap();
    let b = vial.action_to_keycode(&action("(tap-hold c d)")).unwrap();
    let c = vial.action_to_keycode(&action("(tap-hold a b)")).unwrap();
    assert_eq!(a, code("TD(0)"));
    assert_eq!(b, code("TD(1)"));
    assert_eq!(c, code("TD(0)"));
    let m0 = vial.action_to_keycode(&action("(multi a b)")).unwrap();
    let m1 = vial.action_to_keycode(&action("(multi b a)")).unwrap();
    let m2 = vial.action_to_keycode(&action("(multi a b)")).unwrap();
    assert_eq!(m0, code("M0"));
    assert_eq!(m1, code("M1"));
    assert_eq!(m2, code("M0"));
    assert_eq!(vial.tap_dances.len(), 2);
    assert_eq!(vial.macros.len(), 2);
    assert_eq!(vial.layer_by_name("sym"), Some(2));
    assert_eq!(vial.layer_by_name("none"), None);
}

#[test]
fn nested_structures_are_interned_first() {
    let mut vial = Vial::new(layers());
    let out = vial.action_to_vial(&action("(tap-hold (multi a b) (tap-hold c d))")).unwrap();
    match out {
        VialAction::TapDance(td) => {
            assert_eq!(td.tap, code("M0"));
            assert_eq!(td.hold, code("TD(0)"));
        }
        other => panic!("{:?}", other),
    }
    assert_eq!(vial.macros.len(), 1);
    assert_eq!(vial.tap_dances.len(), 1);
    assert_eq!(
        vial.macros[0].0,
        vec![MacroAction::Tap(code("KC_A")), MacroAction::Tap(code("KC_B"))]
    );
}

#[test]
fn taps_of_a_sequence_are_parted_by_delays() {
    let seq = Action::Sequence(vec![
        Action::Tap(Key::A),
        Action::Tap(Key::B),
        Action::Hold(Key::LeftShift),
        Action::Tap(Key::C),
        action("C-d"),
        Action::Release(Key::LeftShift),
        Action::Tap(Key::E),
    ]);
    match Vial::new(layers()).action_to_vial(&seq) {
        Ok(VialAction::Macro(m)) => {
            assert_eq!(
                m.0,
                vec![
                    MacroAction::Tap(code("KC_A")),
                    MacroAction::Delay(0),
                    MacroAction::Tap(code("KC_B")),
                    MacroAction::Down(code("KC_LEFT_SHIFT")),
                    MacroAction::Tap(code("KC_C")),
                    MacroAction::Delay(0),
                    MacroAction::Tap(code("LCTL(KC_D)")),
                    MacroAction::Up(code("KC_LEFT_SHIFT")),
                    MacroAction::Tap(code("KC_E")),
                ]
            );
            for pair in m.0.windows(2) {
                assert!(!(matches!(pair[0], MacroAction::Tap(_)) && matches!(pair[1], MacroAction::Tap(_))));
            }
        }
        other => panic!("{:?}", other),
    }
    match Vial::new(layers()).action_to_vial(&Action::Sequence(vec![])) {
        Ok(VialAction::Macro(m)) => assert!(m.0.is_empty()),
        other => panic!("{:?}", other),
    }
    assert_eq!(keycode("(multi a b)").map(|a| matches!(a, VialAction::Macro(_))), Ok(true));
}

#[test]
fn macros_compare_by_their_steps() {
    let a = Macro(vec![MacroAction::Tap(code("KC_A")), MacroAction::Delay(0)]);
    let b = Macro(vec![MacroAction::Tap(code("KC_A")), MacroAction::Delay(0)]);
    let c = Macro(vec![MacroAction::Tap(code("KC_A")), MacroAction::Delay(1)]);
    let d = Macro(vec![MacroAction::Tap(code("KC_A"))]);
    assert!(a.same(&b));
    assert!(!a.same(&c));
    assert!(!a.same(&d));
    assert!(a.clone().same(&a));
}

fn new(src: Vec<Key>, dst: Vec<Key>) -> Result<Override, String> {
    let (src, src_mods) = src.split_last().unwrap();
    let (dst, dst_mods) = dst.split_last().unwrap();
    Ok(Override {
        source: Keycode::from_key(src),
        source_mods: src_mods.to_vec(),
        target_mods: dst_mods.to_vec(),
        target: Keycode::from_key(dst),
    })
}

#[test]
fn get_mods() {
    assert_eq!(
        new([Key::A].to_vec(), [Key::B].to_vec(),).unwrap().get_mods(),
        (vec![], vec![])
    );
    assert_eq!(
        new([Key::LeftCtrl, Key::C].to_vec(), [Key::LeftCtrl, Key::B].to_vec(),)
            .unwrap()
            .get_mods(),
        (vec![Key::LeftCtrl], vec![])
    );
    assert_eq!(
        new([Key::LeftCtrl, Key::B].to_vec(), [Key::B].to_vec(),).unwrap().get_mods(),
        (vec![Key::LeftCtrl], vec![Key::LeftCtrl])
    );
}

#[test]
fn suppressed_modifiers_are_the_symmetric_difference() {
    let o = new(
        vec![Key::LeftCtrl, Key::LeftShift, Key::LeftCtrl, Key::A],
        vec![Key::LeftShift, Key::RightAlt, Key::B],
    )
    .unwrap();
    assert_eq!(
        o.get_mods(),
        (
            vec![Key::LeftCtrl, Key::LeftShift, Key::LeftCtrl],
            vec![Key::LeftCtrl, Key::RightAlt]
        )
    );
    let k = o.to_key_override(0b101, 3).unwrap();
    assert_eq!(k.index, 3);
    assert_eq!(k.trigger, code("KC_A"));
    assert_eq!(k.replacement, code("KC_B"));
    assert_eq!(k.layers, 5);
    assert_eq!(k.trigger_mods, "LCTL|LSFT|LCTL");
    assert_eq!(k.suppressed_mods, "LCTL|RALT");
    assert_eq!(o.to_key_override(1, 256).err(), Some(Error::TooMany));
    assert_eq!(mods_to_names(&vec![]), "");
    assert_eq!(mods_to_names(&vec![Key::LeftCtrl]), "LCTL");
    assert_eq!(mods_to_names(&vec![Key::LeftCtrl, Key::RightMeta]), "LCTL|RGUI");
    assert_eq!(mods_to_names(&vec![Key::A, Key::RightMeta]), "RGUI");
}

fn node(name: &str, weight: usize, deps: &[&str]) -> Node {
    Node {
        name: name.to_string(),
        weight,
        deps: deps.iter().map(|d| d.to_string()).collect(),
    }
}

#[test]
fn dependencies_come_first_in_the_sort() {
    let graph = vec![
        node("default", 1, &["nav", "sym"]),
        node("nav", 2, &["sym"]),
        node("sym", 3, &[]),
    ];
    assert_eq!(priority_topo_sort(&graph), Ok(vec!["sym".to_string(), "nav".to_string(), "default".to_string()]));
}

#[test]
fn higher_rank_comes_first_among_the_ready() {
    let graph = vec![node("a", 1, &[]), node("c", 3, &[]), node("b", 2, &[]), node("d", 3, &[])];
    assert_eq!(
        priority_topo_sort(&graph),
        Ok(vec!["d".to_string(), "c".to_string(), "b".to_string(), "a".to_string()])
    );
    let chained = vec![node("a", 9, &["b"]), node("b", 1, &[]), node("c", 5, &[])];
    assert_eq!(
        priority_topo_sort(&chained),
        Ok(vec!["c".to_string(), "b".to_string(), "a".to_string()])
    );
    assert_eq!(priority_topo_sort(&vec![]), Ok(vec![]));
}

#[test]
fn cycles_and_unknown_dependencies_are_detected() {
    let cycle = vec![node("a", 1, &["b"]), node("b", 2, &["a"])];
    assert_eq!(priority_topo_sort(&cycle), Err(Error::CycleDetected));
    let own = vec![node("a", 1, &["a"])];
    assert_eq!(priority_topo_sort(&own), Err(Error::CycleDetected));
    let unknown = vec![node("a", 1, &["nowhere"])];
    assert_eq!(priority_topo_sort(&unknown), Err(Error::CycleDetected));
    let twice = vec![node("a", 1, &["b", "b"]), node("b", 2, &[])];
    assert_eq!(priority_topo_sort(&twice), Ok(vec!["b".to_string(), "a".to_string()]));
}
