use kdl::layout::{Layout, Resources};
use kdl::parser::VialItem;
use kdl::transform::vial::{Keycode, MacroAction, Vial};
use kdl::layout::action::Action;
use kdl::layout::layer::Override;
use kdl::keys::Key;
use kdl::sexpr::from_str;
use kdl::Error;

fn layout(source: &str) -> Layout {
    let resources = Resources { keyboards: vec![], unicode: "(defunicode en # S-3)".to_string() };
    Layout::from_str(source, &resources).unwrap()
}

fn action(source: &str) -> Action {
    Action::from_expr(&from_str(source).unwrap()).unwrap()
}

fn code(name: &str) -> Keycode {
    Keycode(name.to_string())
}

const SOURCE: &str = "(defsrc a b c) (defvial (a 0 0) (b 0 1) (c 1 0 e)) \
    (deflayer default (layer-while-held nav) C-S-a (tap-hold a b)) \
    (deflayer nav _ (multi a b) (tap-hold a b)) \
    (defoverride default S-a b C-b (multi lalt c)) \
    (defoverride nav S-a b S-b (layer-switch nav))";

#[test]
fn layers_hold_before_they_are_held() {
    let l = layout(SOURCE);
    assert_eq!(l.sorted_layers(), Ok(vec!["default".to_string(), "nav".to_string()]));
    let three = layout(
        "(defsrc a b c) (deflayer default (layer-while-held b) b c) (deflayer a a b c) \
         (deflayer b (layer-while-held c) b c) (deflayer c a b c)",
    );
    assert_eq!(
        three.sorted_layers(),
        Ok(vec!["default".to_string(), "a".to_string(), "b".to_string(), "c".to_string()])
    );
}

#[test]
fn modifier_combo() {
    let l = layout(SOURCE);
    let plan = l.vial().unwrap();
    assert_eq!(plan.layers[0].keys[1], (VialItem::KeyCode(0, 1), code("LCS(KC_A)")));
    assert!(l.kanata().unwrap().contains("\tb C-S-a\n"));
}

#[test]
fn plan_of_a_layout() {
    let plan = layout(SOURCE).vial().unwrap();
    assert_eq!(plan.layers.len(), 2);
    assert_eq!(plan.layers[0].name, "default");
    assert_eq!(
        plan.layers[0].keys,
        vec![
            (VialItem::KeyCode(0, 0), code("MO(1)")),
            (VialItem::KeyCode(0, 1), code("LCS(KC_A)")),
            (VialItem::Encoder(1, 0), code("TD(0)")),
        ]
    );
    assert_eq!(plan.layers[1].name, "nav");
    assert_eq!(
        plan.layers[1].keys,
        vec![
            (VialItem::KeyCode(0, 0), code("MO(1)")),
            (VialItem::KeyCode(0, 1), code("M0")),
            (VialItem::Encoder(1, 0), code("TD(0)")),
        ]
    );
    assert_eq!(plan.tap_dances.len(), 1);
    assert_eq!(plan.tap_dances[0].tap, code("KC_A"));
    assert_eq!(plan.tap_dances[0].hold, code("KC_B"));
    assert_eq!(plan.macros.len(), 1);
    assert_eq!(
        plan.macros[0].0,
        vec![MacroAction::Tap(code("KC_A")), MacroAction::Tap(code("KC_B"))]
    );
}

#[test]
fn same_override_on_two_layers_is_one_record() {
    let plan = layout(SOURCE).vial().unwrap();
    assert_eq!(plan.overrides.len(), 2);
    let first = &plan.overrides[0];
    assert_eq!(first.index, 0);
    assert_eq!(first.trigger, code("KC_A"));
    assert_eq!(first.replacement, code("KC_B"));
    assert_eq!(first.layers, 0b11);
    assert_eq!(first.trigger_mods, "LSFT");
    assert_eq!(first.suppressed_mods, "LSFT");
    let second = &plan.overrides[1];
    assert_eq!(second.index, 1);
    assert_eq!(second.trigger, code("KC_B"));
    assert_eq!(second.replacement, code("KC_C"));
    assert_eq!(second.layers, 0b01);
    assert_eq!(second.trigger_mods, "LCTL");
    assert_eq!(second.suppressed_mods, "LCTL|LALT");
    assert_eq!(plan.skipped, vec![Error::OverrideShape]);
}

#[test]
fn override_pool_by_hand() {
    let mut vial = Vial::new(vec!["a".to_string(), "b".to_string()]);
    let o = Override { key: Key::A, mods: vec![Key::LeftShift], action: action("(tap-hold b c)") };
    assert_eq!(vial.add_override(3, &o), Ok(()));
    assert_eq!(vial.add_override(0, &o), Ok(()));
    assert_eq!(vial.add_override(3, &o), Ok(()));
    assert_eq!(vial.overrides.len(), 1);
    assert_eq!(vial.overrides[0].1, 0b1001);
    assert_eq!(vial.overrides[0].0.target, code("KC_B"));
    let none = Override { key: Key::A, mods: vec![], action: Action::NoAction };
    assert_eq!(vial.add_override(15, &none), Ok(()));
    assert_eq!(vial.overrides[1].1, 0x8000);
    assert_eq!(vial.overrides[1].0.target, code("KC_NO"));
    assert_eq!(vial.add_override(16, &none), Err(Error::TooMany));
    for bad in ["(multi a b)", "(multi lctl)", "(layer-switch a)", "(tap-hold (multi a b) c)", "(multi a (tap-hold b c))"] {
        let o = Override { key: Key::A, mods: vec![], action: action(bad) };
        assert_eq!(vial.add_override(0, &o), Err(Error::OverrideShape));
    }
    assert_eq!(vial.overrides.len(), 2);
}

#[test]
fn plan_errors() {
    let no_vial = layout("(defsrc a) (deflayer default a)");
    assert_eq!(no_vial.vial().err(), Some(Error::MissingVial));
    let gap = layout("(defsrc a b) (defvial (a 0 0)) (deflayer default a b)");
    assert_eq!(gap.vial().err(), Some(Error::MissingKey));
    let held = layout("(defsrc a b) (defvial (a 0 0) (b 0 1)) (deflayer default a (layer-while-held nowhere))");
    assert_eq!(held.vial().err(), Some(Error::CycleDetected));
    let switch = layout("(defsrc a b) (defvial (a 0 0) (b 0 1)) (deflayer default a (layer-switch nowhere))");
    assert_eq!(switch.vial().err(), Some(Error::MissingLayer));
    let unicode = layout("(defsrc a) (defvial (a 0 0)) (deflayer default .я)");
    assert_eq!(unicode.vial().err(), Some(Error::Unresolved));
    assert_eq!(unicode.kanata().err(), Some(Error::Unresolved));
}

#[test]
fn text_of_a_layout() {
    let text = layout(SOURCE).kanata().unwrap();
    assert_eq!(
        text,
        "(defsrc a b c)\n\n\
         (deflayermap (default)\n\ta (layer-while-held nav)\n\tb C-S-a\n\tc (tap-hold 200 200 a b)\n)\n\n\
         (deflayermap (nav)\n\ta (layer-while-held nav)\n\tb (multi  a b)\n\tc (tap-hold 200 200 a b)\n)\n\n\
         (defoverridesv2 \n\t(lsft a) (b) () ()\n\t(lctl b) (A-c) () (nav)\n\t(lsft b) (layer-switch nav) () (default)\n)"
    );
}
