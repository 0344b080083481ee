use kdl::keys::Key;
use kdl::layout::action::{find, taps, Action};
use kdl::sexpr::from_str;
use kdl::Error;

fn action(source: &str) -> Result<Action, Error> {
    Action::from_expr(&from_str(source).unwrap())
}

fn tap(k: Key) -> Action {
    Action::Tap(k)
}

fn tap_hold(a: Action, b: Action) -> Action {
    Action::TapHold(Box::new(a), Box::new(b))
}

#[test]
fn atoms_as_actions() {
    assert_eq!(action("a"), Ok(tap(Key::A)));
    assert_eq!(action("X"), Ok(Action::NoAction));
    assert_eq!(action("x"), Ok(tap(Key::X)));
    assert_eq!(action("_"), Ok(Action::Transparent));
    assert_eq!(action("lb"), Ok(Action::Unicode('(')));
    assert_eq!(action("rb"), Ok(Action::Unicode(')')));
    assert_eq!(action(".я"), Ok(Action::Unicode('я')));
    assert_eq!(action(".#"), Ok(Action::Unicode('#')));
    assert_eq!(action(".ab"), Ok(Action::Unicode('a')));
    assert_eq!(action("."), Ok(tap(Key::Dot)));
    assert_eq!(action("@name"), Ok(Action::Alias("name".to_string())));
    assert_eq!(action("@a-b"), Ok(Action::Alias("a-b".to_string())));
    assert_eq!(action("@"), Err(Error::UnknownKey));
    assert_eq!(action("-"), Ok(tap(Key::Minus)));
    assert_eq!(action("kp-"), Ok(tap(Key::KpMinus)));
    assert_eq!(action("nothing"), Err(Error::UnknownKey));
}

#[test]
fn hyphens_make_a_multi_of_taps() {
    assert_eq!(
        action("C-S-a"),
        Ok(Action::Multi(vec![tap(Key::LeftCtrl), tap(Key::LeftShift), tap(Key::A)]))
    );
    assert_eq!(action("lctl-a"), Ok(Action::Multi(vec![tap(Key::LeftCtrl), tap(Key::A)])));
    assert_eq!(action("C-nothing"), Err(Error::UnknownKey));
    assert_eq!(action("a--b"), Err(Error::UnknownKey));
    assert_eq!(action("-a"), Err(Error::UnknownKey));
}

#[test]
fn lists_as_actions() {
    assert_eq!(action("(tap-hold a lctl)"), Ok(tap_hold(tap(Key::A), tap(Key::LeftCtrl))));
    assert_eq!(
        action("(multi a (tap-hold b c) X)"),
        Ok(Action::Multi(vec![
            tap(Key::A),
            tap_hold(tap(Key::B), tap(Key::C)),
            Action::NoAction
        ]))
    );
    assert_eq!(action("(multi)"), Ok(Action::Multi(vec![])));
    assert_eq!(action("(layer-while-held nav)"), Ok(Action::LayerWhileHeld("nav".to_string())));
    assert_eq!(action("(layer-switch nav)"), Ok(Action::LayerSwitch("nav".to_string())));
}

#[test]
fn action_errors() {
    assert_eq!(action("()"), Err(Error::UnknownAction));
    assert_eq!(action("((a) b)"), Err(Error::UnknownAction));
    assert_eq!(action("(nothing a)"), Err(Error::UnknownAction));
    assert_eq!(action("(tap-hold a)"), Err(Error::Shape));
    assert_eq!(action("(tap-hold a b c)"), Err(Error::Shape));
    assert_eq!(action("(tap-hold q nothing)"), Err(Error::UnknownKey));
    assert_eq!(action("(layer-while-held)"), Err(Error::Shape));
    assert_eq!(action("(layer-while-held (a))"), Err(Error::Shape));
    assert_eq!(action("(layer-switch a b)"), Err(Error::Shape));
    assert_eq!(action("(multi a (nothing))"), Err(Error::UnknownAction));
}

#[test]
fn alias_chain_resolves_to_the_end() {
    let aliases = vec![
        ("x".to_string(), action("@y").unwrap()),
        ("y".to_string(), action("(tap-hold a lctl)").unwrap()),
    ];
    assert_eq!(
        action("@x").unwrap().resolve_aliases(&aliases),
        Ok(tap_hold(tap(Key::A), tap(Key::LeftCtrl)))
    );
    assert_eq!(
        action("(multi @x (tap-hold @y b))").unwrap().resolve_aliases(&aliases),
        Ok(Action::Multi(vec![
            tap_hold(tap(Key::A), tap(Key::LeftCtrl)),
            tap_hold(tap_hold(tap(Key::A), tap(Key::LeftCtrl)), tap(Key::B)),
        ]))
    );
}

#[test]
fn later_alias_of_a_name_counts() {
    let aliases = vec![
        ("x".to_string(), action("a").unwrap()),
        ("x".to_string(), action("b").unwrap()),
    ];
    assert_eq!(action("@x").unwrap().resolve_aliases(&aliases), Ok(tap(Key::B)));
    assert_eq!(find(&aliases, "x"), Some(&tap(Key::B)));
    assert_eq!(find(&aliases, "y"), None);
}

#[test]
fn missing_alias_and_alias_cycle() {
    let aliases = vec![
        ("x".to_string(), action("@y").unwrap()),
        ("y".to_string(), action("@x").unwrap()),
    ];
    assert_eq!(action("@z").unwrap().resolve_aliases(&aliases), Err(Error::MissingAlias));
    assert_eq!(action("@x").unwrap().resolve_aliases(&aliases), Err(Error::AliasCycle));
    assert_eq!(action("(multi a @z)").unwrap().resolve_aliases(&vec![]), Err(Error::MissingAlias));
}

#[test]
fn no_alias_is_left_after_resolving() {
    let aliases = vec![
        ("x".to_string(), action("(multi a @y)").unwrap()),
        ("y".to_string(), action("b").unwrap()),
    ];
    let seq = Action::Sequence(vec![action("@x").unwrap(), action("@y").unwrap()]);
    let out = seq.resolve_aliases(&aliases).unwrap();
    assert_eq!(
        out,
        Action::Sequence(vec![Action::Multi(vec![tap(Key::A), tap(Key::B)]), tap(Key::B)])
    );
    assert!(!format!("{:?}", out).contains("Alias"));
}

#[test]
fn held_layers_in_tree_order() {
    let a = action("(multi (layer-while-held one) (tap-hold a (layer-while-held two)) (layer-switch three) (layer-while-held one))").unwrap();
    assert_eq!(a.layer_while_held_names(), vec!["one", "two", "one"]);
    assert_eq!(tap(Key::A).layer_while_held_names(), Vec::<String>::new());
    let s = Action::Sequence(vec![action("(layer-while-held z)").unwrap()]);
    assert_eq!(s.layer_while_held_names(), vec!["z"]);
}

#[test]
fn unicode_anywhere_in_the_tree() {
    assert!(action(".x").unwrap().contains_unicode());
    assert!(action("(multi a (tap-hold b lb))").unwrap().contains_unicode());
    assert!(Action::Sequence(vec![tap(Key::A), Action::Unicode('q')]).contains_unicode());
    assert!(!action("(multi a (tap-hold b c))").unwrap().contains_unicode());
    assert!(!action("@x").unwrap().contains_unicode());
}

#[test]
fn held_layers_can_be_renamed() {
    let renames = vec![
        ("nav".to_string(), "nav-ru".to_string()),
        ("nav".to_string(), "other".to_string()),
    ];
    let mut a = action("(multi (layer-while-held nav) (tap-hold a (layer-while-held sym)) (layer-switch nav))").unwrap();
    a.map_layer_while_held(&renames);
    assert_eq!(
        a,
        action("(multi (layer-while-held nav-ru) (tap-hold a (layer-while-held sym)) (layer-switch nav))").unwrap()
    );
    assert_eq!(tap(Key::A).reheld(&renames), tap(Key::A));
}

#[test]
fn keys_of_a_row_of_taps() {
    assert_eq!(taps(&vec![tap(Key::A), tap(Key::B)]), Some(vec![Key::A, Key::B]));
    assert_eq!(taps(&vec![tap(Key::A), Action::NoAction]), None);
    assert_eq!(taps(&vec![]), Some(vec![]));
}
