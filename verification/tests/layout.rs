use kdl::keys::{Key, KeyIndex};
use kdl::layout::action::Action;
use kdl::layout::layer::{Keymap, Layer};
use kdl::layout::layers::{find_layer, insert_layer, remove_layer};
use kdl::layout::prepare::{duplicate_layers, resolve_transparency};
use kdl::layout::unicode::{load_lang_chars, resolve_unicode, unicode, Keymaps};
use kdl::layout::{Layout, Resources};
use kdl::parser::{parse, parse_keymap, parse_vial, VialItem};
use kdl::sexpr::from_str;
use kdl::Error;

const ROW: &str = "a b c d e f g h i j k l m n o p q r s t u v w x y z 1 2 3 4 5 6 7 8 9 0 esc tab spc ent bks del lsft lctl";

fn descriptor() -> String {
    let mut vial = String::new();
    for (i, key) in ROW.split(' ').enumerate() {
        vial.push_str(&format!("({} {} {}) ", key, i / 12, i % 12));
    }
    format!(
        "name: imperial44\n---\n(defmatrix (a 0 0 1 1) (b 1 0 1 1 0 0 0))\n(defvial {})\n(defsrc {})\n",
        vial, ROW
    )
}

fn resources(unicode: &str) -> Resources {
    Resources {
        keyboards: vec![("imperial44".to_string(), descriptor())],
        unicode: unicode.to_string(),
    }
}

fn layout(source: &str) -> Result<Layout, Error> {
    Layout::from_str(source, &resources(""))
}

fn layer<'a>(l: &'a Layout, name: &str) -> &'a Layer {
    &l.layers[find_layer(&l.layers, name).unwrap()]
}

fn action(source: &str) -> Action {
    Action::from_expr(&from_str(source).unwrap()).unwrap()
}

fn exprs(source: &str) -> Vec<kdl::sexpr::Expr> {
    from_str(&format!("({})", source)).unwrap().list().unwrap().clone()
}

fn small(rest: &str) -> Result<Layout, Error> {
    layout(&format!("(defsrc a b c) {}", rest))
}

#[test]
fn minimal_layer() {
    let l = layout(&format!("(keyboard imperial44) (deflayer default {})", ROW)).unwrap();
    assert_eq!(l.layers.len(), 1);
    let default = layer(&l, "default");
    assert_eq!(default.keys.len(), 44);
    assert_eq!(default.get(KeyIndex(0)), Some(&Action::Tap(Key::A)));
    assert_eq!(default.get(KeyIndex(1)), Some(&Action::Tap(Key::B)));
    assert_eq!(default.get(KeyIndex(2)), Some(&Action::Tap(Key::C)));
    assert_eq!(default.get(KeyIndex(43)), Some(&Action::Tap(Key::LeftCtrl)));
    assert_eq!(default.get(KeyIndex(44)), None);
    assert_eq!(default.parent, "src");
    assert_eq!(default.index, 1);
    let text = l.kanata().unwrap();
    assert_eq!(
        text,
        "(defsrc a b c d e f g h i j k l m n o p q r s t u v w x y z 1 2 3 4 5 6 7 8 9 0 esc tab spc enter bks del lsft lctl)\n\n(deflayermap (default)\n\n)"
    );
}

#[test]
fn transparent_slot_takes_the_parents_binding() {
    let l = small("(deflayer default a h c) (deflayer nav _ _ x)").unwrap();
    let nav = layer(&l, "nav");
    assert_eq!(nav.parent, "default");
    assert_eq!(nav.keys[0], Some(Action::Tap(Key::A)));
    assert_eq!(nav.keys[1], Some(Action::Tap(Key::H)));
    assert_eq!(nav.keys[2], Some(Action::Tap(Key::X)));
}

#[test]
fn transparent_slot_reaches_the_source_row() {
    let l = small("(deflayer default a _ c) (deflayer nav _ _ x)").unwrap();
    assert_eq!(layer(&l, "nav").keys[1], Some(Action::Tap(Key::B)));
    assert_eq!(layer(&l, "default").keys[1], Some(Action::Tap(Key::B)));
    assert!(find_layer(&l.layers, "src").is_none());
}

#[test]
fn transparency_follows_the_declared_parent() {
    let l = small("(deflayer default a b c) (deflayer (one default) q _ _) (deflayer (two one) _ w _)")
        .unwrap();
    let two = layer(&l, "two");
    assert_eq!(two.keys[0], Some(Action::Tap(Key::Q)));
    assert_eq!(two.keys[1], Some(Action::Tap(Key::W)));
    assert_eq!(two.keys[2], Some(Action::Tap(Key::C)));
}

#[test]
fn transparent_stays_without_an_ancestor_binding() {
    let layers = vec![
        Layer {
            name: "a".to_string(),
            parent: "b".to_string(),
            keys: vec![Some(Action::Transparent), Some(Action::Tap(Key::A))],
            overrides: vec![],
            index: 0,
            keymap: Keymap::En,
        },
        Layer {
            name: "b".to_string(),
            parent: "a".to_string(),
            keys: vec![Some(Action::Transparent), Some(Action::Transparent)],
            overrides: vec![],
            index: 1,
            keymap: Keymap::En,
        },
    ];
    let out = resolve_transparency(&layers);
    assert_eq!(out[0].keys, vec![Some(Action::Transparent), Some(Action::Tap(Key::A))]);
    assert_eq!(out[1].keys, vec![Some(Action::Transparent), Some(Action::Tap(Key::A))]);
}

#[test]
fn alias_chain() {
    let l = small("(defalias x @y y (tap-hold a lctl)) (deflayer default @x b c)").unwrap();
    assert_eq!(layer(&l, "default").keys[0], Some(action("(tap-hold a lctl)")));
}

#[test]
fn alias_defined_after_its_use() {
    let l = small("(deflayer default @x b c) (defalias x q) (defalias x w)").unwrap();
    assert_eq!(layer(&l, "default").keys[0], Some(Action::Tap(Key::W)));
    assert_eq!(small("(deflayer default @x b c)").err(), Some(Error::MissingAlias));
    assert_eq!(
        small("(defalias x @y y @x) (deflayer default @x b c)").err(),
        Some(Error::AliasCycle)
    );
}

#[test]
fn unicode_cross_keymap() {
    let table = "(defunicode En # S-3)";
    let source = "(defsrc a b c) (deflayer default a b c) (deflayer (ru default) .# _ _) \
                  (defkeymap default En (multi lsft lalt) ru Ru (multi rsft lalt))";
    let l = Layout::from_str(source, &resources(table)).unwrap();
    assert_eq!(
        layer(&l, "ru").keys[0],
        Some(Action::Sequence(vec![
            action("(multi lsft lalt)"),
            action("S-3"),
            action("(multi rsft lalt)"),
        ]))
    );
    assert_eq!(layer(&l, "ru").keymap, Keymap::Ru);
    assert_eq!(layer(&l, "default").keymap, Keymap::En);
}

#[test]
fn unicode_of_the_own_keymap_is_direct() {
    let table = load_lang_chars("(defunicode en # S-3 lb S-9) (defunicode RU я z # S-4)").unwrap();
    let mut keymaps = Keymaps::new();
    assert_eq!(unicode('#', Keymap::En, &keymaps, &table), action("S-3"));
    assert_eq!(unicode('#', Keymap::Ru, &keymaps, &table), action("S-4"));
    assert_eq!(unicode('(', Keymap::En, &keymaps, &table), action("S-9"));
    assert_eq!(unicode('я', Keymap::En, &keymaps, &table), Action::Unicode('я'));
    keymaps.insert(Keymap::En, action("f13"));
    assert_eq!(unicode('я', Keymap::En, &keymaps, &table), Action::Unicode('я'));
    keymaps.insert(Keymap::Ru, action("f14"));
    assert_eq!(
        unicode('я', Keymap::En, &keymaps, &table),
        Action::Sequence(vec![action("f14"), action("z"), action("f13")])
    );
    assert_eq!(unicode('ж', Keymap::En, &keymaps, &table), Action::Unicode('ж'));
    assert_eq!(
        resolve_unicode(&action("(multi a (tap-hold .я .#))"), Keymap::En, &keymaps, &table),
        Action::Multi(vec![
            action("a"),
            Action::TapHold(
                Box::new(Action::Sequence(vec![action("f14"), action("z"), action("f13")])),
                Box::new(action("S-3"))
            )
        ])
    );
}

#[test]
fn unicode_table_errors() {
    assert_eq!(load_lang_chars("(defunicode xx a b)").err(), Some(Error::UnknownKeymap));
    assert_eq!(load_lang_chars("(defother en a b)").err(), Some(Error::UnexpectedForm));
    assert_eq!(load_lang_chars("(defunicode en a)").err(), Some(Error::Shape));
    assert_eq!(load_lang_chars("(defunicode en (a) b)").err(), Some(Error::Shape));
    assert_eq!(load_lang_chars("(defunicode)").err(), Some(Error::Shape));
    assert_eq!(load_lang_chars("atom").err(), Some(Error::Shape));
    assert_eq!(load_lang_chars("(defunicode en a (nothing))").err(), Some(Error::UnknownAction));
    assert_eq!(load_lang_chars("(defunicode en a b").err(), Some(Error::Reader));
    let replaced = load_lang_chars("(defunicode en a b) (defunicode en c d)").unwrap();
    assert_eq!(replaced.en, vec![('c', action("d"))]);
    assert!(replaced.ru.is_empty());
}

#[test]
fn cycle() {
    let source = "(defsrc a b c) \
                  (deflayer default (layer-while-held nav) b c) \
                  (deflayer nav (layer-while-held default) b c) \
                  (defvial (a 0 0) (b 0 1) (c 0 2))";
    let l = layout(source).unwrap();
    assert_eq!(l.layers.len(), 2);
    assert_eq!(l.vial().err(), Some(Error::CycleDetected));
    assert_eq!(l.sorted_layers().err(), Some(Error::CycleDetected));
}

#[test]
fn keymap_copies_of_held_layers() {
    let table = "(defunicode En # S-3)";
    let source = "(defsrc a b c) \
                  (deflayer default a b (layer-while-held sym)) \
                  (deflayer (ru default) q w (layer-while-held sym)) \
                  (deflayer (sym default) .# (layer-while-held sym) _) \
                  (defkeymap default En f13 ru Ru f14)";
    let l = Layout::from_str(source, &resources(table)).unwrap();
    let names: Vec<&str> = l.layers.iter().map(|x| x.name.as_str()).collect();
    assert_eq!(names, vec!["default", "ru", "sym", "sym-ru"]);
    let copy = layer(&l, "sym-ru");
    assert_eq!(copy.keymap, Keymap::Ru);
    assert_eq!(copy.index, layer(&l, "sym").index + 1);
    assert_eq!(copy.parent, "default");
    assert_eq!(
        copy.keys[0],
        Some(Action::Sequence(vec![action("f13"), action("S-3"), action("f14")]))
    );
    assert_eq!(copy.keys[1], Some(Action::LayerWhileHeld("sym-ru".to_string())));
    assert_eq!(layer(&l, "sym").keys[0], Some(action("S-3")));
    assert_eq!(layer(&l, "ru").keys[2], Some(Action::LayerWhileHeld("sym-ru".to_string())));
    assert_eq!(layer(&l, "default").keys[2], Some(Action::LayerWhileHeld("sym".to_string())));
}

#[test]
fn no_copy_without_unicode_or_for_en() {
    let plain = |name: &str, keymap: Keymap, key: Action| Layer {
        name: name.to_string(),
        parent: "".to_string(),
        keys: vec![Some(key)],
        overrides: vec![],
        index: 0,
        keymap,
    };
    let held = |n: &str| Action::LayerWhileHeld(n.to_string());
    let mut same = vec![plain("a", Keymap::Ru, held("b")), plain("b", Keymap::Ru, Action::Unicode('x'))];
    duplicate_layers(&mut same);
    assert_eq!(same.len(), 2);
    let mut en = vec![plain("a", Keymap::En, held("b")), plain("b", Keymap::Ru, Action::Unicode('x'))];
    duplicate_layers(&mut en);
    assert_eq!(en.len(), 2);
    let mut none = vec![plain("a", Keymap::Ru, held("b")), plain("b", Keymap::En, action("q"))];
    duplicate_layers(&mut none);
    assert_eq!(none.len(), 2);
    let mut copy = vec![plain("a", Keymap::Ru, held("B")), plain("B", Keymap::En, Action::Unicode('x'))];
    duplicate_layers(&mut copy);
    assert_eq!(copy.len(), 3);
    assert_eq!(copy[2].name, "b-ru");
    assert_eq!(copy[2].index, 1);
    assert_eq!(copy[0].keys[0], Some(held("b-ru")));
}

#[test]
fn keymap_names_in_any_case() {
    assert_eq!(Keymap::from_str("RU"), Ok(Keymap::Ru));
    assert_eq!(Keymap::from_str("ru"), Ok(Keymap::Ru));
    assert_eq!(Keymap::from_str("En"), Ok(Keymap::En));
    assert_eq!(Keymap::from_str("de"), Err(Error::UnknownKeymap));
    assert_eq!(Keymap::from_lower("RU"), Err(Error::UnknownKeymap));
    assert_eq!(Keymap::default(), Keymap::En);
    assert_eq!(Keymap::Ru.name(), "Ru");
}

#[test]
fn layer_heads() {
    let head = |s: &str| Layer::get_name(&exprs(s)).map(|(n, p, r)| (n, p, r.len()));
    assert_eq!(head("default a b"), Ok(("default".to_string(), "src".to_string(), 2)));
    assert_eq!(head("nav a b"), Ok(("nav".to_string(), "default".to_string(), 2)));
    assert_eq!(head("(nav sym) a"), Ok(("nav".to_string(), "sym".to_string(), 1)));
    assert_eq!(head("nav (a b c)"), Ok(("nav".to_string(), "default".to_string(), 3)));
    assert_eq!(head("nav (a b) c"), Ok(("nav".to_string(), "default".to_string(), 2)));
    assert_eq!(head("nav"), Ok(("nav".to_string(), "default".to_string(), 0)));
    assert_eq!(head("src a"), Err(Error::ReservedLayer));
    assert_eq!(head(""), Err(Error::Shape));
    assert_eq!(head("(nav) a"), Err(Error::Shape));
    assert_eq!(head("(nav (x)) a"), Err(Error::Shape));
}

#[test]
fn layers_from_definitions() {
    let l = Layer::from_def(&exprs("nav a (tap-hold b lctl) _"), 7).unwrap();
    assert_eq!(l.name, "nav");
    assert_eq!(l.index, 7);
    assert_eq!(l.keymap, Keymap::En);
    assert_eq!(
        l.keys,
        vec![Some(action("a")), Some(action("(tap-hold b lctl)")), Some(Action::Transparent)]
    );
    assert_eq!(Layer::from_def(&exprs("nav a zzz"), 0).err(), Some(Error::UnknownKey));
    assert_eq!(Layer::from_def(&exprs("src a"), 0).err(), Some(Error::ReservedLayer));
    let many = format!("nav {}", "a ".repeat(257));
    assert_eq!(Layer::from_def(&exprs(&many), 0).err(), Some(Error::TooManyKeys));
    let source = vec![Key::A, Key::B, Key::C];
    let m = Layer::from_map(&exprs("nav c x a y c z"), &source).unwrap();
    assert_eq!(m.keys, vec![Some(action("y")), None, Some(action("z"))]);
    assert_eq!(m.index, 0);
    assert_eq!(Layer::from_map(&exprs("nav c"), &source).err(), Some(Error::Shape));
    assert_eq!(Layer::from_map(&exprs("nav (c) x"), &source).err(), Some(Error::Shape));
    assert_eq!(Layer::from_map(&exprs("nav zzz x"), &source).err(), Some(Error::UnknownKey));
    assert_eq!(Layer::from_map(&exprs("nav d x"), &source).err(), Some(Error::MissingKey));
    assert_eq!(Layer::from_map(&exprs("nav a zzz"), &source).err(), Some(Error::UnknownKey));
}

#[test]
fn children_and_the_source_layer() {
    let src = Layer::from_keyboard(&vec![Key::Q, Key::W]);
    assert_eq!(src.name, "src");
    assert_eq!(src.parent, "");
    assert_eq!(src.keys, vec![Some(Action::Tap(Key::Q)), Some(Action::Tap(Key::W))]);
    let child = src.child("nav".to_string(), 4);
    assert_eq!(child.name, "nav");
    assert_eq!(child.parent, "src");
    assert_eq!(child.index, 4);
    assert_eq!(child.keys, src.keys);
}

#[test]
fn dependencies_of_a_layer() {
    let l = Layer::from_def(
        &exprs("nav (layer-while-held sym) (tap-hold a (layer-while-held nav)) (multi (layer-while-held fun) (layer-while-held sym)) (layer-switch other)"),
        0,
    )
    .unwrap();
    assert_eq!(l.get_dependencies(), vec!["sym", "fun"]);
}

#[test]
fn layer_maps_extend_layers() {
    let l = small("(deflayer default a b c) (deflayermap nav b x) (deflayermap nav c y) (deflayermap default a q)")
        .unwrap();
    let nav = layer(&l, "nav");
    assert_eq!(nav.keys, vec![Some(action("a")), Some(action("x")), Some(action("y"))]);
    assert_eq!(nav.parent, "default");
    assert_eq!(nav.index, 2);
    assert_eq!(layer(&l, "default").keys[0], Some(action("q")));
    let from_src = small("(deflayermap (sym nowhere) b x)").unwrap();
    assert_eq!(layer(&from_src, "sym").parent, "src");
    assert_eq!(layer(&from_src, "sym").keys, vec![Some(action("a")), Some(action("x")), Some(action("c"))]);
    assert_eq!(layout("(deflayermap nav b x)").err(), Some(Error::MissingKey));
}

#[test]
fn overrides_of_a_layer() {
    let l = small("(deflayer default a b c) (defoverride default S-a b C-S-b (tap-hold c lctl))").unwrap();
    let os = &layer(&l, "default").overrides;
    assert_eq!(os.len(), 2);
    assert_eq!(os[0].key, Key::A);
    assert_eq!(os[0].mods, vec![Key::LeftShift]);
    assert_eq!(os[0].action, action("b"));
    assert_eq!(os[1].mods, vec![Key::LeftCtrl, Key::LeftShift]);
    assert_eq!(small("(defoverride default a b)").err(), Some(Error::OverrideShape));
    assert_eq!(small("(defoverride default b-a b)").err(), Some(Error::OverrideShape));
    assert_eq!(small("(defoverride default S-q b)").err(), Some(Error::MissingKey));
    assert_eq!(small("(defoverride default S-a)").err(), Some(Error::Shape));
    assert_eq!(small("(defoverride default S-zzz a)").err(), Some(Error::UnknownKey));
    assert_eq!(layout("(defoverride default S-a b)").err(), Some(Error::MissingLayer));
}

#[test]
fn form_errors() {
    assert_eq!(layout("(defsrc a a)").err(), Some(Error::DuplicateKey));
    assert_eq!(layout("(defsrc a (b))").err(), Some(Error::Shape));
    assert_eq!(layout("(defsrc a b) (defsrc a b c)").err(), Some(Error::WrongKeyCount));
    assert_eq!(small("(deflayer default a b)").err(), Some(Error::WrongKeyCount));
    assert_eq!(
        small("(deflayer nav a b c) (deflayer nav a b c)").err(),
        Some(Error::DuplicateLayer)
    );
    assert_eq!(
        small("(deflayermap nav a b) (deflayer nav a b c)").err(),
        Some(Error::DuplicateLayer)
    );
    assert_eq!(small("(unknown a)").err(), Some(Error::UnexpectedForm));
    assert_eq!(small("(keyboard nothing)").err(), Some(Error::UnknownKeyboard));
    assert_eq!(small("(keyboard a b)").err(), Some(Error::Shape));
    assert_eq!(small("(defalias x)").err(), Some(Error::Shape));
    assert_eq!(small("(defkeymap default En)").err(), Some(Error::Shape));
    assert_eq!(small("(defkeymap nowhere En a)").err(), Some(Error::MissingLayer));
    assert_eq!(small("(deflayer default a b c) (defkeymap default xx a)").err(), Some(Error::UnknownKeymap));
    assert_eq!(small("(a").err(), Some(Error::Reader));
    assert_eq!(small("atom").err(), Some(Error::Shape));
    assert_eq!(small("(defvial (a 0))").err(), Some(Error::Shape));
    assert_eq!(small("(defvial (a 0 x))").err(), Some(Error::BadNumber));
    assert_eq!(small("(defvial (a 0 1) (a 0 2))").err(), Some(Error::DuplicateKey));
    assert_eq!(
        Layout::from_str("(defsrc a b) (deflayer default .x b)", &resources("(broken")).err(),
        Some(Error::Reader)
    );
    assert_eq!(
        Layout::from_str("(defsrc a b) (defalias u .x)", &resources("(defother)")).err(),
        Some(Error::UnexpectedForm)
    );
    assert!(Layout::from_str("(defsrc a b) (deflayer default a b)", &resources("(broken")).is_ok());
}

#[test]
fn layers_by_name() {
    let mut layers = vec![Layer::from_keyboard(&vec![Key::A])];
    insert_layer(&mut layers, Layer::from_keyboard(&vec![Key::B]));
    assert_eq!(layers.len(), 1);
    assert_eq!(layers[0].keys, vec![Some(Action::Tap(Key::B))]);
    let child = layers[0].child("x".to_string(), 1);
    insert_layer(&mut layers, child);
    assert_eq!(layers.len(), 2);
    remove_layer(&mut layers, "src");
    assert_eq!(layers.len(), 1);
    assert_eq!(layers[0].name, "x");
    remove_layer(&mut layers, "src");
    assert_eq!(layers.len(), 1);
}

#[test]
fn keyboard_descriptor() {
    let k = parse(&descriptor()).unwrap();
    assert_eq!(k.meta, "name: imperial44");
    assert_eq!(k.source.len(), 44);
    assert_eq!(k.source[0], Key::A);
    assert_eq!(k.vial.get(Key::A), Some(VialItem::KeyCode(0, 0)));
    assert_eq!(k.vial.get(Key::N), Some(VialItem::KeyCode(1, 1)));
    assert_eq!(k.vial.get(Key::F1), None);
    assert_eq!(k.vial.len(), 44);
    assert_eq!(k.matrix.0.len(), 2);
    assert_eq!(k.matrix.0[1].key, Key::B);
    assert_eq!(k.matrix.0[1].measures, vec!["1", "0", "1", "1", "0", "0", "0"]);
    let bare = parse("(defsrc a b)").unwrap();
    assert_eq!(bare.meta, "");
    assert_eq!(bare.source, vec![Key::A, Key::B]);
    assert_eq!(parse("notes --- (defsrc a)").unwrap().meta, "notes");
    assert_eq!(parse("  \n--- \n\t(defsrc a)  ").unwrap().meta, "");
    assert_eq!(parse("(defother a)").err(), Some(Error::UnexpectedForm));
    assert_eq!(parse("(defmatrix (a 1 2))").err(), Some(Error::Shape));
    assert_eq!(parse("(defmatrix (zzz 1 2 3 4))").err(), Some(Error::UnknownKey));
    assert_eq!(parse("defsrc").err(), Some(Error::Shape));
    assert_eq!(parse("(defsrc a").err(), Some(Error::Reader));
}

#[test]
fn source_rows_and_vial_tables() {
    assert_eq!(parse_keymap(&exprs("a b KeyC")), Ok(vec![Key::A, Key::B, Key::C]));
    assert_eq!(parse_keymap(&exprs("a b a")), Err(Error::DuplicateKey));
    assert_eq!(parse_keymap(&exprs("a zzz")), Err(Error::UnknownKey));
    let many: Vec<String> = (0..=256).map(|i| format!("fn{}", i % 256)).collect();
    assert_eq!(parse_keymap(&exprs(&many[..256].join(" "))).map(|k| k.len()), Ok(256));
    let more: Vec<String> = (0..257).map(|i| if i < 256 { format!("fn{}", i) } else { "a".to_string() }).collect();
    assert_eq!(parse_keymap(&exprs(&more.join(" "))), Err(Error::TooManyKeys));
    let t = parse_vial(&exprs("(a 1 2) (b 3 4 e) (c 5 6 k) (d (x) 7 8)")).unwrap();
    assert_eq!(t.get(Key::A), Some(VialItem::KeyCode(1, 2)));
    assert_eq!(t.get(Key::B), Some(VialItem::Encoder(3, 4)));
    assert_eq!(t.get(Key::C), Some(VialItem::KeyCode(5, 6)));
    assert_eq!(t.get(Key::D), Some(VialItem::KeyCode(7, 8)));
    assert_eq!(parse_vial(&exprs("a")).err(), Some(Error::Shape));
    assert_eq!(parse_vial(&exprs("()")).err(), Some(Error::Shape));
    assert_eq!(parse_vial(&exprs("(a 1 256)")).err(), Some(Error::BadNumber));
    assert_eq!(parse_vial(&exprs("(zzz 1 2)")).err(), Some(Error::UnknownKey));
}

#[test]
fn no_unicode_is_left_where_the_table_types_it() {
    let table = "(defunicode En # S-3 $ S-4) (defunicode Ru я z)";
    let source = "(defsrc a b c) (deflayer default .я .# (tap-hold .$ (multi a .я))) \
                  (deflayer (ru default) .# .я (multi .$ b)) \
                  (defkeymap default En f13 ru Ru f14)";
    let l = Layout::from_str(source, &resources(table)).unwrap();
    for layer in &l.layers {
        for key in &layer.keys {
            assert!(!key.as_ref().unwrap().contains_unicode());
        }
    }
    let partial = "(defsrc a b c) (deflayer default .ж b c) (defkeymap default En f13)";
    let p = Layout::from_str(partial, &resources(table)).unwrap();
    assert_eq!(layer(&p, "default").keys[0], Some(Action::Unicode('ж')));
}

#[test]
fn no_transparent_slot_is_left_over_a_full_source_row() {
    let l = small(
        "(deflayer default _ b _) (deflayer (one default) _ _ _) (deflayer (two one) _ x _) \
         (deflayermap (three two) a _)",
    )
    .unwrap();
    for layer in &l.layers {
        for key in &layer.keys {
            assert_ne!(key, &Some(Action::Transparent));
        }
    }
    assert_eq!(layer(&l, "three").keys, vec![Some(action("a")), Some(action("x")), Some(action("c"))]);
}

#[test]
fn two_layers_share_the_copy_of_what_they_hold() {
    let table = "(defunicode En # S-3)";
    let source = "(defsrc a b c) \
                  (deflayer default a b c) \
                  (deflayer (one default) (layer-while-held sym) b c) \
                  (deflayer (two default) a (layer-while-held sym) c) \
                  (deflayer (sym default) .# b c) \
                  (defkeymap one Ru f14 two Ru f14 default En f13)";
    let l = Layout::from_str(source, &resources(table)).unwrap();
    let names: Vec<&str> = l.layers.iter().map(|x| x.name.as_str()).collect();
    assert_eq!(names, vec!["default", "one", "two", "sym", "sym-ru"]);
    assert_eq!(layer(&l, "one").keys[0], Some(Action::LayerWhileHeld("sym-ru".to_string())));
    assert_eq!(layer(&l, "two").keys[1], Some(Action::LayerWhileHeld("sym-ru".to_string())));
}

#[test]
fn walk_stops_where_the_parent_is_missing() {
    let layers = vec![Layer {
        name: "a".to_string(),
        parent: "nowhere".to_string(),
        keys: vec![Some(Action::Transparent)],
        overrides: vec![],
        index: 0,
        keymap: Keymap::En,
    }];
    assert_eq!(resolve_transparency(&layers)[0].keys, vec![Some(Action::Transparent)]);
}

#[test]
fn aliases_in_override_actions_are_resolved() {
    let l = small(
        "(defalias x @y y (multi lalt c)) (deflayer default a b c) (defoverride default S-a @x C-b (tap-hold @y a))",
    )
    .unwrap();
    let os = &layer(&l, "default").overrides;
    assert_eq!(os[0].action, action("(multi lalt c)"));
    assert_eq!(os[1].action, action("(tap-hold (multi lalt c) a)"));
    assert_eq!(
        small("(deflayer default a b c) (defoverride default S-a @nowhere)").err(),
        Some(Error::MissingAlias)
    );
    assert_eq!(
        small("(deflayer default @k b c) (defoverride default S-a @nowhere) (defalias k @k)").err(),
        Some(Error::AliasCycle)
    );
    assert!(l.kanata().unwrap().contains("(lsft a) (A-c) () ()"));
    let with_vial = small(
        "(defvial (a 0 0) (b 0 1) (c 0 2)) (defalias x c) (deflayer default a b c) (defoverride default S-a @x)",
    )
    .unwrap();
    let plan = with_vial.vial().unwrap();
    assert!(plan.skipped.is_empty());
    assert_eq!(plan.overrides.len(), 1);
    assert_eq!(plan.overrides[0].replacement.name(), "KC_C");
}
