//! The smallest layout: a keyboard and one layer that taps every key of its
//! source row.

use super::action::{action_of, actions_from, resolved, ActionV};
use super::assemble::{
    assembled, blank, descriptor, form_applied, layout_of, src_layer, Draft, LayoutV, ResourcesV,
};
use super::layer::{
    deps_of, header_of, own_taps_hold_nothing, row_slots, taps_own_keys, Header, Keymap, LayerV,
    OverrideV, MAX_KEYS,
};
use super::layers::{layer_at, layer_of, with_layer, with_layers, without_layer};
use super::prepare::{
    additions, additions_for, aliases_resolved, any_unicode_layer, any_unicode_slot, copies_for,
    duplicated, layer_resolved, unicode_used,
    overrides_resolved, prepared, slots_inherited, slots_resolved, transparency_resolved,
    unicode_layer, unicode_layers,
};
use super::preprocess::preprocessed;
use super::unicode::{unicode_resolved, KeymapsV, UnicodeTableV};
use crate::error::Error;
use crate::keys::Key;
use crate::parser::{keyboard_of, KeyboardV};
use crate::sexpr::{read, ExprV};
use vstd::prelude::*;

verus! {

/// The layer `default` that taps every key of a source row, defined by the
/// form at position `index`.
pub open spec fn default_layer(source: Seq<Key>, index: usize) -> LayerV {
    LayerV {
        name: "default"@,
        parent: "src"@,
        keys: Seq::new(source.len(), |i: int| Some(ActionV::Tap(source[i]))),
        overrides: Seq::empty(),
        index: index,
        keymap: Keymap::En,
    }
}

proof fn taps_resolve_to_themselves(
    keys: Seq<Option<ActionV>>,
    source: Seq<Key>,
    i: int,
    t: Seq<(Seq<char>, ActionV)>,
)
    requires
        0 <= i <= keys.len(),
        taps_own_keys(keys, source),
    ensures
        slots_resolved(keys, i, t) == Ok::<Seq<Option<ActionV>>, Error>(keys.skip(i)),
    decreases keys.len() - i,
{
    if i < keys.len() {
        taps_resolve_to_themselves(keys, source, i + 1, t);
        assert(keys[i] == Some(ActionV::Tap(source[i])));
        assert(seq![keys[i]] + keys.skip(i + 1) =~= keys.skip(i));
    } else {
        assert(keys.skip(i) =~= Seq::<Option<ActionV>>::empty());
    }
}

proof fn plain_layer_resolves_to_itself(l: LayerV, source: Seq<Key>, t: Seq<(Seq<char>, ActionV)>)
    requires
        taps_own_keys(l.keys, source),
        l.overrides.len() == 0,
    ensures
        layer_resolved(l, t) == Ok::<LayerV, Error>(l),
{
    taps_resolve_to_themselves(l.keys, source, 0, t);
    assert(l.keys.skip(0) =~= l.keys);
    assert(l.overrides =~= Seq::<OverrideV>::empty());
}

/// Preparing the layer `src` and one layer that taps every key of the
/// source row, without overrides, leaves that layer alone, as it is.
pub proof fn plain_layer_is_prepared(
    source: Seq<Key>,
    l: LayerV,
    aliases: Seq<(Seq<char>, ActionV)>,
    keymaps: KeymapsV,
    table: UnicodeTableV,
)
    requires
        taps_own_keys(l.keys, source),
        l.overrides.len() == 0,
        l.name != "src"@,
    ensures
        prepared(seq![src_layer(source), l], aliases, keymaps, table) == Ok::<Seq<LayerV>, Error>(
            seq![l],
        ),
{
    let s = src_layer(source);
    let layers = seq![s, l];
    plain_layer_resolves_to_itself(s, source, aliases);
    plain_layer_resolves_to_itself(l, source, aliases);
    assert(aliases_resolved(layers, 2, aliases) == Ok::<Seq<LayerV>, Error>(Seq::empty()));
    assert(aliases_resolved(layers, 1, aliases) == Ok::<Seq<LayerV>, Error>(
        seq![l] + Seq::empty(),
    ));
    assert(seq![s] + (seq![l] + Seq::<LayerV>::empty()) =~= layers);
    assert(aliases_resolved(layers, 0, aliases) == Ok::<Seq<LayerV>, Error>(layers));
    let solid = transparency_resolved(layers);
    assert(slots_inherited(layers, s) =~= s.keys);
    assert(slots_inherited(layers, l) =~= l.keys) by {
        assert forall|i: int| 0 <= i < l.keys.len() implies slots_inherited(layers, l)[i]
            == l.keys[i] by {
            assert(l.keys[i] == Some(ActionV::Tap(source[i])));
        }
    }
    assert(solid =~= layers);
    assert(layer_at(solid, "src"@, 0) == Some(0int));
    let rest = without_layer(solid, "src"@);
    assert(rest =~= seq![l]);
    own_taps_hold_nothing(l.keys, source, 0);
    assert(deps_of(l) == Seq::<Seq<char>>::empty());
    assert(copies_for(rest, l, deps_of(l), 0) == Seq::<LayerV>::empty());
    assert(additions_for(rest, l) == Seq::<LayerV>::empty());
    assert(additions(rest, 1) == Seq::<LayerV>::empty());
    assert(additions(rest, 0) =~= Seq::<LayerV>::empty());
    assert(duplicated(rest) == rest);
    let out = unicode_layers(rest, keymaps, table);
    assert(unicode_layer(l, keymaps, table).keys =~= l.keys) by {
        assert forall|i: int| 0 <= i < l.keys.len() implies unicode_layer(l, keymaps, table).keys[i]
            == l.keys[i] by {
            assert(l.keys[i] == Some(ActionV::Tap(source[i])));
        }
    }
    assert(unicode_layer(l, keymaps, table).overrides =~= l.overrides);
    assert(out =~= seq![l]);
}

proof fn plain_slots_use_no_unicode(keys: Seq<Option<ActionV>>, source: Seq<Key>, i: int)
    requires
        0 <= i,
        taps_own_keys(keys, source),
    ensures
        !any_unicode_slot(keys, i),
    decreases keys.len() - i,
{
    if i < keys.len() {
        plain_slots_use_no_unicode(keys, source, i + 1);
        assert(keys[i] == Some(ActionV::Tap(source[i])));
    }
}

proof fn atoms_are_taps(atoms: Seq<ExprV>, source: Seq<Key>, i: int)
    requires
        0 <= i <= atoms.len(),
        atoms.len() == source.len(),
        forall|k: int|
            0 <= k < atoms.len() ==> action_of(#[trigger] atoms[k]) == Ok::<ActionV, Error>(
                ActionV::Tap(source[k]),
            ),
    ensures
        actions_from(atoms, i) == Ok::<Seq<ActionV>, Error>(
            Seq::new((atoms.len() - i) as nat, |k: int| ActionV::Tap(source[i + k])),
        ),
    decreases atoms.len() - i,
{
    let want = Seq::new((atoms.len() - i) as nat, |k: int| ActionV::Tap(source[i + k]));
    if i < atoms.len() {
        atoms_are_taps(atoms, source, i + 1);
        let rest = Seq::new((atoms.len() - i - 1) as nat, |k: int| ActionV::Tap(source[i + 1 + k]));
        assert(seq![ActionV::Tap(source[i])] + rest =~= want);
    } else {
        assert(want =~= Seq::<ActionV>::empty());
    }
}

/// What the two forms of the smallest source assemble to: `(keyboard ID)`,
/// then `(deflayer default K ...)` with one atom for each key of the
/// keyboard's source row, each the name of that key.
pub proof fn minimal_forms_assemble(
    id: Seq<char>,
    text: Seq<char>,
    kb: KeyboardV,
    atoms: Seq<ExprV>,
    res: ResourcesV,
)
    requires
        descriptor(res.keyboards, id, 0) == Some(text),
        keyboard_of(text) == Ok::<KeyboardV, Error>(kb),
        atoms.len() == kb.source.len(),
        atoms.len() <= MAX_KEYS,
        forall|k: int| 0 <= k < atoms.len() ==> (#[trigger] atoms[k]) is Atom,
        forall|k: int|
            0 <= k < atoms.len() ==> action_of(#[trigger] atoms[k]) == Ok::<ActionV, Error>(
                ActionV::Tap(kb.source[k]),
            ),
    ensures
        assembled(
            seq![
                ExprV::List(seq![ExprV::Atom("keyboard"@), ExprV::Atom(id)]),
                ExprV::List(seq![ExprV::Atom("deflayer"@), ExprV::Atom("default"@)] + atoms),
            ],
            0,
            blank(),
            res,
        ) == Ok::<Draft, Error>(
            Draft {
                layout: LayoutV {
                    layers: seq![src_layer(kb.source), default_layer(kb.source, 1)],
                    keyboard: kb,
                    keymaps: blank().layout.keymaps,
                },
                aliases: Seq::empty(),
            },
        ),
{
    reveal_strlit("keyboard");
    reveal_strlit("defsrc");
    reveal_strlit("deflayer");
    reveal_strlit("default");
    reveal_strlit("src");
    let first = seq![ExprV::Atom("keyboard"@), ExprV::Atom(id)];
    let second = seq![ExprV::Atom("deflayer"@), ExprV::Atom("default"@)] + atoms;
    let forms = seq![ExprV::List(first), ExprV::List(second)];
    assert("keyboard"@ != "defsrc"@) by {
        assert("keyboard"@.len() != "defsrc"@.len());
    }
    assert("deflayer"@ != "defsrc"@) by {
        assert("deflayer"@.len() != "defsrc"@.len());
    }
    assert("deflayer"@ != "keyboard"@) by {
        assert("deflayer"@[0] != "keyboard"@[0]);
    }
    assert("default"@ != "src"@) by {
        assert("default"@.len() != "src"@.len());
    }
    let p1 = first.drop_first();
    assert(p1 =~= seq![ExprV::Atom(id)]);
    let s = src_layer(kb.source);
    let l0 = blank().layout.layers;
    assert(layer_at(l0, s.name, 0).is_none());
    assert(with_layer(l0, s) =~= seq![s]);
    let d1 = Draft {
        layout: LayoutV { layers: seq![s], keyboard: kb, keymaps: blank().layout.keymaps },
        aliases: Seq::empty(),
    };
    assert(form_applied("keyboard"@, p1, 0, blank(), res) == Ok::<Draft, Error>(d1));
    let p2 = second.drop_first();
    assert(p2 =~= seq![ExprV::Atom("default"@)] + atoms);
    assert(p2.drop_first() =~= atoms);
    assert(p2[0] == ExprV::Atom("default"@));
    if atoms.len() == 1 {
        assert(atoms[0] is Atom);
    }
    assert(header_of(p2) == Ok::<Header, Error>(
        Header { name: "default"@, parent: "src"@, rest: atoms },
    ));
    atoms_are_taps(atoms, kb.source, 0);
    let actions = Seq::new(atoms.len(), |k: int| ActionV::Tap(kb.source[0 + k]));
    let d = default_layer(kb.source, 1);
    assert(Seq::new(actions.len(), |i: int| Some(actions[i])) =~= d.keys);
    assert(row_slots(atoms) == Ok::<Seq<Option<ActionV>>, Error>(d.keys));
    assert(layer_at(seq![s], "default"@, 1).is_none());
    assert(layer_at(seq![s], "default"@, 0).is_none());
    assert(layer_of(seq![s], "default"@).is_none());
    assert(with_layer(seq![s], d) =~= seq![s, d]);
    let d2 = Draft {
        layout: LayoutV { layers: seq![s, d], keyboard: kb, keymaps: blank().layout.keymaps },
        aliases: Seq::empty(),
    };
    assert(form_applied("deflayer"@, p2, 1, d1, res) == Ok::<Draft, Error>(d2));
    assert(assembled(forms, 2, d2, res) == Ok::<Draft, Error>(d2));
    assert(second[0] == ExprV::Atom("deflayer"@));
    assert(assembled(forms, 1, d1, res) == Ok::<Draft, Error>(d2));
    assert(assembled(forms, 0, blank(), res) == Ok::<Draft, Error>(d2));
}

/// The smallest layout: a source that preprocesses to `(keyboard ID)` and
/// `(deflayer default K ...)`, with one atom for each key of the keyboard's
/// source row, each the name of that key, gives one layer, `default`, with
/// the parent `src`, in which every slot taps its own key.
pub proof fn minimal_layer(
    content: Seq<char>,
    res: ResourcesV,
    e: ExprV,
    id: Seq<char>,
    text: Seq<char>,
    kb: KeyboardV,
    atoms: Seq<ExprV>,
)
    requires
        read(seq!['('] + content + seq![')']) == Some(e),
        preprocessed(e) == Ok::<ExprV, Error>(
            ExprV::List(
                seq![
                    ExprV::List(seq![ExprV::Atom("keyboard"@), ExprV::Atom(id)]),
                    ExprV::List(seq![ExprV::Atom("deflayer"@), ExprV::Atom("default"@)] + atoms),
                ],
            ),
        ),
        descriptor(res.keyboards, id, 0) == Some(text),
        keyboard_of(text) == Ok::<KeyboardV, Error>(kb),
        atoms.len() == kb.source.len(),
        atoms.len() <= MAX_KEYS,
        forall|k: int| 0 <= k < atoms.len() ==> (#[trigger] atoms[k]) is Atom,
        forall|k: int|
            0 <= k < atoms.len() ==> action_of(#[trigger] atoms[k]) == Ok::<ActionV, Error>(
                ActionV::Tap(kb.source[k]),
            ),
    ensures
        layout_of(content, res) == Ok::<LayoutV, Error>(
            LayoutV {
                layers: seq![default_layer(kb.source, 1)],
                keyboard: kb,
                keymaps: blank().layout.keymaps,
            },
        ),
{
    reveal_strlit("default");
    reveal_strlit("src");
    minimal_forms_assemble(id, text, kb, atoms, res);
    let d = default_layer(kb.source, 1);
    assert("default"@ != "src"@) by {
        assert("default"@.len() != "src"@.len());
    }
    let layers = seq![src_layer(kb.source), d];
    plain_slots_use_no_unicode(src_layer(kb.source).keys, kb.source, 0);
    plain_slots_use_no_unicode(d.keys, kb.source, 0);
    assert(!any_unicode_layer(layers, 2));
    assert(!any_unicode_layer(layers, 1));
    assert(!any_unicode_layer(layers, 0));
    assert(!unicode_used(layers, Seq::empty()));
    plain_layer_is_prepared(
        kb.source,
        d,
        Seq::empty(),
        blank().layout.keymaps,
        UnicodeTableV { en: Seq::empty(), ru: Seq::empty() },
    );
}

} // verus!
