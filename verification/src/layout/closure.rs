//! What preparing guarantees of the actions: no alias is left in them, no
//! `Unicode` that the table can type, and no `Transparent` but what the
//! transparency walk left.

use super::action::{
    any_alias, any_alias_cons, has_alias, rehold, rehold_all, ActionV,
};
use super::layer::{deps_of, slot, Keymap, LayerV};
use super::layers::{layer_at, layer_at_first, layer_of, with_layer, with_layers, without_layer};
use super::prepare::{
    additions, additions_for, aliases_resolved, aliases_resolved_alias_free, copies_for, copy_of,
    duplicated, inherited, layer_alias_free, overrides_alias_free, prepared, renames_for,
    slots_alias_free, slots_inherited,
    slots_reheld, transparency_resolved, unicode_layer, unicode_layers, wants_copy,
};
use super::unicode::{
    resolved_char, typed, typed_is_an_entry, unicode_resolved, unicode_resolved_all, KeymapsV,
    UnicodeTableV,
};
use vstd::prelude::*;

verus! {

/// Whether no alias stands in an action of a layer of a row: in a slot, or
/// in an override.
pub open spec fn layers_alias_free(layers: Seq<LayerV>) -> bool {
    forall|j: int| 0 <= j < layers.len() ==> layer_alias_free(#[trigger] layers[j])
}

/// Whether no alias stands in an action of a row of characters.
pub open spec fn chars_alias_free(chars: Seq<(char, ActionV)>) -> bool {
    forall|k: int| 0 <= k < chars.len() ==> !has_alias((#[trigger] chars[k]).1)
}

/// Whether no alias stands in a switch or in the table.
pub open spec fn unicode_alias_free(keymaps: KeymapsV, table: UnicodeTableV) -> bool {
    &&& match keymaps.en {
        Some(a) => !has_alias(a),
        None => true,
    }
    &&& match keymaps.ru {
        Some(a) => !has_alias(a),
        None => true,
    }
    &&& chars_alias_free(table.en)
    &&& chars_alias_free(table.ru)
}

/// A layer that is found by its name is a layer of the row.
pub proof fn layer_of_is_a_layer(layers: Seq<LayerV>, name: Seq<char>)
    ensures
        match layer_of(layers, name) {
            Some(l) => exists|p: int| 0 <= p < layers.len() && layers[p] == l,
            None => true,
        },
{
    layer_at_first(layers, name, 0);
}

proof fn inherited_alias_free(layers: Seq<LayerV>, name: Seq<char>, i: int, fuel: nat)
    requires
        layers_alias_free(layers),
    ensures
        match inherited(layers, name, i, fuel) {
            Some(a) => !has_alias(a),
            None => true,
        },
    decreases fuel,
{
    if fuel > 0 {
        layer_of_is_a_layer(layers, name);
        match layer_of(layers, name) {
            None => {},
            Some(p) => {
                let q = choose|q: int| 0 <= q < layers.len() && layers[q] == p;
                assert(layer_alias_free(layers[q]));
                inherited_alias_free(layers, p.parent, i, (fuel - 1) as nat);
                match slot(p.keys, i) {
                    Some(a) => {
                        assert(p.keys[i] == Some(a));
                    },
                    None => {},
                }
            },
        }
    }
}

proof fn transparency_alias_free(layers: Seq<LayerV>)
    requires
        layers_alias_free(layers),
    ensures
        layers_alias_free(transparency_resolved(layers)),
{
    let out = transparency_resolved(layers);
    assert forall|j: int| 0 <= j < out.len() implies layer_alias_free(#[trigger] out[j]) by {
        let keys = out[j].keys;
        assert(layer_alias_free(layers[j]));
        assert forall|i: int| 0 <= i < keys.len() implies match #[trigger] keys[i] {
            Some(a) => !has_alias(a),
            None => true,
        } by {
            inherited_alias_free(layers, layers[j].parent, i, layers.len());
            assert(keys[i] == slots_inherited(layers, layers[j])[i]);
            match layers[j].keys[i] {
                Some(a) => {},
                None => {},
            }
        }
    }
}

proof fn without_alias_free(layers: Seq<LayerV>, name: Seq<char>)
    requires
        layers_alias_free(layers),
    ensures
        layers_alias_free(without_layer(layers, name)),
{
    layer_at_first(layers, name, 0);
    let out = without_layer(layers, name);
    match layer_at(layers, name, 0) {
        Some(p) => {
            assert forall|j: int| 0 <= j < out.len() implies layer_alias_free(#[trigger] out[j]) by {
                let a = if j < p {
                    j
                } else {
                    j + 1
                };
                assert(out[j] == layers[a]);
            }
        },
        None => {},
    }
}

/// Renaming held layers brings no alias in.
pub proof fn rehold_alias_free(a: ActionV, r: Seq<(Seq<char>, Seq<char>)>)
    ensures
        has_alias(rehold(a, r)) == has_alias(a),
    decreases a, 0int,
{
    match a {
        ActionV::TapHold(tap, hold) => {
            rehold_alias_free(*tap, r);
            rehold_alias_free(*hold, r);
        },
        ActionV::Multi(v) => {
            rehold_row_alias_free(v, r);
        },
        ActionV::Sequence(v) => {
            rehold_row_alias_free(v, r);
        },
        _ => {},
    }
}

proof fn rehold_row_alias_free(v: Seq<ActionV>, r: Seq<(Seq<char>, Seq<char>)>)
    ensures
        any_alias(rehold_all(v, r), 0) == any_alias(v, 0),
    decreases v, 1int,
{
    if v.len() > 0 {
        rehold_alias_free(v[0], r);
        rehold_row_alias_free(v.drop_first(), r);
        any_alias_cons(rehold(v[0], r), rehold_all(v.drop_first(), r), 0);
        any_alias_cons(v[0], v.drop_first(), 0);
        assert(seq![v[0]] + v.drop_first() =~= v);
    }
}

proof fn reheld_slots_alias_free(keys: Seq<Option<ActionV>>, r: Seq<(Seq<char>, Seq<char>)>)
    requires
        slots_alias_free(keys),
    ensures
        slots_alias_free(slots_reheld(keys, r)),
{
    let out = slots_reheld(keys, r);
    assert forall|i: int| 0 <= i < out.len() implies match #[trigger] out[i] {
        Some(a) => !has_alias(a),
        None => true,
    } by {
        match keys[i] {
            Some(a) => {
                rehold_alias_free(a, r);
            },
            None => {},
        }
    }
}

proof fn copies_alias_free(layers: Seq<LayerV>, l: LayerV, deps: Seq<Seq<char>>, k: int)
    requires
        0 <= k,
        layers_alias_free(layers),
    ensures
        layers_alias_free(copies_for(layers, l, deps, k)),
    decreases deps.len() - k,
{
    if k < deps.len() {
        copies_alias_free(layers, l, deps, k + 1);
        let rest = copies_for(layers, l, deps, k + 1);
        if wants_copy(layers, l, deps[k]) {
            layer_of_is_a_layer(layers, deps[k]);
            let d = layer_of(layers, deps[k])->0;
            let q = choose|q: int| 0 <= q < layers.len() && layers[q] == d;
            assert(layer_alias_free(layers[q]));
            let c = copy_of(d, l.keymap);
            reheld_slots_alias_free(d.keys, seq![(d.name, super::prepare::copy_name(d.name, l.keymap))]);
            let out = seq![c] + rest;
            assert forall|j: int| 0 <= j < out.len() implies layer_alias_free(#[trigger] out[j]) by {
                if j > 0 {
                    assert(out[j] == rest[j - 1]);
                }
            }
        }
    }
}

proof fn additions_alias_free(layers: Seq<LayerV>, j: int)
    requires
        0 <= j,
        layers_alias_free(layers),
    ensures
        layers_alias_free(additions(layers, j)),
    decreases layers.len() - j,
{
    if j < layers.len() {
        additions_alias_free(layers, j + 1);
        let l = layers[j];
        assert(layer_alias_free(l));
        let copies = copies_for(layers, l, deps_of(l), 0);
        copies_alias_free(layers, l, deps_of(l), 0);
        let own = additions_for(layers, l);
        if copies.len() > 0 {
            reheld_slots_alias_free(l.keys, renames_for(layers, l, deps_of(l), 0));
            assert forall|k: int| 0 <= k < own.len() implies layer_alias_free(#[trigger] own[k]) by {
                if k < copies.len() {
                    assert(own[k] == copies[k]);
                }
            }
        }
        let rest = additions(layers, j + 1);
        let out = own + rest;
        assert forall|k: int| 0 <= k < out.len() implies layer_alias_free(#[trigger] out[k]) by {
            if k < own.len() {
                assert(out[k] == own[k]);
            } else {
                assert(out[k] == rest[k - own.len()]);
            }
        }
    }
}

proof fn with_layer_alias_free(layers: Seq<LayerV>, l: LayerV)
    requires
        layers_alias_free(layers),
        layer_alias_free(l),
    ensures
        layers_alias_free(with_layer(layers, l)),
{
    layer_at_first(layers, l.name, 0);
    let out = with_layer(layers, l);
    assert forall|j: int| 0 <= j < out.len() implies layer_alias_free(#[trigger] out[j]) by {
        match layer_at(layers, l.name, 0) {
            Some(p) => {
                if j != p {
                    assert(out[j] == layers[j]);
                }
            },
            None => {
                if j < layers.len() {
                    assert(out[j] == layers[j]);
                }
            },
        }
    }
}

proof fn with_layers_alias_free(layers: Seq<LayerV>, more: Seq<LayerV>, i: int)
    requires
        0 <= i,
        layers_alias_free(layers),
        layers_alias_free(more),
    ensures
        layers_alias_free(with_layers(layers, more, i)),
    decreases more.len() - i,
{
    if i < more.len() {
        assert(layer_alias_free(more[i]));
        with_layer_alias_free(layers, more[i]);
        with_layers_alias_free(with_layer(layers, more[i]), more, i + 1);
    }
}

proof fn resolved_char_alias_free(c: char, lang: Keymap, keymaps: KeymapsV, table: UnicodeTableV)
    requires
        unicode_alias_free(keymaps, table),
    ensures
        !has_alias(resolved_char(c, lang, keymaps, table)),
{
    typed_is_an_entry(table.en, c);
    typed_is_an_entry(table.ru, c);
    let r = resolved_char(c, lang, keymaps, table);
    match r {
        ActionV::Sequence(v) => {
            if typed(table.of(lang), c).is_none() {
                assert(v.len() == 3);
                assert(!has_alias(v[0]));
                assert(!has_alias(v[1]));
                assert(!has_alias(v[2]));
                assert(!any_alias(v, 3));
                assert(!any_alias(v, 2));
                assert(!any_alias(v, 1));
                assert(!any_alias(v, 0));
            }
        },
        _ => {},
    }
}

/// Resolving Unicode brings no alias in, where none stands in a switch or in
/// the table.
pub proof fn unicode_resolved_alias_free(
    a: ActionV,
    lang: Keymap,
    keymaps: KeymapsV,
    table: UnicodeTableV,
)
    requires
        unicode_alias_free(keymaps, table),
        !has_alias(a),
    ensures
        !has_alias(unicode_resolved(a, lang, keymaps, table)),
    decreases a, 0int,
{
    match a {
        ActionV::Unicode(c) => {
            resolved_char_alias_free(c, lang, keymaps, table);
        },
        ActionV::TapHold(tap, hold) => {
            unicode_resolved_alias_free(*tap, lang, keymaps, table);
            unicode_resolved_alias_free(*hold, lang, keymaps, table);
        },
        ActionV::Multi(v) => {
            unicode_row_alias_free(v, 0, lang, keymaps, table);
        },
        ActionV::Sequence(v) => {
            unicode_row_alias_free(v, 0, lang, keymaps, table);
        },
        _ => {},
    }
}

proof fn unicode_row_alias_free(
    v: Seq<ActionV>,
    i: int,
    lang: Keymap,
    keymaps: KeymapsV,
    table: UnicodeTableV,
)
    requires
        0 <= i,
        unicode_alias_free(keymaps, table),
        !any_alias(v, i),
    ensures
        !any_alias(unicode_resolved_all(v, i, lang, keymaps, table), 0),
    decreases v, v.len() - i,
{
    if i < v.len() {
        unicode_resolved_alias_free(v[i], lang, keymaps, table);
        unicode_row_alias_free(v, i + 1, lang, keymaps, table);
        any_alias_cons(
            unicode_resolved(v[i], lang, keymaps, table),
            unicode_resolved_all(v, i + 1, lang, keymaps, table),
            0,
        );
    }
}

proof fn unicode_layers_alias_free(layers: Seq<LayerV>, keymaps: KeymapsV, table: UnicodeTableV)
    requires
        unicode_alias_free(keymaps, table),
        layers_alias_free(layers),
    ensures
        layers_alias_free(unicode_layers(layers, keymaps, table)),
{
    let out = unicode_layers(layers, keymaps, table);
    assert forall|j: int| 0 <= j < out.len() implies layer_alias_free(#[trigger] out[j]) by {
        let l = layers[j];
        assert(layer_alias_free(l));
        let keys = out[j].keys;
        assert(out[j] == unicode_layer(l, keymaps, table));
        assert forall|i: int| 0 <= i < keys.len() implies match #[trigger] keys[i] {
            Some(a) => !has_alias(a),
            None => true,
        } by {
            match l.keys[i] {
                Some(a) => {
                    unicode_resolved_alias_free(a, l.keymap, keymaps, table);
                },
                None => {},
            }
        }
        let os = out[j].overrides;
        assert forall|k: int| 0 <= k < os.len() implies !has_alias((#[trigger] os[k]).action) by {
            assert(!has_alias(l.overrides[k].action));
            unicode_resolved_alias_free(l.overrides[k].action, l.keymap, keymaps, table);
        }
    }
}

/// No alias is left in an action of a prepared layer, in a slot or in an
/// override, where none stands in a switch or in the Unicode table.
pub proof fn prepared_is_alias_free(
    layers: Seq<LayerV>,
    aliases: Seq<(Seq<char>, ActionV)>,
    keymaps: KeymapsV,
    table: UnicodeTableV,
)
    requires
        unicode_alias_free(keymaps, table),
    ensures
        match prepared(layers, aliases, keymaps, table) {
            Ok(out) => layers_alias_free(out),
            Err(_) => true,
        },
{
    aliases_resolved_alias_free(layers, 0, aliases);
    match aliases_resolved(layers, 0, aliases) {
        Err(_) => {},
        Ok(named) => {
            transparency_alias_free(named);
            let solid = transparency_resolved(named);
            without_alias_free(solid, "src"@);
            let rest = without_layer(solid, "src"@);
            additions_alias_free(rest, 0);
            with_layers_alias_free(rest, additions(rest, 0), 0);
            unicode_layers_alias_free(duplicated(rest), keymaps, table);
        },
    }
}

/// Whether the table can type every `Unicode` of the slots of a row.
pub open spec fn slots_covered(keys: Seq<Option<ActionV>>, table: UnicodeTableV) -> bool {
    forall|i: int|
        0 <= i < keys.len() ==> match #[trigger] keys[i] {
            Some(a) => super::unicode::covered(a, table),
            None => true,
        }
}

/// With both switches known, and no `Unicode` in a switch or in the table,
/// no `Unicode` is left in a slot of a layer whose characters the table can
/// type, whatever the keymap of the layer.
pub proof fn no_unicode_is_left_in_slots(l: LayerV, keymaps: KeymapsV, table: UnicodeTableV)
    requires
        keymaps.en is Some && !super::action::has_unicode(keymaps.en->0),
        keymaps.ru is Some && !super::action::has_unicode(keymaps.ru->0),
        super::unicode::chars_plain(table.en),
        super::unicode::chars_plain(table.ru),
        slots_covered(l.keys, table),
    ensures
        forall|i: int|
            0 <= i < l.keys.len() ==> match #[trigger] unicode_layer(l, keymaps, table).keys[i] {
                Some(a) => !super::action::has_unicode(a),
                None => true,
            },
{
    let keys = unicode_layer(l, keymaps, table).keys;
    assert forall|i: int| 0 <= i < l.keys.len() implies match #[trigger] keys[i] {
        Some(a) => !super::action::has_unicode(a),
        None => true,
    } by {
        match l.keys[i] {
            Some(a) => {
                super::unicode::no_unicode_is_left(a, l.keymap, keymaps, table);
            },
            None => {},
        }
    }
}

/// Whether some layer of a row binds slot `i` to `Transparent`.
pub open spec fn transparent_in(layers: Seq<LayerV>, i: int) -> bool {
    exists|j: int|
        0 <= j < layers.len() && 0 <= i < (#[trigger] layers[j]).keys.len() && layers[j].keys[i]
            == Some(ActionV::Transparent)
}

/// Whether the table types no character as `Transparent`.
pub open spec fn table_solid(table: UnicodeTableV) -> bool {
    &&& forall|k: int| 0 <= k < table.en.len() ==> !((#[trigger] table.en[k]).1 is Transparent)
    &&& forall|k: int| 0 <= k < table.ru.len() ==> !((#[trigger] table.ru[k]).1 is Transparent)
}

proof fn with_layers_from(layers: Seq<LayerV>, more: Seq<LayerV>, i: int, j: int)
    requires
        0 <= i,
        0 <= j < with_layers(layers, more, i).len(),
    ensures
        (exists|q: int| 0 <= q < layers.len() && layers[q] == with_layers(layers, more, i)[j]) || (
        exists|q: int| i <= q < more.len() && more[q] == with_layers(layers, more, i)[j]),
    decreases more.len() - i,
{
    if i < more.len() {
        let next = with_layer(layers, more[i]);
        with_layers_from(next, more, i + 1, j);
        let x = with_layers(layers, more, i)[j];
        if exists|q: int| 0 <= q < next.len() && next[q] == x {
            let q = choose|q: int| 0 <= q < next.len() && next[q] == x;
            layer_at_first(layers, more[i].name, 0);
            match layer_at(layers, more[i].name, 0) {
                Some(p) => {
                    if q == p {
                        assert(more[i] == x);
                    } else {
                        assert(layers[q] == x);
                    }
                },
                None => {
                    if q < layers.len() {
                        assert(layers[q] == x);
                    } else {
                        assert(more[i] == x);
                    }
                },
            }
        } else {
            let q = choose|q: int| i + 1 <= q < more.len() && more[q] == x;
            assert(more[q] == x);
        }
    } else {
        assert(layers[j] == with_layers(layers, more, i)[j]);
    }
}

proof fn copies_from(layers: Seq<LayerV>, l: LayerV, deps: Seq<Seq<char>>, k: int, j: int, i: int)
    requires
        0 <= k,
        0 <= j < copies_for(layers, l, deps, k).len(),
        0 <= i < copies_for(layers, l, deps, k)[j].keys.len(),
        copies_for(layers, l, deps, k)[j].keys[i] == Some(ActionV::Transparent),
    ensures
        transparent_in(layers, i),
    decreases deps.len() - k,
{
    if k < deps.len() {
        let rest = copies_for(layers, l, deps, k + 1);
        if wants_copy(layers, l, deps[k]) {
            if j == 0 {
                layer_of_is_a_layer(layers, deps[k]);
                let d = layer_of(layers, deps[k])->0;
                let q = choose|q: int| 0 <= q < layers.len() && layers[q] == d;
                let c = copy_of(d, l.keymap);
                assert(copies_for(layers, l, deps, k)[0] == c);
                match d.keys[i] {
                    Some(a) => {
                        assert(c.keys[i] == Some(rehold(a, seq![(d.name, super::prepare::copy_name(d.name, l.keymap))])));
                    },
                    None => {},
                }
                assert(layers[q].keys[i] == Some(ActionV::Transparent));
            } else {
                assert(copies_for(layers, l, deps, k)[j] == rest[j - 1]);
                copies_from(layers, l, deps, k + 1, j - 1, i);
            }
        } else {
            copies_from(layers, l, deps, k + 1, j, i);
        }
    }
}

proof fn additions_from(layers: Seq<LayerV>, s: int, j: int, i: int)
    requires
        0 <= s,
        0 <= j < additions(layers, s).len(),
        0 <= i < additions(layers, s)[j].keys.len(),
        additions(layers, s)[j].keys[i] == Some(ActionV::Transparent),
    ensures
        transparent_in(layers, i),
    decreases layers.len() - s,
{
    if s < layers.len() {
        let l = layers[s];
        let own = additions_for(layers, l);
        let rest = additions(layers, s + 1);
        if j < own.len() {
            assert(additions(layers, s)[j] == own[j]);
            let copies = copies_for(layers, l, deps_of(l), 0);
            if j < copies.len() {
                assert(own[j] == copies[j]);
                copies_from(layers, l, deps_of(l), 0, j, i);
            } else {
                let r = renames_for(layers, l, deps_of(l), 0);
                assert(own[j].keys == slots_reheld(l.keys, r));
                match l.keys[i] {
                    Some(a) => {
                        assert(own[j].keys[i] == Some(rehold(a, r)));
                    },
                    None => {},
                }
                assert(layers[s].keys[i] == Some(ActionV::Transparent));
            }
        } else {
            assert(additions(layers, s)[j] == rest[j - own.len()]);
            additions_from(layers, s + 1, j - own.len(), i);
        }
    }
}

proof fn resolved_char_is_solid(c: char, lang: Keymap, keymaps: KeymapsV, table: UnicodeTableV)
    requires
        table_solid(table),
    ensures
        !(resolved_char(c, lang, keymaps, table) is Transparent),
{
    typed_is_an_entry(table.en, c);
    typed_is_an_entry(table.ru, c);
    match typed(table.en, c) {
        Some(a) => {
            let k = choose|k: int| 0 <= k < table.en.len() && table.en[k] == (c, a);
            assert(!(table.en[k].1 is Transparent));
        },
        None => {},
    }
    match typed(table.ru, c) {
        Some(a) => {
            let k = choose|k: int| 0 <= k < table.ru.len() && table.ru[k] == (c, a);
            assert(!(table.ru[k].1 is Transparent));
        },
        None => {},
    }
}

/// A slot of a prepared layer is `Transparent` only where the transparency
/// walk left a slot of that index `Transparent`, which it does only where
/// the slot inherits nothing: in a layout whose table types no character
/// as `Transparent`, every transparent slot of the prepared layers goes
/// back to a transparent slot of the layers after the walk.
pub proof fn transparent_goes_back_to_the_walk(
    layers: Seq<LayerV>,
    aliases: Seq<(Seq<char>, ActionV)>,
    keymaps: KeymapsV,
    table: UnicodeTableV,
    j: int,
    i: int,
)
    requires
        table_solid(table),
        prepared(layers, aliases, keymaps, table) is Ok,
        0 <= j < prepared(layers, aliases, keymaps, table)->Ok_0.len(),
        0 <= i < prepared(layers, aliases, keymaps, table)->Ok_0[j].keys.len(),
        prepared(layers, aliases, keymaps, table)->Ok_0[j].keys[i] == Some(ActionV::Transparent),
    ensures
        transparent_in(transparency_resolved(aliases_resolved(layers, 0, aliases)->Ok_0), i),
{
    let named = aliases_resolved(layers, 0, aliases)->Ok_0;
    let solid = transparency_resolved(named);
    let rest = without_layer(solid, "src"@);
    let more = duplicated(rest);
    let out = unicode_layers(more, keymaps, table);
    assert(out[j] == unicode_layer(more[j], keymaps, table));
    let m = more[j];
    match m.keys[i] {
        Some(a) => {
            match a {
                ActionV::Unicode(c) => {
                    resolved_char_is_solid(c, m.keymap, keymaps, table);
                },
                _ => {},
            }
            assert(out[j].keys[i] == Some(unicode_resolved(a, m.keymap, keymaps, table)));
            assert(a is Transparent);
        },
        None => {},
    }
    assert(m.keys[i] == Some(ActionV::Transparent));
    with_layers_from(rest, additions(rest, 0), 0, j);
    if exists|q: int| 0 <= q < rest.len() && rest[q] == m {
        let q = choose|q: int| 0 <= q < rest.len() && rest[q] == m;
        assert(rest[q].keys[i] == Some(ActionV::Transparent));
    } else {
        let q = choose|q: int| 0 <= q < additions(rest, 0).len() && additions(rest, 0)[q] == m;
        additions_from(rest, 0, q, i);
    }
    assert(transparent_in(rest, i));
    let q = choose|q: int|
        0 <= q < rest.len() && 0 <= i < (#[trigger] rest[q]).keys.len() && rest[q].keys[i] == Some(
            ActionV::Transparent,
        );
    layer_at_first(solid, "src"@, 0);
    match layer_at(solid, "src"@, 0) {
        Some(p) => {
            let a = if q < p {
                q
            } else {
                q + 1
            };
            assert(rest[q] == solid[a]);
            assert(solid[a].keys[i] == Some(ActionV::Transparent));
        },
        None => {
            assert(solid[q].keys[i] == Some(ActionV::Transparent));
        },
    }
}

/// Whether the slots of the layer `m` are those of the layer at position
/// `q` of `solid` with held layers renamed by `r`.
pub open spec fn reheld_from(
    m: LayerV,
    solid: Seq<LayerV>,
    q: int,
    r: Seq<(Seq<char>, Seq<char>)>,
) -> bool {
    0 <= q < solid.len() && m.keys == slots_reheld(solid[q].keys, r)
}

/// Whether the slots of the layer `m` are those of a layer of `solid` with
/// held layers renamed.
pub open spec fn stems_from(m: LayerV, solid: Seq<LayerV>) -> bool {
    exists|q: int, r: Seq<(Seq<char>, Seq<char>)>| #[trigger] reheld_from(m, solid, q, r)
}

/// An empty renaming changes nothing.
pub proof fn rehold_nothing(a: ActionV)
    ensures
        rehold(a, Seq::empty()) == a,
    decreases a, 0int,
{
    match a {
        ActionV::TapHold(tap, hold) => {
            rehold_nothing(*tap);
            rehold_nothing(*hold);
        },
        ActionV::Multi(v) => {
            rehold_row_nothing(v);
        },
        ActionV::Sequence(v) => {
            rehold_row_nothing(v);
        },
        _ => {},
    }
}

proof fn rehold_row_nothing(v: Seq<ActionV>)
    ensures
        rehold_all(v, Seq::empty()) == v,
    decreases v, 1int,
{
    if v.len() > 0 {
        rehold_nothing(v[0]);
        rehold_row_nothing(v.drop_first());
        assert(seq![v[0]] + v.drop_first() =~= v);
    } else {
        assert(v =~= Seq::<ActionV>::empty());
    }
}

proof fn layer_stems_from_itself(solid: Seq<LayerV>, q: int)
    requires
        0 <= q < solid.len(),
    ensures
        stems_from(solid[q], solid),
{
    let keys = solid[q].keys;
    let none = Seq::<(Seq<char>, Seq<char>)>::empty();
    assert forall|i: int| 0 <= i < keys.len() implies slots_reheld(keys, none)[i] == keys[i] by {
        match keys[i] {
            Some(a) => {
                rehold_nothing(a);
            },
            None => {},
        }
    }
    assert(slots_reheld(keys, none) =~= keys);
    assert(reheld_from(solid[q], solid, q, none));
}

proof fn copies_stem(layers: Seq<LayerV>, l: LayerV, deps: Seq<Seq<char>>, k: int, j: int)
    requires
        0 <= k,
        0 <= j < copies_for(layers, l, deps, k).len(),
    ensures
        stems_from(copies_for(layers, l, deps, k)[j], layers),
    decreases deps.len() - k,
{
    if k < deps.len() {
        let rest = copies_for(layers, l, deps, k + 1);
        if wants_copy(layers, l, deps[k]) {
            if j == 0 {
                layer_of_is_a_layer(layers, deps[k]);
                let d = layer_of(layers, deps[k])->0;
                let q = choose|q: int| 0 <= q < layers.len() && layers[q] == d;
                let c = copy_of(d, l.keymap);
                assert(copies_for(layers, l, deps, k)[0] == c);
                assert(reheld_from(
                    c,
                    layers,
                    q,
                    seq![(d.name, super::prepare::copy_name(d.name, l.keymap))],
                ));
            } else {
                assert(copies_for(layers, l, deps, k)[j] == rest[j - 1]);
                copies_stem(layers, l, deps, k + 1, j - 1);
            }
        } else {
            copies_stem(layers, l, deps, k + 1, j);
        }
    }
}

proof fn additions_stem(layers: Seq<LayerV>, s: int, j: int)
    requires
        0 <= s,
        0 <= j < additions(layers, s).len(),
    ensures
        stems_from(additions(layers, s)[j], layers),
    decreases layers.len() - s,
{
    if s < layers.len() {
        let l = layers[s];
        let own = additions_for(layers, l);
        let rest = additions(layers, s + 1);
        if j < own.len() {
            assert(additions(layers, s)[j] == own[j]);
            let copies = copies_for(layers, l, deps_of(l), 0);
            if j < copies.len() {
                assert(own[j] == copies[j]);
                copies_stem(layers, l, deps_of(l), 0, j);
            } else {
                assert(reheld_from(own[j], layers, s, renames_for(layers, l, deps_of(l), 0)));
            }
        } else {
            assert(additions(layers, s)[j] == rest[j - own.len()]);
            additions_stem(layers, s + 1, j - own.len());
        }
    }
}

/// Whether every slot of the layer `out` is the slot of that index of the
/// layer at position `q` of `solid`, with held layers renamed by `r` and
/// `Unicode` resolved in the keymap of `out`.
pub open spec fn comes_from(
    out: LayerV,
    solid: Seq<LayerV>,
    q: int,
    r: Seq<(Seq<char>, Seq<char>)>,
    keymaps: KeymapsV,
    table: UnicodeTableV,
) -> bool {
    0 <= q < solid.len() && out.keys.len() == solid[q].keys.len() && forall|i: int|
        0 <= i < out.keys.len() ==> #[trigger] out.keys[i] == (match solid[q].keys[i] {
            Some(a) => Some(unicode_resolved(rehold(a, r), out.keymap, keymaps, table)),
            None => None,
        })
}

/// Where every slot of a prepared layer comes from: from the slot of that
/// index of a layer as the transparency walk left it, with held layers
/// renamed and `Unicode` resolved in the keymap of the prepared layer.
pub proof fn prepared_slots_stem_from_the_walk(
    layers: Seq<LayerV>,
    aliases: Seq<(Seq<char>, ActionV)>,
    keymaps: KeymapsV,
    table: UnicodeTableV,
    j: int,
)
    requires
        prepared(layers, aliases, keymaps, table) is Ok,
        0 <= j < prepared(layers, aliases, keymaps, table)->Ok_0.len(),
    ensures
        ({
            let solid = transparency_resolved(aliases_resolved(layers, 0, aliases)->Ok_0);
            let out = prepared(layers, aliases, keymaps, table)->Ok_0[j];
            exists|q: int, r: Seq<(Seq<char>, Seq<char>)>| #[trigger]
                comes_from(out, solid, q, r, keymaps, table)
        }),
{
    let named = aliases_resolved(layers, 0, aliases)->Ok_0;
    let solid = transparency_resolved(named);
    let rest = without_layer(solid, "src"@);
    let more = duplicated(rest);
    let out = unicode_layers(more, keymaps, table)[j];
    let m = more[j];
    assert(out == unicode_layer(m, keymaps, table));
    with_layers_from(rest, additions(rest, 0), 0, j);
    if exists|q: int| 0 <= q < rest.len() && rest[q] == m {
        let q = choose|q: int| 0 <= q < rest.len() && rest[q] == m;
        layer_stems_from_itself(rest, q);
    } else {
        let q = choose|q: int| 0 <= q < additions(rest, 0).len() && additions(rest, 0)[q] == m;
        additions_stem(rest, 0, q);
    }
    assert(stems_from(m, rest));
    let (q, r) = choose|q: int, r: Seq<(Seq<char>, Seq<char>)>| #[trigger]
        reheld_from(m, rest, q, r);
    layer_at_first(solid, "src"@, 0);
    let a: int = match layer_at(solid, "src"@, 0) {
        Some(p) => if q < p {
            q
        } else {
            q + 1
        },
        None => q,
    };
    assert(rest[q] == solid[a]);
    assert(m.keys == slots_reheld(solid[a].keys, r));
    assert forall|i: int| 0 <= i < out.keys.len() implies #[trigger] out.keys[i] == (
    match solid[a].keys[i] {
        Some(x) => Some(unicode_resolved(rehold(x, r), out.keymap, keymaps, table)),
        None => None,
    }) by {
        assert(m.keys[i] == slots_reheld(solid[a].keys, r)[i]);
    }
    assert(comes_from(out, solid, a, r, keymaps, table));
}

} // verus!
