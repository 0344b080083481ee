//! What preparing guarantees of `Unicode`: none is left in a slot where the
//! table can type every character that the slots and the aliases hold.

use super::action::{
    has_unicode, lookup, rehold, rehold_all, resolved, resolved_all, ActionV,
};
use super::closure::{layer_of_is_a_layer, no_unicode_is_left_in_slots, slots_covered};
use super::layer::{deps_of, slot, LayerV};
use super::layers::{layer_at, layer_at_first, layer_of, with_layer, with_layers, without_layer};
use super::prepare::{
    additions, additions_for, aliases_resolved, copies_for, copy_name, copy_of, duplicated,
    inherited, layer_resolved, prepared, renames_for, slots_inherited, slots_reheld,
    slots_resolved, transparency_resolved, unicode_layer, unicode_layers, wants_copy,
};
use super::unicode::{all_covered, chars_plain, covered, KeymapsV, UnicodeTableV};
use vstd::prelude::*;

verus! {

/// Whether the table can type every `Unicode` of the slots of a row of
/// layers.
pub open spec fn layers_covered(layers: Seq<LayerV>, table: UnicodeTableV) -> bool {
    forall|j: int| 0 <= j < layers.len() ==> slots_covered((#[trigger] layers[j]).keys, table)
}

/// Whether the table can type every `Unicode` of the aliases.
pub open spec fn aliases_covered(t: Seq<(Seq<char>, ActionV)>, table: UnicodeTableV) -> bool {
    forall|k: int| 0 <= k < t.len() ==> covered((#[trigger] t[k]).1, table)
}

proof fn lookup_is_an_entry(t: Seq<(Seq<char>, ActionV)>, name: Seq<char>)
    ensures
        match lookup(t, name) {
            Some(b) => exists|k: int| 0 <= k < t.len() && t[k].1 == b,
            None => true,
        },
    decreases t.len(),
{
    if t.len() > 0 {
        if t.last().0 == name {
            assert(t[t.len() - 1].1 == t.last().1);
        } else {
            lookup_is_an_entry(t.drop_last(), name);
            match lookup(t.drop_last(), name) {
                Some(b) => {
                    let k = choose|k: int| 0 <= k < t.drop_last().len() && t.drop_last()[k].1 == b;
                    assert(t[k].1 == b);
                },
                None => {},
            }
        }
    }
}

proof fn all_covered_cons(a: ActionV, rest: Seq<ActionV>, i: int, table: UnicodeTableV)
    requires
        0 <= i,
    ensures
        all_covered(seq![a] + rest, i + 1, table) == all_covered(rest, i, table),
        i == 0 ==> all_covered(seq![a] + rest, 0, table) == (covered(a, table) && all_covered(
            rest,
            0,
            table,
        )),
    decreases rest.len() - i,
{
    let v = seq![a] + rest;
    if i < rest.len() {
        assert(v[i + 1] == rest[i]);
        all_covered_cons(a, rest, i + 1, table);
    }
    if i == 0 {
        assert(v[0] == a);
    }
}

proof fn resolved_covered(a: ActionV, t: Seq<(Seq<char>, ActionV)>, fuel: nat, table: UnicodeTableV)
    requires
        covered(a, table),
        aliases_covered(t, table),
    ensures
        match resolved(a, t, fuel) {
            Ok(b) => covered(b, table),
            Err(_) => true,
        },
    decreases fuel, a, 0int,
{
    match a {
        ActionV::Alias(n) => {
            lookup_is_an_entry(t, n);
            match lookup(t, n) {
                None => {},
                Some(b) => {
                    if fuel > 0 {
                        let k = choose|k: int| 0 <= k < t.len() && t[k].1 == b;
                        assert(covered(t[k].1, table));
                        resolved_covered(b, t, (fuel - 1) as nat, table);
                    }
                },
            }
        },
        ActionV::TapHold(tap, hold) => {
            resolved_covered(*tap, t, fuel, table);
            resolved_covered(*hold, t, fuel, table);
        },
        ActionV::Multi(v) => {
            resolved_all_covered(v, t, fuel, table);
        },
        ActionV::Sequence(v) => {
            resolved_all_covered(v, t, fuel, table);
        },
        _ => {},
    }
}

proof fn resolved_all_covered(
    v: Seq<ActionV>,
    t: Seq<(Seq<char>, ActionV)>,
    fuel: nat,
    table: UnicodeTableV,
)
    requires
        all_covered(v, 0, table),
        aliases_covered(t, table),
    ensures
        match resolved_all(v, t, fuel) {
            Ok(w) => all_covered(w, 0, table),
            Err(_) => true,
        },
    decreases fuel, v, 1int,
{
    if v.len() > 0 {
        assert(seq![v[0]] + v.drop_first() =~= v);
        all_covered_cons(v[0], v.drop_first(), 0, table);
        resolved_covered(v[0], t, fuel, table);
        resolved_all_covered(v.drop_first(), t, fuel, table);
        match (resolved(v[0], t, fuel), resolved_all(v.drop_first(), t, fuel)) {
            (Ok(a), Ok(rest)) => {
                all_covered_cons(a, rest, 0, table);
            },
            _ => {},
        }
    }
}

proof fn slots_resolved_covered(
    keys: Seq<Option<ActionV>>,
    i: int,
    t: Seq<(Seq<char>, ActionV)>,
    table: UnicodeTableV,
)
    requires
        0 <= i,
        slots_covered(keys, table),
        aliases_covered(t, table),
    ensures
        match slots_resolved(keys, i, t) {
            Ok(out) => slots_covered(out, table),
            Err(_) => true,
        },
    decreases keys.len() - i,
{
    if i < keys.len() {
        slots_resolved_covered(keys, i + 1, t, table);
        match keys[i] {
            Some(a) => {
                resolved_covered(a, t, t.len(), table);
            },
            None => {},
        }
        match slots_resolved(keys, i, t) {
            Ok(out) => {
                let rest = slots_resolved(keys, i + 1, t)->Ok_0;
                assert forall|k: int| 0 <= k < out.len() implies match #[trigger] out[k] {
                    Some(a) => covered(a, table),
                    None => true,
                } by {
                    if k > 0 {
                        assert(out[k] == rest[k - 1]);
                    }
                }
            },
            Err(_) => {},
        }
    }
}

proof fn aliases_resolved_covered(
    layers: Seq<LayerV>,
    i: int,
    t: Seq<(Seq<char>, ActionV)>,
    table: UnicodeTableV,
)
    requires
        0 <= i,
        layers_covered(layers, table),
        aliases_covered(t, table),
    ensures
        match aliases_resolved(layers, i, t) {
            Ok(out) => layers_covered(out, table),
            Err(_) => true,
        },
    decreases layers.len() - i,
{
    if i < layers.len() {
        aliases_resolved_covered(layers, i + 1, t, table);
        assert(slots_covered(layers[i].keys, table));
        slots_resolved_covered(layers[i].keys, 0, t, table);
        match aliases_resolved(layers, i, t) {
            Ok(out) => {
                let rest = aliases_resolved(layers, i + 1, t)->Ok_0;
                let l = layer_resolved(layers[i], t)->Ok_0;
                assert forall|j: int| 0 <= j < out.len() implies slots_covered(
                    (#[trigger] out[j]).keys,
                    table,
                ) by {
                    if j > 0 {
                        assert(out[j] == rest[j - 1]);
                    } else {
                        assert(out[0] == l);
                    }
                }
            },
            Err(_) => {},
        }
    }
}

proof fn inherited_covered(
    layers: Seq<LayerV>,
    name: Seq<char>,
    i: int,
    fuel: nat,
    table: UnicodeTableV,
)
    requires
        layers_covered(layers, table),
    ensures
        match inherited(layers, name, i, fuel) {
            Some(a) => covered(a, table),
            None => true,
        },
    decreases fuel,
{
    if fuel > 0 {
        layer_of_is_a_layer(layers, name);
        match layer_of(layers, name) {
            None => {},
            Some(p) => {
                let q = choose|q: int| 0 <= q < layers.len() && layers[q] == p;
                assert(slots_covered(layers[q].keys, table));
                inherited_covered(layers, p.parent, i, (fuel - 1) as nat, table);
                match slot(p.keys, i) {
                    Some(a) => {
                        assert(p.keys[i] == Some(a));
                    },
                    None => {},
                }
            },
        }
    }
}

proof fn transparency_covered(layers: Seq<LayerV>, table: UnicodeTableV)
    requires
        layers_covered(layers, table),
    ensures
        layers_covered(transparency_resolved(layers), table),
{
    let out = transparency_resolved(layers);
    assert forall|j: int| 0 <= j < out.len() implies slots_covered(
        (#[trigger] out[j]).keys,
        table,
    ) by {
        let keys = out[j].keys;
        assert(slots_covered(layers[j].keys, table));
        assert forall|i: int| 0 <= i < keys.len() implies match #[trigger] keys[i] {
            Some(a) => covered(a, table),
            None => true,
        } by {
            inherited_covered(layers, layers[j].parent, i, layers.len(), table);
            assert(keys[i] == slots_inherited(layers, layers[j])[i]);
            match layers[j].keys[i] {
                Some(a) => {},
                None => {},
            }
        }
    }
}

proof fn without_covered(layers: Seq<LayerV>, name: Seq<char>, table: UnicodeTableV)
    requires
        layers_covered(layers, table),
    ensures
        layers_covered(without_layer(layers, name), table),
{
    layer_at_first(layers, name, 0);
    let out = without_layer(layers, name);
    match layer_at(layers, name, 0) {
        Some(p) => {
            assert forall|j: int| 0 <= j < out.len() implies slots_covered(
                (#[trigger] out[j]).keys,
                table,
            ) by {
                let a = if j < p {
                    j
                } else {
                    j + 1
                };
                assert(out[j] == layers[a]);
            }
        },
        None => {},
    }
}

/// Renaming held layers changes no `Unicode`.
pub proof fn rehold_covered(a: ActionV, r: Seq<(Seq<char>, Seq<char>)>, table: UnicodeTableV)
    ensures
        covered(rehold(a, r), table) == covered(a, table),
    decreases a, 0int,
{
    match a {
        ActionV::TapHold(tap, hold) => {
            rehold_covered(*tap, r, table);
            rehold_covered(*hold, r, table);
        },
        ActionV::Multi(v) => {
            rehold_row_covered(v, r, table);
        },
        ActionV::Sequence(v) => {
            rehold_row_covered(v, r, table);
        },
        _ => {},
    }
}

proof fn rehold_row_covered(v: Seq<ActionV>, r: Seq<(Seq<char>, Seq<char>)>, table: UnicodeTableV)
    ensures
        all_covered(rehold_all(v, r), 0, table) == all_covered(v, 0, table),
    decreases v, 1int,
{
    if v.len() > 0 {
        rehold_covered(v[0], r, table);
        rehold_row_covered(v.drop_first(), r, table);
        all_covered_cons(rehold(v[0], r), rehold_all(v.drop_first(), r), 0, table);
        all_covered_cons(v[0], v.drop_first(), 0, table);
        assert(seq![v[0]] + v.drop_first() =~= v);
    }
}

proof fn reheld_slots_covered(
    keys: Seq<Option<ActionV>>,
    r: Seq<(Seq<char>, Seq<char>)>,
    table: UnicodeTableV,
)
    requires
        slots_covered(keys, table),
    ensures
        slots_covered(slots_reheld(keys, r), table),
{
    let out = slots_reheld(keys, r);
    assert forall|i: int| 0 <= i < out.len() implies match #[trigger] out[i] {
        Some(a) => covered(a, table),
        None => true,
    } by {
        match keys[i] {
            Some(a) => {
                rehold_covered(a, r, table);
            },
            None => {},
        }
    }
}

proof fn copies_covered(
    layers: Seq<LayerV>,
    l: LayerV,
    deps: Seq<Seq<char>>,
    k: int,
    table: UnicodeTableV,
)
    requires
        0 <= k,
        layers_covered(layers, table),
    ensures
        layers_covered(copies_for(layers, l, deps, k), table),
    decreases deps.len() - k,
{
    if k < deps.len() {
        copies_covered(layers, l, deps, k + 1, table);
        let rest = copies_for(layers, l, deps, k + 1);
        if wants_copy(layers, l, deps[k]) {
            layer_of_is_a_layer(layers, deps[k]);
            let d = layer_of(layers, deps[k])->0;
            let q = choose|q: int| 0 <= q < layers.len() && layers[q] == d;
            assert(slots_covered(layers[q].keys, table));
            let c = copy_of(d, l.keymap);
            reheld_slots_covered(d.keys, seq![(d.name, copy_name(d.name, l.keymap))], table);
            let out = seq![c] + rest;
            assert forall|j: int| 0 <= j < out.len() implies slots_covered(
                (#[trigger] out[j]).keys,
                table,
            ) by {
                if j > 0 {
                    assert(out[j] == rest[j - 1]);
                }
            }
        }
    }
}

proof fn additions_covered(layers: Seq<LayerV>, j: int, table: UnicodeTableV)
    requires
        0 <= j,
        layers_covered(layers, table),
    ensures
        layers_covered(additions(layers, j), table),
    decreases layers.len() - j,
{
    if j < layers.len() {
        additions_covered(layers, j + 1, table);
        let l = layers[j];
        assert(slots_covered(l.keys, table));
        let copies = copies_for(layers, l, deps_of(l), 0);
        copies_covered(layers, l, deps_of(l), 0, table);
        let own = additions_for(layers, l);
        if copies.len() > 0 {
            reheld_slots_covered(l.keys, renames_for(layers, l, deps_of(l), 0), table);
            assert forall|k: int| 0 <= k < own.len() implies slots_covered(
                (#[trigger] own[k]).keys,
                table,
            ) by {
                if k < copies.len() {
                    assert(own[k] == copies[k]);
                }
            }
        }
        let rest = additions(layers, j + 1);
        let out = own + rest;
        assert forall|k: int| 0 <= k < out.len() implies slots_covered(
            (#[trigger] out[k]).keys,
            table,
        ) by {
            if k < own.len() {
                assert(out[k] == own[k]);
            } else {
                assert(out[k] == rest[k - own.len()]);
            }
        }
    }
}

proof fn with_layer_covered(layers: Seq<LayerV>, l: LayerV, table: UnicodeTableV)
    requires
        layers_covered(layers, table),
        slots_covered(l.keys, table),
    ensures
        layers_covered(with_layer(layers, l), table),
{
    layer_at_first(layers, l.name, 0);
    let out = with_layer(layers, l);
    assert forall|j: int| 0 <= j < out.len() implies slots_covered(
        (#[trigger] out[j]).keys,
        table,
    ) by {
        match layer_at(layers, l.name, 0) {
            Some(p) => {
                if j != p {
                    assert(out[j] == layers[j]);
                }
            },
            None => {
                if j < layers.len() {
                    assert(out[j] == layers[j]);
                }
            },
        }
    }
}

proof fn with_layers_covered(layers: Seq<LayerV>, more: Seq<LayerV>, i: int, table: UnicodeTableV)
    requires
        0 <= i,
        layers_covered(layers, table),
        layers_covered(more, table),
    ensures
        layers_covered(with_layers(layers, more, i), table),
    decreases more.len() - i,
{
    if i < more.len() {
        assert(slots_covered(more[i].keys, table));
        with_layer_covered(layers, more[i], table);
        with_layers_covered(with_layer(layers, more[i]), more, i + 1, table);
    }
}

/// No `Unicode` is left in a slot of a prepared layer, whatever the keymap
/// of the layer, where the switch to each keymap is known, no `Unicode`
/// stands in a switch or in the table, and the table can type, in one of
/// its keymaps, every character of the slots and of the aliases.
pub proof fn prepared_has_no_unicode(
    layers: Seq<LayerV>,
    aliases: Seq<(Seq<char>, ActionV)>,
    keymaps: KeymapsV,
    table: UnicodeTableV,
)
    requires
        keymaps.en is Some && !has_unicode(keymaps.en->0),
        keymaps.ru is Some && !has_unicode(keymaps.ru->0),
        chars_plain(table.en),
        chars_plain(table.ru),
        layers_covered(layers, table),
        aliases_covered(aliases, table),
    ensures
        match prepared(layers, aliases, keymaps, table) {
            Ok(out) => forall|j: int, i: int|
                0 <= j < out.len() && 0 <= i < out[j].keys.len() ==> match #[trigger] out[j].keys[i] {
                    Some(a) => !has_unicode(a),
                    None => true,
                },
            Err(_) => true,
        },
{
    aliases_resolved_covered(layers, 0, aliases, table);
    match aliases_resolved(layers, 0, aliases) {
        Err(_) => {},
        Ok(named) => {
            transparency_covered(named, table);
            let solid = transparency_resolved(named);
            without_covered(solid, "src"@, table);
            let rest = without_layer(solid, "src"@);
            additions_covered(rest, 0, table);
            with_layers_covered(rest, additions(rest, 0), 0, table);
            let more = duplicated(rest);
            let out = unicode_layers(more, keymaps, table);
            assert forall|j: int, i: int|
                0 <= j < out.len() && 0 <= i < out[j].keys.len() implies match #[trigger] out[j].keys[i] {
                Some(a) => !has_unicode(a),
                None => true,
            } by {
                assert(slots_covered(more[j].keys, table));
                assert(out[j] == unicode_layer(more[j], keymaps, table));
                no_unicode_is_left_in_slots(more[j], keymaps, table);
            }
        },
    }
}

} // verus!
