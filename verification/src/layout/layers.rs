//! The layers of a layout by name. No two layers of a layout share a name:
//! a layer that is put in replaces the one of its name.

use super::layer::{Layer, LayerV};
use crate::text::same;
use vstd::prelude::*;

verus! {

/// The values of a row of layers.
pub open spec fn layers_view(v: Seq<Layer>) -> Seq<LayerV> {
    Seq::new(v.len(), |i: int| v[i]@)
}

/// The first position from `i` on of a layer with the name `name`.
pub open spec fn layer_at(layers: Seq<LayerV>, name: Seq<char>, i: int) -> Option<int>
    decreases layers.len() - i,
{
    if i < 0 || i >= layers.len() {
        None
    } else if layers[i].name == name {
        Some(i)
    } else {
        layer_at(layers, name, i + 1)
    }
}

/// The layer with the name `name`.
pub open spec fn layer_of(layers: Seq<LayerV>, name: Seq<char>) -> Option<LayerV> {
    match layer_at(layers, name, 0) {
        Some(p) => Some(layers[p]),
        None => None,
    }
}

/// The layers with `l` put in: in the place of the layer of its name, or at
/// the end.
pub open spec fn with_layer(layers: Seq<LayerV>, l: LayerV) -> Seq<LayerV> {
    match layer_at(layers, l.name, 0) {
        Some(p) => layers.update(p, l),
        None => layers.push(l),
    }
}

/// The layers with each layer of `more` put in, in order.
pub open spec fn with_layers(layers: Seq<LayerV>, more: Seq<LayerV>, i: int) -> Seq<LayerV>
    decreases more.len() - i,
{
    if i < 0 || i >= more.len() {
        layers
    } else {
        with_layers(with_layer(layers, more[i]), more, i + 1)
    }
}

/// The layers without the one that has the name `name`.
pub open spec fn without_layer(layers: Seq<LayerV>, name: Seq<char>) -> Seq<LayerV> {
    match layer_at(layers, name, 0) {
        Some(p) => layers.remove(p),
        None => layers,
    }
}

/// The position of the layer with the name `name`.
pub fn find_layer(layers: &Vec<Layer>, name: &str) -> (r: Option<usize>)
    ensures
        match r {
            Some(p) => layer_at(layers_view(layers@), name@, 0) == Some(p as int) && p
                < layers.len() && layers@[p as int]@.name == name@,
            None => layer_at(layers_view(layers@), name@, 0).is_none(),
        },
{
    let ghost lv = layers_view(layers@);
    let mut i: usize = 0;
    while i < layers.len()
        invariant
            i <= layers.len(),
            lv == layers_view(layers@),
            layer_at(lv, name@, 0) == layer_at(lv, name@, i as int),
        decreases layers.len() - i,
    {
        if same(layers[i].name.as_str(), name) {
            return Some(i);
        }
        i = i + 1;
    }
    None
}

/// Puts a layer in: in the place of the layer of its name, or at the end.
pub fn insert_layer(layers: &mut Vec<Layer>, l: Layer)
    ensures
        layers_view(final(layers)@) == with_layer(layers_view(old(layers)@), l@),
{
    let ghost before = layers_view(layers@);
    match find_layer(layers, l.name.as_str()) {
        Some(p) => {
            layers.set(p, l);
            assert(layers_view(layers@) =~= before.update(p as int, l@));
        },
        None => {
            layers.push(l);
            assert(layers_view(layers@) =~= before.push(l@));
        },
    }
}

/// Puts each layer of `more` in, in order.
pub fn insert_layers(layers: &mut Vec<Layer>, more: Vec<Layer>)
    ensures
        layers_view(final(layers)@) == with_layers(
            layers_view(old(layers)@),
            layers_view(more@),
            0,
        ),
{
    let ghost mv = layers_view(more@);
    let mut i: usize = 0;
    while i < more.len()
        invariant
            i <= more.len(),
            mv == layers_view(more@),
            with_layers(layers_view(old(layers)@), mv, 0) == with_layers(
                layers_view(layers@),
                mv,
                i as int,
            ),
        decreases more.len() - i,
    {
        insert_layer(layers, more[i].clone());
        i = i + 1;
    }
}

/// Takes out the layer with the name `name`.
pub fn remove_layer(layers: &mut Vec<Layer>, name: &str)
    ensures
        layers_view(final(layers)@) == without_layer(layers_view(old(layers)@), name@),
{
    let ghost before = layers_view(layers@);
    match find_layer(layers, name) {
        Some(p) => {
            layers.remove(p);
            assert(layers_view(layers@) =~= before.remove(p as int));
        },
        None => {},
    }
}

/// Whether no two layers of a row share a name.
pub open spec fn names_unique(layers: Seq<LayerV>) -> bool {
    forall|i: int, j: int| 0 <= i < j < layers.len() ==> layers[i].name != layers[j].name
}

/// A position that `layer_at` finds is in range, holds the name, and is the
/// first that does.
pub proof fn layer_at_first(layers: Seq<LayerV>, name: Seq<char>, i: int)
    requires
        0 <= i,
    ensures
        match layer_at(layers, name, i) {
            Some(p) => i <= p < layers.len() && layers[p].name == name && forall|k: int|
                i <= k < p ==> layers[k].name != name,
            None => forall|k: int| i <= k < layers.len() ==> layers[k].name != name,
        },
    decreases layers.len() - i,
{
    if i < layers.len() && layers[i].name != name {
        layer_at_first(layers, name, i + 1);
    }
}

/// Putting a layer in keeps the names apart.
pub proof fn with_layer_keeps_names_apart(layers: Seq<LayerV>, l: LayerV)
    requires
        names_unique(layers),
    ensures
        names_unique(with_layer(layers, l)),
{
    layer_at_first(layers, l.name, 0);
    let after = with_layer(layers, l);
    assert forall|i: int, j: int| 0 <= i < j < after.len() implies after[i].name
        != after[j].name by {
        match layer_at(layers, l.name, 0) {
            Some(p) => {
                assert(after[i].name == layers[i].name);
                assert(after[j].name == layers[j].name);
            },
            None => {
                if j < layers.len() {
                    assert(after[i].name == layers[i].name);
                    assert(after[j].name == layers[j].name);
                } else {
                    assert(after[i].name == layers[i].name);
                }
            },
        }
    }
}

/// Putting layers in keeps the names apart.
pub proof fn with_layers_keeps_names_apart(layers: Seq<LayerV>, more: Seq<LayerV>, i: int)
    requires
        0 <= i,
        names_unique(layers),
    ensures
        names_unique(with_layers(layers, more, i)),
    decreases more.len() - i,
{
    if i < more.len() {
        with_layer_keeps_names_apart(layers, more[i]);
        with_layers_keeps_names_apart(with_layer(layers, more[i]), more, i + 1);
    }
}

/// Taking a layer out keeps the names apart.
pub proof fn without_layer_keeps_names_apart(layers: Seq<LayerV>, name: Seq<char>)
    requires
        names_unique(layers),
    ensures
        names_unique(without_layer(layers, name)),
{
    layer_at_first(layers, name, 0);
    let after = without_layer(layers, name);
    match layer_at(layers, name, 0) {
        Some(p) => {
            assert forall|i: int, j: int| 0 <= i < j < after.len() implies after[i].name
                != after[j].name by {
                let a = if i < p {
                    i
                } else {
                    i + 1
                };
                let b = if j < p {
                    j
                } else {
                    j + 1
                };
                assert(after[i] == layers[a]);
                assert(after[j] == layers[b]);
            }
        },
        None => {},
    }
}

/// Rows of layers with the same names, position by position, have their
/// names apart together.
pub proof fn same_names_stay_apart(a: Seq<LayerV>, b: Seq<LayerV>)
    requires
        names_unique(a),
        a.len() == b.len(),
        forall|k: int| 0 <= k < a.len() ==> (#[trigger] a[k]).name == b[k].name,
    ensures
        names_unique(b),
{
    assert forall|i: int, j: int| 0 <= i < j < b.len() implies b[i].name != b[j].name by {
        assert(a[i].name == b[i].name);
        assert(a[j].name == b[j].name);
    }
}

} // verus!
