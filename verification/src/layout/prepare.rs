//! What follows the reading of a layout: aliases, transparency, the copies
//! that a keymap needs of the layers it holds, and Unicode.

use super::action::{
    has_unicode, rehold, renames_view, resolved, table_view, Action, ActionV, Aliases, Renames,
};
use super::layer::{
    clone_overrides, clone_slots, deps_of, overrides_view, slot, slot_view, slots_view,
    Keymap, Layer, LayerV, Override, OverrideV,
};
use super::layers::{find_layer, layer_at, layer_of, layers_view};
use super::unicode::{resolve_unicode, unicode_resolved, Keymaps, KeymapsV, UnicodeTable, UnicodeTableV};
use crate::error::Error;
use crate::text::{lowercase_of, texts, to_lower};
use vstd::prelude::*;
use vstd::string::StringExecFns;

verus! {

/// The slots from position `i` on with their aliases resolved; the first
/// error wins.
pub open spec fn slots_resolved(
    keys: Seq<Option<ActionV>>,
    i: int,
    t: Seq<(Seq<char>, ActionV)>,
) -> Result<Seq<Option<ActionV>>, Error>
    decreases keys.len() - i,
{
    if i < 0 || i >= keys.len() {
        Ok(Seq::empty())
    } else {
        let head = match keys[i] {
            None => Ok(None),
            Some(a) => match resolved(a, t, t.len()) {
                Ok(b) => Ok(Some(b)),
                Err(e) => Err(e),
            },
        };
        match head {
            Err(e) => Err(e),
            Ok(h) => match slots_resolved(keys, i + 1, t) {
                Err(e) => Err(e),
                Ok(rest) => Ok(seq![h] + rest),
            },
        }
    }
}

/// The overrides from position `k` on with the aliases of their actions
/// resolved; the first error wins.
pub open spec fn overrides_resolved(os: Seq<OverrideV>, k: int, t: Seq<(Seq<char>, ActionV)>)
    -> Result<Seq<OverrideV>, Error>
    decreases os.len() - k,
{
    if k < 0 || k >= os.len() {
        Ok(Seq::empty())
    } else {
        match resolved(os[k].action, t, t.len()) {
            Err(e) => Err(e),
            Ok(a) => match overrides_resolved(os, k + 1, t) {
                Err(e) => Err(e),
                Ok(rest) => Ok(seq![OverrideV { action: a, ..os[k] }] + rest),
            },
        }
    }
}

/// One layer with the aliases of its slots and of its overrides resolved:
/// the slots first, then the overrides; the first error wins.
pub open spec fn layer_resolved(l: LayerV, t: Seq<(Seq<char>, ActionV)>) -> Result<LayerV, Error> {
    match slots_resolved(l.keys, 0, t) {
        Err(e) => Err(e),
        Ok(keys) => match overrides_resolved(l.overrides, 0, t) {
            Err(e) => Err(e),
            Ok(os) => Ok(LayerV { keys: keys, overrides: os, ..l }),
        },
    }
}

/// The layers from position `i` on with the aliases of every action
/// resolved, in the slots and in the overrides; the first error wins.
pub open spec fn aliases_resolved(layers: Seq<LayerV>, i: int, t: Seq<(Seq<char>, ActionV)>)
    -> Result<Seq<LayerV>, Error>
    decreases layers.len() - i,
{
    if i < 0 || i >= layers.len() {
        Ok(Seq::empty())
    } else {
        match layer_resolved(layers[i], t) {
            Err(e) => Err(e),
            Ok(l) => match aliases_resolved(layers, i + 1, t) {
                Err(e) => Err(e),
                Ok(rest) => Ok(seq![l] + rest),
            },
        }
    }
}

#[verifier::loop_isolation(false)]
fn resolve_slots(keys: &Vec<Option<Action>>, aliases: &Aliases) -> (r: Result<
    Vec<Option<Action>>,
    Error,
>)
    ensures
        match r {
            Ok(out) => slots_resolved(slots_view(keys@), 0, table_view(aliases@)) == Ok::<
                Seq<Option<ActionV>>,
                Error,
            >(slots_view(out@)),
            Err(e) => slots_resolved(slots_view(keys@), 0, table_view(aliases@)) == Err::<
                Seq<Option<ActionV>>,
                Error,
            >(e),
        },
{
    let ghost kv = slots_view(keys@);
    let ghost t = table_view(aliases@);
    let mut out: Vec<Option<Action>> = Vec::new();
    let mut i: usize = 0;
    assert(slots_view(out@) =~= Seq::<Option<ActionV>>::empty());
    while i < keys.len()
        invariant
            i <= keys.len(),
            slots_resolved(kv, 0, t) == (match slots_resolved(kv, i as int, t) {
                Ok(rest) => Ok::<Seq<Option<ActionV>>, Error>(slots_view(out@) + rest),
                Err(e) => Err(e),
            }),
        decreases keys.len() - i,
    {
        let item = match &keys[i] {
            None => None,
            Some(a) => match a.resolve_aliases(aliases) {
                Ok(b) => Some(b),
                Err(e) => {
                    return Err(e);
                },
            },
        };
        let ghost before = slots_view(out@);
        let ghost h: Option<ActionV> = slot_view(item);
        proof {
            match slots_resolved(kv, i + 1, t) {
                Ok(rest) => {
                    assert(before + (seq![h] + rest) =~= before.push(h) + rest);
                },
                Err(_) => {},
            }
        }
        out.push(item);
        assert(slots_view(out@) =~= before.push(h));
        i = i + 1;
    }
    assert(slots_view(out@) + Seq::<Option<ActionV>>::empty() =~= slots_view(out@));
    Ok(out)
}

#[verifier::loop_isolation(false)]
fn resolve_overrides(os: &Vec<Override>, aliases: &Aliases) -> (r: Result<Vec<Override>, Error>)
    ensures
        match r {
            Ok(out) => overrides_resolved(overrides_view(os@), 0, table_view(aliases@)) == Ok::<
                Seq<OverrideV>,
                Error,
            >(overrides_view(out@)),
            Err(e) => overrides_resolved(overrides_view(os@), 0, table_view(aliases@)) == Err::<
                Seq<OverrideV>,
                Error,
            >(e),
        },
{
    let ghost ov = overrides_view(os@);
    let ghost t = table_view(aliases@);
    let mut out: Vec<Override> = Vec::new();
    let mut k: usize = 0;
    assert(overrides_view(out@) =~= Seq::<OverrideV>::empty());
    while k < os.len()
        invariant
            k <= os.len(),
            overrides_resolved(ov, 0, t) == (match overrides_resolved(ov, k as int, t) {
                Ok(rest) => Ok::<Seq<OverrideV>, Error>(overrides_view(out@) + rest),
                Err(e) => Err(e),
            }),
        decreases os.len() - k,
    {
        assert(ov[k as int] == os@[k as int]@);
        let action = match os[k].action.resolve_aliases(aliases) {
            Ok(a) => a,
            Err(e) => {
                return Err(e);
            },
        };
        let o = Override { key: os[k].key, mods: os[k].mods.clone(), action: action };
        let ghost before = overrides_view(out@);
        proof {
            match overrides_resolved(ov, k + 1, t) {
                Ok(rest) => {
                    assert(before + (seq![o@] + rest) =~= before.push(o@) + rest);
                },
                Err(_) => {},
            }
        }
        out.push(o);
        assert(overrides_view(out@) =~= before.push(o@));
        k = k + 1;
    }
    assert(overrides_view(out@) + Seq::<OverrideV>::empty() =~= overrides_view(out@));
    Ok(out)
}

/// Resolves the aliases in every action of every layer: in the slots and in
/// the overrides.
#[verifier::loop_isolation(false)]
pub fn resolve_layer_aliases(layers: &Vec<Layer>, aliases: &Aliases) -> (r: Result<
    Vec<Layer>,
    Error,
>)
    ensures
        match r {
            Ok(out) => aliases_resolved(layers_view(layers@), 0, table_view(aliases@)) == Ok::<
                Seq<LayerV>,
                Error,
            >(layers_view(out@)),
            Err(e) => aliases_resolved(layers_view(layers@), 0, table_view(aliases@)) == Err::<
                Seq<LayerV>,
                Error,
            >(e),
        },
{
    let ghost lv = layers_view(layers@);
    let ghost t = table_view(aliases@);
    let mut out: Vec<Layer> = Vec::new();
    let mut i: usize = 0;
    assert(layers_view(out@) =~= Seq::<LayerV>::empty());
    while i < layers.len()
        invariant
            i <= layers.len(),
            aliases_resolved(lv, 0, t) == (match aliases_resolved(lv, i as int, t) {
                Ok(rest) => Ok::<Seq<LayerV>, Error>(layers_view(out@) + rest),
                Err(e) => Err(e),
            }),
        decreases layers.len() - i,
    {
        assert(lv[i as int] == layers@[i as int]@);
        let keys = match resolve_slots(&layers[i].keys, aliases) {
            Ok(k) => k,
            Err(e) => {
                return Err(e);
            },
        };
        let overrides = match resolve_overrides(&layers[i].overrides, aliases) {
            Ok(o) => o,
            Err(e) => {
                return Err(e);
            },
        };
        let l = Layer {
            name: layers[i].name.clone(),
            parent: layers[i].parent.clone(),
            keys: keys,
            overrides: overrides,
            index: layers[i].index,
            keymap: layers[i].keymap,
        };
        let ghost before = layers_view(out@);
        proof {
            match aliases_resolved(lv, i + 1, t) {
                Ok(rest) => {
                    assert(before + (seq![l@] + rest) =~= before.push(l@) + rest);
                },
                Err(_) => {},
            }
        }
        out.push(l);
        assert(layers_view(out@) =~= before.push(l@));
        i = i + 1;
    }
    assert(layers_view(out@) + Seq::<LayerV>::empty() =~= layers_view(out@));
    Ok(out)
}

/// What slot `i` inherits from the layer `name` and its ancestors: the
/// first binding on the way up that is not transparent. `fuel` bounds how
/// many layers are visited.
pub open spec fn inherited(layers: Seq<LayerV>, name: Seq<char>, i: int, fuel: nat) -> Option<
    ActionV,
>
    decreases fuel,
{
    if fuel == 0 {
        None
    } else {
        match layer_of(layers, name) {
            None => None,
            Some(p) => match slot(p.keys, i) {
                Some(a) => if a is Transparent {
                    inherited(layers, p.parent, i, (fuel - 1) as nat)
                } else {
                    Some(a)
                },
                None => inherited(layers, p.parent, i, (fuel - 1) as nat),
            },
        }
    }
}

/// The slots of a layer with each transparent one replaced by what it
/// inherits; a slot that inherits nothing stays transparent.
pub open spec fn slots_inherited(layers: Seq<LayerV>, l: LayerV) -> Seq<Option<ActionV>> {
    Seq::new(
        l.keys.len(),
        |i: int|
            match l.keys[i] {
                Some(a) => if a is Transparent {
                    match inherited(layers, l.parent, i, layers.len()) {
                        Some(b) => Some(b),
                        None => Some(a),
                    }
                } else {
                    Some(a)
                },
                None => None,
            },
    )
}

/// The layers with the transparent slots of each replaced by what it
/// inherits.
pub open spec fn transparency_resolved(layers: Seq<LayerV>) -> Seq<LayerV> {
    Seq::new(
        layers.len(),
        |j: int| LayerV { keys: slots_inherited(layers, layers[j]), ..layers[j] },
    )
}

fn inherit(layers: &Vec<Layer>, name: &String, i: usize) -> (r: Option<Action>)
    ensures
        match r {
            Some(a) => inherited(layers_view(layers@), name@, i as int, layers@.len()) == Some(a@),
            None => inherited(layers_view(layers@), name@, i as int, layers@.len()).is_none(),
        },
{
    let ghost lv = layers_view(layers@);
    let mut fuel: usize = layers.len();
    let mut current: usize = match find_layer(layers, name.as_str()) {
        Some(p) => p,
        None => {
            return None;
        },
    };
    loop
        invariant
            lv == layers_view(layers@),
            current < layers.len(),
            fuel <= layers.len(),
            inherited(lv, name@, i as int, layers@.len()) == (if fuel == 0 {
                None
            } else {
                match slot(lv[current as int].keys, i as int) {
                    Some(a) => if a is Transparent {
                        inherited(lv, lv[current as int].parent, i as int, (fuel - 1) as nat)
                    } else {
                        Some(a)
                    },
                    None => inherited(lv, lv[current as int].parent, i as int, (fuel - 1) as nat),
                }
            }),
        decreases fuel,
    {
        if fuel == 0 {
            return None;
        }
        let layer = &layers[current];
        if i < layer.keys.len() {
            match &layer.keys[i] {
                Some(a) => match a {
                    Action::Transparent => {},
                    _ => {
                        return Some(a.clone());
                    },
                },
                None => {},
            }
        }
        fuel = fuel - 1;
        if fuel == 0 {
            return None;
        }
        current = match find_layer(layers, layer.parent.as_str()) {
            Some(p) => p,
            None => {
                return None;
            },
        };
    }
}

/// Replaces the transparent slots of every layer by what they inherit from
/// the layer's ancestors.
pub fn resolve_transparency(layers: &Vec<Layer>) -> (r: Vec<Layer>)
    ensures
        layers_view(r@) == transparency_resolved(layers_view(layers@)),
{
    let ghost lv = layers_view(layers@);
    let mut out: Vec<Layer> = Vec::new();
    let mut j: usize = 0;
    while j < layers.len()
        invariant
            j <= layers.len(),
            lv == layers_view(layers@),
            layers_view(out@) =~= transparency_resolved(lv).take(j as int),
        decreases layers.len() - j,
    {
        let l = &layers[j];
        let mut keys: Vec<Option<Action>> = Vec::new();
        let mut i: usize = 0;
        while i < l.keys.len()
            invariant
                i <= l.keys.len(),
                lv == layers_view(layers@),
                j < layers.len(),
                *l == layers@[j as int],
                slots_view(keys@) =~= slots_inherited(lv, lv[j as int]).take(i as int),
            decreases l.keys.len() - i,
        {
            let ghost before = slots_view(keys@);
            let item = match &l.keys[i] {
                Some(a) => match a {
                    Action::Transparent => match inherit(layers, &l.parent, i) {
                        Some(b) => Some(b),
                        None => Some(a.clone()),
                    },
                    _ => Some(a.clone()),
                },
                None => None,
            };
            let ghost h: Option<ActionV> = slot_view(item);
            keys.push(item);
            assert(slots_view(keys@) =~= before.push(h));
            i = i + 1;
        }
        assert(slots_inherited(lv, lv[j as int]).take(i as int) =~= slots_inherited(
            lv,
            lv[j as int],
        ));
        let ghost before = layers_view(out@);
        let n = Layer {
            name: l.name.clone(),
            parent: l.parent.clone(),
            keys: keys,
            overrides: clone_overrides(&l.overrides),
            index: l.index,
            keymap: l.keymap,
        };
        out.push(n);
        assert(layers_view(out@) =~= before.push(n@));
        j = j + 1;
    }
    assert(transparency_resolved(lv).take(j as int) =~= transparency_resolved(lv));
    out
}

/// The name of the copy of a layer for a keymap.
pub open spec fn copy_name(name: Seq<char>, lang: Keymap) -> Seq<char> {
    lowercase_of(name + "-"@ + lang.label())
}

/// Whether a `Unicode` stands in one of the slots from position `i` on.
pub open spec fn any_unicode_slot(keys: Seq<Option<ActionV>>, i: int) -> bool
    decreases keys.len() - i,
{
    if i < 0 || i >= keys.len() {
        false
    } else {
        (match keys[i] {
            Some(a) => has_unicode(a),
            None => false,
        }) || any_unicode_slot(keys, i + 1)
    }
}

/// Whether the layer `l` needs a copy of the layer `dep` that it holds: the
/// two are typed in different keymaps, `l` not in `En`, and `dep` has a
/// `Unicode` in a slot.
pub open spec fn wants_copy(layers: Seq<LayerV>, l: LayerV, dep: Seq<char>) -> bool {
    match layer_of(layers, dep) {
        None => false,
        Some(d) => d.keymap != l.keymap && l.keymap != Keymap::En && any_unicode_slot(d.keys, 0),
    }
}

/// The slots with the layer of every `LayerWhileHeld` renamed.
pub open spec fn slots_reheld(keys: Seq<Option<ActionV>>, r: Seq<(Seq<char>, Seq<char>)>) -> Seq<
    Option<ActionV>,
> {
    Seq::new(
        keys.len(),
        |i: int|
            match keys[i] {
                Some(a) => Some(rehold(a, r)),
                None => None,
            },
    )
}

/// The index after `index`, where there is one.
pub open spec fn next_index(index: usize) -> usize {
    if index < usize::MAX {
        (index + 1) as usize
    } else {
        index
    }
}

/// The copy of a layer for a keymap: under the copy's name, typed in the
/// keymap, one index later, and holding itself under its new name.
pub open spec fn copy_of(d: LayerV, lang: Keymap) -> LayerV {
    LayerV {
        name: copy_name(d.name, lang),
        parent: d.parent,
        keys: slots_reheld(d.keys, seq![(d.name, copy_name(d.name, lang))]),
        overrides: d.overrides,
        index: next_index(d.index),
        keymap: lang,
    }
}

/// The copies that the layer `l` needs of the layers named from position
/// `k` of `deps` on.
pub open spec fn copies_for(layers: Seq<LayerV>, l: LayerV, deps: Seq<Seq<char>>, k: int) -> Seq<
    LayerV,
>
    decreases deps.len() - k,
{
    if k < 0 || k >= deps.len() {
        Seq::empty()
    } else if wants_copy(layers, l, deps[k]) {
        seq![copy_of(layer_of(layers, deps[k])->0, l.keymap)] + copies_for(layers, l, deps, k + 1)
    } else {
        copies_for(layers, l, deps, k + 1)
    }
}

/// The renaming that points the layer `l` at its copies.
pub open spec fn renames_for(layers: Seq<LayerV>, l: LayerV, deps: Seq<Seq<char>>, k: int) -> Seq<
    (Seq<char>, Seq<char>),
>
    decreases deps.len() - k,
{
    if k < 0 || k >= deps.len() {
        Seq::empty()
    } else if wants_copy(layers, l, deps[k]) {
        seq![(deps[k], copy_name(deps[k], l.keymap))] + renames_for(layers, l, deps, k + 1)
    } else {
        renames_for(layers, l, deps, k + 1)
    }
}

/// What the layer `l` adds to the layout: the copies that it needs and,
/// where there are any, the layer itself pointed at them.
pub open spec fn additions_for(layers: Seq<LayerV>, l: LayerV) -> Seq<LayerV> {
    let copies = copies_for(layers, l, deps_of(l), 0);
    if copies.len() == 0 {
        Seq::empty()
    } else {
        copies.push(
            LayerV { keys: slots_reheld(l.keys, renames_for(layers, l, deps_of(l), 0)), ..l },
        )
    }
}

/// What the layers from position `j` on add to the layout.
pub open spec fn additions(layers: Seq<LayerV>, j: int) -> Seq<LayerV>
    decreases layers.len() - j,
{
    if j < 0 || j >= layers.len() {
        Seq::empty()
    } else {
        additions_for(layers, layers[j]) + additions(layers, j + 1)
    }
}

/// The layers with the copies that keymaps need put in.
pub open spec fn duplicated(layers: Seq<LayerV>) -> Seq<LayerV> {
    super::layers::with_layers(layers, additions(layers, 0), 0)
}

/// Whether a `Unicode` stands in the action of one of the overrides from
/// position `k` on.
pub open spec fn any_unicode_override(os: Seq<OverrideV>, k: int) -> bool
    decreases os.len() - k,
{
    if k < 0 || k >= os.len() {
        false
    } else {
        has_unicode(os[k].action) || any_unicode_override(os, k + 1)
    }
}

/// Whether a `Unicode` stands in one of the aliases from position `k` on.
pub open spec fn any_unicode_alias(t: Seq<(Seq<char>, ActionV)>, k: int) -> bool
    decreases t.len() - k,
{
    if k < 0 || k >= t.len() {
        false
    } else {
        has_unicode(t[k].1) || any_unicode_alias(t, k + 1)
    }
}

/// Whether a `Unicode` stands in a slot or in an override of one of the
/// layers from position `j` on.
pub open spec fn any_unicode_layer(layers: Seq<LayerV>, j: int) -> bool
    decreases layers.len() - j,
{
    if j < 0 || j >= layers.len() {
        false
    } else {
        any_unicode_slot(layers[j].keys, 0) || any_unicode_override(layers[j].overrides, 0)
            || any_unicode_layer(layers, j + 1)
    }
}

/// Whether preparing has a `Unicode` to resolve: one stands in a layer or
/// in an alias.
pub open spec fn unicode_used(layers: Seq<LayerV>, aliases: Seq<(Seq<char>, ActionV)>) -> bool {
    any_unicode_layer(layers, 0) || any_unicode_alias(aliases, 0)
}

fn overrides_have_unicode(os: &Vec<Override>) -> (r: bool)
    ensures
        r == any_unicode_override(overrides_view(os@), 0),
{
    let ghost ov = overrides_view(os@);
    let mut k: usize = 0;
    while k < os.len()
        invariant
            k <= os.len(),
            ov == overrides_view(os@),
            any_unicode_override(ov, 0) == any_unicode_override(ov, k as int),
        decreases os.len() - k,
    {
        assert(ov[k as int] == os@[k as int]@);
        if os[k].action.contains_unicode() {
            return true;
        }
        k = k + 1;
    }
    false
}

/// Whether preparing has a `Unicode` to resolve.
pub fn uses_unicode(layers: &Vec<Layer>, aliases: &Aliases) -> (r: bool)
    ensures
        r == unicode_used(layers_view(layers@), table_view(aliases@)),
{
    let ghost lv = layers_view(layers@);
    let mut j: usize = 0;
    while j < layers.len()
        invariant
            j <= layers.len(),
            lv == layers_view(layers@),
            any_unicode_layer(lv, 0) == any_unicode_layer(lv, j as int),
        decreases layers.len() - j,
    {
        assert(lv[j as int] == layers@[j as int]@);
        if slots_have_unicode(&layers[j].keys) || overrides_have_unicode(&layers[j].overrides) {
            return true;
        }
        j = j + 1;
    }
    let ghost t = table_view(aliases@);
    let mut k: usize = 0;
    while k < aliases.len()
        invariant
            k <= aliases.len(),
            t == table_view(aliases@),
            !any_unicode_layer(lv, 0),
            lv == layers_view(layers@),
            any_unicode_alias(t, 0) == any_unicode_alias(t, k as int),
        decreases aliases.len() - k,
    {
        assert(t[k as int].1 == aliases@[k as int].1@);
        if aliases[k].1.contains_unicode() {
            return true;
        }
        k = k + 1;
    }
    false
}

fn slots_have_unicode(keys: &Vec<Option<Action>>) -> (r: bool)
    ensures
        r == any_unicode_slot(slots_view(keys@), 0),
{
    let ghost kv = slots_view(keys@);
    let mut i: usize = 0;
    while i < keys.len()
        invariant
            i <= keys.len(),
            kv == slots_view(keys@),
            any_unicode_slot(kv, 0) == any_unicode_slot(kv, i as int),
        decreases keys.len() - i,
    {
        match &keys[i] {
            Some(a) => {
                if a.contains_unicode() {
                    return true;
                }
            },
            None => {},
        }
        i = i + 1;
    }
    false
}

fn rehold_slots(keys: &Vec<Option<Action>>, renames: &Renames) -> (r: Vec<Option<Action>>)
    ensures
        slots_view(r@) == slots_reheld(slots_view(keys@), renames_view(renames@)),
{
    let ghost kv = slots_view(keys@);
    let ghost rv = renames_view(renames@);
    let mut out: Vec<Option<Action>> = Vec::new();
    let mut i: usize = 0;
    while i < keys.len()
        invariant
            i <= keys.len(),
            kv == slots_view(keys@),
            rv == renames_view(renames@),
            slots_view(out@) =~= slots_reheld(kv, rv).take(i as int),
        decreases keys.len() - i,
    {
        let ghost before = slots_view(out@);
        let item = match &keys[i] {
            Some(a) => Some(a.reheld(renames)),
            None => None,
        };
        let ghost h = slot_view(item);
        out.push(item);
        assert(slots_view(out@) =~= before.push(h));
        i = i + 1;
    }
    assert(slots_reheld(kv, rv).take(i as int) =~= slots_reheld(kv, rv));
    out
}

fn name_of_copy(name: &str, lang: Keymap) -> (r: String)
    ensures
        r@ == copy_name(name@, lang),
{
    let mut s = String::from_str(name);
    s.append("-");
    s.append(lang.name());
    to_lower(s.as_str())
}

fn next(index: usize) -> (r: usize)
    ensures
        r == next_index(index),
{
    if index < usize::MAX {
        index + 1
    } else {
        index
    }
}

#[verifier::loop_isolation(false)]
fn additions_of(layers: &Vec<Layer>, l: &Layer) -> (r: Vec<Layer>)
    ensures
        layers_view(r@) == additions_for(layers_view(layers@), l@),
{
    let ghost lv = layers_view(layers@);
    let deps = l.get_dependencies();
    let ghost dv = texts(deps@);
    let mut copies: Vec<Layer> = Vec::new();
    let mut renames: Renames = Vec::new();
    let mut k: usize = 0;
    assert(layers_view(copies@) =~= Seq::<LayerV>::empty());
    assert(renames_view(renames@) =~= Seq::<(Seq<char>, Seq<char>)>::empty());
    while k < deps.len()
        invariant
            k <= deps.len(),
            layers_view(copies@) + copies_for(lv, l@, dv, k as int) == copies_for(lv, l@, dv, 0),
            renames_view(renames@) + renames_for(lv, l@, dv, k as int) == renames_for(
                lv,
                l@,
                dv,
                0,
            ),
        decreases deps.len() - k,
    {
        let ghost cb = layers_view(copies@);
        let ghost rb = renames_view(renames@);
        assert(dv[k as int] == deps@[k as int]@);
        match find_layer(layers, deps[k].as_str()) {
            None => {},
            Some(p) => {
                let d = &layers[p];
                assert(lv[p as int] == d@);
                if d.keymap != l.keymap && l.keymap != Keymap::En && slots_have_unicode(&d.keys) {
                    let new_name = name_of_copy(d.name.as_str(), l.keymap);
                    let mut own: Renames = Vec::new();
                    own.push((d.name.clone(), new_name.clone()));
                    assert(renames_view(own@) =~= seq![(d@.name, copy_name(d@.name, l@.keymap))]);
                    let c = Layer {
                        name: new_name.clone(),
                        parent: d.parent.clone(),
                        keys: rehold_slots(&d.keys, &own),
                        overrides: clone_overrides(&d.overrides),
                        index: next(d.index),
                        keymap: l.keymap,
                    };
                    let pair = (deps[k].clone(), new_name);
                    proof {
                        assert(c@ == copy_of(d@, l@.keymap));
                        assert(cb + (seq![c@] + copies_for(lv, l@, dv, k + 1)) =~= cb.push(c@)
                            + copies_for(lv, l@, dv, k + 1));
                        assert(rb + (seq![(pair.0@, pair.1@)] + renames_for(lv, l@, dv, k + 1))
                            =~= rb.push((pair.0@, pair.1@)) + renames_for(lv, l@, dv, k + 1));
                    }
                    copies.push(c);
                    renames.push(pair);
                    assert(layers_view(copies@) =~= cb.push(c@));
                    assert(renames_view(renames@) =~= rb.push((pair.0@, pair.1@)));
                }
            },
        }
        k = k + 1;
    }
    assert(layers_view(copies@) + Seq::<LayerV>::empty() =~= layers_view(copies@));
    assert(renames_view(renames@) + Seq::<(Seq<char>, Seq<char>)>::empty() =~= renames_view(
        renames@,
    ));
    if copies.len() > 0 {
        let ghost cb = layers_view(copies@);
        let s = Layer {
            name: l.name.clone(),
            parent: l.parent.clone(),
            keys: rehold_slots(&l.keys, &renames),
            overrides: clone_overrides(&l.overrides),
            index: l.index,
            keymap: l.keymap,
        };
        copies.push(s);
        assert(layers_view(copies@) =~= cb.push(s@));
    }
    copies
}

/// Puts in the copies that keymaps need of the layers they hold.
#[verifier::loop_isolation(false)]
pub fn duplicate_layers(layers: &mut Vec<Layer>)
    ensures
        layers_view(final(layers)@) == duplicated(layers_view(old(layers)@)),
{
    let ghost lv = layers_view(layers@);
    let mut new_layers: Vec<Layer> = Vec::new();
    let mut j: usize = 0;
    assert(layers_view(new_layers@) =~= Seq::<LayerV>::empty());
    while j < layers.len()
        invariant
            j <= layers.len(),
            *layers == *old(layers),
            layers_view(new_layers@) + additions(lv, j as int) == additions(lv, 0),
        decreases layers.len() - j,
    {
        let ghost before = layers_view(new_layers@);
        assert(lv[j as int] == layers@[j as int]@);
        let mut more = additions_of(layers, &layers[j]);
        let ghost added = layers_view(more@);
        new_layers.append(&mut more);
        assert(layers_view(new_layers@) =~= before + added);
        assert(before + added + additions(lv, j + 1) =~= before + (added + additions(lv, j + 1)));
        j = j + 1;
    }
    assert(layers_view(new_layers@) + Seq::<LayerV>::empty() =~= layers_view(new_layers@));
    super::layers::insert_layers(layers, new_layers);
}

/// The layers with every `Unicode` of their slots and overrides resolved,
/// each layer in its own keymap.
pub open spec fn unicode_layers(layers: Seq<LayerV>, keymaps: KeymapsV, table: UnicodeTableV) -> Seq<
    LayerV,
> {
    Seq::new(layers.len(), |j: int| unicode_layer(layers[j], keymaps, table))
}

/// One layer with every `Unicode` of its slots and overrides resolved.
pub open spec fn unicode_layer(l: LayerV, keymaps: KeymapsV, table: UnicodeTableV) -> LayerV {
    LayerV {
        keys: Seq::new(
            l.keys.len(),
            |i: int|
                match l.keys[i] {
                    Some(a) => Some(unicode_resolved(a, l.keymap, keymaps, table)),
                    None => None,
                },
        ),
        overrides: Seq::new(
            l.overrides.len(),
            |k: int|
                OverrideV {
                    action: unicode_resolved(l.overrides[k].action, l.keymap, keymaps, table),
                    ..l.overrides[k]
                },
        ),
        ..l
    }
}

fn resolve_layer_unicode(l: &Layer, keymaps: &Keymaps, table: &UnicodeTable) -> (r: Layer)
    ensures
        r@ == unicode_layer(l@, keymaps@, table@),
{
    let ghost want = unicode_layer(l@, keymaps@, table@);
    let mut keys: Vec<Option<Action>> = Vec::new();
    let mut i: usize = 0;
    while i < l.keys.len()
        invariant
            i <= l.keys.len(),
            want == unicode_layer(l@, keymaps@, table@),
            slots_view(keys@) =~= want.keys.take(i as int),
        decreases l.keys.len() - i,
    {
        let ghost before = slots_view(keys@);
        let item = match &l.keys[i] {
            Some(a) => Some(resolve_unicode(a, l.keymap, keymaps, table)),
            None => None,
        };
        let ghost h = slot_view(item);
        keys.push(item);
        assert(slots_view(keys@) =~= before.push(h));
        i = i + 1;
    }
    assert(want.keys.take(i as int) =~= want.keys);
    let mut overrides: Vec<Override> = Vec::new();
    let mut k: usize = 0;
    while k < l.overrides.len()
        invariant
            k <= l.overrides.len(),
            want == unicode_layer(l@, keymaps@, table@),
            overrides_view(overrides@) =~= want.overrides.take(k as int),
        decreases l.overrides.len() - k,
    {
        let ghost before = overrides_view(overrides@);
        let o = &l.overrides[k];
        let n = Override {
            key: o.key,
            mods: o.mods.clone(),
            action: resolve_unicode(&o.action, l.keymap, keymaps, table),
        };
        overrides.push(n);
        assert(overrides_view(overrides@) =~= before.push(n@));
        k = k + 1;
    }
    assert(want.overrides.take(k as int) =~= want.overrides);
    Layer {
        name: l.name.clone(),
        parent: l.parent.clone(),
        keys: keys,
        overrides: overrides,
        index: l.index,
        keymap: l.keymap,
    }
}

/// Resolves every `Unicode` in the slots and overrides of every layer.
pub fn resolve_layers_unicode(layers: &Vec<Layer>, keymaps: &Keymaps, table: &UnicodeTable) -> (r:
    Vec<Layer>)
    ensures
        layers_view(r@) == unicode_layers(layers_view(layers@), keymaps@, table@),
{
    let ghost want = unicode_layers(layers_view(layers@), keymaps@, table@);
    let mut out: Vec<Layer> = Vec::new();
    let mut j: usize = 0;
    while j < layers.len()
        invariant
            j <= layers.len(),
            want == unicode_layers(layers_view(layers@), keymaps@, table@),
            layers_view(out@) =~= want.take(j as int),
        decreases layers.len() - j,
    {
        let ghost before = layers_view(out@);
        let l = resolve_layer_unicode(&layers[j], keymaps, table);
        out.push(l);
        assert(layers_view(out@) =~= before.push(l@));
        j = j + 1;
    }
    assert(want.take(j as int) =~= want);
    out
}

/// What preparing makes of the layers of a layout: the aliases of every
/// action resolved, transparent slots filled from the ancestors, the layer `src` taken out,
/// the copies for keymaps put in, and Unicode resolved.
pub open spec fn prepared(
    layers: Seq<LayerV>,
    aliases: Seq<(Seq<char>, ActionV)>,
    keymaps: KeymapsV,
    table: UnicodeTableV,
) -> Result<Seq<LayerV>, Error> {
    match aliases_resolved(layers, 0, aliases) {
        Err(e) => Err(e),
        Ok(named) => Ok(
            unicode_layers(
                duplicated(
                    super::layers::without_layer(transparency_resolved(named), "src"@),
                ),
                keymaps,
                table,
            ),
        ),
    }
}

/// Prepares the layers of a layout for the back-ends.
pub fn prepare(layers: &Vec<Layer>, aliases: &Aliases, keymaps: &Keymaps, table: &UnicodeTable) -> (r:
    Result<Vec<Layer>, Error>)
    ensures
        match r {
            Ok(out) => prepared(layers_view(layers@), table_view(aliases@), keymaps@, table@)
                == Ok::<Seq<LayerV>, Error>(layers_view(out@)),
            Err(e) => prepared(layers_view(layers@), table_view(aliases@), keymaps@, table@)
                == Err::<Seq<LayerV>, Error>(e),
        },
{
    let named = match resolve_layer_aliases(layers, aliases) {
        Ok(n) => n,
        Err(e) => {
            return Err(e);
        },
    };
    let mut solid = resolve_transparency(&named);
    super::layers::remove_layer(&mut solid, "src");
    duplicate_layers(&mut solid);
    Ok(resolve_layers_unicode(&solid, keymaps, table))
}

/// Whether no alias stands in a slot of a row.
pub open spec fn slots_alias_free(keys: Seq<Option<ActionV>>) -> bool {
    forall|i: int|
        0 <= i < keys.len() ==> match #[trigger] keys[i] {
            Some(a) => !super::action::has_alias(a),
            None => true,
        }
}

/// No alias is left in the slots of a layer after `slots_resolved`.
pub proof fn slots_resolved_alias_free(
    keys: Seq<Option<ActionV>>,
    i: int,
    t: Seq<(Seq<char>, ActionV)>,
)
    requires
        0 <= i,
    ensures
        match slots_resolved(keys, i, t) {
            Ok(out) => slots_alias_free(out),
            Err(_) => true,
        },
    decreases keys.len() - i,
{
    if i < keys.len() {
        slots_resolved_alias_free(keys, i + 1, t);
        match keys[i] {
            Some(a) => {
                super::action::resolved_has_no_alias(a, t, t.len());
            },
            None => {},
        }
        match slots_resolved(keys, i, t) {
            Ok(out) => {
                let rest = slots_resolved(keys, i + 1, t)->Ok_0;
                assert forall|k: int| 0 <= k < out.len() implies match #[trigger] out[k] {
                    Some(a) => !super::action::has_alias(a),
                    None => true,
                } by {
                    if k > 0 {
                        assert(out[k] == rest[k - 1]);
                    }
                }
            },
            Err(_) => {},
        }
    }
}

/// Whether no alias stands in the action of an override of a row.
pub open spec fn overrides_alias_free(os: Seq<OverrideV>) -> bool {
    forall|k: int| 0 <= k < os.len() ==> !super::action::has_alias((#[trigger] os[k]).action)
}

/// Whether no alias stands in an action of a layer: in a slot, or in an
/// override.
pub open spec fn layer_alias_free(l: LayerV) -> bool {
    slots_alias_free(l.keys) && overrides_alias_free(l.overrides)
}

/// No alias is left in the overrides of a layer after `overrides_resolved`.
pub proof fn overrides_resolved_alias_free(
    os: Seq<OverrideV>,
    k: int,
    t: Seq<(Seq<char>, ActionV)>,
)
    requires
        0 <= k,
    ensures
        match overrides_resolved(os, k, t) {
            Ok(out) => overrides_alias_free(out),
            Err(_) => true,
        },
    decreases os.len() - k,
{
    if k < os.len() {
        overrides_resolved_alias_free(os, k + 1, t);
        super::action::resolved_has_no_alias(os[k].action, t, t.len());
        match overrides_resolved(os, k, t) {
            Ok(out) => {
                let rest = overrides_resolved(os, k + 1, t)->Ok_0;
                assert forall|m: int| 0 <= m < out.len() implies !super::action::has_alias(
                    (#[trigger] out[m]).action,
                ) by {
                    if m > 0 {
                        assert(out[m] == rest[m - 1]);
                    }
                }
            },
            Err(_) => {},
        }
    }
}

/// No alias is left in an action of any layer, slot or override, once the
/// aliases of the layers are resolved.
pub proof fn aliases_resolved_alias_free(layers: Seq<LayerV>, i: int, t: Seq<(Seq<char>, ActionV)>)
    requires
        0 <= i,
    ensures
        match aliases_resolved(layers, i, t) {
            Ok(out) => forall|j: int| 0 <= j < out.len() ==> layer_alias_free(#[trigger] out[j]),
            Err(_) => true,
        },
    decreases layers.len() - i,
{
    if i < layers.len() {
        aliases_resolved_alias_free(layers, i + 1, t);
        slots_resolved_alias_free(layers[i].keys, 0, t);
        overrides_resolved_alias_free(layers[i].overrides, 0, t);
        match aliases_resolved(layers, i, t) {
            Ok(out) => {
                let rest = aliases_resolved(layers, i + 1, t)->Ok_0;
                assert forall|j: int| 0 <= j < out.len() implies layer_alias_free(
                    #[trigger] out[j],
                ) by {
                    if j > 0 {
                        assert(out[j] == rest[j - 1]);
                    }
                }
            },
            Err(_) => {},
        }
    }
}

/// The layer `k` steps up from the layer `name`: the layer itself for 0, its
/// parent for 1, and so on.
pub open spec fn ancestor(layers: Seq<LayerV>, name: Seq<char>, k: nat) -> Option<LayerV>
    decreases k,
{
    match layer_of(layers, name) {
        None => None,
        Some(l) => if k == 0 {
            Some(l)
        } else {
            ancestor(layers, l.parent, (k - 1) as nat)
        },
    }
}

/// Whether a row leaves slot `i` open: unbound, or transparent.
pub open spec fn open_slot(keys: Seq<Option<ActionV>>, i: int) -> bool {
    match slot(keys, i) {
        Some(a) => a is Transparent,
        None => true,
    }
}

/// Where a slot inherits nothing from the layer `name`, every layer on the
/// way up from it, as far as the walk goes, leaves the slot open.
pub proof fn nothing_inherited(layers: Seq<LayerV>, name: Seq<char>, i: int, fuel: nat, k: nat)
    requires
        inherited(layers, name, i, fuel).is_none(),
        k < fuel,
    ensures
        match ancestor(layers, name, k) {
            Some(l) => open_slot(l.keys, i),
            None => true,
        },
    decreases fuel,
{
    match layer_of(layers, name) {
        None => {},
        Some(p) => {
            if k > 0 {
                nothing_inherited(layers, p.parent, i, (fuel - 1) as nat, (k - 1) as nat);
            }
        },
    }
}

/// What a slot inherits is never transparent.
pub proof fn inherited_is_solid(layers: Seq<LayerV>, name: Seq<char>, i: int, fuel: nat)
    ensures
        match inherited(layers, name, i, fuel) {
            Some(a) => !(a is Transparent),
            None => true,
        },
    decreases fuel,
{
    if fuel > 0 {
        match layer_of(layers, name) {
            None => {},
            Some(p) => {
                inherited_is_solid(layers, p.parent, i, (fuel - 1) as nat);
            },
        }
    }
}

/// A slot that is transparent after the transparency walk was transparent
/// before it, and every ancestor of its layer leaves the slot open: the
/// `k`-th for every `k` below the number of layers.
pub proof fn transparent_only_without_binding(layers: Seq<LayerV>, j: int, i: int, k: nat)
    requires
        0 <= j < layers.len(),
        0 <= i < layers[j].keys.len(),
        transparency_resolved(layers)[j].keys[i] == Some(ActionV::Transparent),
        k < layers.len(),
    ensures
        layers[j].keys[i] == Some(ActionV::Transparent),
        match ancestor(layers, layers[j].parent, k) {
            Some(l) => open_slot(l.keys, i),
            None => true,
        },
{
    inherited_is_solid(layers, layers[j].parent, i, layers.len());
    let got = inherited(layers, layers[j].parent, i, layers.len());
    assert(slots_inherited(layers, layers[j])[i] == Some(ActionV::Transparent));
    assert(got.is_none());
    nothing_inherited(layers, layers[j].parent, i, layers.len(), k);
}

/// Resolving aliases keeps the layers and their names.
pub proof fn aliases_resolved_keeps_names(layers: Seq<LayerV>, i: int, t: Seq<(Seq<char>, ActionV)>)
    requires
        0 <= i <= layers.len(),
    ensures
        match aliases_resolved(layers, i, t) {
            Ok(out) => out.len() == layers.len() - i && forall|k: int|
                0 <= k < out.len() ==> (#[trigger] out[k]).name == layers[i + k].name,
            Err(_) => true,
        },
    decreases layers.len() - i,
{
    if i < layers.len() {
        aliases_resolved_keeps_names(layers, i + 1, t);
        match aliases_resolved(layers, i, t) {
            Ok(out) => {
                let rest = aliases_resolved(layers, i + 1, t)->Ok_0;
                assert forall|k: int| 0 <= k < out.len() implies (#[trigger] out[k]).name
                    == layers[i + k].name by {
                    if k > 0 {
                        assert(out[k] == rest[k - 1]);
                    }
                }
            },
            Err(_) => {},
        }
    }
}

/// Preparing layers whose names are apart gives layers whose names are
/// apart.
pub proof fn prepared_keeps_names_apart(
    layers: Seq<LayerV>,
    aliases: Seq<(Seq<char>, ActionV)>,
    keymaps: KeymapsV,
    table: UnicodeTableV,
)
    requires
        super::layers::names_unique(layers),
    ensures
        match prepared(layers, aliases, keymaps, table) {
            Ok(out) => super::layers::names_unique(out),
            Err(_) => true,
        },
{
    aliases_resolved_keeps_names(layers, 0, aliases);
    match aliases_resolved(layers, 0, aliases) {
        Err(_) => {},
        Ok(named) => {
            super::layers::same_names_stay_apart(layers, named);
            let solid = transparency_resolved(named);
            super::layers::same_names_stay_apart(named, solid);
            let rest = super::layers::without_layer(solid, "src"@);
            super::layers::without_layer_keeps_names_apart(solid, "src"@);
            let more = duplicated(rest);
            super::layers::with_layers_keeps_names_apart(rest, additions(rest, 0), 0);
            let out = unicode_layers(more, keymaps, table);
            super::layers::same_names_stay_apart(more, out);
        },
    }
}

/// What a slot inherits is the binding of the nearest ancestor that binds
/// it to something other than `Transparent`: some layer on the way up has
/// that binding, and every layer before it on the way leaves the slot open.
pub proof fn inherited_is_nearest(layers: Seq<LayerV>, name: Seq<char>, i: int, fuel: nat)
    ensures
        match inherited(layers, name, i, fuel) {
            Some(a) => !(a is Transparent) && exists|k: nat|
                k < fuel && (#[trigger] ancestor(layers, name, k)) is Some && slot(
                    ancestor(layers, name, k)->0.keys,
                    i,
                ) == Some(a) && forall|m: nat|
                    m < k ==> (#[trigger] ancestor(layers, name, m)) is Some && open_slot(
                        ancestor(layers, name, m)->0.keys,
                        i,
                    ),
            None => true,
        },
    decreases fuel,
{
    if fuel > 0 {
        match layer_of(layers, name) {
            None => {},
            Some(p) => {
                let here = match slot(p.keys, i) {
                    Some(a) => !(a is Transparent),
                    None => false,
                };
                if here {
                    assert(ancestor(layers, name, 0) == Some(p));
                } else {
                    inherited_is_nearest(layers, p.parent, i, (fuel - 1) as nat);
                    match inherited(layers, p.parent, i, (fuel - 1) as nat) {
                        None => {},
                        Some(a) => {
                            let k0 = choose|k: nat|
                                k < fuel - 1 && (#[trigger] ancestor(layers, p.parent, k)) is Some
                                    && slot(ancestor(layers, p.parent, k)->0.keys, i) == Some(a)
                                    && forall|m: nat|
                                    m < k ==> (#[trigger] ancestor(layers, p.parent, m)) is Some
                                        && open_slot(ancestor(layers, p.parent, m)->0.keys, i);
                            let k = (k0 + 1) as nat;
                            assert(ancestor(layers, name, k) == ancestor(layers, p.parent, k0));
                            assert forall|m: nat| m < k implies (#[trigger] ancestor(
                                layers,
                                name,
                                m,
                            )) is Some && open_slot(ancestor(layers, name, m)->0.keys, i) by {
                                if m == 0 {
                                    assert(ancestor(layers, name, 0) == Some(p));
                                } else {
                                    assert(ancestor(layers, name, m) == ancestor(
                                        layers,
                                        p.parent,
                                        (m - 1) as nat,
                                    ));
                                }
                            }
                        },
                    }
                }
            },
        }
    }
}

/// What the transparency walk makes of a slot: a binding other than
/// `Transparent` stays; a `Transparent` one becomes the binding of the
/// nearest ancestor that has another, and stays `Transparent` only where
/// every ancestor, as far as the walk goes, leaves the slot open.
pub proof fn walk_takes_the_nearest(layers: Seq<LayerV>, j: int, i: int)
    requires
        0 <= j < layers.len(),
        0 <= i < layers[j].keys.len(),
    ensures
        ({
            let before = layers[j].keys[i];
            let after = transparency_resolved(layers)[j].keys[i];
            let parent = layers[j].parent;
            if before == Some(ActionV::Transparent) {
                if after == Some(ActionV::Transparent) {
                    forall|k: nat|
                        k < layers.len() ==> match #[trigger] ancestor(layers, parent, k) {
                            Some(l) => open_slot(l.keys, i),
                            None => true,
                        }
                } else {
                    after is Some && !(after->0 is Transparent) && exists|k: nat|
                        k < layers.len() && (#[trigger] ancestor(layers, parent, k)) is Some
                            && slot(ancestor(layers, parent, k)->0.keys, i) == after
                            && forall|m: nat|
                            m < k ==> (#[trigger] ancestor(layers, parent, m)) is Some
                                && open_slot(ancestor(layers, parent, m)->0.keys, i)
                }
            } else {
                after == before
            }
        }),
{
    let parent = layers[j].parent;
    let after = transparency_resolved(layers)[j].keys[i];
    assert(after == slots_inherited(layers, layers[j])[i]);
    inherited_is_nearest(layers, parent, i, layers.len());
    inherited_is_solid(layers, parent, i, layers.len());
    if layers[j].keys[i] == Some(ActionV::Transparent) {
        match inherited(layers, parent, i, layers.len()) {
            None => {
                assert forall|k: nat| k < layers.len() implies match #[trigger] ancestor(
                    layers,
                    parent,
                    k,
                ) {
                    Some(l) => open_slot(l.keys, i),
                    None => true,
                } by {
                    nothing_inherited(layers, parent, i, layers.len(), k);
                }
            },
            Some(a) => {},
        }
    }
}

} // verus!
