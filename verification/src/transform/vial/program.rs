//! The plan of one programming run: what to write to which address of the
//! firmware, in which order.

use super::actions::{Macro, MacroActionV, TapDance, TapDanceV};
use super::keycode::Keycode;
use super::overrides::{mask_text, sym_diff, KeyOverride, KeyOverrideV, Override, OverrideV};
use super::pools::{
    coded, dances_view, macros_view, override_added, pool_view, Lowered, Pools, Vial,
};
use crate::error::Error;
use crate::keys::Key;
use crate::layout::action::{Action, ActionV};
use crate::layout::assemble::{Layout, LayoutV};
use crate::layout::layer::{overrides_view, slots_view, Layer, LayerV};
use crate::layout::layers::{find_layer, layer_of, layers_view};
use crate::parser::vial::{address, Item};
use crate::text::texts;
use crate::transform::order::ordered;
use vstd::prelude::*;

verus! {

/// What one layer is programmed with: the key code for each address, in the
/// order of the slots.
#[derive(Debug)]
pub struct LayerPlan {
    pub name: String,
    pub keys: Vec<(Item, Keycode)>,
}

/// The value of a [`LayerPlan`].
pub struct LayerPlanV {
    pub name: Seq<char>,
    pub keys: Seq<(Item, Seq<char>)>,
}

/// The values of a row of addressed key codes.
pub open spec fn keys_view(v: Seq<(Item, Keycode)>) -> Seq<(Item, Seq<char>)> {
    Seq::new(v.len(), |i: int| (v[i].0, v[i].1@))
}

impl View for LayerPlan {
    type V = LayerPlanV;

    open spec fn view(&self) -> LayerPlanV {
        LayerPlanV { name: self.name@, keys: keys_view(self.keys@) }
    }
}

/// A plan: the layers in the order in which the firmware numbers them, then
/// the macros and the tap dances, each numbered by its position, then the
/// overrides. `skipped` holds the error of each override that could not be
/// lifted and was left out.
#[derive(Debug)]
pub struct Plan {
    pub layers: Vec<LayerPlan>,
    pub macros: Vec<Macro>,
    pub tap_dances: Vec<TapDance>,
    pub overrides: Vec<KeyOverride>,
    pub skipped: Vec<Error>,
}

/// The value of a [`Plan`].
pub struct PlanV {
    pub layers: Seq<LayerPlanV>,
    pub macros: Seq<Seq<MacroActionV>>,
    pub tap_dances: Seq<TapDanceV>,
    pub overrides: Seq<KeyOverrideV>,
    pub skipped: Seq<Error>,
}

/// The values of a row of layer plans.
pub open spec fn plans_view(v: Seq<LayerPlan>) -> Seq<LayerPlanV> {
    Seq::new(v.len(), |i: int| v[i]@)
}

/// The values of a row of key overrides.
pub open spec fn key_overrides_view(v: Seq<KeyOverride>) -> Seq<KeyOverrideV> {
    Seq::new(v.len(), |i: int| v[i]@)
}

impl View for Plan {
    type V = PlanV;

    open spec fn view(&self) -> PlanV {
        PlanV {
            layers: plans_view(self.layers@),
            macros: macros_view(self.macros@),
            tap_dances: dances_view(self.tap_dances@),
            overrides: key_overrides_view(self.overrides@),
            skipped: self.skipped@,
        }
    }
}

/// The key codes of the slots from position `i` on, the pools handed from
/// one to the next; the first error ends it.
pub open spec fn slots_coded(
    keys: Seq<Option<ActionV>>,
    i: int,
    p: Pools,
    names: Seq<Seq<char>>,
) -> Lowered<Seq<Option<Seq<char>>>>
    decreases keys.len() - i,
{
    if i < 0 || i >= keys.len() {
        Lowered { result: Ok(Seq::empty()), pools: p }
    } else {
        match keys[i] {
            None => {
                let rest = slots_coded(keys, i + 1, p, names);
                match rest.result {
                    Err(e) => Lowered { result: Err(e), pools: rest.pools },
                    Ok(cs) => Lowered { result: Ok(seq![None] + cs), pools: rest.pools },
                }
            },
            Some(a) => {
                let c = coded(a, p, names);
                match c.result {
                    Err(e) => Lowered { result: Err(e), pools: c.pools },
                    Ok(k) => {
                        let rest = slots_coded(keys, i + 1, c.pools, names);
                        match rest.result {
                            Err(e) => Lowered { result: Err(e), pools: rest.pools },
                            Ok(cs) => Lowered { result: Ok(seq![Some(k)] + cs), pools: rest.pools },
                        }
                    },
                }
            },
        }
    }
}

/// The pooled overrides and the errors of those left out.
pub struct Pooled {
    pub pool: Seq<(OverrideV, u16)>,
    pub skipped: Seq<Error>,
}

/// What the overrides of a layer from position `k` on make of the pool: each
/// is added for the layer, or left out with its error.
pub open spec fn overrides_pooled(
    st: Pooled,
    layer: usize,
    os: Seq<crate::layout::layer::OverrideV>,
    k: int,
) -> Pooled
    decreases os.len() - k,
{
    if k < 0 || k >= os.len() {
        st
    } else {
        match override_added(st.pool, layer, os[k]) {
            Ok(pool) => overrides_pooled(Pooled { pool: pool, skipped: st.skipped }, layer, os, k + 1),
            Err(e) => overrides_pooled(
                Pooled { pool: st.pool, skipped: st.skipped.push(e) },
                layer,
                os,
                k + 1,
            ),
        }
    }
}

/// The state of a lowering between two layers.
pub struct Emit {
    pub pools: Pools,
    pub pooled: Pooled,
    pub layers: Seq<(Seq<char>, Seq<Option<Seq<char>>>)>,
}

/// What lowering the layers named from position `li` on makes of the state:
/// for each layer the key codes of its slots, then its overrides.
pub open spec fn layers_lowered(layers: Seq<LayerV>, names: Seq<Seq<char>>, li: int, st: Emit)
    -> Result<Emit, Error>
    decreases names.len() - li,
{
    if li < 0 || li >= names.len() {
        Ok(st)
    } else {
        match layer_of(layers, names[li]) {
            None => Err(Error::MissingLayer),
            Some(l) => {
                let c = slots_coded(l.keys, 0, st.pools, names);
                match c.result {
                    Err(e) => Err(e),
                    Ok(codes) => layers_lowered(
                        layers,
                        names,
                        li + 1,
                        Emit {
                            pools: c.pools,
                            pooled: overrides_pooled(st.pooled, li as usize, l.overrides, 0),
                            layers: st.layers.push((l.name, codes)),
                        },
                    ),
                }
            },
        }
    }
}

/// The override of a pool entry as it is sent, with its number.
pub open spec fn sent(o: OverrideV, mask: u16, i: int) -> KeyOverrideV {
    KeyOverrideV {
        index: i as u8,
        trigger: o.source,
        replacement: o.target,
        layers: mask,
        trigger_mods: mask_text(o.source_mods),
        suppressed_mods: mask_text(sym_diff(o.source_mods, o.target_mods)),
    }
}

/// The overrides of a pool from position `i` on as they are sent.
pub open spec fn overrides_sent(pool: Seq<(OverrideV, u16)>, i: int) -> Result<
    Seq<KeyOverrideV>,
    Error,
>
    decreases pool.len() - i,
{
    if i < 0 || i >= pool.len() {
        Ok(Seq::empty())
    } else if i > 255 {
        Err(Error::TooMany)
    } else {
        match overrides_sent(pool, i + 1) {
            Err(e) => Err(e),
            Ok(rest) => Ok(seq![sent(pool[i].0, pool[i].1, i)] + rest),
        }
    }
}

/// The addressed key codes of the slots from position `i` on: each bound
/// slot at the address of its key.
pub open spec fn addressed(
    codes: Seq<Option<Seq<char>>>,
    i: int,
    source: Seq<Key>,
    vial: Seq<(Key, Item)>,
) -> Result<Seq<(Item, Seq<char>)>, Error>
    decreases codes.len() - i,
{
    if i < 0 || i >= codes.len() {
        Ok(Seq::empty())
    } else {
        match codes[i] {
            None => addressed(codes, i + 1, source, vial),
            Some(c) => if i >= source.len() {
                Err(Error::MissingKey)
            } else {
                match address(vial, source[i], 0) {
                    None => Err(Error::MissingKey),
                    Some(item) => match addressed(codes, i + 1, source, vial) {
                        Err(e) => Err(e),
                        Ok(rest) => Ok(seq![(item, c)] + rest),
                    },
                }
            },
        }
    }
}

/// The plans of the lowered layers from position `j` on.
pub open spec fn layers_addressed(
    lowered: Seq<(Seq<char>, Seq<Option<Seq<char>>>)>,
    j: int,
    source: Seq<Key>,
    vial: Seq<(Key, Item)>,
) -> Result<Seq<LayerPlanV>, Error>
    decreases lowered.len() - j,
{
    if j < 0 || j >= lowered.len() {
        Ok(Seq::empty())
    } else {
        match addressed(lowered[j].1, 0, source, vial) {
            Err(e) => Err(e),
            Ok(keys) => match layers_addressed(lowered, j + 1, source, vial) {
                Err(e) => Err(e),
                Ok(rest) => Ok(seq![LayerPlanV { name: lowered[j].0, keys: keys }] + rest),
            },
        }
    }
}

/// The plan of a layout: the layers in the order of the back-ends, each slot
/// lowered to a key code at the address of its key, with the pools and the
/// overrides that the lowering fills.
pub open spec fn plan_of(layout: LayoutV) -> Result<PlanV, Error> {
    if layout.keyboard.vial.len() == 0 {
        Err(Error::MissingVial)
    } else {
        match ordered(layout.layers) {
            Err(e) => Err(e),
            Ok(names) => match layers_lowered(
                layout.layers,
                names,
                0,
                Emit {
                    pools: Pools { macros: Seq::empty(), tap_dances: Seq::empty() },
                    pooled: Pooled { pool: Seq::empty(), skipped: Seq::empty() },
                    layers: Seq::empty(),
                },
            ) {
                Err(e) => Err(e),
                Ok(st) => match overrides_sent(st.pooled.pool, 0) {
                    Err(e) => Err(e),
                    Ok(overrides) => match layers_addressed(
                        st.layers,
                        0,
                        layout.keyboard.source,
                        layout.keyboard.vial,
                    ) {
                        Err(e) => Err(e),
                        Ok(layers) => Ok(
                            PlanV {
                                layers: layers,
                                macros: st.pools.macros,
                                tap_dances: st.pools.tap_dances,
                                overrides: overrides,
                                skipped: st.pooled.skipped,
                            },
                        ),
                    },
                },
            },
        }
    }
}

/// The value of an optional key code.
pub open spec fn code_view(o: Option<Keycode>) -> Option<Seq<char>> {
    match o {
        Some(k) => Some(k@),
        None => None,
    }
}

/// The values of a row of optional key codes.
pub open spec fn codes_view(v: Seq<Option<Keycode>>) -> Seq<Option<Seq<char>>> {
    Seq::new(v.len(), |i: int| code_view(v[i]))
}

/// The values of a row of lowered layers.
pub open spec fn lowered_view(v: Seq<(String, Vec<Option<Keycode>>)>) -> Seq<
    (Seq<char>, Seq<Option<Seq<char>>>),
> {
    Seq::new(v.len(), |i: int| (v[i].0@, codes_view(v[i].1@)))
}

#[verifier::loop_isolation(false)]
fn code_slots(vial: &mut Vial, keys: &Vec<Option<Action>>) -> (r: Result<
    Vec<Option<Keycode>>,
    Error,
>)
    ensures
        final(vial).pools() == slots_coded(
            slots_view(keys@),
            0,
            old(vial).pools(),
            texts(old(vial).layers@),
        ).pools,
        final(vial).layers == old(vial).layers,
        final(vial).overrides == old(vial).overrides,
        match r {
            Ok(cs) => slots_coded(
                slots_view(keys@),
                0,
                old(vial).pools(),
                texts(old(vial).layers@),
            ).result == Ok::<Seq<Option<Seq<char>>>, Error>(codes_view(cs@)),
            Err(e) => slots_coded(
                slots_view(keys@),
                0,
                old(vial).pools(),
                texts(old(vial).layers@),
            ).result == Err::<Seq<Option<Seq<char>>>, Error>(e),
        },
{
    let ghost kv = slots_view(keys@);
    let ghost p0 = vial.pools();
    let ghost ls = texts(vial.layers@);
    let mut out: Vec<Option<Keycode>> = Vec::new();
    let mut i: usize = 0;
    assert(codes_view(out@) =~= Seq::<Option<Seq<char>>>::empty());
    while i < keys.len()
        invariant
            i <= keys.len(),
            vial.layers == old(vial).layers,
            vial.overrides == old(vial).overrides,
            slots_coded(kv, 0, p0, ls) == ({
                let rest = slots_coded(kv, i as int, vial.pools(), ls);
                match rest.result {
                    Ok(cs) => Lowered::<Seq<Option<Seq<char>>>> {
                        result: Ok(codes_view(out@) + cs),
                        pools: rest.pools,
                    },
                    Err(e) => Lowered { result: Err(e), pools: rest.pools },
                }
            }),
        decreases keys.len() - i,
    {
        let ghost before = codes_view(out@);
        let item: Option<Keycode> = match &keys[i] {
            None => None,
            Some(a) => match vial.action_to_keycode(a) {
                Ok(k) => Some(k),
                Err(e) => {
                    return Err(e);
                },
            },
        };
        let ghost h: Option<Seq<char>> = code_view(item);
        proof {
            let rest = slots_coded(kv, i + 1, vial.pools(), ls);
            match rest.result {
                Ok(cs) => {
                    assert(before + (seq![h] + cs) =~= before.push(h) + cs);
                },
                Err(_) => {},
            }
        }
        out.push(item);
        assert(codes_view(out@) =~= before.push(h));
        i = i + 1;
    }
    assert(codes_view(out@) + Seq::<Option<Seq<char>>>::empty() =~= codes_view(out@));
    Ok(out)
}

#[verifier::loop_isolation(false)]
fn pool_overrides(
    vial: &mut Vial,
    skipped: &mut Vec<Error>,
    layer: usize,
    os: &Vec<crate::layout::layer::Override>,
)
    ensures
        final(vial).pools() == old(vial).pools(),
        final(vial).layers == old(vial).layers,
        (Pooled { pool: pool_view(final(vial).overrides@), skipped: final(skipped)@ })
            == overrides_pooled(
            Pooled { pool: pool_view(old(vial).overrides@), skipped: old(skipped)@ },
            layer,
            overrides_view(os@),
            0,
        ),
{
    let ghost ov = overrides_view(os@);
    let ghost st0 = Pooled { pool: pool_view(vial.overrides@), skipped: skipped@ };
    let mut k: usize = 0;
    while k < os.len()
        invariant
            k <= os.len(),
            vial.pools() == old(vial).pools(),
            vial.layers == old(vial).layers,
            overrides_pooled(st0, layer, ov, 0) == overrides_pooled(
                Pooled { pool: pool_view(vial.overrides@), skipped: skipped@ },
                layer,
                ov,
                k as int,
            ),
        decreases os.len() - k,
    {
        assert(ov[k as int] == os@[k as int]@);
        match vial.add_override(layer, &os[k]) {
            Ok(_) => {},
            Err(e) => {
                skipped.push(e);
            },
        }
        k = k + 1;
    }
}

#[verifier::loop_isolation(false)]
fn send_overrides(pool: &Vec<(Override, u16)>) -> (r: Result<Vec<KeyOverride>, Error>)
    ensures
        match r {
            Ok(os) => overrides_sent(pool_view(pool@), 0) == Ok::<Seq<KeyOverrideV>, Error>(
                key_overrides_view(os@),
            ),
            Err(e) => overrides_sent(pool_view(pool@), 0) == Err::<Seq<KeyOverrideV>, Error>(e),
        },
{
    let ghost pv = pool_view(pool@);
    let mut out: Vec<KeyOverride> = Vec::new();
    let mut i: usize = 0;
    assert(key_overrides_view(out@) =~= Seq::<KeyOverrideV>::empty());
    while i < pool.len()
        invariant
            i <= pool.len(),
            overrides_sent(pv, 0) == (match overrides_sent(pv, i as int) {
                Ok(rest) => Ok::<Seq<KeyOverrideV>, Error>(key_overrides_view(out@) + rest),
                Err(e) => Err(e),
            }),
        decreases pool.len() - i,
    {
        let o = match pool[i].0.to_key_override(pool[i].1, i) {
            Ok(o) => o,
            Err(e) => {
                return Err(e);
            },
        };
        let ghost before = key_overrides_view(out@);
        proof {
            match overrides_sent(pv, i + 1) {
                Ok(rest) => {
                    assert(before + (seq![o@] + rest) =~= before.push(o@) + rest);
                },
                Err(_) => {},
            }
        }
        out.push(o);
        assert(key_overrides_view(out@) =~= before.push(o@));
        i = i + 1;
    }
    assert(key_overrides_view(out@) + Seq::<KeyOverrideV>::empty() =~= key_overrides_view(out@));
    Ok(out)
}

#[verifier::loop_isolation(false)]
fn address_slots(codes: &Vec<Option<Keycode>>, source: &Vec<Key>, vial: &crate::parser::vial::Vial)
    -> (r: Result<Vec<(Item, Keycode)>, Error>)
    ensures
        match r {
            Ok(ks) => addressed(codes_view(codes@), 0, source@, vial@) == Ok::<
                Seq<(Item, Seq<char>)>,
                Error,
            >(keys_view(ks@)),
            Err(e) => addressed(codes_view(codes@), 0, source@, vial@) == Err::<
                Seq<(Item, Seq<char>)>,
                Error,
            >(e),
        },
{
    let ghost cv = codes_view(codes@);
    let mut out: Vec<(Item, Keycode)> = Vec::new();
    let mut i: usize = 0;
    assert(keys_view(out@) =~= Seq::<(Item, Seq<char>)>::empty());
    while i < codes.len()
        invariant
            i <= codes.len(),
            addressed(cv, 0, source@, vial@) == (match addressed(cv, i as int, source@, vial@) {
                Ok(rest) => Ok::<Seq<(Item, Seq<char>)>, Error>(keys_view(out@) + rest),
                Err(e) => Err(e),
            }),
        decreases codes.len() - i,
    {
        match &codes[i] {
            None => {},
            Some(c) => {
                if i >= source.len() {
                    return Err(Error::MissingKey);
                }
                let item = match vial.get(source[i]) {
                    Some(it) => it,
                    None => {
                        return Err(Error::MissingKey);
                    },
                };
                let ghost before = keys_view(out@);
                let code = c.clone();
                proof {
                    match addressed(cv, i + 1, source@, vial@) {
                        Ok(rest) => {
                            assert(before + (seq![(item, code@)] + rest) =~= before.push(
                                (item, code@),
                            ) + rest);
                        },
                        Err(_) => {},
                    }
                }
                out.push((item, code));
                assert(keys_view(out@) =~= before.push((item, code@)));
            },
        }
        i = i + 1;
    }
    assert(keys_view(out@) + Seq::<(Item, Seq<char>)>::empty() =~= keys_view(out@));
    Ok(out)
}

impl Layout {
    /// The plan that programs the firmware with this layout.
    #[verifier::loop_isolation(false)]
    pub fn vial(&self) -> (r: Result<Plan, Error>)
        ensures
            match r {
                Ok(p) => plan_of(self@) == Ok::<PlanV, Error>(p@),
                Err(e) => plan_of(self@) == Err::<PlanV, Error>(e),
            },
    {
        if self.keyboard.vial.len() == 0 {
            return Err(Error::MissingVial);
        }
        let names = match self.sorted_layers() {
            Ok(n) => n,
            Err(e) => {
                return Err(e);
            },
        };
        let ghost lv = self@.layers;
        let ghost ns = texts(names@);
        let mut vial = Vial::new(names);
        let mut skipped: Vec<Error> = Vec::new();
        let mut lowered: Vec<(String, Vec<Option<Keycode>>)> = Vec::new();
        let n = vial.layers.len();
        let mut li: usize = 0;
        assert(pool_view(vial.overrides@) =~= Seq::empty());
        assert(lowered_view(lowered@) =~= Seq::empty());
        let ghost st0 = Emit {
            pools: Pools { macros: Seq::empty(), tap_dances: Seq::empty() },
            pooled: Pooled { pool: Seq::empty(), skipped: Seq::empty() },
            layers: Seq::empty(),
        };
        while li < n
            invariant
                li <= n,
                n == vial.layers.len(),
                texts(vial.layers@) == ns,
                layers_lowered(lv, ns, 0, st0) == layers_lowered(
                    lv,
                    ns,
                    li as int,
                    Emit {
                        pools: vial.pools(),
                        pooled: Pooled { pool: pool_view(vial.overrides@), skipped: skipped@ },
                        layers: lowered_view(lowered@),
                    },
                ),
            decreases n - li,
        {
            assert(ns[li as int] == vial.layers@[li as int]@);
            let p = match find_layer(&self.layers, vial.layers[li].as_str()) {
                Some(p) => p,
                None => {
                    return Err(Error::MissingLayer);
                },
            };
            let layer = &self.layers[p];
            assert(lv[p as int] == layer@);
            let codes = match code_slots(&mut vial, &layer.keys) {
                Ok(c) => c,
                Err(e) => {
                    return Err(e);
                },
            };
            pool_overrides(&mut vial, &mut skipped, li, &layer.overrides);
            let ghost before = lowered_view(lowered@);
            let ghost cv = codes_view(codes@);
            lowered.push((layer.name.clone(), codes));
            assert(lowered_view(lowered@) =~= before.push((layer@.name, cv)));
            li = li + 1;
        }
        let overrides = match send_overrides(&vial.overrides) {
            Ok(o) => o,
            Err(e) => {
                return Err(e);
            },
        };
        let ghost all = lowered_view(lowered@);
        let mut layers: Vec<LayerPlan> = Vec::new();
        let mut j: usize = 0;
        assert(plans_view(layers@) =~= Seq::<LayerPlanV>::empty());
        while j < lowered.len()
            invariant
                j <= lowered.len(),
                all == lowered_view(lowered@),
                layers_addressed(all, 0, self@.keyboard.source, self@.keyboard.vial) == (
                match layers_addressed(all, j as int, self@.keyboard.source, self@.keyboard.vial) {
                    Ok(rest) => Ok::<Seq<LayerPlanV>, Error>(plans_view(layers@) + rest),
                    Err(e) => Err(e),
                }),
            decreases lowered.len() - j,
        {
            let keys = match address_slots(
                &lowered[j].1,
                &self.keyboard.source,
                &self.keyboard.vial,
            ) {
                Ok(k) => k,
                Err(e) => {
                    return Err(e);
                },
            };
            let plan = LayerPlan { name: lowered[j].0.clone(), keys: keys };
            let ghost before = plans_view(layers@);
            proof {
                match layers_addressed(all, j + 1, self@.keyboard.source, self@.keyboard.vial) {
                    Ok(rest) => {
                        assert(before + (seq![plan@] + rest) =~= before.push(plan@) + rest);
                    },
                    Err(_) => {},
                }
            }
            layers.push(plan);
            assert(plans_view(layers@) =~= before.push(plan@));
            j = j + 1;
        }
        assert(plans_view(layers@) + Seq::<LayerPlanV>::empty() =~= plans_view(layers@));
        Ok(
            Plan {
                layers: layers,
                macros: vial.macros,
                tap_dances: vial.tap_dances,
                overrides: overrides,
                skipped: skipped,
            },
        )
    }
}

} // verus!
