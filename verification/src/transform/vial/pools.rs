//! The pools of tap dances and macros, and the lowering that fills them.

use super::actions::{
    dance, direct, direct_name, steps_view, Macro, MacroAction, MacroActionV, TapDance, TapDanceV,
    VialAction, VialActionV,
};
use super::keycode::{code_name, Keycode};
use super::overrides::Override;
use crate::error::Error;
use crate::keys::{mods_of, plain_of, split_mods, Key};
use crate::layout::action::{tap_keys, taps, value, views, Action, ActionV};
use crate::text::{decimal, push_decimal, texts};
use vstd::prelude::*;
use vstd::string::StringExecFns;

verus! {

/// How many tap dances, and how many macros, the firmware can number.
pub const POOL_LIMIT: usize = 256;

/// The state of one lowering: the pools of macros and tap dances, each entry
/// numbered by its position; the layers in the order in which the firmware
/// numbers them; and the pooled overrides, each with the mask of the layers
/// on which it is active.
pub struct Vial {
    pub macros: Vec<Macro>,
    pub tap_dances: Vec<TapDance>,
    pub layers: Vec<String>,
    pub overrides: Vec<(Override, u16)>,
}

/// The value of the two pools.
pub struct Pools {
    pub macros: Seq<Seq<MacroActionV>>,
    pub tap_dances: Seq<TapDanceV>,
}

/// What a lowering step gives: its result and the pools after it.
pub struct Lowered<T> {
    pub result: Result<T, Error>,
    pub pools: Pools,
}

/// The values of a row of macros.
pub open spec fn macros_view(v: Seq<Macro>) -> Seq<Seq<MacroActionV>> {
    Seq::new(v.len(), |i: int| v[i]@)
}

/// The values of a row of tap dances.
pub open spec fn dances_view(v: Seq<TapDance>) -> Seq<TapDanceV> {
    Seq::new(v.len(), |i: int| v[i]@)
}

/// The first position from `i` on at which the macro `m` stands in the pool.
pub open spec fn macro_at(pool: Seq<Seq<MacroActionV>>, m: Seq<MacroActionV>, i: int) -> Option<
    int,
>
    decreases pool.len() - i,
{
    if i < 0 || i >= pool.len() {
        None
    } else if pool[i] == m {
        Some(i)
    } else {
        macro_at(pool, m, i + 1)
    }
}

/// The first position from `i` on at which a tap dance like `td` stands in
/// the pool.
pub open spec fn dance_at(pool: Seq<TapDanceV>, td: TapDanceV, i: int) -> Option<int>
    decreases pool.len() - i,
{
    if i < 0 || i >= pool.len() {
        None
    } else if pool[i].alike(td) {
        Some(i)
    } else {
        dance_at(pool, td, i + 1)
    }
}

/// Interning a macro: the number of the equal macro that the pool holds, or
/// the next free number, with the macro added; an error where the number is
/// beyond what the firmware can hold.
pub open spec fn with_macro(p: Pools, m: Seq<MacroActionV>) -> Lowered<int> {
    match macro_at(p.macros, m, 0) {
        Some(i) => if i >= POOL_LIMIT {
            Lowered { result: Err(Error::TooMany), pools: p }
        } else {
            Lowered { result: Ok(i), pools: p }
        },
        None => if p.macros.len() >= POOL_LIMIT {
            Lowered { result: Err(Error::TooMany), pools: p }
        } else {
            Lowered {
                result: Ok(p.macros.len() as int),
                pools: Pools { macros: p.macros.push(m), tap_dances: p.tap_dances },
            }
        },
    }
}

/// Interning a tap dance, as for a macro.
pub open spec fn with_dance(p: Pools, td: TapDanceV) -> Lowered<int> {
    match dance_at(p.tap_dances, td, 0) {
        Some(i) => if i >= POOL_LIMIT {
            Lowered { result: Err(Error::TooMany), pools: p }
        } else {
            Lowered { result: Ok(i), pools: p }
        },
        None => if p.tap_dances.len() >= POOL_LIMIT {
            Lowered { result: Err(Error::TooMany), pools: p }
        } else {
            Lowered {
                result: Ok(p.tap_dances.len() as int),
                pools: Pools { macros: p.macros, tap_dances: p.tap_dances.push(td) },
            }
        },
    }
}

/// A tap step for each key code.
pub open spec fn tap_steps(codes: Seq<Seq<char>>) -> Seq<MacroActionV> {
    Seq::new(codes.len(), |i: int| MacroActionV::Tap(codes[i]))
}

/// The steps with a delay of 0 put between every two taps that follow each
/// other.
pub open spec fn with_delays(s: Seq<MacroActionV>) -> Seq<MacroActionV>
    decreases s.len(),
{
    if s.len() == 0 {
        Seq::empty()
    } else {
        let init = with_delays(s.drop_last());
        if init.len() > 0 && init.last() is Tap && s.last() is Tap {
            init.push(MacroActionV::Delay(0)).push(s.last())
        } else {
            init.push(s.last())
        }
    }
}

/// What an action lowers to, and what the pools hold afterwards. An action
/// with a key code name of its own lowers to it. Any other tap-hold becomes
/// a tap dance of the key codes of its halves; any other multi a macro that
/// taps the key code of each part; a sequence a macro of its steps with
/// delays between taps.
pub open spec fn lowered(a: ActionV, p: Pools, layers: Seq<Seq<char>>) -> Lowered<VialActionV>
    decreases a, 0int,
{
    match direct(a, layers) {
        Some(Ok(n)) => Lowered { result: Ok(VialActionV::Keycode(n)), pools: p },
        Some(Err(e)) => Lowered { result: Err(e), pools: p },
        None => match a {
            ActionV::TapHold(tap, hold) => {
                let t = coded(*tap, p, layers);
                match t.result {
                    Err(e) => Lowered { result: Err(e), pools: t.pools },
                    Ok(tk) => {
                        let h = coded(*hold, t.pools, layers);
                        match h.result {
                            Err(e) => Lowered { result: Err(e), pools: h.pools },
                            Ok(hk) => Lowered {
                                result: Ok(VialActionV::TapDance(dance(tk, hk))),
                                pools: h.pools,
                            },
                        }
                    },
                }
            },
            ActionV::Multi(v) => {
                let r = coded_row(v, 0, p, layers);
                match r.result {
                    Err(e) => Lowered { result: Err(e), pools: r.pools },
                    Ok(codes) => Lowered {
                        result: Ok(VialActionV::Macro(tap_steps(codes))),
                        pools: r.pools,
                    },
                }
            },
            ActionV::Sequence(v) => {
                let r = steps(v, 0, p, layers);
                match r.result {
                    Err(e) => Lowered { result: Err(e), pools: r.pools },
                    Ok(s) => Lowered {
                        result: Ok(VialActionV::Macro(with_delays(s))),
                        pools: r.pools,
                    },
                }
            },
            _ => Lowered { result: Err(Error::Unsupported), pools: p },
        },
    }
}

/// The key code name that an action lowers to: its own, or `TD(n)` and `Mn`
/// for the tap dance and the macro that it becomes, interned in the pools.
pub open spec fn coded(a: ActionV, p: Pools, layers: Seq<Seq<char>>) -> Lowered<Seq<char>>
    decreases a, 1int,
{
    let l = lowered(a, p, layers);
    match l.result {
        Err(e) => Lowered { result: Err(e), pools: l.pools },
        Ok(VialActionV::Keycode(k)) => Lowered { result: Ok(k), pools: l.pools },
        Ok(VialActionV::TapDance(td)) => {
            let w = with_dance(l.pools, td);
            match w.result {
                Err(e) => Lowered { result: Err(e), pools: w.pools },
                Ok(id) => Lowered {
                    result: Ok("TD("@ + decimal(id as nat) + ")"@),
                    pools: w.pools,
                },
            }
        },
        Ok(VialActionV::Macro(m)) => {
            let w = with_macro(l.pools, m);
            match w.result {
                Err(e) => Lowered { result: Err(e), pools: w.pools },
                Ok(id) => Lowered { result: Ok("M"@ + decimal(id as nat)), pools: w.pools },
            }
        },
    }
}

/// `coded` on each action of a row from position `i` on, the pools handed
/// from one to the next; the first error ends it.
pub open spec fn coded_row(v: Seq<ActionV>, i: int, p: Pools, layers: Seq<Seq<char>>) -> Lowered<
    Seq<Seq<char>>,
>
    decreases v, v.len() - i,
{
    if i < 0 || i >= v.len() {
        Lowered { result: Ok(Seq::empty()), pools: p }
    } else {
        let c = coded(v[i], p, layers);
        match c.result {
            Err(e) => Lowered { result: Err(e), pools: c.pools },
            Ok(k) => {
                let rest = coded_row(v, i + 1, c.pools, layers);
                match rest.result {
                    Err(e) => Lowered { result: Err(e), pools: rest.pools },
                    Ok(ks) => Lowered { result: Ok(seq![k] + ks), pools: rest.pools },
                }
            },
        }
    }
}

/// The steps of a sequence from position `i` on: a hold presses, a release
/// lets go, anything else taps the key code that it lowers to.
pub open spec fn steps(v: Seq<ActionV>, i: int, p: Pools, layers: Seq<Seq<char>>) -> Lowered<
    Seq<MacroActionV>,
>
    decreases v, v.len() - i,
{
    if i < 0 || i >= v.len() {
        Lowered { result: Ok(Seq::empty()), pools: p }
    } else {
        let c = step(v[i], p, layers);
        match c.result {
            Err(e) => Lowered { result: Err(e), pools: c.pools },
            Ok(s) => {
                let rest = steps(v, i + 1, c.pools, layers);
                match rest.result {
                    Err(e) => Lowered { result: Err(e), pools: rest.pools },
                    Ok(ss) => Lowered { result: Ok(seq![s] + ss), pools: rest.pools },
                }
            },
        }
    }
}

/// One step of a sequence.
pub open spec fn step(a: ActionV, p: Pools, layers: Seq<Seq<char>>) -> Lowered<MacroActionV>
    decreases a, 2int,
{
    match a {
        ActionV::Hold(k) => Lowered { result: Ok(MacroActionV::Down(code_name(k))), pools: p },
        ActionV::Release(k) => Lowered { result: Ok(MacroActionV::Up(code_name(k))), pools: p },
        _ => {
            let c = coded(a, p, layers);
            match c.result {
                Err(e) => Lowered { result: Err(e), pools: c.pools },
                Ok(k) => Lowered { result: Ok(MacroActionV::Tap(k)), pools: c.pools },
            }
        },
    }
}

fn delayed(s: &Vec<MacroAction>) -> (r: Vec<MacroAction>)
    ensures
        steps_view(r@) == with_delays(steps_view(s@)),
{
    let ghost sv = steps_view(s@);
    let mut out: Vec<MacroAction> = Vec::new();
    let mut i: usize = 0;
    assert(sv.take(0) =~= Seq::<MacroActionV>::empty());
    assert(steps_view(out@) =~= Seq::<MacroActionV>::empty());
    while i < s.len()
        invariant
            i <= s.len(),
            sv == steps_view(s@),
            steps_view(out@) == with_delays(sv.take(i as int)),
        decreases s.len() - i,
    {
        let ghost before = steps_view(out@);
        assert(sv.take(i + 1).drop_last() =~= sv.take(i as int));
        assert(sv.take(i + 1).last() == s@[i as int]@);
        let n = out.len();
        let after_tap = n > 0 && is_tap(&out[n - 1]);
        assert(n > 0 ==> before.last() == out@[n - 1]@);
        if after_tap && is_tap(&s[i]) {
            out.push(MacroAction::Delay(0));
            assert(steps_view(out@) =~= before.push(MacroActionV::Delay(0)));
        }
        let ghost mid = steps_view(out@);
        let item = s[i].clone();
        out.push(item);
        assert(steps_view(out@) =~= mid.push(item@));
        i = i + 1;
    }
    assert(sv.take(i as int) =~= sv);
    out
}

fn is_tap(s: &MacroAction) -> (r: bool)
    ensures
        r == (s@ is Tap),
{
    match s {
        MacroAction::Tap(_) => true,
        _ => false,
    }
}

impl Vial {
    /// The value of the two pools.
    pub open spec fn pools(&self) -> Pools {
        Pools { macros: macros_view(self.macros@), tap_dances: dances_view(self.tap_dances@) }
    }

    /// An empty state for the given layers.
    pub fn new(layers: Vec<String>) -> (r: Vial)
        ensures
            r.layers == layers,
            r.pools() == (Pools { macros: Seq::empty(), tap_dances: Seq::empty() }),
            r.overrides@.len() == 0,
    {
        let r = Vial {
            macros: Vec::new(),
            tap_dances: Vec::new(),
            layers: layers,
            overrides: Vec::new(),
        };
        assert(r.pools().macros =~= Seq::empty());
        assert(r.pools().tap_dances =~= Seq::empty());
        r
    }

    /// The number that the firmware gives to a layer.
    pub fn layer_by_name(&self, name: &str) -> (r: Option<usize>)
        ensures
            match r {
                Some(i) => super::actions::index_of(texts(self.layers@), name@, 0) == Some(
                    i as int,
                ),
                None => super::actions::index_of(texts(self.layers@), name@, 0).is_none(),
            },
    {
        super::actions::find_name(&self.layers, name)
    }

    /// Interns a tap dance and gives its number.
    pub fn tap_dance(&mut self, td: TapDance) -> (r: Result<u8, Error>)
        ensures
            final(self).pools() == with_dance(old(self).pools(), td@).pools,
            final(self).layers == old(self).layers,
            final(self).overrides == old(self).overrides,
            match r {
                Ok(id) => with_dance(old(self).pools(), td@).result == Ok::<int, Error>(id as int),
                Err(e) => with_dance(old(self).pools(), td@).result == Err::<int, Error>(e),
            },
    {
        let ghost pool = dances_view(self.tap_dances@);
        let mut i: usize = 0;
        while i < self.tap_dances.len()
            invariant
                i <= self.tap_dances.len(),
                *self == *old(self),
                pool == dances_view(self.tap_dances@),
                dance_at(pool, td@, 0) == dance_at(pool, td@, i as int),
            decreases self.tap_dances.len() - i,
        {
            if self.tap_dances[i].same(&td) {
                if i >= POOL_LIMIT {
                    return Err(Error::TooMany);
                }
                return Ok(i as u8);
            }
            i = i + 1;
        }
        if self.tap_dances.len() >= POOL_LIMIT {
            return Err(Error::TooMany);
        }
        let id = self.tap_dances.len() as u8;
        self.tap_dances.push(td);
        assert(dances_view(self.tap_dances@) =~= pool.push(td@));
        assert(macros_view(self.macros@) == macros_view(old(self).macros@));
        Ok(id)
    }

    /// Interns a macro and gives its number.
    pub fn macros(&mut self, m: Macro) -> (r: Result<u8, Error>)
        ensures
            final(self).pools() == with_macro(old(self).pools(), m@).pools,
            final(self).layers == old(self).layers,
            final(self).overrides == old(self).overrides,
            match r {
                Ok(id) => with_macro(old(self).pools(), m@).result == Ok::<int, Error>(id as int),
                Err(e) => with_macro(old(self).pools(), m@).result == Err::<int, Error>(e),
            },
    {
        let ghost pool = macros_view(self.macros@);
        let mut i: usize = 0;
        while i < self.macros.len()
            invariant
                i <= self.macros.len(),
                *self == *old(self),
                pool == macros_view(self.macros@),
                macro_at(pool, m@, 0) == macro_at(pool, m@, i as int),
            decreases self.macros.len() - i,
        {
            if self.macros[i].same(&m) {
                if i >= POOL_LIMIT {
                    return Err(Error::TooMany);
                }
                return Ok(i as u8);
            }
            i = i + 1;
        }
        if self.macros.len() >= POOL_LIMIT {
            return Err(Error::TooMany);
        }
        let id = self.macros.len() as u8;
        self.macros.push(m);
        assert(macros_view(self.macros@) =~= pool.push(m@));
        assert(dances_view(self.tap_dances@) == dances_view(old(self).tap_dances@));
        Ok(id)
    }

    /// Lowers an action, interning in the pools the tap dances and macros
    /// that stand inside it.
    #[verifier::loop_isolation(false)]
    pub fn action_to_vial(&mut self, action: &Action) -> (r: Result<VialAction, Error>)
        ensures
            final(self).pools() == lowered(
                action@,
                old(self).pools(),
                texts(old(self).layers@),
            ).pools,
            final(self).layers == old(self).layers,
            final(self).overrides == old(self).overrides,
            match r {
                Ok(a) => lowered(action@, old(self).pools(), texts(old(self).layers@)).result
                    == Ok::<VialActionV, Error>(a@),
                Err(e) => lowered(action@, old(self).pools(), texts(old(self).layers@)).result
                    == Err::<VialActionV, Error>(e),
            },
        decreases action, 0int,
    {
        let ghost p0 = self.pools();
        let ghost ls = texts(self.layers@);
        match direct_name(action, &self.layers) {
            Some(Ok(n)) => {
                return Ok(VialAction::Keycode(Keycode(n)));
            },
            Some(Err(e)) => {
                return Err(e);
            },
            None => {},
        }
        match action {
            Action::TapHold(tap, hold) => {
                let tk = match self.action_to_keycode(tap) {
                    Ok(k) => k,
                    Err(e) => {
                        return Err(e);
                    },
                };
                let hk = match self.action_to_keycode(hold) {
                    Ok(k) => k,
                    Err(e) => {
                        return Err(e);
                    },
                };
                Ok(VialAction::tap_hold(tk, hk))
            },
            Action::Multi(v) => match self.tap_row(v) {
                Ok(out) => Ok(VialAction::Macro(Macro(out))),
                Err(e) => Err(e),
            },
            Action::Sequence(v) => match self.step_row(v) {
                Ok(out) => Ok(VialAction::Macro(Macro(delayed(&out)))),
                Err(e) => Err(e),
            },
            _ => Err(Error::Unsupported),
        }
    }

    #[verifier::loop_isolation(false)]
    fn tap_row(&mut self, v: &Vec<Action>) -> (r: Result<Vec<MacroAction>, Error>)
        ensures
            final(self).pools() == coded_row(
                views(v@),
                0,
                old(self).pools(),
                texts(old(self).layers@),
            ).pools,
            final(self).layers == old(self).layers,
            final(self).overrides == old(self).overrides,
            match r {
                Ok(out) => match coded_row(
                    views(v@),
                    0,
                    old(self).pools(),
                    texts(old(self).layers@),
                ).result {
                    Ok(codes) => steps_view(out@) == tap_steps(codes),
                    Err(_) => false,
                },
                Err(e) => coded_row(
                    views(v@),
                    0,
                    old(self).pools(),
                    texts(old(self).layers@),
                ).result == Err::<Seq<Seq<char>>, Error>(e),
            },
        decreases v, 0int,
    {
        let ghost p0 = self.pools();
        let ghost ls = texts(self.layers@);
        let ghost vs = views(v@);
        let mut out: Vec<MacroAction> = Vec::new();
        let ghost mut codes: Seq<Seq<char>> = Seq::empty();
        let mut i: usize = 0;
        assert(steps_view(out@) =~= tap_steps(codes));
        while i < v.len()
            invariant
                i <= v.len(),
                self.layers == old(self).layers,
                self.overrides == old(self).overrides,
                steps_view(out@) == tap_steps(codes),
                coded_row(vs, 0, p0, ls) == ({
                    let rest = coded_row(vs, i as int, self.pools(), ls);
                    match rest.result {
                        Ok(ks) => Lowered::<Seq<Seq<char>>> {
                            result: Ok(codes + ks),
                            pools: rest.pools,
                        },
                        Err(e) => Lowered { result: Err(e), pools: rest.pools },
                    }
                }),
            decreases v.len() - i,
        {
            match self.action_to_keycode(&v[i]) {
                Err(e) => {
                    return Err(e);
                },
                Ok(k) => {
                    let ghost before = steps_view(out@);
                    proof {
                        let rest = coded_row(vs, i + 1, self.pools(), ls);
                        match rest.result {
                            Ok(ks) => {
                                assert(codes + (seq![k@] + ks) =~= codes.push(k@) + ks);
                            },
                            Err(_) => {},
                        }
                    }
                    let step = MacroAction::Tap(k);
                    out.push(step);
                    proof {
                        assert(steps_view(out@) =~= before.push(step@));
                        assert(tap_steps(codes.push(k@)) =~= tap_steps(codes).push(step@));
                        codes = codes.push(k@);
                    }
                },
            }
            i = i + 1;
        }
        assert(codes + Seq::<Seq<char>>::empty() =~= codes);
        Ok(out)
    }

    fn step_of(&mut self, a: &Action) -> (r: Result<MacroAction, Error>)
        ensures
            final(self).pools() == step(a@, old(self).pools(), texts(old(self).layers@)).pools,
            final(self).layers == old(self).layers,
            final(self).overrides == old(self).overrides,
            match r {
                Ok(s) => step(a@, old(self).pools(), texts(old(self).layers@)).result == Ok::<
                    MacroActionV,
                    Error,
                >(s@),
                Err(e) => step(a@, old(self).pools(), texts(old(self).layers@)).result == Err::<
                    MacroActionV,
                    Error,
                >(e),
            },
        decreases a, 2int,
    {
        match a {
            Action::Hold(k) => Ok(MacroAction::Down(Keycode::from_key(k))),
            Action::Release(k) => Ok(MacroAction::Up(Keycode::from_key(k))),
            _ => match self.action_to_keycode(a) {
                Ok(k) => Ok(MacroAction::Tap(k)),
                Err(e) => Err(e),
            },
        }
    }

    #[verifier::loop_isolation(false)]
    fn step_row(&mut self, v: &Vec<Action>) -> (r: Result<Vec<MacroAction>, Error>)
        ensures
            final(self).pools() == steps(
                views(v@),
                0,
                old(self).pools(),
                texts(old(self).layers@),
            ).pools,
            final(self).layers == old(self).layers,
            final(self).overrides == old(self).overrides,
            match r {
                Ok(out) => steps(views(v@), 0, old(self).pools(), texts(old(self).layers@)).result
                    == Ok::<Seq<MacroActionV>, Error>(steps_view(out@)),
                Err(e) => steps(views(v@), 0, old(self).pools(), texts(old(self).layers@)).result
                    == Err::<Seq<MacroActionV>, Error>(e),
            },
        decreases v, 0int,
    {
        let ghost p0 = self.pools();
        let ghost ls = texts(self.layers@);
        let ghost vs = views(v@);
        let mut out: Vec<MacroAction> = Vec::new();
        let mut i: usize = 0;
        assert(steps_view(out@) =~= Seq::<MacroActionV>::empty());
        while i < v.len()
            invariant
                i <= v.len(),
                self.layers == old(self).layers,
                self.overrides == old(self).overrides,
                steps(vs, 0, p0, ls) == ({
                    let rest = steps(vs, i as int, self.pools(), ls);
                    match rest.result {
                        Ok(ss) => Lowered::<Seq<MacroActionV>> {
                            result: Ok(steps_view(out@) + ss),
                            pools: rest.pools,
                        },
                        Err(e) => Lowered { result: Err(e), pools: rest.pools },
                    }
                }),
            decreases v.len() - i,
        {
            match self.step_of(&v[i]) {
                Err(e) => {
                    return Err(e);
                },
                Ok(s) => {
                    let ghost before = steps_view(out@);
                    proof {
                        let rest = steps(vs, i + 1, self.pools(), ls);
                        match rest.result {
                            Ok(ss) => {
                                assert(before + (seq![s@] + ss) =~= before.push(s@) + ss);
                            },
                            Err(_) => {},
                        }
                    }
                    out.push(s);
                    assert(steps_view(out@) =~= before.push(s@));
                },
            }
            i = i + 1;
        }
        assert(steps_view(out@) + Seq::<MacroActionV>::empty() =~= steps_view(out@));
        Ok(out)
    }

    /// Lowers an action to one key code: its own, or the one that refers to
    /// the tap dance or the macro that it becomes.
    pub fn action_to_keycode(&mut self, action: &Action) -> (r: Result<Keycode, Error>)
        ensures
            final(self).pools() == coded(action@, old(self).pools(), texts(old(self).layers@)).pools,
            final(self).layers == old(self).layers,
            final(self).overrides == old(self).overrides,
            match r {
                Ok(k) => coded(action@, old(self).pools(), texts(old(self).layers@)).result == Ok::<
                    Seq<char>,
                    Error,
                >(k@),
                Err(e) => coded(action@, old(self).pools(), texts(old(self).layers@)).result
                    == Err::<Seq<char>, Error>(e),
            },
        decreases action, 1int,
    {
        match self.action_to_vial(action) {
            Err(e) => Err(e),
            Ok(VialAction::Keycode(k)) => Ok(k),
            Ok(VialAction::TapDance(td)) => match self.tap_dance(td) {
                Err(e) => Err(e),
                Ok(id) => {
                    let mut out = String::from_str("TD(");
                    push_decimal(&mut out, id as usize);
                    out.append(")");
                    Ok(Keycode(out))
                },
            },
            Ok(VialAction::Macro(m)) => match self.macros(m) {
                Err(e) => Err(e),
                Ok(id) => {
                    let mut out = String::from_str("M");
                    push_decimal(&mut out, id as usize);
                    Ok(Keycode(out))
                },
            },
        }
    }
}

/// What an override of a layout rewrites its key to: the key code and the
/// modifiers of its action. The action is a tap, nothing, a tap-hold whose
/// tap is a tap, or taps with exactly one key that is no modifier.
pub open spec fn lifted(o: crate::layout::layer::OverrideV) -> Result<
    super::overrides::OverrideV,
    Error,
> {
    let target: Option<(Seq<char>, Seq<Key>)> = match o.action {
        ActionV::Tap(k) => Some((code_name(k), Seq::empty())),
        ActionV::NoAction => Some(("KC_NO"@, Seq::empty())),
        ActionV::TapHold(a, _) => match *a {
            ActionV::Tap(k) => Some((code_name(k), Seq::empty())),
            _ => None,
        },
        ActionV::Multi(v) => match tap_keys(v, 0) {
            Some(keys) => if plain_of(keys).len() == 1 {
                Some((code_name(plain_of(keys)[0]), mods_of(keys)))
            } else {
                None
            },
            None => None,
        },
        _ => None,
    };
    match target {
        None => Err(Error::OverrideShape),
        Some(t) => Ok(
            super::overrides::OverrideV {
                source: code_name(o.key),
                target: t.0,
                source_mods: o.mods,
                target_mods: t.1,
            },
        ),
    }
}

/// The values of a row of pooled overrides.
pub open spec fn pool_view(v: Seq<(Override, u16)>) -> Seq<(super::overrides::OverrideV, u16)> {
    Seq::new(v.len(), |i: int| (v[i].0@, v[i].1))
}

/// The first position from `i` on at which the override `o` stands in the
/// pool.
pub open spec fn override_at(
    pool: Seq<(super::overrides::OverrideV, u16)>,
    o: super::overrides::OverrideV,
    i: int,
) -> Option<int>
    decreases pool.len() - i,
{
    if i < 0 || i >= pool.len() {
        None
    } else if pool[i].0 == o {
        Some(i)
    } else {
        override_at(pool, o, i + 1)
    }
}

/// How many layers the mask of an override can hold.
pub const MAX_LAYERS: usize = 16;

/// The bit of a layer in the mask of an override.
pub open spec fn layer_bit(layer: usize) -> u16 {
    1u16 << layer
}

/// The pool with the override `o` active on the layer `layer`: the bit of
/// the layer set in the mask of the equal override that the pool holds, or
/// the override added with that bit alone.
pub open spec fn pool_with(
    pool: Seq<(super::overrides::OverrideV, u16)>,
    o: super::overrides::OverrideV,
    layer: usize,
) -> Seq<(super::overrides::OverrideV, u16)> {
    match override_at(pool, o, 0) {
        Some(p) => pool.update(p, (o, pool[p].1 | layer_bit(layer))),
        None => pool.push((o, layer_bit(layer))),
    }
}

/// What adding an override of a layout on a layer makes of the pool.
pub open spec fn override_added(
    pool: Seq<(super::overrides::OverrideV, u16)>,
    layer: usize,
    o: crate::layout::layer::OverrideV,
) -> Result<Seq<(super::overrides::OverrideV, u16)>, Error> {
    match lifted(o) {
        Err(e) => Err(e),
        Ok(v) => if layer >= MAX_LAYERS {
            Err(Error::TooMany)
        } else {
            Ok(pool_with(pool, v, layer))
        },
    }
}

fn same_keys(a: &Vec<Key>, b: &Vec<Key>) -> (r: bool)
    ensures
        r == (a@ == b@),
{
    if a.len() != b.len() {
        return false;
    }
    let mut i: usize = 0;
    while i < a.len()
        invariant
            i <= a.len(),
            a.len() == b.len(),
            forall|j: int| 0 <= j < i ==> a@[j] == b@[j],
        decreases a.len() - i,
    {
        if a[i] != b[i] {
            return false;
        }
        i = i + 1;
    }
    assert(a@ =~= b@);
    true
}

fn same_override(a: &Override, b: &Override) -> (r: bool)
    ensures
        r == (a@ == b@),
{
    a.source.same(&b.source) && a.target.same(&b.target) && same_keys(
        &a.source_mods,
        &b.source_mods,
    ) && same_keys(&a.target_mods, &b.target_mods)
}

fn lift(o: &crate::layout::layer::Override) -> (r: Result<Override, Error>)
    ensures
        match r {
            Ok(v) => lifted(o@) == Ok::<super::overrides::OverrideV, Error>(v@),
            Err(e) => lifted(o@) == Err::<super::overrides::OverrideV, Error>(e),
        },
{
    proof {
        reveal_with_fuel(value, 2);
    }
    let (target, target_mods): (Keycode, Vec<Key>) = match &o.action {
        Action::Tap(key) => (Keycode::from_key(key), Vec::new()),
        Action::NoAction => (Keycode(String::from_str("KC_NO")), Vec::new()),
        Action::TapHold(action, _) => match &**action {
            Action::Tap(key) => (Keycode::from_key(key), Vec::new()),
            _ => {
                return Err(Error::OverrideShape);
            },
        },
        Action::Multi(elems) => {
            let keys = match taps(elems) {
                Some(k) => k,
                None => {
                    return Err(Error::OverrideShape);
                },
            };
            let (mods, plain) = split_mods(&keys);
            if plain.len() != 1 {
                return Err(Error::OverrideShape);
            }
            (Keycode::from_key(&plain[0]), mods)
        },
        _ => {
            return Err(Error::OverrideShape);
        },
    };
    Ok(
        Override {
            source: Keycode::from_key(&o.key),
            target: target,
            source_mods: o.mods.clone(),
            target_mods: target_mods,
        },
    )
}

impl Vial {
    /// Adds an override of a layout, active on the layer `layer`, to the
    /// pool. An override that cannot be lifted leaves the pool as it is.
    #[verifier::loop_isolation(false)]
    pub fn add_override(&mut self, layer: usize, o: &crate::layout::layer::Override) -> (r: Result<
        (),
        Error,
    >)
        ensures
            final(self).pools() == old(self).pools(),
            final(self).layers == old(self).layers,
            match r {
                Ok(_) => override_added(pool_view(old(self).overrides@), layer, o@) == Ok::<
                    Seq<(super::overrides::OverrideV, u16)>,
                    Error,
                >(pool_view(final(self).overrides@)),
                Err(e) => override_added(pool_view(old(self).overrides@), layer, o@) == Err::<
                    Seq<(super::overrides::OverrideV, u16)>,
                    Error,
                >(e) && final(self).overrides == old(self).overrides,
            },
    {
        let v = match lift(o) {
            Ok(v) => v,
            Err(e) => {
                return Err(e);
            },
        };
        if layer >= MAX_LAYERS {
            return Err(Error::TooMany);
        }
        let bit: u16 = 1u16 << layer;
        let ghost pool = pool_view(self.overrides@);
        let mut i: usize = 0;
        while i < self.overrides.len()
            invariant
                i <= self.overrides.len(),
                *self == *old(self),
                pool == pool_view(self.overrides@),
                override_at(pool, v@, 0) == override_at(pool, v@, i as int),
            decreases self.overrides.len() - i,
        {
            if same_override(&self.overrides[i].0, &v) {
                let mask = self.overrides[i].1 | bit;
                let ghost vv = v@;
                self.overrides.set(i, (v, mask));
                assert(pool_view(self.overrides@) =~= pool.update(i as int, (vv, mask)));
                return Ok(());
            }
            i = i + 1;
        }
        self.overrides.push((v, bit));
        assert(pool_view(self.overrides@) =~= pool.push((v@, bit)));
        Ok(())
    }
}

/// Whether no two taps follow each other in a row of steps.
pub open spec fn taps_parted(s: Seq<MacroActionV>) -> bool {
    forall|i: int| 0 <= i < s.len() - 1 ==> !(#[trigger] s[i] is Tap && s[i + 1] is Tap)
}

/// In the steps that `with_delays` gives, no two taps follow each other, and
/// the last step is the last step that went in.
pub proof fn delays_part_taps(s: Seq<MacroActionV>)
    ensures
        taps_parted(with_delays(s)),
        s.len() > 0 ==> with_delays(s).len() > 0 && with_delays(s).last() == s.last(),
        s.len() == 0 ==> with_delays(s).len() == 0,
    decreases s.len(),
{
    if s.len() > 0 {
        delays_part_taps(s.drop_last());
        let init = with_delays(s.drop_last());
        let out = with_delays(s);
        assert forall|i: int| 0 <= i < out.len() - 1 implies !(#[trigger] out[i] is Tap && out[i
            + 1] is Tap) by {
            if i < init.len() - 1 {
                assert(out[i] == init[i]);
                assert(out[i + 1] == init[i + 1]);
            }
        }
    }
}

/// The macro that a sequence lowers to has a delay between every two taps
/// that would follow each other.
pub proof fn sequence_macro_parts_taps(v: Seq<ActionV>, p: Pools, layers: Seq<Seq<char>>)
    ensures
        match lowered(ActionV::Sequence(v), p, layers).result {
            Ok(VialActionV::Macro(m)) => taps_parted(m),
            Ok(_) => false,
            Err(_) => true,
        },
{
    let r = steps(v, 0, p, layers);
    match r.result {
        Ok(s) => {
            delays_part_taps(s);
        },
        Err(_) => {},
    }
}

/// A position that `macro_at` finds is in range, holds the macro, and is the
/// first that does.
pub proof fn macro_at_first(pool: Seq<Seq<MacroActionV>>, m: Seq<MacroActionV>, i: int)
    requires
        0 <= i,
    ensures
        match macro_at(pool, m, i) {
            Some(p) => i <= p < pool.len() && pool[p] == m && forall|k: int|
                i <= k < p ==> pool[k] != m,
            None => forall|k: int| i <= k < pool.len() ==> pool[k] != m,
        },
    decreases pool.len() - i,
{
    if i < pool.len() && pool[i] != m {
        macro_at_first(pool, m, i + 1);
    }
}

/// A macro that is interned twice gets the same number both times, and the
/// second time leaves the pools as they are. Equal macros are one macro, so
/// they share a number.
pub proof fn interned_macro_keeps_its_number(p: Pools, m: Seq<MacroActionV>)
    ensures
        match with_macro(p, m).result {
            Ok(id) => with_macro(with_macro(p, m).pools, m) == (Lowered::<int> {
                result: Ok(id),
                pools: with_macro(p, m).pools,
            }),
            Err(_) => with_macro(p, m).pools == p,
        },
{
    macro_at_first(p.macros, m, 0);
    let after = with_macro(p, m).pools;
    macro_at_first(after.macros, m, 0);
    match macro_at(p.macros, m, 0) {
        Some(i) => {},
        None => {
            if p.macros.len() < POOL_LIMIT {
                assert(after.macros[p.macros.len() as int] == m);
                assert forall|k: int| 0 <= k < p.macros.len() implies after.macros[k] != m by {
                    assert(after.macros[k] == p.macros[k]);
                }
            }
        },
    }
}

/// Interning one macro leaves the number of every other macro as it was.
pub proof fn interning_keeps_other_numbers(p: Pools, m: Seq<MacroActionV>, x: Seq<MacroActionV>)
    ensures
        match macro_at(p.macros, x, 0) {
            Some(i) => macro_at(with_macro(p, m).pools.macros, x, 0) == Some(i),
            None => true,
        },
{
    macro_at_first(p.macros, x, 0);
    let after = with_macro(p, m).pools.macros;
    macro_at_first(after, x, 0);
    match macro_at(p.macros, x, 0) {
        Some(i) => {
            assert(after[i] == x);
            assert forall|k: int| 0 <= k < i implies after[k] != x by {
                assert(after[k] == p.macros[k]);
            }
        },
        None => {},
    }
}

/// A position that `dance_at` finds is in range, holds a tap dance like the
/// given one, and is the first that does.
pub proof fn dance_at_first(pool: Seq<TapDanceV>, td: TapDanceV, i: int)
    requires
        0 <= i,
    ensures
        match dance_at(pool, td, i) {
            Some(p) => i <= p < pool.len() && pool[p].alike(td) && forall|k: int|
                i <= k < p ==> !pool[k].alike(td),
            None => forall|k: int| i <= k < pool.len() ==> !pool[k].alike(td),
        },
    decreases pool.len() - i,
{
    if i < pool.len() && !pool[i].alike(td) {
        dance_at_first(pool, td, i + 1);
    }
}

/// Tap dances that give the same four key codes share a number: once one is
/// interned, interning one like it gives the same number and leaves the
/// pools as they are.
pub proof fn interned_dance_keeps_its_number(p: Pools, a: TapDanceV, b: TapDanceV)
    requires
        a.alike(b),
    ensures
        match with_dance(p, a).result {
            Ok(id) => with_dance(with_dance(p, a).pools, b) == (Lowered::<int> {
                result: Ok(id),
                pools: with_dance(p, a).pools,
            }),
            Err(_) => with_dance(p, a).pools == p,
        },
{
    dance_at_first(p.tap_dances, a, 0);
    let after = with_dance(p, a).pools;
    dance_at_first(after.tap_dances, b, 0);
    match dance_at(p.tap_dances, a, 0) {
        Some(i) => {
            assert(after.tap_dances[i].alike(b));
        },
        None => {
            if p.tap_dances.len() < POOL_LIMIT {
                assert(after.tap_dances[p.tap_dances.len() as int] == a);
                assert forall|k: int| 0 <= k < p.tap_dances.len() implies !after.tap_dances[k].alike(
                    b,
                ) by {
                    assert(after.tap_dances[k] == p.tap_dances[k]);
                }
            }
        },
    }
}

/// Whether no override stands twice in a pool.
pub open spec fn one_each(pool: Seq<(super::overrides::OverrideV, u16)>) -> bool {
    forall|i: int, j: int| 0 <= i < j < pool.len() ==> pool[i].0 != pool[j].0
}

/// A position that `override_at` finds is in range, holds the override, and
/// is the first that does.
pub proof fn override_at_first(
    pool: Seq<(super::overrides::OverrideV, u16)>,
    o: super::overrides::OverrideV,
    i: int,
)
    requires
        0 <= i,
    ensures
        match override_at(pool, o, i) {
            Some(p) => i <= p < pool.len() && pool[p].0 == o && forall|k: int|
                i <= k < p ==> pool[k].0 != o,
            None => forall|k: int| i <= k < pool.len() ==> pool[k].0 != o,
        },
    decreases pool.len() - i,
{
    if i < pool.len() && pool[i].0 != o {
        override_at_first(pool, o, i + 1);
    }
}

/// Adding an override to a pool in which no override stands twice leaves it
/// so.
pub proof fn pool_stays_one_each(
    pool: Seq<(super::overrides::OverrideV, u16)>,
    o: super::overrides::OverrideV,
    layer: usize,
)
    requires
        one_each(pool),
    ensures
        one_each(pool_with(pool, o, layer)),
{
    override_at_first(pool, o, 0);
    let after = pool_with(pool, o, layer);
    assert forall|i: int, j: int| 0 <= i < j < after.len() implies after[i].0 != after[j].0 by {
        match override_at(pool, o, 0) {
            Some(p) => {
                assert(after[i].0 == pool[i].0);
                assert(after[j].0 == pool[j].0);
            },
            None => {
                if j < pool.len() {
                    assert(after[i].0 == pool[i].0);
                    assert(after[j].0 == pool[j].0);
                } else {
                    assert(after[i].0 == pool[i].0);
                }
            },
        }
    }
}

/// An override that two layers declare is one record, with the bits of both
/// layers in its mask: after it is added for the layers `a` and `b`, the
/// pool holds it at one position only, and the mask there is what it was
/// before, or nothing, with both bits set.
pub proof fn same_override_is_one_record(
    pool: Seq<(super::overrides::OverrideV, u16)>,
    o: super::overrides::OverrideV,
    a: usize,
    b: usize,
)
    requires
        one_each(pool),
    ensures
        ({
            let after = pool_with(pool_with(pool, o, a), o, b);
            let before: u16 = match override_at(pool, o, 0) {
                Some(p) => pool[p].1,
                None => 0u16,
            };
            &&& one_each(after)
            &&& after.len() == pool_with(pool, o, a).len()
            &&& match override_at(after, o, 0) {
                Some(p) => 0 <= p < after.len() && after[p].1 == (before | layer_bit(a))
                    | layer_bit(b) && forall|k: int|
                    0 <= k < after.len() && k != p ==> after[k].0 != o,
                None => false,
            }
        }),
{
    let first = pool_with(pool, o, a);
    let after = pool_with(first, o, b);
    pool_stays_one_each(pool, o, a);
    pool_stays_one_each(first, o, b);
    override_at_first(pool, o, 0);
    override_at_first(first, o, 0);
    override_at_first(after, o, 0);
    let before: u16 = match override_at(pool, o, 0) {
        Some(p) => pool[p].1,
        None => 0u16,
    };
    match override_at(pool, o, 0) {
        Some(p) => {
            assert(first[p].0 == o);
        },
        None => {
            assert(first[pool.len() as int].0 == o);
            assert(0u16 | layer_bit(a) == layer_bit(a)) by (bit_vector);
        },
    }
    let q = override_at(first, o, 0)->0;
    assert(after[q].0 == o);
    let r = override_at(after, o, 0)->0;
    assert(r == q) by {
        if r < q {
            assert(after[r].0 == first[r].0);
        }
    }
    assert forall|k: int| 0 <= k < after.len() && k != r implies after[k].0 != o by {
        if k < r {
            assert(after[k].0 != after[r].0);
        } else {
            assert(after[r].0 != after[k].0);
        }
    }
}

} // verus!
