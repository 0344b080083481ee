//! What an action lowers to for the firmware: a key code, a tap dance or a
//! macro.

use super::keycode::{code_name, format_mods, key_to_mod, key_to_string, mod_name, set_name, Keycode};
use crate::error::Error;
use crate::keys::{mods_of, plain_of, split_mods, Key};
use crate::layout::action::{tap_keys, taps, value, views, Action, ActionV};
use crate::text::{decimal, joined, push_decimal, push_joined, same, texts};
use vstd::prelude::*;
use vstd::string::StringExecFns;

verus! {

/// The tapping term of every synthesized tap dance, in milliseconds.
pub const TAPPING_TERM: u16 = 200;

/// One step of a macro.
#[derive(Debug, PartialEq, Eq)]
pub enum MacroAction {
    Down(Keycode),
    Up(Keycode),
    Tap(Keycode),
    Delay(u16),
}

/// The value of a [`MacroAction`].
pub enum MacroActionV {
    Down(Seq<char>),
    Up(Seq<char>),
    Tap(Seq<char>),
    Delay(u16),
}

impl View for MacroAction {
    type V = MacroActionV;

    open spec fn view(&self) -> MacroActionV {
        match self {
            MacroAction::Down(k) => MacroActionV::Down(k@),
            MacroAction::Up(k) => MacroActionV::Up(k@),
            MacroAction::Tap(k) => MacroActionV::Tap(k@),
            MacroAction::Delay(d) => MacroActionV::Delay(*d),
        }
    }
}

impl Clone for MacroAction {
    fn clone(&self) -> (r: Self)
        ensures
            r@ == self@,
    {
        match self {
            MacroAction::Down(k) => MacroAction::Down(k.clone()),
            MacroAction::Up(k) => MacroAction::Up(k.clone()),
            MacroAction::Tap(k) => MacroAction::Tap(k.clone()),
            MacroAction::Delay(d) => MacroAction::Delay(*d),
        }
    }
}

impl MacroAction {
    /// Whether two steps are the same.
    pub fn same(&self, other: &MacroAction) -> (r: bool)
        ensures
            r == (self@ == other@),
    {
        match (self, other) {
            (MacroAction::Down(a), MacroAction::Down(b)) => a.same(b),
            (MacroAction::Up(a), MacroAction::Up(b)) => a.same(b),
            (MacroAction::Tap(a), MacroAction::Tap(b)) => a.same(b),
            (MacroAction::Delay(a), MacroAction::Delay(b)) => *a == *b,
            _ => false,
        }
    }
}

/// A macro: its steps in order.
#[derive(Debug, PartialEq, Eq)]
pub struct Macro(pub Vec<MacroAction>);

/// The values of a row of steps.
pub open spec fn steps_view(v: Seq<MacroAction>) -> Seq<MacroActionV> {
    Seq::new(v.len(), |i: int| v[i]@)
}

impl View for Macro {
    type V = Seq<MacroActionV>;

    open spec fn view(&self) -> Seq<MacroActionV> {
        steps_view(self.0@)
    }
}

impl Clone for Macro {
    fn clone(&self) -> (r: Self)
        ensures
            r@ == self@,
    {
        let mut out: Vec<MacroAction> = Vec::new();
        let mut i: usize = 0;
        while i < self.0.len()
            invariant
                i <= self.0.len(),
                steps_view(out@) =~= self@.take(i as int),
            decreases self.0.len() - i,
        {
            let ghost before = steps_view(out@);
            let step = self.0[i].clone();
            out.push(step);
            assert(steps_view(out@) =~= before.push(step@));
            assert(self@.take(i + 1) =~= self@.take(i as int).push(self@[i as int]));
            i = i + 1;
        }
        assert(self@.take(i as int) =~= self@);
        Macro(out)
    }
}

impl Macro {
    /// Whether two macros have the same steps.
    pub fn same(&self, other: &Macro) -> (r: bool)
        ensures
            r == (self@ == other@),
    {
        if self.0.len() != other.0.len() {
            assert(self@.len() != other@.len());
            return false;
        }
        let mut i: usize = 0;
        while i < self.0.len()
            invariant
                i <= self.0.len(),
                self.0.len() == other.0.len(),
                forall|j: int| 0 <= j < i ==> self@[j] == other@[j],
            decreases self.0.len() - i,
        {
            if !self.0[i].same(&other.0[i]) {
                assert(self@[i as int] != other@[i as int]);
                return false;
            }
            i = i + 1;
        }
        assert(self@ =~= other@);
        true
    }
}

/// A tap dance: what a key gives on a tap, on a hold, on a double tap and on
/// a tap followed by a hold.
#[derive(Debug)]
pub struct TapDance {
    pub tap: Keycode,
    pub hold: Keycode,
    pub double_tap: Keycode,
    pub tap_hold: Keycode,
    pub tapping_term: u16,
}

/// The value of a [`TapDance`].
pub struct TapDanceV {
    pub tap: Seq<char>,
    pub hold: Seq<char>,
    pub double_tap: Seq<char>,
    pub tap_hold: Seq<char>,
    pub tapping_term: u16,
}

impl View for TapDance {
    type V = TapDanceV;

    open spec fn view(&self) -> TapDanceV {
        TapDanceV {
            tap: self.tap@,
            hold: self.hold@,
            double_tap: self.double_tap@,
            tap_hold: self.tap_hold@,
            tapping_term: self.tapping_term,
        }
    }
}

impl TapDanceV {
    /// Whether two tap dances give the same four key codes. The tapping term
    /// does not count.
    pub open spec fn alike(self, other: TapDanceV) -> bool {
        self.tap == other.tap && self.hold == other.hold && self.double_tap == other.double_tap
            && self.tap_hold == other.tap_hold
    }
}

impl Clone for TapDance {
    fn clone(&self) -> (r: Self)
        ensures
            r@ == self@,
    {
        TapDance {
            tap: self.tap.clone(),
            hold: self.hold.clone(),
            double_tap: self.double_tap.clone(),
            tap_hold: self.tap_hold.clone(),
            tapping_term: self.tapping_term,
        }
    }
}

impl PartialEq for TapDance {
    fn eq(&self, other: &TapDance) -> (r: bool) {
        self.same(other)
    }
}

impl Eq for TapDance {

}

impl vstd::std_specs::cmp::PartialEqSpecImpl for TapDance {
    open spec fn obeys_eq_spec() -> bool {
        true
    }

    open spec fn eq_spec(&self, other: &TapDance) -> bool {
        self@.alike(other@)
    }
}

impl TapDance {
    /// Whether two tap dances give the same four key codes.
    pub fn same(&self, other: &TapDance) -> (r: bool)
        ensures
            r == self@.alike(other@),
    {
        self.tap.same(&other.tap) && self.hold.same(&other.hold) && self.double_tap.same(
            &other.double_tap,
        ) && self.tap_hold.same(&other.tap_hold)
    }
}

/// What an action lowers to.
#[derive(Debug, PartialEq, Eq)]
pub enum VialAction {
    Keycode(Keycode),
    TapDance(TapDance),
    Macro(Macro),
}

/// The value of a [`VialAction`].
pub enum VialActionV {
    Keycode(Seq<char>),
    TapDance(TapDanceV),
    Macro(Seq<MacroActionV>),
}

impl View for VialAction {
    type V = VialActionV;

    open spec fn view(&self) -> VialActionV {
        match self {
            VialAction::Keycode(k) => VialActionV::Keycode(k@),
            VialAction::TapDance(td) => VialActionV::TapDance(td@),
            VialAction::Macro(m) => VialActionV::Macro(m@),
        }
    }
}

impl Clone for VialAction {
    fn clone(&self) -> (r: Self)
        ensures
            r@ == self@,
    {
        match self {
            VialAction::Keycode(k) => VialAction::Keycode(k.clone()),
            VialAction::TapDance(td) => VialAction::TapDance(td.clone()),
            VialAction::Macro(m) => VialAction::Macro(m.clone()),
        }
    }
}

/// The tap dance of a tap and a hold: nothing on a double tap, nothing on a
/// tap followed by a hold.
pub open spec fn dance(tap: Seq<char>, hold: Seq<char>) -> TapDanceV {
    TapDanceV {
        tap: tap,
        hold: hold,
        double_tap: "KC_NO"@,
        tap_hold: "KC_NO"@,
        tapping_term: TAPPING_TERM,
    }
}

/// The first position from `i` on at which `name` stands in `names`.
pub open spec fn index_of(names: Seq<Seq<char>>, name: Seq<char>, i: int) -> Option<int>
    decreases names.len() - i,
{
    if i < 0 || i >= names.len() {
        None
    } else if names[i] == name {
        Some(i)
    } else {
        index_of(names, name, i + 1)
    }
}

/// The position at which `name` stands first in `names`.
pub fn find_name(names: &Vec<String>, name: &str) -> (r: Option<usize>)
    ensures
        match r {
            Some(i) => index_of(texts(names@), name@, 0) == Some(i as int) && i < names.len(),
            None => index_of(texts(names@), name@, 0).is_none(),
        },
{
    let mut i: usize = 0;
    while i < names.len()
        invariant
            i <= names.len(),
            index_of(texts(names@), name@, 0) == index_of(texts(names@), name@, i as int),
        decreases names.len() - i,
    {
        if same(names[i].as_str(), name) {
            return Some(i);
        }
        i = i + 1;
    }
    None
}

/// The firmware's names of a row of modifier taps from position `i` on;
/// `None` where an action of the row is no tap of a modifier.
pub open spec fn mod_names(v: Seq<ActionV>, i: int) -> Option<Seq<Seq<char>>>
    decreases v.len() - i,
{
    if i < 0 || i >= v.len() {
        Some(Seq::empty())
    } else {
        match v[i] {
            ActionV::Tap(k) => match (mod_name(k), mod_names(v, i + 1)) {
                (Some(n), Some(rest)) => Some(seq![n] + rest),
                _ => None,
            },
            _ => None,
        }
    }
}

/// `prefix(l)`, where `l` is the position of the layer `name`.
pub open spec fn layer_code(prefix: Seq<char>, layers: Seq<Seq<char>>, name: Seq<char>) -> Result<
    Seq<char>,
    Error,
> {
    match index_of(layers, name, 0) {
        Some(l) => Ok(prefix + "("@ + decimal(l as nat) + ")"@),
        None => Err(Error::MissingLayer),
    }
}

/// The key code name of a tap-hold whose tap is the key `t`, where the hold
/// has a form that the firmware knows: a modifier, a layer, or a set of
/// modifiers.
pub open spec fn tap_hold_name(t: Key, hold: ActionV, layers: Seq<Seq<char>>) -> Option<
    Result<Seq<char>, Error>,
> {
    match hold {
        ActionV::Tap(k) => match mod_name(k) {
            Some(m) => Some(Ok(m + "_T("@ + code_name(t) + ")"@)),
            None => None,
        },
        ActionV::LayerSwitch(x) => Some(held_layer(t, layers, x)),
        ActionV::LayerWhileHeld(x) => Some(held_layer(t, layers, x)),
        ActionV::Multi(actions) => match mod_names(actions, 0) {
            Some(ns) => Some(Ok("MT("@ + joined(ns, "|"@) + ","@ + code_name(t) + ")"@)),
            None => None,
        },
        _ => None,
    }
}

/// `LT(l,t)`, where `l` is the position of the layer `name`.
pub open spec fn held_layer(t: Key, layers: Seq<Seq<char>>, name: Seq<char>) -> Result<
    Seq<char>,
    Error,
> {
    match index_of(layers, name, 0) {
        Some(l) => Ok("LT("@ + decimal(l as nat) + ","@ + code_name(t) + ")"@),
        None => Err(Error::MissingLayer),
    }
}

/// The key code name of a modifier combination: taps only, exactly one of
/// them no modifier, the modifiers a set that the firmware names.
pub open spec fn combo_name(v: Seq<ActionV>) -> Option<Seq<char>> {
    match tap_keys(v, 0) {
        Some(keys) => if plain_of(keys).len() == 1 {
            match set_name(mods_of(keys)) {
                Some(m) => Some(m + "("@ + code_name(plain_of(keys)[0]) + ")"@),
                None => None,
            }
        } else {
            None
        },
        None => None,
    }
}

/// The key code name that an action lowers to by itself, or the error that
/// it gives; `None` where it takes a tap dance or a macro.
pub open spec fn direct(a: ActionV, layers: Seq<Seq<char>>) -> Option<Result<Seq<char>, Error>> {
    match a {
        ActionV::NoAction => Some(Ok("KC_NO"@)),
        ActionV::Transparent => Some(Ok("KC_TRANSPARENT"@)),
        ActionV::Tap(k) => Some(Ok(code_name(k))),
        ActionV::TapHold(tap, hold) => match *tap {
            ActionV::Tap(t) => tap_hold_name(t, *hold, layers),
            _ => None,
        },
        ActionV::Alias(_) => Some(Err(Error::Unresolved)),
        ActionV::Unicode(_) => Some(Err(Error::Unresolved)),
        ActionV::LayerSwitch(x) => Some(layer_code("DF"@, layers, x)),
        ActionV::LayerWhileHeld(x) => Some(layer_code("MO"@, layers, x)),
        ActionV::Multi(v) => match combo_name(v) {
            Some(n) => Some(Ok(n)),
            None => None,
        },
        ActionV::Sequence(_) => None,
        ActionV::Hold(_) => Some(Err(Error::NotInSequence)),
        ActionV::Release(_) => Some(Err(Error::NotInSequence)),
    }
}

fn layer_name(prefix: &str, layers: &Vec<String>, name: &str) -> (r: Result<String, Error>)
    ensures
        match r {
            Ok(s) => layer_code(prefix@, texts(layers@), name@) == Ok::<Seq<char>, Error>(s@),
            Err(e) => layer_code(prefix@, texts(layers@), name@) == Err::<Seq<char>, Error>(e),
        },
{
    match find_name(layers, name) {
        Some(l) => {
            let mut out = String::from_str(prefix);
            out.append("(");
            push_decimal(&mut out, l);
            out.append(")");
            Ok(out)
        },
        None => Err(Error::MissingLayer),
    }
}

fn held_layer_name(t: &Key, layers: &Vec<String>, name: &str) -> (r: Result<String, Error>)
    ensures
        match r {
            Ok(s) => held_layer(*t, texts(layers@), name@) == Ok::<Seq<char>, Error>(s@),
            Err(e) => held_layer(*t, texts(layers@), name@) == Err::<Seq<char>, Error>(e),
        },
{
    match find_name(layers, name) {
        Some(l) => {
            let mut out = String::from_str("LT(");
            push_decimal(&mut out, l);
            out.append(",");
            out.append(key_to_string(t));
            out.append(")");
            Ok(out)
        },
        None => Err(Error::MissingLayer),
    }
}

fn names_of_mods(v: &Vec<Action>) -> (r: Option<Vec<String>>)
    ensures
        match r {
            Some(ns) => mod_names(views(v@), 0) == Some(texts(ns@)),
            None => mod_names(views(v@), 0).is_none(),
        },
{
    let ghost vs = views(v@);
    let mut out: Vec<String> = Vec::new();
    let mut i: usize = 0;
    assert(texts(out@) =~= Seq::<Seq<char>>::empty());
    while i < v.len()
        invariant
            i <= v.len(),
            vs == views(v@),
            mod_names(vs, 0) == (match mod_names(vs, i as int) {
                Some(rest) => Some(texts(out@) + rest),
                None => None,
            }),
        decreases v.len() - i,
    {
        let name = match &v[i] {
            Action::Tap(k) => match key_to_mod(k) {
                Some(n) => n,
                None => {
                    return None;
                },
            },
            _ => {
                return None;
            },
        };
        let ghost before = texts(out@);
        proof {
            match mod_names(vs, i + 1) {
                Some(rest) => {
                    assert(before + (seq![name@] + rest) =~= before.push(name@) + rest);
                },
                None => {},
            }
        }
        out.push(String::from_str(name));
        assert(texts(out@) =~= before.push(name@));
        i = i + 1;
    }
    assert(texts(out@) + Seq::<Seq<char>>::empty() =~= texts(out@));
    Some(out)
}

fn tap_hold_direct(t: &Key, hold: &Action, layers: &Vec<String>) -> (r: Option<
    Result<String, Error>,
>)
    ensures
        match r {
            Some(Ok(s)) => tap_hold_name(*t, hold@, texts(layers@)) == Some(
                Ok::<Seq<char>, Error>(s@),
            ),
            Some(Err(e)) => tap_hold_name(*t, hold@, texts(layers@)) == Some(
                Err::<Seq<char>, Error>(e),
            ),
            None => tap_hold_name(*t, hold@, texts(layers@)).is_none(),
        },
{
    match hold {
        Action::Tap(k) => match key_to_mod(k) {
            Some(m) => {
                let mut out = String::from_str(m);
                out.append("_T(");
                out.append(key_to_string(t));
                out.append(")");
                Some(Ok(out))
            },
            None => None,
        },
        Action::LayerSwitch(x) => Some(held_layer_name(t, layers, x.as_str())),
        Action::LayerWhileHeld(x) => Some(held_layer_name(t, layers, x.as_str())),
        Action::Multi(actions) => match names_of_mods(actions) {
            Some(ns) => {
                let mut out = String::from_str("MT(");
                push_joined(&mut out, &ns, "|");
                out.append(",");
                out.append(key_to_string(t));
                out.append(")");
                Some(Ok(out))
            },
            None => None,
        },
        _ => None,
    }
}

fn combo(v: &Vec<Action>) -> (r: Option<String>)
    ensures
        match r {
            Some(s) => combo_name(views(v@)) == Some(s@),
            None => combo_name(views(v@)).is_none(),
        },
{
    match taps(v) {
        Some(keys) => {
            let (mods, plain) = split_mods(&keys);
            if plain.len() == 1 {
                match format_mods(&mods) {
                    Some(m) => {
                        let mut out = String::from_str(m);
                        out.append("(");
                        out.append(key_to_string(&plain[0]));
                        out.append(")");
                        Some(out)
                    },
                    None => None,
                }
            } else {
                None
            }
        },
        None => None,
    }
}

/// The key code name that an action lowers to by itself, with `layers` the
/// layers in the order in which the firmware numbers them.
pub fn direct_name(action: &Action, layers: &Vec<String>) -> (r: Option<Result<String, Error>>)
    ensures
        match r {
            Some(Ok(s)) => direct(action@, texts(layers@)) == Some(Ok::<Seq<char>, Error>(s@)),
            Some(Err(e)) => direct(action@, texts(layers@)) == Some(Err::<Seq<char>, Error>(e)),
            None => direct(action@, texts(layers@)).is_none(),
        },
{
    proof {
        reveal_with_fuel(value, 2);
    }
    match action {
        Action::NoAction => Some(Ok(String::from_str("KC_NO"))),
        Action::Transparent => Some(Ok(String::from_str("KC_TRANSPARENT"))),
        Action::Tap(k) => Some(Ok(String::from_str(key_to_string(k)))),
        Action::TapHold(tap, hold) => match &**tap {
            Action::Tap(t) => tap_hold_direct(t, hold, layers),
            _ => None,
        },
        Action::Alias(_) => Some(Err(Error::Unresolved)),
        Action::Unicode(_) => Some(Err(Error::Unresolved)),
        Action::LayerSwitch(x) => Some(layer_name("DF", layers, x.as_str())),
        Action::LayerWhileHeld(x) => Some(layer_name("MO", layers, x.as_str())),
        Action::Multi(v) => match combo(v) {
            Some(n) => Some(Ok(n)),
            None => None,
        },
        Action::Sequence(_) => None,
        Action::Hold(_) => Some(Err(Error::NotInSequence)),
        Action::Release(_) => Some(Err(Error::NotInSequence)),
    }
}

/// What an action lowers to without pools of tap dances and macros. A
/// tap-hold whose halves take key codes or tap dances becomes one tap dance;
/// a sequence of holds and releases becomes a macro. Anything that needs a
/// macro inside another structure is unsupported here.
pub open spec fn plain_lowered(a: ActionV, layers: Seq<Seq<char>>) -> Result<VialActionV, Error>
    decreases a, 0int,
{
    match direct(a, layers) {
        Some(Ok(n)) => Ok(VialActionV::Keycode(n)),
        Some(Err(e)) => Err(e),
        None => match a {
            ActionV::TapHold(tap, hold) => match plain_lowered(*tap, layers) {
                Err(e) => Err(e),
                Ok(t) => match plain_lowered(*hold, layers) {
                    Err(e) => Err(e),
                    Ok(h) => match (tap_part(t), hold_part(h)) {
                        (Some(tk), Some(hk)) => Ok(VialActionV::TapDance(dance(tk, hk))),
                        _ => Err(Error::Unsupported),
                    },
                },
            },
            ActionV::Sequence(v) => match plain_steps(v, 0) {
                Ok(steps) => Ok(VialActionV::Macro(steps)),
                Err(e) => Err(e),
            },
            _ => Err(Error::Unsupported),
        },
    }
}

/// The key code that a lowered action gives on a tap.
pub open spec fn tap_part(a: VialActionV) -> Option<Seq<char>> {
    match a {
        VialActionV::Keycode(k) => Some(k),
        VialActionV::TapDance(td) => Some(td.tap),
        VialActionV::Macro(_) => None,
    }
}

/// The key code that a lowered action gives on a hold.
pub open spec fn hold_part(a: VialActionV) -> Option<Seq<char>> {
    match a {
        VialActionV::Keycode(k) => Some(k),
        VialActionV::TapDance(td) => Some(td.hold),
        VialActionV::Macro(_) => None,
    }
}

/// The steps of a row of holds and releases from position `i` on.
pub open spec fn plain_steps(v: Seq<ActionV>, i: int) -> Result<Seq<MacroActionV>, Error>
    decreases v, v.len() - i,
{
    if i < 0 || i >= v.len() {
        Ok(Seq::empty())
    } else {
        match plain_step(v[i]) {
            Err(e) => Err(e),
            Ok(s) => match plain_steps(v, i + 1) {
                Err(e) => Err(e),
                Ok(rest) => Ok(seq![s] + rest),
            },
        }
    }
}

/// The step of a hold or a release.
pub open spec fn plain_step(a: ActionV) -> Result<MacroActionV, Error> {
    match a {
        ActionV::Hold(k) => Ok(MacroActionV::Down(code_name(k))),
        ActionV::Release(k) => Ok(MacroActionV::Up(code_name(k))),
        _ => Err(Error::Unsupported),
    }
}

impl VialAction {
    /// The tap dance of a tap and a hold.
    pub fn tap_hold(tap: Keycode, hold: Keycode) -> (r: VialAction)
        ensures
            r@ == VialActionV::TapDance(dance(tap@, hold@)),
    {
        VialAction::TapDance(
            TapDance {
                tap: tap,
                hold: hold,
                double_tap: Keycode(String::from_str("KC_NO")),
                tap_hold: Keycode(String::from_str("KC_NO")),
                tapping_term: TAPPING_TERM,
            },
        )
    }

    /// Lowers an action without pools, with `layers` the layers in the order
    /// in which the firmware numbers them.
    #[verifier::loop_isolation(false)]
    pub fn from_action(action: &Action, layers: &Vec<String>) -> (r: Result<VialAction, Error>)
        ensures
            match r {
                Ok(a) => plain_lowered(action@, texts(layers@)) == Ok::<VialActionV, Error>(a@),
                Err(e) => plain_lowered(action@, texts(layers@)) == Err::<VialActionV, Error>(e),
            },
        decreases action,
    {
        match direct_name(action, layers) {
            Some(Ok(n)) => {
                return Ok(VialAction::Keycode(Keycode(n)));
            },
            Some(Err(e)) => {
                return Err(e);
            },
            None => {},
        }
        match action {
            Action::TapHold(tap, hold) => {
                let t = match VialAction::from_action(tap, layers) {
                    Ok(t) => t,
                    Err(e) => {
                        return Err(e);
                    },
                };
                let h = match VialAction::from_action(hold, layers) {
                    Ok(h) => h,
                    Err(e) => {
                        return Err(e);
                    },
                };
                let tk = match t {
                    VialAction::Keycode(k) => k,
                    VialAction::TapDance(td) => td.tap,
                    VialAction::Macro(_) => {
                        return Err(Error::Unsupported);
                    },
                };
                let hk = match h {
                    VialAction::Keycode(k) => k,
                    VialAction::TapDance(td) => td.hold,
                    VialAction::Macro(_) => {
                        return Err(Error::Unsupported);
                    },
                };
                Ok(VialAction::tap_hold(tk, hk))
            },
            Action::Sequence(v) => {
                let ghost vs = views(v@);
                let mut out: Vec<MacroAction> = Vec::new();
                let mut i: usize = 0;
                assert(steps_view(out@) =~= Seq::<MacroActionV>::empty());
                while i < v.len()
                    invariant
                        i <= v.len(),
                        plain_steps(vs, 0) == (match plain_steps(vs, i as int) {
                            Ok(rest) => Ok::<Seq<MacroActionV>, Error>(steps_view(out@) + rest),
                            Err(e) => Err(e),
                        }),
                    decreases v.len() - i,
                {
                    let step = match &v[i] {
                        Action::Hold(k) => MacroAction::Down(Keycode::from_key(k)),
                        Action::Release(k) => MacroAction::Up(Keycode::from_key(k)),
                        _ => {
                            return Err(Error::Unsupported);
                        },
                    };
                    let ghost before = steps_view(out@);
                    proof {
                        match plain_steps(vs, i + 1) {
                            Ok(rest) => {
                                assert(before + (seq![step@] + rest) =~= before.push(step@) + rest);
                            },
                            Err(_) => {},
                        }
                    }
                    out.push(step);
                    assert(steps_view(out@) =~= before.push(step@));
                    i = i + 1;
                }
                assert(steps_view(out@) + Seq::<MacroActionV>::empty() =~= steps_view(out@));
                Ok(VialAction::Macro(Macro(out)))
            },
            _ => Err(Error::Unsupported),
        }
    }
}

} // verus!
