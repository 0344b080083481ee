//! Layers: a named binding of key slots to actions, with a parent to inherit
//! from and the keymap that the layer is typed in.

use super::action::{action_of, actions_from, held_names, Action, ActionV};
use crate::error::Error;
use crate::keys::{pos_of, position, Key, KeyIndex};
use crate::sexpr::{clone_all, views as exprs, Expr, ExprV};
use crate::text::{lowercase_of, same, texts, to_lower};
use vstd::prelude::*;
use vstd::string::StringExecFns;

verus! {

/// How many slots a layer can have.
pub const MAX_KEYS: usize = 256;

/// A rewrite of a key when it is pressed with a set of modifiers.
#[derive(Debug, PartialEq, Eq)]
pub struct Override {
    pub key: Key,
    pub mods: Vec<Key>,
    pub action: Action,
}

/// The value of an [`Override`].
pub struct OverrideV {
    pub key: Key,
    pub mods: Seq<Key>,
    pub action: ActionV,
}

impl View for Override {
    type V = OverrideV;

    open spec fn view(&self) -> OverrideV {
        OverrideV { key: self.key, mods: self.mods@, action: self.action@ }
    }
}

impl Clone for Override {
    fn clone(&self) -> (r: Self)
        ensures
            r@ == self@,
    {
        Override { key: self.key, mods: self.mods.clone(), action: self.action.clone() }
    }
}

/// An input language.
#[derive(Debug, Clone, Copy, PartialEq, Eq, Hash, Structural)]
pub enum Keymap {
    En,
    Ru,
}

impl Default for Keymap {
    fn default() -> (r: Self)
        ensures
            r == Keymap::En,
    {
        Keymap::En
    }
}

impl Keymap {
    /// The keymap that a name in lower case stands for.
    pub open spec fn of_lower(s: Seq<char>) -> Option<Keymap> {
        if s == "ru"@ {
            Some(Keymap::Ru)
        } else if s == "en"@ {
            Some(Keymap::En)
        } else {
            None
        }
    }

    /// The keymap that a name in lower case stands for.
    pub fn from_lower(s: &str) -> (r: Result<Keymap, Error>)
        ensures
            r == (match Keymap::of_lower(s@) {
                Some(k) => Ok::<Keymap, Error>(k),
                None => Err(Error::UnknownKeymap),
            }),
    {
        if same(s, "ru") {
            Ok(Keymap::Ru)
        } else if same(s, "en") {
            Ok(Keymap::En)
        } else {
            Err(Error::UnknownKeymap)
        }
    }

    /// The keymap that a name stands for, whatever its case.
    pub fn from_str(s: &str) -> (r: Result<Keymap, Error>)
        ensures
            r == (match Keymap::of_lower(lowercase_of(s@)) {
                Some(k) => Ok::<Keymap, Error>(k),
                None => Err(Error::UnknownKeymap),
            }),
    {
        let lower = to_lower(s);
        Keymap::from_lower(lower.as_str())
    }

    /// The name of the keymap as it is written in generated layer names.
    pub open spec fn label(&self) -> Seq<char> {
        match self {
            Keymap::En => "En"@,
            Keymap::Ru => "Ru"@,
        }
    }

    /// The name of the keymap.
    pub fn name(&self) -> (r: &'static str)
        ensures
            r@ == self.label(),
    {
        match self {
            Keymap::En => "En",
            Keymap::Ru => "Ru",
        }
    }
}

/// A layer.
#[derive(Debug)]
pub struct Layer {
    pub name: String,
    pub parent: String,
    /// The binding of each slot, by key index; `None` where the layer says
    /// nothing of a slot.
    pub keys: Vec<Option<Action>>,
    pub overrides: Vec<Override>,
    pub index: usize,
    pub keymap: Keymap,
}

/// The value of a [`Layer`].
pub struct LayerV {
    pub name: Seq<char>,
    pub parent: Seq<char>,
    pub keys: Seq<Option<ActionV>>,
    pub overrides: Seq<OverrideV>,
    pub index: usize,
    pub keymap: Keymap,
}

/// The value of a slot.
pub open spec fn slot_view(o: Option<Action>) -> Option<ActionV> {
    match o {
        Some(a) => Some(a@),
        None => None,
    }
}

/// The values of a row of slots.
pub open spec fn slots_view(v: Seq<Option<Action>>) -> Seq<Option<ActionV>> {
    Seq::new(v.len(), |i: int| slot_view(v[i]))
}

/// The values of a row of overrides.
pub open spec fn overrides_view(v: Seq<Override>) -> Seq<OverrideV> {
    Seq::new(v.len(), |i: int| v[i]@)
}

impl View for Layer {
    type V = LayerV;

    open spec fn view(&self) -> LayerV {
        LayerV {
            name: self.name@,
            parent: self.parent@,
            keys: slots_view(self.keys@),
            overrides: overrides_view(self.overrides@),
            index: self.index,
            keymap: self.keymap,
        }
    }
}

/// What a row of slots binds slot `i` to.
pub open spec fn slot(keys: Seq<Option<ActionV>>, i: int) -> Option<ActionV> {
    if 0 <= i < keys.len() {
        keys[i]
    } else {
        None
    }
}

/// The slots with slot `i` bound to `a`; slots between the old end and `i`
/// stay unbound.
pub open spec fn put(keys: Seq<Option<ActionV>>, i: int, a: ActionV) -> Seq<Option<ActionV>> {
    Seq::new(
        if i < keys.len() {
            keys.len()
        } else {
            (i + 1) as nat
        },
        |j: int|
            if j == i {
                Some(a)
            } else {
                slot(keys, j)
            },
    )
}

/// One slot over another: the binding of `top` where it has one, else that
/// of `base`.
pub open spec fn overlay(base: Seq<Option<ActionV>>, top: Seq<Option<ActionV>>) -> Seq<
    Option<ActionV>,
> {
    Seq::new(
        if top.len() < base.len() {
            base.len()
        } else {
            top.len()
        },
        |j: int|
            match slot(top, j) {
                Some(a) => Some(a),
                None => slot(base, j),
            },
    )
}

/// Binds slot `i` of a row to `a`.
pub fn put_slot(keys: &mut Vec<Option<Action>>, i: usize, a: Action)
    requires
        i < MAX_KEYS,
    ensures
        slots_view(final(keys)@) == put(slots_view(old(keys)@), i as int, a@),
{
    while keys.len() <= i
        invariant
            i < MAX_KEYS,
            old(keys)@.len() <= keys@.len(),
            keys@.len() <= i + 1 || keys@.len() == old(keys)@.len(),
            forall|j: int| 0 <= j < old(keys)@.len() ==> keys@[j] == old(keys)@[j],
            forall|j: int| old(keys)@.len() <= j < keys@.len() ==> keys@[j].is_none(),
        decreases i + 1 - keys.len(),
    {
        keys.push(None);
    }
    keys[i] = Some(a);
    assert(slots_view(keys@) =~= put(slots_view(old(keys)@), i as int, a@));
}

/// A copy of a row of slots.
pub fn clone_slots(keys: &Vec<Option<Action>>) -> (r: Vec<Option<Action>>)
    ensures
        slots_view(r@) == slots_view(keys@),
{
    let mut out: Vec<Option<Action>> = Vec::new();
    let mut i: usize = 0;
    while i < keys.len()
        invariant
            i <= keys.len(),
            slots_view(out@) =~= slots_view(keys@).take(i as int),
        decreases keys.len() - i,
    {
        let ghost before = slots_view(out@);
        let item = match &keys[i] {
            Some(a) => Some(a.clone()),
            None => None,
        };
        out.push(item);
        assert(slots_view(out@) =~= before.push(slots_view(keys@)[i as int]));
        i = i + 1;
    }
    assert(slots_view(keys@).take(i as int) =~= slots_view(keys@));
    out
}

/// A copy of a row of overrides.
pub fn clone_overrides(v: &Vec<Override>) -> (r: Vec<Override>)
    ensures
        overrides_view(r@) == overrides_view(v@),
{
    let mut out: Vec<Override> = Vec::new();
    let mut i: usize = 0;
    while i < v.len()
        invariant
            i <= v.len(),
            overrides_view(out@) =~= overrides_view(v@).take(i as int),
        decreases v.len() - i,
    {
        let ghost before = overrides_view(out@);
        let item = v[i].clone();
        out.push(item);
        assert(overrides_view(out@) =~= before.push(item@));
        i = i + 1;
    }
    assert(overrides_view(v@).take(i as int) =~= overrides_view(v@));
    out
}

impl Clone for Layer {
    fn clone(&self) -> (r: Self)
        ensures
            r@ == self@,
    {
        Layer {
            name: self.name.clone(),
            parent: self.parent.clone(),
            keys: clone_slots(&self.keys),
            overrides: clone_overrides(&self.overrides),
            index: self.index,
            keymap: self.keymap,
        }
    }
}

/// The head of a layer definition: the layer's name, its parent, and the
/// expressions that follow.
pub struct Header {
    pub name: Seq<char>,
    pub parent: Seq<char>,
    pub rest: Seq<ExprV>,
}

/// The head of a layer definition. A bare name has the parent `default`, and
/// `default` itself the parent `src`; a list of two atoms gives both. Where
/// one list follows the head, its children are what follows.
pub open spec fn header_of(params: Seq<ExprV>) -> Result<Header, Error> {
    if params.len() == 0 {
        Err(Error::Shape)
    } else {
        let tail = params.drop_first();
        let rest = if tail.len() == 1 && tail[0] is List {
            tail[0]->List_0
        } else {
            tail
        };
        match params[0] {
            ExprV::Atom(x) => if x == "default"@ {
                Ok(Header { name: "default"@, parent: "src"@, rest: rest })
            } else if x == "src"@ {
                Err(Error::ReservedLayer)
            } else {
                Ok(Header { name: x, parent: "default"@, rest: rest })
            },
            ExprV::List(xs) => if xs.len() == 2 && xs[0] is Atom && xs[1] is Atom {
                Ok(Header { name: xs[0]->Atom_0, parent: xs[1]->Atom_0, rest: rest })
            } else {
                Err(Error::Shape)
            },
        }
    }
}

/// The slots of a positional layer definition: one action for each
/// expression, in order. Expressions beyond what a key index can number are
/// an error, after any error among those before.
pub open spec fn row_slots(rest: Seq<ExprV>) -> Result<Seq<Option<ActionV>>, Error> {
    let head = if rest.len() > MAX_KEYS {
        rest.take(MAX_KEYS as int)
    } else {
        rest
    };
    match actions_from(head, 0) {
        Err(e) => Err(e),
        Ok(actions) => if rest.len() > MAX_KEYS {
            Err(Error::TooManyKeys)
        } else {
            Ok(Seq::new(actions.len(), |i: int| Some(actions[i])))
        },
    }
}

/// The slots of a layer map from position `i` on, bound on top of `acc`:
/// pairs of a key of the source row and the action for its slot.
pub open spec fn map_slots(rest: Seq<ExprV>, source: Seq<Key>, i: int, acc: Seq<Option<ActionV>>)
    -> Result<Seq<Option<ActionV>>, Error>
    decreases rest.len() - i,
{
    if i < 0 || i >= rest.len() {
        Ok(acc)
    } else if i + 1 >= rest.len() || !(rest[i] is Atom) {
        Err(Error::Shape)
    } else {
        match Key::of_name(rest[i]->Atom_0) {
            None => Err(Error::UnknownKey),
            Some(k) => match pos_of(source, k, 0) {
                None => Err(Error::MissingKey),
                Some(p) => if p >= MAX_KEYS {
                    Err(Error::TooManyKeys)
                } else {
                    match action_of(rest[i + 1]) {
                        Err(e) => Err(e),
                        Ok(a) => map_slots(rest, source, i + 2, put(acc, p, a)),
                    }
                },
            },
        }
    }
}

/// The names that the slots from position `i` on hold while a key is down.
pub open spec fn slots_held(keys: Seq<Option<ActionV>>, i: int) -> Seq<Seq<char>>
    decreases keys.len() - i,
{
    if i < 0 || i >= keys.len() {
        Seq::empty()
    } else {
        match keys[i] {
            Some(a) => held_names(a) + slots_held(keys, i + 1),
            None => slots_held(keys, i + 1),
        }
    }
}

/// The names of a row without `skip` and without repeats: each name where it
/// stands first.
pub open spec fn unique_without(names: Seq<Seq<char>>, skip: Seq<char>) -> Seq<Seq<char>>
    decreases names.len(),
{
    if names.len() == 0 {
        Seq::empty()
    } else {
        let d = unique_without(names.drop_last(), skip);
        if names.last() == skip || d.contains(names.last()) {
            d
        } else {
            d.push(names.last())
        }
    }
}

/// The layers that a layer depends on: those that its slots hold while a key
/// is down, but for the layer itself.
pub open spec fn deps_of(l: LayerV) -> Seq<Seq<char>> {
    unique_without(slots_held(l.keys, 0), l.name)
}

/// Whether `name` stands in `names`.
pub fn has_name(names: &Vec<String>, name: &str) -> (r: bool)
    ensures
        r == texts(names@).contains(name@),
{
    let mut i: usize = 0;
    while i < names.len()
        invariant
            i <= names.len(),
            forall|j: int| 0 <= j < i ==> texts(names@)[j] != name@,
        decreases names.len() - i,
    {
        if same(names[i].as_str(), name) {
            assert(texts(names@)[i as int] == name@);
            return true;
        }
        i = i + 1;
    }
    false
}

impl Layer {
    /// A layer that inherits everything from this one, under a new name and
    /// index.
    pub fn child(&self, name: String, index: usize) -> (r: Layer)
        ensures
            r@ == (LayerV {
                name: name@,
                parent: self@.name,
                keys: self@.keys,
                overrides: self@.overrides,
                index: index,
                keymap: self@.keymap,
            }),
    {
        Layer {
            name: name,
            parent: self.name.clone(),
            keys: clone_slots(&self.keys),
            overrides: clone_overrides(&self.overrides),
            index: index,
            keymap: self.keymap,
        }
    }

    /// The layer `src` of a source row: each slot taps its own key.
    pub fn from_keyboard(source: &Vec<Key>) -> (r: Layer)
        ensures
            r@ == (LayerV {
                name: "src"@,
                parent: Seq::empty(),
                keys: Seq::new(source@.len(), |i: int| Some(ActionV::Tap(source@[i]))),
                overrides: Seq::empty(),
                index: 0,
                keymap: Keymap::En,
            }),
    {
        let mut keys: Vec<Option<Action>> = Vec::new();
        let mut i: usize = 0;
        while i < source.len()
            invariant
                i <= source.len(),
                slots_view(keys@) =~= Seq::new(i as nat, |j: int| Some(ActionV::Tap(source@[j]))),
            decreases source.len() - i,
        {
            let ghost before = slots_view(keys@);
            let a = Action::Tap(source[i]);
            keys.push(Some(a));
            assert(slots_view(keys@) =~= before.push(Some(a@)));
            i = i + 1;
        }
        let r = Layer {
            name: String::from_str("src"),
            parent: String::new(),
            keys: keys,
            overrides: Vec::new(),
            index: 0,
            keymap: Keymap::En,
        };
        assert(r@.overrides =~= Seq::empty());
        assert(r@.keys =~= Seq::new(source@.len(), |i: int| Some(ActionV::Tap(source@[i]))));
        r
    }

    /// The name, the parent and the body of a layer definition.
    #[verifier::loop_isolation(false)]
    pub fn get_name(params: &Vec<Expr>) -> (r: Result<(String, String, Vec<Expr>), Error>)
        ensures
            match r {
                Ok((name, parent, rest)) => header_of(exprs(params@)) == Ok::<Header, Error>(
                    Header { name: name@, parent: parent@, rest: exprs(rest@) },
                ),
                Err(e) => header_of(exprs(params@)) == Err::<Header, Error>(e),
            },
    {
        if params.len() == 0 {
            return Err(Error::Shape);
        }
        let (name, parent) = match &params[0] {
            Expr::Atom(x) => {
                if same(x.as_str(), "default") {
                    (String::from_str("default"), String::from_str("src"))
                } else if same(x.as_str(), "src") {
                    return Err(Error::ReservedLayer);
                } else {
                    (x.clone(), String::from_str("default"))
                }
            },
            Expr::List(xs) => {
                assert(params@[0]@ == ExprV::List(exprs(xs@)));
                if xs.len() != 2 {
                    return Err(Error::Shape);
                }
                match (xs[0].atom(), xs[1].atom()) {
                    (Ok(name), Ok(parent)) => (String::from_str(name), String::from_str(parent)),
                    _ => {
                        return Err(Error::Shape);
                    },
                }
            },
        };
        let ghost tail = exprs(params@).drop_first();
        let rest = if params.len() == 2 {
            match &params[1] {
                Expr::List(x) => {
                    assert(tail[0] == params@[1]@);
                    clone_all(x)
                },
                _ => {
                    let mut out: Vec<Expr> = Vec::new();
                    let item = params[1].clone();
                    out.push(item);
                    assert(exprs(out@) =~= tail);
                    out
                },
            }
        } else {
            let mut out: Vec<Expr> = Vec::new();
            let mut i: usize = 1;
            while i < params.len()
                invariant
                    1 <= i <= params.len(),
                    exprs(out@) =~= exprs(params@).subrange(1, i as int),
                decreases params.len() - i,
            {
                let ghost before = exprs(out@);
                let item = params[i].clone();
                out.push(item);
                assert(exprs(out@) =~= before.push(item@));
                i = i + 1;
            }
            assert(exprs(out@) =~= tail);
            out
        };
        Ok((name, parent, rest))
    }

    /// The layer of a positional definition: a head, then one action for
    /// each slot in order.
    #[verifier::loop_isolation(false)]
    pub fn from_def(params: &Vec<Expr>, index: usize) -> (r: Result<Layer, Error>)
        ensures
            match r {
                Ok(l) => match header_of(exprs(params@)) {
                    Ok(h) => row_slots(h.rest) == Ok::<Seq<Option<ActionV>>, Error>(l@.keys) && l@
                        == (LayerV {
                        name: h.name,
                        parent: h.parent,
                        keys: l@.keys,
                        overrides: Seq::empty(),
                        index: index,
                        keymap: Keymap::En,
                    }),
                    Err(_) => false,
                },
                Err(e) => match header_of(exprs(params@)) {
                    Ok(h) => row_slots(h.rest) == Err::<Seq<Option<ActionV>>, Error>(e),
                    Err(e2) => e == e2,
                },
            },
    {
        let (name, parent, rest) = match Layer::get_name(params) {
            Ok(h) => h,
            Err(e) => {
                return Err(e);
            },
        };
        let ghost all = exprs(rest@);
        let ghost head = if all.len() > MAX_KEYS {
            all.take(MAX_KEYS as int)
        } else {
            all
        };
        let mut keys: Vec<Option<Action>> = Vec::new();
        let ghost mut actions: Seq<ActionV> = Seq::empty();
        let mut i: usize = 0;
        let n = if rest.len() > MAX_KEYS {
            MAX_KEYS
        } else {
            rest.len()
        };
        assert(slots_view(keys@) =~= Seq::new(actions.len(), |i: int| Some(actions[i])));
        while i < n
            invariant
                i <= n,
                n == head.len(),
                n <= rest.len(),
                all == exprs(rest@),
                forall|j: int| 0 <= j < n ==> head[j] == all[j],
                slots_view(keys@) == Seq::new(actions.len(), |i: int| Some(actions[i])),
                actions_from(head, 0) == (match actions_from(head, i as int) {
                    Ok(tail) => Ok::<Seq<ActionV>, Error>(actions + tail),
                    Err(e) => Err(e),
                }),
            decreases n - i,
        {
            assert(head[i as int] == rest@[i as int]@);
            match Action::from_expr(&rest[i]) {
                Err(e) => {
                    return Err(e);
                },
                Ok(a) => {
                    let ghost before = slots_view(keys@);
                    proof {
                        match actions_from(head, i + 1) {
                            Ok(tail) => {
                                assert(actions + (seq![a@] + tail) =~= actions.push(a@) + tail);
                            },
                            Err(_) => {},
                        }
                        actions = actions.push(a@);
                    }
                    keys.push(Some(a));
                    assert(slots_view(keys@) =~= before.push(Some(a@)));
                    assert(slots_view(keys@) =~= Seq::new(
                        actions.len(),
                        |i: int| Some(actions[i]),
                    ));
                },
            }
            i = i + 1;
        }
        assert(actions + Seq::<ActionV>::empty() =~= actions);
        if rest.len() > MAX_KEYS {
            return Err(Error::TooManyKeys);
        }
        let l = Layer {
            name: name,
            parent: parent,
            keys: keys,
            overrides: Vec::new(),
            index: index,
            keymap: Keymap::En,
        };
        assert(l@.overrides =~= Seq::empty());
        Ok(l)
    }

    /// The layers that this one depends on.
    pub fn get_dependencies(&self) -> (r: Vec<String>)
        ensures
            texts(r@) == deps_of(self@),
    {
        let ghost keys = slots_view(self.keys@);
        let mut names: Vec<String> = Vec::new();
        let mut i: usize = 0;
        assert(texts(names@) =~= Seq::<Seq<char>>::empty());
        while i < self.keys.len()
            invariant
                i <= self.keys.len(),
                keys == slots_view(self.keys@),
                texts(names@) + slots_held(keys, i as int) == slots_held(keys, 0),
            decreases self.keys.len() - i,
        {
            let ghost before = texts(names@);
            match &self.keys[i] {
                Some(a) => {
                    let mut more = a.layer_while_held_names();
                    let ghost added = texts(more@);
                    names.append(&mut more);
                    assert(texts(names@) =~= before + added);
                    assert(before + added + slots_held(keys, i + 1) =~= before + (added
                        + slots_held(keys, i + 1)));
                },
                None => {},
            }
            i = i + 1;
        }
        assert(texts(names@) + Seq::<Seq<char>>::empty() =~= texts(names@));
        let ghost all = texts(names@);
        let mut out: Vec<String> = Vec::new();
        let mut j: usize = 0;
        assert(all.take(0) =~= Seq::<Seq<char>>::empty());
        assert(texts(out@) =~= Seq::<Seq<char>>::empty());
        while j < names.len()
            invariant
                j <= names.len(),
                all == texts(names@),
                texts(out@) == unique_without(all.take(j as int), self.name@),
            decreases names.len() - j,
        {
            assert(all.take(j + 1).drop_last() =~= all.take(j as int));
            assert(all.take(j + 1).last() == names@[j as int]@);
            if !same(names[j].as_str(), self.name.as_str()) && !has_name(
                &out,
                names[j].as_str(),
            ) {
                let ghost before = texts(out@);
                out.push(names[j].clone());
                assert(texts(out@) =~= before.push(names@[j as int]@));
            }
            j = j + 1;
        }
        assert(all.take(j as int) =~= all);
        out
    }

    /// The layer of a map definition: a head, then pairs of a key of the
    /// source row and the action for its slot. Slots that no pair names stay
    /// unbound.
    #[verifier::loop_isolation(false)]
    pub fn from_map(params: &Vec<Expr>, source: &Vec<Key>) -> (r: Result<Layer, Error>)
        ensures
            match r {
                Ok(l) => match header_of(exprs(params@)) {
                    Ok(h) => map_slots(h.rest, source@, 0, Seq::empty()) == Ok::<
                        Seq<Option<ActionV>>,
                        Error,
                    >(l@.keys) && l@ == (LayerV {
                        name: h.name,
                        parent: h.parent,
                        keys: l@.keys,
                        overrides: Seq::empty(),
                        index: 0,
                        keymap: Keymap::En,
                    }),
                    Err(_) => false,
                },
                Err(e) => match header_of(exprs(params@)) {
                    Ok(h) => map_slots(h.rest, source@, 0, Seq::empty()) == Err::<
                        Seq<Option<ActionV>>,
                        Error,
                    >(e),
                    Err(e2) => e == e2,
                },
            },
    {
        let (name, parent, rest) = match Layer::get_name(params) {
            Ok(h) => h,
            Err(e) => {
                return Err(e);
            },
        };
        let ghost all = exprs(rest@);
        let mut keys: Vec<Option<Action>> = Vec::new();
        let mut i: usize = 0;
        assert(slots_view(keys@) =~= Seq::<Option<ActionV>>::empty());
        while i < rest.len()
            invariant
                i <= rest.len(),
                all == exprs(rest@),
                map_slots(all, source@, 0, Seq::empty()) == map_slots(
                    all,
                    source@,
                    i as int,
                    slots_view(keys@),
                ),
            decreases rest.len() - i,
        {
            if i + 1 >= rest.len() {
                return Err(Error::Shape);
            }
            let key = match &rest[i] {
                Expr::Atom(key) => key,
                _ => {
                    return Err(Error::Shape);
                },
            };
            let src = match Key::from_str(key.as_str()) {
                Ok(k) => k,
                Err(_) => {
                    return Err(Error::UnknownKey);
                },
            };
            let p = match position(source, src) {
                Some(p) => p,
                None => {
                    return Err(Error::MissingKey);
                },
            };
            if p >= MAX_KEYS {
                return Err(Error::TooManyKeys);
            }
            let action = match Action::from_expr(&rest[i + 1]) {
                Ok(a) => a,
                Err(e) => {
                    return Err(e);
                },
            };
            put_slot(&mut keys, p, action);
            i = i + 2;
        }
        let l = Layer {
            name: name,
            parent: parent,
            keys: keys,
            overrides: Vec::new(),
            index: 0,
            keymap: Keymap::En,
        };
        assert(l@.overrides =~= Seq::empty());
        Ok(l)
    }

    /// What the layer binds a slot to.
    pub fn get(&self, index: KeyIndex) -> (r: Option<&Action>)
        ensures
            match r {
                Some(a) => slot(self@.keys, index.0 as int) == Some(a@),
                None => slot(self@.keys, index.0 as int).is_none(),
            },
    {
        let i = index.to_usize();
        if i < self.keys.len() {
            match &self.keys[i] {
                Some(a) => Some(a),
                None => None,
            }
        } else {
            None
        }
    }
}

/// Whether each slot of a row taps the key of the source row at its index.
pub open spec fn taps_own_keys(keys: Seq<Option<ActionV>>, source: Seq<Key>) -> bool {
    keys.len() == source.len() && forall|i: int|
        0 <= i < keys.len() ==> #[trigger] keys[i] == Some(ActionV::Tap(source[i]))
}

/// Slots that tap their own keys hold no layer.
pub proof fn own_taps_hold_nothing(keys: Seq<Option<ActionV>>, source: Seq<Key>, i: int)
    requires
        0 <= i,
        taps_own_keys(keys, source),
    ensures
        slots_held(keys, i) == Seq::<Seq<char>>::empty(),
    decreases keys.len() - i,
{
    if i < keys.len() {
        own_taps_hold_nothing(keys, source, i + 1);
        assert(keys[i] == Some(ActionV::Tap(source[i])));
        assert(held_names(ActionV::Tap(source[i])) + Seq::<Seq<char>>::empty() =~= Seq::<
            Seq<char>,
        >::empty());
    }
}

} // verus!
