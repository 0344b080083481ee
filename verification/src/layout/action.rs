//! The action tree that a key slot is bound to.

use crate::error::Error;
use crate::keys::Key;
use crate::sexpr::{Expr, ExprV};
use crate::text::{chars_of, same, string_of};
use vstd::prelude::*;

verus! {

/// What a key slot does.
#[derive(Debug, PartialEq, Eq)]
pub enum Action {
    Tap(Key),
    Transparent,
    NoAction,
    Alias(String),
    TapHold(Box<Action>, Box<Action>),
    Multi(Vec<Action>),
    LayerWhileHeld(String),
    LayerSwitch(String),
    Unicode(char),
    Sequence(Vec<Action>),
    Hold(Key),
    Release(Key),
}

/// The mathematical value of an [`Action`].
pub enum ActionV {
    Tap(Key),
    Transparent,
    NoAction,
    Alias(Seq<char>),
    TapHold(Box<ActionV>, Box<ActionV>),
    Multi(Seq<ActionV>),
    LayerWhileHeld(Seq<char>),
    LayerSwitch(Seq<char>),
    Unicode(char),
    Sequence(Seq<ActionV>),
    Hold(Key),
    Release(Key),
}

impl View for Action {
    type V = ActionV;

    open spec fn view(&self) -> ActionV {
        value(*self)
    }
}

/// The value of an action.
pub open spec fn value(a: Action) -> ActionV
    decreases a,
{
    match a {
        Action::Tap(k) => ActionV::Tap(k),
        Action::Transparent => ActionV::Transparent,
        Action::NoAction => ActionV::NoAction,
        Action::Alias(n) => ActionV::Alias(n@),
        Action::TapHold(t, h) => ActionV::TapHold(Box::new(value(*t)), Box::new(value(*h))),
        Action::Multi(v) => ActionV::Multi(views(v@)),
        Action::LayerWhileHeld(n) => ActionV::LayerWhileHeld(n@),
        Action::LayerSwitch(n) => ActionV::LayerSwitch(n@),
        Action::Unicode(c) => ActionV::Unicode(c),
        Action::Sequence(v) => ActionV::Sequence(views(v@)),
        Action::Hold(k) => ActionV::Hold(k),
        Action::Release(k) => ActionV::Release(k),
    }
}

/// The values of a row of actions.
pub open spec fn views(v: Seq<Action>) -> Seq<ActionV>
    decreases v,
{
    Seq::new(
        v.len(),
        |i: int|
            if 0 <= i < v.len() {
                value(v[i])
            } else {
                arbitrary()
            },
    )
}

/// `views` commutes with `push`.
pub proof fn views_push(v: Seq<Action>, a: Action)
    ensures
        views(v.push(a)) == views(v).push(a@),
{
    assert(views(v.push(a)) =~= views(v).push(a@));
}

/// A named action table: later entries of a name hide earlier ones.
pub type Aliases = Vec<(String, Action)>;

/// The value of a named action table.
pub open spec fn table_view(t: Seq<(String, Action)>) -> Seq<(Seq<char>, ActionV)> {
    Seq::new(t.len(), |i: int| (t[i].0@, t[i].1@))
}

/// The entry of `name` that was added last, if there is one.
pub open spec fn lookup(t: Seq<(Seq<char>, ActionV)>, name: Seq<char>) -> Option<ActionV>
    decreases t.len(),
{
    if t.len() == 0 {
        None
    } else if t.last().0 == name {
        Some(t.last().1)
    } else {
        lookup(t.drop_last(), name)
    }
}

/// The action with every alias replaced by what it names, the replacement
/// resolved in turn. `fuel` bounds how many aliases may be followed one after
/// the other: running out of it is a cycle.
pub open spec fn resolved(a: ActionV, t: Seq<(Seq<char>, ActionV)>, fuel: nat) -> Result<
    ActionV,
    Error,
>
    decreases fuel, a,
{
    match a {
        ActionV::Alias(n) => match lookup(t, n) {
            None => Err(Error::MissingAlias),
            Some(b) => if fuel == 0 {
                Err(Error::AliasCycle)
            } else {
                resolved(b, t, (fuel - 1) as nat)
            },
        },
        ActionV::TapHold(tap, hold) => match resolved(*tap, t, fuel) {
            Err(e) => Err(e),
            Ok(tap2) => match resolved(*hold, t, fuel) {
                Err(e) => Err(e),
                Ok(hold2) => Ok(ActionV::TapHold(Box::new(tap2), Box::new(hold2))),
            },
        },
        ActionV::Multi(v) => match resolved_all(v, t, fuel) {
            Err(e) => Err(e),
            Ok(w) => Ok(ActionV::Multi(w)),
        },
        ActionV::Sequence(v) => match resolved_all(v, t, fuel) {
            Err(e) => Err(e),
            Ok(w) => Ok(ActionV::Sequence(w)),
        },
        _ => Ok(a),
    }
}

/// `resolved` on each action of a row; the first error wins.
pub open spec fn resolved_all(v: Seq<ActionV>, t: Seq<(Seq<char>, ActionV)>, fuel: nat) -> Result<
    Seq<ActionV>,
    Error,
>
    decreases fuel, v,
{
    if v.len() == 0 {
        Ok(Seq::empty())
    } else {
        match resolved(v[0], t, fuel) {
            Err(e) => Err(e),
            Ok(a) => match resolved_all(v.drop_first(), t, fuel) {
                Err(e) => Err(e),
                Ok(rest) => Ok(seq![a] + rest),
            },
        }
    }
}

/// The names of the layers that the action holds while a key is down, in the
/// order in which they stand in the tree.
pub open spec fn held_names(a: ActionV) -> Seq<Seq<char>>
    decreases a,
{
    match a {
        ActionV::LayerWhileHeld(n) => seq![n],
        ActionV::TapHold(tap, hold) => held_names(*tap) + held_names(*hold),
        ActionV::Multi(v) => held_names_all(v),
        ActionV::Sequence(v) => held_names_all(v),
        _ => Seq::empty(),
    }
}

/// `held_names` of each action of a row, one after the other.
pub open spec fn held_names_all(v: Seq<ActionV>) -> Seq<Seq<char>>
    decreases v,
{
    if v.len() == 0 {
        Seq::empty()
    } else {
        held_names(v[0]) + held_names_all(v.drop_first())
    }
}

/// Whether a `Unicode` stands anywhere in the tree.
pub open spec fn has_unicode(a: ActionV) -> bool
    decreases a, 0int,
{
    match a {
        ActionV::Unicode(_) => true,
        ActionV::TapHold(tap, hold) => has_unicode(*tap) || has_unicode(*hold),
        ActionV::Multi(v) => any_unicode(v, 0),
        ActionV::Sequence(v) => any_unicode(v, 0),
        _ => false,
    }
}

/// Whether a `Unicode` stands in one of the actions of a row from position
/// `i` on.
pub open spec fn any_unicode(v: Seq<ActionV>, i: int) -> bool
    decreases v, v.len() - i,
{
    if i < 0 || i >= v.len() {
        false
    } else {
        has_unicode(v[i]) || any_unicode(v, i + 1)
    }
}

/// Whether an `Alias` stands anywhere in the tree.
pub open spec fn has_alias(a: ActionV) -> bool
    decreases a, 0int,
{
    match a {
        ActionV::Alias(_) => true,
        ActionV::TapHold(tap, hold) => has_alias(*tap) || has_alias(*hold),
        ActionV::Multi(v) => any_alias(v, 0),
        ActionV::Sequence(v) => any_alias(v, 0),
        _ => false,
    }
}

/// Whether an `Alias` stands in one of the actions of a row from position
/// `i` on.
pub open spec fn any_alias(v: Seq<ActionV>, i: int) -> bool
    decreases v, v.len() - i,
{
    if i < 0 || i >= v.len() {
        false
    } else {
        has_alias(v[i]) || any_alias(v, i + 1)
    }
}

/// A renaming of layers: pairs of an old and a new name. The first pair of a
/// name counts.
pub type Renames = Vec<(String, String)>;

/// The value of a renaming.
pub open spec fn renames_view(r: Seq<(String, String)>) -> Seq<(Seq<char>, Seq<char>)> {
    Seq::new(r.len(), |i: int| (r[i].0@, r[i].1@))
}

/// What a renaming makes of a name: the new name of its first pair, or the
/// name itself where it has none.
pub open spec fn renamed(r: Seq<(Seq<char>, Seq<char>)>, name: Seq<char>) -> Seq<char>
    decreases r.len(),
{
    if r.len() == 0 {
        name
    } else if r[0].0 == name {
        r[0].1
    } else {
        renamed(r.drop_first(), name)
    }
}

/// The action with the name of every `LayerWhileHeld` renamed.
pub open spec fn rehold(a: ActionV, r: Seq<(Seq<char>, Seq<char>)>) -> ActionV
    decreases a,
{
    match a {
        ActionV::LayerWhileHeld(n) => ActionV::LayerWhileHeld(renamed(r, n)),
        ActionV::TapHold(tap, hold) => ActionV::TapHold(
            Box::new(rehold(*tap, r)),
            Box::new(rehold(*hold, r)),
        ),
        ActionV::Multi(v) => ActionV::Multi(rehold_all(v, r)),
        ActionV::Sequence(v) => ActionV::Sequence(rehold_all(v, r)),
        _ => a,
    }
}

/// `rehold` on each action of a row.
pub open spec fn rehold_all(v: Seq<ActionV>, r: Seq<(Seq<char>, Seq<char>)>) -> Seq<ActionV>
    decreases v,
{
    if v.len() == 0 {
        Seq::empty()
    } else {
        seq![rehold(v[0], r)] + rehold_all(v.drop_first(), r)
    }
}

impl Clone for Action {
    #[verifier::loop_isolation(false)]
    fn clone(&self) -> (r: Self)
        ensures
            r@ == self@,
        decreases self,
    {
        match self {
            Action::Tap(k) => Action::Tap(*k),
            Action::Transparent => Action::Transparent,
            Action::NoAction => Action::NoAction,
            Action::Alias(n) => Action::Alias(n.clone()),
            Action::TapHold(t, h) => Action::TapHold(Box::new((**t).clone()), Box::new((**h).clone())),
            Action::Multi(v) => {
                let mut out: Vec<Action> = Vec::new();
                let mut i: usize = 0;
                while i < v.len()
                    invariant
                        i <= v.len(),
                        views(out@) == views(v@).take(i as int),
                    decreases v.len() - i,
                {
                    let item = v[i].clone();
                    proof {
                        views_push(out@, item);
                        assert(views(v@).take(i + 1) =~= views(v@).take(i as int).push(v@[i as int]@));
                    }
                    out.push(item);
                    i = i + 1;
                }
                assert(views(v@).take(i as int) =~= views(v@));
                Action::Multi(out)
            },
            Action::LayerWhileHeld(n) => Action::LayerWhileHeld(n.clone()),
            Action::LayerSwitch(n) => Action::LayerSwitch(n.clone()),
            Action::Unicode(c) => Action::Unicode(*c),
            Action::Sequence(v) => {
                let mut out: Vec<Action> = Vec::new();
                let mut i: usize = 0;
                while i < v.len()
                    invariant
                        i <= v.len(),
                        views(out@) == views(v@).take(i as int),
                    decreases v.len() - i,
                {
                    let item = v[i].clone();
                    proof {
                        views_push(out@, item);
                        assert(views(v@).take(i + 1) =~= views(v@).take(i as int).push(v@[i as int]@));
                    }
                    out.push(item);
                    i = i + 1;
                }
                assert(views(v@).take(i as int) =~= views(v@));
                Action::Sequence(out)
            },
            Action::Hold(k) => Action::Hold(*k),
            Action::Release(k) => Action::Release(*k),
        }
    }
}

/// Finds the entry of `name` that was added last.
pub fn find<'a>(t: &'a Aliases, name: &str) -> (r: Option<&'a Action>)
    ensures
        match r {
            Some(a) => lookup(table_view(t@), name@) == Some(a@),
            None => lookup(table_view(t@), name@).is_none(),
        },
{
    let ghost tv = table_view(t@);
    let mut i: usize = t.len();
    assert(tv.take(i as int) =~= tv);
    while i > 0
        invariant
            i <= t.len(),
            tv == table_view(t@),
            lookup(tv, name@) == lookup(tv.take(i as int), name@),
        decreases i,
    {
        assert(tv.take(i as int).drop_last() =~= tv.take(i - 1));
        assert(tv.take(i as int).last() == tv[i - 1]);
        if same(t[i - 1].0.as_str(), name) {
            return Some(&t[i - 1].1);
        }
        i = i - 1;
    }
    None
}

fn rename(r: &Renames, name: &String) -> (out: String)
    ensures
        out@ == renamed(renames_view(r@), name@),
{
    let ghost rv = renames_view(r@);
    let mut i: usize = 0;
    assert(rv.skip(0) =~= rv);
    while i < r.len()
        invariant
            i <= r.len(),
            rv == renames_view(r@),
            renamed(rv, name@) == renamed(rv.skip(i as int), name@),
        decreases r.len() - i,
    {
        assert(rv.skip(i as int).drop_first() =~= rv.skip(i + 1));
        assert(rv.skip(i as int)[0] == rv[i as int]);
        if same(r[i].0.as_str(), name.as_str()) {
            return r[i].1.clone();
        }
        i = i + 1;
    }
    name.clone()
}

impl Action {
    /// The action with every alias replaced by what the table gives for it,
    /// the replacement resolved in turn. An alias without an entry is an
    /// error, and so is a chain of aliases longer than the table.
    pub fn resolve_aliases(&self, aliases: &Aliases) -> (r: Result<Action, Error>)
        ensures
            match r {
                Ok(a) => resolved(self@, table_view(aliases@), aliases@.len()) == Ok::<
                    ActionV,
                    Error,
                >(a@),
                Err(e) => resolved(self@, table_view(aliases@), aliases@.len()) == Err::<
                    ActionV,
                    Error,
                >(e),
            },
    {
        self.resolve_with(aliases, aliases.len())
    }

    #[verifier::loop_isolation(false)]
    fn resolve_with(&self, aliases: &Aliases, fuel: usize) -> (r: Result<Action, Error>)
        ensures
            match r {
                Ok(a) => resolved(self@, table_view(aliases@), fuel as nat) == Ok::<ActionV, Error>(
                    a@,
                ),
                Err(e) => resolved(self@, table_view(aliases@), fuel as nat) == Err::<
                    ActionV,
                    Error,
                >(e),
            },
        decreases fuel, self,
    {
        match self {
            Action::Alias(name) => match find(aliases, name.as_str()) {
                None => Err(Error::MissingAlias),
                Some(b) => if fuel == 0 {
                    Err(Error::AliasCycle)
                } else {
                    b.resolve_with(aliases, fuel - 1)
                },
            },
            Action::TapHold(tap, hold) => {
                let t = match tap.resolve_with(aliases, fuel) {
                    Ok(t) => t,
                    Err(e) => {
                        return Err(e);
                    },
                };
                let h = match hold.resolve_with(aliases, fuel) {
                    Ok(h) => h,
                    Err(e) => {
                        return Err(e);
                    },
                };
                Ok(Action::TapHold(Box::new(t), Box::new(h)))
            },
            Action::Multi(v) => match Action::resolve_row(v, aliases, fuel) {
                Ok(w) => Ok(Action::Multi(w)),
                Err(e) => Err(e),
            },
            Action::Sequence(v) => match Action::resolve_row(v, aliases, fuel) {
                Ok(w) => Ok(Action::Sequence(w)),
                Err(e) => Err(e),
            },
            _ => Ok(self.clone()),
        }
    }

    #[verifier::loop_isolation(false)]
    fn resolve_row(v: &Vec<Action>, aliases: &Aliases, fuel: usize) -> (r: Result<
        Vec<Action>,
        Error,
    >)
        ensures
            match r {
                Ok(w) => resolved_all(views(v@), table_view(aliases@), fuel as nat) == Ok::<
                    Seq<ActionV>,
                    Error,
                >(views(w@)),
                Err(e) => resolved_all(views(v@), table_view(aliases@), fuel as nat) == Err::<
                    Seq<ActionV>,
                    Error,
                >(e),
            },
        decreases fuel, v,
    {
        let ghost t = table_view(aliases@);
        let ghost vs = views(v@);
        let mut out: Vec<Action> = Vec::new();
        let mut i: usize = 0;
        assert(vs.skip(0) =~= vs);
        assert(views(out@) =~= Seq::<ActionV>::empty());
        while i < v.len()
            invariant
                i <= v.len(),
                resolved_all(vs, t, fuel as nat) == (match resolved_all(
                    vs.skip(i as int),
                    t,
                    fuel as nat,
                ) {
                    Ok(rest) => Ok::<Seq<ActionV>, Error>(views(out@) + rest),
                    Err(e) => Err(e),
                }),
            decreases v.len() - i,
        {
            assert(vs.skip(i as int).drop_first() =~= vs.skip(i + 1));
            assert(vs.skip(i as int)[0] == v@[i as int]@);
            match v[i].resolve_with(aliases, fuel) {
                Err(e) => {
                    return Err(e);
                },
                Ok(a) => {
                    proof {
                        views_push(out@, a);
                        match resolved_all(vs.skip(i + 1), t, fuel as nat) {
                            Ok(rest) => {
                                assert(views(out@) + (seq![a@] + rest) =~= views(out@).push(a@)
                                    + rest);
                            },
                            Err(_) => {},
                        }
                    }
                    out.push(a);
                },
            }
            i = i + 1;
        }
        assert(views(out@) + Seq::<ActionV>::empty() =~= views(out@));
        Ok(out)
    }
}

/// The first position from `i` on at which `c` stands in `s`, or the length
/// of `s`.
pub open spec fn next_sep(s: Seq<char>, c: char, i: int) -> int
    decreases s.len() - i,
{
    if i < 0 || i >= s.len() {
        s.len() as int
    } else if s[i] == c {
        i
    } else {
        next_sep(s, c, i + 1)
    }
}

/// The taps of a hotkey text from position `i` on: one for each stretch
/// between hyphens, which must name a key.
pub open spec fn hotkey_taps(s: Seq<char>, i: int) -> Result<Seq<ActionV>, Error>
    decreases s.len() - i + 1,
{
    if i < 0 || i > s.len() {
        Ok(Seq::empty())
    } else {
        let j = next_sep(s, '-', i);
        if i <= j <= s.len() {
            match Key::of_name(s.subrange(i, j)) {
                None => Err(Error::UnknownKey),
                Some(k) => if j >= s.len() {
                    Ok(seq![ActionV::Tap(k)])
                } else {
                    match hotkey_taps(s, j + 1) {
                        Err(e) => Err(e),
                        Ok(rest) => Ok(seq![ActionV::Tap(k)] + rest),
                    }
                },
            }
        } else {
            Ok(Seq::empty())
        }
    }
}

/// What an atom stands for as an action.
pub open spec fn atom_action(s: Seq<char>) -> Result<ActionV, Error> {
    if s.len() >= 2 && s[0] == '.' {
        Ok(ActionV::Unicode(s[1]))
    } else if s.len() >= 2 && s[0] == '@' {
        Ok(ActionV::Alias(s.skip(1)))
    } else if s.len() > 0 && s[0] != '-' && s.last() != '-' && next_sep(s, '-', 0) < s.len() {
        match hotkey_taps(s, 0) {
            Ok(taps) => Ok(ActionV::Multi(taps)),
            Err(e) => Err(e),
        }
    } else if s == "X"@ {
        Ok(ActionV::NoAction)
    } else if s == "_"@ {
        Ok(ActionV::Transparent)
    } else if s == "lb"@ {
        Ok(ActionV::Unicode('('))
    } else if s == "rb"@ {
        Ok(ActionV::Unicode(')'))
    } else {
        match Key::of_name(s) {
            Some(k) => Ok(ActionV::Tap(k)),
            None => Err(Error::UnknownKey),
        }
    }
}

/// What an expression stands for as an action.
pub open spec fn action_of(e: ExprV) -> Result<ActionV, Error>
    decreases e, 0int,
{
    match e {
        ExprV::Atom(s) => atom_action(s),
        ExprV::List(v) => if v.len() == 0 || !(v[0] is Atom) {
            Err(Error::UnknownAction)
        } else {
            let name = v[0]->Atom_0;
            if name == "tap-hold"@ {
                if v.len() != 3 {
                    Err(Error::Shape)
                } else {
                    match action_of(v[1]) {
                        Err(e) => Err(e),
                        Ok(tap) => match action_of(v[2]) {
                            Err(e) => Err(e),
                            Ok(hold) => Ok(ActionV::TapHold(Box::new(tap), Box::new(hold))),
                        },
                    }
                }
            } else if name == "multi"@ {
                match actions_from(v, 1) {
                    Ok(w) => Ok(ActionV::Multi(w)),
                    Err(e) => Err(e),
                }
            } else if name == "layer-while-held"@ {
                if v.len() == 2 && v[1] is Atom {
                    Ok(ActionV::LayerWhileHeld(v[1]->Atom_0))
                } else {
                    Err(Error::Shape)
                }
            } else if name == "layer-switch"@ {
                if v.len() == 2 && v[1] is Atom {
                    Ok(ActionV::LayerSwitch(v[1]->Atom_0))
                } else {
                    Err(Error::Shape)
                }
            } else {
                Err(Error::UnknownAction)
            }
        },
    }
}

/// `action_of` on each expression of a row from position `i` on; the first
/// error wins.
pub open spec fn actions_from(v: Seq<ExprV>, i: int) -> Result<Seq<ActionV>, Error>
    decreases v, v.len() - i,
{
    if i < 0 || i >= v.len() {
        Ok(Seq::empty())
    } else {
        match action_of(v[i]) {
            Err(e) => Err(e),
            Ok(a) => match actions_from(v, i + 1) {
                Err(e) => Err(e),
                Ok(rest) => Ok(seq![a] + rest),
            },
        }
    }
}

#[verifier::loop_isolation(false)]
fn find_sep(v: &Vec<char>, c: char, from: usize) -> (j: usize)
    requires
        from <= v.len(),
    ensures
        from <= j <= v.len(),
        j == next_sep(v@, c, from as int),
{
    let mut j: usize = from;
    while j < v.len() && v[j] != c
        invariant
            from <= j <= v.len(),
            next_sep(v@, c, from as int) == next_sep(v@, c, j as int),
        decreases v.len() - j,
    {
        j = j + 1;
    }
    j
}

#[verifier::loop_isolation(false)]
fn hotkey(v: &Vec<char>) -> (r: Result<Vec<Action>, Error>)
    ensures
        match r {
            Ok(w) => hotkey_taps(v@, 0) == Ok::<Seq<ActionV>, Error>(views(w@)),
            Err(e) => hotkey_taps(v@, 0) == Err::<Seq<ActionV>, Error>(e),
        },
{
    let mut out: Vec<Action> = Vec::new();
    let mut i: usize = 0;
    assert(views(out@) =~= Seq::<ActionV>::empty());
    loop
        invariant
            i <= v.len(),
            hotkey_taps(v@, 0) == (match hotkey_taps(v@, i as int) {
                Ok(rest) => Ok::<Seq<ActionV>, Error>(views(out@) + rest),
                Err(e) => Err(e),
            }),
        decreases v.len() - i,
    {
        let j = find_sep(v, '-', i);
        let name = string_of(v, i, j);
        let key = match Key::from_str(name.as_str()) {
            Ok(k) => k,
            Err(_) => {
                return Err(Error::UnknownKey);
            },
        };
        let tap = Action::Tap(key);
        proof {
            views_push(out@, tap);
            if j < v.len() {
                match hotkey_taps(v@, j + 1) {
                    Ok(rest) => {
                        assert(views(out@) + (seq![tap@] + rest) =~= views(out@).push(tap@) + rest);
                    },
                    Err(_) => {},
                }
            } else {
                assert(views(out@) + seq![tap@] =~= views(out@).push(tap@));
            }
        }
        out.push(tap);
        if j >= v.len() {
            return Ok(out);
        }
        i = j + 1;
    }
}

fn unicode_of(c: char) -> (a: Action)
    ensures
        a@ == ActionV::Unicode(c),
{
    Action::Unicode(c)
}

fn atom_to_action(s: &str) -> (r: Result<Action, Error>)
    ensures
        match r {
            Ok(a) => atom_action(s@) == Ok::<ActionV, Error>(a@),
            Err(e) => atom_action(s@) == Err::<ActionV, Error>(e),
        },
{
    let v = chars_of(s);
    let n = v.len();
    if n >= 2 && v[0] == '.' {
        return Ok(unicode_of(v[1]));
    }
    if n >= 2 && v[0] == '@' {
        let name = string_of(&v, 1, n);
        return Ok(Action::Alias(name));
    }
    if n > 0 && v[0] != '-' && v[n - 1] != '-' && find_sep(&v, '-', 0) < n {
        return match hotkey(&v) {
            Ok(taps) => Ok(Action::Multi(taps)),
            Err(e) => Err(e),
        };
    }
    if same(s, "X") {
        Ok(Action::NoAction)
    } else if same(s, "_") {
        Ok(Action::Transparent)
    } else if same(s, "lb") {
        Ok(Action::Unicode('('))
    } else if same(s, "rb") {
        Ok(Action::Unicode(')'))
    } else {
        match Key::from_str(s) {
            Ok(k) => Ok(Action::Tap(k)),
            Err(_) => Err(Error::UnknownKey),
        }
    }
}

impl Action {
    /// The names of the layers that the action holds while a key is down, in
    /// the order in which they stand in the tree.
    pub fn layer_while_held_names(&self) -> (r: Vec<String>)
        ensures
            crate::text::texts(r@) == held_names(self@),
    {
        let mut out: Vec<String> = Vec::new();
        assert(crate::text::texts(out@) =~= Seq::<Seq<char>>::empty());
        self.collect_held(&mut out);
        assert(Seq::<Seq<char>>::empty() + held_names(self@) =~= held_names(self@));
        out
    }

    #[verifier::loop_isolation(false)]
    fn collect_held(&self, out: &mut Vec<String>)
        ensures
            crate::text::texts(final(out)@) == crate::text::texts(old(out)@) + held_names(self@),
        decreases self, 1int,
    {
        let ghost before = crate::text::texts(out@);
        match self {
            Action::LayerWhileHeld(name) => {
                out.push(name.clone());
                assert(crate::text::texts(out@) =~= before + seq![name@]);
            },
            Action::TapHold(tap, hold) => {
                tap.collect_held(out);
                hold.collect_held(out);
                assert(before + held_names(tap@) + held_names(hold@) =~= before + (held_names(
                    tap@,
                ) + held_names(hold@)));
            },
            Action::Multi(v) => {
                Action::collect_held_row(v, out);
            },
            Action::Sequence(v) => {
                Action::collect_held_row(v, out);
            },
            _ => {
                assert(before + Seq::<Seq<char>>::empty() =~= before);
            },
        }
    }

    #[verifier::loop_isolation(false)]
    fn collect_held_row(v: &Vec<Action>, out: &mut Vec<String>)
        ensures
            crate::text::texts(final(out)@) == crate::text::texts(old(out)@) + held_names_all(
                views(v@),
            ),
        decreases v, 0int,
    {
        let ghost before = crate::text::texts(out@);
        let ghost vs = views(v@);
        let mut i: usize = 0;
        assert(vs.skip(0) =~= vs);
        while i < v.len()
            invariant
                i <= v.len(),
                crate::text::texts(out@) + held_names_all(vs.skip(i as int)) == before
                    + held_names_all(vs),
            decreases v.len() - i,
        {
            let ghost mid = crate::text::texts(out@);
            assert(vs.skip(i as int).drop_first() =~= vs.skip(i + 1));
            assert(vs.skip(i as int)[0] == v@[i as int]@);
            v[i].collect_held(out);
            assert(mid + held_names(v@[i as int]@) + held_names_all(vs.skip(i + 1)) =~= mid + (
            held_names(v@[i as int]@) + held_names_all(vs.skip(i + 1))));
            i = i + 1;
        }
        assert(crate::text::texts(out@) + Seq::<Seq<char>>::empty() =~= crate::text::texts(
            out@,
        ));
    }

    /// Whether a `Unicode` stands anywhere in the tree.
    #[verifier::loop_isolation(false)]
    pub fn contains_unicode(&self) -> (r: bool)
        ensures
            r == has_unicode(self@),
        decreases self, 1int,
    {
        match self {
            Action::Unicode(_) => true,
            Action::TapHold(tap, hold) => tap.contains_unicode() || hold.contains_unicode(),
            Action::Multi(v) => Action::row_contains_unicode(v),
            Action::Sequence(v) => Action::row_contains_unicode(v),
            _ => false,
        }
    }

    #[verifier::loop_isolation(false)]
    fn row_contains_unicode(v: &Vec<Action>) -> (r: bool)
        ensures
            r == any_unicode(views(v@), 0),
        decreases v, 0int,
    {
        let mut i: usize = 0;
        while i < v.len()
            invariant
                i <= v.len(),
                any_unicode(views(v@), 0) == any_unicode(views(v@), i as int),
            decreases v.len() - i,
        {
            if v[i].contains_unicode() {
                return true;
            }
            i = i + 1;
        }
        false
    }

    /// Renames the layer of every `LayerWhileHeld` in the tree.
    pub fn map_layer_while_held(&mut self, renames: &Renames)
        ensures
            final(self)@ == rehold(old(self)@, renames_view(renames@)),
    {
        let next = self.reheld(renames);
        *self = next;
    }

    /// The action with the layer of every `LayerWhileHeld` renamed.
    #[verifier::loop_isolation(false)]
    pub fn reheld(&self, renames: &Renames) -> (r: Action)
        ensures
            r@ == rehold(self@, renames_view(renames@)),
        decreases self, 1int,
    {
        match self {
            Action::LayerWhileHeld(name) => Action::LayerWhileHeld(rename(renames, name)),
            Action::TapHold(tap, hold) => Action::TapHold(
                Box::new(tap.reheld(renames)),
                Box::new(hold.reheld(renames)),
            ),
            Action::Multi(v) => Action::Multi(Action::reheld_row(v, renames)),
            Action::Sequence(v) => Action::Sequence(Action::reheld_row(v, renames)),
            _ => self.clone(),
        }
    }

    #[verifier::loop_isolation(false)]
    fn reheld_row(v: &Vec<Action>, renames: &Renames) -> (r: Vec<Action>)
        ensures
            views(r@) == rehold_all(views(v@), renames_view(renames@)),
        decreases v, 0int,
    {
        let ghost rv = renames_view(renames@);
        let ghost vs = views(v@);
        let mut out: Vec<Action> = Vec::new();
        let mut i: usize = 0;
        assert(vs.skip(0) =~= vs);
        assert(views(out@) =~= Seq::<ActionV>::empty());
        while i < v.len()
            invariant
                i <= v.len(),
                views(out@) + rehold_all(vs.skip(i as int), rv) == rehold_all(vs, rv),
            decreases v.len() - i,
        {
            assert(vs.skip(i as int).drop_first() =~= vs.skip(i + 1));
            assert(vs.skip(i as int)[0] == v@[i as int]@);
            let a = v[i].reheld(renames);
            proof {
                views_push(out@, a);
                assert(views(out@) + (seq![a@] + rehold_all(vs.skip(i + 1), rv)) =~= views(
                    out@,
                ).push(a@) + rehold_all(vs.skip(i + 1), rv));
            }
            out.push(a);
            i = i + 1;
        }
        assert(views(out@) + Seq::<ActionV>::empty() =~= views(out@));
        out
    }

    /// Reads an action from an expression.
    #[verifier::loop_isolation(false)]
    pub fn from_expr(expr: &Expr) -> (r: Result<Action, Error>)
        ensures
            match r {
                Ok(a) => action_of(expr@) == Ok::<ActionV, Error>(a@),
                Err(e) => action_of(expr@) == Err::<ActionV, Error>(e),
            },
        decreases expr,
    {
        match expr {
            Expr::Atom(s) => atom_to_action(s.as_str()),
            Expr::List(list) => {
                let ghost v = crate::sexpr::views(list@);
                if list.len() == 0 {
                    return Err(Error::UnknownAction);
                }
                let name = match &list[0] {
                    Expr::Atom(name) => name.as_str(),
                    _ => {
                        return Err(Error::UnknownAction);
                    },
                };
                if same(name, "tap-hold") {
                    if list.len() != 3 {
                        return Err(Error::Shape);
                    }
                    let tap = match Action::from_expr(&list[1]) {
                        Ok(a) => a,
                        Err(e) => {
                            return Err(e);
                        },
                    };
                    let hold = match Action::from_expr(&list[2]) {
                        Ok(a) => a,
                        Err(e) => {
                            return Err(e);
                        },
                    };
                    Ok(Action::TapHold(Box::new(tap), Box::new(hold)))
                } else if same(name, "multi") {
                    let mut out: Vec<Action> = Vec::new();
                    let mut i: usize = 1;
                    assert(views(out@) =~= Seq::<ActionV>::empty());
                    while i < list.len()
                        invariant
                            1 <= i <= list.len(),
                            actions_from(v, 1) == (match actions_from(v, i as int) {
                                Ok(rest) => Ok::<Seq<ActionV>, Error>(views(out@) + rest),
                                Err(e) => Err(e),
                            }),
                        decreases list.len() - i,
                    {
                        match Action::from_expr(&list[i]) {
                            Err(e) => {
                                return Err(e);
                            },
                            Ok(a) => {
                                proof {
                                    views_push(out@, a);
                                    match actions_from(v, i + 1) {
                                        Ok(rest) => {
                                            assert(views(out@) + (seq![a@] + rest) =~= views(
                                                out@,
                                            ).push(a@) + rest);
                                        },
                                        Err(_) => {},
                                    }
                                }
                                out.push(a);
                            },
                        }
                        i = i + 1;
                    }
                    assert(views(out@) + Seq::<ActionV>::empty() =~= views(out@));
                    Ok(Action::Multi(out))
                } else if same(name, "layer-while-held") {
                    if list.len() != 2 {
                        return Err(Error::Shape);
                    }
                    match &list[1] {
                        Expr::Atom(layer) => Ok(Action::LayerWhileHeld(layer.clone())),
                        _ => Err(Error::Shape),
                    }
                } else if same(name, "layer-switch") {
                    if list.len() != 2 {
                        return Err(Error::Shape);
                    }
                    match &list[1] {
                        Expr::Atom(layer) => Ok(Action::LayerSwitch(layer.clone())),
                        _ => Err(Error::Shape),
                    }
                } else {
                    Err(Error::UnknownAction)
                }
            },
        }
    }
}

/// The keys of a row of taps from position `i` on; `None` where an action of
/// the row is no tap.
pub open spec fn tap_keys(v: Seq<ActionV>, i: int) -> Option<Seq<Key>>
    decreases v.len() - i,
{
    if i < 0 || i >= v.len() {
        Some(Seq::empty())
    } else {
        match v[i] {
            ActionV::Tap(k) => match tap_keys(v, i + 1) {
                Some(rest) => Some(seq![k] + rest),
                None => None,
            },
            _ => None,
        }
    }
}

/// The keys of a row of taps; `None` where an action of the row is no tap.
pub fn taps(v: &Vec<Action>) -> (r: Option<Vec<Key>>)
    ensures
        match r {
            Some(keys) => tap_keys(views(v@), 0) == Some(keys@),
            None => tap_keys(views(v@), 0).is_none(),
        },
{
    let ghost vs = views(v@);
    let mut out: Vec<Key> = Vec::new();
    let mut i: usize = 0;
    while i < v.len()
        invariant
            i <= v.len(),
            vs == views(v@),
            tap_keys(vs, 0) == (match tap_keys(vs, i as int) {
                Some(rest) => Some(out@ + rest),
                None => None,
            }),
        decreases v.len() - i,
    {
        match &v[i] {
            Action::Tap(k) => {
                proof {
                    match tap_keys(vs, i + 1) {
                        Some(rest) => {
                            assert(out@ + (seq![*k] + rest) =~= out@.push(*k) + rest);
                        },
                        None => {},
                    }
                }
                out.push(*k);
            },
            _ => {
                return None;
            },
        }
        i = i + 1;
    }
    assert(out@ + Seq::<Key>::empty() =~= out@);
    Some(out)
}

/// `any_alias` of a row with one action put in front.
pub proof fn any_alias_cons(a: ActionV, rest: Seq<ActionV>, i: int)
    requires
        0 <= i,
    ensures
        any_alias(seq![a] + rest, i + 1) == any_alias(rest, i),
        i == 0 ==> any_alias(seq![a] + rest, 0) == (has_alias(a) || any_alias(rest, 0)),
    decreases rest.len() - i,
{
    let v = seq![a] + rest;
    if i < rest.len() {
        assert(v[i + 1] == rest[i]);
        any_alias_cons(a, rest, i + 1);
    }
    if i == 0 {
        assert(v[0] == a);
    }
}

/// No alias is left in an action whose aliases were resolved.
pub proof fn resolved_has_no_alias(a: ActionV, t: Seq<(Seq<char>, ActionV)>, fuel: nat)
    ensures
        match resolved(a, t, fuel) {
            Ok(b) => !has_alias(b),
            Err(_) => true,
        },
    decreases fuel, a, 0int,
{
    match a {
        ActionV::Alias(n) => match lookup(t, n) {
            None => {},
            Some(b) => {
                if fuel > 0 {
                    resolved_has_no_alias(b, t, (fuel - 1) as nat);
                }
            },
        },
        ActionV::TapHold(tap, hold) => {
            resolved_has_no_alias(*tap, t, fuel);
            resolved_has_no_alias(*hold, t, fuel);
        },
        ActionV::Multi(v) => {
            resolved_all_has_no_alias(v, t, fuel);
        },
        ActionV::Sequence(v) => {
            resolved_all_has_no_alias(v, t, fuel);
        },
        _ => {},
    }
}

/// No alias is left in a row of actions whose aliases were resolved.
pub proof fn resolved_all_has_no_alias(v: Seq<ActionV>, t: Seq<(Seq<char>, ActionV)>, fuel: nat)
    ensures
        match resolved_all(v, t, fuel) {
            Ok(w) => !any_alias(w, 0),
            Err(_) => true,
        },
    decreases fuel, v, 1int,
{
    if v.len() > 0 {
        resolved_has_no_alias(v[0], t, fuel);
        resolved_all_has_no_alias(v.drop_first(), t, fuel);
        match (resolved(v[0], t, fuel), resolved_all(v.drop_first(), t, fuel)) {
            (Ok(a), Ok(rest)) => {
                any_alias_cons(a, rest, 0);
            },
            _ => {},
        }
    }
}

} // verus!
