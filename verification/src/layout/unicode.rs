//! The Unicode table: which action types a character in which keymap, and
//! the resolution of `Unicode` actions against it.

use super::action::{
    action_of, any_unicode, has_unicode, value, views, views_push, Action, ActionV,
};
use super::layer::Keymap;
use crate::text::lowercase_of;
use crate::error::Error;
use crate::sexpr::{from_str, read, views as exprs, Expr, ExprV};
use crate::text::{chars_of, same};
use vstd::prelude::*;
use vstd::string::StringExecFns;

verus! {

/// The characters that one keymap can type. Of two entries of one character
/// the later one counts.
pub type Chars = Vec<(char, Action)>;

/// The Unicode table: the characters of each keymap.
#[derive(Debug)]
pub struct UnicodeTable {
    pub en: Chars,
    pub ru: Chars,
}

/// The value of a [`UnicodeTable`].
pub struct UnicodeTableV {
    pub en: Seq<(char, ActionV)>,
    pub ru: Seq<(char, ActionV)>,
}

/// The values of a row of characters.
pub open spec fn chars_view(v: Seq<(char, Action)>) -> Seq<(char, ActionV)> {
    Seq::new(v.len(), |i: int| (v[i].0, v[i].1@))
}

impl View for UnicodeTable {
    type V = UnicodeTableV;

    open spec fn view(&self) -> UnicodeTableV {
        UnicodeTableV { en: chars_view(self.en@), ru: chars_view(self.ru@) }
    }
}

impl UnicodeTableV {
    /// The characters of a keymap.
    pub open spec fn of(self, lang: Keymap) -> Seq<(char, ActionV)> {
        match lang {
            Keymap::En => self.en,
            Keymap::Ru => self.ru,
        }
    }

    /// The table with the characters of a keymap replaced.
    pub open spec fn with(self, lang: Keymap, chars: Seq<(char, ActionV)>) -> UnicodeTableV {
        match lang {
            Keymap::En => UnicodeTableV { en: chars, ru: self.ru },
            Keymap::Ru => UnicodeTableV { en: self.en, ru: chars },
        }
    }
}

/// The action that switches the input to each keymap, where one is known.
#[derive(Debug)]
pub struct Keymaps {
    pub en: Option<Action>,
    pub ru: Option<Action>,
}

/// The value of [`Keymaps`].
pub struct KeymapsV {
    pub en: Option<ActionV>,
    pub ru: Option<ActionV>,
}

impl View for Keymaps {
    type V = KeymapsV;

    open spec fn view(&self) -> KeymapsV {
        KeymapsV {
            en: match self.en {
                Some(a) => Some(a@),
                None => None,
            },
            ru: match self.ru {
                Some(a) => Some(a@),
                None => None,
            },
        }
    }
}

impl KeymapsV {
    /// The action that switches to a keymap.
    pub open spec fn of(self, lang: Keymap) -> Option<ActionV> {
        match lang {
            Keymap::En => self.en,
            Keymap::Ru => self.ru,
        }
    }

    /// The switches with that of one keymap set.
    pub open spec fn with(self, lang: Keymap, a: ActionV) -> KeymapsV {
        match lang {
            Keymap::En => KeymapsV { en: Some(a), ru: self.ru },
            Keymap::Ru => KeymapsV { en: self.en, ru: Some(a) },
        }
    }
}

impl Keymaps {
    /// No switch known.
    pub fn new() -> (r: Keymaps)
        ensures
            r@ == (KeymapsV { en: None, ru: None }),
    {
        Keymaps { en: None, ru: None }
    }

    /// The action that switches to a keymap.
    pub fn get(&self, lang: Keymap) -> (r: Option<&Action>)
        ensures
            match r {
                Some(a) => self@.of(lang) == Some(a@),
                None => self@.of(lang).is_none(),
            },
    {
        match lang {
            Keymap::En => match &self.en {
                Some(a) => Some(a),
                None => None,
            },
            Keymap::Ru => match &self.ru {
                Some(a) => Some(a),
                None => None,
            },
        }
    }

    /// Sets the action that switches to a keymap.
    pub fn insert(&mut self, lang: Keymap, a: Action)
        ensures
            final(self)@ == old(self)@.with(lang, a@),
    {
        match lang {
            Keymap::En => {
                self.en = Some(a);
            },
            Keymap::Ru => {
                self.ru = Some(a);
            },
        }
    }
}

/// The action of the last entry of a character.
pub open spec fn typed(chars: Seq<(char, ActionV)>, c: char) -> Option<ActionV>
    decreases chars.len(),
{
    if chars.len() == 0 {
        None
    } else if chars.last().0 == c {
        Some(chars.last().1)
    } else {
        typed(chars.drop_last(), c)
    }
}

/// The character that an atom of the table names: `lb` and `rb` stand for
/// the parentheses, any other atom for its first character.
pub open spec fn char_of(s: Seq<char>) -> Option<char> {
    if s == "lb"@ {
        Some('(')
    } else if s == "rb"@ {
        Some(')')
    } else if s.len() > 0 {
        Some(s[0])
    } else {
        None
    }
}

/// The characters that the pairs from position `i` on add to `acc`.
pub open spec fn chars_from(params: Seq<ExprV>, i: int, acc: Seq<(char, ActionV)>) -> Result<
    Seq<(char, ActionV)>,
    Error,
>
    decreases params.len() - i,
{
    if i < 0 || i >= params.len() {
        Ok(acc)
    } else if i + 1 >= params.len() || !(params[i] is Atom) {
        Err(Error::Shape)
    } else {
        match char_of(params[i]->Atom_0) {
            None => Err(Error::Shape),
            Some(c) => match action_of(params[i + 1]) {
                Err(e) => Err(e),
                Ok(a) => chars_from(params, i + 2, acc.push((c, a))),
            },
        }
    }
}

/// The table that the forms from position `i` on make of `acc`. Each form
/// is `(defunicode KEYMAP CHAR ACTION ...)` and sets the characters of its
/// keymap.
pub open spec fn table_from(forms: Seq<ExprV>, i: int, acc: UnicodeTableV) -> Result<
    UnicodeTableV,
    Error,
>
    decreases forms.len() - i,
{
    if i < 0 || i >= forms.len() {
        Ok(acc)
    } else {
        match forms[i] {
            ExprV::Atom(_) => Err(Error::Shape),
            ExprV::List(lst) => if lst.len() == 0 || !(lst[0] is Atom) {
                Err(Error::Shape)
            } else if lst[0]->Atom_0 != "defunicode"@ {
                Err(Error::UnexpectedForm)
            } else if lst.len() < 2 || !(lst[1] is Atom) {
                Err(Error::Shape)
            } else {
                match Keymap::of_lower(lowercase_of(lst[1]->Atom_0)) {
                    None => Err(Error::UnknownKeymap),
                    Some(lang) => if (lst.len() - 2) % 2 != 0 {
                        Err(Error::Shape)
                    } else {
                        match chars_from(lst, 2, Seq::empty()) {
                            Err(e) => Err(e),
                            Ok(chars) => table_from(forms, i + 1, acc.with(lang, chars)),
                        }
                    },
                }
            },
        }
    }
}

/// What a table text reads as.
pub open spec fn table_of(s: Seq<char>) -> Result<UnicodeTableV, Error> {
    match read(seq!['('] + s + seq![')']) {
        None => Err(Error::Reader),
        Some(ExprV::Atom(_)) => Err(Error::Shape),
        Some(ExprV::List(forms)) => table_from(
            forms,
            0,
            UnicodeTableV { en: Seq::empty(), ru: Seq::empty() },
        ),
    }
}

fn named_char(s: &str) -> (r: Option<char>)
    ensures
        r == char_of(s@),
{
    if same(s, "lb") {
        Some('(')
    } else if same(s, "rb") {
        Some(')')
    } else {
        let v = chars_of(s);
        if v.len() > 0 {
            Some(v[0])
        } else {
            None
        }
    }
}

#[verifier::loop_isolation(false)]
fn read_chars(lst: &Vec<Expr>) -> (r: Result<Chars, Error>)
    requires
        lst.len() >= 2,
    ensures
        match r {
            Ok(cs) => chars_from(exprs(lst@), 2, Seq::empty()) == Ok::<Seq<(char, ActionV)>, Error>(
                chars_view(cs@),
            ),
            Err(e) => chars_from(exprs(lst@), 2, Seq::empty()) == Err::<
                Seq<(char, ActionV)>,
                Error,
            >(e),
        },
{
    let ghost all = exprs(lst@);
    let mut out: Chars = Vec::new();
    let mut i: usize = 2;
    assert(chars_view(out@) =~= Seq::<(char, ActionV)>::empty());
    while i < lst.len()
        invariant
            2 <= i <= lst.len(),
            chars_from(all, 2, Seq::empty()) == chars_from(all, i as int, chars_view(out@)),
        decreases lst.len() - i,
    {
        if lst.len() - i < 2 {
            return Err(Error::Shape);
        }
        assert(all[i as int] == lst@[i as int]@);
        assert(all[i + 1] == lst@[i + 1]@);
        let name = match lst[i].atom() {
            Ok(n) => n,
            Err(e) => {
                return Err(e);
            },
        };
        let c = match named_char(name) {
            Some(c) => c,
            None => {
                return Err(Error::Shape);
            },
        };
        let a = match Action::from_expr(&lst[i + 1]) {
            Ok(a) => a,
            Err(e) => {
                return Err(e);
            },
        };
        let ghost before = chars_view(out@);
        out.push((c, a));
        assert(chars_view(out@) =~= before.push((c, a@)));
        i = i + 2;
    }
    Ok(out)
}

/// Reads a Unicode table.
#[verifier::loop_isolation(false)]
pub fn load_lang_chars(content: &str) -> (r: Result<UnicodeTable, Error>)
    ensures
        match r {
            Ok(t) => table_of(content@) == Ok::<UnicodeTableV, Error>(t@),
            Err(e) => table_of(content@) == Err::<UnicodeTableV, Error>(e),
        },
{
    let mut text = String::new();
    text.push('(');
    text.append(content);
    text.push(')');
    assert(text@ =~= seq!['('] + content@ + seq![')']);
    let expr = match from_str(text.as_str()) {
        Ok(e) => e,
        Err(e) => {
            return Err(e);
        },
    };
    let forms = match expr.list() {
        Ok(f) => f,
        Err(e) => {
            return Err(e);
        },
    };
    let ghost all = exprs(forms@);
    let mut table = UnicodeTable { en: Vec::new(), ru: Vec::new() };
    let mut i: usize = 0;
    assert(table@.en =~= Seq::empty());
    assert(table@.ru =~= Seq::empty());
    while i < forms.len()
        invariant
            i <= forms.len(),
            table_of(content@) == table_from(all, i as int, table@),
        decreases forms.len() - i,
    {
        assert(all[i as int] == forms@[i as int]@);
        let lst = match forms[i].list() {
            Ok(l) => l,
            Err(e) => {
                return Err(e);
            },
        };
        if lst.len() == 0 {
            return Err(Error::Shape);
        }
        assert(exprs(lst@)[0] == lst@[0]@);
        let name = match lst[0].atom() {
            Ok(n) => n,
            Err(e) => {
                return Err(e);
            },
        };
        if !same(name, "defunicode") {
            return Err(Error::UnexpectedForm);
        }
        if lst.len() < 2 {
            return Err(Error::Shape);
        }
        assert(exprs(lst@)[1] == lst@[1]@);
        let keymap = match lst[1].atom() {
            Ok(k) => k,
            Err(e) => {
                return Err(e);
            },
        };
        let lang = match Keymap::from_str(keymap) {
            Ok(l) => l,
            Err(e) => {
                return Err(e);
            },
        };
        if (lst.len() - 2) % 2 != 0 {
            return Err(Error::Shape);
        }
        let chars = match read_chars(lst) {
            Ok(c) => c,
            Err(e) => {
                return Err(e);
            },
        };
        match lang {
            Keymap::En => {
                table.en = chars;
            },
            Keymap::Ru => {
                table.ru = chars;
            },
        }
        i = i + 1;
    }
    Ok(table)
}

/// What a character resolves to on a layer of the keymap `lang`: the action
/// that types it in that keymap; else, where the switch to `lang` is known,
/// a sequence that switches to the first keymap with a known switch that
/// can type it, types it, and switches back; else the character itself.
pub open spec fn resolved_char(c: char, lang: Keymap, keymaps: KeymapsV, table: UnicodeTableV)
    -> ActionV {
    match typed(table.of(lang), c) {
        Some(a) => a,
        None => match keymaps.of(lang) {
            None => ActionV::Unicode(c),
            Some(back) => match (keymaps.en, typed(table.en, c)) {
                (Some(switch), Some(a)) => ActionV::Sequence(seq![switch, a, back]),
                _ => match (keymaps.ru, typed(table.ru, c)) {
                    (Some(switch), Some(a)) => ActionV::Sequence(seq![switch, a, back]),
                    _ => ActionV::Unicode(c),
                },
            },
        },
    }
}

fn find_char<'a>(chars: &'a Chars, c: char) -> (r: Option<&'a Action>)
    ensures
        match r {
            Some(a) => typed(chars_view(chars@), c) == Some(a@),
            None => typed(chars_view(chars@), c).is_none(),
        },
{
    let ghost cv = chars_view(chars@);
    let mut i: usize = chars.len();
    assert(cv.take(i as int) =~= cv);
    while i > 0
        invariant
            i <= chars.len(),
            cv == chars_view(chars@),
            typed(cv, c) == typed(cv.take(i as int), c),
        decreases i,
    {
        assert(cv.take(i as int).drop_last() =~= cv.take(i - 1));
        assert(cv.take(i as int).last() == cv[i - 1]);
        if chars[i - 1].0 == c {
            return Some(&chars[i - 1].1);
        }
        i = i - 1;
    }
    None
}

fn sequence_of(switch: &Action, a: &Action, back: &Action) -> (r: Action)
    ensures
        r@ == ActionV::Sequence(seq![switch@, a@, back@]),
{
    let mut steps: Vec<Action> = Vec::new();
    steps.push(switch.clone());
    steps.push(a.clone());
    steps.push(back.clone());
    assert(views(steps@) =~= seq![switch@, a@, back@]);
    Action::Sequence(steps)
}

fn unicode_action(c: char) -> (r: Action)
    ensures
        r@ == ActionV::Unicode(c),
{
    Action::Unicode(c)
}

/// Resolves a character on a layer of the keymap `lang`.
pub fn unicode(ch: char, lang: Keymap, keymaps: &Keymaps, table: &UnicodeTable) -> (r: Action)
    ensures
        r@ == resolved_char(ch, lang, keymaps@, table@),
{
    let own = match lang {
        Keymap::En => find_char(&table.en, ch),
        Keymap::Ru => find_char(&table.ru, ch),
    };
    match own {
        Some(a) => {
            return a.clone();
        },
        None => {},
    }
    let back = match keymaps.get(lang) {
        Some(b) => b,
        None => {
            return unicode_action(ch);
        },
    };
    match (&keymaps.en, find_char(&table.en, ch)) {
        (Some(switch), Some(a)) => {
            return sequence_of(switch, a, back);
        },
        _ => {},
    }
    match (&keymaps.ru, find_char(&table.ru, ch)) {
        (Some(switch), Some(a)) => {
            return sequence_of(switch, a, back);
        },
        _ => {},
    }
    unicode_action(ch)
}

/// The action with every `Unicode` in it resolved.
pub open spec fn unicode_resolved(a: ActionV, lang: Keymap, keymaps: KeymapsV, table: UnicodeTableV)
    -> ActionV
    decreases a, 0int,
{
    match a {
        ActionV::Unicode(c) => resolved_char(c, lang, keymaps, table),
        ActionV::TapHold(tap, hold) => ActionV::TapHold(
            Box::new(unicode_resolved(*tap, lang, keymaps, table)),
            Box::new(unicode_resolved(*hold, lang, keymaps, table)),
        ),
        ActionV::Multi(v) => ActionV::Multi(unicode_resolved_all(v, 0, lang, keymaps, table)),
        ActionV::Sequence(v) => ActionV::Sequence(unicode_resolved_all(v, 0, lang, keymaps, table)),
        _ => a,
    }
}

/// `unicode_resolved` on each action of a row from position `i` on.
pub open spec fn unicode_resolved_all(
    v: Seq<ActionV>,
    i: int,
    lang: Keymap,
    keymaps: KeymapsV,
    table: UnicodeTableV,
) -> Seq<ActionV>
    decreases v, v.len() - i,
{
    if i < 0 || i >= v.len() {
        Seq::empty()
    } else {
        seq![unicode_resolved(v[i], lang, keymaps, table)] + unicode_resolved_all(
            v,
            i + 1,
            lang,
            keymaps,
            table,
        )
    }
}

/// Resolves every `Unicode` in an action on a layer of the keymap `lang`.
#[verifier::loop_isolation(false)]
pub fn resolve_unicode(action: &Action, lang: Keymap, keymaps: &Keymaps, table: &UnicodeTable) -> (r:
    Action)
    ensures
        r@ == unicode_resolved(action@, lang, keymaps@, table@),
    decreases action, 1int,
{
    match action {
        Action::Unicode(ch) => unicode(*ch, lang, keymaps, table),
        Action::TapHold(tap, hold) => Action::TapHold(
            Box::new(resolve_unicode(tap, lang, keymaps, table)),
            Box::new(resolve_unicode(hold, lang, keymaps, table)),
        ),
        Action::Multi(v) => Action::Multi(resolve_row(v, lang, keymaps, table)),
        Action::Sequence(v) => Action::Sequence(resolve_row(v, lang, keymaps, table)),
        other => other.clone(),
    }
}

#[verifier::loop_isolation(false)]
fn resolve_row(v: &Vec<Action>, lang: Keymap, keymaps: &Keymaps, table: &UnicodeTable) -> (r: Vec<
    Action,
>)
    ensures
        views(r@) == unicode_resolved_all(views(v@), 0, lang, keymaps@, table@),
    decreases v, 0int,
{
    let ghost vs = views(v@);
    let mut out: Vec<Action> = Vec::new();
    let mut i: usize = 0;
    assert(views(out@) =~= Seq::<ActionV>::empty());
    while i < v.len()
        invariant
            i <= v.len(),
            views(out@) + unicode_resolved_all(vs, i as int, lang, keymaps@, table@)
                == unicode_resolved_all(vs, 0, lang, keymaps@, table@),
        decreases v.len() - i,
    {
        let ghost before = views(out@);
        let a = resolve_unicode(&v[i], lang, keymaps, table);
        proof {
            views_push(out@, a);
            assert(before.push(a@) + unicode_resolved_all(vs, i + 1, lang, keymaps@, table@)
                =~= before + (seq![a@] + unicode_resolved_all(vs, i + 1, lang, keymaps@, table@)));
        }
        out.push(a);
        i = i + 1;
    }
    assert(views(out@) + Seq::<ActionV>::empty() =~= views(out@));
    out
}

/// Whether no `Unicode` stands in an action of a row of characters.
pub open spec fn chars_plain(chars: Seq<(char, ActionV)>) -> bool {
    forall|k: int| 0 <= k < chars.len() ==> !has_unicode((#[trigger] chars[k]).1)
}

/// Whether the table can type every `Unicode` of an action in one of its
/// keymaps.
pub open spec fn covered(a: ActionV, table: UnicodeTableV) -> bool
    decreases a, 0int,
{
    match a {
        ActionV::Unicode(c) => typed(table.en, c).is_some() || typed(table.ru, c).is_some(),
        ActionV::TapHold(tap, hold) => covered(*tap, table) && covered(*hold, table),
        ActionV::Multi(v) => all_covered(v, 0, table),
        ActionV::Sequence(v) => all_covered(v, 0, table),
        _ => true,
    }
}

/// `covered` for each action of a row from position `i` on.
pub open spec fn all_covered(v: Seq<ActionV>, i: int, table: UnicodeTableV) -> bool
    decreases v, v.len() - i,
{
    if i < 0 || i >= v.len() {
        true
    } else {
        covered(v[i], table) && all_covered(v, i + 1, table)
    }
}

/// What a row of characters types for a character is one of its entries.
pub proof fn typed_is_an_entry(chars: Seq<(char, ActionV)>, c: char)
    ensures
        match typed(chars, c) {
            Some(a) => exists|k: int| 0 <= k < chars.len() && chars[k] == (c, a),
            None => true,
        },
    decreases chars.len(),
{
    if chars.len() > 0 {
        if chars.last().0 == c {
            assert(chars[chars.len() - 1] == (c, chars.last().1));
        } else {
            typed_is_an_entry(chars.drop_last(), c);
            match typed(chars.drop_last(), c) {
                Some(a) => {
                    let k = choose|k: int|
                        0 <= k < chars.drop_last().len() && chars.drop_last()[k] == (c, a);
                    assert(chars[k] == (c, a));
                },
                None => {},
            }
        }
    }
}

/// `any_unicode` of a row with one action put in front.
pub proof fn any_unicode_cons(a: ActionV, rest: Seq<ActionV>, i: int)
    requires
        0 <= i,
    ensures
        any_unicode(seq![a] + rest, i + 1) == any_unicode(rest, i),
        i == 0 ==> any_unicode(seq![a] + rest, 0) == (has_unicode(a) || any_unicode(rest, 0)),
    decreases rest.len() - i,
{
    let v = seq![a] + rest;
    if i < rest.len() {
        assert(v[i + 1] == rest[i]);
        any_unicode_cons(a, rest, i + 1);
    }
    if i == 0 {
        assert(v[0] == a);
    }
}

/// With both switches known and free of `Unicode`, and a table whose
/// actions are free of it, a character that the table can type resolves to
/// an action without `Unicode`: the action that types it, or a sequence
/// around it.
pub proof fn typed_char_resolves(c: char, lang: Keymap, keymaps: KeymapsV, table: UnicodeTableV)
    requires
        keymaps.en is Some && !has_unicode(keymaps.en->0),
        keymaps.ru is Some && !has_unicode(keymaps.ru->0),
        chars_plain(table.en),
        chars_plain(table.ru),
        typed(table.en, c).is_some() || typed(table.ru, c).is_some(),
    ensures
        !has_unicode(resolved_char(c, lang, keymaps, table)),
        resolved_char(c, lang, keymaps, table) is Sequence || typed(table.of(lang), c) == Some(
            resolved_char(c, lang, keymaps, table),
        ),
{
    typed_is_an_entry(table.en, c);
    typed_is_an_entry(table.ru, c);
    let r = resolved_char(c, lang, keymaps, table);
    match r {
        ActionV::Sequence(v) => {
            if typed(table.of(lang), c).is_none() {
                let back = keymaps.of(lang)->0;
                assert(!has_unicode(back));
                assert(v.len() == 3);
                assert(!has_unicode(v[0]));
                assert(!has_unicode(v[1]));
                assert(!has_unicode(v[2]));
                assert(!any_unicode(v, 3));
                assert(!any_unicode(v, 2));
                assert(!any_unicode(v, 1));
                assert(!any_unicode(v, 0));
            }
        },
        _ => {},
    }
}

/// With both switches known and free of `Unicode`, and a table whose
/// actions are free of it, no `Unicode` is left in a resolved action whose
/// characters the table can type.
pub proof fn no_unicode_is_left(a: ActionV, lang: Keymap, keymaps: KeymapsV, table: UnicodeTableV)
    requires
        keymaps.en is Some && !has_unicode(keymaps.en->0),
        keymaps.ru is Some && !has_unicode(keymaps.ru->0),
        chars_plain(table.en),
        chars_plain(table.ru),
        covered(a, table),
    ensures
        !has_unicode(unicode_resolved(a, lang, keymaps, table)),
    decreases a, 0int,
{
    match a {
        ActionV::Unicode(c) => {
            typed_char_resolves(c, lang, keymaps, table);
        },
        ActionV::TapHold(tap, hold) => {
            no_unicode_is_left(*tap, lang, keymaps, table);
            no_unicode_is_left(*hold, lang, keymaps, table);
        },
        ActionV::Multi(v) => {
            no_unicode_is_left_in_row(v, 0, lang, keymaps, table);
        },
        ActionV::Sequence(v) => {
            no_unicode_is_left_in_row(v, 0, lang, keymaps, table);
        },
        _ => {},
    }
}

/// `no_unicode_is_left` for a row of actions.
pub proof fn no_unicode_is_left_in_row(
    v: Seq<ActionV>,
    i: int,
    lang: Keymap,
    keymaps: KeymapsV,
    table: UnicodeTableV,
)
    requires
        0 <= i,
        keymaps.en is Some && !has_unicode(keymaps.en->0),
        keymaps.ru is Some && !has_unicode(keymaps.ru->0),
        chars_plain(table.en),
        chars_plain(table.ru),
        all_covered(v, i, table),
    ensures
        !any_unicode(unicode_resolved_all(v, i, lang, keymaps, table), 0),
    decreases v, v.len() - i,
{
    if i < v.len() {
        no_unicode_is_left(v[i], lang, keymaps, table);
        no_unicode_is_left_in_row(v, i + 1, lang, keymaps, table);
        any_unicode_cons(
            unicode_resolved(v[i], lang, keymaps, table),
            unicode_resolved_all(v, i + 1, lang, keymaps, table),
            0,
        );
    }
}

} // verus!
