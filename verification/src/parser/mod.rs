//! The physical keyboard descriptor: the source row that numbers the keys,
//! the vial table that places them on the firmware's matrix, and the
//! geometry.

pub mod matrix;
pub mod vial;

use crate::error::Error;
use crate::keys::{has_key, Key};
use crate::layout::layer::MAX_KEYS;
use crate::sexpr::{from_str, is_space, read, space, views, Expr, ExprV};
use crate::text::{chars_of, same, string_of};
use vstd::prelude::*;
use vstd::string::StringExecFns;

pub use matrix::{parse as parse_matix, Item as MatrixItem, Matrix};
pub use vial::{parse as parse_vial, Item as VialItem, Vial};

verus! {

/// A physical keyboard.
#[derive(Debug)]
pub struct Keyboard {
    pub matrix: Matrix,
    pub vial: Vial,
    /// The source row: the key of each index.
    pub source: Vec<Key>,
    pub meta: String,
}

/// The value of a [`Keyboard`].
pub struct KeyboardV {
    pub matrix: Seq<matrix::ItemV>,
    pub vial: Seq<(Key, VialItem)>,
    pub source: Seq<Key>,
    pub meta: Seq<char>,
}

impl View for Keyboard {
    type V = KeyboardV;

    open spec fn view(&self) -> KeyboardV {
        KeyboardV {
            matrix: self.matrix@,
            vial: self.vial@,
            source: self.source@,
            meta: self.meta@,
        }
    }
}

impl Keyboard {
    /// A keyboard without keys.
    pub fn new() -> (r: Keyboard)
        ensures
            r@ == (KeyboardV {
                matrix: Seq::empty(),
                vial: Seq::empty(),
                source: Seq::empty(),
                meta: Seq::empty(),
            }),
    {
        Keyboard {
            matrix: Matrix::new(),
            vial: Vial::new(),
            source: Vec::new(),
            meta: String::new(),
        }
    }
}

/// The source row that the atoms from position `i` on add to `acc`: each
/// atom names a key, and no key comes twice.
pub open spec fn source_row(lst: Seq<ExprV>, i: int, acc: Seq<Key>) -> Result<Seq<Key>, Error>
    decreases lst.len() - i,
{
    if i < 0 || i >= lst.len() {
        Ok(acc)
    } else {
        match lst[i] {
            ExprV::List(_) => Err(Error::Shape),
            ExprV::Atom(s) => match Key::of_name(s) {
                None => Err(Error::UnknownKey),
                Some(k) => if i >= MAX_KEYS {
                    Err(Error::TooManyKeys)
                } else if acc.contains(k) {
                    Err(Error::DuplicateKey)
                } else {
                    source_row(lst, i + 1, acc.push(k))
                },
            },
        }
    }
}

/// Reads a source row: the key of each index, in order.
#[verifier::loop_isolation(false)]
pub fn parse_keymap(lst: &Vec<Expr>) -> (r: Result<Vec<Key>, Error>)
    ensures
        match r {
            Ok(keys) => source_row(views(lst@), 0, Seq::empty()) == Ok::<Seq<Key>, Error>(keys@)
                && keys@.no_duplicates() && keys@.len() == lst@.len() && keys@.len() <= MAX_KEYS,
            Err(e) => source_row(views(lst@), 0, Seq::empty()) == Err::<Seq<Key>, Error>(e),
        },
{
    let ghost all = views(lst@);
    let mut out: Vec<Key> = Vec::new();
    let mut i: usize = 0;
    while i < lst.len()
        invariant
            i <= lst.len(),
            i <= MAX_KEYS,
            out@.len() == i,
            out@.no_duplicates(),
            source_row(all, 0, Seq::empty()) == source_row(all, i as int, out@),
        decreases lst.len() - i,
    {
        assert(all[i as int] == lst@[i as int]@);
        let name = match lst[i].atom() {
            Ok(s) => s,
            Err(e) => {
                return Err(e);
            },
        };
        let key = match Key::from_str(name) {
            Ok(k) => k,
            Err(e) => {
                return Err(e);
            },
        };
        if i >= MAX_KEYS {
            return Err(Error::TooManyKeys);
        }
        if has_key(&out, key) {
            return Err(Error::DuplicateKey);
        }
        out.push(key);
        i = i + 1;
    }
    Ok(out)
}

/// Whether the separator line `---` starts at position `i`.
pub open spec fn marker_at(s: Seq<char>, i: int) -> bool {
    0 <= i && i + 3 <= s.len() && s[i] == '-' && s[i + 1] == '-' && s[i + 2] == '-'
}

/// The first position from `i` on at which the separator starts.
pub open spec fn marker_from(s: Seq<char>, i: int) -> Option<int>
    decreases s.len() - i,
{
    if i < 0 || i + 3 > s.len() {
        None
    } else if marker_at(s, i) {
        Some(i)
    } else {
        marker_from(s, i + 1)
    }
}

/// The first position from `i` on that holds no white space.
pub open spec fn text_start(s: Seq<char>, i: int) -> int
    decreases s.len() - i,
{
    if i < 0 || i >= s.len() || !is_space(s[i]) {
        i
    } else {
        text_start(s, i + 1)
    }
}

/// The position after the last character before `j` that is no white space.
pub open spec fn text_end(s: Seq<char>, j: int) -> int
    decreases j,
{
    if j <= 0 || j > s.len() || !is_space(s[j - 1]) {
        j
    } else {
        text_end(s, j - 1)
    }
}

/// The part of `s` between positions `a` and `b` without the white space at
/// its ends.
pub open spec fn trimmed(s: Seq<char>, a: int, b: int) -> Seq<char> {
    let from = text_start(s.subrange(0, b), a);
    let to = text_end(s.subrange(0, b), b);
    if a <= from <= to <= b {
        s.subrange(from, to)
    } else {
        Seq::empty()
    }
}

/// The two parts of a descriptor: the notes before the first `---`, and the
/// forms after it, each without the white space at its ends. A descriptor
/// without `---` is all forms, taken as it is.
pub open spec fn parts_of(s: Seq<char>) -> (Seq<char>, Seq<char>) {
    match marker_from(s, 0) {
        Some(m) => (trimmed(s, 0, m), trimmed(s, m + 3, s.len() as int)),
        None => (Seq::empty(), s),
    }
}

#[verifier::loop_isolation(false)]
fn find_marker(v: &Vec<char>) -> (r: Option<usize>)
    ensures
        match r {
            Some(m) => marker_from(v@, 0) == Some(m as int) && m + 3 <= v.len(),
            None => marker_from(v@, 0).is_none(),
        },
{
    let mut i: usize = 0;
    while i < v.len() && v.len() - i >= 3
        invariant
            i <= v.len(),
            marker_from(v@, 0) == marker_from(v@, i as int),
        decreases v.len() - i,
    {
        if v[i] == '-' && v[i + 1] == '-' && v[i + 2] == '-' {
            return Some(i);
        }
        i = i + 1;
    }
    None
}

#[verifier::loop_isolation(false)]
fn trim(v: &Vec<char>, a: usize, b: usize) -> (r: String)
    requires
        a <= b <= v.len(),
    ensures
        r@ == trimmed(v@, a as int, b as int),
{
    let ghost s = v@.subrange(0, b as int);
    let mut from: usize = a;
    while from < b && space(v[from])
        invariant
            a <= from <= b,
            text_start(s, a as int) == text_start(s, from as int),
        decreases b - from,
    {
        assert(s[from as int] == v@[from as int]);
        from = from + 1;
    }
    assert(from < b ==> s[from as int] == v@[from as int]);
    let mut to: usize = b;
    while to > from && space(v[to - 1])
        invariant
            from <= to <= b,
            text_end(s, b as int) == text_end(s, to as int),
            forall|k: int| to <= k < b ==> is_space(v@[k]),
        decreases to,
    {
        assert(s[to - 1] == v@[to - 1]);
        to = to - 1;
    }
    proof {
        if to > from {
            assert(s[to - 1] == v@[to - 1]);
        } else {
            text_end_bound(s, to as int);
            assert(v@.subrange(from as int, to as int) =~= Seq::<char>::empty());
        }
    }
    string_of(v, from, to)
}

/// The end of a text lies at or before the position that bounds it.
pub proof fn text_end_bound(s: Seq<char>, j: int)
    ensures
        text_end(s, j) <= j,
    decreases j,
{
    if j <= 0 || j > s.len() || !is_space(s[j - 1]) {
    } else {
        text_end_bound(s, j - 1);
    }
}

/// What a descriptor reads as, from position `i` of its forms on, on top of
/// the keyboard `acc`: each form sets the part that its head names.
pub open spec fn keyboard_from(forms: Seq<ExprV>, i: int, acc: KeyboardV) -> Result<
    KeyboardV,
    Error,
>
    decreases forms.len() - i,
{
    if i < 0 || i >= forms.len() {
        Ok(acc)
    } else {
        match forms[i] {
            ExprV::Atom(_) => Err(Error::Shape),
            ExprV::List(lst) => if lst.len() == 0 || !(lst[0] is Atom) {
                Err(Error::Shape)
            } else {
                let head = lst[0]->Atom_0;
                let params = lst.drop_first();
                if head == "defmatrix"@ {
                    match matrix::rows_from(params, 0) {
                        Err(e) => Err(e),
                        Ok(m) => keyboard_from(
                            forms,
                            i + 1,
                            KeyboardV { matrix: m, ..acc },
                        ),
                    }
                } else if head == "defvial"@ {
                    match vial::table_from(params, 0, Seq::empty()) {
                        Err(e) => Err(e),
                        Ok(t) => keyboard_from(forms, i + 1, KeyboardV { vial: t, ..acc }),
                    }
                } else if head == "defsrc"@ {
                    match source_row(params, 0, Seq::empty()) {
                        Err(e) => Err(e),
                        Ok(k) => keyboard_from(forms, i + 1, KeyboardV { source: k, ..acc }),
                    }
                } else {
                    Err(Error::UnexpectedForm)
                }
            },
        }
    }
}

/// What a descriptor text reads as.
pub open spec fn keyboard_of(s: Seq<char>) -> Result<KeyboardV, Error> {
    let (meta, raw) = parts_of(s);
    match read(seq!['('] + raw + seq![')']) {
        None => Err(Error::Reader),
        Some(ExprV::Atom(_)) => Err(Error::Shape),
        Some(ExprV::List(forms)) => keyboard_from(
            forms,
            0,
            KeyboardV {
                matrix: Seq::empty(),
                vial: Seq::empty(),
                source: Seq::empty(),
                meta: meta,
            },
        ),
    }
}

/// A copy of the expressions of a row from position 1 on.
pub fn tail_of(lst: &Vec<Expr>) -> (r: Vec<Expr>)
    requires
        lst.len() > 0,
    ensures
        views(r@) == views(lst@).drop_first(),
{
    let mut out: Vec<Expr> = Vec::new();
    let mut i: usize = 1;
    while i < lst.len()
        invariant
            1 <= i <= lst.len(),
            views(out@) =~= views(lst@).subrange(1, i as int),
        decreases lst.len() - i,
    {
        let ghost before = views(out@);
        let item = lst[i].clone();
        out.push(item);
        assert(views(out@) =~= before.push(item@));
        i = i + 1;
    }
    assert(views(out@) =~= views(lst@).drop_first());
    out
}

/// Reads a keyboard descriptor: notes, a line `---`, then the forms
/// `defmatrix`, `defvial` and `defsrc`.
#[verifier::loop_isolation(false)]
pub fn parse(content: &str) -> (r: Result<Keyboard, Error>)
    ensures
        match r {
            Ok(k) => keyboard_of(content@) == Ok::<KeyboardV, Error>(k@) && k@.source.no_duplicates()
                && k@.source.len() <= MAX_KEYS,
            Err(e) => keyboard_of(content@) == Err::<KeyboardV, Error>(e),
        },
{
    let v = chars_of(content);
    let (meta, raw) = match find_marker(&v) {
        Some(m) => (trim(&v, 0, m), trim(&v, m + 3, v.len())),
        None => {
            assert(v@.subrange(0, v@.len() as int) =~= v@);
            (String::new(), string_of(&v, 0, v.len()))
        },
    };
    let mut text = String::new();
    text.push('(');
    text.append(raw.as_str());
    text.push(')');
    assert(text@ =~= seq!['('] + raw@ + seq![')']);
    let value = match from_str(text.as_str()) {
        Ok(e) => e,
        Err(e) => {
            return Err(e);
        },
    };
    let forms = match value.list() {
        Ok(f) => f,
        Err(e) => {
            return Err(e);
        },
    };
    let ghost all = views(forms@);
    let mut keyboard = Keyboard::new();
    keyboard.meta = meta;
    let mut i: usize = 0;
    while i < forms.len()
        invariant
            i <= forms.len(),
            keyboard@.source.no_duplicates(),
            keyboard@.source.len() <= MAX_KEYS,
            keyboard_of(content@) == keyboard_from(all, i as int, keyboard@),
        decreases forms.len() - i,
    {
        assert(all[i as int] == forms@[i as int]@);
        let lst = match forms[i].list() {
            Ok(l) => l,
            Err(e) => {
                return Err(e);
            },
        };
        if lst.len() == 0 {
            return Err(Error::Shape);
        }
        assert(views(lst@)[0] == lst@[0]@);
        let head = match lst[0].atom() {
            Ok(h) => h,
            Err(e) => {
                return Err(e);
            },
        };
        let params = tail_of(lst);
        if same(head, "defmatrix") {
            match parse_matix(&params) {
                Ok(m) => {
                    keyboard.matrix = m;
                },
                Err(e) => {
                    return Err(e);
                },
            }
        } else if same(head, "defvial") {
            match parse_vial(&params) {
                Ok(t) => {
                    keyboard.vial = t;
                },
                Err(e) => {
                    return Err(e);
                },
            }
        } else if same(head, "defsrc") {
            match parse_keymap(&params) {
                Ok(k) => {
                    keyboard.source = k;
                },
                Err(e) => {
                    return Err(e);
                },
            }
        } else {
            return Err(Error::UnexpectedForm);
        }
        i = i + 1;
    }
    Ok(keyboard)
}

} // verus!
