//! The vial table: where each key sits on the firmware's matrix.

use crate::error::Error;
use crate::keys::Key;
use crate::sexpr::{views, Expr, ExprV};
use crate::text::{byte_of_text, chars_of, parse_byte, same};
use vstd::prelude::*;

verus! {

/// The address of a key: a row and a column of the matrix, or an encoder and
/// a direction.
#[derive(Debug, Clone, Copy, PartialEq, Eq, Structural)]
pub enum Item {
    KeyCode(u8, u8),
    Encoder(u8, u8),
}

/// The vial table: the address of each key that has one. No key stands in
/// it twice.
#[derive(Debug)]
pub struct Vial(pub Vec<(Key, Item)>);

impl View for Vial {
    type V = Seq<(Key, Item)>;

    open spec fn view(&self) -> Seq<(Key, Item)> {
        self.0@
    }
}

/// The address of `key` in a table, from position `i` on.
pub open spec fn address(t: Seq<(Key, Item)>, key: Key, i: int) -> Option<Item>
    decreases t.len() - i,
{
    if i < 0 || i >= t.len() {
        None
    } else if t[i].0 == key {
        Some(t[i].1)
    } else {
        address(t, key, i + 1)
    }
}

/// Whether no key stands twice in a table.
pub open spec fn keys_unique(t: Seq<(Key, Item)>) -> bool {
    forall|i: int, j: int| 0 <= i < j < t.len() ==> t[i].0 != t[j].0
}

/// A key without an address stands nowhere in the table.
pub proof fn no_address(t: Seq<(Key, Item)>, key: Key, i: int)
    requires
        0 <= i,
        address(t, key, i).is_none(),
    ensures
        forall|k: int| i <= k < t.len() ==> t[k].0 != key,
    decreases t.len() - i,
{
    if i < t.len() {
        no_address(t, key, i + 1);
    }
}

/// The atoms of a row from position `i` on; what is no atom is left out.
pub open spec fn atoms_of(row: Seq<ExprV>, i: int) -> Seq<Seq<char>>
    decreases row.len() - i,
{
    if i < 0 || i >= row.len() {
        Seq::empty()
    } else {
        match row[i] {
            ExprV::Atom(s) => seq![s] + atoms_of(row, i + 1),
            ExprV::List(_) => atoms_of(row, i + 1),
        }
    }
}

/// The entry that a row of atoms stands for: a key, two numbers, and `e` as
/// a fourth atom for an encoder.
pub open spec fn entry_of(row: Seq<Seq<char>>) -> Result<(Key, Item), Error> {
    if row.len() == 0 {
        Err(Error::Shape)
    } else {
        match Key::of_name(row[0]) {
            None => Err(Error::UnknownKey),
            Some(key) => if row.len() == 3 || row.len() == 4 {
                match byte_of_text(row[1]) {
                    None => Err(Error::BadNumber),
                    Some(a) => match byte_of_text(row[2]) {
                        None => Err(Error::BadNumber),
                        Some(b) => if row.len() == 4 && row[3] == "e"@ {
                            Ok((key, Item::Encoder(a, b)))
                        } else {
                            Ok((key, Item::KeyCode(a, b)))
                        },
                    },
                }
            } else {
                Err(Error::Shape)
            },
        }
    }
}

/// The table that the rows from position `i` on add to `acc`.
pub open spec fn table_from(items: Seq<ExprV>, i: int, acc: Seq<(Key, Item)>) -> Result<
    Seq<(Key, Item)>,
    Error,
>
    decreases items.len() - i,
{
    if i < 0 || i >= items.len() {
        Ok(acc)
    } else {
        match items[i] {
            ExprV::Atom(_) => Err(Error::Shape),
            ExprV::List(row) => match entry_of(atoms_of(row, 0)) {
                Err(e) => Err(e),
                Ok(entry) => if address(acc, entry.0, 0).is_some() {
                    Err(Error::DuplicateKey)
                } else {
                    table_from(items, i + 1, acc.push(entry))
                },
            },
        }
    }
}

/// The atoms of a row.
#[verifier::loop_isolation(false)]
pub fn atoms(row: &Vec<Expr>) -> (r: Vec<String>)
    ensures
        crate::text::texts(r@) == atoms_of(views(row@), 0),
{
    let ghost all = views(row@);
    let mut out: Vec<String> = Vec::new();
    let mut i: usize = 0;
    assert(crate::text::texts(out@) =~= Seq::<Seq<char>>::empty());
    while i < row.len()
        invariant
            i <= row.len(),
            crate::text::texts(out@) + atoms_of(all, i as int) == atoms_of(all, 0),
        decreases row.len() - i,
    {
        assert(all[i as int] == row@[i as int]@);
        let ghost before = crate::text::texts(out@);
        match row[i].atom() {
            Ok(s) => {
                let owned = s.to_owned();
                out.push(owned);
                assert(crate::text::texts(out@) =~= before.push(s@));
                assert(before + (seq![s@] + atoms_of(all, i + 1)) =~= before.push(s@) + atoms_of(
                    all,
                    i + 1,
                ));
            },
            Err(_) => {},
        }
        i = i + 1;
    }
    assert(crate::text::texts(out@) + Seq::<Seq<char>>::empty() =~= crate::text::texts(out@));
    out
}

fn number(s: &str) -> (r: Option<u8>)
    ensures
        r == byte_of_text(s@),
{
    let v = chars_of(s);
    assert(v@.skip(0) =~= v@);
    parse_byte(&v, 0)
}

fn entry(row: &Vec<String>) -> (r: Result<(Key, Item), Error>)
    ensures
        r == entry_of(crate::text::texts(row@)),
{
    if row.len() == 0 {
        return Err(Error::Shape);
    }
    let key = match Key::from_str(row[0].as_str()) {
        Ok(k) => k,
        Err(e) => {
            return Err(e);
        },
    };
    if row.len() != 3 && row.len() != 4 {
        return Err(Error::Shape);
    }
    let a = match number(row[1].as_str()) {
        Some(a) => a,
        None => {
            return Err(Error::BadNumber);
        },
    };
    let b = match number(row[2].as_str()) {
        Some(b) => b,
        None => {
            return Err(Error::BadNumber);
        },
    };
    if row.len() == 4 && same(row[3].as_str(), "e") {
        Ok((key, Item::Encoder(a, b)))
    } else {
        Ok((key, Item::KeyCode(a, b)))
    }
}

impl Vial {
    /// An empty table.
    pub fn new() -> (r: Vial)
        ensures
            r@ == Seq::<(Key, Item)>::empty(),
    {
        Vial(Vec::new())
    }

    /// The address of a key.
    pub fn get(&self, key: Key) -> (r: Option<Item>)
        ensures
            r == address(self@, key, 0),
    {
        let mut i: usize = 0;
        while i < self.0.len()
            invariant
                i <= self.0.len(),
                address(self@, key, 0) == address(self@, key, i as int),
            decreases self.0.len() - i,
        {
            if self.0[i].0 == key {
                return Some(self.0[i].1);
            }
            i = i + 1;
        }
        None
    }

    /// How many keys have an address.
    pub fn len(&self) -> (r: usize)
        ensures
            r == self@.len(),
    {
        self.0.len()
    }
}

/// Reads a vial table: one row for each key.
#[verifier::loop_isolation(false)]
pub fn parse(items: &Vec<Expr>) -> (r: Result<Vial, Error>)
    ensures
        match r {
            Ok(t) => table_from(views(items@), 0, Seq::empty()) == Ok::<Seq<(Key, Item)>, Error>(
                t@,
            ) && keys_unique(t@),
            Err(e) => table_from(views(items@), 0, Seq::empty()) == Err::<Seq<(Key, Item)>, Error>(
                e,
            ),
        },
{
    let ghost all = views(items@);
    let mut vial = Vial::new();
    let mut i: usize = 0;
    while i < items.len()
        invariant
            i <= items.len(),
            keys_unique(vial@),
            table_from(all, 0, Seq::empty()) == table_from(all, i as int, vial@),
        decreases items.len() - i,
    {
        assert(all[i as int] == items@[i as int]@);
        let row = match items[i].list() {
            Ok(r) => r,
            Err(e) => {
                return Err(e);
            },
        };
        let names = atoms(row);
        let e = match entry(&names) {
            Ok(e) => e,
            Err(e) => {
                return Err(e);
            },
        };
        if vial.get(e.0).is_some() {
            return Err(Error::DuplicateKey);
        }
        proof {
            no_address(vial@, e.0, 0);
        }
        vial.0.push(e);
        i = i + 1;
    }
    Ok(vial)
}

} // verus!
