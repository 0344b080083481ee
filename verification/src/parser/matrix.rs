//! The geometry of a keyboard: where each key lies and how large it is. The
//! measures are kept as they are written; nothing here computes with them.

use super::vial::{atoms, atoms_of};
use crate::error::Error;
use crate::keys::Key;
use crate::sexpr::{views, Expr, ExprV};
use crate::text::texts;
use vstd::prelude::*;

verus! {

/// The geometry of one key: its place `x y`, its size `w h`, and, where the
/// row gives them, its rotation `r rx ry`.
#[derive(Debug)]
pub struct Item {
    pub key: Key,
    pub measures: Vec<String>,
}

/// The value of an [`Item`].
pub struct ItemV {
    pub key: Key,
    pub measures: Seq<Seq<char>>,
}

impl View for Item {
    type V = ItemV;

    open spec fn view(&self) -> ItemV {
        ItemV { key: self.key, measures: texts(self.measures@) }
    }
}

/// The geometry of all keys.
#[derive(Debug)]
pub struct Matrix(pub Vec<Item>);

/// The values of a row of items.
pub open spec fn items_view(v: Seq<Item>) -> Seq<ItemV> {
    Seq::new(v.len(), |i: int| v[i]@)
}

impl View for Matrix {
    type V = Seq<ItemV>;

    open spec fn view(&self) -> Seq<ItemV> {
        items_view(self.0@)
    }
}

impl Matrix {
    /// A geometry without keys.
    pub fn new() -> (r: Matrix)
        ensures
            r@ == Seq::<ItemV>::empty(),
    {
        let r = Matrix(Vec::new());
        assert(r@ =~= Seq::<ItemV>::empty());
        r
    }
}

/// The item that a row of atoms stands for: five atoms, or eight with a
/// rotation, the first of them a key.
pub open spec fn item_of(row: Seq<Seq<char>>) -> Result<ItemV, Error> {
    if row.len() == 5 || row.len() == 8 {
        match Key::of_name(row[0]) {
            None => Err(Error::UnknownKey),
            Some(key) => Ok(ItemV { key: key, measures: row.drop_first() }),
        }
    } else {
        Err(Error::Shape)
    }
}

/// The items of the rows from position `i` on.
pub open spec fn rows_from(items: Seq<ExprV>, i: int) -> Result<Seq<ItemV>, Error>
    decreases items.len() - i,
{
    if i < 0 || i >= items.len() {
        Ok(Seq::empty())
    } else {
        match items[i] {
            ExprV::Atom(_) => Err(Error::Shape),
            ExprV::List(row) => match item_of(atoms_of(row, 0)) {
                Err(e) => Err(e),
                Ok(item) => match rows_from(items, i + 1) {
                    Err(e) => Err(e),
                    Ok(rest) => Ok(seq![item] + rest),
                },
            },
        }
    }
}

fn parse_item(row: Vec<String>) -> (r: Result<Item, Error>)
    ensures
        match r {
            Ok(item) => item_of(texts(row@)) == Ok::<ItemV, Error>(item@),
            Err(e) => item_of(texts(row@)) == Err::<ItemV, Error>(e),
        },
{
    if row.len() != 5 && row.len() != 8 {
        return Err(Error::Shape);
    }
    let key = match Key::from_str(row[0].as_str()) {
        Ok(k) => k,
        Err(e) => {
            return Err(e);
        },
    };
    let mut row = row;
    let ghost all = texts(row@);
    let measures = row.split_off(1);
    assert(texts(measures@) =~= all.drop_first());
    Ok(Item { key: key, measures: measures })
}

/// Reads the geometry: one row for each key.
#[verifier::loop_isolation(false)]
pub fn parse(items: &Vec<Expr>) -> (r: Result<Matrix, Error>)
    ensures
        match r {
            Ok(m) => rows_from(views(items@), 0) == Ok::<Seq<ItemV>, Error>(m@),
            Err(e) => rows_from(views(items@), 0) == Err::<Seq<ItemV>, Error>(e),
        },
{
    let ghost all = views(items@);
    let mut out: Vec<Item> = Vec::new();
    let mut i: usize = 0;
    assert(items_view(out@) =~= Seq::<ItemV>::empty());
    while i < items.len()
        invariant
            i <= items.len(),
            rows_from(all, 0) == (match rows_from(all, i as int) {
                Ok(rest) => Ok::<Seq<ItemV>, Error>(items_view(out@) + rest),
                Err(e) => Err(e),
            }),
        decreases items.len() - i,
    {
        assert(all[i as int] == items@[i as int]@);
        let row = match items[i].list() {
            Ok(r) => r,
            Err(e) => {
                return Err(e);
            },
        };
        let item = match parse_item(atoms(row)) {
            Ok(it) => it,
            Err(e) => {
                return Err(e);
            },
        };
        let ghost before = items_view(out@);
        proof {
            match rows_from(all, i + 1) {
                Ok(rest) => {
                    assert(before + (seq![item@] + rest) =~= before.push(item@) + rest);
                },
                Err(_) => {},
            }
        }
        out.push(item);
        assert(items_view(out@) =~= before.push(item@));
        i = i + 1;
    }
    assert(items_view(out@) + Seq::<ItemV>::empty() =~= items_view(out@));
    Ok(Matrix(out))
}

} // verus!
