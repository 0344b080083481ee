//! The S-expression reader: tokens, trees and their printed form.

use crate::error::Error;
use crate::text::{chars_of, same, string_of, texts};
use vstd::prelude::*;
use vstd::string::StringExecFns;

verus! {

/// An S-expression.
#[derive(Debug, PartialEq, Eq)]
pub enum Expr {
    Atom(String),
    List(Vec<Expr>),
}

/// The mathematical value of an [`Expr`].
pub enum ExprV {
    Atom(Seq<char>),
    List(Seq<ExprV>),
}

impl View for Expr {
    type V = ExprV;

    open spec fn view(&self) -> ExprV
        decreases self,
    {
        match self {
            Expr::Atom(s) => ExprV::Atom(s@),
            Expr::List(v) => ExprV::List(views(v@)),
        }
    }
}

/// The values of a row of expressions.
pub open spec fn views(v: Seq<Expr>) -> Seq<ExprV>
    decreases v,
{
    Seq::new(
        v.len(),
        |i: int|
            if 0 <= i < v.len() {
                v[i]@
            } else {
                arbitrary()
            },
    )
}

/// `views` commutes with `push`.
pub proof fn views_push(v: Seq<Expr>, e: Expr)
    ensures
        views(v.push(e)) == views(v).push(e@),
{
    assert(views(v.push(e)) =~= views(v).push(e@));
}

impl Clone for Expr {
    #[verifier::loop_isolation(false)]
    fn clone(&self) -> (r: Self)
        ensures
            r@ == self@,
        decreases self,
    {
        match self {
            Expr::Atom(s) => Expr::Atom(s.clone()),
            Expr::List(v) => {
                let mut out: Vec<Expr> = Vec::new();
                let mut i: usize = 0;
                while i < v.len()
                    invariant
                        *self == Expr::List(*v),
                        i <= v.len(),
                        views(out@) == views(v@).take(i as int),
                    decreases v.len() - i,
                {
                    let item = v[i].clone();
                    proof {
                        views_push(out@, item);
                        assert(views(v@).take(i + 1) =~= views(v@).take(i as int).push(v@[i as int]@));
                    }
                    out.push(item);
                    i = i + 1;
                }
                assert(views(v@).take(i as int) =~= views(v@));
                Expr::List(out)
            },
        }
    }
}

/// A copy of a row of expressions.
pub fn clone_all(v: &Vec<Expr>) -> (r: Vec<Expr>)
    ensures
        views(r@) == views(v@),
{
    let mut out: Vec<Expr> = Vec::new();
    let mut i: usize = 0;
    while i < v.len()
        invariant
            i <= v.len(),
            views(out@) == views(v@).take(i as int),
        decreases v.len() - i,
    {
        let item = v[i].clone();
        proof {
            views_push(out@, item);
            assert(views(v@).take(i + 1) =~= views(v@).take(i as int).push(v@[i as int]@));
        }
        out.push(item);
        i = i + 1;
    }
    assert(views(v@).take(i as int) =~= views(v@));
    out
}

impl Default for Expr {
    fn default() -> (r: Self)
        ensures
            r@ == ExprV::List(Seq::empty()),
    {
        let r = Expr::List(Vec::new());
        assert(r@->List_0 =~= Seq::empty());
        r
    }
}

impl Expr {
    /// The children of a list; an atom is a shape error.
    pub fn list(&self) -> (r: Result<&Vec<Expr>, Error>)
        ensures
            match r {
                Ok(v) => self@ == ExprV::List(views(v@)) && *self == Expr::List(*v),
                Err(e) => self@ is Atom && e == Error::Shape,
            },
    {
        match self {
            Expr::List(list) => Ok(list),
            _ => Err(Error::Shape),
        }
    }

    /// The text of an atom; a list is a shape error.
    pub fn atom(&self) -> (r: Result<&str, Error>)
        ensures
            match r {
                Ok(s) => self@ == ExprV::Atom(s@),
                Err(e) => self@ is List && e == Error::Shape,
            },
    {
        match self {
            Expr::Atom(s) => Ok(s.as_str()),
            _ => Err(Error::Shape),
        }
    }

    /// The printed form: an atom as it is, a list as its printed children
    /// between parentheses, one space between neighbours.
    pub fn to_string(&self) -> (r: String)
        ensures
            r@ == print(self@),
    {
        let mut out = String::new();
        self.print_into(&mut out);
        out
    }

    #[verifier::loop_isolation(false)]
    fn print_into(&self, out: &mut String)
        ensures
            final(out)@ == old(out)@ + print(self@),
        decreases self,
    {
        match self {
            Expr::Atom(s) => {
                out.append(s.as_str());
            },
            Expr::List(v) => {
                out.push('(');
                let ghost base = out@;
                let mut i: usize = 0;
                assert(views(v@).skip(0) =~= views(v@));
                while i < v.len()
                    invariant
                        *self == Expr::List(*v),
                        i <= v.len(),
                        base == old(out)@.push('('),
                        out@ + print_items(views(v@).skip(i as int), i > 0) == base + print_items(
                            views(v@),
                            false,
                        ),
                    decreases v.len() - i,
                {
                    let ghost rest = views(v@).skip(i as int);
                    let ghost before = out@;
                    assert(rest.drop_first() =~= views(v@).skip(i + 1));
                    assert(rest[0] == v@[i as int]@);
                    if i > 0 {
                        out.push(' ');
                    }
                    let ghost mid = out@;
                    v[i].print_into(out);
                    proof {
                        let tail = print_items(views(v@).skip(i + 1), true);
                        if i > 0 {
                            assert(out@ + tail =~= before + (seq![' '] + print(rest[0]) + tail));
                        } else {
                            assert(out@ + tail =~= before + (print(rest[0]) + tail));
                        }
                    }
                    i = i + 1;
                }
                let ghost before = out@;
                out.push(')');
                proof {
                    assert(print_items(views(v@).skip(i as int), i > 0) =~= Seq::<char>::empty());
                    assert(before =~= base + print_items(views(v@), false));
                    assert(out@ =~= old(out)@ + print(self@));
                }
            },
        }
    }
}

/// The printed form of an expression.
pub open spec fn print(e: ExprV) -> Seq<char>
    decreases e,
{
    match e {
        ExprV::Atom(a) => a,
        ExprV::List(v) => seq!['('] + print_items(v, false) + seq![')'],
    }
}

/// The printed forms of a row of expressions, one space between neighbours;
/// with `spaced`, one space before the first too.
pub open spec fn print_items(v: Seq<ExprV>, spaced: bool) -> Seq<char>
    decreases v,
{
    if v.len() == 0 {
        Seq::empty()
    } else if spaced {
        seq![' '] + print(v[0]) + print_items(v.drop_first(), true)
    } else {
        print(v[0]) + print_items(v.drop_first(), true)
    }
}

/// Whether a character separates tokens: Unicode's white space.
pub open spec fn is_space(c: char) -> bool {
    ||| ('\u{9}' <= c && c <= '\u{d}')
    ||| c == ' '
    ||| c == '\u{85}'
    ||| c == '\u{a0}'
    ||| c == '\u{1680}'
    ||| ('\u{2000}' <= c && c <= '\u{200a}')
    ||| c == '\u{2028}'
    ||| c == '\u{2029}'
    ||| c == '\u{202f}'
    ||| c == '\u{205f}'
    ||| c == '\u{3000}'
}

/// Whether a character separates tokens.
pub fn space(c: char) -> (r: bool)
    ensures
        r == is_space(c),
{
    ('\u{9}' <= c && c <= '\u{d}') || c == ' ' || c == '\u{85}' || c == '\u{a0}' || c
        == '\u{1680}' || ('\u{2000}' <= c && c <= '\u{200a}') || c == '\u{2028}' || c
        == '\u{2029}' || c == '\u{202f}' || c == '\u{205f}' || c == '\u{3000}'
}

/// Whether a comment starts at position `i`: two semicolons in a row.
pub open spec fn comment_at(s: Seq<char>, i: int) -> bool {
    0 <= i && i + 1 < s.len() && s[i] == ';' && s[i + 1] == ';'
}

/// Whether position `i` ends an atom that runs up to it: the end of the
/// text, a parenthesis, white space, or the start of a comment.
pub open spec fn breaks_at(s: Seq<char>, i: int) -> bool {
    i >= s.len() || s[i] == '(' || s[i] == ')' || is_space(s[i]) || comment_at(s, i)
}

/// The first position from `i` on at which an atom ends.
pub open spec fn atom_end(s: Seq<char>, i: int) -> int
    decreases s.len() - i,
{
    if i < 0 || breaks_at(s, i) {
        i
    } else {
        atom_end(s, i + 1)
    }
}

/// The position after the first line feed from `i` on, or the end of the text.
pub open spec fn line_end(s: Seq<char>, i: int) -> int
    decreases s.len() - i,
{
    if i < 0 || i >= s.len() {
        i
    } else if s[i] == '\n' {
        i + 1
    } else {
        line_end(s, i + 1)
    }
}

/// The tokens of `s` from position `i` on: each parenthesis by itself, each
/// maximal run of other characters as an atom; white space separates, and a
/// comment runs from two semicolons to the end of its line.
pub open spec fn tokens_from(s: Seq<char>, i: int) -> Seq<Seq<char>>
    decreases s.len() - i,
{
    if i < 0 || i >= s.len() {
        Seq::empty()
    } else if comment_at(s, i) {
        let j = line_end(s, i + 2);
        if i < j <= s.len() {
            tokens_from(s, j)
        } else {
            Seq::empty()
        }
    } else if s[i] == '(' || s[i] == ')' {
        seq![s.subrange(i, i + 1)] + tokens_from(s, i + 1)
    } else if is_space(s[i]) {
        tokens_from(s, i + 1)
    } else {
        let j = atom_end(s, i + 1);
        if i < j <= s.len() {
            seq![s.subrange(i, j)] + tokens_from(s, j)
        } else {
            Seq::empty()
        }
    }
}

/// The tokens of a text.
pub open spec fn tokens_of(s: Seq<char>) -> Seq<Seq<char>> {
    tokens_from(s, 0)
}

#[verifier::loop_isolation(false)]
fn find_atom_end(v: &Vec<char>, from: usize) -> (j: usize)
    requires
        from <= v.len(),
    ensures
        from <= j <= v.len(),
        j == atom_end(v@, from as int),
{
    let mut j: usize = from;
    while j < v.len() && !(v[j] == '(' || v[j] == ')' || space(v[j]) || (v[j] == ';' && j + 1
        < v.len() && v[j + 1] == ';'))
        invariant
            from <= j <= v.len(),
            atom_end(v@, from as int) == atom_end(v@, j as int),
        decreases v.len() - j,
    {
        j = j + 1;
    }
    j
}

#[verifier::loop_isolation(false)]
fn find_line_end(v: &Vec<char>, from: usize) -> (j: usize)
    requires
        from <= v.len(),
    ensures
        from <= j <= v.len(),
        j == line_end(v@, from as int),
{
    let mut j: usize = from;
    while j < v.len() && v[j] != '\n'
        invariant
            from <= j <= v.len(),
            line_end(v@, from as int) == line_end(v@, j as int),
        decreases v.len() - j,
    {
        j = j + 1;
    }
    if j < v.len() {
        j + 1
    } else {
        j
    }
}

/// Splits a text into tokens.
#[verifier::loop_isolation(false)]
pub fn tokenize(input: &str) -> (r: Vec<String>)
    ensures
        texts(r@) == tokens_of(input@),
{
    let v = chars_of(input);
    let mut out: Vec<String> = Vec::new();
    let mut i: usize = 0;
    assert(texts(out@) =~= Seq::<Seq<char>>::empty());
    while i < v.len()
        invariant
            i <= v.len(),
            v@ == input@,
            tokens_of(input@) == texts(out@) + tokens_from(v@, i as int),
        decreases v.len() - i,
    {
        let ghost before = texts(out@);
        let c = v[i];
        if c == ';' && i + 1 < v.len() && v[i + 1] == ';' {
            i = find_line_end(&v, i + 2);
        } else if c == '(' || c == ')' {
            let t = string_of(&v, i, i + 1);
            out.push(t);
            assert(texts(out@) =~= before.push(t@));
            i = i + 1;
        } else if space(c) {
            i = i + 1;
        } else {
            let j = find_atom_end(&v, i + 1);
            let t = string_of(&v, i, j);
            out.push(t);
            assert(texts(out@) =~= before.push(t@));
            i = j;
        }
    }
    out
}

/// What reading one expression from position `i` of a token row gives: the
/// expression and the position after it; `None` where the tokens run out or
/// a closing parenthesis stands where an expression should.
pub open spec fn parsed_at(ts: Seq<Seq<char>>, i: int) -> Option<(ExprV, int)>
    decreases ts.len() - i, 1int,
{
    if i < 0 || i >= ts.len() {
        None
    } else if ts[i] == seq!['('] {
        match parsed_items(ts, i + 1) {
            Some((items, j)) => Some((ExprV::List(items), j)),
            None => None,
        }
    } else if ts[i] == seq![')'] {
        None
    } else {
        Some((ExprV::Atom(ts[i]), i + 1))
    }
}

/// What reading expressions from position `i` up to the closing parenthesis
/// gives: the expressions and the position after the parenthesis.
pub open spec fn parsed_items(ts: Seq<Seq<char>>, i: int) -> Option<(Seq<ExprV>, int)>
    decreases ts.len() - i, 2int,
{
    if i < 0 || i >= ts.len() {
        None
    } else if ts[i] == seq![')'] {
        Some((Seq::empty(), i + 1))
    } else {
        match parsed_at(ts, i) {
            None => None,
            Some((e, j)) => if i < j <= ts.len() {
                match parsed_items(ts, j) {
                    None => None,
                    Some((rest, k)) => Some((seq![e] + rest, k)),
                }
            } else {
                None
            },
        }
    }
}

fn is_open(s: &str) -> (r: bool)
    ensures
        r == (s@ == seq!['(']),
{
    proof {
        reveal_strlit("(");
        assert("("@ =~= seq!['(']);
    }
    same(s, "(")
}

fn is_close(s: &str) -> (r: bool)
    ensures
        r == (s@ == seq![')']),
{
    proof {
        reveal_strlit(")");
        assert(")"@ =~= seq![')']);
    }
    same(s, ")")
}

#[verifier::loop_isolation(false)]
fn parse_at(tokens: &Vec<String>, i: usize) -> (r: Option<(Expr, usize)>)
    ensures
        match r {
            Some((e, j)) => parsed_at(texts(tokens@), i as int) == Some((e@, j as int)) && i < j
                <= tokens.len(),
            None => parsed_at(texts(tokens@), i as int).is_none(),
        },
    decreases tokens.len() - i, 1int,
{
    let ghost ts = texts(tokens@);
    if i >= tokens.len() {
        return None;
    }
    if is_open(tokens[i].as_str()) {
        let mut items: Vec<Expr> = Vec::new();
        let mut k: usize = i + 1;
        assert(views(items@) =~= Seq::<ExprV>::empty());
        loop
            invariant
                i < k <= tokens.len(),
                parsed_items(ts, i + 1) == (match parsed_items(ts, k as int) {
                    Some((rest, end)) => Some((views(items@) + rest, end)),
                    None => None,
                }),
            decreases tokens.len() - k,
        {
            if k >= tokens.len() {
                return None;
            }
            if is_close(tokens[k].as_str()) {
                assert(views(items@) + Seq::<ExprV>::empty() =~= views(items@));
                return Some((Expr::List(items), k + 1));
            }
            match parse_at(tokens, k) {
                None => {
                    return None;
                },
                Some((e, j)) => {
                    proof {
                        views_push(items@, e);
                        match parsed_items(ts, j as int) {
                            Some((rest, end)) => {
                                assert(views(items@) + (seq![e@] + rest) =~= views(items@).push(
                                    e@,
                                ) + rest);
                            },
                            None => {},
                        }
                    }
                    items.push(e);
                    k = j;
                },
            }
        }
    } else if is_close(tokens[i].as_str()) {
        None
    } else {
        Some((Expr::Atom(tokens[i].clone()), i + 1))
    }
}

/// Reads one expression from the front of a token row and takes its tokens
/// out of the row. Where the tokens run out, or a closing parenthesis stands
/// where an expression should, the row is left as it was.
pub fn parse(tokens: &mut Vec<String>) -> (r: Result<Expr, Error>)
    ensures
        match r {
            Ok(e) => match parsed_at(texts(old(tokens)@), 0) {
                Some((ev, j)) => e@ == ev && texts(final(tokens)@) == texts(old(tokens)@).skip(j),
                None => false,
            },
            Err(e) => {
                &&& e == Error::Reader
                &&& parsed_at(texts(old(tokens)@), 0).is_none()
                &&& final(tokens)@ == old(tokens)@
            },
        },
{
    match parse_at(tokens, 0) {
        None => Err(Error::Reader),
        Some((e, j)) => {
            let rest = tokens.split_off(j);
            assert(texts(rest@) =~= texts(old(tokens)@).skip(j as int));
            *tokens = rest;
            Ok(e)
        },
    }
}

/// What a text reads as: the first expression of its tokens.
pub open spec fn read(s: Seq<char>) -> Option<ExprV> {
    match parsed_at(tokens_of(s), 0) {
        Some((e, _)) => Some(e),
        None => None,
    }
}

/// Reads the first expression of a text.
pub fn from_str(input: &str) -> (r: Result<Expr, Error>)
    ensures
        match r {
            Ok(e) => read(input@) == Some(e@),
            Err(e) => e == Error::Reader && read(input@).is_none(),
        },
{
    let tokens = tokenize(input);
    match parse_at(&tokens, 0) {
        None => Err(Error::Reader),
        Some((e, _)) => Ok(e),
    }
}

} // verus!
