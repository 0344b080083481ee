//! Reading back what was printed: the printed form of a tree that the reader
//! gave reads as the same tree.

use crate::sexpr::{
    atom_end, breaks_at, comment_at, is_space, parsed_at, parsed_items, print, print_items, read,
    tokens_from, tokens_of, ExprV,
};
use vstd::prelude::*;

verus! {

/// Whether a text can stand as one atom: it is not empty, holds no white
/// space and no parenthesis, and no two semicolons in a row.
pub open spec fn word(w: Seq<char>) -> bool {
    w.len() > 0 && forall|k: int|
        0 <= k < w.len() ==> !is_space(#[trigger] w[k]) && w[k] != '(' && w[k] != ')' && !(w[k]
            == ';' && k + 1 < w.len() && w[k + 1] == ';')
}

/// Whether a token is a parenthesis or can stand as an atom.
pub open spec fn token(t: Seq<char>) -> bool {
    t == seq!['('] || t == seq![')'] || word(t)
}

/// Whether every atom of a tree can stand as an atom.
pub open spec fn sound(e: ExprV) -> bool
    decreases e,
{
    match e {
        ExprV::Atom(a) => word(a),
        ExprV::List(v) => forall|k: int| 0 <= k < v.len() ==> sound(#[trigger] v[k]),
    }
}

/// The tokens of a tree.
pub open spec fn flat(e: ExprV) -> Seq<Seq<char>>
    decreases e, 0int,
{
    match e {
        ExprV::Atom(a) => seq![a],
        ExprV::List(v) => seq![seq!['(']] + flat_all(v) + seq![seq![')']],
    }
}

/// The tokens of a row of trees.
pub open spec fn flat_all(v: Seq<ExprV>) -> Seq<Seq<char>>
    decreases v, v.len(),
{
    if v.len() == 0 {
        Seq::empty()
    } else {
        flat(v[0]) + flat_all(v.drop_first())
    }
}

/// Whether the text `x` stands in `t` at position `p`.
pub open spec fn occurs(t: Seq<char>, p: int, x: Seq<char>) -> bool {
    0 <= p && p + x.len() <= t.len() && forall|k: int| 0 <= k < x.len() ==> t[p + k] == #[trigger] x[k]
}

/// Whether what stands at position `q` ends an atom before it without
/// joining it: the end of the text, a space, or a closing parenthesis.
pub open spec fn closed_at(t: Seq<char>, q: int) -> bool {
    q >= t.len() || t[q] == ' ' || t[q] == ')'
}

proof fn atom_ends_here(t: Seq<char>, i: int, j: int)
    requires
        0 <= i <= j <= t.len(),
        forall|k: int| i <= k < j ==> !breaks_at(t, k),
        breaks_at(t, j),
    ensures
        atom_end(t, i) == j,
    decreases j - i,
{
    if i < j {
        atom_ends_here(t, i + 1, j);
    }
}

proof fn word_is_one_token(t: Seq<char>, p: int, a: Seq<char>)
    requires
        word(a),
        occurs(t, p, a),
        closed_at(t, p + a.len()),
    ensures
        tokens_from(t, p) == seq![a] + tokens_from(t, p + a.len()),
{
    let q = p + a.len();
    assert forall|k: int| p <= k < q implies !breaks_at(t, k) by {
        assert(t[k] == a[k - p]);
        if k + 1 < q {
            assert(t[k + 1] == a[k + 1 - p]);
        }
    }
    assert(!breaks_at(t, p));
    atom_ends_here(t, p + 1, q);
    assert(t.subrange(p, q) =~= a);
}

/// The tokens of a text in which the printed form of a sound tree stands,
/// closed behind: the tokens of the tree, then the tokens of what follows.
proof fn printed_tokens(e: ExprV, t: Seq<char>, p: int)
    requires
        sound(e),
        occurs(t, p, print(e)),
        closed_at(t, p + print(e).len()),
    ensures
        tokens_from(t, p) == flat(e) + tokens_from(t, p + print(e).len()),
    decreases e, 0int,
{
    match e {
        ExprV::Atom(a) => {
            word_is_one_token(t, p, a);
        },
        ExprV::List(v) => {
            let items = print_items(v, false);
            let x = print(e);
            assert(x == seq!['('] + items + seq![')']);
            assert(x.len() == items.len() + 2);
            assert(t[p] == x[0]);
            assert(x[0] == '(');
            let q = p + 1 + items.len();
            assert(t[p + (1 + items.len())] == x[1 + items.len() as int]);
            assert(t[q] == ')');
            assert forall|k: int| 0 <= k < items.len() implies t[p + 1 + k] == #[trigger] items[k] by {
                assert(t[p + (1 + k)] == x[1 + k]);
            }
            printed_items_tokens(v, false, t, p + 1);
            assert(t.subrange(p, p + 1) =~= seq!['(']);
            assert(t.subrange(q, q + 1) =~= seq![')']);
            assert(!comment_at(t, p));
            assert(!comment_at(t, q));
            assert(tokens_from(t, q) == seq![seq![')']] + tokens_from(t, q + 1));
            assert(tokens_from(t, p) == seq![seq!['(']] + tokens_from(t, p + 1));
            assert(seq![seq!['(']] + (flat_all(v) + (seq![seq![')']] + tokens_from(t, q + 1)))
                =~= flat(e) + tokens_from(t, q + 1));
        },
    }
}

proof fn printed_items_tokens(v: Seq<ExprV>, spaced: bool, t: Seq<char>, p: int)
    requires
        forall|k: int| 0 <= k < v.len() ==> sound(#[trigger] v[k]),
        occurs(t, p, print_items(v, spaced)),
        p + print_items(v, spaced).len() < t.len(),
        t[p + print_items(v, spaced).len()] == ')',
    ensures
        tokens_from(t, p) == flat_all(v) + tokens_from(t, p + print_items(v, spaced).len()),
    decreases v, v.len(),
{
    if v.len() == 0 {
        assert(flat_all(v) + tokens_from(t, p) =~= tokens_from(t, p));
    } else {
        let x = print_items(v, spaced);
        let first = print(v[0]);
        let rest = print_items(v.drop_first(), true);
        let lead: int = if spaced {
            1
        } else {
            0
        };
        if spaced {
            assert(x == seq![' '] + first + rest);
            assert(t[p] == x[0]);
            assert(is_space(t[p]));
            assert(!comment_at(t, p));
            assert(tokens_from(t, p) == tokens_from(t, p + 1));
        } else {
            assert(x == first + rest);
        }
        let p1 = p + lead;
        assert(x.len() == lead + first.len() + rest.len());
        assert forall|k: int| 0 <= k < first.len() implies t[p1 + k] == #[trigger] first[k] by {
            assert(t[p + (lead + k)] == x[lead + k]);
        }
        let p2 = p1 + first.len();
        assert forall|k: int| 0 <= k < rest.len() implies t[p2 + k] == #[trigger] rest[k] by {
            assert(t[p + (lead + first.len() + k)] == x[lead + first.len() + k]);
        }
        assert(sound(v[0]));
        if v.drop_first().len() == 0 {
            assert(rest.len() == 0);
        } else {
            assert(rest[0] == ' ');
            assert(t[p2 + 0] == rest[0]);
        }
        printed_tokens(v[0], t, p1);
        assert forall|k: int| 0 <= k < v.drop_first().len() implies sound(
            #[trigger] v.drop_first()[k],
        ) by {
            assert(v.drop_first()[k] == v[k + 1]);
        }
        printed_items_tokens(v.drop_first(), true, t, p2);
        assert(flat(v[0]) + (flat_all(v.drop_first()) + tokens_from(t, p2 + rest.len()))
            =~= flat_all(v) + tokens_from(t, p2 + rest.len()));
    }
}

/// Whether the tokens `x` stand in `ts` at position `i`.
pub open spec fn stand(ts: Seq<Seq<char>>, i: int, x: Seq<Seq<char>>) -> bool {
    0 <= i && i + x.len() <= ts.len() && forall|k: int|
        0 <= k < x.len() ==> ts[i + k] == #[trigger] x[k]
}

proof fn word_is_no_parenthesis(a: Seq<char>)
    requires
        word(a),
    ensures
        a != seq!['('],
        a != seq![')'],
{
    assert(!is_space(a[0]) && a[0] != '(' && a[0] != ')');
    assert(seq!['('][0] == '(');
    assert(seq![')'][0] == ')');
}

/// Reading the tokens of a sound tree gives the tree.
proof fn tokens_read_back(e: ExprV, ts: Seq<Seq<char>>, i: int)
    requires
        sound(e),
        stand(ts, i, flat(e)),
    ensures
        parsed_at(ts, i) == Some((e, i + flat(e).len())),
    decreases e, 0int,
{
    match e {
        ExprV::Atom(a) => {
            word_is_no_parenthesis(a);
            assert(ts[i + 0] == flat(e)[0]);
        },
        ExprV::List(v) => {
            let x = flat(e);
            let inner = flat_all(v);
            assert(x.len() == inner.len() + 2);
            assert(ts[i + 0] == x[0]);
            assert(x[0] == seq!['(']);
            assert(ts[i + (1 + inner.len())] == x[1 + inner.len() as int]);
            assert(x[1 + inner.len() as int] == seq![')']);
            assert forall|k: int| 0 <= k < inner.len() implies ts[i + 1 + k] == #[trigger] inner[k] by {
                assert(ts[i + (1 + k)] == x[1 + k]);
            }
            row_reads_back(v, ts, i + 1);
        },
    }
}

proof fn row_reads_back(v: Seq<ExprV>, ts: Seq<Seq<char>>, i: int)
    requires
        forall|k: int| 0 <= k < v.len() ==> sound(#[trigger] v[k]),
        stand(ts, i, flat_all(v)),
        i + flat_all(v).len() < ts.len(),
        ts[i + flat_all(v).len()] == seq![')'],
    ensures
        parsed_items(ts, i) == Some((v, i + flat_all(v).len() + 1)),
    decreases v, v.len(),
{
    if v.len() == 0 {
        assert(v =~= Seq::<ExprV>::empty());
    } else {
        let first = flat(v[0]);
        let rest = flat_all(v.drop_first());
        let x = flat_all(v);
        assert(x == first + rest);
        assert forall|k: int| 0 <= k < first.len() implies ts[i + k] == #[trigger] first[k] by {
            assert(ts[i + k] == x[k]);
        }
        let j = i + first.len();
        assert forall|k: int| 0 <= k < rest.len() implies ts[j + k] == #[trigger] rest[k] by {
            assert(ts[i + (first.len() + k)] == x[first.len() + k]);
        }
        assert(sound(v[0]));
        flat_is_not_empty(v[0]);
        tokens_read_back(v[0], ts, i);
        assert forall|k: int| 0 <= k < v.drop_first().len() implies sound(
            #[trigger] v.drop_first()[k],
        ) by {
            assert(v.drop_first()[k] == v[k + 1]);
        }
        row_reads_back(v.drop_first(), ts, j);
        first_is_no_closing(v[0]);
        assert(ts[i + 0] == first[0]);
        assert(seq![v[0]] + v.drop_first() =~= v);
    }
}

proof fn flat_is_not_empty(e: ExprV)
    ensures
        flat(e).len() > 0,
{
}

proof fn first_is_no_closing(e: ExprV)
    requires
        sound(e),
    ensures
        flat(e)[0] != seq![')'],
{
    match e {
        ExprV::Atom(a) => {
            word_is_no_parenthesis(a);
        },
        ExprV::List(v) => {
            assert(flat(e)[0] == seq!['(']);
            assert(seq!['('][0] != seq![')'][0]);
        },
    }
}

/// Every token that the tokenizer gives is a parenthesis or can stand as an
/// atom.
proof fn tokens_are_tokens(s: Seq<char>, i: int)
    requires
        0 <= i,
    ensures
        forall|k: int| 0 <= k < tokens_from(s, i).len() ==> token(#[trigger] tokens_from(s, i)[k]),
    decreases s.len() - i,
{
    let out = tokens_from(s, i);
    if i < s.len() {
        if comment_at(s, i) {
            let j = crate::sexpr::line_end(s, i + 2);
            if i < j <= s.len() {
                tokens_are_tokens(s, j);
                assert(out == tokens_from(s, j));
            } else {
                assert(out.len() == 0);
            }
        } else if s[i] == '(' || s[i] == ')' {
            tokens_are_tokens(s, i + 1);
            let head = s.subrange(i, i + 1);
            assert(head =~= seq![s[i]]);
            assert(token(head));
            let rest = tokens_from(s, i + 1);
            assert(out == seq![head] + rest);
            assert forall|k: int| 0 <= k < out.len() implies token(#[trigger] out[k]) by {
                if k > 0 {
                    assert(out[k] == rest[k - 1]);
                }
            }
        } else if is_space(s[i]) {
            tokens_are_tokens(s, i + 1);
            assert(out == tokens_from(s, i + 1));
        } else {
            let j = atom_end(s, i + 1);
            assert(!breaks_at(s, i));
            if i < j <= s.len() {
                tokens_are_tokens(s, j);
                no_break_before_end(s, i + 1, j);
                let head = s.subrange(i, j);
                assert forall|k: int| 0 <= k < head.len() implies !is_space(#[trigger] head[k])
                    && head[k] != '(' && head[k] != ')' && !(head[k] == ';' && k + 1 < head.len()
                    && head[k + 1] == ';') by {
                    assert(head[k] == s[i + k]);
                    assert(!breaks_at(s, i + k));
                    if k + 1 < head.len() {
                        assert(head[k + 1] == s[i + k + 1]);
                    }
                }
                assert(word(head));
                let rest = tokens_from(s, j);
                assert(out == seq![head] + rest);
                assert forall|k: int| 0 <= k < out.len() implies token(#[trigger] out[k]) by {
                    if k > 0 {
                        assert(out[k] == rest[k - 1]);
                    }
                }
            } else {
                assert(out.len() == 0);
            }
        }
    } else {
        assert(out.len() == 0);
    }
}

proof fn no_break_before_end(s: Seq<char>, i: int, j: int)
    requires
        0 <= i,
        j == atom_end(s, i),
    ensures
        i <= j,
        forall|k: int| i <= k < j ==> !breaks_at(s, k),
    decreases s.len() - i,
{
    if !breaks_at(s, i) {
        no_break_before_end(s, i + 1, j);
    }
}

/// A tree that was read from tokens is sound.
proof fn read_is_sound(ts: Seq<Seq<char>>, i: int)
    requires
        forall|k: int| 0 <= k < ts.len() ==> token(#[trigger] ts[k]),
    ensures
        match parsed_at(ts, i) {
            Some((e, j)) => sound(e),
            None => true,
        },
    decreases ts.len() - i, 1int,
{
    if 0 <= i < ts.len() {
        if ts[i] == seq!['('] {
            row_is_sound(ts, i + 1);
        } else if ts[i] == seq![')'] {
        } else {
            assert(token(ts[i]));
        }
    }
}

proof fn row_is_sound(ts: Seq<Seq<char>>, i: int)
    requires
        forall|k: int| 0 <= k < ts.len() ==> token(#[trigger] ts[k]),
    ensures
        match parsed_items(ts, i) {
            Some((v, j)) => forall|k: int| 0 <= k < v.len() ==> sound(#[trigger] v[k]),
            None => true,
        },
    decreases ts.len() - i, 2int,
{
    if 0 <= i < ts.len() && ts[i] != seq![')'] {
        read_is_sound(ts, i);
        match parsed_at(ts, i) {
            None => {},
            Some((e, j)) => {
                if i < j <= ts.len() {
                    row_is_sound(ts, j);
                    match parsed_items(ts, j) {
                        None => {},
                        Some((rest, k)) => {
                            let v = seq![e] + rest;
                            assert forall|m: int| 0 <= m < v.len() implies sound(#[trigger] v[m]) by {
                                if m > 0 {
                                    assert(v[m] == rest[m - 1]);
                                }
                            }
                        },
                    }
                }
            },
        }
    }
}

/// The printed form of a sound tree reads as the tree.
pub proof fn sound_tree_reads_back(e: ExprV)
    requires
        sound(e),
    ensures
        tokens_of(print(e)) == flat(e),
        read(print(e)) == Some(e),
{
    let t = print(e);
    printed_tokens(e, t, 0);
    assert(tokens_from(t, t.len() as int) =~= Seq::<Seq<char>>::empty());
    assert(flat(e) + Seq::<Seq<char>>::empty() =~= flat(e));
    tokens_read_back(e, flat(e), 0);
}

/// For any text, the printed form of what the text reads as reads as the
/// same tree, whatever white space and comments the text held.
pub proof fn printed_form_reads_back(s: Seq<char>)
    ensures
        match read(s) {
            Some(e) => sound(e) && read(print(e)) == Some(e),
            None => true,
        },
{
    tokens_are_tokens(s, 0);
    read_is_sound(tokens_of(s), 0);
    match read(s) {
        Some(e) => {
            sound_tree_reads_back(e);
        },
        None => {},
    }
}

} // verus!
