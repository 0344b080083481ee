//! Splicing of `unwrap` forms and removal of ignored forms.

use crate::layout::layer::has_name;
use crate::sexpr::{views, views_push, Expr, ExprV};
use crate::text::{same, texts};
use vstd::prelude::*;

verus! {

/// The head of a form: the atom that a list begins with.
pub open spec fn head_of(e: ExprV) -> Option<Seq<char>> {
    match e {
        ExprV::List(v) => if v.len() > 0 && v[0] is Atom {
            Some(v[0]->Atom_0)
        } else {
            None
        },
        ExprV::Atom(_) => None,
    }
}

/// Whether an expression is a form whose head is in the ignore set.
pub open spec fn ignored(e: ExprV, ignore: Seq<Seq<char>>) -> bool {
    match head_of(e) {
        Some(h) => ignore.contains(h),
        None => false,
    }
}

/// Whether an expression is an `unwrap` form.
pub open spec fn is_unwrap(e: ExprV) -> bool {
    head_of(e) == Some("unwrap"@)
}

/// The expression with every `unwrap` form below it spliced into the list
/// that holds it, and every ignored form below it removed. An ignored form
/// at the top becomes the empty list.
pub open spec fn unwrapped(e: ExprV, ignore: Seq<Seq<char>>) -> ExprV
    decreases e, 0int,
{
    match e {
        ExprV::Atom(_) => e,
        ExprV::List(v) => if ignored(e, ignore) {
            ExprV::List(Seq::empty())
        } else {
            ExprV::List(spliced(v, 0, ignore))
        },
    }
}

/// What the children from position `i` on become in their list.
pub open spec fn spliced(v: Seq<ExprV>, i: int, ignore: Seq<Seq<char>>) -> Seq<ExprV>
    decreases v, v.len() - i,
{
    if i < 0 || i >= v.len() {
        Seq::empty()
    } else {
        placed(v[i], ignore) + spliced(v, i + 1, ignore)
    }
}

/// What one child becomes in its list: the arguments of an `unwrap` form,
/// nothing for an ignored form, the child itself, unwrapped, otherwise.
pub open spec fn placed(item: ExprV, ignore: Seq<Seq<char>>) -> Seq<ExprV>
    decreases item, 1int,
{
    if is_unwrap(item) {
        opened(item->List_0, 1, ignore)
    } else if ignored(item, ignore) {
        Seq::empty()
    } else {
        seq![unwrapped(item, ignore)]
    }
}

/// What the arguments of an `unwrap` form from position `i` on become: an
/// atom stays, a list gives its children.
pub open spec fn opened(v: Seq<ExprV>, i: int, ignore: Seq<Seq<char>>) -> Seq<ExprV>
    decreases v, v.len() - i,
{
    if i < 0 || i >= v.len() {
        Seq::empty()
    } else {
        (match unwrapped(v[i], ignore) {
            ExprV::List(xs) => xs,
            x => seq![x],
        }) + opened(v, i + 1, ignore)
    }
}

/// The ignore set of a call: nothing where none is given.
pub open spec fn ignore_set(ignore: Option<&Vec<String>>) -> Seq<Seq<char>> {
    match ignore {
        Some(v) => texts(v@),
        None => Seq::empty(),
    }
}

fn head<'a>(e: &'a Expr) -> (r: Option<&'a str>)
    ensures
        match r {
            Some(h) => head_of(e@) == Some(h@),
            None => head_of(e@).is_none(),
        },
{
    match e.list() {
        Ok(v) => {
            if v.len() == 0 {
                return None;
            }
            assert(views(v@)[0] == v@[0]@);
            match v[0].atom() {
                Ok(h) => Some(h),
                Err(_) => None,
            }
        },
        Err(_) => None,
    }
}

fn is_ignored(e: &Expr, ignore: Option<&Vec<String>>) -> (r: bool)
    ensures
        r == ignored(e@, ignore_set(ignore)),
{
    match head(e) {
        Some(h) => match ignore {
            Some(set) => has_name(set, h),
            None => false,
        },
        None => false,
    }
}

/// Splices every `unwrap` form into the list that holds it and removes the
/// forms whose head is in the ignore set.
#[verifier::loop_isolation(false)]
pub fn unwrap(expr: &Expr, ignore: Option<&Vec<String>>) -> (r: Expr)
    ensures
        r@ == unwrapped(expr@, ignore_set(ignore)),
    decreases expr, 0int,
{
    let ghost ig = ignore_set(ignore);
    let list = match expr {
        Expr::Atom(_) => {
            return expr.clone();
        },
        Expr::List(list) => list,
    };
    if is_ignored(expr, ignore) {
        let r = Expr::List(Vec::new());
        assert(views(r->List_0@) =~= Seq::<ExprV>::empty());
        return r;
    }
    let ghost v = views(list@);
    let mut out: Vec<Expr> = Vec::new();
    let mut i: usize = 0;
    assert(views(out@) =~= Seq::<ExprV>::empty());
    while i < list.len()
        invariant
            i <= list.len(),
            views(out@) + spliced(v, i as int, ig) == spliced(v, 0, ig),
        decreases list.len() - i,
    {
        let ghost before = views(out@);
        assert(v[i as int] == list@[i as int]@);
        let mut more = place(&list[i], ignore);
        let ghost added = views(more@);
        out.append(&mut more);
        assert(views(out@) =~= before + added);
        assert(before + added + spliced(v, i + 1, ig) =~= before + (added + spliced(v, i + 1, ig)));
        i = i + 1;
    }
    assert(views(out@) + Seq::<ExprV>::empty() =~= views(out@));
    Expr::List(out)
}

#[verifier::loop_isolation(false)]
fn place(item: &Expr, ignore: Option<&Vec<String>>) -> (r: Vec<Expr>)
    ensures
        views(r@) == placed(item@, ignore_set(ignore)),
    decreases item, 1int,
{
    let ghost ig = ignore_set(ignore);
    let unwrap_form = match head(item) {
        Some(h) => same(h, "unwrap"),
        None => false,
    };
    if unwrap_form {
        let args = match item {
            Expr::List(args) => args,
            Expr::Atom(_) => {
                return Vec::new();
            },
        };
        let ghost v = views(args@);
        let mut out: Vec<Expr> = Vec::new();
        let mut i: usize = 1;
        assert(views(out@) =~= Seq::<ExprV>::empty());
        while i < args.len()
            invariant
                1 <= i <= args.len(),
                views(out@) + opened(v, i as int, ig) == opened(v, 1, ig),
            decreases args.len() - i,
        {
            let ghost before = views(out@);
            assert(v[i as int] == args@[i as int]@);
            match unwrap(&args[i], ignore) {
                Expr::List(xs) => {
                    let mut xs = xs;
                    let ghost added = views(xs@);
                    out.append(&mut xs);
                    assert(views(out@) =~= before + added);
                    assert(before + added + opened(v, i + 1, ig) =~= before + (added + opened(
                        v,
                        i + 1,
                        ig,
                    )));
                },
                x => {
                    proof {
                        views_push(out@, x);
                        assert(before.push(x@) + opened(v, i + 1, ig) =~= before + (seq![x@]
                            + opened(v, i + 1, ig)));
                    }
                    out.push(x);
                },
            }
            i = i + 1;
        }
        assert(views(out@) + Seq::<ExprV>::empty() =~= views(out@));
        out
    } else if is_ignored(item, ignore) {
        let out: Vec<Expr> = Vec::new();
        assert(views(out@) =~= Seq::<ExprV>::empty());
        out
    } else {
        let mut out: Vec<Expr> = Vec::new();
        let x = unwrap(item, ignore);
        out.push(x);
        assert(views(out@) =~= seq![x@]);
        out
    }
}

/// Whether an expression is neither an `unwrap` form nor an ignored form,
/// and holds none at any depth.
pub open spec fn tidy(e: ExprV, ignore: Seq<Seq<char>>) -> bool
    decreases e,
{
    match e {
        ExprV::Atom(_) => true,
        ExprV::List(v) => !is_unwrap(e) && !ignored(e, ignore) && forall|k: int|
            0 <= k < v.len() ==> tidy(#[trigger] v[k], ignore),
    }
}

/// Whether every expression of a row is tidy.
pub open spec fn all_tidy(v: Seq<ExprV>, ignore: Seq<Seq<char>>) -> bool {
    forall|k: int| 0 <= k < v.len() ==> tidy(#[trigger] v[k], ignore)
}

/// Whether an expression would be spliced or removed where it stands in a
/// list: it is an `unwrap` form or an ignored form.
pub open spec fn taken(e: ExprV, ignore: Seq<Seq<char>>) -> bool {
    is_unwrap(e) || ignored(e, ignore)
}

/// Whether unwrapping gives no list below the top of an expression a head
/// that makes it an `unwrap` form or an ignored form. A list gets a new
/// head where its first children are spliced or removed.
pub open spec fn clear_below(e: ExprV, ignore: Seq<Seq<char>>) -> bool
    decreases e,
{
    match e {
        ExprV::Atom(_) => true,
        ExprV::List(v) => ignored(e, ignore) || forall|k: int|
            0 <= k < v.len() ==> clear_item(#[trigger] v[k], ignore),
    }
}

/// `clear_below` for a child of a list: the arguments of an `unwrap` form
/// are clear below; an ignored form is gone; any other list becomes a list
/// that is neither, and its children are clear in turn.
pub open spec fn clear_item(item: ExprV, ignore: Seq<Seq<char>>) -> bool
    decreases item,
{
    match item {
        ExprV::Atom(_) => true,
        ExprV::List(v) => if is_unwrap(item) {
            forall|k: int| 1 <= k < v.len() ==> clear_below(#[trigger] v[k], ignore)
        } else if ignored(item, ignore) {
            true
        } else {
            !taken(unwrapped(item, ignore), ignore) && forall|k: int|
                0 <= k < v.len() ==> clear_item(#[trigger] v[k], ignore)
        },
    }
}

/// The children of an unwrapped expression.
pub open spec fn children(e: ExprV) -> Seq<ExprV> {
    match e {
        ExprV::List(v) => v,
        ExprV::Atom(_) => Seq::empty(),
    }
}

/// What an argument of an `unwrap` form gives to the list around the form.
pub open spec fn given(e: ExprV, ignore: Seq<Seq<char>>) -> Seq<ExprV> {
    match unwrapped(e, ignore) {
        ExprV::List(xs) => xs,
        x => seq![x],
    }
}

/// Two rows one after the other are tidy exactly where both are.
proof fn tidy_parts(a: Seq<ExprV>, b: Seq<ExprV>, ignore: Seq<Seq<char>>)
    ensures
        all_tidy(a + b, ignore) == (all_tidy(a, ignore) && all_tidy(b, ignore)),
{
    if all_tidy(a, ignore) && all_tidy(b, ignore) {
        assert forall|k: int| 0 <= k < (a + b).len() implies tidy(#[trigger] (a + b)[k], ignore) by {
            if k < a.len() {
                assert((a + b)[k] == a[k]);
            } else {
                assert((a + b)[k] == b[k - a.len()]);
            }
        }
    }
    if all_tidy(a + b, ignore) {
        assert forall|k: int| 0 <= k < a.len() implies tidy(#[trigger] a[k], ignore) by {
            assert((a + b)[k] == a[k]);
        }
        assert forall|k: int| 0 <= k < b.len() implies tidy(#[trigger] b[k], ignore) by {
            assert((a + b)[k + a.len()] == b[k]);
        }
    }
}

/// No `unwrap` form and no ignored form is left below the top of an
/// unwrapped expression exactly where the expression is clear below: the
/// only expressions that keep one are those in which a list gets the head
/// of such a form by the splicing or removing of its first children.
pub proof fn unwrapped_is_tidy(e: ExprV, ignore: Seq<Seq<char>>)
    ensures
        clear_below(e, ignore) == all_tidy(children(unwrapped(e, ignore)), ignore),
    decreases e, 0int,
{
    match e {
        ExprV::Atom(_) => {},
        ExprV::List(v) => {
            if !ignored(e, ignore) {
                spliced_is_tidy(v, 0, ignore);
            }
        },
    }
}

proof fn spliced_is_tidy(v: Seq<ExprV>, i: int, ignore: Seq<Seq<char>>)
    requires
        0 <= i,
    ensures
        all_tidy(spliced(v, i, ignore), ignore) == (forall|k: int|
            i <= k < v.len() ==> clear_item(#[trigger] v[k], ignore)),
    decreases v, v.len() - i,
{
    if i < v.len() {
        placed_is_tidy(v[i], ignore);
        spliced_is_tidy(v, i + 1, ignore);
        tidy_parts(placed(v[i], ignore), spliced(v, i + 1, ignore), ignore);
        if forall|k: int| i + 1 <= k < v.len() ==> clear_item(#[trigger] v[k], ignore) {
            if clear_item(v[i], ignore) {
                assert forall|k: int| i <= k < v.len() implies clear_item(
                    #[trigger] v[k],
                    ignore,
                ) by {}
            }
        }
    }
}

proof fn placed_is_tidy(item: ExprV, ignore: Seq<Seq<char>>)
    ensures
        all_tidy(placed(item, ignore), ignore) == clear_item(item, ignore),
    decreases item, 1int,
{
    match item {
        ExprV::Atom(_) => {
            assert(tidy(placed(item, ignore)[0], ignore));
        },
        ExprV::List(v) => {
            if is_unwrap(item) {
                opened_is_tidy(v, 1, ignore);
            } else if ignored(item, ignore) {
            } else {
                spliced_is_tidy(v, 0, ignore);
                let out = unwrapped(item, ignore);
                assert(out == ExprV::List(spliced(v, 0, ignore)));
                assert(placed(item, ignore)[0] == out);
                assert(tidy(out, ignore) == (!taken(out, ignore) && all_tidy(
                    spliced(v, 0, ignore),
                    ignore,
                )));
            }
        },
    }
}

proof fn opened_is_tidy(v: Seq<ExprV>, i: int, ignore: Seq<Seq<char>>)
    requires
        0 <= i,
    ensures
        all_tidy(opened(v, i, ignore), ignore) == (forall|k: int|
            i <= k < v.len() ==> clear_below(#[trigger] v[k], ignore)),
    decreases v, v.len() - i,
{
    if i < v.len() {
        unwrapped_is_tidy(v[i], ignore);
        opened_is_tidy(v, i + 1, ignore);
        let a = given(v[i], ignore);
        assert(opened(v, i, ignore) == a + opened(v, i + 1, ignore));
        tidy_parts(a, opened(v, i + 1, ignore), ignore);
        match unwrapped(v[i], ignore) {
            ExprV::List(xs) => {
                assert(a == children(unwrapped(v[i], ignore)));
            },
            x => {
                assert(v[i] is Atom);
                assert(tidy(a[0], ignore));
            },
        }
        if forall|k: int| i + 1 <= k < v.len() ==> clear_below(#[trigger] v[k], ignore) {
            if clear_below(v[i], ignore) {
                assert forall|k: int| i <= k < v.len() implies clear_below(
                    #[trigger] v[k],
                    ignore,
                ) by {}
            }
        }
    }
}

/// Unwrapping a tidy expression changes nothing.
pub proof fn tidy_is_unwrapped(e: ExprV, ignore: Seq<Seq<char>>)
    requires
        tidy(e, ignore),
    ensures
        unwrapped(e, ignore) == e,
    decreases e, 0int,
{
    match e {
        ExprV::Atom(_) => {},
        ExprV::List(v) => {
            tidy_row_is_unwrapped(v, 0, ignore);
            assert(v.skip(0) =~= v);
        },
    }
}

/// Unwrapping the children of a list changes nothing where all of them are
/// tidy.
pub proof fn tidy_row_is_unwrapped(v: Seq<ExprV>, i: int, ignore: Seq<Seq<char>>)
    requires
        0 <= i <= v.len(),
        all_tidy(v, ignore),
    ensures
        spliced(v, i, ignore) == v.skip(i),
    decreases v, v.len() - i,
{
    if i < v.len() {
        tidy_is_unwrapped(v[i], ignore);
        tidy_row_is_unwrapped(v, i + 1, ignore);
        assert(placed(v[i], ignore) =~= seq![v[i]]);
        assert(seq![v[i]] + v.skip(i + 1) =~= v.skip(i));
    } else {
        assert(v.skip(i) =~= Seq::<ExprV>::empty());
    }
}

} // verus!
