//! The preprocessor: collects the templates of a source, expands their
//! calls, and splices `unwrap` forms.

use super::template::{
    deftemplate, expand, expanded, templates_from, templates_view, TemplateV, Templates, MAX_DEPTH,
};
use super::unwrap::{unwrap, unwrapped};
use crate::error::Error;
use crate::parser::tail_of;
use crate::sexpr::{views, Expr, ExprV};
use crate::text::{same, texts};
use vstd::prelude::*;
use vstd::string::StringExecFns;

verus! {

/// The templates that the top-level forms from position `i` on add to
/// `acc`. Every top-level form is a list that begins with an atom; those
/// that begin with `deftemplate` define templates.
pub open spec fn collected(items: Seq<ExprV>, i: int, acc: Seq<TemplateV>) -> Result<
    Seq<TemplateV>,
    Error,
>
    decreases items.len() - i,
{
    if i < 0 || i >= items.len() {
        Ok(acc)
    } else {
        match items[i] {
            ExprV::Atom(_) => Err(Error::Shape),
            ExprV::List(lst) => if lst.len() == 0 || !(lst[0] is Atom) {
                Err(Error::Shape)
            } else if lst[0]->Atom_0 == "deftemplate"@ {
                match templates_from(lst.drop_first(), 0, Seq::empty()) {
                    Err(e) => Err(e),
                    Ok(ts) => collected(items, i + 1, acc + ts),
                }
            } else {
                collected(items, i + 1, acc)
            },
        }
    }
}

/// What preprocessing makes of a source: its template calls expanded, its
/// `unwrap` forms spliced, its `deftemplate` forms removed.
pub open spec fn preprocessed(e: ExprV) -> Result<ExprV, Error> {
    match e {
        ExprV::Atom(_) => Err(Error::Shape),
        ExprV::List(items) => match collected(items, 0, Seq::empty()) {
            Err(err) => Err(err),
            Ok(ts) => match expanded(e, ts, MAX_DEPTH as nat) {
                Err(err) => Err(err),
                Ok(x) => Ok(unwrapped(x, seq!["deftemplate"@])),
            },
        },
    }
}

/// Preprocesses a source: the list of its top-level forms.
#[verifier::loop_isolation(false)]
pub fn preprocess(expr: &Expr) -> (r: Result<Expr, Error>)
    ensures
        match r {
            Ok(e) => preprocessed(expr@) == Ok::<ExprV, Error>(e@),
            Err(e) => preprocessed(expr@) == Err::<ExprV, Error>(e),
        },
{
    let root = match expr.list() {
        Ok(r) => r,
        Err(e) => {
            return Err(e);
        },
    };
    let ghost items = views(root@);
    let mut templates: Templates = Vec::new();
    let mut i: usize = 0;
    assert(templates_view(templates@) =~= Seq::<TemplateV>::empty());
    while i < root.len()
        invariant
            i <= root.len(),
            collected(items, 0, Seq::empty()) == collected(
                items,
                i as int,
                templates_view(templates@),
            ),
        decreases root.len() - i,
    {
        assert(items[i as int] == root@[i as int]@);
        let lst = match root[i].list() {
            Ok(l) => l,
            Err(e) => {
                return Err(e);
            },
        };
        if lst.len() == 0 {
            return Err(Error::Shape);
        }
        assert(views(lst@)[0] == lst@[0]@);
        let name = match lst[0].atom() {
            Ok(n) => n,
            Err(e) => {
                return Err(e);
            },
        };
        if same(name, "deftemplate") {
            let mut more = match deftemplate(tail_of(lst)) {
                Ok(m) => m,
                Err(e) => {
                    return Err(e);
                },
            };
            let ghost before = templates_view(templates@);
            let ghost added = templates_view(more@);
            templates.append(&mut more);
            assert(templates_view(templates@) =~= before + added);
        }
        i = i + 1;
    }
    let root = match expand(expr, &templates) {
        Ok(r) => r,
        Err(e) => {
            return Err(e);
        },
    };
    let mut ignore: Vec<String> = Vec::new();
    ignore.push(String::from_str("deftemplate"));
    assert(texts(ignore@) =~= seq!["deftemplate"@]);
    Ok(unwrap(&root, Some(&ignore)))
}

/// Whether every form of a row is a list that begins with an atom.
pub open spec fn forms(items: Seq<ExprV>) -> bool {
    forall|k: int| 0 <= k < items.len() ==> super::unwrap::head_of(#[trigger] items[k]).is_some()
}

/// Forms without a `deftemplate` among them define no template.
proof fn nothing_collected(items: Seq<ExprV>, i: int)
    requires
        0 <= i,
        forms(items),
        super::unwrap::all_tidy(items, seq!["deftemplate"@]),
    ensures
        collected(items, i, Seq::empty()) == Ok::<Seq<TemplateV>, Error>(Seq::empty()),
    decreases items.len() - i,
{
    if i < items.len() {
        nothing_collected(items, i + 1);
        let ignore = seq!["deftemplate"@];
        assert(super::unwrap::tidy(items[i], ignore));
        assert(super::unwrap::head_of(items[i]).is_some());
        assert(ignore[0] == "deftemplate"@);
        if items[i]->List_0[0]->Atom_0 == "deftemplate"@ {
            assert(ignore.contains("deftemplate"@));
        }
    }
}

/// Preprocessing what was preprocessed changes nothing: a source whose
/// forms are lists that begin with an atom, and that holds no `unwrap` and
/// no `deftemplate` form, is its own preprocessed form.
pub proof fn preprocessed_stays(r: ExprV)
    requires
        r is List,
        forms(r->List_0),
        super::unwrap::all_tidy(r->List_0, seq!["deftemplate"@]),
    ensures
        preprocessed(r) == Ok::<ExprV, Error>(r),
{
    let ignore = seq!["deftemplate"@];
    let items = r->List_0;
    nothing_collected(items, 0);
    super::template::nothing_to_expand(r, MAX_DEPTH as nat);
    if items.len() > 0 {
        assert(super::unwrap::head_of(items[0]).is_some());
    }
    assert(!super::unwrap::ignored(r, ignore));
    super::unwrap::tidy_row_is_unwrapped(items, 0, ignore);
    assert(items.skip(0) =~= items);
}

/// No `unwrap` form and no `deftemplate` form is left below the top of a
/// preprocessed source. The one premise leaves out the sources in which,
/// once the templates are expanded, a list below the top gets the head of
/// such a form by the splicing or removing of its first children, and no
/// others.
pub proof fn preprocessed_is_tidy(e: ExprV, ts: Seq<TemplateV>, x: ExprV, r: ExprV)
    requires
        e is List,
        collected(e->List_0, 0, Seq::empty()) == Ok::<Seq<TemplateV>, Error>(ts),
        expanded(e, ts, MAX_DEPTH as nat) == Ok::<ExprV, Error>(x),
        super::unwrap::clear_below(x, seq!["deftemplate"@]),
        preprocessed(e) == Ok::<ExprV, Error>(r),
    ensures
        r == unwrapped(x, seq!["deftemplate"@]),
        super::unwrap::all_tidy(super::unwrap::children(r), seq!["deftemplate"@]),
{
    super::unwrap::unwrapped_is_tidy(x, seq!["deftemplate"@]);
}

/// Running the preprocessor twice gives what running it once gives, for a
/// source whose preprocessed forms are lists that begin with an atom, and
/// in which, once the templates are expanded, no list below the top gets
/// the head of an `unwrap` or `deftemplate` form by the splicing or
/// removing of its first children.
pub proof fn preprocess_twice(e: ExprV, ts: Seq<TemplateV>, x: ExprV, r: ExprV)
    requires
        e is List,
        collected(e->List_0, 0, Seq::empty()) == Ok::<Seq<TemplateV>, Error>(ts),
        expanded(e, ts, MAX_DEPTH as nat) == Ok::<ExprV, Error>(x),
        super::unwrap::clear_below(x, seq!["deftemplate"@]),
        preprocessed(e) == Ok::<ExprV, Error>(r),
        forms(super::unwrap::children(r)),
    ensures
        preprocessed(r) == Ok::<ExprV, Error>(r),
{
    preprocessed_is_tidy(e, ts, x, r);
    match x {
        ExprV::Atom(_) => {},
        ExprV::List(_) => {
            preprocessed_stays(r);
        },
    }
}

} // verus!
