//! Templates: named bodies with parameters, expanded where they are called.

use crate::error::Error;
use crate::layout::layer::has_name;
use crate::sexpr::{views, views_push, Expr, ExprV};
use crate::text::{chars_of, same, texts};
use vstd::prelude::*;

verus! {

/// How deep an expansion may go: a call of a template takes one unit, and
/// so does each list of a body that is expanded after the substitution.
pub const MAX_DEPTH: usize = 128;

/// A template: its parameters and its body.
#[derive(Debug)]
pub struct Template(pub Vec<String>, pub Expr);

/// The templates by name. Of two with one name the later one counts.
pub type Templates = Vec<(String, Template)>;

/// The value of a named template.
pub struct TemplateV {
    pub name: Seq<char>,
    pub params: Seq<Seq<char>>,
    pub body: ExprV,
}

/// The values of a row of named templates.
pub open spec fn templates_view(t: Seq<(String, Template)>) -> Seq<TemplateV> {
    Seq::new(t.len(), |i: int| TemplateV { name: t[i].0@, params: texts(t[i].1.0@), body: t[i].1.1@ })
}

/// The parameters that the atoms from position `i` on add to `acc`: each
/// begins with `$`, and none comes twice.
pub open spec fn params_of(args: Seq<ExprV>, i: int, acc: Seq<Seq<char>>) -> Result<
    Seq<Seq<char>>,
    Error,
>
    decreases args.len() - i,
{
    if i < 0 || i >= args.len() {
        Ok(acc)
    } else {
        match args[i] {
            ExprV::List(_) => Err(Error::Shape),
            ExprV::Atom(x) => if !(x.len() > 0 && x[0] == '$') {
                Err(Error::BadArgument)
            } else if acc.contains(x) {
                Err(Error::DuplicateArgument)
            } else {
                params_of(args, i + 1, acc.push(x))
            },
        }
    }
}

/// The templates that the triples from position `i` on add to `acc`: a name,
/// a list of parameters, a body.
pub open spec fn templates_from(list: Seq<ExprV>, i: int, acc: Seq<TemplateV>) -> Result<
    Seq<TemplateV>,
    Error,
>
    decreases list.len() - i,
{
    if i < 0 || i >= list.len() {
        Ok(acc)
    } else if i + 2 >= list.len() || !(list[i] is Atom) || !(list[i + 1] is List) {
        Err(Error::Shape)
    } else {
        match params_of(list[i + 1]->List_0, 0, Seq::empty()) {
            Err(e) => Err(e),
            Ok(ps) => templates_from(
                list,
                i + 3,
                acc.push(TemplateV { name: list[i]->Atom_0, params: ps, body: list[i + 2] }),
            ),
        }
    }
}

/// The template of `name` that was defined last.
pub open spec fn template_of(ts: Seq<TemplateV>, name: Seq<char>) -> Option<TemplateV>
    decreases ts.len(),
{
    if ts.len() == 0 {
        None
    } else if ts.last().name == name {
        Some(ts.last())
    } else {
        template_of(ts.drop_last(), name)
    }
}

/// What the last parameter is bound to: the one argument that is left, or
/// the list of those that are left.
pub open spec fn variadic(rest: Seq<ExprV>) -> ExprV {
    if rest.len() == 1 {
        rest[0]
    } else {
        ExprV::List(rest)
    }
}

/// What a parameter is bound to in a call: each parameter but the last to
/// the argument at its position, where there is one; the last to what is
/// left.
pub open spec fn bound(params: Seq<Seq<char>>, args: Seq<ExprV>, name: Seq<char>, i: int) -> Option<
    ExprV,
>
    decreases params.len() - i,
{
    if i < 0 || i >= params.len() {
        None
    } else if params[i] == name {
        if i == params.len() - 1 {
            Some(
                variadic(
                    if i <= args.len() {
                        args.skip(i)
                    } else {
                        Seq::empty()
                    },
                ),
            )
        } else if i < args.len() {
            Some(args[i])
        } else {
            None
        }
    } else {
        bound(params, args, name, i + 1)
    }
}

/// The expression with every call of a template replaced by the template's
/// body, the parameters bound to the expanded arguments. A template without
/// parameters gives its body as it is. A call with no `fuel` left is an
/// error.
pub open spec fn expanded(e: ExprV, ts: Seq<TemplateV>, fuel: nat) -> Result<ExprV, Error>
    decreases fuel, e, 0int,
{
    match e {
        ExprV::Atom(_) => Ok(e),
        ExprV::List(list) => if list.len() > 0 && list[0] is Atom && template_of(
            ts,
            list[0]->Atom_0,
        ).is_some() {
            let t = template_of(ts, list[0]->Atom_0)->0;
            if t.params.len() == 0 {
                Ok(t.body)
            } else if fuel == 0 {
                Err(Error::TemplateDepth)
            } else {
                match expanded_all(list, 1, ts, fuel) {
                    Err(e) => Err(e),
                    Ok(args) => substituted(t.body, t.params, args, ts, (fuel - 1) as nat),
                }
            }
        } else {
            match expanded_all(list, 0, ts, fuel) {
                Err(e) => Err(e),
                Ok(items) => Ok(ExprV::List(items)),
            }
        },
    }
}

/// `expanded` on each expression of a row from position `i` on; the first
/// error wins.
pub open spec fn expanded_all(v: Seq<ExprV>, i: int, ts: Seq<TemplateV>, fuel: nat) -> Result<
    Seq<ExprV>,
    Error,
>
    decreases fuel, v, v.len() - i,
{
    if i < 0 || i >= v.len() {
        Ok(Seq::empty())
    } else {
        match expanded(v[i], ts, fuel) {
            Err(e) => Err(e),
            Ok(x) => match expanded_all(v, i + 1, ts, fuel) {
                Err(e) => Err(e),
                Ok(rest) => Ok(seq![x] + rest),
            },
        }
    }
}

/// A body with its parameters replaced by what they are bound to. A list of
/// the body is expanded again after the replacement, which takes one unit
/// of `fuel`.
pub open spec fn substituted(
    b: ExprV,
    params: Seq<Seq<char>>,
    args: Seq<ExprV>,
    ts: Seq<TemplateV>,
    fuel: nat,
) -> Result<ExprV, Error>
    decreases fuel, b, 0int,
{
    match b {
        ExprV::Atom(a) => match bound(params, args, a, 0) {
            Some(x) => Ok(x),
            None => Ok(b),
        },
        ExprV::List(list) => match substituted_all(list, 0, params, args, ts, fuel) {
            Err(e) => Err(e),
            Ok(items) => if fuel == 0 {
                Err(Error::TemplateDepth)
            } else {
                expanded(ExprV::List(items), ts, (fuel - 1) as nat)
            },
        },
    }
}

/// `substituted` on each expression of a row from position `i` on; the
/// first error wins.
pub open spec fn substituted_all(
    v: Seq<ExprV>,
    i: int,
    params: Seq<Seq<char>>,
    args: Seq<ExprV>,
    ts: Seq<TemplateV>,
    fuel: nat,
) -> Result<Seq<ExprV>, Error>
    decreases fuel, v, v.len() - i,
{
    if i < 0 || i >= v.len() {
        Ok(Seq::empty())
    } else {
        match substituted(v[i], params, args, ts, fuel) {
            Err(e) => Err(e),
            Ok(x) => match substituted_all(v, i + 1, params, args, ts, fuel) {
                Err(e) => Err(e),
                Ok(rest) => Ok(seq![x] + rest),
            },
        }
    }
}

#[verifier::loop_isolation(false)]
fn params(args: &Vec<Expr>) -> (r: Result<Vec<String>, Error>)
    ensures
        match r {
            Ok(ps) => params_of(views(args@), 0, Seq::empty()) == Ok::<Seq<Seq<char>>, Error>(
                texts(ps@),
            ),
            Err(e) => params_of(views(args@), 0, Seq::empty()) == Err::<Seq<Seq<char>>, Error>(e),
        },
{
    let ghost all = views(args@);
    let mut out: Vec<String> = Vec::new();
    let mut i: usize = 0;
    assert(texts(out@) =~= Seq::<Seq<char>>::empty());
    while i < args.len()
        invariant
            i <= args.len(),
            params_of(all, 0, Seq::empty()) == params_of(all, i as int, texts(out@)),
        decreases args.len() - i,
    {
        assert(all[i as int] == args@[i as int]@);
        let x = match args[i].atom() {
            Ok(x) => x,
            Err(e) => {
                return Err(e);
            },
        };
        let cs = chars_of(x);
        if !(cs.len() > 0 && cs[0] == '$') {
            return Err(Error::BadArgument);
        }
        if has_name(&out, x) {
            return Err(Error::DuplicateArgument);
        }
        let ghost before = texts(out@);
        out.push(x.to_owned());
        assert(texts(out@) =~= before.push(x@));
        i = i + 1;
    }
    Ok(out)
}

/// Reads template definitions: triples of a name, a list of parameters and
/// a body.
#[verifier::loop_isolation(false)]
pub fn deftemplate(list: Vec<Expr>) -> (r: Result<Templates, Error>)
    ensures
        match r {
            Ok(ts) => templates_from(views(list@), 0, Seq::empty()) == Ok::<Seq<TemplateV>, Error>(
                templates_view(ts@),
            ),
            Err(e) => templates_from(views(list@), 0, Seq::empty()) == Err::<
                Seq<TemplateV>,
                Error,
            >(e),
        },
{
    let ghost all = views(list@);
    let mut templates: Templates = Vec::new();
    let mut i: usize = 0;
    assert(templates_view(templates@) =~= Seq::<TemplateV>::empty());
    while i < list.len()
        invariant
            i <= list.len(),
            templates_from(all, 0, Seq::empty()) == templates_from(
                all,
                i as int,
                templates_view(templates@),
            ),
        decreases list.len() - i,
    {
        if list.len() - i < 3 {
            return Err(Error::Shape);
        }
        assert(all[i as int] == list@[i as int]@);
        assert(all[i + 1] == list@[i + 1]@);
        assert(all[i + 2] == list@[i + 2]@);
        let name = match list[i].atom() {
            Ok(x) => x,
            Err(e) => {
                return Err(e);
            },
        };
        let args = match list[i + 1].list() {
            Ok(a) => a,
            Err(e) => {
                return Err(e);
            },
        };
        let names = match params(args) {
            Ok(n) => n,
            Err(e) => {
                return Err(e);
            },
        };
        let ghost before = templates_view(templates@);
        let entry = (name.to_owned(), Template(names, list[i + 2].clone()));
        let ghost ev = TemplateV { name: entry.0@, params: texts(entry.1.0@), body: entry.1.1@ };
        templates.push(entry);
        assert(templates_view(templates@) =~= before.push(ev));
        i = i + 3;
    }
    Ok(templates)
}

fn find<'a>(templates: &'a Templates, name: &str) -> (r: Option<&'a Template>)
    ensures
        match r {
            Some(t) => template_of(templates_view(templates@), name@) == Some(
                TemplateV { name: name@, params: texts(t.0@), body: t.1@ },
            ),
            None => template_of(templates_view(templates@), name@).is_none(),
        },
{
    let ghost tv = templates_view(templates@);
    let mut i: usize = templates.len();
    assert(tv.take(i as int) =~= tv);
    while i > 0
        invariant
            i <= templates.len(),
            tv == templates_view(templates@),
            template_of(tv, name@) == template_of(tv.take(i as int), name@),
        decreases i,
    {
        assert(tv.take(i as int).drop_last() =~= tv.take(i - 1));
        assert(tv.take(i as int).last() == tv[i - 1]);
        if same(templates[i - 1].0.as_str(), name) {
            return Some(&templates[i - 1].1);
        }
        i = i - 1;
    }
    None
}

#[verifier::loop_isolation(false)]
fn bind(params: &Vec<String>, args: &Vec<Expr>, name: &str) -> (r: Option<Expr>)
    ensures
        match r {
            Some(x) => bound(texts(params@), views(args@), name@, 0) == Some(x@),
            None => bound(texts(params@), views(args@), name@, 0).is_none(),
        },
{
    let ghost ps = texts(params@);
    let ghost av = views(args@);
    let mut i: usize = 0;
    while i < params.len()
        invariant
            i <= params.len(),
            bound(ps, av, name@, 0) == bound(ps, av, name@, i as int),
        decreases params.len() - i,
    {
        if same(params[i].as_str(), name) {
            if i == params.len() - 1 {
                let mut rest: Vec<Expr> = Vec::new();
                let start: usize = if i <= args.len() {
                    i
                } else {
                    args.len()
                };
                let mut j: usize = start;
                let ghost want = if i <= av.len() {
                    av.skip(i as int)
                } else {
                    Seq::empty()
                };
                assert(views(rest@) =~= Seq::<ExprV>::empty());
                while j < args.len()
                    invariant
                        start <= j,
                        j <= args.len(),
                        views(rest@) =~= av.subrange(start as int, j as int),
                    decreases args.len() - j,
                {
                    let item = args[j].clone();
                    proof {
                        views_push(rest@, item);
                    }
                    rest.push(item);
                    j = j + 1;
                }
                assert(views(rest@) =~= want);
                if rest.len() == 1 {
                    return Some(rest[0].clone());
                }
                return Some(Expr::List(rest));
            } else if i < args.len() {
                return Some(args[i].clone());
            } else {
                return None;
            }
        }
        i = i + 1;
    }
    None
}

/// Expands every call of a template.
pub fn expand(expr: &Expr, templates: &Templates) -> (r: Result<Expr, Error>)
    ensures
        match r {
            Ok(x) => expanded(expr@, templates_view(templates@), MAX_DEPTH as nat) == Ok::<
                ExprV,
                Error,
            >(x@),
            Err(e) => expanded(expr@, templates_view(templates@), MAX_DEPTH as nat) == Err::<
                ExprV,
                Error,
            >(e),
        },
{
    expand_with(expr, templates, MAX_DEPTH)
}

#[verifier::loop_isolation(false)]
fn expand_with(expr: &Expr, templates: &Templates, fuel: usize) -> (r: Result<Expr, Error>)
    ensures
        match r {
            Ok(x) => expanded(expr@, templates_view(templates@), fuel as nat) == Ok::<ExprV, Error>(
                x@,
            ),
            Err(e) => expanded(expr@, templates_view(templates@), fuel as nat) == Err::<
                ExprV,
                Error,
            >(e),
        },
    decreases fuel, expr, 1int,
{
    let list = match expr {
        Expr::Atom(_) => {
            return Ok(expr.clone());
        },
        Expr::List(list) => list,
    };
    let ghost v = views(list@);
    if list.len() > 0 {
        assert(v[0] == list@[0]@);
        match list[0].atom() {
            Ok(name) => match find(templates, name) {
                Some(t) => {
                    if t.0.len() == 0 {
                        return Ok(t.1.clone());
                    }
                    if fuel == 0 {
                        return Err(Error::TemplateDepth);
                    }
                    let args = match expand_row(list, 1, templates, fuel) {
                        Ok(a) => a,
                        Err(e) => {
                            return Err(e);
                        },
                    };
                    return substitute(&t.1, &t.0, &args, templates, fuel - 1);
                },
                None => {},
            },
            Err(_) => {},
        }
    }
    match expand_row(list, 0, templates, fuel) {
        Ok(items) => Ok(Expr::List(items)),
        Err(e) => Err(e),
    }
}

#[verifier::loop_isolation(false)]
fn expand_row(list: &Vec<Expr>, from: usize, templates: &Templates, fuel: usize) -> (r: Result<
    Vec<Expr>,
    Error,
>)
    requires
        from <= list.len(),
    ensures
        match r {
            Ok(out) => expanded_all(
                views(list@),
                from as int,
                templates_view(templates@),
                fuel as nat,
            ) == Ok::<Seq<ExprV>, Error>(views(out@)),
            Err(e) => expanded_all(
                views(list@),
                from as int,
                templates_view(templates@),
                fuel as nat,
            ) == Err::<Seq<ExprV>, Error>(e),
        },
    decreases fuel, list, 0int,
{
    let ghost v = views(list@);
    let ghost ts = templates_view(templates@);
    let mut out: Vec<Expr> = Vec::new();
    let mut i: usize = from;
    assert(views(out@) =~= Seq::<ExprV>::empty());
    while i < list.len()
        invariant
            from <= i <= list.len(),
            expanded_all(v, from as int, ts, fuel as nat) == (match expanded_all(
                v,
                i as int,
                ts,
                fuel as nat,
            ) {
                Ok(rest) => Ok::<Seq<ExprV>, Error>(views(out@) + rest),
                Err(e) => Err(e),
            }),
        decreases list.len() - i,
    {
        let ghost before = views(out@);
        assert(v[i as int] == list@[i as int]@);
        let x = match expand_with(&list[i], templates, fuel) {
            Ok(x) => x,
            Err(e) => {
                return Err(e);
            },
        };
        proof {
            views_push(out@, x);
            match expanded_all(v, i + 1, ts, fuel as nat) {
                Ok(rest) => {
                    assert(before + (seq![x@] + rest) =~= before.push(x@) + rest);
                },
                Err(_) => {},
            }
        }
        out.push(x);
        i = i + 1;
    }
    assert(views(out@) + Seq::<ExprV>::empty() =~= views(out@));
    Ok(out)
}

#[verifier::loop_isolation(false)]
fn substitute(
    body: &Expr,
    params: &Vec<String>,
    args: &Vec<Expr>,
    templates: &Templates,
    fuel: usize,
) -> (r: Result<Expr, Error>)
    ensures
        match r {
            Ok(x) => substituted(
                body@,
                texts(params@),
                views(args@),
                templates_view(templates@),
                fuel as nat,
            ) == Ok::<ExprV, Error>(x@),
            Err(e) => substituted(
                body@,
                texts(params@),
                views(args@),
                templates_view(templates@),
                fuel as nat,
            ) == Err::<ExprV, Error>(e),
        },
    decreases fuel, body, 1int,
{
    match body {
        Expr::Atom(a) => match bind(params, args, a.as_str()) {
            Some(x) => Ok(x),
            None => Ok(body.clone()),
        },
        Expr::List(list) => {
            let ghost v = views(list@);
            let ghost ps = texts(params@);
            let ghost av = views(args@);
            let ghost ts = templates_view(templates@);
            let mut out: Vec<Expr> = Vec::new();
            let mut i: usize = 0;
            assert(views(out@) =~= Seq::<ExprV>::empty());
            while i < list.len()
                invariant
                    i <= list.len(),
                    substituted_all(v, 0, ps, av, ts, fuel as nat) == (match substituted_all(
                        v,
                        i as int,
                        ps,
                        av,
                        ts,
                        fuel as nat,
                    ) {
                        Ok(rest) => Ok::<Seq<ExprV>, Error>(views(out@) + rest),
                        Err(e) => Err(e),
                    }),
                decreases list.len() - i,
            {
                let ghost before = views(out@);
                assert(v[i as int] == list@[i as int]@);
                let x = match substitute(&list[i], params, args, templates, fuel) {
                    Ok(x) => x,
                    Err(e) => {
                        return Err(e);
                    },
                };
                proof {
                    views_push(out@, x);
                    match substituted_all(v, i + 1, ps, av, ts, fuel as nat) {
                        Ok(rest) => {
                            assert(before + (seq![x@] + rest) =~= before.push(x@) + rest);
                        },
                        Err(_) => {},
                    }
                }
                out.push(x);
                i = i + 1;
            }
            assert(views(out@) + Seq::<ExprV>::empty() =~= views(out@));
            let done = Expr::List(out);
            if fuel == 0 {
                Err(Error::TemplateDepth)
            } else {
                expand_with(&done, templates, fuel - 1)
            }
        },
    }
}

/// Without templates, expanding changes nothing.
pub proof fn nothing_to_expand(e: ExprV, fuel: nat)
    ensures
        expanded(e, Seq::empty(), fuel) == Ok::<ExprV, Error>(e),
    decreases e, 0int,
{
    match e {
        ExprV::Atom(_) => {},
        ExprV::List(list) => {
            nothing_to_expand_in_row(list, 0, fuel);
            assert(list.skip(0) =~= list);
        },
    }
}

/// Without templates, expanding a row changes nothing.
pub proof fn nothing_to_expand_in_row(v: Seq<ExprV>, i: int, fuel: nat)
    requires
        0 <= i <= v.len(),
    ensures
        expanded_all(v, i, Seq::empty(), fuel) == Ok::<Seq<ExprV>, Error>(v.skip(i)),
    decreases v, v.len() - i,
{
    if i < v.len() {
        nothing_to_expand(v[i], fuel);
        nothing_to_expand_in_row(v, i + 1, fuel);
        assert(seq![v[i]] + v.skip(i + 1) =~= v.skip(i));
    } else {
        assert(v.skip(i) =~= Seq::<ExprV>::empty());
    }
}

} // verus!
