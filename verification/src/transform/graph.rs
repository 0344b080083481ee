//! The layer dependency graph and its priority-aware topological sort.

use crate::error::Error;
use crate::text::{chars_of, same, texts};
use vstd::prelude::*;

verus! {

/// A node of the graph: a name, a weight that ranks it among the nodes that
/// are ready at the same time, and the names of the nodes it depends on.
#[derive(Debug)]
pub struct Node {
    pub name: String,
    pub weight: usize,
    pub deps: Vec<String>,
}

/// The value of a [`Node`].
pub struct NodeV {
    pub name: Seq<char>,
    pub weight: usize,
    pub deps: Seq<Seq<char>>,
}

impl View for Node {
    type V = NodeV;

    open spec fn view(&self) -> NodeV {
        NodeV { name: self.name@, weight: self.weight, deps: texts(self.deps@) }
    }
}

/// The values of a row of nodes.
pub open spec fn graph_view(g: Seq<Node>) -> Seq<NodeV> {
    Seq::new(g.len(), |i: int| g[i]@)
}

/// Whether `a` comes before `b` in the order of the dictionary, compared
/// from position `i` on.
pub open spec fn less_from(a: Seq<char>, b: Seq<char>, i: int) -> bool
    decreases b.len() - i,
{
    if i < 0 || i >= b.len() {
        false
    } else if i >= a.len() {
        true
    } else if a[i] != b[i] {
        a[i] < b[i]
    } else {
        less_from(a, b, i + 1)
    }
}

/// Whether `x` ranks below `y`: by weight, then by name.
pub open spec fn lower(x: NodeV, y: NodeV) -> bool {
    x.weight < y.weight || (x.weight == y.weight && less_from(x.name, y.name, 0))
}

/// Whether one of the nodes emitted from position `k` of `done` on has the
/// name `name`.
pub open spec fn named_in(g: Seq<NodeV>, done: Seq<usize>, name: Seq<char>, k: int) -> bool
    decreases done.len() - k,
{
    if k < 0 || k >= done.len() {
        false
    } else {
        (done[k] < g.len() && g[done[k] as int].name == name) || named_in(g, done, name, k + 1)
    }
}

/// Whether each of the dependencies from position `k` on names an emitted
/// node.
pub open spec fn deps_done(g: Seq<NodeV>, done: Seq<usize>, deps: Seq<Seq<char>>, k: int) -> bool
    decreases deps.len() - k,
{
    if k < 0 || k >= deps.len() {
        true
    } else {
        named_in(g, done, deps[k], 0) && deps_done(g, done, deps, k + 1)
    }
}

/// Whether node `i` can be emitted next: it has not been, and all that it
/// depends on has.
pub open spec fn ready(g: Seq<NodeV>, done: Seq<usize>, i: int) -> bool {
    0 <= i < g.len() && !done.contains(i as usize) && deps_done(g, done, g[i].deps, 0)
}

/// The ready node of the highest rank among the first `n` nodes; of two of
/// one rank, the earlier.
pub open spec fn best(g: Seq<NodeV>, done: Seq<usize>, n: int) -> Option<usize>
    decreases n,
{
    if n <= 0 {
        None
    } else {
        let rest = best(g, done, n - 1);
        if ready(g, done, n - 1) {
            match rest {
                Some(j) => if j < g.len() && lower(g[j as int], g[n - 1]) {
                    Some((n - 1) as usize)
                } else {
                    Some(j)
                },
                None => Some((n - 1) as usize),
            }
        } else {
            rest
        }
    }
}

/// The order in which the nodes are emitted after `done`: again and again
/// the ready node of the highest rank. Where nodes are left and none is
/// ready, the graph has a cycle or an unknown dependency.
pub open spec fn order_from(g: Seq<NodeV>, done: Seq<usize>) -> Result<Seq<usize>, Error>
    decreases g.len() - done.len(),
{
    if done.len() >= g.len() {
        Ok(done)
    } else {
        match best(g, done, g.len() as int) {
            None => Err(Error::CycleDetected),
            Some(i) => order_from(g, done.push(i)),
        }
    }
}

/// The names of the nodes of an order.
pub open spec fn names_of(g: Seq<NodeV>, order: Seq<usize>) -> Seq<Seq<char>> {
    Seq::new(
        order.len(),
        |p: int|
            if order[p] < g.len() {
                g[order[p] as int].name
            } else {
                Seq::empty()
            },
    )
}

/// The names of the nodes in the order of the sort: every node after all
/// that it depends on and, among those that could come next, the one of the
/// highest rank first.
pub open spec fn sorted_names(g: Seq<NodeV>) -> Result<Seq<Seq<char>>, Error> {
    match order_from(g, Seq::empty()) {
        Ok(order) => Ok(names_of(g, order)),
        Err(e) => Err(e),
    }
}

fn text_less(a: &str, b: &str) -> (r: bool)
    ensures
        r == less_from(a@, b@, 0),
{
    let x = chars_of(a);
    let y = chars_of(b);
    let mut i: usize = 0;
    while i < y.len()
        invariant
            i <= y.len(),
            x@ == a@,
            y@ == b@,
            less_from(a@, b@, 0) == less_from(a@, b@, i as int),
        decreases y.len() - i,
    {
        if i >= x.len() {
            return true;
        }
        if x[i] != y[i] {
            return x[i] < y[i];
        }
        i = i + 1;
    }
    false
}

fn ranks_below(x: &Node, y: &Node) -> (r: bool)
    ensures
        r == lower(x@, y@),
{
    x.weight < y.weight || (x.weight == y.weight && text_less(x.name.as_str(), y.name.as_str()))
}

fn is_named(graph: &Vec<Node>, done: &Vec<usize>, name: &str) -> (r: bool)
    ensures
        r == named_in(graph_view(graph@), done@, name@, 0),
{
    let ghost g = graph_view(graph@);
    let mut k: usize = 0;
    while k < done.len()
        invariant
            k <= done.len(),
            g == graph_view(graph@),
            named_in(g, done@, name@, 0) == named_in(g, done@, name@, k as int),
        decreases done.len() - k,
    {
        let j = done[k];
        if j < graph.len() && same(graph[j].name.as_str(), name) {
            return true;
        }
        k = k + 1;
    }
    false
}

fn is_ready(graph: &Vec<Node>, done: &Vec<usize>, emitted: &Vec<bool>, i: usize) -> (r: bool)
    requires
        i < graph.len(),
        emitted.len() == graph.len(),
        forall|j: int| 0 <= j < graph.len() ==> emitted@[j] == done@.contains(j as usize),
    ensures
        r == ready(graph_view(graph@), done@, i as int),
{
    if emitted[i] {
        return false;
    }
    let ghost g = graph_view(graph@);
    let deps = &graph[i].deps;
    let mut k: usize = 0;
    while k < deps.len()
        invariant
            k <= deps.len(),
            i < graph.len(),
            g == graph_view(graph@),
            *deps == graph@[i as int].deps,
            deps_done(g, done@, g[i as int].deps, 0) == deps_done(
                g,
                done@,
                g[i as int].deps,
                k as int,
            ),
        decreases deps.len() - k,
    {
        assert(g[i as int].deps[k as int] == deps@[k as int]@);
        if !is_named(graph, done, deps[k].as_str()) {
            return false;
        }
        k = k + 1;
    }
    true
}

/// Sorts the nodes so that each comes after all that it depends on. Among
/// the nodes that could come next, the one of the highest rank comes first.
#[verifier::loop_isolation(false)]
pub fn priority_topo_sort(graph: &Vec<Node>) -> (r: Result<Vec<String>, Error>)
    ensures
        match r {
            Ok(names) => sorted_names(graph_view(graph@)) == Ok::<Seq<Seq<char>>, Error>(
                texts(names@),
            ),
            Err(e) => sorted_names(graph_view(graph@)) == Err::<Seq<Seq<char>>, Error>(e),
        },
{
    let ghost g = graph_view(graph@);
    let n = graph.len();
    let mut done: Vec<usize> = Vec::new();
    let mut emitted: Vec<bool> = Vec::new();
    let mut f: usize = 0;
    while f < n
        invariant
            f <= n,
            emitted.len() == f,
            forall|j: int| 0 <= j < f ==> !emitted@[j],
        decreases n - f,
    {
        emitted.push(false);
        f = f + 1;
    }
    while done.len() < n
        invariant
            emitted.len() == n,
            done.len() <= n,
            forall|j: int| 0 <= j < n ==> emitted@[j] == done@.contains(j as usize),
            forall|k: int| 0 <= k < done.len() ==> done@[k] < n,
            done@.no_duplicates(),
            order_from(g, Seq::empty()) == order_from(g, done@),
        decreases n - done.len(),
    {
        let mut cur: Option<usize> = None;
        let mut i: usize = 0;
        while i < n
            invariant
                i <= n,
                cur == best(g, done@, i as int),
                match cur {
                    Some(j) => j < n && ready(g, done@, j as int),
                    None => true,
                },
            decreases n - i,
        {
            if is_ready(graph, &done, &emitted, i) {
                cur = match cur {
                    Some(j) => if ranks_below(&graph[j], &graph[i]) {
                        Some(i)
                    } else {
                        Some(j)
                    },
                    None => Some(i),
                };
            }
            i = i + 1;
        }
        match cur {
            None => {
                return Err(Error::CycleDetected);
            },
            Some(j) => {
                let ghost before = done@;
                emitted.set(j, true);
                done.push(j);
                assert forall|x: int| 0 <= x < n implies emitted@[x] == done@.contains(
                    x as usize,
                ) by {
                    if x == j {
                        assert(done@[before.len() as int] == j);
                    } else if before.contains(x as usize) {
                        let k = choose|k: int| 0 <= k < before.len() && before[k] == x as usize;
                        assert(done@[k] == x as usize);
                    } else {
                        if done@.contains(x as usize) {
                            let k = choose|k: int| 0 <= k < done@.len() && done@[k] == x as usize;
                            if k < before.len() {
                                assert(before[k] == x as usize);
                            }
                        }
                    }
                }
            },
        }
    }
    let mut names: Vec<String> = Vec::new();
    let mut p: usize = 0;
    while p < done.len()
        invariant
            p <= done.len(),
            texts(names@) =~= names_of(g, done@).take(p as int),
        decreases done.len() - p,
    {
        let ghost before = texts(names@);
        let name = graph[done[p]].name.clone();
        names.push(name);
        assert(texts(names@) =~= before.push(name@));
        p = p + 1;
    }
    assert(names_of(g, done@).take(p as int) =~= names_of(g, done@));
    Ok(names)
}

/// Whether an order is sound up to position `n`: each of its first `n`
/// nodes is a node of the graph, stands in the order once, and comes after
/// nodes with the names of all its dependencies.
pub open spec fn sound(g: Seq<NodeV>, order: Seq<usize>, n: int) -> bool {
    forall|p: int|
        0 <= p < n && p < order.len() ==> {
            &&& (#[trigger] order[p]) < g.len()
            &&& !order.take(p).contains(order[p])
            &&& deps_done(g, order.take(p), g[order[p] as int].deps, 0)
        }
}

/// What `best` picks is ready.
pub proof fn best_is_ready(g: Seq<NodeV>, done: Seq<usize>, n: int)
    requires
        n <= g.len() <= usize::MAX,
    ensures
        match best(g, done, n) {
            Some(j) => j < n && ready(g, done, j as int),
            None => true,
        },
    decreases n,
{
    if n > 0 {
        best_is_ready(g, done, n - 1);
    }
}

/// The order that the sort gives extends what was emitted before, holds
/// every node of the graph once, and has every node after nodes with the
/// names of all its dependencies.
pub proof fn order_is_sound(g: Seq<NodeV>, done: Seq<usize>)
    requires
        done.len() <= g.len() <= usize::MAX,
        sound(g, done, done.len() as int),
    ensures
        match order_from(g, done) {
            Ok(order) => order.len() == g.len() && sound(g, order, order.len() as int)
                && order.take(done.len() as int) == done,
            Err(_) => true,
        },
    decreases g.len() - done.len(),
{
    if done.len() >= g.len() {
        assert(done.take(done.len() as int) =~= done);
    } else {
        best_is_ready(g, done, g.len() as int);
        match best(g, done, g.len() as int) {
            None => {},
            Some(i) => {
                let next = done.push(i);
                assert(next.take(done.len() as int) =~= done);
                assert forall|p: int| 0 <= p < next.len() implies {
                    &&& (#[trigger] next[p]) < g.len()
                    &&& !next.take(p).contains(next[p])
                    &&& deps_done(g, next.take(p), g[next[p] as int].deps, 0)
                } by {
                    if p < done.len() {
                        assert(next.take(p) =~= done.take(p));
                        assert(next[p] == done[p]);
                    }
                }
                order_is_sound(g, next);
                match order_from(g, next) {
                    Ok(order) => {
                        assert(order.take(done.len() as int) =~= order.take(
                            next.len() as int,
                        ).take(done.len() as int));
                    },
                    Err(_) => {},
                }
            },
        }
    }
}

/// Where a node with the name `name` was emitted, it stands in the order at
/// some position.
pub proof fn named_in_has_position(g: Seq<NodeV>, done: Seq<usize>, name: Seq<char>, k: int)
    requires
        0 <= k,
        named_in(g, done, name, k),
    ensures
        exists|q: int| k <= q < done.len() && done[q] < g.len() && g[done[q] as int].name == name,
    decreases done.len() - k,
{
    if k < done.len() {
        if done[k] < g.len() && g[done[k] as int].name == name {
        } else {
            named_in_has_position(g, done, name, k + 1);
        }
    }
}

/// Each dependency of a row names an emitted node.
pub proof fn deps_done_each(g: Seq<NodeV>, done: Seq<usize>, deps: Seq<Seq<char>>, k: int, d: int)
    requires
        0 <= k <= d < deps.len(),
        deps_done(g, done, deps, k),
    ensures
        named_in(g, done, deps[d], 0),
    decreases deps.len() - k,
{
    if k < d {
        deps_done_each(g, done, deps, k + 1, d);
    }
}

/// In the order of the sort every node comes after each of the nodes that
/// it depends on: for the node at position `p` and its `d`-th dependency
/// there is an earlier position whose node has the dependency's name. And
/// the order holds every node of the graph exactly once.
pub proof fn dependencies_come_first(g: Seq<NodeV>, p: int, d: int)
    requires
        g.len() <= usize::MAX,
        order_from(g, Seq::empty()) is Ok,
        0 <= p < g.len(),
    ensures
        ({
            let order = order_from(g, Seq::empty())->Ok_0;
            &&& order.len() == g.len()
            &&& order.no_duplicates()
            &&& order[p] < g.len()
            &&& 0 <= d < g[order[p] as int].deps.len() ==> exists|q: int|
                0 <= q < p && order[q] < g.len() && g[order[q] as int].name
                    == g[order[p] as int].deps[d]
        }),
{
    let order = order_from(g, Seq::empty())->Ok_0;
    order_is_sound(g, Seq::empty());
    assert(order[p] < g.len());
    assert forall|a: int, b: int| 0 <= a < order.len() && 0 <= b < order.len() && a != b implies order[a]
        != order[b] by {
        if a < b {
            assert(order[b] < g.len());
            if order[a] == order[b] {
                assert(order.take(b)[a] == order[b]);
            }
        } else {
            assert(order[a] < g.len());
            if order[a] == order[b] {
                assert(order.take(a)[b] == order[a]);
            }
        }
    }
    if 0 <= d < g[order[p] as int].deps.len() {
        deps_done_each(g, order.take(p), g[order[p] as int].deps, 0, d);
        named_in_has_position(g, order.take(p), g[order[p] as int].deps[d], 0);
        let q = choose|q: int|
            0 <= q < order.take(p).len() && order.take(p)[q] < g.len() && g[order.take(
                p,
            )[q] as int].name == g[order[p] as int].deps[d];
        assert(order.take(p)[q] == order[q]);
    }
}

/// No text comes before itself.
pub proof fn less_is_strict(a: Seq<char>, i: int)
    requires
        0 <= i,
    ensures
        !less_from(a, a, i),
    decreases a.len() - i,
{
    if i < a.len() {
        less_is_strict(a, i + 1);
    }
}

/// The order of the dictionary is transitive.
pub proof fn less_chains(a: Seq<char>, b: Seq<char>, c: Seq<char>, i: int)
    requires
        0 <= i,
        less_from(a, b, i),
        less_from(b, c, i),
    ensures
        less_from(a, c, i),
    decreases c.len() - i,
{
    if i < a.len() && i < b.len() && i < c.len() && a[i] == b[i] && b[i] == c[i] {
        less_chains(a, b, c, i + 1);
    }
}

/// The rank of nodes is a strict order.
pub proof fn lower_is_an_order(x: NodeV, y: NodeV, z: NodeV)
    ensures
        !lower(x, x),
        lower(x, y) && lower(y, z) ==> lower(x, z),
{
    less_is_strict(x.name, 0);
    if lower(x, y) && lower(y, z) {
        if x.weight == y.weight && y.weight == z.weight {
            less_chains(x.name, y.name, z.name, 0);
        }
    }
}

/// What `best` picks ranks at least as high as every ready node among those
/// it chose from.
pub proof fn best_ranks_highest(g: Seq<NodeV>, done: Seq<usize>, n: int, j: int)
    requires
        0 <= j < n <= g.len() <= usize::MAX,
        ready(g, done, j),
    ensures
        match best(g, done, n) {
            Some(b) => b < n && !lower(g[b as int], g[j]),
            None => false,
        },
    decreases n,
{
    best_is_ready(g, done, n - 1);
    best_is_ready(g, done, n);
    if j < n - 1 {
        best_ranks_highest(g, done, n - 1, j);
        let b = best(g, done, n - 1)->0;
        lower_is_an_order(g[b as int], g[n - 1], g[j]);
    } else {
        lower_is_an_order(g[j], g[j], g[j]);
    }
}

/// In the order of the sort, the node at each position ranks at least as
/// high as every node that was ready at that point: of the nodes that could
/// come next, the one with the highest weight, and among those of one
/// weight the one whose name comes last, comes first.
pub proof fn ready_nodes_come_by_rank(g: Seq<NodeV>, done: Seq<usize>, p: int, j: int)
    requires
        done.len() <= p < g.len() <= usize::MAX,
        sound(g, done, done.len() as int),
        order_from(g, done) is Ok,
        0 <= j < g.len(),
        ready(g, order_from(g, done)->Ok_0.take(p), j),
    ensures
        ({
            let order = order_from(g, done)->Ok_0;
            order.len() == g.len() && order[p] < g.len() && !lower(g[order[p] as int], g[j])
        }),
    decreases g.len() - done.len(),
{
    order_is_sound(g, done);
    let order = order_from(g, done)->Ok_0;
    best_is_ready(g, done, g.len() as int);
    let i = best(g, done, g.len() as int)->0;
    let next = done.push(i);
    assert(next.take(done.len() as int) =~= done);
    assert forall|q: int| 0 <= q < next.len() implies {
        &&& (#[trigger] next[q]) < g.len()
        &&& !next.take(q).contains(next[q])
        &&& deps_done(g, next.take(q), g[next[q] as int].deps, 0)
    } by {
        if q < done.len() {
            assert(next.take(q) =~= done.take(q));
            assert(next[q] == done[q]);
        }
    }
    order_is_sound(g, next);
    if p == done.len() {
        assert(order.take(p) =~= done) by {
            assert(order.take(next.len() as int) == next);
            assert(order.take(p) =~= order.take(next.len() as int).take(p));
        }
        assert(order[p] == order.take(next.len() as int)[p]);
        best_ranks_highest(g, done, g.len() as int, j);
    } else {
        ready_nodes_come_by_rank(g, next, p, j);
    }
}

} // verus!
