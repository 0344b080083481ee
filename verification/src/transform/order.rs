//! The order in which the back-ends take the layers of a layout.

use super::graph::{graph_view, priority_topo_sort, sorted_names, Node, NodeV};
use crate::error::Error;
use crate::layout::assemble::Layout;
use crate::layout::layer::{deps_of, Layer, LayerV};
use crate::layout::layers::layers_view;
use crate::text::texts;
use vstd::prelude::*;

verus! {

/// The dependency graph of the layers: a node for each layer, weighted by
/// the layer's index, depending on the layers that it holds.
pub open spec fn graph_of(layers: Seq<LayerV>) -> Seq<NodeV> {
    Seq::new(
        layers.len(),
        |j: int| NodeV { name: layers[j].name, weight: layers[j].index, deps: deps_of(layers[j]) },
    )
}

/// The names of the layers in the order of the back-ends: the order of the
/// sort turned round, so that a layer comes before the layers that it
/// holds.
pub open spec fn ordered(layers: Seq<LayerV>) -> Result<Seq<Seq<char>>, Error> {
    match sorted_names(graph_of(layers)) {
        Ok(names) => Ok(names.reverse()),
        Err(e) => Err(e),
    }
}

/// The names in the opposite order.
pub fn reversed(names: &Vec<String>) -> (r: Vec<String>)
    ensures
        texts(r@) == texts(names@).reverse(),
{
    let mut out: Vec<String> = Vec::new();
    let mut i: usize = names.len();
    while i > 0
        invariant
            i <= names.len(),
            out@.len() == names@.len() - i,
            forall|k: int| 0 <= k < out@.len() ==> out@[k]@ == names@[names@.len() - 1 - k]@,
        decreases i,
    {
        out.push(names[i - 1].clone());
        i = i - 1;
    }
    assert(texts(out@) =~= texts(names@).reverse());
    out
}

impl Layout {
    /// The names of the layers in the order of the back-ends.
    pub fn sorted_layers(&self) -> (r: Result<Vec<String>, Error>)
        ensures
            match r {
                Ok(names) => ordered(self@.layers) == Ok::<Seq<Seq<char>>, Error>(texts(names@)),
                Err(e) => ordered(self@.layers) == Err::<Seq<Seq<char>>, Error>(e),
            },
    {
        let ghost want = graph_of(self@.layers);
        let mut graph: Vec<Node> = Vec::new();
        let mut j: usize = 0;
        while j < self.layers.len()
            invariant
                j <= self.layers.len(),
                want == graph_of(self@.layers),
                graph_view(graph@) =~= want.take(j as int),
            decreases self.layers.len() - j,
        {
            let ghost before = graph_view(graph@);
            let l = &self.layers[j];
            let node = Node { name: l.name.clone(), weight: l.index, deps: l.get_dependencies() };
            graph.push(node);
            assert(graph_view(graph@) =~= before.push(node@));
            j = j + 1;
        }
        assert(want.take(j as int) =~= want);
        match priority_topo_sort(&graph) {
            Ok(order) => Ok(reversed(&order)),
            Err(e) => Err(e),
        }
    }
}

/// A layout of one layer that holds no layer has that layer as its order.
pub proof fn one_layer_is_its_order(layers: Seq<LayerV>)
    requires
        layers.len() == 1,
        deps_of(layers[0]) == Seq::<Seq<char>>::empty(),
    ensures
        ordered(layers) == Ok::<Seq<Seq<char>>, Error>(seq![layers[0].name]),
{
    let g = graph_of(layers);
    let none = Seq::<usize>::empty();
    assert(g[0].deps == Seq::<Seq<char>>::empty());
    assert(super::graph::deps_done(g, none, g[0].deps, 0));
    assert(!none.contains(0usize));
    assert(super::graph::ready(g, none, 0));
    assert(super::graph::best(g, none, 0).is_none());
    assert(super::graph::best(g, none, 1) == Some(0usize));
    let one = none.push(0usize);
    assert(super::graph::order_from(g, one) == Ok::<Seq<usize>, Error>(one));
    assert(super::graph::order_from(g, none) == Ok::<Seq<usize>, Error>(one));
    let names = super::graph::names_of(g, one);
    assert(names =~= seq![layers[0].name]);
    assert(names.reverse() =~= seq![layers[0].name]);
}

} // verus!
