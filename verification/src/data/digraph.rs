//! The adjacency form of a graph, held by `petgraph`, and the VF2 test on it.

use vstd::prelude::*;
use petgraph::graph::DiGraph;
use petgraph::graph::NodeIndex;
use petgraph::visit::EdgeRef;
use petgraph::algo::isomorphism::is_isomorphic_matching;

verus! {

/// The adjacency form of a graph: a `petgraph` directed graph whose node
/// attribute is `(label, type)` and whose edge attribute is the edge label.
#[verifier::external_body]
pub struct AdjacencyForm {
    inner: DiGraph<(usize, usize), usize>,
}

/// The node attributes `(label, type)` of an adjacency form, by node index.
pub uninterp spec fn digraph_nodes(g: AdjacencyForm) -> Seq<(usize, usize)>;

/// The edges `(source, target, label)` of an adjacency form, in the order in
/// which they were added.
pub uninterp spec fn digraph_edges(g: AdjacencyForm) -> Seq<(usize, usize, usize)>;

/// `petgraph::graph::Graph::new`: a directed graph without nodes and edges.
#[verifier::external_body]
fn digraph_new() -> (g: AdjacencyForm)
    ensures
        digraph_nodes(g) == Seq::<(usize, usize)>::empty(),
        digraph_edges(g) == Seq::<(usize, usize, usize)>::empty(),
{
    AdjacencyForm { inner: DiGraph::new() }
}

/// `petgraph::graph::Graph::add_node`: the node is appended under the next
/// index, which is returned, and the edges stay. The index type holds fewer than `u32::MAX`
/// nodes; beyond that the call panics.
#[verifier::external_body]
fn digraph_add_node(g: &mut AdjacencyForm, label: usize, vertex_type: usize) -> (idx: usize)
    requires
        digraph_nodes(*old(g)).len() < u32::MAX,
    ensures
        idx == digraph_nodes(*old(g)).len(),
        digraph_nodes(*final(g)) == digraph_nodes(*old(g)).push((label, vertex_type)),
        digraph_edges(*final(g)) == digraph_edges(*old(g)),
{
    g.inner.add_node((label, vertex_type)).index()
}

/// `petgraph::graph::Graph::add_edge`: the edge is appended, parallel edges
/// included, and the nodes stay. The call panics on a node index that does
/// not exist and when `u32::MAX` edges are reached.
#[verifier::external_body]
fn digraph_add_edge(g: &mut AdjacencyForm, from: usize, to: usize, e_label: usize)
    requires
        from < digraph_nodes(*old(g)).len(),
        to < digraph_nodes(*old(g)).len(),
        digraph_edges(*old(g)).len() < u32::MAX,
    ensures
        digraph_nodes(*final(g)) == digraph_nodes(*old(g)),
        digraph_edges(*final(g)) == digraph_edges(*old(g)).push((from, to, e_label)),
{
    g.inner.add_edge(NodeIndex::new(from), NodeIndex::new(to), e_label);
}

/// `petgraph::graph::Graph::node_weights`: the node attributes by index.
#[verifier::external_body]
fn digraph_node_weights(g: &AdjacencyForm) -> (r: Vec<(usize, usize)>)
    ensures
        r@ == digraph_nodes(*g),
{
    g.inner.node_weights().map(|w| (w.0, w.1)).collect()
}

/// `petgraph::graph::Graph::edge_references`: the edges by index, which is
/// the order in which they were added.
#[verifier::external_body]
fn digraph_edge_references(g: &AdjacencyForm) -> (r: Vec<(usize, usize, usize)>)
    ensures
        r@ == digraph_edges(*g),
{
    g.inner.edge_references().map(|e| (e.source().index(), e.target().index(), *e.weight())).collect()
}

/// What the VF2 test of `petgraph` answers for two adjacency forms, the
/// first given by `nodes0` and `edges0`, the second by `nodes1` and `edges1`.
pub uninterp spec fn vf2_isomorphic(
    nodes0: Seq<(usize, usize)>,
    edges0: Seq<(usize, usize, usize)>,
    nodes1: Seq<(usize, usize)>,
    edges1: Seq<(usize, usize, usize)>,
) -> bool;

/// Node attributes match when label and type agree.
pub fn same_node(a: &(usize, usize), b: &(usize, usize)) -> (r: bool)
    ensures
        r == (a.0 == b.0 && a.1 == b.1),
{
    a.0 == b.0 && a.1 == b.1
}

/// Edge attributes match when the labels agree.
pub fn same_edge_label(a: &usize, b: &usize) -> (r: bool)
    ensures
        r == (*a == *b),
{
    *a == *b
}

/// `petgraph::algo::isomorphism::is_isomorphic_matching`, with equality of
/// `(label, type)` on nodes and of the label on edges. The answer depends on
/// the two adjacency forms alone. The search looks for a one-to-one mapping
/// of the nodes under which the checks on both sides pass, so that the
/// answer does not depend on the order of the arguments, an adjacency form
/// passes against an equal one, and forms that pass hold the same node
/// attributes, each as often.
#[verifier::external_body]
fn digraph_is_isomorphic(g0: &AdjacencyForm, g1: &AdjacencyForm) -> (r: bool)
    ensures
        r == vf2_isomorphic(digraph_nodes(*g0), digraph_edges(*g0), digraph_nodes(*g1), digraph_edges(*g1)),
        r == vf2_isomorphic(digraph_nodes(*g1), digraph_edges(*g1), digraph_nodes(*g0), digraph_edges(*g0)),
        digraph_nodes(*g0) == digraph_nodes(*g1) && digraph_edges(*g0) == digraph_edges(*g1) ==> r,
        r ==> digraph_nodes(*g0).to_multiset() == digraph_nodes(*g1).to_multiset(),
{
    is_isomorphic_matching(&g0.inner, &g1.inner, same_node, same_edge_label)
}

impl AdjacencyForm {
    /// Whether the VF2 test finds the two adjacency forms isomorphic.
    pub fn is_isomorphic(&self, other: &AdjacencyForm) -> (r: bool)
        ensures
            r == vf2_isomorphic(self.nodes(), self.edges(), other.nodes(), other.edges()),
            r == vf2_isomorphic(other.nodes(), other.edges(), self.nodes(), self.edges()),
            self.nodes() == other.nodes() && self.edges() == other.edges() ==> r,
            r ==> self.nodes().to_multiset() == other.nodes().to_multiset(),
    {
        digraph_is_isomorphic(self, other)
    }

    pub open spec fn nodes(&self) -> Seq<(usize, usize)> {
        digraph_nodes(*self)
    }

    pub open spec fn edges(&self) -> Seq<(usize, usize, usize)> {
        digraph_edges(*self)
    }

    /// An adjacency form without nodes and edges.
    pub fn new() -> (g: AdjacencyForm)
        ensures
            g.nodes() == Seq::<(usize, usize)>::empty(),
            g.edges() == Seq::<(usize, usize, usize)>::empty(),
    {
        digraph_new()
    }

    /// Appends a node and returns its index.
    pub fn add_node(&mut self, label: usize, vertex_type: usize) -> (idx: usize)
        requires
            old(self).nodes().len() < u32::MAX,
        ensures
            idx == old(self).nodes().len(),
            final(self).nodes() == old(self).nodes().push((label, vertex_type)),
            final(self).edges() == old(self).edges(),
    {
        digraph_add_node(self, label, vertex_type)
    }

    /// Appends an edge between two existing nodes.
    pub fn add_edge(&mut self, from: usize, to: usize, e_label: usize)
        requires
            from < old(self).nodes().len(),
            to < old(self).nodes().len(),
            old(self).edges().len() < u32::MAX,
        ensures
            final(self).nodes() == old(self).nodes(),
            final(self).edges() == old(self).edges().push((from, to, e_label)),
    {
        digraph_add_edge(self, from, to, e_label);
    }

    pub fn node_count(&self) -> (n: usize)
        ensures
            n == self.nodes().len(),
    {
        digraph_node_weights(self).len()
    }

    /// The node attributes `(label, type)`, by node index.
    pub fn node_weights(&self) -> (r: Vec<(usize, usize)>)
        ensures
            r@ == self.nodes(),
    {
        digraph_node_weights(self)
    }

    /// The edges `(source, target, label)`, in the order in which they were
    /// added.
    pub fn edge_list(&self) -> (r: Vec<(usize, usize, usize)>)
        ensures
            r@ == self.edges(),
    {
        digraph_edge_references(self)
    }
}

} // verus!
