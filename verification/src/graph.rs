//! Directed graphs of lattice points, stored in a `petgraph` graph.
//!
//! Verus sees a `Graph` as an opaque value. Its contents are named by
//! `graph_nodes` and `graph_edges`; the functions below are the only places
//! where the graph itself is touched, and their contracts are taken on trust
//! from the `petgraph` sources.

use petgraph::graph::EdgeIndex;
use petgraph::graph::Graph;
use petgraph::graph::NodeIndex;
use vstd::prelude::*;

verus! {

/// `petgraph::graph::Graph`, a graph kept in two lists: the nodes with
/// their weights, and the edges with their ends.
#[verifier::external_type_specification]
#[verifier::external_body]
#[verifier::reject_recursive_types(N)]
#[verifier::reject_recursive_types(E)]
#[verifier::reject_recursive_types(Ty)]
#[verifier::reject_recursive_types(Ix)]
pub struct ExGraph<N, E, Ty, Ix>(Graph<N, E, Ty, Ix>);

/// `petgraph::Directed`, the mark of a graph whose edges have a direction.
#[verifier::external_type_specification]
#[verifier::external_body]
pub struct ExDirected(petgraph::Directed);

/// The node weights of a graph, in node-index order.
pub uninterp spec fn graph_nodes(g: Graph<(i64, i64), ()>) -> Seq<(i64, i64)>;

/// The edges of a graph as (source index, target index), in edge-index order.
pub uninterp spec fn graph_edges(g: Graph<(i64, i64), ()>) -> Seq<(int, int)>;

/// `Graph::new`: the result has no node and no edge.
#[verifier::external_body]
pub(crate) fn graph_new() -> (g: Graph<(i64, i64), ()>)
    ensures
        graph_nodes(g) == Seq::<(i64, i64)>::empty(),
        graph_edges(g) == Seq::<(int, int)>::empty(),
{
    Graph::new()
}

/// `Graph::node_count`: the length of the node list. A graph whose indices
/// have 32 bits holds no more nodes than such an index counts.
#[verifier::external_body]
pub(crate) fn graph_node_count(g: &Graph<(i64, i64), ()>) -> (n: usize)
    ensures
        n == graph_nodes(*g).len(),
        n <= u32::MAX,
{
    g.node_count()
}

/// `Graph::edge_count`: the length of the edge list, which is no longer
/// than an index of 32 bits counts.
#[verifier::external_body]
pub(crate) fn graph_edge_count(g: &Graph<(i64, i64), ()>) -> (n: usize)
    ensures
        n == graph_edges(*g).len(),
        n <= u32::MAX,
{
    g.edge_count()
}

/// Indexing a `Graph` by the index of an existing node: the weight stored
/// at `index`.
#[verifier::external_body]
pub(crate) fn graph_node_weight(g: &Graph<(i64, i64), ()>, index: usize) -> (weight: (i64, i64))
    requires
        index < graph_nodes(*g).len(),
    ensures
        weight == graph_nodes(*g)[index as int],
{
    g[NodeIndex::new(index)]
}

/// `Graph::edge_endpoints` on an existing edge: its source and target index.
/// A graph only ever stores edges between nodes that exist, so both are
/// indices of nodes.
#[verifier::external_body]
pub(crate) fn graph_edge_endpoints(g: &Graph<(i64, i64), ()>, index: usize) -> (ends: (
    usize,
    usize,
))
    requires
        index < graph_edges(*g).len(),
    ensures
        (ends.0 as int, ends.1 as int) == graph_edges(*g)[index as int],
        ends.0 < graph_nodes(*g).len(),
        ends.1 < graph_nodes(*g).len(),
{
    let (source, target) = g.edge_endpoints(EdgeIndex::new(index)).unwrap();
    (source.index(), target.index())
}

/// `Graph::add_node`: the weight is appended to the node list and its index
/// returned; the edges stay. The call panics once the 32-bit index space is
/// used up, which `requires` leaves out.
#[verifier::external_body]
pub(crate) fn graph_add_node(g: &mut Graph<(i64, i64), ()>, weight: (i64, i64)) -> (index: usize)
    requires
        graph_nodes(*old(g)).len() < u32::MAX,
    ensures
        graph_nodes(*final(g)) == graph_nodes(*old(g)).push(weight),
        graph_edges(*final(g)) == graph_edges(*old(g)),
        index == graph_nodes(*old(g)).len(),
{
    g.add_node(weight).index()
}

/// `Graph::add_edge`: the edge is appended to the edge list, also when an
/// equal edge is already there; the nodes stay. The call panics on a missing
/// node or a full index space, which `requires` leaves out.
#[verifier::external_body]
pub(crate) fn graph_add_edge(g: &mut Graph<(i64, i64), ()>, source: usize, target: usize)
    requires
        source < graph_nodes(*old(g)).len(),
        target < graph_nodes(*old(g)).len(),
        graph_edges(*old(g)).len() < u32::MAX,
    ensures
        graph_nodes(*final(g)) == graph_nodes(*old(g)),
        graph_edges(*final(g)) == graph_edges(*old(g)).push((source as int, target as int)),
{
    g.add_edge(NodeIndex::new(source), NodeIndex::new(target), ());
}

/// `Graph::reverse`: every edge runs the other way; the nodes and the
/// order of the edges stay.
#[verifier::external_body]
pub(crate) fn graph_reverse(g: &mut Graph<(i64, i64), ()>)
    ensures
        graph_nodes(*final(g)) == graph_nodes(*old(g)),
        graph_edges(*final(g)) == Seq::new(
            graph_edges(*old(g)).len(),
            |k: int| (graph_edges(*old(g))[k].1, graph_edges(*old(g))[k].0),
        ),
{
    g.reverse();
}

} // verus!
