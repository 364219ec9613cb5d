//! The cave graph, kept in a graph of the `petgraph` crate.
//!
//! Nodes and edges are only ever added, so a node's index is its place in
//! the order of insertion, and so is an edge's.

use crate::partition::CaveNode;
use petgraph::graph::{EdgeIndex, Graph, NodeIndex};
use petgraph::Undirected;
use vstd::prelude::*;

verus! {

/// What an edge carries.
#[derive(Clone, Copy, Debug, PartialEq, Eq, Structural)]
pub struct CaveEdge {
    pub width: u32,
}

/// `petgraph`'s graph.
#[verifier::external_type_specification]
#[verifier::external_body]
#[verifier::reject_recursive_types(N)]
#[verifier::reject_recursive_types(E)]
#[verifier::reject_recursive_types(Ty)]
#[verifier::reject_recursive_types(Ix)]
pub struct ExGraph<N, E, Ty, Ix>(Graph<N, E, Ty, Ix>);

/// `petgraph`'s marker of undirected edges.
#[verifier::external_type_specification]
#[verifier::external_body]
pub struct ExUndirected(Undirected);

/// The graph of a cave: undirected, with 32-bit indices.
pub type CaveGraph = Graph<CaveNode, CaveEdge, Undirected, u32>;

/// The nodes of a graph, by index.
pub uninterp spec fn graph_nodes(graph: CaveGraph) -> Seq<CaveNode>;

/// The edges of a graph, by index: the indices of the two nodes joined, and
/// what the edge carries.
pub uninterp spec fn graph_edges(graph: CaveGraph) -> Seq<(usize, usize, CaveEdge)>;

/// `Graph::new_undirected` of `petgraph`. Believed of it: the graph has no
/// node and no edge.
#[verifier::external_body]
pub(crate) fn graph_new() -> (graph: CaveGraph)
    ensures
        graph_nodes(graph) == Seq::<CaveNode>::empty(),
        graph_edges(graph) == Seq::<(usize, usize, CaveEdge)>::empty(),
{
    Graph::new_undirected()
}

/// `Graph::add_node` of `petgraph`. Believed of it: the node is added after
/// the others, its index is their number, and the edges stay. It panics
/// where the graph holds as many nodes as its index type can count.
#[verifier::external_body]
pub(crate) fn graph_add_node(graph: &mut CaveGraph, node: CaveNode) -> (index: usize)
    requires
        graph_nodes(*old(graph)).len() < u32::MAX,
    ensures
        graph_nodes(*final(graph)) == graph_nodes(*old(graph)).push(node),
        graph_edges(*final(graph)) == graph_edges(*old(graph)),
        index == graph_nodes(*old(graph)).len(),
{
    graph.add_node(node).index()
}

/// `Graph::add_edge` of `petgraph`. Believed of it: the edge is added after
/// the others and the nodes stay. It panics where a node does not exist and
/// where the graph holds as many edges as its index type can count.
#[verifier::external_body]
pub(crate) fn graph_add_edge(graph: &mut CaveGraph, a: usize, b: usize, edge: CaveEdge)
    requires
        a < graph_nodes(*old(graph)).len(),
        b < graph_nodes(*old(graph)).len(),
        graph_nodes(*old(graph)).len() <= u32::MAX,
        graph_edges(*old(graph)).len() < u32::MAX,
    ensures
        graph_nodes(*final(graph)) == graph_nodes(*old(graph)),
        graph_edges(*final(graph)) == graph_edges(*old(graph)).push((a, b, edge)),
{
    graph.add_edge(NodeIndex::new(a), NodeIndex::new(b), edge);
}

/// `Graph::node_count` of `petgraph`.
#[verifier::external_body]
pub(crate) fn graph_node_count(graph: &CaveGraph) -> (count: usize)
    ensures
        count == graph_nodes(*graph).len(),
{
    graph.node_count()
}

/// `Graph::edge_count` of `petgraph`.
#[verifier::external_body]
pub(crate) fn graph_edge_count(graph: &CaveGraph) -> (count: usize)
    ensures
        count == graph_edges(*graph).len(),
{
    graph.edge_count()
}

/// `Graph::node_weight` of `petgraph`. Believed of it: the node at the
/// index, `None` where there is none. The index must fit the graph's index
/// type, which would cut it short.
#[verifier::external_body]
pub(crate) fn graph_node(graph: &CaveGraph, index: usize) -> (node: Option<CaveNode>)
    requires
        index <= u32::MAX,
    ensures
        index < graph_nodes(*graph).len() ==> node == Some(graph_nodes(*graph)[index as int]),
        index >= graph_nodes(*graph).len() ==> node == None::<CaveNode>,
{
    graph.node_weight(NodeIndex::new(index)).copied()
}

/// `Graph::edge_endpoints` of `petgraph`. Believed of it: the indices of
/// the two nodes that the edge at the index joins, `None` where there is no
/// such edge. The index must fit the graph's index type.
#[verifier::external_body]
pub(crate) fn graph_edge_endpoints(graph: &CaveGraph, index: usize) -> (ends: Option<
    (usize, usize),
>)
    requires
        index <= u32::MAX,
    ensures
        index < graph_edges(*graph).len() ==> ends == Some(
            (graph_edges(*graph)[index as int].0, graph_edges(*graph)[index as int].1),
        ),
        index >= graph_edges(*graph).len() ==> ends == None::<(usize, usize)>,
{
    graph.edge_endpoints(EdgeIndex::new(index)).map(|(a, b)| (a.index(), b.index()))
}

/// `Graph::edge_weight` of `petgraph`. Believed of it: what the edge at the
/// index carries, `None` where there is no such edge. The index must fit the
/// graph's index type.
#[verifier::external_body]
pub(crate) fn graph_edge_weight(graph: &CaveGraph, index: usize) -> (weight: Option<CaveEdge>)
    requires
        index <= u32::MAX,
    ensures
        index < graph_edges(*graph).len() ==> weight == Some(graph_edges(*graph)[index as int].2),
        index >= graph_edges(*graph).len() ==> weight == None::<CaveEdge>,
{
    graph.edge_weight(EdgeIndex::new(index)).copied()
}

} // verus!
