//! The dependency graph of a blueprint, held in a petgraph `Graph` whose node
//! indices are plain `usize` values.

use vstd::prelude::*;

verus! {

#[verifier::external_type_specification]
#[verifier::external_body]
#[verifier::reject_recursive_types(N)]
#[verifier::reject_recursive_types(E)]
#[verifier::reject_recursive_types(Ty)]
#[verifier::reject_recursive_types(Ix)]
pub struct ExGraph<N, E, Ty, Ix>(petgraph::graph::Graph<N, E, Ty, Ix>);

#[verifier::external_type_specification]
#[verifier::external_body]
pub struct ExDirected(petgraph::Directed);

/// A directed graph without weights, indexed by `usize`.
pub type DepGraph = petgraph::graph::Graph<(), (), petgraph::Directed, usize>;

/// How many nodes the graph holds; its nodes are `0 .. graph_node_count(g)`.
pub uninterp spec fn graph_node_count(g: DepGraph) -> nat;

/// The directed edges of the graph, as (source, target) pairs.
pub uninterp spec fn graph_edges(g: DepGraph) -> Set<(int, int)>;

/// Relies on `Graph::default` (`with_capacity(0, 0)`): a graph with no nodes and no edges.
#[verifier::external_body]
pub(crate) fn graph_new() -> (g: DepGraph)
    ensures
        graph_node_count(g) == 0,
        graph_edges(g) == Set::<(int, int)>::empty(),
{
    petgraph::graph::Graph::default()
}

/// Relies on `Graph::add_node`: the new node's index is the old node count,
/// and the edges stay as they were. With `usize` indices it does not panic.
#[verifier::external_body]
pub(crate) fn graph_add_node(g: &mut DepGraph) -> (r: usize)
    ensures
        r == graph_node_count(*old(g)),
        graph_node_count(*final(g)) == graph_node_count(*old(g)) + 1,
        graph_edges(*final(g)) == graph_edges(*old(g)),
{
    g.add_node(()).index()
}

/// Relies on `Graph::add_edge`: one more edge from `a` to `b`; it panics only
/// when a node index is out of bounds.
#[verifier::external_body]
pub(crate) fn graph_add_edge(g: &mut DepGraph, a: usize, b: usize)
    requires
        a < graph_node_count(*old(g)),
        b < graph_node_count(*old(g)),
    ensures
        graph_node_count(*final(g)) == graph_node_count(*old(g)),
        graph_edges(*final(g)) == graph_edges(*old(g)).insert((a as int, b as int)),
{
    g.add_edge(petgraph::graph::NodeIndex::new(a), petgraph::graph::NodeIndex::new(b), ());
}

/// Relies on `Graph::contains_edge`: whether an edge from `a` to `b` exists.
#[verifier::external_body]
pub(crate) fn graph_contains_edge(g: &DepGraph, a: usize, b: usize) -> (r: bool)
    ensures
        r == graph_edges(*g).contains((a as int, b as int)),
{
    g.contains_edge(petgraph::graph::NodeIndex::new(a), petgraph::graph::NodeIndex::new(b))
}

/// Relies on `Graph::neighbors_directed` with `Outgoing`: the targets of the
/// edges that leave `a`.
#[verifier::external_body]
pub(crate) fn graph_successors(g: &DepGraph, a: usize) -> (r: Vec<usize>)
    ensures
        forall|b: usize| r@.contains(b) <==> graph_edges(*g).contains((a as int, b as int)),
{
    g.neighbors_directed(petgraph::graph::NodeIndex::new(a), petgraph::Direction::Outgoing)
        .map(|n| n.index())
        .collect()
}

} // verus!
