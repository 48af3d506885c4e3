//! The graph itself: petgraph's `Graph`, with what the library relies on of it.

use vstd::prelude::*;
use crate::state::{Node, NodeView};

verus! {

/// petgraph's `Graph`, a graph kept as two lists, of nodes and of edges.
#[verifier::external_type_specification]
#[verifier::external_body]
#[verifier::reject_recursive_types(N)]
#[verifier::reject_recursive_types(E)]
#[verifier::reject_recursive_types(Ty)]
#[verifier::reject_recursive_types(Ix)]
pub struct ExGraph<N, E, Ty, Ix>(petgraph::graph::Graph<N, E, Ty, Ix>);

/// petgraph's `NodeIndex`, the position of a node in its graph.
#[verifier::external_type_specification]
#[verifier::external_body]
#[verifier::reject_recursive_types(Ix)]
pub struct ExNodeIndex<Ix>(petgraph::graph::NodeIndex<Ix>);

/// petgraph's `Directed`, the marker of graphs whose edges have a direction.
#[verifier::external_type_specification]
#[verifier::external_body]
pub struct ExDirected(petgraph::Directed);

/// The dependency graph: a directed graph whose nodes carry the declarations.
pub type DependencyGraph = petgraph::graph::Graph<
    Node,
    (petgraph::graph::NodeIndex<u32>, petgraph::graph::NodeIndex<u32>),
    petgraph::Directed,
    u32,
>;

/// The node weights of a graph, by node index.
pub uninterp spec fn graph_nodes(g: DependencyGraph) -> Seq<Node>;

/// The endpoints (source, target) of a graph's edges, in the order of their
/// addition. On a graph from which no edge was ever removed, as are all
/// that this library builds, that is also the order of the edge indices.
pub uninterp spec fn graph_edges(g: DependencyGraph) -> Seq<(usize, usize)>;

/// Largest number of nodes, and of edges, that a graph indexed by `u32` can
/// take before an insertion: the index `u32::MAX` itself is reserved.
pub open spec fn capacity() -> nat {
    0xFFFF_FFFF
}

/// `capacity()`, for executable code.
pub const CAPACITY: usize = 0xFFFF_FFFF;

/// Direction of an edge, seen from a node.
#[derive(Debug, Copy, Clone, PartialEq, Eq, Structural)]
pub enum Direction {
    /// Edges that end in the node.
    Incoming,
    /// Edges that start from the node.
    Outgoing,
}

/// The endpoint of `edge` that a node looking in `direction` sits on: the
/// source of its outgoing edges, the target of its incoming ones.
pub open spec fn near_end(edge: (usize, usize), direction: Direction) -> usize {
    match direction {
        Direction::Outgoing => edge.0,
        Direction::Incoming => edge.1,
    }
}

/// The other endpoint.
pub open spec fn far_end(edge: (usize, usize), direction: Direction) -> usize {
    match direction {
        Direction::Outgoing => edge.1,
        Direction::Incoming => edge.0,
    }
}

/// Whether node `a` has an edge in `direction`.
pub open spec fn has_edge(edges: Seq<(usize, usize)>, a: usize, direction: Direction) -> bool {
    exists|k: int| 0 <= k < edges.len() && near_end(#[trigger] edges[k], direction) == a
}

/// The nodes across the edges of `a` in `direction`, the edge added last first.
pub open spec fn neighbors(edges: Seq<(usize, usize)>, a: usize, direction: Direction) -> Seq<
    usize,
> {
    edges.filter(|e: (usize, usize)| near_end(e, direction) == a).map_values(
        |e: (usize, usize)| far_end(e, direction),
    ).reverse()
}

/// The nodes below `n` without an edge in `direction`, in ascending order.
pub open spec fn externals_below(edges: Seq<(usize, usize)>, n: nat, direction: Direction) -> Seq<
    usize,
>
    decreases n,
{
    if n == 0 {
        Seq::empty()
    } else {
        let rest = externals_below(edges, (n - 1) as nat, direction);
        if has_edge(edges, (n - 1) as usize, direction) {
            rest
        } else {
            rest.push((n - 1) as usize)
        }
    }
}

/// The nodes without an edge in `direction` are listed once each, in
/// ascending order, and no other node is.
pub proof fn lemma_externals_below(edges: Seq<(usize, usize)>, n: nat, direction: Direction)
    requires
        n <= capacity(),
    ensures
        forall|i: usize| #[trigger]
            externals_below(edges, n, direction).contains(i) <==> i < n && !has_edge(
                edges,
                i,
                direction,
            ),
        forall|j: int, k: int|
            0 <= j < k < externals_below(edges, n, direction).len() ==> externals_below(
                edges,
                n,
                direction,
            )[j] < externals_below(edges, n, direction)[k],
    decreases n,
{
    let all = externals_below(edges, n, direction);
    if n > 0 {
        let rest = externals_below(edges, (n - 1) as nat, direction);
        let last = (n - 1) as usize;
        lemma_externals_below(edges, (n - 1) as nat, direction);
        assert forall|k: int| 0 <= k < rest.len() implies rest[k] < last by {
            let x = rest[k];
            assert(rest.contains(x));
            assert(x < (n - 1) as nat);
        }
        if has_edge(edges, last, direction) {
            assert(all == rest);
        } else {
            assert(all == rest.push(last));
            assert forall|i: usize| #[trigger] all.contains(i) <==> i < n && !has_edge(
                edges,
                i,
                direction,
            ) by {
                if all.contains(i) {
                    let k = choose|k: int| 0 <= k < all.len() && all[k] == i;
                    if k < rest.len() {
                        assert(rest[k] == i);
                        assert(rest.contains(i));
                    }
                }
                if i < n && !has_edge(edges, i, direction) {
                    if i == last {
                        assert(all[rest.len() as int] == i);
                    } else {
                        assert(rest.contains(i));
                        let k = choose|k: int| 0 <= k < rest.len() && rest[k] == i;
                        assert(all[k] == i);
                    }
                }
            }
        }
    }
}

/// petgraph's `Graph::new`: a directed graph without nodes or edges.
#[verifier::external_body]
pub(crate) fn new_graph() -> (g: DependencyGraph)
    ensures
        graph_nodes(g) == Seq::<Node>::empty(),
        graph_edges(g) == Seq::<(usize, usize)>::empty(),
{
    petgraph::graph::Graph::new()
}

/// petgraph's `Graph::node_count`: the number of nodes, which never passes
/// the capacity, since `Graph::add_node` refuses to go beyond it.
#[verifier::external_body]
pub(crate) fn node_count(g: &DependencyGraph) -> (n: usize)
    ensures
        n == graph_nodes(*g).len(),
        n <= capacity(),
{
    g.node_count()
}

/// petgraph's `Graph::add_node`: appends the node and returns its index;
/// the edges stay. It panics on a graph that is full, which `requires` excludes.
#[verifier::external_body]
pub(crate) fn add_node(g: &mut DependencyGraph, node: Node) -> (index: usize)
    requires
        graph_nodes(*old(g)).len() < capacity(),
    ensures
        graph_nodes(*final(g)) == graph_nodes(*old(g)).push(node),
        graph_edges(*final(g)) == graph_edges(*old(g)),
        index == graph_nodes(*old(g)).len(),
{
    g.add_node(node).index()
}

/// petgraph's `Graph::node_weight`: the weight of the node at `index`, or
/// nothing where the graph has no such node. The index must fit the graph's
/// `u32` index type.
#[verifier::external_body]
pub(crate) fn node_weight(g: &DependencyGraph, index: usize) -> (r: Option<&Node>)
    requires
        index <= capacity(),
    ensures
        index < graph_nodes(*g).len() ==> r == Some(&graph_nodes(*g)[index as int]),
        index >= graph_nodes(*g).len() ==> r is None,
{
    g.node_weight(petgraph::graph::NodeIndex::new(index))
}

/// petgraph's `Graph::edge_count`: the number of edges.
#[verifier::external_body]
pub(crate) fn edge_count(g: &DependencyGraph) -> (n: usize)
    ensures
        n == graph_edges(*g).len(),
{
    g.edge_count()
}

/// petgraph's `Graph::contains_edge`: whether an edge runs from `a` to `b`.
/// The indices must fit the graph's `u32` index type.
#[verifier::external_body]
pub(crate) fn contains_edge(g: &DependencyGraph, a: usize, b: usize) -> (r: bool)
    requires
        a <= capacity(),
        b <= capacity(),
    ensures
        r == graph_edges(*g).contains((a, b)),
{
    g.contains_edge(petgraph::graph::NodeIndex::new(a), petgraph::graph::NodeIndex::new(b))
}

/// petgraph's `Graph::update_edge`: where an edge from `a` to `b` exists only
/// its weight is replaced, otherwise the edge is appended; the nodes stay. It
/// panics on a missing node, or on a full graph that lacks the edge, which
/// `requires` excludes.
#[verifier::external_body]
pub(crate) fn update_edge(g: &mut DependencyGraph, a: usize, b: usize)
    requires
        a < graph_nodes(*old(g)).len(),
        b < graph_nodes(*old(g)).len(),
        graph_nodes(*old(g)).len() <= capacity(),
        graph_edges(*old(g)).contains((a, b)) || graph_edges(*old(g)).len() < capacity(),
    ensures
        graph_nodes(*final(g)) == graph_nodes(*old(g)),
        graph_edges(*final(g)) == if graph_edges(*old(g)).contains((a, b)) {
            graph_edges(*old(g))
        } else {
            graph_edges(*old(g)).push((a, b))
        },
{
    let from = petgraph::graph::NodeIndex::new(a);
    let to = petgraph::graph::NodeIndex::new(b);
    g.update_edge(from, to, (from, to));
}

/// petgraph's `Graph::neighbors_directed`: one node for each edge of `a` in
/// `direction`, in reverse order of the edges' addition, every one a node of
/// the graph. The index must fit the graph's `u32` index type.
#[verifier::external_body]
pub(crate) fn neighbors_directed(g: &DependencyGraph, a: usize, direction: Direction) -> (r: Vec<
    usize,
>)
    requires
        a <= capacity(),
    ensures
        r@ == neighbors(graph_edges(*g), a, direction),
        forall|k: int| 0 <= k < r@.len() ==> #[trigger] r@[k] < graph_nodes(*g).len(),
{
    let dir = match direction {
        Direction::Incoming => petgraph::Direction::Incoming,
        Direction::Outgoing => petgraph::Direction::Outgoing,
    };
    g.neighbors_directed(petgraph::graph::NodeIndex::new(a), dir).map(|n| n.index()).collect()
}

/// petgraph's `Graph::externals`: the nodes without an edge in `direction`,
/// in ascending order of index.
#[verifier::external_body]
pub(crate) fn externals(g: &DependencyGraph, direction: Direction) -> (r: Vec<usize>)
    ensures
        r@ == externals_below(graph_edges(*g), graph_nodes(*g).len(), direction),
{
    let dir = match direction {
        Direction::Incoming => petgraph::Direction::Incoming,
        Direction::Outgoing => petgraph::Direction::Outgoing,
    };
    g.externals(dir).map(|n| n.index()).collect()
}

/// The values of the nodes, by node index.
pub open spec fn node_views(nodes: Seq<Node>) -> Seq<NodeView> {
    nodes.map_values(|n: Node| n@)
}

} // verus!
