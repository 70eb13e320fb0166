use petgraph::graph::Graph;
use petgraph::graph::NodeIndex;
use vstd::prelude::*;

verus! {

#[verifier::external_type_specification]
#[verifier::external_body]
#[verifier::reject_recursive_types(N)]
#[verifier::reject_recursive_types(E)]
#[verifier::reject_recursive_types(Ty)]
#[verifier::reject_recursive_types(Ix)]
pub struct ExGraph<N, E, Ty, Ix>(Graph<N, E, Ty, Ix>);

#[verifier::external_type_specification]
#[verifier::external_body]
#[verifier::reject_recursive_types(Ix)]
pub struct ExNodeIndex<Ix>(NodeIndex<Ix>);

#[verifier::external_type_specification]
#[verifier::external_body]
pub struct ExDirected(petgraph::Directed);

/// The graph form in which the solver records creature states and
/// moves: node weights are plain state numbers, edge weights plain
/// costs.
pub type MoveGraph = Graph<u64, i64>;

/// The node weights of a graph, in insertion order.
pub uninterp spec fn graph_nodes(g: MoveGraph) -> Seq<u64>;

/// The directed edges of a graph, keyed by the integer values of their
/// source and target node indices, each carrying its weight.
pub uninterp spec fn graph_edges(g: MoveGraph) -> Map<(int, int), int>;

/// The plain integer value inside a node index.
pub uninterp spec fn node_id(i: NodeIndex<u32>) -> int;

/// Relies on petgraph's Graph::new: the new graph holds no nodes and
/// no edges.
#[verifier::external_body]
pub(crate) fn graph_new() -> (r: MoveGraph)
    ensures
        graph_nodes(r).len() == 0,
        graph_edges(r) =~= Map::empty(),
{
    Graph::new()
}

/// Relies on petgraph's Graph::add_node: it appends one node with the
/// given weight and returns its index, whose value is the node count
/// before the call. It panics only when the graph is at the maximum
/// node count of its index type, which the bound rules out.
#[verifier::external_body]
pub(crate) fn graph_add_node(g: &mut MoveGraph, w: u64) -> (i: NodeIndex<u32>)
    requires
        graph_nodes(*old(g)).len() < 0xffff_ffff,
    ensures
        graph_nodes(*final(g)) == graph_nodes(*old(g)).push(w),
        graph_edges(*final(g)) == graph_edges(*old(g)),
        node_id(i) == graph_nodes(*old(g)).len(),
{
    g.add_node(w)
}

/// Relies on petgraph's Graph::update_edge: it adds the directed edge
/// from `a` to `b` or, if present, updates its weight. It panics only
/// on a node index out of bounds or at the maximum edge count of its
/// index type, which the bounds rule out: update_edge stores no
/// parallel edges, so a graph built through these wrappers holds one
/// stored edge per recorded pair.
#[verifier::external_body]
pub(crate) fn graph_update_edge(
    g: &mut MoveGraph,
    a: NodeIndex<u32>,
    b: NodeIndex<u32>,
    w: i64,
)
    requires
        0 <= node_id(a) < graph_nodes(*old(g)).len(),
        0 <= node_id(b) < graph_nodes(*old(g)).len(),
        graph_edges(*old(g)).dom().len() < 0xffff_ffff,
    ensures
        graph_nodes(*final(g)) == graph_nodes(*old(g)),
        graph_edges(*final(g)) == graph_edges(*old(g)).insert(
            (node_id(a), node_id(b)),
            w as int,
        ),
{
    g.update_edge(a, b, w);
}

/// Relies on petgraph's NodeIndex::index: the plain integer value of
/// the index.
#[verifier::external_body]
pub(crate) fn node_index_value(i: NodeIndex<u32>) -> (r: usize)
    ensures
        r as int == node_id(i),
{
    i.index()
}

/// A walk through a directed edge set, written as the node id of every
/// visited node: it starts at `s`, ends at `t`, and each consecutive
/// pair is joined by an edge.
pub open spec fn is_id_path(edges: Set<(int, int)>, q: Seq<int>, s: int, t: int) -> bool {
    &&& q.len() >= 1
    &&& q[0] == s
    &&& q[q.len() - 1] == t
    &&& forall|k: int| 0 <= k < q.len() - 1 ==> edges.contains((#[trigger] q[k], q[k + 1]))
}

/// Whether every edge of the map carries weight one.
pub open spec fn uniform_unit_weights(edges: Map<(int, int), int>) -> bool {
    forall|p: (int, int)| edges.dom().contains(p) ==> edges[p] == 1
}

/// Relies on petgraph's astar with the zero heuristic, under which it
/// computes a minimum-cost path. Its documentation requires
/// non-negative edge costs, and with negative ones the search can
/// re-expand nodes forever, so this wrapper demands the unit weights
/// the solver stores. A result holds the visited nodes from `start`
/// to `goal` inclusive, joined by edges, and no walk between the two
/// nodes visits fewer nodes. A `None` says the goal node is
/// unreachable: no walk joins the two nodes at all.
#[verifier::external_body]
pub(crate) fn graph_astar(
    g: &MoveGraph,
    start: NodeIndex<u32>,
    goal: NodeIndex<u32>,
) -> (r: Option<Vec<NodeIndex<u32>>>)
    requires
        0 <= node_id(start) < graph_nodes(*g).len(),
        0 <= node_id(goal) < graph_nodes(*g).len(),
        uniform_unit_weights(graph_edges(*g)),
    ensures
        match r {
            Some(p) => {
                &&& p@.len() >= 1
                &&& node_id(p@[0]) == node_id(start)
                &&& node_id(p@[p@.len() - 1]) == node_id(goal)
                &&& forall|k: int|
                    0 <= k < p@.len() - 1 ==> graph_edges(*g).dom().contains(
                        (node_id(#[trigger] p@[k]), node_id(p@[k + 1])),
                    )
                &&& forall|q: Seq<int>|
                    is_id_path(graph_edges(*g).dom(), q, node_id(start), node_id(goal))
                        ==> q.len() >= p@.len()
            },
            None => forall|q: Seq<int>|
                !is_id_path(graph_edges(*g).dom(), q, node_id(start), node_id(goal)),
        },
{
    match petgraph::algo::astar(g, start, |n| n == goal, |e| *e.weight(), |_| 0i64) {
        Some((_, p)) => Some(p),
        None => None,
    }
}

} // verus!
