//! Directed graphs on numbered nodes, as `petgraph` keeps them.
use petgraph::graph::{DiGraph, NodeIndex};
use petgraph::visit::DfsEvent;
use vstd::prelude::*;

verus! {

/// `petgraph`'s adjacency-list graph.
#[verifier::external_type_specification]
#[verifier::external_body]
#[verifier::reject_recursive_types(N)]
#[verifier::reject_recursive_types(E)]
#[verifier::reject_recursive_types(Ty)]
#[verifier::reject_recursive_types(Ix)]
pub struct ExGraph<N, E, Ty, Ix>(petgraph::graph::Graph<N, E, Ty, Ix>);

/// The marker of `petgraph`'s directed graphs.
#[verifier::external_type_specification]
#[verifier::external_body]
pub struct ExDirected(petgraph::Directed);

/// The weights of a graph's nodes, in the order of their indices.
pub uninterp spec fn graph_nodes(graph: DiGraph<usize, ()>) -> Seq<usize>;

/// A graph's edges, from source to target, in the order in which they were added.
pub uninterp spec fn graph_edges(graph: DiGraph<usize, ()>) -> Seq<(int, int)>;

/// Every edge joins two of `nodes` nodes.
pub open spec fn edges_within(edges: Seq<(int, int)>, nodes: nat) -> bool {
    forall|i: int|
        0 <= i < edges.len() ==> 0 <= (#[trigger] edges[i]).0 < nodes && 0 <= edges[i].1 < nodes
}

/// An edge leads from a place of the path to the next.
pub open spec fn is_step(edges: Seq<(int, int)>, path: Seq<int>, i: int) -> bool {
    edges.contains((path[i], path[i + 1]))
}

/// Each node of the path has an edge to the next.
pub open spec fn is_walk(edges: Seq<(int, int)>, path: Seq<int>) -> bool {
    forall|i: int| 0 <= i < path.len() - 1 ==> #[trigger] is_step(edges, path, i)
}

/// A walk along at least one edge that ends where it began.
pub open spec fn is_cycle(edges: Seq<(int, int)>, path: Seq<int>) -> bool {
    path.len() >= 2 && is_walk(edges, path) && path.first() == path.last()
}

/// Some walk along at least one edge ends where it began.
pub open spec fn has_cycle(edges: Seq<(int, int)>) -> bool {
    exists|path: Seq<int>| is_cycle(edges, path)
}

/// A walk from one node to another; the walk of a single node leads to itself.
pub open spec fn is_path(edges: Seq<(int, int)>, path: Seq<int>, from: int, to: int) -> bool {
    path.len() >= 1 && is_walk(edges, path) && path.first() == from && path.last() == to
}

/// A walk from one node to another along as few edges as possible.
pub open spec fn is_shortest_path(edges: Seq<(int, int)>, path: Seq<int>, from: int, to: int) -> bool {
    is_path(edges, path, from, to) && forall|other: Seq<int>|
        #[trigger] is_path(edges, other, from, to) ==> path.len() <= other.len()
}

/// Some walk leads from one node to another.
pub open spec fn reaches(edges: Seq<(int, int)>, from: int, to: int) -> bool {
    exists|path: Seq<int>| is_path(edges, path, from, to)
}

/// The targets of the edges out of `node`, the edge that was added last first.
pub open spec fn successors_of(edges: Seq<(int, int)>, node: int) -> Seq<int>
    decreases edges.len(),
{
    if edges.len() == 0 {
        Seq::empty()
    } else {
        let earlier = successors_of(edges.drop_last(), node);
        if edges.last().0 == node {
            seq![edges.last().1] + earlier
        } else {
            earlier
        }
    }
}

/// The sources of the edges into `node`, the edge that was added last first.
pub open spec fn predecessors_of(edges: Seq<(int, int)>, node: int) -> Seq<int>
    decreases edges.len(),
{
    if edges.len() == 0 {
        Seq::empty()
    } else {
        let earlier = predecessors_of(edges.drop_last(), node);
        if edges.last().1 == node {
            seq![edges.last().0] + earlier
        } else {
            earlier
        }
    }
}

/// Node numbers as mathematical integers.
pub open spec fn ints(numbers: Seq<usize>) -> Seq<int> {
    numbers.map_values(|number: usize| number as int)
}

/// `successors_of` lists exactly the nodes to which an edge leads.
pub proof fn successors_of_edges(edges: Seq<(int, int)>, node: int, other: int)
    ensures
        successors_of(edges, node).contains(other) <==> edges.contains((node, other)),
    decreases edges.len(),
{
    if edges.len() > 0 {
        let front = edges.drop_last();
        successors_of_edges(front, node, other);
        let earlier = successors_of(front, node);
        assert(edges =~= front.push(edges.last()));
        if edges.contains((node, other)) {
            let i = choose|i: int| 0 <= i < edges.len() && edges[i] == (node, other);
            if i < front.len() {
                assert(front[i] == (node, other));
                let j = choose|j: int| 0 <= j < earlier.len() && earlier[j] == other;
                if edges.last().0 == node {
                    assert(successors_of(edges, node)[j + 1] == other);
                }
            } else {
                assert(successors_of(edges, node)[0] == other);
            }
        }
        if successors_of(edges, node).contains(other) {
            let whole = successors_of(edges, node);
            let j = choose|j: int| 0 <= j < whole.len() && whole[j] == other;
            if edges.last().0 == node {
                if j == 0 {
                    assert(edges[edges.len() - 1] == (node, other));
                } else {
                    assert(earlier[j - 1] == other);
                    let i = choose|i: int| 0 <= i < front.len() && front[i] == (node, other);
                    assert(edges[i] == (node, other));
                }
            } else {
                let i = choose|i: int| 0 <= i < front.len() && front[i] == (node, other);
                assert(edges[i] == (node, other));
            }
        }
    }
}

/// `predecessors_of` lists exactly the nodes from which an edge leads.
pub proof fn predecessors_of_edges(edges: Seq<(int, int)>, node: int, other: int)
    ensures
        predecessors_of(edges, node).contains(other) <==> edges.contains((other, node)),
    decreases edges.len(),
{
    if edges.len() > 0 {
        let front = edges.drop_last();
        predecessors_of_edges(front, node, other);
        let earlier = predecessors_of(front, node);
        assert(edges =~= front.push(edges.last()));
        if edges.contains((other, node)) {
            let i = choose|i: int| 0 <= i < edges.len() && edges[i] == (other, node);
            if i < front.len() {
                assert(front[i] == (other, node));
                let j = choose|j: int| 0 <= j < earlier.len() && earlier[j] == other;
                if edges.last().1 == node {
                    assert(predecessors_of(edges, node)[j + 1] == other);
                }
            } else {
                assert(predecessors_of(edges, node)[0] == other);
            }
        }
        if predecessors_of(edges, node).contains(other) {
            let whole = predecessors_of(edges, node);
            let j = choose|j: int| 0 <= j < whole.len() && whole[j] == other;
            if edges.last().1 == node {
                if j == 0 {
                    assert(edges[edges.len() - 1] == (other, node));
                } else {
                    assert(earlier[j - 1] == other);
                    let i = choose|i: int| 0 <= i < front.len() && front[i] == (other, node);
                    assert(edges[i] == (other, node));
                }
            } else {
                let i = choose|i: int| 0 <= i < front.len() && front[i] == (other, node);
                assert(edges[i] == (other, node));
            }
        }
    }
}

/// `Graph::new` gives a graph without nodes and edges.
#[verifier::external_body]
pub(crate) fn new_graph() -> (graph: DiGraph<usize, ()>)
    ensures
        graph_nodes(graph) == Seq::<usize>::empty(),
        graph_edges(graph) == Seq::<(int, int)>::empty(),
{
    DiGraph::new()
}

/// `Graph::add_node` appends a node with the given weight and returns its
/// index, the number of nodes before. It panics once the 32-bit indices are used up.
#[verifier::external_body]
pub(crate) fn add_node(graph: &mut DiGraph<usize, ()>, weight: usize) -> (node: usize)
    requires
        graph_nodes(*old(graph)).len() < u32::MAX,
    ensures
        node == graph_nodes(*old(graph)).len(),
        graph_nodes(*final(graph)) == graph_nodes(*old(graph)).push(weight),
        graph_edges(*final(graph)) == graph_edges(*old(graph)),
{
    graph.add_node(weight).index()
}

/// `Graph::add_edge` appends an edge between two nodes of the graph, next to
/// any there may be between them. It panics where a node is not in the graph
/// and once the 32-bit indices are used up.
#[verifier::external_body]
pub(crate) fn add_edge(graph: &mut DiGraph<usize, ()>, from: usize, to: usize)
    requires
        from < graph_nodes(*old(graph)).len() <= u32::MAX,
        to < graph_nodes(*old(graph)).len(),
        graph_edges(*old(graph)).len() < u32::MAX,
    ensures
        graph_nodes(*final(graph)) == graph_nodes(*old(graph)),
        graph_edges(*final(graph)) == graph_edges(*old(graph)).push((from as int, to as int)),
{
    graph.add_edge(NodeIndex::new(from), NodeIndex::new(to), ());
}

/// `Graph::neighbors` lists the targets of the edges out of a node of a
/// directed graph in reverse order of their addition.
#[verifier::external_body]
pub(crate) fn successors(graph: &DiGraph<usize, ()>, node: usize) -> (found: Vec<usize>)
    requires
        node < graph_nodes(*graph).len() <= u32::MAX,
    ensures
        ints(found@) == successors_of(graph_edges(*graph), node as int),
{
    graph.neighbors(NodeIndex::new(node)).map(|found| found.index()).collect()
}

/// `Graph::neighbors_directed` towards `Incoming` lists the sources of the
/// edges into a node of a directed graph in reverse order of their addition.
#[verifier::external_body]
pub(crate) fn predecessors(graph: &DiGraph<usize, ()>, node: usize) -> (found: Vec<usize>)
    requires
        node < graph_nodes(*graph).len() <= u32::MAX,
    ensures
        ints(found@) == predecessors_of(graph_edges(*graph), node as int),
{
    graph.neighbors_directed(NodeIndex::new(node), petgraph::Direction::Incoming).map(|found| found.index()).collect()
}

/// Every node once, each before the nodes to which it has an edge.
pub open spec fn is_topological(order: Seq<int>, edges: Seq<(int, int)>, nodes: nat) -> bool {
    &&& order.len() == nodes
    &&& order.no_duplicates()
    &&& forall|i: int| 0 <= i < order.len() ==> 0 <= #[trigger] order[i] < nodes
    &&& forall|i: int, j: int|
        0 <= i < order.len() && 0 <= j < order.len() && edges.contains((#[trigger] order[i], #[trigger] order[j]))
            ==> i < j
}

/// Every node once, each behind the nodes to which it has an edge.
pub open spec fn is_dependency_order(order: Seq<int>, edges: Seq<(int, int)>, nodes: nat) -> bool {
    &&& order.len() == nodes
    &&& order.no_duplicates()
    &&& forall|i: int| 0 <= i < order.len() ==> 0 <= #[trigger] order[i] < nodes
    &&& forall|i: int, j: int|
        0 <= i < order.len() && 0 <= j < order.len() && edges.contains((#[trigger] order[i], #[trigger] order[j]))
            ==> j < i
}

/// `algo::toposort` orders the nodes of an acyclic graph so that each comes
/// before its successors; a graph with a cycle, a self loop too, gets none.
#[verifier::external_body]
pub(crate) fn topological_sort(graph: &DiGraph<usize, ()>) -> (order: Option<Vec<usize>>)
    ensures
        order is None <==> has_cycle(graph_edges(*graph)),
        order matches Some(found) ==> is_topological(
            ints(found@),
            graph_edges(*graph),
            graph_nodes(*graph).len(),
        ),
{
    match petgraph::algo::toposort(graph, None) {
        Ok(order) => Some(order.into_iter().map(|node| node.index()).collect()),
        Err(_) => None,
    }
}

/// `algo::astar` with the same cost for each edge and no estimate finds a walk
/// from one node to another along as few edges as possible, where there is one.
#[verifier::external_body]
pub(crate) fn shortest_path(graph: &DiGraph<usize, ()>, from: usize, to: usize) -> (path: Option<Vec<usize>>)
    requires
        from < graph_nodes(*graph).len() <= u32::MAX,
        to < graph_nodes(*graph).len(),
    ensures
        path is Some <==> reaches(graph_edges(*graph), from as int, to as int),
        path matches Some(found) ==> is_shortest_path(graph_edges(*graph), ints(found@), from as int, to as int),
{
    let goal = NodeIndex::new(to);
    petgraph::algo::astar(graph, NodeIndex::new(from), |node| node == goal, |_| 1u64, |_| 0u64)
        .map(|(_, path)| path.into_iter().map(|node| node.index()).collect())
}

/// One event of a depth-first search.
#[derive(Debug, Clone, Copy, PartialEq, Eq)]
pub enum DfsStep {
    Discover(usize),
    TreeEdge(usize, usize),
    BackEdge(usize, usize),
    CrossForwardEdge(usize, usize),
    Finish(usize),
}

/// The nodes that were discovered and not yet finished, in the order of their discovery.
pub open spec fn open_nodes(steps: Seq<DfsStep>) -> Seq<int>
    decreases steps.len(),
{
    if steps.len() == 0 {
        Seq::empty()
    } else {
        let before = open_nodes(steps.drop_last());
        match steps.last() {
            DfsStep::Discover(node) => before.push(node as int),
            DfsStep::Finish(_) => before.drop_last(),
            _ => before,
        }
    }
}

/// What holds of each event of a depth-first search, given the nodes that are open before it.
pub open spec fn dfs_step_fits(open: Seq<int>, step: DfsStep, edges: Seq<(int, int)>, nodes: nat) -> bool {
    match step {
        DfsStep::Discover(node) => {
            &&& node < nodes
            &&& !open.contains(node as int)
            &&& open.len() > 0 ==> edges.contains((open.last(), node as int))
        },
        DfsStep::TreeEdge(from, to) => {
            &&& open.len() > 0 && open.last() == from
            &&& edges.contains((from as int, to as int))
            &&& !open.contains(to as int)
        },
        DfsStep::BackEdge(from, to) => {
            &&& open.len() > 0 && open.last() == from
            &&& edges.contains((from as int, to as int))
            &&& open.contains(to as int)
        },
        DfsStep::CrossForwardEdge(from, to) => {
            &&& open.len() > 0 && open.last() == from
            &&& edges.contains((from as int, to as int))
            &&& !open.contains(to as int)
        },
        DfsStep::Finish(node) => open.len() > 0 && open.last() == node,
    }
}

/// The event at a place fits what came before it.
pub open spec fn dfs_fits_at(steps: Seq<DfsStep>, i: int, edges: Seq<(int, int)>, nodes: nat) -> bool {
    dfs_step_fits(open_nodes(steps.take(i)), steps[i], edges, nodes)
}

/// Every event fits what came before it.
pub open spec fn is_dfs(steps: Seq<DfsStep>, edges: Seq<(int, int)>, nodes: nat) -> bool {
    forall|i: int| 0 <= i < steps.len() ==> #[trigger] dfs_fits_at(steps, i, edges, nodes)
}

fn record(steps: &mut Vec<DfsStep>, step: DfsStep)
    ensures
        final(steps)@ == old(steps)@.push(step),
{
    steps.push(step);
}

/// `visit::depth_first_search` from every node reports each node's discovery
/// and finish and each edge: a tree edge to a node not yet discovered, a back
/// edge to one that is still open, another edge to one that is finished. A
/// graph has a cycle exactly where some edge is a back edge.
#[verifier::external_body]
pub(crate) fn depth_first_steps(graph: &DiGraph<usize, ()>) -> (steps: Vec<DfsStep>)
    ensures
        is_dfs(steps@, graph_edges(*graph), graph_nodes(*graph).len()),
        (exists|i: int| 0 <= i < steps@.len() && (#[trigger] steps@[i]) is BackEdge) <==> has_cycle(
            graph_edges(*graph),
        ),
{
    let mut steps = Vec::new();
    petgraph::visit::depth_first_search(graph, graph.node_indices(), |event| match event {
        DfsEvent::Discover(node, _) => record(&mut steps, DfsStep::Discover(node.index())),
        DfsEvent::TreeEdge(from, to) => record(&mut steps, DfsStep::TreeEdge(from.index(), to.index())),
        DfsEvent::BackEdge(from, to) => record(&mut steps, DfsStep::BackEdge(from.index(), to.index())),
        DfsEvent::CrossForwardEdge(a, b) => record(&mut steps, DfsStep::CrossForwardEdge(a.index(), b.index())),
        DfsEvent::Finish(node, _) => record(&mut steps, DfsStep::Finish(node.index())),
    });
    steps
}

/// Where every edge leads back to an earlier place of an order, no walk can return to its beginning.
pub proof fn ordered_edges_are_acyclic(edges: Seq<(int, int)>, order: Seq<int>)
    requires
        order.no_duplicates(),
        forall|i: int|
            0 <= i < edges.len() ==> order.contains((#[trigger] edges[i]).0) && order.contains(edges[i].1)
                && order.index_of(edges[i].1) < order.index_of(edges[i].0),
    ensures
        !has_cycle(edges),
{
    if has_cycle(edges) {
        let path = choose|path: Seq<int>| is_cycle(edges, path);
        walk_descends(edges, order, path, 0, path.len() - 1);
    }
}

proof fn walk_descends(edges: Seq<(int, int)>, order: Seq<int>, path: Seq<int>, i: int, j: int)
    requires
        order.no_duplicates(),
        forall|i: int|
            0 <= i < edges.len() ==> order.contains((#[trigger] edges[i]).0) && order.contains(edges[i].1)
                && order.index_of(edges[i].1) < order.index_of(edges[i].0),
        is_walk(edges, path),
        0 <= i < j < path.len(),
    ensures
        order.index_of(path[j]) < order.index_of(path[i]),
    decreases j - i,
{
    assert(is_step(edges, path, i));
    let k = choose|k: int| 0 <= k < edges.len() && edges[k] == (path[i], path[i + 1]);
    assert(order.index_of(edges[k].1) < order.index_of(edges[k].0));
    if i + 1 < j {
        walk_descends(edges, order, path, i + 1, j);
    }
}

} // verus!
