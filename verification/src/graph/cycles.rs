//! Cycle detection for dependency graphs
//!
//! Detects cycles and returns the exact cycle path for clear error reporting.
use vstd::prelude::*;
use vstd::set_lib::set_int_range;
use crate::graph::addressed::addresses_of;
use crate::graph::builder::ProjectGraph;
use crate::graph::digraph::{
    has_cycle, ints, is_cycle, is_step, is_walk, ordered_edges_are_acyclic, successors, successors_of,
    successors_of_edges,
};
use crate::text::{concat2, join_texts, joined, texts};

verus! {

/// Error returned when a dependency cycle is detected
#[derive(Debug, Clone)]
pub struct CycleError {
    /// The cycle path: ["//a", "//b", "//c", "//a"]
    pub path: Vec<String>,
}

impl CycleError {
    /// The message: the path with arrows between its addresses.
    pub fn to_string(&self) -> (message: String)
        ensures
            message@ == "Dependency cycle detected: "@ + joined(texts(self.path@), " -> "@),
    {
        concat2("Dependency cycle detected: ", &join_texts(&self.path, " -> "))
    }
}

/// A cycle that meets no node twice but where it closes.
pub open spec fn is_simple_cycle(edges: Seq<(int, int)>, cycle: Seq<int>) -> bool {
    is_cycle(edges, cycle) && cycle.drop_last().no_duplicates()
}

/// How far a depth-first search has come: the nodes on its path, and those
/// that it has left for good, in the order in which it left them.
struct Search {
    visited: Vec<bool>,
    path: Vec<usize>,
    left: Ghost<Seq<int>>,
}

impl Search {
    /// A node is marked when it is on the path or was left; the path is a walk
    /// without repetition; a node that was left has edges to nodes left before it only.
    spec fn fits(&self, graph: &ProjectGraph) -> bool {
        &&& graph.well_formed()
        &&& self.visited@.len() == graph.nodes@.len()
        &&& (ints(self.path@) + self.left@).no_duplicates()
        &&& forall|i: int| 0 <= i < self.path@.len() ==> (#[trigger] self.path@[i]) < graph.nodes@.len()
        &&& forall|i: int| 0 <= i < self.left@.len() ==> 0 <= (#[trigger] self.left@[i]) < graph.nodes@.len()
        &&& forall|node: int|
            0 <= node < graph.nodes@.len() ==> (#[trigger] self.visited@[node] <==> ints(self.path@).contains(node)
                || self.left@.contains(node))
        &&& is_walk(graph.edges(), ints(self.path@))
        &&& settled(graph.edges(), self.left@)
    }
}

/// Each node of the order has edges to earlier nodes of the order only.
spec fn settled(edges: Seq<(int, int)>, order: Seq<int>) -> bool {
    forall|i: int, other: int|
        0 <= i < order.len() && #[trigger] edges.contains((order[i], other)) ==> order.take(i).contains(other)
}

proof fn distinct_nodes_fit(nodes: Seq<int>, count: nat)
    requires
        nodes.no_duplicates(),
        forall|i: int| 0 <= i < nodes.len() ==> 0 <= #[trigger] nodes[i] < count,
    ensures
        nodes.len() <= count,
{
    nodes.unique_seq_to_set();
    vstd::set_lib::lemma_int_range(0, count as int);
    assert(nodes.to_set().subset_of(set_int_range(0, count as int)));
    vstd::set_lib::lemma_len_subset(nodes.to_set(), set_int_range(0, count as int));
}

/// The nodes on the path and those that were left are different nodes of the graph.
proof fn search_is_bounded(search: Search, graph: &ProjectGraph)
    requires
        search.fits(graph),
    ensures
        search.path@.len() + search.left@.len() <= graph.nodes@.len(),
{
    let all = ints(search.path@) + search.left@;
    assert forall|i: int| 0 <= i < all.len() implies 0 <= #[trigger] all[i] < graph.nodes@.len() by {
        if i < search.path@.len() {
            assert(all[i] == search.path@[i]);
        } else {
            assert(all[i] == search.left@[i - search.path@.len()]);
        }
    }
    distinct_nodes_fit(all, graph.nodes@.len());
}

impl Search {
    fn enter(&mut self, graph: &ProjectGraph, node: usize)
        requires
            old(self).fits(graph),
            node < graph.nodes@.len(),
            !old(self).visited@[node as int],
            old(self).path@.len() > 0 ==> graph.edges().contains((old(self).path@.last() as int, node as int)),
        ensures
            final(self).fits(graph),
            final(self).path@ == old(self).path@.push(node),
            final(self).left@ == old(self).left@,
    {
        let ghost edges = graph.edges();
        let ghost before = ints(self.path@);
        let ghost left = self.left@;
        self.visited.set(node, true);
        self.path.push(node);
        proof {
            let path = ints(self.path@);
            assert(path =~= before.push(node as int));
            assert(!(before.contains(node as int) || left.contains(node as int)));
            let all = before + left;
            let now = path + left;
            let n = before.len() as int;
            assert forall|i: int, j: int| 0 <= i < now.len() && 0 <= j < now.len() && i != j implies now[i]
                != now[j] by {
                let a = if i < n { i } else { i - 1 };
                let b = if j < n { j } else { j - 1 };
                if i != n {
                    assert(now[i] == all[a]);
                    if a < n {
                        assert(before.contains(before[a]));
                    } else {
                        assert(left.contains(left[a - n]));
                    }
                }
                if j != n {
                    assert(now[j] == all[b]);
                    if b < n {
                        assert(before.contains(before[b]));
                    } else {
                        assert(left.contains(left[b - n]));
                    }
                }
            }
            assert forall|other: int| 0 <= other < graph.nodes@.len() implies (#[trigger] self.visited@[other]
                <==> path.contains(other) || left.contains(other)) by {
                assert(old(self).visited@[other] <==> before.contains(other) || left.contains(other));
                if path.contains(other) {
                    let i = choose|i: int| 0 <= i < path.len() && path[i] == other;
                    if i < n {
                        assert(before[i] == other);
                    }
                }
                if before.contains(other) {
                    let i = choose|i: int| 0 <= i < before.len() && before[i] == other;
                    assert(path[i] == other);
                }
                assert(path[n] == node);
            }
            assert forall|i: int| 0 <= i < path.len() - 1 implies #[trigger] is_step(edges, path, i) by {
                if i < n - 1 {
                    assert(is_step(edges, before, i));
                } else {
                    assert(path[i] == old(self).path@.last());
                }
            }
        }
    }

    fn leave(&mut self, graph: &ProjectGraph)
        requires
            old(self).fits(graph),
            old(self).path@.len() > 0,
            forall|other: int|
                graph.edges().contains((old(self).path@.last() as int, other)) ==> #[trigger] old(self).left@.contains(
                    other,
                ),
        ensures
            final(self).fits(graph),
            final(self).path@ == old(self).path@.drop_last(),
            final(self).left@ == old(self).left@.push(old(self).path@.last() as int),
    {
        let ghost edges = graph.edges();
        let ghost path = ints(self.path@);
        let ghost left = self.left@;
        let ghost node = self.path@.last() as int;
        self.path.pop();
        self.left = Ghost(self.left@.push(node));
        proof {
            let rest = ints(self.path@);
            let now = self.left@;
            let n = rest.len() as int;
            assert(rest =~= path.drop_last());
            let all = path + left;
            let next = rest + now;
            assert forall|a: int, b: int| 0 <= a < next.len() && 0 <= b < next.len() && a != b implies next[a]
                != next[b] by {
                let x = if a < n { a } else if a == next.len() - 1 { n } else { a + 1 };
                let y = if b < n { b } else if b == next.len() - 1 { n } else { b + 1 };
                assert(next[a] == all[x]);
                assert(next[b] == all[y]);
            }
            assert forall|other: int| 0 <= other < graph.nodes@.len() implies (#[trigger] self.visited@[other]
                <==> rest.contains(other) || now.contains(other)) by {
                assert(old(self).visited@[other] <==> path.contains(other) || left.contains(other));
                if path.contains(other) {
                    let k = choose|k: int| 0 <= k < path.len() && path[k] == other;
                    if k < n {
                        assert(rest[k] == other);
                    } else {
                        assert(now[left.len() as int] == other);
                    }
                }
                if left.contains(other) {
                    let k = choose|k: int| 0 <= k < left.len() && left[k] == other;
                    assert(now[k] == other);
                }
                if rest.contains(other) {
                    let k = choose|k: int| 0 <= k < rest.len() && rest[k] == other;
                    assert(path[k] == other);
                }
                if now.contains(other) {
                    let k = choose|k: int| 0 <= k < now.len() && now[k] == other;
                    if k < left.len() {
                        assert(left[k] == other);
                    } else {
                        assert(path[n] == other);
                    }
                }
            }
            assert forall|k: int| 0 <= k < rest.len() - 1 implies #[trigger] is_step(edges, rest, k) by {
                assert(is_step(edges, path, k));
            }
            assert forall|k: int, other: int|
                0 <= k < now.len() && #[trigger] edges.contains((now[k], other)) implies now.take(k).contains(
                other,
            ) by {
                if k < left.len() {
                    assert(now[k] == left[k]);
                    assert(now.take(k) =~= left.take(k));
                } else {
                    assert(left.contains(other));
                    assert(now.take(k) =~= left);
                }
            }
            assert forall|k: int| 0 <= k < now.len() implies 0 <= (#[trigger] now[k]) < graph.nodes@.len() by {
                if k < left.len() {
                    assert(now[k] == left[k]);
                } else {
                    assert(now[k] == old(self).path@[n]);
                }
            }
        }
    }

    fn close(&self, graph: &ProjectGraph, start: usize) -> (cycle: Vec<usize>)
        requires
            self.fits(graph),
            start < self.path@.len(),
            graph.edges().contains((self.path@.last() as int, self.path@[start as int] as int)),
        ensures
            is_simple_cycle(graph.edges(), ints(cycle@)),
            forall|i: int| 0 <= i < cycle@.len() ==> (#[trigger] cycle@[i]) < graph.nodes@.len(),
    {
        let ghost edges = graph.edges();
        let ghost path = ints(self.path@);
        let mut cycle: Vec<usize> = Vec::new();
        let mut k: usize = start;
        while k < self.path.len()
            invariant
                start <= k <= self.path@.len(),
                cycle@ == self.path@.subrange(start as int, k as int),
            decreases self.path@.len() - k,
        {
            cycle.push(self.path[k]);
            k += 1;
        }
        cycle.push(self.path[start]);
        proof {
            let closed = ints(cycle@);
            assert forall|p: int| 0 <= p < closed.len() - 1 implies #[trigger] is_step(edges, closed, p) by {
                assert(closed[p] == path[start + p]);
                if p + 1 < closed.len() - 1 {
                    assert(closed[p + 1] == path[start + p + 1]);
                    assert(is_step(edges, path, start + p));
                } else {
                    assert(path[start + p] == self.path@.last());
                }
            }
            let all = path + self.left@;
            assert forall|a: int, b: int|
                0 <= a < closed.len() - 1 && 0 <= b < closed.len() - 1 && a != b implies closed[a] != closed[b] by {
                assert(closed[a] == all[start + a]);
                assert(closed[b] == all[start + b]);
            }
            assert(closed.drop_last().no_duplicates());
        }
        cycle
    }

    fn place_on_path(&self, node: usize) -> (place: Option<usize>)
        ensures
            place matches Some(at) ==> at < self.path@.len() && self.path@[at as int] == node,
            place is None ==> !ints(self.path@).contains(node as int),
    {
        let mut at: usize = 0;
        while at < self.path.len()
            invariant
                at <= self.path@.len(),
                forall|k: int| 0 <= k < at ==> self.path@[k] != node,
            decreases self.path@.len() - at,
        {
            if self.path[at] == node {
                return Some(at);
            }
            at += 1;
        }
        proof {
            if ints(self.path@).contains(node as int) {
                let p = choose|p: int| 0 <= p < ints(self.path@).len() && ints(self.path@)[p] == node;
                assert(self.path@[p] == node);
            }
        }
        None
    }
}

/// Every node of one order is in the other.
spec fn keeps(before: Seq<int>, after: Seq<int>) -> bool {
    before.len() <= after.len() && forall|node: int| #[trigger] before.contains(node) ==> after.contains(node)
}

/// DFS helper that tracks the recursion path for cycle extraction
fn dfs_cycle(graph: &ProjectGraph, node: usize, search: &mut Search) -> (cycle: Option<Vec<usize>>)
    requires
        old(search).fits(graph),
        node < graph.nodes@.len(),
        !old(search).visited@[node as int],
        old(search).path@.len() > 0 ==> graph.edges().contains((old(search).path@.last() as int, node as int)),
    ensures
        cycle matches Some(found) ==> is_simple_cycle(graph.edges(), ints(found@)) && forall|i: int|
            0 <= i < found@.len() ==> (#[trigger] found@[i]) < graph.nodes@.len(),
        cycle is None ==> {
            &&& final(search).fits(graph)
            &&& final(search).path@ == old(search).path@
            &&& final(search).left@.contains(node as int)
            &&& keeps(old(search).left@, final(search).left@)
        },
    decreases graph.nodes@.len() - old(search).path@.len() - old(search).left@.len(),
{
    let ghost edges = graph.edges();
    let ghost before = search.path@;
    search.enter(graph, node);
    proof {
        search_is_bounded(*search, graph);
    }
    let found = successors(&graph.graph, node);
    let ghost places = successors_of(edges, node as int);
    let mut i: usize = 0;
    while i < found.len()
        invariant
            search.fits(graph),
            edges == graph.edges(),
            node < graph.nodes@.len(),
            i <= found@.len(),
            places == successors_of(edges, node as int),
            ints(found@) == places,
            before == old(search).path@,
            search.path@ == before.push(node),
            keeps(old(search).left@, search.left@),
            forall|k: int| 0 <= k < i ==> search.left@.contains(#[trigger] places[k]),
        decreases found@.len() - i,
    {
        let neighbor = found[i];
        proof {
            assert(places[i as int] == neighbor);
            assert(places.contains(neighbor as int));
            successors_of_edges(edges, node as int, neighbor as int);
            search_is_bounded(*search, graph);
        }
        if !search.visited[neighbor] {
            let inner = dfs_cycle(graph, neighbor, search);
            if inner.is_some() {
                return inner;
            }
        } else {
            match search.place_on_path(neighbor) {
                Some(start) => {
                    return Some(search.close(graph, start));
                },
                None => {
                    assert(search.visited@[neighbor as int]);
                },
            }
        }
        i += 1;
    }
    proof {
        assert forall|other: int| edges.contains((node as int, other)) implies #[trigger] search.left@.contains(
            other,
        ) by {
            successors_of_edges(edges, node as int, other);
            let p = choose|p: int| 0 <= p < places.len() && places[p] == other;
            assert(search.left@.contains(places[p]));
        }
    }
    let ghost left = search.left@;
    search.leave(graph);
    proof {
        let now = search.left@;
        assert(search.path@ =~= before);
        assert(now[left.len() as int] == node);
        assert forall|other: int| #[trigger] old(search).left@.contains(other) implies now.contains(other) by {
            let k = choose|k: int| 0 <= k < left.len() && left[k] == other;
            assert(now[k] == other);
        }
    }
    None
}

/// Detect cycles in the project graph and return the exact path if found
///
/// Uses DFS with a recursion stack to detect back-edges. When a cycle is found,
/// extracts the exact cycle path from the recursion stack.
pub fn find_cycle(graph: &ProjectGraph) -> (error: Option<CycleError>)
    requires
        graph.well_formed(),
    ensures
        error is Some <==> has_cycle(graph.edges()),
        error matches Some(found) ==> exists|cycle: Seq<int>| #![auto]
            is_simple_cycle(graph.edges(), cycle) && texts(found.path@) == addresses_of(graph.addresses(), cycle),
{
    let count: usize = graph.nodes.len();
    let mut visited: Vec<bool> = Vec::new();
    let mut n: usize = 0;
    while n < count
        invariant
            n <= count,
            visited@.len() == n,
            forall|k: int| 0 <= k < n ==> !(#[trigger] visited@[k]),
        decreases count - n,
    {
        visited.push(false);
        n += 1;
    }
    let mut search = Search { visited, path: Vec::new(), left: Ghost(Seq::empty()) };
    assert(ints(search.path@) + search.left@ =~= Seq::<int>::empty());
    let mut node: usize = 0;
    while node < count
        invariant
            node <= count,
            count == graph.nodes@.len(),
            search.fits(graph),
            search.path@.len() == 0,
            forall|k: int| 0 <= k < node ==> #[trigger] search.left@.contains(k),
        decreases count - node,
    {
        let ghost before = search.left@;
        if !search.visited[node] {
            if let Some(cycle) = dfs_cycle(graph, node, &mut search) {
                let mut path: Vec<String> = Vec::new();
                let mut i: usize = 0;
                while i < cycle.len()
                    invariant
                        i <= cycle@.len(),
                        path@.len() == i,
                        forall|k: int| 0 <= k < cycle@.len() ==> (#[trigger] cycle@[k]) < graph.nodes@.len(),
                        forall|k: int| 0 <= k < i ==> (#[trigger] path@[k])@ == graph.addresses()[cycle@[k] as int],
                    decreases cycle@.len() - i,
                {
                    path.push(graph.nodes[cycle[i]].address.clone());
                    i += 1;
                }
                proof {
                    assert(texts(path@) =~= addresses_of(graph.addresses(), ints(cycle@)));
                }
                return Some(CycleError { path });
            }
            proof {
                assert forall|k: int| 0 <= k < node + 1 implies #[trigger] search.left@.contains(k) by {
                    if k < node {
                        assert(before.contains(k));
                    }
                }
            }
        } else {
            assert(search.left@.contains(node as int)) by {
                assert(search.visited@[node as int]);
                assert(ints(search.path@).len() == 0);
            }
        }
        node += 1;
    }
    proof {
        let edges = graph.edges();
        let order = search.left@;
        assert(order.no_duplicates()) by {
            assert(ints(search.path@) + order =~= order);
        }
        assert forall|i: int| 0 <= i < edges.len() implies order.contains((#[trigger] edges[i]).0) && order.contains(
            edges[i].1,
        ) && order.index_of(edges[i].1) < order.index_of(edges[i].0) by {
            let (from, to) = edges[i];
            assert(order.contains(from));
            assert(order.contains(to));
            let p = order.index_of(from);
            assert(edges.contains((order[p], to)));
            assert(order.take(p).contains(to));
            let q = choose|q: int| 0 <= q < order.take(p).len() && order.take(p)[q] == to;
            assert(order[q] == to);
            assert(order.index_of(to) == q);
        }
        ordered_edges_are_acyclic(edges, order);
    }
    None
}

} // verus!
