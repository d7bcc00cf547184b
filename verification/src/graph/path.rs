//! Path finding between projects in the dependency graph
//!
//! Finds the shortest dependency path between two projects.
use vstd::prelude::*;
use crate::graph::addressed::addresses_of;
use crate::graph::builder::ProjectGraph;
use crate::graph::digraph::{ints, is_path, is_shortest_path, is_step, reaches, shortest_path};
use crate::text::{join_texts, joined, texts};

verus! {

/// Every node of a walk along edges is a node of the graph, once its first is.
pub proof fn path_nodes_exist(edges: Seq<(int, int)>, nodes: nat, path: Seq<int>, from: int, to: int)
    requires
        crate::graph::digraph::edges_within(edges, nodes),
        is_path(edges, path, from, to),
        0 <= from < nodes,
    ensures
        forall|i: int| 0 <= i < path.len() ==> 0 <= #[trigger] path[i] < nodes,
{
    assert forall|i: int| 0 <= i < path.len() implies 0 <= #[trigger] path[i] < nodes by {
        if i > 0 {
            assert(is_step(edges, path, i - 1));
            let k = choose|k: int| 0 <= k < edges.len() && edges[k] == (path[i - 1], path[i]);
            assert(0 <= edges[k].1 < nodes);
        }
    }
}

/// Find the shortest dependency path between two projects
///
/// Returns None if no path exists or if either project is not found.
/// Returns Some(path) where path is a vector of project addresses from `from` to `to`.
pub fn find_path(graph: &ProjectGraph, from: &str, to: &str) -> (path: Option<Vec<String>>)
    requires
        graph.well_formed(),
    ensures
        path is Some <==> graph.node_at(from@) is Some && graph.node_at(to@) is Some && reaches(
            graph.edges(),
            graph.node_at(from@)->0,
            graph.node_at(to@)->0,
        ),
        path matches Some(addresses) ==> exists|nodes: Seq<int>| #[trigger]
            is_shortest_path(graph.edges(), nodes, graph.node_at(from@)->0, graph.node_at(to@)->0) && texts(addresses@)
                == addresses_of(graph.addresses(), nodes),
{
    let start = match graph.find(from) {
        Some(start) => start,
        None => return None,
    };
    let end = match graph.find(to) {
        Some(end) => end,
        None => return None,
    };
    match shortest_path(&graph.graph, start, end) {
        None => None,
        Some(nodes) => {
            proof {
                path_nodes_exist(graph.edges(), graph.nodes@.len(), ints(nodes@), start as int, end as int);
            }
            let mut addresses: Vec<String> = Vec::new();
            let mut i: usize = 0;
            while i < nodes.len()
                invariant
                    i <= nodes@.len(),
                    addresses@.len() == i,
                    forall|k: int| 0 <= k < ints(nodes@).len() ==> 0 <= #[trigger] ints(nodes@)[k] < graph.nodes@.len(),
                    forall|k: int| 0 <= k < i ==> (#[trigger] addresses@[k])@ == graph.addresses()[nodes@[k] as int],
                decreases nodes@.len() - i,
            {
                assert(ints(nodes@)[i as int] == nodes@[i as int]);
                addresses.push(graph.nodes[nodes[i]].address.clone());
                i += 1;
            }
            assert(texts(addresses@) =~= addresses_of(graph.addresses(), ints(nodes@)));
            assert(is_shortest_path(graph.edges(), ints(nodes@), graph.node_at(from@)->0, graph.node_at(to@)->0));
            Some(addresses)
        },
    }
}

/// Format a dependency path as a human-readable string
///
/// Example: ["//a", "//b", "//c"] -> "//a -> //b -> //c"
pub fn format_path(path: &Vec<String>) -> (text: String)
    ensures
        text@ == joined(texts(path@), " -> "@),
{
    join_texts(path, " -> ")
}

} // verus!
