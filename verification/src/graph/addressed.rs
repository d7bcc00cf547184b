//! Graphs whose nodes are found by their addresses.
use petgraph::graph::DiGraph;
use vstd::prelude::*;
use crate::collections::TextMap;
use crate::graph::digraph::{add_edge, add_node, edges_within, graph_edges, graph_nodes, new_graph};
use crate::text::texts;

verus! {

/// The last place at which `item` stands.
pub open spec fn last_position(items: Seq<Seq<char>>, item: Seq<char>) -> Option<int>
    decreases items.len(),
{
    if items.len() == 0 {
        None
    } else if items.last() == item {
        Some(items.len() - 1)
    } else {
        last_position(items.drop_last(), item)
    }
}

/// What `last_position` finds is the last such place, and it finds every item
/// there is.
pub proof fn last_position_found(items: Seq<Seq<char>>, item: Seq<char>)
    ensures
        last_position(items, item) is Some <==> items.contains(item),
        last_position(items, item) matches Some(at) ==> 0 <= at < items.len() && items[at] == item && forall|i: int|
            at < i < items.len() ==> #[trigger] items[i] != item,
    decreases items.len(),
{
    if items.len() > 0 {
        let front = items.drop_last();
        last_position_found(front, item);
        if items.last() == item {
            assert(items[items.len() - 1] == item);
        } else {
            if items.contains(item) {
                let i = choose|i: int| 0 <= i < items.len() && items[i] == item;
                assert(front[i] == item);
            }
            if front.contains(item) {
                let i = choose|i: int| 0 <= i < front.len() && front[i] == item;
                assert(items[i] == item);
            }
            if let Some(at) = last_position(items, item) {
                assert forall|i: int| at < i < items.len() implies #[trigger] items[i] != item by {
                    if i < front.len() {
                        assert(front[i] == items[i]);
                    }
                }
            }
        }
    }
}

/// The index sends each address to the last node that has it.
pub open spec fn index_fits(index: Map<Seq<char>, usize>, addresses: Seq<Seq<char>>) -> bool {
    forall|address: Seq<char>| #![trigger index.contains_key(address)] #![trigger last_position(addresses, address)]
        (index.contains_key(address) <==> last_position(addresses, address) is Some) && (index.contains_key(
            address,
        ) ==> Some(index[address] as int) == last_position(addresses, address))
}

/// The edges between nodes that are linked by address. A link from or to an
/// address that no node has gives no edge.
pub open spec fn linked(addresses: Seq<Seq<char>>, links: Seq<(Seq<char>, Seq<char>)>) -> Seq<(int, int)>
    decreases links.len(),
{
    if links.len() == 0 {
        Seq::empty()
    } else {
        let earlier = linked(addresses, links.drop_last());
        let from = last_position(addresses, links.last().0);
        let to = last_position(addresses, links.last().1);
        if from is Some && to is Some {
            earlier.push((from->0, to->0))
        } else {
            earlier
        }
    }
}

/// A link between nodes is an edge, and each edge comes from such a link.
pub proof fn linked_edges(addresses: Seq<Seq<char>>, links: Seq<(Seq<char>, Seq<char>)>, edge: (int, int))
    ensures
        linked(addresses, links).contains(edge) <==> exists|i: int|
            0 <= i < links.len() && last_position(addresses, (#[trigger] links[i]).0) == Some(edge.0)
                && last_position(addresses, links[i].1) == Some(edge.1),
        linked(addresses, links).len() <= links.len(),
        edges_within(linked(addresses, links), addresses.len()),
    decreases links.len(),
{
    if links.len() > 0 {
        let front = links.drop_last();
        let earlier = linked(addresses, front);
        let all = linked(addresses, links);
        let last = links.last();
        linked_edges(addresses, front, edge);
        last_position_found(addresses, last.0);
        last_position_found(addresses, last.1);
        if all.contains(edge) {
            let i = choose|i: int| 0 <= i < all.len() && all[i] == edge;
            if i < earlier.len() {
                assert(earlier[i] == edge);
                let j = choose|i: int|
                    0 <= i < front.len() && last_position(addresses, (#[trigger] front[i]).0) == Some(edge.0)
                        && last_position(addresses, front[i].1) == Some(edge.1);
                assert(links[j] == front[j]);
            } else {
                assert(links[links.len() - 1] == last);
            }
        }
        if exists|i: int|
            0 <= i < links.len() && last_position(addresses, (#[trigger] links[i]).0) == Some(edge.0)
                && last_position(addresses, links[i].1) == Some(edge.1) {
            let i = choose|i: int|
                0 <= i < links.len() && last_position(addresses, (#[trigger] links[i]).0) == Some(edge.0)
                    && last_position(addresses, links[i].1) == Some(edge.1);
            if i < front.len() {
                assert(front[i] == links[i]);
                let j = choose|j: int| 0 <= j < earlier.len() && earlier[j] == edge;
                assert(all[j] == edge);
            } else {
                assert(all[all.len() - 1] == edge);
            }
        }
    }
}

/// The addresses of nodes.
pub open spec fn addresses_of(addresses: Seq<Seq<char>>, nodes: Seq<int>) -> Seq<Seq<char>> {
    nodes.map_values(|node: int| addresses[node])
}

/// The addresses at both ends of links.
pub open spec fn link_texts(links: Seq<(String, String)>) -> Seq<(Seq<char>, Seq<char>)> {
    links.map_values(|link: (String, String)| (link.0@, link.1@))
}

/// The graph with a node for each address and an edge for each link between
/// them, and the index of its nodes by address.
pub fn addressed_graph(addresses: &Vec<String>, links: &Vec<(String, String)>) -> (built: (
    DiGraph<usize, ()>,
    TextMap<usize>,
))
    requires
        addresses@.len() <= u32::MAX,
        links@.len() <= u32::MAX,
    ensures
        graph_nodes(built.0).len() == addresses@.len(),
        graph_edges(built.0) == linked(texts(addresses@), link_texts(links@)),
        index_fits(built.1@, texts(addresses@)),
{
    let mut graph = new_graph();
    let mut index: TextMap<usize> = TextMap::new();
    let ghost all = texts(addresses@);
    let mut i: usize = 0;
    while i < addresses.len()
        invariant
            addresses@.len() <= u32::MAX,
            i <= addresses@.len(),
            all == texts(addresses@),
            graph_nodes(graph).len() == i,
            graph_edges(graph) == Seq::<(int, int)>::empty(),
            index_fits(index@, all.take(i as int)),
        decreases addresses@.len() - i,
    {
        let node = add_node(&mut graph, i);
        let ghost before = index@;
        index.insert(addresses[i].clone(), node);
        proof {
            let front = all.take(i as int);
            let next = all.take(i + 1);
            assert(next.drop_last() =~= front);
            assert(next.last() == addresses@[i as int]@);
            assert forall|address: Seq<char>|
                (index@.contains_key(address) <==> #[trigger] last_position(next, address) is Some)
                    && (index@.contains_key(address) ==> Some(index@[address] as int) == last_position(
                    next,
                    address,
                )) by {
                assert(before.contains_key(address) <==> last_position(front, address) is Some);
            }
        }
        i += 1;
    }
    assert(all.take(all.len() as int) =~= all);
    let ghost wanted = link_texts(links@);
    let mut j: usize = 0;
    while j < links.len()
        invariant
            addresses@.len() <= u32::MAX,
            links@.len() <= u32::MAX,
            j <= links@.len(),
            all == texts(addresses@),
            wanted == link_texts(links@),
            graph_nodes(graph).len() == addresses@.len(),
            index_fits(index@, all),
            graph_edges(graph) == linked(all, wanted.take(j as int)),
        decreases links@.len() - j,
    {
        proof {
            assert(wanted.take(j + 1).drop_last() =~= wanted.take(j as int));
            assert(wanted.take(j + 1).last() == (links@[j as int].0@, links@[j as int].1@));
            last_position_found(all, links@[j as int].0@);
            last_position_found(all, links@[j as int].1@);
            linked_edges(all, wanted.take(j as int), (0, 0));
        }
        let from = index.get(&links[j].0);
        let to = index.get(&links[j].1);
        if let (Some(from), Some(to)) = (from, to) {
            add_edge(&mut graph, *from, *to);
        }
        j += 1;
    }
    assert(wanted.take(wanted.len() as int) =~= wanted);
    (graph, index)
}

} // verus!
