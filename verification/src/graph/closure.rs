//! What can be reached in a graph of projects or targets.
use vstd::prelude::*;
use crate::collections::TextSet;
use crate::graph::addressed::{addresses_of, last_position};
use crate::graph::builder::ProjectGraph;
use crate::graph::digraph::{edges_within, predecessors_of, predecessors_of_edges, successors_of, successors_of_edges};
use crate::graph::targets::TargetGraph;
use crate::text::texts;

verus! {

/// Which way the edges of the graph are followed.
#[derive(Debug, Clone, Copy, PartialEq, Eq)]
pub enum Direction {
    /// From a node to what it depends on
    Dependencies,
    /// From a node to what depends on it
    Dependents,
}

/// The nodes next to a node.
pub open spec fn next_nodes(edges: Seq<(int, int)>, direction: Direction, node: int) -> Seq<int> {
    match direction {
        Direction::Dependencies => successors_of(edges, node),
        Direction::Dependents => predecessors_of(edges, node),
    }
}

proof fn next_nodes_are_nodes(edges: Seq<(int, int)>, count: nat, direction: Direction, node: int, other: int)
    requires
        edges_within(edges, count),
        next_nodes(edges, direction, node).contains(other),
    ensures
        0 <= other < count,
{
    match direction {
        Direction::Dependencies => successors_of_edges(edges, node, other),
        Direction::Dependents => predecessors_of_edges(edges, node, other),
    }
}

/// A graph whose nodes are found by their addresses.
pub trait AddressGraph {
    /// The addresses of the nodes.
    spec fn node_addresses(&self) -> Seq<Seq<char>>;

    /// The edges between nodes, from dependent to dependency.
    spec fn node_edges(&self) -> Seq<(int, int)>;

    /// The graph can be asked for its edges.
    spec fn is_sound(&self) -> bool;

    /// The edges join nodes.
    proof fn edges_join_nodes(&self)
        requires
            self.is_sound(),
        ensures
            edges_within(self.node_edges(), self.node_addresses().len()),
    ;

    /// The addresses next to an address.
    fn next_to(&self, direction: Direction, address: &str) -> (addresses: Vec<String>)
        requires
            self.is_sound(),
        ensures
            last_position(self.node_addresses(), address@) is None ==> addresses@.len() == 0,
            last_position(self.node_addresses(), address@) matches Some(at) ==> texts(addresses@) == addresses_of(
                self.node_addresses(),
                next_nodes(self.node_edges(), direction, at),
            ),
    ;
}

impl AddressGraph for ProjectGraph {
    open spec fn node_addresses(&self) -> Seq<Seq<char>> {
        self.addresses()
    }

    open spec fn node_edges(&self) -> Seq<(int, int)> {
        self.edges()
    }

    open spec fn is_sound(&self) -> bool {
        self.well_formed()
    }

    proof fn edges_join_nodes(&self) {
    }

    fn next_to(&self, direction: Direction, address: &str) -> (addresses: Vec<String>) {
        match direction {
            Direction::Dependents => self.dependents(address),
            Direction::Dependencies => {
                let nodes = self.dependencies(address);
                let mut addresses: Vec<String> = Vec::new();
                let mut i: usize = 0;
                while i < nodes.len()
                    invariant
                        i <= nodes@.len(),
                        addresses@.len() == i,
                        forall|k: int| 0 <= k < i ==> (#[trigger] addresses@[k])@ == nodes@[k].address@,
                    decreases nodes@.len() - i,
                {
                    addresses.push(nodes[i].address.clone());
                    i += 1;
                }
                proof {
                    if self.node_at(address@) is Some {
                        let at = self.node_at(address@)->0;
                        let places = next_nodes(self.edges(), direction, at);
                        assert forall|k: int| 0 <= k < places.len() implies 0 <= #[trigger] places[k]
                            < self.nodes@.len() by {
                            assert(places.contains(places[k]));
                            next_nodes_are_nodes(self.edges(), self.nodes@.len(), direction, at, places[k]);
                        }
                        assert(texts(addresses@) =~= addresses_of(self.addresses(), places));
                    }
                }
                addresses
            },
        }
    }
}

impl AddressGraph for TargetGraph {
    open spec fn node_addresses(&self) -> Seq<Seq<char>> {
        self.addresses()
    }

    open spec fn node_edges(&self) -> Seq<(int, int)> {
        self.edges()
    }

    open spec fn is_sound(&self) -> bool {
        self.well_formed()
    }

    proof fn edges_join_nodes(&self) {
    }

    fn next_to(&self, direction: Direction, address: &str) -> (addresses: Vec<String>) {
        match direction {
            Direction::Dependents => self.dependents(address),
            Direction::Dependencies => {
                let nodes = self.dependencies(address);
                let mut addresses: Vec<String> = Vec::new();
                let mut i: usize = 0;
                while i < nodes.len()
                    invariant
                        i <= nodes@.len(),
                        addresses@.len() == i,
                        forall|k: int| 0 <= k < i ==> (#[trigger] addresses@[k])@ == nodes@[k].address@,
                    decreases nodes@.len() - i,
                {
                    addresses.push(nodes[i].address.clone());
                    i += 1;
                }
                proof {
                    if self.node_at(address@) is Some {
                        let at = self.node_at(address@)->0;
                        let places = next_nodes(self.edges(), direction, at);
                        assert forall|k: int| 0 <= k < places.len() implies 0 <= #[trigger] places[k]
                            < self.nodes@.len() by {
                            assert(places.contains(places[k]));
                            next_nodes_are_nodes(self.edges(), self.nodes@.len(), direction, at, places[k]);
                        }
                        assert(texts(addresses@) =~= addresses_of(self.addresses(), places));
                    }
                }
                addresses
            },
        }
    }
}

/// One node is next to another, by address.
pub open spec fn is_neighbor<G: AddressGraph>(
    graph: &G,
    direction: Direction,
    address: Seq<char>,
    other: Seq<char>,
) -> bool {
    let at = last_position(graph.node_addresses(), address);
    at is Some && addresses_of(
        graph.node_addresses(),
        next_nodes(graph.node_edges(), direction, at->0),
    ).contains(other)
}

/// An address of the chain is next to the one before it.
pub open spec fn is_neighbor_step<G: AddressGraph>(graph: &G, direction: Direction, chain: Seq<Seq<char>>, i: int) -> bool {
    is_neighbor(graph, direction, chain[i - 1], chain[i])
}

/// Each address of the chain is next to the one before it.
pub open spec fn is_neighbor_chain<G: AddressGraph>(graph: &G, direction: Direction, chain: Seq<Seq<char>>) -> bool {
    chain.len() >= 1 && forall|i: int| 0 < i < chain.len() ==> #[trigger] is_neighbor_step(graph, direction, chain, i)
}

/// The address is a seed, or a chain leads to it from one.
pub open spec fn is_reached<G: AddressGraph>(graph: &G, direction: Direction, seeds: Set<Seq<char>>, address: Seq<char>) -> bool {
    exists|chain: Seq<Seq<char>>| #[trigger]
        is_neighbor_chain(graph, direction, chain) && seeds.contains(chain.first()) && chain.last() == address
}

proof fn chain_stays_inside<G: AddressGraph>(graph: &G, direction: Direction, chain: Seq<Seq<char>>, all: Set<Seq<char>>, i: int)
    requires
        is_neighbor_chain(graph, direction, chain),
        all.contains(chain.first()),
        forall|a: Seq<char>, b: Seq<char>| all.contains(a) && #[trigger] is_neighbor(graph, direction, a, b) ==> all.contains(b),
        0 <= i < chain.len(),
    ensures
        all.contains(chain[i]),
    decreases i,
{
    if i > 0 {
        chain_stays_inside(graph, direction, chain, all, i - 1);
        assert(is_neighbor_step(graph, direction, chain, i));
    }
}

/// A seed is reached.
pub proof fn seed_is_reached<G: AddressGraph>(graph: &G, direction: Direction, seeds: Set<Seq<char>>, address: Seq<char>)
    requires
        seeds.contains(address),
    ensures
        is_reached(graph, direction, seeds, address),
{
    let chain = seq![address];
    assert(is_neighbor_chain(graph, direction, chain));
    assert(chain.first() == address && chain.last() == address);
}

/// Whatever is next to what can be reached can be reached.
pub proof fn reached_extends<G: AddressGraph>(graph: &G, direction: Direction, seeds: Set<Seq<char>>, address: Seq<char>, other: Seq<char>)
    requires
        is_reached(graph, direction, seeds, address),
        is_neighbor(graph, direction, address, other),
    ensures
        is_reached(graph, direction, seeds, other),
{
    let chain = choose|chain: Seq<Seq<char>>| #[trigger]
        is_neighbor_chain(graph, direction, chain) && seeds.contains(chain.first()) && chain.last() == address;
    let longer = chain.push(other);
    assert forall|i: int| 0 < i < longer.len() implies #[trigger] is_neighbor_step(graph, direction, longer, i) by {
        if i < chain.len() {
            assert(is_neighbor_step(graph, direction, chain, i));
        } else {
            assert(longer[i - 1] == chain.last());
        }
    }
    assert(is_neighbor_chain(graph, direction, longer));
    assert(longer.first() == chain.first() && longer.last() == other);
}

proof fn neighbors_are_nodes<G: AddressGraph>(graph: &G, direction: Direction, address: Seq<char>, other: Seq<char>)
    requires
        graph.is_sound(),
        is_neighbor(graph, direction, address, other),
    ensures
        graph.node_addresses().to_set().contains(other),
        graph.node_addresses().to_set().finite(),
{
    let places = next_nodes(graph.node_edges(), direction, last_position(graph.node_addresses(), address)->0);
    let named = addresses_of(graph.node_addresses(), places);
    let k = choose|k: int| 0 <= k < named.len() && named[k] == other;
    assert(places.contains(places[k]));
    graph.edges_join_nodes();
    next_nodes_are_nodes(
        graph.node_edges(),
        graph.node_addresses().len(),
        direction,
        last_position(graph.node_addresses(), address)->0,
        places[k],
    );
    assert(graph.node_addresses()[places[k]] == other);
    vstd::seq_lib::seq_to_set_is_finite(graph.node_addresses());
}

/// All that can be reached from some addresses, themselves among them.
pub fn reached_addresses<G: AddressGraph>(seeds: TextSet, graph: &G, direction: Direction) -> (result: TextSet)
    requires
        graph.is_sound(),
    ensures
        result@ == Set::new(|address: Seq<char>| is_reached(graph, direction, seeds@, address)),
{
    let ghost direct = seeds@;
    let mut queue = seeds.to_vec();
    let mut result = seeds.clone();
    let ghost universe = graph.node_addresses().to_set();
    let mut head: usize = 0;
    proof {
        vstd::seq_lib::seq_to_set_is_finite(graph.node_addresses());
        assert forall|address: Seq<char>| #[trigger] result@.contains(address) implies is_reached(graph, direction,
            direct,
            address,
        ) by {
            let chain = seq![address];
            assert(is_neighbor_chain(graph, direction, chain));
            assert(chain.first() == address && chain.last() == address);
        }
        assert forall|address: Seq<char>| #[trigger] result@.contains(address) implies texts(queue@).skip(
            0,
        ).contains(address) by {
            assert(texts(queue@).skip(0) =~= texts(queue@));
        }
        assert forall|k: int| 0 <= k < queue@.len() implies result@.contains((#[trigger] queue@[k])@) by {
            assert(texts(queue@)[k] == queue@[k]@);
            assert(texts(queue@).to_set().contains(queue@[k]@));
        }
    }
    while head < queue.len()
        invariant
            graph.is_sound(),
            head <= queue@.len(),
            universe == graph.node_addresses().to_set(),
            universe.finite(),
            direct.subset_of(result@),
            forall|address: Seq<char>| #[trigger] result@.contains(address) ==> is_reached(graph, direction, direct, address),
            forall|k: int| 0 <= k < queue@.len() ==> result@.contains((#[trigger] queue@[k])@),
            forall|a: Seq<char>, b: Seq<char>|
                result@.contains(a) && !texts(queue@).skip(head as int).contains(a) && #[trigger] is_neighbor(graph, direction,
                    a,
                    b,
                ) ==> result@.contains(b),
        decreases universe.difference(result@).len(), queue@.len() - head,
    {
        let ghost project = queue@[head as int]@;
        let others = graph.next_to(direction, &queue[head]);
        let ghost found = texts(others@);
        let ghost waiting = texts(queue@).skip(head as int);
        let ghost known = result@;
        let ghost length = queue@.len();
        proof {
            assert forall|b: Seq<char>| is_neighbor(graph, direction, project, b) implies #[trigger] found.contains(b) by {}
            assert forall|k: int| 0 <= k < found.len() implies is_neighbor(graph, direction, project, #[trigger] found[k]) by {
                assert(found.contains(found[k]));
            }
        }
        head += 1;
        let mut i: usize = 0;
        assert(waiting.skip(1) =~= texts(queue@).skip(head as int));
        while i < others.len()
            invariant
                graph.is_sound(),
                i <= others@.len(),
                found == texts(others@),
                head <= queue@.len(),
                length <= queue@.len(),
                universe == graph.node_addresses().to_set(),
                universe.finite(),
                direct.subset_of(known),
                known.subset_of(result@),
                known.contains(project),
                forall|address: Seq<char>| #[trigger] known.contains(address) ==> is_reached(graph, direction, direct, address),
                forall|k: int| 0 <= k < found.len() ==> is_neighbor(graph, direction, project, #[trigger] found[k]),
                forall|k: int| 0 <= k < i ==> result@.contains(#[trigger] found[k]),
                forall|address: Seq<char>| #[trigger]
                    result@.contains(address) ==> is_reached(graph, direction, direct, address),
                forall|k: int| 0 <= k < queue@.len() ==> result@.contains((#[trigger] queue@[k])@),
                forall|x: Seq<char>| #[trigger]
                    waiting.skip(1).contains(x) ==> texts(queue@).skip(head as int).contains(x),
                forall|x: Seq<char>| #[trigger]
                    result@.contains(x) && !known.contains(x) ==> texts(queue@).skip(head as int).contains(x),
                universe.difference(result@).len() < universe.difference(known).len() || (result@ == known
                    && queue@.len() == length),
            decreases others@.len() - i,
        {
            let ghost before = result@;
            let ghost line = texts(queue@);
            assert(found[i as int] == others@[i as int]@);
            if result.insert(others[i].clone()) {
                proof {
                    let item = found[i as int];
                    reached_extends(graph, direction, direct, project, item);
                    neighbors_are_nodes(graph, direction, project, item);
                    assert(universe.difference(result@) =~= universe.difference(before).remove(item));
                    assert(universe.difference(before).contains(item));
                    vstd::set_lib::lemma_len_subset(universe.difference(before), universe.difference(known));
                }
                queue.push(others[i].clone());
                proof {
                    let item = found[i as int];
                    let now = texts(queue@);
                    assert(now =~= line.push(item));
                    assert forall|x: Seq<char>| line.skip(head as int).contains(x) || x == item implies #[trigger] now.skip(
                        head as int,
                    ).contains(x) by {
                        if line.skip(head as int).contains(x) {
                            let k = choose|k: int|
                                0 <= k < line.skip(head as int).len() && line.skip(head as int)[k] == x;
                            assert(now.skip(head as int)[k] == x);
                        } else {
                            assert(now.skip(head as int)[line.len() - head] == x);
                        }
                    }
                }
            } else {
                assert(result@ =~= before);
            }
            i += 1;
        }
        proof {
            assert forall|a: Seq<char>, b: Seq<char>|
                result@.contains(a) && !texts(queue@).skip(head as int).contains(a) && #[trigger] is_neighbor(graph, direction,
                    a,
                    b,
                ) implies result@.contains(b) by {
                assert(known.contains(a));
                if a == project {
                    assert(found.contains(b));
                    let k = choose|k: int| 0 <= k < found.len() && found[k] == b;
                    assert(result@.contains(found[k]));
                } else {
                    if waiting.contains(a) {
                        let k = choose|k: int| 0 <= k < waiting.len() && waiting[k] == a;
                        assert(waiting[0] == project);
                        assert(waiting.skip(1)[k - 1] == a);
                        assert(waiting.skip(1).contains(a));
                    }
                    assert(known.contains(b));
                }
            }
        }
    }
    proof {
        assert(texts(queue@).skip(head as int).len() == 0);
        assert forall|address: Seq<char>| is_reached(graph, direction, direct, address) implies #[trigger] result@.contains(
            address,
        ) by {
            let chain = choose|chain: Seq<Seq<char>>| #[trigger]
                is_neighbor_chain(graph, direction, chain) && direct.contains(chain.first()) && chain.last() == address;
            chain_stays_inside(graph, direction, chain, result@, chain.len() - 1);
        }
        assert(result@ =~= Set::new(|address: Seq<char>| is_reached(graph, direction, direct, address)));
    }
    result
}

/// What is reached lies in every set that holds the seeds and, with each address,
/// whatever is next to it.
pub proof fn reached_stays_inside<G: AddressGraph>(
    graph: &G,
    direction: Direction,
    seeds: Set<Seq<char>>,
    all: Set<Seq<char>>,
    address: Seq<char>,
)
    requires
        is_reached(graph, direction, seeds, address),
        seeds.subset_of(all),
        forall|a: Seq<char>, b: Seq<char>| all.contains(a) && #[trigger] is_neighbor(graph, direction, a, b) ==> all.contains(b),
    ensures
        all.contains(address),
{
    let chain = choose|chain: Seq<Seq<char>>| #[trigger]
        is_neighbor_chain(graph, direction, chain) && seeds.contains(chain.first()) && chain.last() == address;
    chain_stays_inside(graph, direction, chain, all, chain.len() - 1);
}

/// A node is next to another where an edge leads from one to the other, in the
/// direction that is asked for.
pub proof fn neighbors_are_joined_by_edges<G: AddressGraph>(graph: &G, address: Seq<char>, from: int, to: int)
    requires
        last_position(graph.node_addresses(), address) == Some(from),
        graph.node_edges().contains((from, to)),
    ensures
        is_neighbor(graph, Direction::Dependencies, address, graph.node_addresses()[to]),
        last_position(graph.node_addresses(), graph.node_addresses()[to]) == Some(to) ==> is_neighbor(
            graph,
            Direction::Dependents,
            graph.node_addresses()[to],
            address,
        ),
{
    let addresses = graph.node_addresses();
    let edges = graph.node_edges();
    crate::graph::digraph::successors_of_edges(edges, from, to);
    crate::graph::digraph::predecessors_of_edges(edges, to, from);
    crate::graph::addressed::last_position_found(addresses, address);
    let behind = next_nodes(edges, Direction::Dependencies, from);
    let i = choose|i: int| 0 <= i < behind.len() && behind[i] == to;
    assert(addresses_of(addresses, behind)[i] == addresses[to]);
    let front = next_nodes(edges, Direction::Dependents, to);
    let j = choose|j: int| 0 <= j < front.len() && front[j] == from;
    assert(addresses_of(addresses, front)[j] == address);
}

} // verus!
