//! Target-level dependency graph construction and analysis
//!
//! Builds a directed graph where nodes are targets (//project:target)
//! and edges represent dependencies between them based on Target.depends_on.
use petgraph::graph::DiGraph;
use vstd::prelude::*;
use crate::collections::TextMap;
use crate::discovery::scanner::{address_of, project_address, DiscoveredProject};
use crate::graph::addressed::{addressed_graph, addresses_of, index_fits, last_position, last_position_found, link_texts, linked, linked_edges};
use crate::graph::digraph::{
    depth_first_steps, dfs_fits_at, edges_within, graph_edges, graph_nodes, has_cycle, ints, is_cycle, is_dfs,
    is_shortest_path, is_step, is_walk, open_nodes, predecessors, predecessors_of, predecessors_of_edges, reaches,
    shortest_path, successors, successors_of, successors_of_edges, DfsStep,
};
use crate::graph::path::path_nodes_exist;
use crate::plugins::Target;
use crate::text::{concat3, join_texts, joined, texts};

verus! {

/// A node in the target dependency graph
#[derive(Debug, Clone)]
pub struct TargetNode {
    /// Full target address (//path/to/project:target)
    pub address: String,
    /// Project address (//path/to/project)
    pub project_address: String,
    /// Target name (test, build, deps, etc.)
    pub target_name: String,
    /// Command to execute
    pub command: String,
}

/// The dependency graph of targets
pub struct TargetGraph {
    /// The underlying directed graph; each node weighs its place in `nodes`
    pub graph: DiGraph<usize, ()>,
    /// The targets, in the order of the graph's node indices
    pub nodes: Vec<TargetNode>,
    /// Map from target address to node index for fast lookups
    pub index_by_address: TextMap<usize>,
}

/// The address of a target of the project in a directory of the workspace.
pub open spec fn target_address_of(relative_path: Seq<char>, target: Seq<char>) -> Seq<char> {
    address_of(relative_path) + ":"@ + target
}

/// The address of a target of the project in a directory of the workspace.
pub fn target_address(relative_path: &str, target: &str) -> (address: String)
    ensures
        address@ == target_address_of(relative_path@, target@),
{
    concat3(&project_address(relative_path), ":", target)
}

/// What a node holds: its address, its project's address, its name and its command.
pub open spec fn node_texts(node: TargetNode) -> (Seq<char>, Seq<char>, Seq<char>, Seq<char>) {
    (node.address@, node.project_address@, node.target_name@, node.command@)
}

/// What the node of a target holds.
pub open spec fn target_texts(project: DiscoveredProject, name: Seq<char>) -> (
    Seq<char>,
    Seq<char>,
    Seq<char>,
    Seq<char>,
) {
    (
        target_address_of(project.relative_path@, name),
        address_of(project.relative_path@),
        name,
        project.targets@[name].command@,
    )
}

/// What the nodes of all targets hold: project by project, each project's
/// targets in the order of their names.
pub open spec fn all_target_texts(projects: Seq<DiscoveredProject>) -> Seq<
    (Seq<char>, Seq<char>, Seq<char>, Seq<char>),
>
    decreases projects.len(),
{
    if projects.len() == 0 {
        Seq::empty()
    } else {
        all_target_texts(projects.drop_last()) + projects.last().targets.keys().map_values(
            |name: Seq<char>| target_texts(projects.last(), name),
        )
    }
}

/// The links from a target to the targets it depends on, by address.
pub open spec fn target_links(project: DiscoveredProject, name: Seq<char>) -> Seq<(Seq<char>, Seq<char>)> {
    texts(project.targets@[name].depends_on@).map_values(
        |dependency: Seq<char>| (target_address_of(project.relative_path@, name), dependency),
    )
}

/// The links of the first `count` targets of a project.
pub open spec fn project_target_links(project: DiscoveredProject, count: int) -> Seq<(Seq<char>, Seq<char>)>
    decreases count,
{
    if count <= 0 {
        Seq::empty()
    } else {
        project_target_links(project, count - 1) + target_links(project, project.targets.keys()[count - 1])
    }
}

/// The links of all targets of all projects, in order.
pub open spec fn all_target_links(projects: Seq<DiscoveredProject>) -> Seq<(Seq<char>, Seq<char>)>
    decreases projects.len(),
{
    if projects.len() == 0 {
        Seq::empty()
    } else {
        all_target_links(projects.drop_last()) + project_target_links(
            projects.last(),
            projects.last().targets.keys().len() as int,
        )
    }
}

/// The addresses of the targets of all projects, in order.
pub open spec fn all_target_addresses(projects: Seq<DiscoveredProject>) -> Seq<Seq<char>> {
    all_target_texts(projects).map_values(|node: (Seq<char>, Seq<char>, Seq<char>, Seq<char>)| node.0)
}

impl TargetGraph {
    /// The addresses of the nodes.
    pub open spec fn addresses(&self) -> Seq<Seq<char>> {
        self.nodes@.map_values(|node: TargetNode| node.address@)
    }

    /// The edges between nodes, from dependent to dependency.
    pub open spec fn edges(&self) -> Seq<(int, int)> {
        graph_edges(self.graph)
    }

    /// The graph has one node for each target, its edges join them, and the
    /// index finds them.
    pub open spec fn well_formed(&self) -> bool {
        &&& graph_nodes(self.graph).len() == self.nodes@.len()
        &&& self.nodes@.len() <= u32::MAX
        &&& edges_within(self.edges(), self.nodes@.len())
        &&& index_fits(self.index_by_address@, self.addresses())
    }

    /// The number of the node that an address names.
    pub open spec fn node_at(&self, address: Seq<char>) -> Option<int> {
        last_position(self.addresses(), address)
    }
}

fn collect_nodes(projects: &Vec<DiscoveredProject>) -> (nodes: Vec<TargetNode>)
    ensures
        nodes@.map_values(|node: TargetNode| node_texts(node)) == all_target_texts(projects@),
{
    let mut nodes: Vec<TargetNode> = Vec::new();
    let ghost as_texts = |node: TargetNode| node_texts(node);
    let mut i: usize = 0;
    assert(projects@.take(0) =~= Seq::<DiscoveredProject>::empty());
    assert(nodes@.map_values(as_texts) =~= Seq::<(Seq<char>, Seq<char>, Seq<char>, Seq<char>)>::empty());
    while i < projects.len()
        invariant
            i <= projects@.len(),
            as_texts == (|node: TargetNode| node_texts(node)),
            nodes@.map_values(as_texts) == all_target_texts(projects@.take(i as int)),
        decreases projects@.len() - i,
    {
        let project = &projects[i];
        let count = project.targets.len();
        let ghost before = nodes@.map_values(as_texts);
        let ghost own = project.targets.keys().map_values(|name: Seq<char>| target_texts(*project, name));
        let mut j: usize = 0;
        assert(before + own.take(0) =~= before);
        while j < count
            invariant
                j <= count,
                count == project.targets.keys().len(),
                as_texts == (|node: TargetNode| node_texts(node)),
                own == project.targets.keys().map_values(|name: Seq<char>| target_texts(*project, name)),
                nodes@.map_values(as_texts) == before + own.take(j as int),
            decreases count - j,
        {
            let name = project.targets.key_at(j);
            let target = project.targets.value_at(j);
            let node = TargetNode {
                address: target_address(&project.relative_path, name),
                project_address: project_address(&project.relative_path),
                target_name: name.clone(),
                command: target.command.clone(),
            };
            let ghost so_far = nodes@.map_values(as_texts);
            let ghost next = node_texts(node);
            nodes.push(node);
            proof {
                assert(nodes@.map_values(as_texts) =~= so_far.push(next));
                assert(own[j as int] == next);
                assert(own.take(j + 1) =~= own.take(j as int).push(next));
                assert(so_far.push(next) =~= before + own.take(j + 1));
            }
            j += 1;
        }
        proof {
            assert(own.take(own.len() as int) =~= own);
            assert(projects@.take(i + 1).drop_last() =~= projects@.take(i as int));
            assert(projects@.take(i + 1).last() == *project);
        }
        i += 1;
    }
    assert(projects@.take(projects@.len() as int) =~= projects@);
    nodes
}

fn push_links(links: &mut Vec<(String, String)>, project: &DiscoveredProject, name: &String, target: &Target)
    requires
        project.targets@[name@] == *target,
    ensures
        link_texts(final(links)@) == link_texts(old(links)@) + target_links(*project, name@),
{
    let ghost before = link_texts(links@);
    let ghost own = target_links(*project, name@);
    let mut k: usize = 0;
    assert(before + own.take(0) =~= before);
    while k < target.depends_on.len()
        invariant
            k <= target.depends_on@.len(),
            project.targets@[name@] == *target,
            own == target_links(*project, name@),
            link_texts(links@) == before + own.take(k as int),
        decreases target.depends_on@.len() - k,
    {
        let from = target_address(&project.relative_path, name);
        let to = target.depends_on[k].clone();
        let ghost so_far = link_texts(links@);
        let ghost link = (from@, to@);
        links.push((from, to));
        proof {
            assert(link_texts(links@) =~= so_far.push(link));
            assert(texts(target.depends_on@)[k as int] == link.1);
            assert(own[k as int] == link);
            assert(own.take(k + 1) =~= own.take(k as int).push(link));
            assert(so_far.push(link) =~= before + own.take(k + 1));
        }
        k += 1;
    }
    assert(own.take(own.len() as int) =~= own);
}

fn collect_links(projects: &Vec<DiscoveredProject>) -> (links: Vec<(String, String)>)
    ensures
        link_texts(links@) == all_target_links(projects@),
{
    let mut links: Vec<(String, String)> = Vec::new();
    let mut i: usize = 0;
    assert(projects@.take(0) =~= Seq::<DiscoveredProject>::empty());
    assert(link_texts(links@) =~= Seq::<(Seq<char>, Seq<char>)>::empty());
    while i < projects.len()
        invariant
            i <= projects@.len(),
            link_texts(links@) == all_target_links(projects@.take(i as int)),
        decreases projects@.len() - i,
    {
        let project = &projects[i];
        let count = project.targets.len();
        let ghost before = link_texts(links@);
        let mut j: usize = 0;
        assert(before + project_target_links(*project, 0) =~= before);
        while j < count
            invariant
                j <= count,
                count == project.targets.keys().len(),
                link_texts(links@) == before + project_target_links(*project, j as int),
            decreases count - j,
        {
            let ghost so_far = project_target_links(*project, j as int);
            push_links(&mut links, project, project.targets.key_at(j), project.targets.value_at(j));
            proof {
                let own = target_links(*project, project.targets.keys()[j as int]);
                assert(before + so_far + own =~= before + (so_far + own));
            }
            j += 1;
        }
        proof {
            assert(projects@.take(i + 1).drop_last() =~= projects@.take(i as int));
            assert(projects@.take(i + 1).last() == *project);
        }
        i += 1;
    }
    assert(projects@.take(projects@.len() as int) =~= projects@);
    links
}

/// The addresses of the targets of all projects, in order.
pub fn target_addresses(projects: &Vec<DiscoveredProject>) -> (addresses: Vec<String>)
    ensures
        texts(addresses@) == all_target_addresses(projects@),
{
    let nodes = collect_nodes(projects);
    let ghost as_texts = |node: TargetNode| node_texts(node);
    proof {
        assert(nodes@.len() == nodes@.map_values(as_texts).len());
    }
    let mut addresses: Vec<String> = Vec::new();
    let mut i: usize = 0;
    while i < nodes.len()
        invariant
            i <= nodes@.len(),
            addresses@.len() == i,
            forall|k: int| 0 <= k < i ==> (#[trigger] addresses@[k])@ == nodes@[k].address@,
        decreases nodes@.len() - i,
    {
        addresses.push(nodes[i].address.clone());
        i += 1;
    }
    proof {
        let all = all_target_addresses(projects@);
        assert forall|k: int| 0 <= k < nodes@.len() implies (#[trigger] all[k]) == nodes@[k].address@ by {
            assert(nodes@.map_values(as_texts)[k] == node_texts(nodes@[k]));
        }
        assert(texts(addresses@) =~= all);
    }
    addresses
}

/// Build a target dependency graph from discovered projects
///
/// Creates nodes for each target in each project, and edges based on
/// the Target.depends_on field (which contains fully resolved addresses).
/// Missing dependencies are silently ignored.
pub fn build_target_graph(projects: &Vec<DiscoveredProject>) -> (graph: TargetGraph)
    requires
        all_target_texts(projects@).len() <= u32::MAX,
        all_target_links(projects@).len() <= u32::MAX,
    ensures
        graph.well_formed(),
        graph.nodes@.map_values(|node: TargetNode| node_texts(node)) == all_target_texts(projects@),
        graph.addresses() == all_target_addresses(projects@),
        graph.edges() == linked(all_target_addresses(projects@), all_target_links(projects@)),
{
    let nodes = collect_nodes(projects);
    let addresses = target_addresses(projects);
    let links = collect_links(projects);
    proof {
        let as_texts = |node: TargetNode| node_texts(node);
        let all = all_target_addresses(projects@);
        assert(nodes@.len() == nodes@.map_values(as_texts).len());
        assert(addresses@.len() == texts(addresses@).len());
        assert(links@.len() == link_texts(links@).len());
        linked_edges(all, all_target_links(projects@), (0, 0));
        assert forall|k: int| 0 <= k < nodes@.len() implies (#[trigger] all[k]) == nodes@[k].address@ by {
            assert(nodes@.map_values(as_texts)[k] == node_texts(nodes@[k]));
        }
    }
    let (graph, index_by_address) = addressed_graph(&addresses, &links);
    let built = TargetGraph { graph, nodes, index_by_address };
    assert(built.addresses() =~= all_target_addresses(projects@));
    built
}

/// Error indicating a dependency cycle was found
#[derive(Debug)]
pub struct CycleError {
    /// Target addresses forming the cycle
    pub cycle: Vec<String>,
}

impl CycleError {
    /// The message: the addresses with arrows between them, and back to the first.
    pub fn to_string(&self) -> (message: String)
        requires
            self.cycle@.len() > 0,
        ensures
            message@ == "Dependency cycle detected: "@ + joined(texts(self.cycle@), " -> "@) + " -> "@
                + self.cycle@[0]@,
    {
        crate::text::concat4("Dependency cycle detected: ", &join_texts(&self.cycle, " -> "), " -> ", &self.cycle[0])
    }
}

impl TargetGraph {
    /// The number of the node that an address names.
    pub fn find(&self, address: &str) -> (node: Option<usize>)
        requires
            self.well_formed(),
        ensures
            node is Some <==> self.node_at(address@) is Some,
            node matches Some(at) ==> self.node_at(address@) == Some(at as int) && at < self.nodes@.len()
                && self.nodes@[at as int].address@ == address@,
    {
        proof {
            last_position_found(self.addresses(), address@);
            assert(self.index_by_address@.contains_key(address@) <==> self.node_at(address@) is Some);
        }
        match self.index_by_address.get(address) {
            Some(at) => Some(*at),
            None => None,
        }
    }

    /// Get a target node by address
    pub fn get(&self, address: &str) -> (node: Option<&TargetNode>)
        requires
            self.well_formed(),
        ensures
            node is Some <==> self.node_at(address@) is Some,
            node matches Some(found) ==> *found == self.nodes@[self.node_at(address@)->0] && found.address@ == address@,
    {
        match self.find(address) {
            Some(at) => Some(&self.nodes[at]),
            None => None,
        }
    }

    /// Get all target nodes
    pub fn targets(&self) -> (nodes: &Vec<TargetNode>)
        ensures
            nodes == self.nodes,
    {
        &self.nodes
    }

    /// Get direct dependencies of a target
    pub fn dependencies(&self, address: &str) -> (nodes: Vec<&TargetNode>)
        requires
            self.well_formed(),
        ensures
            self.node_at(address@) is None ==> nodes@.len() == 0,
            self.node_at(address@) matches Some(at) ==> {
                let found = successors_of(self.edges(), at);
                &&& nodes@.len() == found.len()
                &&& forall|i: int| 0 <= i < found.len() ==> *(#[trigger] nodes@[i]) == self.nodes@[found[i]]
            },
    {
        let mut nodes: Vec<&TargetNode> = Vec::new();
        if let Some(at) = self.find(address) {
            let found = successors(&self.graph, at);
            let ghost places = successors_of(self.edges(), at as int);
            let mut i: usize = 0;
            while i < found.len()
                invariant
                    self.well_formed(),
                    at < self.nodes@.len(),
                    i <= found@.len(),
                    places == successors_of(self.edges(), at as int),
                    ints(found@) == places,
                    nodes@.len() == i,
                    forall|k: int| 0 <= k < i ==> *(#[trigger] nodes@[k]) == self.nodes@[places[k]],
                decreases found@.len() - i,
            {
                proof {
                    assert(places[i as int] == found@[i as int]);
                    assert(places.contains(places[i as int]));
                    successors_of_edges(self.edges(), at as int, places[i as int]);
                }
                nodes.push(&self.nodes[found[i]]);
                i += 1;
            }
            assert(places.len() == found@.len());
        }
        nodes
    }

    fn addresses_at(&self, places: &Vec<usize>) -> (addresses: Vec<String>)
        requires
            forall|i: int| 0 <= i < places@.len() ==> (#[trigger] places@[i]) < self.nodes@.len(),
        ensures
            texts(addresses@) == addresses_of(self.addresses(), ints(places@)),
    {
        let mut addresses: Vec<String> = Vec::new();
        let mut i: usize = 0;
        while i < places.len()
            invariant
                i <= places@.len(),
                addresses@.len() == i,
                forall|k: int| 0 <= k < places@.len() ==> (#[trigger] places@[k]) < self.nodes@.len(),
                forall|k: int| 0 <= k < i ==> (#[trigger] addresses@[k])@ == self.addresses()[places@[k] as int],
            decreases places@.len() - i,
        {
            addresses.push(self.nodes[places[i]].address.clone());
            i += 1;
        }
        assert(texts(addresses@) =~= addresses_of(self.addresses(), ints(places@)));
        addresses
    }

    /// Get targets that depend ON this target (reverse dependencies)
    pub fn dependents(&self, address: &str) -> (addresses: Vec<String>)
        requires
            self.well_formed(),
        ensures
            self.node_at(address@) is None ==> addresses@.len() == 0,
            self.node_at(address@) matches Some(at) ==> texts(addresses@) == addresses_of(self.addresses(), predecessors_of(
                self.edges(),
                at,
            )),
    {
        match self.find(address) {
            None => Vec::new(),
            Some(at) => {
                let found = predecessors(&self.graph, at);
                assert forall|i: int| 0 <= i < found@.len() implies (#[trigger] found@[i]) < self.nodes@.len() by {
                    let places = predecessors_of(self.edges(), at as int);
                    assert(places[i] == found@[i]);
                    assert(places.contains(places[i]));
                    predecessors_of_edges(self.edges(), at as int, places[i]);
                }
                self.addresses_at(&found)
            },
        }
    }

    /// Find the shortest dependency path between two targets
    ///
    /// Returns None if no path exists or if either target is not found.
    pub fn find_path(&self, from: &str, to: &str) -> (path: Option<Vec<String>>)
        requires
            self.well_formed(),
        ensures
            path is Some <==> self.node_at(from@) is Some && self.node_at(to@) is Some && reaches(
                self.edges(),
                self.node_at(from@)->0,
                self.node_at(to@)->0,
            ),
            path matches Some(addresses) ==> exists|nodes: Seq<int>| #[trigger]
                is_shortest_path(self.edges(), nodes, self.node_at(from@)->0, self.node_at(to@)->0) && texts(addresses@)
                    == addresses_of(self.addresses(), nodes),
    {
        let start = match self.find(from) {
            Some(start) => start,
            None => return None,
        };
        let end = match self.find(to) {
            Some(end) => end,
            None => return None,
        };
        match shortest_path(&self.graph, start, end) {
            None => None,
            Some(nodes) => {
                proof {
                    assert(is_shortest_path(
                        self.edges(),
                        ints(nodes@),
                        self.node_at(from@)->0,
                        self.node_at(to@)->0,
                    ));
                    path_nodes_exist(self.edges(), self.nodes@.len(), ints(nodes@), start as int, end as int);
                    assert forall|i: int| 0 <= i < nodes@.len() implies (#[trigger] nodes@[i]) < self.nodes@.len() by {
                        assert(ints(nodes@)[i] == nodes@[i]);
                    }
                }
                Some(self.addresses_at(&nodes))
            },
        }
    }

    /// Check for cycles in the target graph using DFS
    pub fn find_cycle(&self) -> (error: Option<CycleError>)
        requires
            self.well_formed(),
        ensures
            error is Some <==> has_cycle(self.edges()),
            error matches Some(found) ==> exists|cycle: Seq<int>| #![auto]
                is_cycle(self.edges(), cycle.push(cycle.first())) && texts(found.cycle@) == addresses_of(self.addresses(), cycle),
    {
        let steps = depth_first_steps(&self.graph);
        match self.first_cycle(&steps) {
            Some(cycle) => Some(CycleError { cycle: self.addresses_at(&cycle) }),
            None => None,
        }
    }

    fn close(&self, path: &Vec<usize>, to: usize) -> (cycle: Vec<usize>)
        requires
            path@.len() > 0,
            ints(path@).contains(to as int),
            is_walk(self.edges(), ints(path@)),
            self.edges().contains((path@.last() as int, to as int)),
            forall|k: int| 0 <= k < path@.len() ==> (#[trigger] path@[k]) < self.nodes@.len(),
        ensures
            0 < cycle@.len() <= path@.len(),
            cycle@[0] == to,
            ints(cycle@) == ints(path@).skip(path@.len() - cycle@.len()),
            is_cycle(self.edges(), ints(cycle@).push(ints(cycle@).first())),
            forall|k: int| 0 <= k < cycle@.len() ==> (#[trigger] cycle@[k]) < self.nodes@.len(),
    {
        let ghost open = ints(path@);
        let mut start: usize = 0;
        while start < path.len() && path[start] != to
            invariant
                start <= path@.len(),
                forall|k: int| 0 <= k < start ==> path@[k] != to,
            decreases path@.len() - start,
        {
            start += 1;
        }
        proof {
            let k = choose|k: int| 0 <= k < open.len() && open[k] == to;
            assert(path@[k] == to);
            assert(start < path@.len());
        }
        let mut cycle: Vec<usize> = Vec::new();
        let mut k: usize = start;
        while k < path.len()
            invariant
                start <= k <= path@.len(),
                cycle@ == path@.subrange(start as int, k as int),
            decreases path@.len() - k,
        {
            cycle.push(path[k]);
            k += 1;
        }
        proof {
            let found = ints(cycle@);
            let closed = found.push(found.first());
            assert(found =~= open.skip(open.len() - found.len()));
            assert forall|p: int| 0 <= p < closed.len() - 1 implies #[trigger] is_step(self.edges(), closed, p) by {
                assert(closed[p] == open[start + p]);
                if p + 1 < found.len() {
                    assert(closed[p + 1] == open[start + p + 1]);
                    assert(is_step(self.edges(), open, start + p));
                } else {
                    assert(open[start + p] == path@.last());
                }
            }
        }
        cycle
    }

    /// The nodes on the cycle that the first back edge of a depth-first search closes.
    pub fn first_cycle(&self, steps: &Vec<DfsStep>) -> (cycle: Option<Vec<usize>>)
        requires
            self.well_formed(),
            is_dfs(steps@, self.edges(), self.nodes@.len()),
        ensures
            cycle is Some <==> exists|i: int| 0 <= i < steps@.len() && (#[trigger] steps@[i]) is BackEdge,
            cycle matches Some(found) ==> {
                &&& is_cycle(self.edges(), ints(found@).push(ints(found@).first()))
                &&& forall|i: int| 0 <= i < found@.len() ==> (#[trigger] found@[i]) < self.nodes@.len()
                &&& exists|i: int| #![auto]
                    {
                        &&& 0 <= i < steps@.len() && steps@[i] is BackEdge
                        &&& forall|j: int| 0 <= j < i ==> !((#[trigger] steps@[j]) is BackEdge)
                        &&& found@.len() <= open_nodes(steps@.take(i)).len()
                        &&& ints(found@) == open_nodes(steps@.take(i)).skip(
                            open_nodes(steps@.take(i)).len() - found@.len(),
                        )
                        &&& found@[0] == steps@[i]->BackEdge_1
                    }
            },
    {
        let mut path: Vec<usize> = Vec::new();
        let mut i: usize = 0;
        assert(ints(path@) =~= open_nodes(steps@.take(0)));
        while i < steps.len()
            invariant
                self.well_formed(),
                i <= steps@.len(),
                is_dfs(steps@, self.edges(), self.nodes@.len()),
                forall|k: int| 0 <= k < i ==> !((#[trigger] steps@[k]) is BackEdge),
                ints(path@) == open_nodes(steps@.take(i as int)),
                is_walk(self.edges(), ints(path@)),
                forall|k: int| 0 <= k < path@.len() ==> (#[trigger] path@[k]) < self.nodes@.len(),
            decreases steps@.len() - i,
        {
            let ghost open = ints(path@);
            proof {
                assert(steps@.take(i + 1).drop_last() =~= steps@.take(i as int));
                assert(steps@.take(i + 1).last() == steps@[i as int]);
                assert(dfs_fits_at(steps@, i as int, self.edges(), self.nodes@.len()));
                assert(open.len() == path@.len());
            }
            match steps[i] {
                DfsStep::Discover(node) => {
                    path.push(node);
                    proof {
                        let now = ints(path@);
                        assert(now =~= open.push(node as int));
                        assert forall|k: int| 0 <= k < now.len() - 1 implies #[trigger] is_step(
                            self.edges(),
                            now,
                            k,
                        ) by {
                            if k < open.len() - 1 {
                                assert(is_step(self.edges(), open, k));
                            }
                        }
                    }
                },
                DfsStep::Finish(_) => {
                    path.pop();
                    proof {
                        let now = ints(path@);
                        assert(now =~= open.drop_last());
                        assert forall|k: int| 0 <= k < now.len() - 1 implies #[trigger] is_step(
                            self.edges(),
                            now,
                            k,
                        ) by {
                            assert(is_step(self.edges(), open, k));
                        }
                    }
                },
                DfsStep::BackEdge(from, to) => {
                    let cycle = self.close(&path, to);
                    proof {
                        assert(steps@[i as int] is BackEdge);
                        assert(cycle@[0] == steps@[i as int]->BackEdge_1);
                    }
                    return Some(cycle);
                },
                _ => {},
            }
            i += 1;
        }
        None
    }
}

proof fn links_of_one_project(project: DiscoveredProject, count: int, link: (Seq<char>, Seq<char>))
    requires
        0 <= count <= project.targets.keys().len(),
    ensures
        project_target_links(project, count).contains(link) <==> exists|k: int, j: int|
            0 <= k < count && 0 <= j < project.targets@[project.targets.keys()[k]].depends_on@.len() && link == (
                "//"@ + project.relative_path@ + ":"@ + project.targets.keys()[k],
                (#[trigger] project.targets@[project.targets.keys()[k]].depends_on@[j])@,
            ),
    decreases count,
{
    if count > 0 {
        links_of_one_project(project, count - 1, link);
        let before = project_target_links(project, count - 1);
        let all = project_target_links(project, count);
        let name = project.targets.keys()[count - 1];
        let own = target_links(project, name);
        if before.contains(link) {
            let i = choose|i: int| 0 <= i < before.len() && before[i] == link;
            assert(all[i] == link);
        }
        if all.contains(link) {
            let i = choose|i: int| 0 <= i < all.len() && all[i] == link;
            if i < before.len() {
                assert(before.contains(before[i]));
            } else {
                let j = i - before.len();
                assert(own[j] == link);
                assert(project.targets@[name].depends_on@[j]@ == link.1);
            }
        }
        if exists|k: int, j: int|
            0 <= k < count && 0 <= j < project.targets@[project.targets.keys()[k]].depends_on@.len() && link == (
                "//"@ + project.relative_path@ + ":"@ + project.targets.keys()[k],
                (#[trigger] project.targets@[project.targets.keys()[k]].depends_on@[j])@,
            ) {
            let (k, j) = choose|k: int, j: int|
                0 <= k < count && 0 <= j < project.targets@[project.targets.keys()[k]].depends_on@.len() && link == (
                    "//"@ + project.relative_path@ + ":"@ + project.targets.keys()[k],
                    (#[trigger] project.targets@[project.targets.keys()[k]].depends_on@[j])@,
                );
            if k == count - 1 {
                assert(own[j] == link);
                assert(all[before.len() + j] == link);
            }
        }
    }
}

/// Two targets are linked where the first names the second among its
/// dependencies, and only there.
pub proof fn target_links_are_dependencies(projects: Seq<DiscoveredProject>, link: (Seq<char>, Seq<char>))
    ensures
        all_target_links(projects).contains(link) <==> exists|i: int, k: int, j: int|
            0 <= i < projects.len() && 0 <= k < projects[i].targets.keys().len() && 0 <= j
                < projects[i].targets@[projects[i].targets.keys()[k]].depends_on@.len() && link == (
                "//"@ + projects[i].relative_path@ + ":"@ + projects[i].targets.keys()[k],
                (#[trigger] projects[i].targets@[projects[i].targets.keys()[k]].depends_on@[j])@,
            ),
    decreases projects.len(),
{
    if projects.len() > 0 {
        let front = projects.drop_last();
        let last = projects.last();
        let before = all_target_links(front);
        let all = all_target_links(projects);
        let own = project_target_links(last, last.targets.keys().len() as int);
        target_links_are_dependencies(front, link);
        links_of_one_project(last, last.targets.keys().len() as int, link);
        assert(projects[projects.len() - 1] == last);
        assert forall|i: int| 0 <= i < front.len() implies #[trigger] front[i] == projects[i] by {}
        if before.contains(link) {
            let n = choose|n: int| 0 <= n < before.len() && before[n] == link;
            assert(all[n] == link);
            let (i, k, j) = choose|i: int, k: int, j: int|
                0 <= i < front.len() && 0 <= k < front[i].targets.keys().len() && 0 <= j
                    < front[i].targets@[front[i].targets.keys()[k]].depends_on@.len() && link == (
                    "//"@ + front[i].relative_path@ + ":"@ + front[i].targets.keys()[k],
                    (#[trigger] front[i].targets@[front[i].targets.keys()[k]].depends_on@[j])@,
                );
            assert(projects[i] == front[i]);
            assert(projects[i].targets@[projects[i].targets.keys()[k]].depends_on@[j]@ == link.1);
        }
        if own.contains(link) {
            let n = choose|n: int| 0 <= n < own.len() && own[n] == link;
            assert(all[before.len() + n] == link);
            let at = projects.len() - 1;
            let (k, j) = choose|k: int, j: int|
                0 <= k < last.targets.keys().len() && 0 <= j < last.targets@[last.targets.keys()[k]].depends_on@.len()
                    && link == (
                    "//"@ + last.relative_path@ + ":"@ + last.targets.keys()[k],
                    (#[trigger] last.targets@[last.targets.keys()[k]].depends_on@[j])@,
                );
            assert(projects[at].targets@[projects[at].targets.keys()[k]].depends_on@[j]@ == link.1);
        }
        if all.contains(link) {
            let n = choose|n: int| 0 <= n < all.len() && all[n] == link;
            if n < before.len() {
                assert(before.contains(before[n]));
            } else {
                assert(own.contains(own[n - before.len()]));
            }
        }
        if exists|i: int, k: int, j: int|
            0 <= i < projects.len() && 0 <= k < projects[i].targets.keys().len() && 0 <= j
                < projects[i].targets@[projects[i].targets.keys()[k]].depends_on@.len() && link == (
                "//"@ + projects[i].relative_path@ + ":"@ + projects[i].targets.keys()[k],
                (#[trigger] projects[i].targets@[projects[i].targets.keys()[k]].depends_on@[j])@,
            ) {
            let (i, k, j) = choose|i: int, k: int, j: int|
                0 <= i < projects.len() && 0 <= k < projects[i].targets.keys().len() && 0 <= j
                    < projects[i].targets@[projects[i].targets.keys()[k]].depends_on@.len() && link == (
                    "//"@ + projects[i].relative_path@ + ":"@ + projects[i].targets.keys()[k],
                    (#[trigger] projects[i].targets@[projects[i].targets.keys()[k]].depends_on@[j])@,
                );
            if i < front.len() {
                assert(front[i] == projects[i]);
                assert(front[i].targets@[front[i].targets.keys()[k]].depends_on@[j]@ == link.1);
            } else {
                assert(last.targets@[last.targets.keys()[k]].depends_on@[j]@ == link.1);
            }
        }
    }
}

/// Every target of every project is a node, under its own address, and nothing
/// else is.
pub proof fn every_target_is_a_node(projects: Seq<DiscoveredProject>, node: (Seq<char>, Seq<char>, Seq<char>, Seq<char>))
    ensures
        all_target_texts(projects).contains(node) <==> exists|i: int, k: int|
            0 <= i < projects.len() && 0 <= k < projects[i].targets.keys().len() && node == target_texts(
                projects[i],
                #[trigger] projects[i].targets.keys()[k],
            ),
    decreases projects.len(),
{
    if projects.len() > 0 {
        let front = projects.drop_last();
        let last = projects.last();
        let before = all_target_texts(front);
        let all = all_target_texts(projects);
        let own = last.targets.keys().map_values(|name: Seq<char>| target_texts(last, name));
        every_target_is_a_node(front, node);
        assert(projects[projects.len() - 1] == last);
        assert forall|i: int| 0 <= i < front.len() implies #[trigger] front[i] == projects[i] by {}
        if before.contains(node) {
            let n = choose|n: int| 0 <= n < before.len() && before[n] == node;
            assert(all[n] == node);
            let (i, k) = choose|i: int, k: int|
                0 <= i < front.len() && 0 <= k < front[i].targets.keys().len() && node == target_texts(
                    front[i],
                    #[trigger] front[i].targets.keys()[k],
                );
            assert(projects[i].targets.keys()[k] == front[i].targets.keys()[k]);
        }
        if all.contains(node) {
            let n = choose|n: int| 0 <= n < all.len() && all[n] == node;
            if n < before.len() {
                assert(before.contains(before[n]));
            } else {
                let k = n - before.len();
                assert(own[k] == node);
                assert(projects[projects.len() - 1].targets.keys()[k] == last.targets.keys()[k]);
            }
        }
        if exists|i: int, k: int|
            0 <= i < projects.len() && 0 <= k < projects[i].targets.keys().len() && node == target_texts(
                projects[i],
                #[trigger] projects[i].targets.keys()[k],
            ) {
            let (i, k) = choose|i: int, k: int|
                0 <= i < projects.len() && 0 <= k < projects[i].targets.keys().len() && node == target_texts(
                    projects[i],
                    #[trigger] projects[i].targets.keys()[k],
                );
            if i < front.len() {
                assert(front[i].targets.keys()[k] == projects[i].targets.keys()[k]);
            } else {
                assert(own[k] == node);
                assert(all[before.len() + k] == node);
            }
        }
    }
}

/// The node of a target has its address, that of its project, its name and its
/// command.
pub proof fn nodes_hold_their_target(project: DiscoveredProject, name: Seq<char>)
    ensures
        target_texts(project, name).0 == "//"@ + project.relative_path@ + ":"@ + name,
        target_texts(project, name).1 == "//"@ + project.relative_path@,
        target_texts(project, name).2 == name,
        target_texts(project, name).3 == project.targets@[name].command@,
{
}

} // verus!
