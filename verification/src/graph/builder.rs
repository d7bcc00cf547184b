//! Graph construction from discovered projects
//!
//! Builds a directed graph where nodes are projects and edges represent
//! dependencies between them.
use petgraph::graph::DiGraph;
use vstd::prelude::*;
use crate::collections::TextMap;
use crate::discovery::scanner::{address_of, project_address, DiscoveredProject};
use crate::graph::addressed::{addressed_graph, addresses_of, index_fits, last_position_found, link_texts, linked, linked_edges};
use crate::graph::digraph::{edges_within, graph_edges, graph_nodes, has_cycle, ints, is_dependency_order, is_topological, predecessors, predecessors_of, predecessors_of_edges, successors, successors_of, successors_of_edges, topological_sort};
use crate::paths::{join_path, normalize_path, normalized, path_join};
use crate::plugins::LocalDependency;
use crate::text::{chars_of, concat5, find_char, starts_with, text_of, texts};

verus! {

/// A node in the dependency graph representing a project
#[derive(Debug, Clone)]
pub struct ProjectNode {
    /// Project address (//path/to/project)
    pub address: String,
    /// Project name (from metadata)
    pub name: String,
    /// Absolute path to project root
    pub root: String,
}

/// The dependency graph of projects
pub struct ProjectGraph {
    /// The underlying directed graph; each node weighs its place in `nodes`
    pub graph: DiGraph<usize, ()>,
    /// The projects, in the order of the graph's node indices
    pub nodes: Vec<ProjectNode>,
    /// Map from address to node index for fast lookups
    pub index_by_address: TextMap<usize>,
}

/// The part of an address in front of its target.
pub open spec fn without_target(address: Seq<char>) -> Seq<char>
    decreases address.len(),
{
    if address.len() == 0 || address[0] == ':' {
        Seq::empty()
    } else {
        seq![address[0]] + without_target(address.skip(1))
    }
}

proof fn without_target_is_prefix(address: Seq<char>, end: int)
    requires
        0 <= end <= address.len(),
        forall|j: int| 0 <= j < end ==> address[j] != ':',
        end < address.len() ==> address[end] == ':',
    ensures
        without_target(address) == address.take(end),
    decreases end,
{
    if end == 0 {
        assert(address.take(0) =~= Seq::<char>::empty());
    } else {
        let rest = address.skip(1);
        assert forall|j: int| 0 <= j < end - 1 implies rest[j] != ':' by {
            assert(address[j + 1] != ':');
        }
        without_target_is_prefix(rest, end - 1);
        assert(address.take(end) =~= seq![address[0]] + rest.take(end - 1));
    }
}

/// The part of an address in front of its target.
pub fn strip_target(address: &str) -> (stripped: String)
    ensures
        stripped@ == without_target(address@),
{
    let chars = chars_of(address);
    let end: usize = match find_char(&chars, ':', 0) {
        Some(at) => at,
        None => chars.len(),
    };
    proof {
        without_target_is_prefix(address@, end as int);
        assert(address@.subrange(0, end as int) =~= address@.take(end as int));
    }
    text_of(&chars, 0, end)
}

/// The address of the project that a dependency names: an address without its
/// target, or a path seen from the project's directory.
pub open spec fn dependency_address(relative_path: Seq<char>, path: Seq<char>) -> Seq<char> {
    if "//"@.is_prefix_of(path) {
        without_target(path)
    } else {
        address_of(normalized(path_join(relative_path, path)))
    }
}

/// Resolve a dependency to its address
///
/// Dependencies can be:
/// - Already an address: //libs/shared or //libs/shared:build
/// - A relative file path: ../../libs/shared
pub fn resolve_dependency_address(project: &DiscoveredProject, dep: &LocalDependency) -> (address: String)
    ensures
        address@ == dependency_address(project.relative_path@, dep.path@),
{
    if starts_with(&dep.path, "//") {
        return strip_target(&dep.path);
    }
    let resolved = join_path(&project.relative_path, &dep.path);
    project_address(&normalize_path(&resolved))
}

/// The addresses of projects.
pub open spec fn project_addresses(projects: Seq<DiscoveredProject>) -> Seq<Seq<char>> {
    projects.map_values(|project: DiscoveredProject| address_of(project.relative_path@))
}

/// The links from a project to what it depends on, by address.
pub open spec fn links_of(project: DiscoveredProject) -> Seq<(Seq<char>, Seq<char>)> {
    project.dependencies@.map_values(
        |dep: LocalDependency|
            (address_of(project.relative_path@), dependency_address(project.relative_path@, dep.path@)),
    )
}

/// The links of all projects, in order.
pub open spec fn project_links(projects: Seq<DiscoveredProject>) -> Seq<(Seq<char>, Seq<char>)>
    decreases projects.len(),
{
    if projects.len() == 0 {
        Seq::empty()
    } else {
        project_links(projects.drop_last()) + links_of(projects.last())
    }
}

/// A node carries a project's address, name and root.
pub open spec fn node_of(node: ProjectNode, project: DiscoveredProject) -> bool {
    &&& node.address@ == address_of(project.relative_path@)
    &&& node.name@ == project.metadata.name@
    &&& node.root@ == project.root@
}

impl ProjectGraph {
    /// The addresses of the nodes.
    pub open spec fn addresses(&self) -> Seq<Seq<char>> {
        self.nodes@.map_values(|node: ProjectNode| node.address@)
    }

    /// The edges between nodes, from dependent to dependency.
    pub open spec fn edges(&self) -> Seq<(int, int)> {
        graph_edges(self.graph)
    }

    /// The graph has one node for each project, its edges join them, and the
    /// index finds them.
    pub open spec fn well_formed(&self) -> bool {
        &&& graph_nodes(self.graph).len() == self.nodes@.len()
        &&& self.nodes@.len() <= u32::MAX
        &&& edges_within(self.edges(), self.nodes@.len())
        &&& index_fits(self.index_by_address@, self.addresses())
    }

    /// The number of the node that an address names.
    pub open spec fn node_at(&self, address: Seq<char>) -> Option<int> {
        crate::graph::addressed::last_position(self.addresses(), address)
    }
}

fn collect_links(projects: &Vec<DiscoveredProject>) -> (links: Vec<(String, String)>)
    ensures
        link_texts(links@) == project_links(projects@),
{
    let mut links: Vec<(String, String)> = Vec::new();
    let mut i: usize = 0;
    assert(projects@.take(0) =~= Seq::<DiscoveredProject>::empty());
    assert(link_texts(links@) =~= Seq::<(Seq<char>, Seq<char>)>::empty());
    while i < projects.len()
        invariant
            i <= projects@.len(),
            link_texts(links@) == project_links(projects@.take(i as int)),
        decreases projects@.len() - i,
    {
        let project = &projects[i];
        let ghost before = link_texts(links@);
        let ghost own = links_of(*project);
        let mut j: usize = 0;
        assert(before + own.take(0) =~= before);
        while j < project.dependencies.len()
            invariant
                j <= project.dependencies@.len(),
                own == links_of(*project),
                link_texts(links@) == before + own.take(j as int),
            decreases project.dependencies@.len() - j,
        {
            let from = project_address(&project.relative_path);
            let to = resolve_dependency_address(project, &project.dependencies[j]);
            let ghost link = (from@, to@);
            let ghost so_far = link_texts(links@);
            links.push((from, to));
            proof {
                assert(link_texts(links@) =~= so_far.push(link));
                assert(own[j as int] == link);
                assert(own.take(j + 1) =~= own.take(j as int).push(link));
                assert(so_far.push(link) =~= before + own.take(j + 1));
            }
            j += 1;
        }
        proof {
            assert(own.take(own.len() as int) =~= own);
            assert(projects@.take(i + 1).drop_last() =~= projects@.take(i as int));
            assert(projects@.take(i + 1).last() == *project);
        }
        i += 1;
    }
    assert(projects@.take(projects@.len() as int) =~= projects@);
    links
}

/// Build a dependency graph from discovered projects
///
/// Each project is a node, and each dependency on a project of the workspace
/// an edge (dependent -> dependency). `dependency_warnings` lists the
/// dependencies that name no project.
pub fn build_graph(projects: &Vec<DiscoveredProject>) -> (graph: Result<ProjectGraph, String>)
    requires
        projects@.len() <= u32::MAX,
        project_links(projects@).len() <= u32::MAX,
    ensures
        graph is Ok,
        graph matches Ok(built) ==> {
            &&& built.well_formed()
            &&& built.nodes@.len() == projects@.len()
            &&& forall|i: int| 0 <= i < projects@.len() ==> node_of(#[trigger] built.nodes@[i], projects@[i])
            &&& built.addresses() == project_addresses(projects@)
            &&& built.edges() == linked(project_addresses(projects@), project_links(projects@))
        },
{
    let mut nodes: Vec<ProjectNode> = Vec::new();
    let mut addresses: Vec<String> = Vec::new();
    let mut i: usize = 0;
    while i < projects.len()
        invariant
            i <= projects@.len(),
            nodes@.len() == i,
            addresses@.len() == i,
            forall|k: int| 0 <= k < i ==> node_of(#[trigger] nodes@[k], projects@[k]),
            forall|k: int|
                0 <= k < i ==> (#[trigger] addresses@[k])@ == address_of(projects@[k].relative_path@),
        decreases projects@.len() - i,
    {
        let project = &projects[i];
        let address = project_address(&project.relative_path);
        nodes.push(
            ProjectNode {
                address: address.clone(),
                name: project.metadata.name.clone(),
                root: project.root.clone(),
            },
        );
        addresses.push(address);
        i += 1;
    }
    let links = collect_links(projects);
    proof {
        assert(texts(addresses@) =~= project_addresses(projects@));
        assert(links@.len() == link_texts(links@).len());
        linked_edges(project_addresses(projects@), project_links(projects@), (0, 0));
    }
    let (graph, index_by_address) = addressed_graph(&addresses, &links);
    let built = ProjectGraph { graph, nodes, index_by_address };
    assert(built.addresses() =~= project_addresses(projects@));
    Ok(built)
}

/// What is said of a dependency that names no project of the workspace.
pub open spec fn missing_dependency_text(link: (Seq<char>, Seq<char>)) -> Seq<char> {
    "warning: dependency "@ + link.1 + " from "@ + link.0 + " not found in workspace"@
}

/// The warnings of the links whose target no project has.
pub open spec fn missing_links(addresses: Seq<Seq<char>>, links: Seq<(Seq<char>, Seq<char>)>) -> Seq<Seq<char>>
    decreases links.len(),
{
    if links.len() == 0 {
        Seq::empty()
    } else {
        let earlier = missing_links(addresses, links.drop_last());
        if addresses.contains(links.last().1) {
            earlier
        } else {
            earlier.push(missing_dependency_text(links.last()))
        }
    }
}

/// A warning for each dependency that names no project of the workspace. This
/// can happen with cross-language dependencies.
pub fn dependency_warnings(projects: &Vec<DiscoveredProject>) -> (warnings: Vec<String>)
    ensures
        texts(warnings@) == missing_links(project_addresses(projects@), project_links(projects@)),
{
    let mut addresses: Vec<String> = Vec::new();
    let mut i: usize = 0;
    while i < projects.len()
        invariant
            i <= projects@.len(),
            addresses@.len() == i,
            forall|k: int|
                0 <= k < i ==> (#[trigger] addresses@[k])@ == address_of(projects@[k].relative_path@),
        decreases projects@.len() - i,
    {
        addresses.push(project_address(&projects[i].relative_path));
        i += 1;
    }
    assert(texts(addresses@) =~= project_addresses(projects@));
    let links = collect_links(projects);
    let mut warnings: Vec<String> = Vec::new();
    let ghost wanted = link_texts(links@);
    let mut j: usize = 0;
    assert(texts(warnings@) =~= Seq::<Seq<char>>::empty());
    while j < links.len()
        invariant
            j <= links@.len(),
            wanted == link_texts(links@),
            texts(warnings@) == missing_links(texts(addresses@), wanted.take(j as int)),
        decreases links@.len() - j,
    {
        let ghost before = texts(warnings@);
        proof {
            assert(wanted.take(j + 1).drop_last() =~= wanted.take(j as int));
            assert(wanted.take(j + 1).last() == (links@[j as int].0@, links@[j as int].1@));
        }
        if !crate::text::contains_item(&addresses, &links[j].1) {
            let warning = concat5(
                "warning: dependency ",
                &links[j].1,
                " from ",
                &links[j].0,
                " not found in workspace",
            );
            let ghost line = warning@;
            warnings.push(warning);
            assert(texts(warnings@) =~= before.push(line));
        }
        j += 1;
    }
    assert(wanted.take(wanted.len() as int) =~= wanted);
    warnings
}

impl ProjectGraph {
    /// The number of the node that an address names.
    pub fn find(&self, address: &str) -> (node: Option<usize>)
        requires
            self.well_formed(),
        ensures
            node is Some <==> self.node_at(address@) is Some,
            node matches Some(at) ==> self.node_at(address@) == Some(at as int) && at < self.nodes@.len()
                && self.nodes@[at as int].address@ == address@,
    {
        proof {
            last_position_found(self.addresses(), address@);
            assert(self.index_by_address@.contains_key(address@) <==> self.node_at(address@) is Some);
        }
        match self.index_by_address.get(address) {
            Some(at) => Some(*at),
            None => None,
        }
    }

    /// Return projects in dependency order (dependencies before dependents)
    pub fn topological_order(&self) -> (order: Vec<&ProjectNode>)
        requires
            self.well_formed(),
            !has_cycle(self.edges()),
        ensures
            exists|places: Seq<int>| #![auto]
                is_dependency_order(places, self.edges(), self.nodes@.len()) && order@.len() == places.len()
                    && forall|i: int| 0 <= i < places.len() ==> *order@[i] == self.nodes@[places[i]],
    {
        let sorted = topological_sort(&self.graph).unwrap();
        let mut order: Vec<&ProjectNode> = Vec::new();
        let ghost places = ints(sorted@).reverse();
        let mut i: usize = sorted.len();
        while i > 0
            invariant
                self.well_formed(),
                i <= sorted@.len(),
                places == ints(sorted@).reverse(),
                is_topological(ints(sorted@), self.edges(), self.nodes@.len()),
                order@.len() == sorted@.len() - i,
                forall|k: int| 0 <= k < order@.len() ==> *(#[trigger] order@[k]) == self.nodes@[places[k]],
            decreases i,
        {
            i -= 1;
            proof {
                assert(ints(sorted@)[i as int] == sorted@[i as int]);
                assert(places[sorted@.len() - 1 - i] == sorted@[i as int]);
            }
            order.push(&self.nodes[sorted[i]]);
        }
        proof {
            let forward = ints(sorted@);
            assert forall|i: int| 0 <= i < places.len() implies 0 <= #[trigger] places[i] < self.nodes@.len() by {
                assert(places[i] == forward[forward.len() - 1 - i]);
            }
            assert forall|i: int, j: int|
                0 <= i < places.len() && 0 <= j < places.len() && self.edges().contains(
                    (#[trigger] places[i], #[trigger] places[j]),
                ) implies j < i by {
                assert(places[i] == forward[forward.len() - 1 - i]);
                assert(places[j] == forward[forward.len() - 1 - j]);
            }
            assert(is_dependency_order(places, self.edges(), self.nodes@.len()));
        }
        order
    }

    /// Get a project node by address
    pub fn get(&self, address: &str) -> (node: Option<&ProjectNode>)
        requires
            self.well_formed(),
        ensures
            node is Some <==> self.node_at(address@) is Some,
            node matches Some(found) ==> *found == self.nodes@[self.node_at(address@)->0] && found.address@ == address@,
    {
        match self.find(address) {
            Some(at) => Some(&self.nodes[at]),
            None => None,
        }
    }

    /// Get all project nodes
    pub fn projects(&self) -> (nodes: &Vec<ProjectNode>)
        ensures
            nodes == self.nodes,
    {
        &self.nodes
    }

    /// Get direct dependencies of a project
    pub fn dependencies(&self, address: &str) -> (nodes: Vec<&ProjectNode>)
        requires
            self.well_formed(),
        ensures
            self.node_at(address@) is None ==> nodes@.len() == 0,
            self.node_at(address@) matches Some(at) ==> {
                let found = successors_of(self.edges(), at);
                &&& nodes@.len() == found.len()
                &&& forall|i: int| 0 <= i < found.len() ==> *(#[trigger] nodes@[i]) == self.nodes@[found[i]]
            },
    {
        let mut nodes: Vec<&ProjectNode> = Vec::new();
        if let Some(at) = self.find(address) {
            let found = successors(&self.graph, at);
            let ghost places = successors_of(self.edges(), at as int);
            let mut i: usize = 0;
            while i < found.len()
                invariant
                    self.well_formed(),
                    at < self.nodes@.len(),
                    i <= found@.len(),
                    places == successors_of(self.edges(), at as int),
                    ints(found@) == places,
                    nodes@.len() == i,
                    forall|k: int| 0 <= k < i ==> *(#[trigger] nodes@[k]) == self.nodes@[places[k]],
                decreases found@.len() - i,
            {
                proof {
                    assert(places[i as int] == found@[i as int]);
                    assert(places.contains(places[i as int]));
                    successors_of_edges(self.edges(), at as int, places[i as int]);
                }
                nodes.push(&self.nodes[found[i]]);
                i += 1;
            }
            assert(places.len() == found@.len());
        }
        nodes
    }

    /// Get the addresses of the projects that depend directly on a project
    pub fn dependents(&self, address: &str) -> (addresses: Vec<String>)
        requires
            self.well_formed(),
        ensures
            self.node_at(address@) is None ==> addresses@.len() == 0,
            self.node_at(address@) matches Some(at) ==> texts(addresses@) == addresses_of(self.addresses(), predecessors_of(
                self.edges(),
                at,
            )),
    {
        let mut addresses: Vec<String> = Vec::new();
        if let Some(at) = self.find(address) {
            let found = predecessors(&self.graph, at);
            let ghost places = predecessors_of(self.edges(), at as int);
            let mut i: usize = 0;
            while i < found.len()
                invariant
                    self.well_formed(),
                    at < self.nodes@.len(),
                    i <= found@.len(),
                    places == predecessors_of(self.edges(), at as int),
                    ints(found@) == places,
                    addresses@.len() == i,
                    forall|k: int| 0 <= k < i ==> (#[trigger] addresses@[k])@ == self.addresses()[places[k]],
                decreases found@.len() - i,
            {
                proof {
                    assert(places[i as int] == found@[i as int]);
                    assert(places.contains(places[i as int]));
                    predecessors_of_edges(self.edges(), at as int, places[i as int]);
                }
                addresses.push(self.nodes[found[i]].address.clone());
                i += 1;
            }
            assert(places.len() == found@.len());
            assert(texts(addresses@) =~= addresses_of(self.addresses(), places));
        }
        addresses
    }
}

/// An address with a target loses the target and the colon; one without stays
/// as it is.
pub proof fn targets_are_stripped(project: Seq<char>, target: Seq<char>)
    requires
        !project.contains(':'),
    ensures
        without_target(project) == project,
        without_target(project + ":"@ + target) == project,
{
    reveal_strlit(":");
    let all = project + ":"@ + target;
    let end = project.len() as int;
    assert forall|j: int| 0 <= j < end implies project[j] != ':' && all[j] != ':' by {
        assert(project.contains(project[j]));
    }
    without_target_is_prefix(project, end);
    without_target_is_prefix(all, end);
    assert(project.take(end) =~= project);
    assert(all.take(end) =~= project);
}

/// Two projects are linked where the first names the second among its
/// dependencies, and only there.
pub proof fn links_are_dependencies(projects: Seq<DiscoveredProject>, link: (Seq<char>, Seq<char>))
    ensures
        project_links(projects).contains(link) <==> exists|i: int, j: int|
            0 <= i < projects.len() && 0 <= j < projects[i].dependencies@.len() && link == (
                "//"@ + projects[i].relative_path@,
                dependency_address(
                    projects[i].relative_path@,
                    (#[trigger] projects[i].dependencies@[j]).path@,
                ),
            ),
    decreases projects.len(),
{
    if projects.len() > 0 {
        let front = projects.drop_last();
        let last = projects.last();
        let before = project_links(front);
        let own = links_of(last);
        let all = project_links(projects);
        links_are_dependencies(front, link);
        if all.contains(link) {
            let k = choose|k: int| 0 <= k < all.len() && all[k] == link;
            if k < before.len() {
                assert(before.contains(before[k]));
                let (i, j) = choose|i: int, j: int|
                    0 <= i < front.len() && 0 <= j < front[i].dependencies@.len() && link == (
                        "//"@ + front[i].relative_path@,
                        dependency_address(
                            front[i].relative_path@,
                            (#[trigger] front[i].dependencies@[j]).path@,
                        ),
                    );
                assert(projects[i].dependencies@[j] == front[i].dependencies@[j]);
            } else {
                let j = k - before.len();
                assert(own[j] == link);
                assert(projects[projects.len() - 1].dependencies@[j] == last.dependencies@[j]);
            }
        }
        if exists|i: int, j: int|
            0 <= i < projects.len() && 0 <= j < projects[i].dependencies@.len() && link == (
                "//"@ + projects[i].relative_path@,
                dependency_address(
                    projects[i].relative_path@,
                    (#[trigger] projects[i].dependencies@[j]).path@,
                ),
            ) {
            let (i, j) = choose|i: int, j: int|
                0 <= i < projects.len() && 0 <= j < projects[i].dependencies@.len() && link == (
                    "//"@ + projects[i].relative_path@,
                    dependency_address(
                        projects[i].relative_path@,
                        (#[trigger] projects[i].dependencies@[j]).path@,
                    ),
                );
            if i < front.len() {
                assert(front[i].dependencies@[j] == projects[i].dependencies@[j]);
                let k = choose|k: int| 0 <= k < before.len() && before[k] == link;
                assert(all[k] == link);
            } else {
                assert(own[j] == link);
                assert(all[before.len() + j] == link);
            }
        }
    }
}

/// A dependency is warned of where it names no project, and only there.
pub proof fn only_missing_dependencies_are_warned_of(
    addresses: Seq<Seq<char>>,
    links: Seq<(Seq<char>, Seq<char>)>,
    warning: Seq<char>,
)
    ensures
        missing_links(addresses, links).contains(warning) <==> exists|i: int|
            0 <= i < links.len() && !addresses.contains((#[trigger] links[i]).1) && warning
                == missing_dependency_text(links[i]),
        missing_links(addresses, links).len() <= links.len(),
        (forall|i: int| 0 <= i < links.len() ==> addresses.contains((#[trigger] links[i]).1)) <==> missing_links(
            addresses,
            links,
        ).len() == 0,
    decreases links.len(),
{
    if links.len() > 0 {
        let front = links.drop_last();
        let last = links.last();
        let before = missing_links(addresses, front);
        let all = missing_links(addresses, links);
        only_missing_dependencies_are_warned_of(addresses, front, warning);
        assert(last == links[links.len() - 1]);
        assert forall|i: int| 0 <= i < front.len() implies #[trigger] front[i] == links[i] by {}
        if before.contains(warning) {
            let k = choose|k: int| 0 <= k < before.len() && before[k] == warning;
            assert(all[k] == warning);
            let i = choose|i: int|
                0 <= i < front.len() && !addresses.contains((#[trigger] front[i]).1) && warning
                    == missing_dependency_text(front[i]);
            assert(links[i] == front[i]);
        }
        if all.contains(warning) {
            let k = choose|k: int| 0 <= k < all.len() && all[k] == warning;
            if k < before.len() {
                assert(before.contains(before[k]));
            }
        }
        if !addresses.contains(last.1) {
            assert(all[before.len() as int] == missing_dependency_text(last));
        }
        if exists|i: int|
            0 <= i < links.len() && !addresses.contains((#[trigger] links[i]).1) && warning
                == missing_dependency_text(links[i]) {
            let i = choose|i: int|
                0 <= i < links.len() && !addresses.contains((#[trigger] links[i]).1) && warning
                    == missing_dependency_text(links[i]);
            if i < front.len() {
                assert(front[i] == links[i]);
            }
        }
        if forall|i: int| 0 <= i < front.len() ==> addresses.contains((#[trigger] front[i]).1) {
            if addresses.contains(last.1) {
                assert forall|i: int| 0 <= i < links.len() implies addresses.contains((#[trigger] links[i]).1) by {
                    if i < front.len() {
                        assert(front[i] == links[i]);
                    }
                }
            }
        } else {
            let i = choose|i: int| 0 <= i < front.len() && !addresses.contains((#[trigger] front[i]).1);
            assert(links[i] == front[i]);
        }
    }
}

/// A dependency by address is the project of that address, with or without a target;
/// one by path is seen from the directory of the project that has it.
pub proof fn dependencies_name_projects(directory: Seq<char>, path: Seq<char>, target: Seq<char>)
    ensures
        "//"@.is_prefix_of(path) && !path.contains(':') ==> dependency_address(directory, path) == path
            && dependency_address(directory, path + ":"@ + target) == path,
        !"//"@.is_prefix_of(path) ==> dependency_address(directory, path) == "//"@ + normalized(
            path_join(directory, path),
        ),
{
    if "//"@.is_prefix_of(path) && !path.contains(':') {
        targets_are_stripped(path, target);
        let all = path + ":"@ + target;
        assert("//"@ =~= all.take("//"@.len() as int));
        assert("//"@.is_prefix_of(all));
    }
}

} // verus!
