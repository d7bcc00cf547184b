//! Which targets a run needs, and in which order.
use vstd::prelude::*;
use crate::collections::{TextMap, TextSet};
use crate::discovery::scanner::DiscoveredProject;
use crate::plugins::Target;
use crate::text::{chars_of, rfind_char, text_of, texts};

verus! {

/// What stands before and behind the last `c`.
pub open spec fn split_last(s: Seq<char>, c: char) -> Option<(Seq<char>, Seq<char>)>
    decreases s.len(),
{
    if s.len() == 0 {
        None
    } else if s.last() == c {
        Some((s.drop_last(), Seq::empty()))
    } else {
        match split_last(s.drop_last(), c) {
            Some((front, back)) => Some((front, back.push(s.last()))),
            None => None,
        }
    }
}

/// `split_last` divides at the last place where the character stands.
pub proof fn split_last_at(s: Seq<char>, c: char, at: int)
    requires
        0 <= at < s.len(),
        s[at] == c,
        forall|j: int| at < j < s.len() ==> s[j] != c,
    ensures
        split_last(s, c) == Some((s.take(at), s.skip(at + 1))),
    decreases s.len(),
{
    if s.last() == c {
        assert(at == s.len() - 1);
        assert(s.drop_last() =~= s.take(at));
        assert(s.skip(at + 1) =~= Seq::<char>::empty());
    } else {
        let front = s.drop_last();
        assert(front[at] == c);
        split_last_at(front, c, at);
        assert(front.take(at) =~= s.take(at));
        assert(front.skip(at + 1).push(s.last()) =~= s.skip(at + 1));
    }
}

/// Where the character does not stand, there is nothing to divide.
pub proof fn split_last_none(s: Seq<char>, c: char)
    requires
        forall|j: int| 0 <= j < s.len() ==> s[j] != c,
    ensures
        split_last(s, c) is None,
    decreases s.len(),
{
    if s.len() > 0 {
        split_last_none(s.drop_last(), c);
    }
}

/// Parse a target address like "//path/to/project:target" into (project_addr, target_name)
pub fn parse_target_address(addr: &str) -> (parsed: Option<(String, String)>)
    ensures
        parsed is Some <==> split_last(addr@, ':') is Some,
        parsed matches Some((project, target)) ==> split_last(addr@, ':') == Some((project@, target@)),
{
    let chars = chars_of(addr);
    let end: usize = chars.len();
    match rfind_char(&chars, ':') {
        Some(at) => {
            proof {
                split_last_at(addr@, ':', at as int);
                assert(addr@.subrange(0, at as int) =~= addr@.take(at as int));
                assert(addr@.subrange(at + 1, addr@.len() as int) =~= addr@.skip(at + 1));
            }
            Some((text_of(&chars, 0, at), text_of(&chars, at + 1, end)))
        },
        None => {
            proof {
                split_last_none(addr@, ':');
            }
            None
        },
    }
}

/// The target that an address names.
pub open spec fn target_at(projects: Map<Seq<char>, &DiscoveredProject>, address: Seq<char>) -> Option<Target> {
    match split_last(address, ':') {
        Some((project, target)) => if projects.contains_key(project)
            && projects[project].targets@.contains_key(target) {
            Some(projects[project].targets@[target])
        } else {
            None
        },
        None => None,
    }
}

/// The addresses on which the target of an address depends; an address that
/// names no target depends on nothing.
pub open spec fn dependencies_of(
    projects: Map<Seq<char>, &DiscoveredProject>,
    address: Seq<char>,
) -> Seq<Seq<char>> {
    match target_at(projects, address) {
        Some(target) => texts(target.depends_on@),
        None => Seq::empty(),
    }
}

/// An address that is made of a project's address, a colon and a name names
/// the target of that name, and it depends on what that target says.
pub proof fn addresses_name_targets(
    projects: Map<Seq<char>, &DiscoveredProject>,
    project: Seq<char>,
    name: Seq<char>,
)
    requires
        !name.contains(':'),
    ensures
        target_at(projects, project + ":"@ + name) is Some <==> projects.contains_key(project)
            && projects[project].targets@.contains_key(name),
        projects.contains_key(project) && projects[project].targets@.contains_key(name) ==> {
            &&& target_at(projects, project + ":"@ + name) == Some(projects[project].targets@[name])
            &&& dependencies_of(projects, project + ":"@ + name) == texts(
                projects[project].targets@[name].depends_on@,
            )
        },
        !(projects.contains_key(project) && projects[project].targets@.contains_key(name)) ==> dependencies_of(
            projects,
            project + ":"@ + name,
        ).len() == 0,
{
    reveal_strlit(":");
    let address = project + ":"@ + name;
    let at = project.len() as int;
    assert(address[at] == ':');
    assert forall|j: int| at < j < address.len() implies address[j] != ':' by {
        assert(address[j] == name[j - at - 1]);
    }
    split_last_at(address, ':', at);
    assert(address.take(at) =~= project);
    assert(address.skip(at + 1) =~= name);
}

/// The target that an address names.
pub fn find_target<'a>(target_addr: &str, project_map: &TextMap<&'a DiscoveredProject>) -> (target: Option<&'a Target>)
    ensures
        target is Some <==> target_at(project_map@, target_addr@) is Some,
        target matches Some(found) ==> target_at(project_map@, target_addr@) == Some(*found),
{
    match parse_target_address(target_addr) {
        None => None,
        Some((project_addr, target_name)) => match project_map.get(&project_addr) {
            None => None,
            Some(project) => project.targets.get(&target_name),
        },
    }
}

/// The addresses on which a target depends.
pub fn target_dependencies(target_addr: &str, project_map: &TextMap<&DiscoveredProject>) -> (dependencies: Vec<String>)
    ensures
        texts(dependencies@) == dependencies_of(project_map@, target_addr@),
{
    match find_target(target_addr, project_map) {
        Some(target) => target.depends_on.clone(),
        None => {
            let none: Vec<String> = Vec::new();
            assert(texts(none@) =~= Seq::<Seq<char>>::empty());
            none
        },
    }
}

// ---------------------------------------------------------------------------
// Transitive dependencies
// ---------------------------------------------------------------------------

/// An address of the path is a dependency of the one before it and not avoided.
pub open spec fn is_dependency_step(
    projects: Map<Seq<char>, &DiscoveredProject>,
    path: Seq<Seq<char>>,
    avoided: Set<Seq<char>>,
    i: int,
) -> bool {
    dependencies_of(projects, path[i - 1]).contains(path[i]) && !avoided.contains(path[i])
}

/// Each address of the path depends on the next, and none behind the first is avoided.
pub open spec fn is_dependency_path(
    projects: Map<Seq<char>, &DiscoveredProject>,
    path: Seq<Seq<char>>,
    avoided: Set<Seq<char>>,
) -> bool {
    &&& path.len() >= 2
    &&& forall|i: int| 0 < i < path.len() ==> #[trigger] is_dependency_step(projects, path, avoided, i)
}

/// A chain of dependencies leads from one address to another without touching `avoided`.
pub open spec fn depends_avoiding(
    projects: Map<Seq<char>, &DiscoveredProject>,
    from: Seq<char>,
    to: Seq<char>,
    avoided: Set<Seq<char>>,
) -> bool {
    exists|path: Seq<Seq<char>>| #[trigger]
        is_dependency_path(projects, path, avoided) && path.first() == from && path.last() == to
}

/// All dependencies, direct or not, that can be reached without passing `avoided`.
pub open spec fn reachable_dependencies(
    projects: Map<Seq<char>, &DiscoveredProject>,
    from: Seq<char>,
    avoided: Set<Seq<char>>,
) -> Set<Seq<char>> {
    Set::new(|to: Seq<char>| depends_avoiding(projects, from, to, avoided))
}

/// Every address of the set has all its dependencies in `all`.
pub open spec fn closed_in(
    projects: Map<Seq<char>, &DiscoveredProject>,
    part: Set<Seq<char>>,
    all: Set<Seq<char>>,
) -> bool {
    forall|address: Seq<char>, dependency: Seq<char>|
        part.contains(address) && #[trigger] dependencies_of(projects, address).contains(dependency) ==> all.contains(
            dependency,
        )
}

/// A chain of dependencies that avoids some addresses avoids fewer as well.
pub proof fn depends_avoiding_less(
    projects: Map<Seq<char>, &DiscoveredProject>,
    from: Seq<char>,
    to: Seq<char>,
    avoided: Set<Seq<char>>,
    fewer: Set<Seq<char>>,
)
    requires
        depends_avoiding(projects, from, to, avoided),
        fewer.subset_of(avoided),
    ensures
        depends_avoiding(projects, from, to, fewer),
{
    let path = choose|path: Seq<Seq<char>>| #[trigger]
        is_dependency_path(projects, path, avoided) && path.first() == from && path.last() == to;
    assert forall|i: int| 0 < i < path.len() implies #[trigger] is_dependency_step(projects, path, fewer, i) by {
        assert(is_dependency_step(projects, path, avoided, i));
    }
    assert(is_dependency_path(projects, path, fewer));
}

proof fn depends_prepend(
    projects: Map<Seq<char>, &DiscoveredProject>,
    from: Seq<char>,
    via: Seq<char>,
    to: Seq<char>,
    avoided: Set<Seq<char>>,
    more: Set<Seq<char>>,
)
    requires
        dependencies_of(projects, from).contains(via),
        !avoided.contains(via),
        avoided.subset_of(more),
        depends_avoiding(projects, via, to, more),
    ensures
        depends_avoiding(projects, from, to, avoided),
{
    let tail = choose|path: Seq<Seq<char>>| #[trigger]
        is_dependency_path(projects, path, more) && path.first() == via && path.last() == to;
    let path = seq![from] + tail;
    assert forall|i: int| 0 < i < path.len() implies #[trigger] is_dependency_step(projects, path, avoided, i) by {
        if i > 1 {
            assert(is_dependency_step(projects, tail, more, i - 1));
            assert(path[i] == tail[i - 1]);
            assert(path[i - 1] == tail[i - 2]);
        } else {
            assert(path[1] == tail[0]);
        }
    }
    assert(is_dependency_path(projects, path, avoided));
    assert(path.last() == to);
}

proof fn depends_direct(
    projects: Map<Seq<char>, &DiscoveredProject>,
    from: Seq<char>,
    to: Seq<char>,
    avoided: Set<Seq<char>>,
)
    requires
        dependencies_of(projects, from).contains(to),
        !avoided.contains(to),
    ensures
        depends_avoiding(projects, from, to, avoided),
{
    let path = seq![from, to];
    assert(is_dependency_path(projects, path, avoided));
}

proof fn path_stays_inside(
    projects: Map<Seq<char>, &DiscoveredProject>,
    path: Seq<Seq<char>>,
    avoided: Set<Seq<char>>,
    all: Set<Seq<char>>,
    i: int,
)
    requires
        is_dependency_path(projects, path, avoided),
        closed_in(projects, all.difference(avoided).insert(path.first()), all),
        0 < i < path.len(),
    ensures
        all.contains(path[i]),
    decreases i,
{
    assert(is_dependency_step(projects, path, avoided, i));
    if i > 1 {
        path_stays_inside(projects, path, avoided, all, i - 1);
        assert(is_dependency_step(projects, path, avoided, i - 1));
    }
}

spec fn project_dependency_list(project: &DiscoveredProject, count: int) -> Seq<Seq<char>>
    decreases count,
{
    if count <= 0 {
        Seq::empty()
    } else {
        project_dependency_list(project, count - 1) + texts(project.targets.values()[count - 1].depends_on@)
    }
}

spec fn dependency_list(projects: &TextMap<&DiscoveredProject>, count: int) -> Seq<Seq<char>>
    decreases count,
{
    if count <= 0 {
        Seq::empty()
    } else {
        let project = projects.values()[count - 1];
        dependency_list(projects, count - 1) + project_dependency_list(project, project.targets.keys().len() as int)
    }
}

proof fn contains_in_sum(first: Seq<Seq<char>>, second: Seq<Seq<char>>, item: Seq<char>)
    ensures
        first.contains(item) || second.contains(item) ==> (first + second).contains(item),
{
    if first.contains(item) {
        let i = choose|i: int| 0 <= i < first.len() && first[i] == item;
        assert((first + second)[i] == item);
    }
    if second.contains(item) {
        let i = choose|i: int| 0 <= i < second.len() && second[i] == item;
        assert((first + second)[first.len() + i] == item);
    }
}

proof fn project_dependency_listed(project: &DiscoveredProject, count: int, at: int, item: Seq<char>)
    requires
        0 <= at < count,
        texts(project.targets.values()[at].depends_on@).contains(item),
    ensures
        project_dependency_list(project, count).contains(item),
    decreases count,
{
    if at < count - 1 {
        project_dependency_listed(project, count - 1, at, item);
    }
    contains_in_sum(
        project_dependency_list(project, count - 1),
        texts(project.targets.values()[count - 1].depends_on@),
        item,
    );
}

proof fn dependency_listed(projects: &TextMap<&DiscoveredProject>, count: int, at: int, item: Seq<char>)
    requires
        0 <= at < count,
        project_dependency_list(
            projects.values()[at],
            projects.values()[at].targets.keys().len() as int,
        ).contains(item),
    ensures
        dependency_list(projects, count).contains(item),
    decreases count,
{
    if at < count - 1 {
        dependency_listed(projects, count - 1, at, item);
    }
    let project = projects.values()[count - 1];
    contains_in_sum(
        dependency_list(projects, count - 1),
        project_dependency_list(project, project.targets.keys().len() as int),
        item,
    );
}

/// Every address that some target depends on.
spec fn all_dependencies(projects: &TextMap<&DiscoveredProject>) -> Set<Seq<char>> {
    dependency_list(projects, projects.keys().len() as int).to_set()
}

proof fn dependencies_are_listed(projects: &TextMap<&DiscoveredProject>, address: Seq<char>, item: Seq<char>)
    requires
        dependencies_of(projects@, address).contains(item),
    ensures
        all_dependencies(projects).contains(item),
        all_dependencies(projects).finite(),
{
    let (project_address, name) = split_last(address, ':')->0;
    let at = projects.keys().index_of(project_address);
    let project = projects.values()[at];
    let place = project.targets.keys().index_of(name);
    project_dependency_listed(project, project.targets.keys().len() as int, place, item);
    dependency_listed(projects, projects.keys().len() as int, at, item);
    vstd::seq_lib::seq_to_set_is_finite(dependency_list(projects, projects.keys().len() as int));
}

fn collect_into(target_addr: &str, project_map: &TextMap<&DiscoveredProject>, collected: &mut TextSet)
    ensures
        old(collected)@.subset_of(final(collected)@),
        closed_in(
            project_map@,
            final(collected)@.difference(old(collected)@).insert(target_addr@),
            final(collected)@,
        ),
        final(collected)@.difference(old(collected)@).subset_of(
            reachable_dependencies(project_map@, target_addr@, old(collected)@),
        ),
    decreases all_dependencies(project_map).difference(old(collected)@).len(),
{
    let dependencies = target_dependencies(target_addr, project_map);
    let ghost before = collected@;
    let ghost projects = project_map@;
    let ghost wanted = texts(dependencies@);
    let mut i: usize = 0;
    while i < dependencies.len()
        invariant
            i <= dependencies@.len(),
            projects == project_map@,
            before == old(collected)@,
            wanted == texts(dependencies@),
            wanted == dependencies_of(projects, target_addr@),
            before.subset_of(collected@),
            forall|k: int| 0 <= k < i ==> collected@.contains(#[trigger] wanted[k]),
            closed_in(projects, collected@.difference(before), collected@),
            collected@.difference(before).subset_of(reachable_dependencies(projects, target_addr@, before)),
        decreases dependencies@.len() - i,
    {
        let ghost current = collected@;
        let ghost dependency = dependencies@[i as int]@;
        assert(wanted[i as int] == dependency);
        if collected.insert(dependencies[i].clone()) {
            let ghost more = collected@;
            proof {
                assert(wanted.contains(dependency));
                dependencies_are_listed(project_map, target_addr@, dependency);
                let universe = all_dependencies(project_map);
                assert(universe.difference(more) =~= universe.difference(current).remove(dependency));
                assert(universe.difference(current).contains(dependency));
                assert(universe.difference(before).finite());
                vstd::set_lib::lemma_len_subset(universe.difference(current), universe.difference(before));
            }
            collect_into(&dependencies[i], project_map, collected);
            proof {
                let after = collected@;
                assert forall|address: Seq<char>, other: Seq<char>|
                    after.difference(before).contains(address) && #[trigger] dependencies_of(
                        projects,
                        address,
                    ).contains(other) implies after.contains(other) by {
                    if current.contains(address) {
                        assert(current.difference(before).contains(address));
                    } else {
                        assert(after.difference(more).insert(dependency).contains(address));
                    }
                }
                assert forall|address: Seq<char>| #[trigger]
                    after.difference(before).contains(address) implies reachable_dependencies(
                    projects,
                    target_addr@,
                    before,
                ).contains(address) by {
                    if current.contains(address) {
                        assert(current.difference(before).contains(address));
                    } else if address == dependency {
                        depends_direct(projects, target_addr@, dependency, before);
                    } else {
                        assert(after.difference(more).contains(address));
                        assert(depends_avoiding(projects, dependency, address, more));
                        depends_prepend(projects, target_addr@, dependency, address, before, more);
                    }
                }
            }
        } else {
            assert(collected@ =~= current);
        }
        i += 1;
    }
    proof {
        let after = collected@;
        assert forall|address: Seq<char>, other: Seq<char>|
            after.difference(before).insert(target_addr@).contains(address) && #[trigger] dependencies_of(
                projects,
                address,
            ).contains(other) implies after.contains(other) by {
            if address == target_addr@ {
                let k = choose|k: int| 0 <= k < wanted.len() && wanted[k] == other;
                assert(after.contains(wanted[k]));
            }
        }
    }
}

/// Recursively collect all target dependencies for a given target
///
/// Follows Target.depends_on which should already be fully resolved (including
/// cross-project :build dependencies). What was collected before is not
/// followed again.
pub fn collect_target_deps(target_addr: &str, project_map: &TextMap<&DiscoveredProject>, collected: &mut TextSet)
    ensures
        final(collected)@ == old(collected)@.union(
            reachable_dependencies(project_map@, target_addr@, old(collected)@),
        ),
{
    let ghost before = collected@;
    collect_into(target_addr, project_map, collected);
    proof {
        let projects = project_map@;
        let after = collected@;
        let reached = reachable_dependencies(projects, target_addr@, before);
        assert forall|address: Seq<char>| #[trigger] reached.contains(address) implies after.contains(address) by {
            let path = choose|path: Seq<Seq<char>>| #[trigger]
                is_dependency_path(projects, path, before) && path.first() == target_addr@ && path.last() == address;
            path_stays_inside(projects, path, before, after, path.len() - 1);
        }
        assert(after =~= before.union(reached));
    }
}

/// Where only the targets of `pending` may still lack dependencies in a set,
/// adding what `collect_target_deps` collects for one of them leaves only the
/// others pending.
pub proof fn collecting_closes(
    projects: Map<Seq<char>, &DiscoveredProject>,
    target: Seq<char>,
    before: Set<Seq<char>>,
    pending: Set<Seq<char>>,
)
    requires
        closed_in(projects, before.difference(pending), before),
    ensures
        closed_in(
            projects,
            before.union(reachable_dependencies(projects, target, before)).difference(pending.remove(target)),
            before.union(reachable_dependencies(projects, target, before)),
        ),
{
    let all = before.union(reachable_dependencies(projects, target, before));
    assert forall|address: Seq<char>, dependency: Seq<char>|
        all.difference(pending.remove(target)).contains(address) && #[trigger] dependencies_of(
            projects,
            address,
        ).contains(dependency) implies all.contains(dependency) by {
        if !before.contains(dependency) {
            if address == target {
                depends_direct(projects, target, dependency, before);
            } else if before.contains(address) {
                assert(before.difference(pending).contains(address));
            } else {
                let path = choose|path: Seq<Seq<char>>| #[trigger]
                    is_dependency_path(projects, path, before) && path.first() == target && path.last() == address;
                let longer = path.push(dependency);
                assert forall|i: int| 0 < i < longer.len() implies #[trigger] is_dependency_step(
                    projects,
                    longer,
                    before,
                    i,
                ) by {
                    if i < path.len() {
                        assert(is_dependency_step(projects, path, before, i));
                    } else {
                        assert(longer[i - 1] == path.last());
                    }
                }
                assert(is_dependency_path(projects, longer, before));
                assert(longer.first() == target && longer.last() == dependency);
            }
        }
    }
}

} // verus!
