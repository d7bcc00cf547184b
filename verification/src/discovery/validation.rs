//! What must hold of the projects of a workspace as a whole.
use vstd::prelude::*;
use crate::collections::{set_of, TextMap, TextSet};
use crate::discovery::placeholders::{
    addresses_by_name, dependency_texts, is_resolved, keeps_siblings, kept_dependencies,
    names_go_by_plugin_name_and_path, resolve_ruby_workspace_dependencies_partial,
    resolve_umbrella_dependencies_partial, resolve_uv_workspace_dependencies_partial, resolved_dependencies,
};
use crate::discovery::scanner::{address_of, pair_texts, project_address, DiscoveredProject, DiscoveryError, PartialProject};
use crate::graph::builder::project_addresses;
use crate::graph::targets::{all_target_addresses, all_target_texts, target_address_of, target_addresses, target_texts};
use crate::plugins::Target;
use crate::text::{concat3, same_text, texts};

verus! {

// ---------------------------------------------------------------------------
// Names
// ---------------------------------------------------------------------------

/// Another project has the same name.
pub open spec fn collides(projects: Seq<DiscoveredProject>, at: int) -> bool {
    exists|i: int| 0 <= i < projects.len() && i != at && (#[trigger] projects[i]).metadata.name@
        == projects[at].metadata.name@
}

/// The name of a project: a name that several projects have gets the plugin's name behind it.
pub open spec fn unique_name(projects: Seq<DiscoveredProject>, at: int) -> Seq<char> {
    if collides(projects, at) {
        projects[at].metadata.name@ + "-"@ + projects[at].plugin_name@
    } else {
        projects[at].metadata.name@
    }
}

/// Everything but the name is the same.
pub open spec fn same_but_name(a: DiscoveredProject, b: DiscoveredProject) -> bool {
    &&& a.root == b.root
    &&& a.config_path == b.config_path
    &&& a.metadata.version == b.metadata.version
    &&& a.dependencies == b.dependencies
    &&& a.targets == b.targets
    &&& a.plugin_name == b.plugin_name
    &&& a.relative_path == b.relative_path
}

/// Resolve name collisions by appending plugin suffix
///
/// If two projects have the same name, both get renamed to {name}-{plugin}
pub fn resolve_name_collisions(projects: &mut Vec<DiscoveredProject>)
    ensures
        final(projects)@.len() == old(projects)@.len(),
        forall|i: int|
            0 <= i < old(projects)@.len() ==> same_but_name(old(projects)@[i], #[trigger] final(projects)@[i])
                && final(projects)@[i].metadata.name@ == unique_name(old(projects)@, i),
{
    let ghost start = projects@;
    let count: usize = projects.len();
    let mut marks: Vec<bool> = Vec::new();
    let mut i: usize = 0;
    while i < count
        invariant
            i <= count,
            count == start.len(),
            projects@ == start,
            marks@.len() == i,
            forall|k: int| 0 <= k < i ==> #[trigger] marks@[k] == collides(start, k),
        decreases count - i,
    {
        let mut found = false;
        let mut j: usize = 0;
        while j < count
            invariant
                i < count,
                j <= count,
                count == start.len(),
                projects@ == start,
                found == (exists|k: int|
                    0 <= k < j && k != i && (#[trigger] start[k]).metadata.name@ == start[i as int].metadata.name@),
            decreases count - j,
        {
            if j != i && same_text(&projects[j].metadata.name, &projects[i].metadata.name) {
                assert(start[j as int].metadata.name@ == start[i as int].metadata.name@);
                found = true;
            }
            j += 1;
        }
        marks.push(found);
        i += 1;
    }
    let mut n: usize = 0;
    while n < count
        invariant
            n <= count,
            count == start.len(),
            start == old(projects)@,
            projects@.len() == start.len(),
            marks@.len() == count,
            forall|k: int| 0 <= k < count ==> #[trigger] marks@[k] == collides(start, k),
            forall|k: int|
                0 <= k < n ==> same_but_name(start[k], #[trigger] projects@[k]) && projects@[k].metadata.name@
                    == unique_name(start, k),
            forall|k: int| n <= k < count ==> #[trigger] projects@[k] == start[k],
        decreases count - n,
    {
        if marks[n] {
            let name = concat3(&projects[n].metadata.name, "-", &projects[n].plugin_name);
            projects[n].metadata.name = name;
        }
        n += 1;
    }
}

// ---------------------------------------------------------------------------
// Addresses
// ---------------------------------------------------------------------------

/// The error names the first two projects with the same address.
pub open spec fn names_duplicate(error: DiscoveryError, projects: Seq<DiscoveredProject>) -> bool {
    exists|i: int, j: int|
        {
            &&& 0 <= i < j < projects.len()
            &&& (#[trigger] projects[i]).relative_path@ == (#[trigger] projects[j]).relative_path@
            &&& project_addresses(projects).take(j).no_duplicates()
            &&& error matches DiscoveryError::SameAddress { address, first, first_plugin, second, second_plugin }
                && address@ == address_of(projects[j].relative_path@) && first@ == projects[i].config_path@
                && first_plugin@ == projects[i].plugin_name@ && second@ == projects[j].config_path@ && second_plugin@
                == projects[j].plugin_name@
        }
}

/// No two projects may have the same address.
pub fn validate_project_addresses(projects: &Vec<DiscoveredProject>) -> (valid: Result<(), DiscoveryError>)
    ensures
        valid is Ok <==> project_addresses(projects@).no_duplicates(),
        valid matches Err(error) ==> names_duplicate(error, projects@),
{
    let ghost all = project_addresses(projects@);
    let mut j: usize = 0;
    while j < projects.len()
        invariant
            j <= projects@.len(),
            all == project_addresses(projects@),
            all.take(j as int).no_duplicates(),
        decreases projects@.len() - j,
    {
        let mut i: usize = 0;
        while i < j
            invariant
                i <= j,
                j < projects@.len(),
                all == project_addresses(projects@),
                all.take(j as int).no_duplicates(),
                forall|k: int| 0 <= k < i ==> (#[trigger] projects@[k]).relative_path@
                    != projects@[j as int].relative_path@,
            decreases j - i,
        {
            if same_text(&projects[i].relative_path, &projects[j].relative_path) {
                let first = &projects[i];
                let second = &projects[j];
                proof {
                    assert(all[i as int] == all[j as int]);
                    assert(!all.no_duplicates());
                    assert(projects@[i as int].relative_path@ == projects@[j as int].relative_path@);
                }
                return Err(
                    DiscoveryError::SameAddress {
                        address: project_address(&second.relative_path),
                        first: first.config_path.clone(),
                        first_plugin: first.plugin_name.clone(),
                        second: second.config_path.clone(),
                        second_plugin: second.plugin_name.clone(),
                    },
                );
            }
            i += 1;
        }
        proof {
            let next = all.take(j + 1);
            assert forall|a: int, b: int| 0 <= a < next.len() && 0 <= b < next.len() && a != b implies next[a]
                != next[b] by {
                if a < j && b < j {
                    assert(all.take(j as int)[a] == next[a]);
                    assert(all.take(j as int)[b] == next[b]);
                } else {
                    let k = if a < j {
                        a
                    } else {
                        b
                    };
                    let path = projects@[k].relative_path@;
                    let last = projects@[j as int].relative_path@;
                    assert(path != last);
                    if address_of(path) == address_of(last) {
                        assert(address_of(path).skip("//"@.len() as int) =~= path);
                        assert(address_of(last).skip("//"@.len() as int) =~= last);
                    }
                }
            }
        }
        j += 1;
    }
    assert(all.take(all.len() as int) =~= all);
    Ok(())
}

// ---------------------------------------------------------------------------
// Target dependencies
// ---------------------------------------------------------------------------

/// Everything but the dependencies is the same; of these only the available ones are left.
pub open spec fn keeps_available(before: Target, after: Target, available: Set<Seq<char>>) -> bool {
    &&& after.command == before.command
    &&& after.capabilities == before.capabilities
    &&& after.files_glob == before.files_glob
    &&& after.stream == before.stream
    &&& after.cache == before.cache
    &&& after.invalidates_cache == before.invalidates_cache
    &&& after.working_dir == before.working_dir
    &&& after.exclusive_resources == before.exclusive_resources
    &&& texts(after.depends_on@) == texts(before.depends_on@).filter(|address: Seq<char>| available.contains(address))
}

/// The same targets, each with only its available dependencies.
pub open spec fn targets_keep_available(
    before: Map<Seq<char>, Target>,
    after: Map<Seq<char>, Target>,
    available: Set<Seq<char>>,
) -> bool {
    &&& after.dom() == before.dom()
    &&& forall|name: Seq<char>| #[trigger]
        after.contains_key(name) ==> keeps_available(before[name], after[name], available)
}

/// Everything but the targets is the same.
pub open spec fn same_but_targets(a: DiscoveredProject, b: DiscoveredProject) -> bool {
    &&& a.root == b.root
    &&& a.config_path == b.config_path
    &&& a.metadata == b.metadata
    &&& a.dependencies == b.dependencies
    &&& a.plugin_name == b.plugin_name
    &&& a.relative_path == b.relative_path
}

fn available_only(dependencies: &Vec<String>, available: &TextSet) -> (kept: Vec<String>)
    ensures
        texts(kept@) == texts(dependencies@).filter(|address: Seq<char>| available@.contains(address)),
{
    let ghost all = texts(dependencies@);
    let ghost wanted = |address: Seq<char>| available@.contains(address);
    let mut kept: Vec<String> = Vec::new();
    let mut i: usize = 0;
    proof {
        reveal(Seq::filter);
        assert(all.take(0) =~= Seq::<Seq<char>>::empty());
        assert(texts(kept@) =~= Seq::<Seq<char>>::empty());
    }
    while i < dependencies.len()
        invariant
            i <= dependencies@.len(),
            all == texts(dependencies@),
            wanted == (|address: Seq<char>| available@.contains(address)),
            texts(kept@) == all.take(i as int).filter(wanted),
        decreases dependencies@.len() - i,
    {
        let ghost before = texts(kept@);
        proof {
            reveal(Seq::filter);
            assert(all.take(i + 1).drop_last() =~= all.take(i as int));
            assert(all.take(i + 1).last() == dependencies@[i as int]@);
        }
        if available.contains(&dependencies[i]) {
            kept.push(dependencies[i].clone());
            assert(texts(kept@) =~= before.push(dependencies@[i as int]@));
        }
        i += 1;
    }
    assert(all.take(all.len() as int) =~= all);
    kept
}

fn keep_available(targets: &mut TextMap<Target>, available: &TextSet)
    ensures
        targets_keep_available(old(targets)@, final(targets)@, available@),
{
    let ghost start = targets@;
    let count = targets.len();
    let mut names: Vec<String> = Vec::new();
    let ghost keys = targets.keys();
    let mut n: usize = 0;
    while n < count
        invariant
            n <= count,
            count == targets.keys().len(),
            keys == targets.keys(),
            targets@ == start,
            names@.len() == n,
            forall|k: int| 0 <= k < n ==> (#[trigger] names@[k])@ == keys[k],
        decreases count - n,
    {
        names.push(targets.key_at(n).clone());
        n += 1;
    }
    proof {
        crate::collections::ascending_distinct(keys);
        assert forall|name: Seq<char>| start.contains_key(name) implies keys.contains(name) by {}
    }
    let mut i: usize = 0;
    while i < names.len()
        invariant
            i <= names@.len(),
            names@.len() == keys.len(),
            keys.no_duplicates(),
            forall|k: int| 0 <= k < names@.len() ==> (#[trigger] names@[k])@ == keys[k],
            forall|k: int| 0 <= k < keys.len() ==> start.contains_key(#[trigger] keys[k]),
            targets@.dom() == start.dom(),
            forall|k: int| 0 <= k < i ==> keeps_available(start[#[trigger] keys[k]], targets@[keys[k]], available@),
            forall|k: int| i <= k < keys.len() ==> targets@[#[trigger] keys[k]] == start[keys[k]],
        decreases names@.len() - i,
    {
        let ghost before = targets@;
        let ghost name = keys[i as int];
        assert(names@[i as int]@ == name);
        assert(before.dom().contains(name));
        if let Some(mut target) = targets.remove(&names[i]) {
            let kept = available_only(&target.depends_on, available);
            target.depends_on = kept;
            targets.insert(names[i].clone(), target);
        }
        proof {
            assert(targets@.dom() =~= start.dom());
            assert forall|k: int| 0 <= k < keys.len() && k != i implies targets@[#[trigger] keys[k]] == before[keys[k]] by {
                assert(keys[k] != name);
            }
        }
        i += 1;
    }
    proof {
        assert forall|name: Seq<char>| #[trigger] targets@.contains_key(name) implies keeps_available(
            start[name],
            targets@[name],
            available@,
        ) by {
            assert(start.dom().contains(name));
            assert(start.contains_key(name));
            assert(keys.contains(name));
            let k = choose|k: int| 0 <= k < keys.len() && keys[k] == name;
            assert(keeps_available(start[keys[k]], targets@[keys[k]], available@));
        }
    }
}

/// The error names the first requirement that no target meets.
pub open spec fn names_missing(
    error: DiscoveryError,
    explicit: Seq<(Seq<char>, Seq<char>)>,
    available: Set<Seq<char>>,
) -> bool {
    exists|i: int|
        {
            &&& 0 <= i < explicit.len()
            &&& !available.contains((#[trigger] explicit[i]).1)
            &&& forall|j: int| 0 <= j < i ==> available.contains((#[trigger] explicit[j]).1)
            &&& error matches DiscoveryError::MissingTarget { source, dependency } && source@ == explicit[i].0
                && dependency@ == explicit[i].1
        }
}

/// Every dependency that configuration names must be a target of some project.
/// Dependencies that plugins infer (`:build` edges from native path and
/// workspace dependencies) are dropped where there is no such target: not
/// every project defines a build target.
pub fn normalize_target_dependencies(
    projects: &mut Vec<DiscoveredProject>,
    explicit_dependencies: &Vec<(String, String)>,
) -> (valid: Result<(), DiscoveryError>)
    ensures
        final(projects)@.len() == old(projects)@.len(),
        valid is Ok <==> forall|i: int|
            0 <= i < explicit_dependencies@.len() ==> all_target_addresses(old(projects)@).contains(
                (#[trigger] explicit_dependencies@[i]).1@,
            ),
        valid matches Err(error) ==> final(projects)@ == old(projects)@ && names_missing(
            error,
            pair_texts(explicit_dependencies@),
            all_target_addresses(old(projects)@).to_set(),
        ),
        valid is Ok ==> forall|i: int|
            0 <= i < old(projects)@.len() ==> same_but_targets(old(projects)@[i], #[trigger] final(projects)@[i])
                && targets_keep_available(
                old(projects)@[i].targets@,
                final(projects)@[i].targets@,
                all_target_addresses(old(projects)@).to_set(),
            ),
{
    let available = set_of(&target_addresses(projects));
    let ghost all = all_target_addresses(projects@);
    let ghost start = projects@;
    let ghost explicit = pair_texts(explicit_dependencies@);
    let mut n: usize = 0;
    while n < explicit_dependencies.len()
        invariant
            n <= explicit_dependencies@.len(),
            available@ == all.to_set(),
            start == old(projects)@,
            projects@ == start,
            all == all_target_addresses(start),
            explicit == pair_texts(explicit_dependencies@),
            forall|k: int| 0 <= k < n ==> all.contains((#[trigger] explicit_dependencies@[k]).1@),
        decreases explicit_dependencies@.len() - n,
    {
        if !available.contains(&explicit_dependencies[n].1) {
            proof {
                assert(explicit[n as int] == (explicit_dependencies@[n as int].0@, explicit_dependencies@[n as int].1@));
                assert forall|j: int| 0 <= j < n implies all.to_set().contains((#[trigger] explicit[j]).1) by {
                    assert(all.contains(explicit_dependencies@[j].1@));
                }
                assert(!all.contains(explicit_dependencies@[n as int].1@));
                assert(!all.to_set().contains(explicit[n as int].1));
            }
            return Err(
                DiscoveryError::MissingTarget {
                    source: explicit_dependencies[n].0.clone(),
                    dependency: explicit_dependencies[n].1.clone(),
                },
            );
        }
        n += 1;
    }
    let count: usize = projects.len();
    let mut i: usize = 0;
    while i < count
        invariant
            i <= count,
            count == start.len(),
            start == old(projects)@,
            projects@.len() == start.len(),
            available@ == all.to_set(),
            forall|k: int|
                0 <= k < i ==> same_but_targets(start[k], #[trigger] projects@[k]) && targets_keep_available(
                    start[k].targets@,
                    projects@[k].targets@,
                    all.to_set(),
                ),
            forall|k: int| i <= k < count ==> #[trigger] projects@[k] == start[k],
        decreases count - i,
    {
        keep_available(&mut projects[i].targets, &available);
        i += 1;
    }
    Ok(())
}

// ---------------------------------------------------------------------------
// All projects
// ---------------------------------------------------------------------------

/// Resolves the dependencies that plugins name by project: in-umbrella
/// dependencies of Elixir, workspace members of uv, sibling gems of Ruby. This
/// must happen before targets are detected.
pub fn resolve_workspace_dependencies(projects: &mut Vec<PartialProject>)
    ensures
        final(projects)@.len() == old(projects)@.len(),
        exists|elixir: Seq<PartialProject>, python: Seq<PartialProject>|
            #[trigger] dependencies_resolved(old(projects)@, elixir, python, final(projects)@),
{
    let ghost start = projects@;
    resolve_umbrella_dependencies_partial(projects);
    let ghost elixir = projects@;
    resolve_uv_workspace_dependencies_partial(projects);
    let ghost python = projects@;
    resolve_ruby_workspace_dependencies_partial(projects);
    assert(dependencies_resolved(start, elixir, python, projects@));
}

/// The three resolutions, one after another.
pub open spec fn dependencies_resolved(
    start: Seq<PartialProject>,
    elixir: Seq<PartialProject>,
    python: Seq<PartialProject>,
    end: Seq<PartialProject>,
) -> bool {
    &&& elixir.len() == start.len()
    &&& python.len() == start.len()
    &&& end.len() == start.len()
    &&& forall|i: int|
        0 <= i < start.len() ==> is_resolved(
            start[i],
            #[trigger] elixir[i],
            "elixir"@,
            addresses_by_name(start, "elixir"@),
            "in_umbrella:"@,
        )
    &&& forall|i: int|
        0 <= i < start.len() ==> is_resolved(
            elixir[i],
            #[trigger] python[i],
            "python"@,
            addresses_by_name(elixir, "python"@),
            "uv_workspace:"@,
        )
    &&& forall|i: int|
        0 <= i < start.len() ==> keeps_siblings(python[i], #[trigger] end[i], addresses_by_name(python, "ruby"@))
}

/// A project with its targets.
pub open spec fn with_targets(project: PartialProject, targets: TextMap<Target>) -> DiscoveredProject {
    DiscoveredProject {
        root: project.root,
        config_path: project.config_path,
        metadata: project.metadata,
        dependencies: project.dependencies,
        targets,
        plugin_name: project.plugin_name,
        relative_path: project.relative_path,
    }
}

/// Projects with their targets.
pub open spec fn all_with_targets(
    projects: Seq<PartialProject>,
    targets: Seq<TextMap<Target>>,
) -> Seq<DiscoveredProject> {
    Seq::new(projects.len(), |i: int| with_targets(projects[i], targets[i]))
}

/// What the configuration of all projects requires, in order.
pub open spec fn all_requirements(projects: Seq<PartialProject>) -> Seq<(Seq<char>, Seq<char>)>
    decreases projects.len(),
{
    if projects.len() == 0 {
        Seq::empty()
    } else {
        all_requirements(projects.drop_last()) + pair_texts(projects.last().explicit_target_dependencies@)
    }
}

/// The target addresses depend on the projects' paths and targets alone.
proof fn same_target_addresses(a: Seq<DiscoveredProject>, b: Seq<DiscoveredProject>)
    requires
        a.len() == b.len(),
        forall|i: int|
            0 <= i < a.len() ==> (#[trigger] a[i]).targets == b[i].targets && a[i].relative_path == b[i].relative_path,
    ensures
        all_target_texts(a) == all_target_texts(b),
        all_target_addresses(a) == all_target_addresses(b),
        project_addresses(a) == project_addresses(b),
    decreases a.len(),
{
    assert(project_addresses(a) =~= project_addresses(b));
    if a.len() > 0 {
        let front_a = a.drop_last();
        let front_b = b.drop_last();
        assert forall|i: int| 0 <= i < front_a.len() implies (#[trigger] front_a[i]).targets == front_b[i].targets
            && front_a[i].relative_path == front_b[i].relative_path by {
            assert(a[i] == front_a[i]);
        }
        same_target_addresses(front_a, front_b);
        let last_a = a[a.len() - 1];
        let last_b = b[b.len() - 1];
        assert(last_a.targets == last_b.targets);
        assert(last_a.targets.keys().map_values(|name: Seq<char>| target_texts(last_a, name))
            =~= last_b.targets.keys().map_values(|name: Seq<char>| target_texts(last_b, name)));
    }
}

/// The address names a target of one of the projects.
pub open spec fn is_target(projects: Seq<DiscoveredProject>, address: Seq<char>) -> bool {
    exists|i: int, name: Seq<char>|
        0 <= i < projects.len() && #[trigger] projects[i].targets@.contains_key(name) && address == target_address_of(
            projects[i].relative_path@,
            name,
        )
}

/// The addresses of all targets are those that name a target.
pub proof fn target_addresses_are_targets(projects: Seq<DiscoveredProject>, address: Seq<char>)
    ensures
        all_target_addresses(projects).contains(address) <==> is_target(projects, address),
    decreases projects.len(),
{
    let first = |node: (Seq<char>, Seq<char>, Seq<char>, Seq<char>)| node.0;
    if projects.len() > 0 {
        let front = projects.drop_last();
        let last = projects.last();
        target_addresses_are_targets(front, address);
        let own = last.targets.keys().map_values(|name: Seq<char>| target_texts(last, name));
        let earlier = all_target_texts(front);
        let whole = all_target_texts(projects);
        let addresses = all_target_addresses(projects);
        assert(whole == earlier + own);
        if addresses.contains(address) {
            let k = choose|k: int| 0 <= k < addresses.len() && addresses[k] == address;
            if k < earlier.len() {
                assert(all_target_addresses(front)[k] == address);
                let (i, name) = choose|i: int, name: Seq<char>|
                    0 <= i < front.len() && #[trigger] front[i].targets@.contains_key(name) && address
                        == target_address_of(front[i].relative_path@, name);
                assert(projects[i].targets@.contains_key(name));
            } else {
                let at = k - earlier.len();
                let name = last.targets.keys()[at];
                assert(whole[k] == own[at]);
                assert(last.targets.keys().contains(name));
                assert(projects[projects.len() - 1].targets@.contains_key(name));
            }
        }
        if is_target(projects, address) {
            let (i, name) = choose|i: int, name: Seq<char>|
                0 <= i < projects.len() && #[trigger] projects[i].targets@.contains_key(name) && address
                    == target_address_of(projects[i].relative_path@, name);
            if i < front.len() {
                assert(front[i].targets@.contains_key(name));
                let k = choose|k: int|
                    0 <= k < all_target_addresses(front).len() && all_target_addresses(front)[k] == address;
                assert(addresses[k] == address);
            } else {
                let at = last.targets.keys().index_of(name);
                assert(own[at] == target_texts(last, name));
                assert(addresses[earlier.len() + at] == address);
            }
        }
    } else {
        assert(all_target_addresses(projects).len() == 0);
    }
}

/// Every dependency of every target names a target of one of the projects.
pub open spec fn dependencies_exist(projects: Seq<DiscoveredProject>) -> bool {
    forall|i: int, name: Seq<char>, dependency: Seq<char>|
        0 <= i < projects.len() && #[trigger] projects[i].targets@.contains_key(name) && #[trigger] texts(
            projects[i].targets@[name].depends_on@,
        ).contains(dependency) ==> is_target(projects, dependency)
}

/// What is left of a project once names are unique and dependencies available.
pub open spec fn is_settled(
    before: Seq<DiscoveredProject>,
    after: Seq<DiscoveredProject>,
    at: int,
) -> bool {
    &&& after[at].root == before[at].root
    &&& after[at].config_path == before[at].config_path
    &&& after[at].metadata.version == before[at].metadata.version
    &&& after[at].metadata.name@ == unique_name(before, at)
    &&& after[at].dependencies == before[at].dependencies
    &&& after[at].plugin_name == before[at].plugin_name
    &&& after[at].relative_path == before[at].relative_path
    &&& targets_keep_available(before[at].targets@, after[at].targets@, all_target_addresses(before).to_set())
}

proof fn settled_dependencies_exist(before: Seq<DiscoveredProject>, after: Seq<DiscoveredProject>)
    requires
        before.len() == after.len(),
        forall|i: int| 0 <= i < before.len() ==> #[trigger] is_settled(before, after, i),
    ensures
        dependencies_exist(after),
{
    let available = all_target_addresses(before).to_set();
    assert forall|i: int, name: Seq<char>, dependency: Seq<char>|
        0 <= i < after.len() && #[trigger] after[i].targets@.contains_key(name) && #[trigger] texts(
            after[i].targets@[name].depends_on@,
        ).contains(dependency) implies is_target(after, dependency) by {
        assert(is_settled(before, after, i));
        let all = texts(before[i].targets@[name].depends_on@);
        let wanted = |address: Seq<char>| available.contains(address);
        let left = texts(after[i].targets@[name].depends_on@);
        assert(left == all.filter(wanted));
        let k = choose|k: int| 0 <= k < left.len() && left[k] == dependency;
        all.lemma_filter_pred(wanted, k);
        assert(available.contains(dependency));
        target_addresses_are_targets(before, dependency);
        let (j, other) = choose|j: int, other: Seq<char>|
            0 <= j < before.len() && #[trigger] before[j].targets@.contains_key(other) && dependency
                == target_address_of(before[j].relative_path@, other);
        assert(is_settled(before, after, j));
        assert(before[j].targets@.dom().contains(other));
        assert(after[j].targets@.contains_key(other));
    }
}

/// The projects of a workspace, from what was found and the targets of each.
///
/// Name collisions are resolved by appending the plugin name suffix (e.g.,
/// core-nodejs). Two projects must not have the same address, and every
/// dependency that configuration names must be a target.
pub fn discover_projects(found: Vec<PartialProject>, targets: Vec<TextMap<Target>>) -> (projects: Result<
    Vec<DiscoveredProject>,
    DiscoveryError,
>)
    requires
        found@.len() == targets@.len(),
    ensures
        ({
            let before = all_with_targets(found@, targets@);
            let available = all_target_addresses(before).to_set();
            let required = all_requirements(found@);
            let distinct = project_addresses(before).no_duplicates();
            let met = forall|i: int| 0 <= i < required.len() ==> available.contains((#[trigger] required[i]).1);
            match projects {
                Ok(settled) => {
                    &&& distinct
                    &&& met
                    &&& settled@.len() == before.len()
                    &&& forall|i: int| 0 <= i < before.len() ==> #[trigger] is_settled(before, settled@, i)
                    &&& dependencies_exist(settled@)
                },
                Err(error) => if distinct {
                    names_missing(error, required, available)
                } else {
                    names_duplicate(error, before)
                },
            }
        }),
{
    let ghost before = all_with_targets(found@, targets@);
    let ghost start = found@;
    let ghost given = targets@;
    let mut rest = found;
    let mut rest_targets = targets;
    let mut projects: Vec<DiscoveredProject> = Vec::new();
    let mut explicit: Vec<(String, String)> = Vec::new();
    proof {
        assert(start.skip(0) =~= start);
        assert(given.skip(0) =~= given);
        assert(start.take(0) =~= Seq::<PartialProject>::empty());
        assert(pair_texts(explicit@) =~= Seq::<(Seq<char>, Seq<char>)>::empty());
        assert(projects@ =~= before.take(0));
    }
    while rest.len() > 0
        invariant
            start.len() == given.len(),
            before == all_with_targets(start, given),
            projects@.len() + rest@.len() == start.len(),
            rest@ == start.skip(projects@.len() as int),
            rest_targets@ == given.skip(projects@.len() as int),
            projects@ == before.take(projects@.len() as int),
            pair_texts(explicit@) == all_requirements(start.take(projects@.len() as int)),
        decreases rest@.len(),
    {
        let ghost done = projects@.len() as int;
        let partial = rest.remove(0);
        let own = rest_targets.remove(0);
        assert(partial == start[done]);
        assert(own == given[done]);
        let PartialProject {
            root,
            config_path,
            metadata,
            dependencies,
            custom_targets: _,
            explicit_target_dependencies: mut required,
            plugin_name,
            relative_path,
        } = partial;
        let ghost pairs = pair_texts(explicit@);
        let ghost more = pair_texts(required@);
        explicit.append(&mut required);
        projects.push(
            DiscoveredProject {
                root,
                config_path,
                metadata,
                dependencies,
                targets: own,
                plugin_name,
                relative_path,
            },
        );
        proof {
            assert(pair_texts(explicit@) =~= pairs + more);
            assert(start.take(done + 1).drop_last() =~= start.take(done));
            assert(start.take(done + 1).last() == start[done]);
            assert(rest@ =~= start.skip(done + 1));
            assert(rest_targets@ =~= given.skip(done + 1));
            assert(before.take(done + 1) =~= before.take(done).push(before[done]));
            assert(projects@ =~= before.take(done + 1));
        }
    }
    proof {
        assert(before.take(before.len() as int) =~= before);
        assert(start.take(start.len() as int) =~= start);
    }
    resolve_name_collisions(&mut projects);
    let ghost renamed = projects@;
    proof {
        assert forall|i: int| 0 <= i < before.len() implies (#[trigger] before[i]).targets == renamed[i].targets
            && before[i].relative_path == renamed[i].relative_path by {
            assert(same_but_name(before[i], renamed[i]));
        }
        same_target_addresses(before, renamed);
    }
    if let Err(error) = validate_project_addresses(&projects) {
        proof {
            let (i, j) = choose|i: int, j: int|
                {
                    &&& 0 <= i < j < renamed.len()
                    &&& (#[trigger] renamed[i]).relative_path@ == (#[trigger] renamed[j]).relative_path@
                    &&& project_addresses(renamed).take(j).no_duplicates()
                    &&& error matches DiscoveryError::SameAddress { address, first, first_plugin, second, second_plugin }
                        && address@ == address_of(renamed[j].relative_path@) && first@ == renamed[i].config_path@
                        && first_plugin@ == renamed[i].plugin_name@ && second@ == renamed[j].config_path@
                        && second_plugin@ == renamed[j].plugin_name@
                };
            assert(same_but_name(before[i], renamed[i]));
            assert(same_but_name(before[j], renamed[j]));
            assert(before[i].relative_path@ == before[j].relative_path@);
        }
        return Err(error);
    }
    let ghost required = all_requirements(start);
    match normalize_target_dependencies(&mut projects, &explicit) {
        Err(error) => Err(error),
        Ok(_) => {
            proof {
                assert forall|i: int| 0 <= i < required.len() implies all_target_addresses(before).to_set().contains(
                    (#[trigger] required[i]).1,
                ) by {
                    assert(required[i] == pair_texts(explicit@)[i]);
                    assert(all_target_addresses(renamed).contains(explicit@[i].1@));
                }
                assert forall|i: int| 0 <= i < before.len() implies #[trigger] is_settled(before, projects@, i) by {
                    assert(same_but_name(before[i], renamed[i]));
                    assert(same_but_targets(renamed[i], projects@[i]));
                }
                settled_dependencies_exist(before, projects@);
            }
            Ok(projects)
        },
    }
}

/// What is required is what each project requires, one behind the other.
pub proof fn all_projects_require(one: Seq<PartialProject>, two: Seq<PartialProject>, project: PartialProject)
    ensures
        all_requirements(one + two) == all_requirements(one) + all_requirements(two),
        all_requirements(seq![project]) == pair_texts(project.explicit_target_dependencies@),
    decreases two.len(),
{
    assert(seq![project].drop_last() =~= Seq::<PartialProject>::empty());
    assert(all_requirements(seq![project].drop_last()) =~= Seq::<(Seq<char>, Seq<char>)>::empty());
    assert(all_requirements(seq![project]) =~= pair_texts(project.explicit_target_dependencies@));
    if two.len() == 0 {
        assert(one + two =~= one);
        assert(all_requirements(one) + all_requirements(two) =~= all_requirements(one));
    } else {
        all_projects_require(one, two.drop_last(), project);
        assert((one + two).drop_last() =~= one + two.drop_last());
        assert((one + two).last() == two.last());
        assert(all_requirements(one + two) =~= all_requirements(one) + all_requirements(two));
    }
}

/// Of the dependencies of a target those are left that are targets, and no other
/// is added.
pub proof fn settled_targets_depend_on_targets(before: Target, after: Target, available: Set<Seq<char>>, address: Seq<char>)
    requires
        keeps_available(before, after, available),
    ensures
        texts(after.depends_on@).contains(address) <==> texts(before.depends_on@).contains(address) && available.contains(
            address,
        ),
        after.command == before.command,
{
    let wanted = |address: Seq<char>| available.contains(address);
    let all = texts(before.depends_on@);
    let left = texts(after.depends_on@);
    assert(left == all.filter(wanted));
    if left.contains(address) {
        all.lemma_filter_contains_rev(wanted, address);
        let i = choose|i: int| 0 <= i < left.len() && left[i] == address;
        all.lemma_filter_pred(wanted, i);
    }
    if all.contains(address) && available.contains(address) {
        let i = choose|i: int| 0 <= i < all.len() && all[i] == address;
        all.lemma_filter_contains(wanted, i);
    }
}

/// A name that another project has too is told apart by the plugin; any other name
/// stays.
pub proof fn equal_names_are_told_apart(projects: Seq<DiscoveredProject>, one: int, two: int)
    requires
        0 <= one < projects.len(),
        0 <= two < projects.len(),
        one != two,
    ensures
        projects[one].metadata.name@ == projects[two].metadata.name@ ==> unique_name(projects, one)
            == projects[one].metadata.name@ + "-"@ + projects[one].plugin_name@ && (projects[one].plugin_name@
            != projects[two].plugin_name@ ==> unique_name(projects, one) != unique_name(projects, two)),
        (forall|i: int|
            0 <= i < projects.len() && i != one ==> (#[trigger] projects[i]).metadata.name@ != projects[one].metadata.name@)
            ==> unique_name(projects, one) == projects[one].metadata.name@,
{
    let name = projects[one].metadata.name@;
    let first = projects[one].plugin_name@;
    let second = projects[two].plugin_name@;
    let start = (name + "-"@).len() as int;
    assert((name + "-"@ + first).skip(start) =~= first);
    assert((name + "-"@ + second).skip(start) =~= second);
    if name == projects[two].metadata.name@ {
        assert(collides(projects, one));
        assert(collides(projects, two));
    }
}

/// The placeholders of Elixir, Python and Ruby projects are resolved by the projects of
/// their own plugin, Ruby's that name none are left out, and the projects of other
/// plugins stay as they were.
pub proof fn placeholders_are_resolved_by_their_plugin(
    start: Seq<PartialProject>,
    elixir: Seq<PartialProject>,
    python: Seq<PartialProject>,
    end: Seq<PartialProject>,
    at: int,
)
    requires
        dependencies_resolved(start, elixir, python, end),
        0 <= at < start.len(),
    ensures
        end.len() == start.len(),
        end[at].relative_path == start[at].relative_path,
        end[at].plugin_name == start[at].plugin_name,
        start[at].plugin_name@ == "elixir"@ ==> dependency_texts(end[at].dependencies@) == resolved_dependencies(
            addresses_by_name(start, "elixir"@),
            "in_umbrella:"@,
            dependency_texts(start[at].dependencies@),
        ),
        start[at].plugin_name@ == "python"@ ==> dependency_texts(end[at].dependencies@) == resolved_dependencies(
            addresses_by_name(start, "python"@),
            "uv_workspace:"@,
            dependency_texts(start[at].dependencies@),
        ),
        start[at].plugin_name@ == "ruby"@ ==> dependency_texts(end[at].dependencies@) == kept_dependencies(
            addresses_by_name(start, "ruby"@),
            "ruby_workspace:"@,
            dependency_texts(start[at].dependencies@),
        ),
        start[at].plugin_name@ != "elixir"@ && start[at].plugin_name@ != "python"@ && start[at].plugin_name@ != "ruby"@
            ==> end[at] == start[at],
{
    reveal_strlit("elixir");
    reveal_strlit("python");
    reveal_strlit("ruby");
    assert("elixir"@[0] == 'e');
    assert("python"@[0] == 'p');
    assert("ruby"@[0] == 'r');
    assert forall|i: int| 0 <= i < start.len() implies (#[trigger] start[i]).plugin_name@ == elixir[i].plugin_name@
        && start[i].metadata.name@ == elixir[i].metadata.name@ && start[i].relative_path@ == elixir[i].relative_path@ by {
        assert(is_resolved(start[i], elixir[i], "elixir"@, addresses_by_name(start, "elixir"@), "in_umbrella:"@));
    }
    names_go_by_plugin_name_and_path(start, elixir, "python"@);
    assert forall|i: int| 0 <= i < start.len() implies (#[trigger] start[i]).plugin_name@ == python[i].plugin_name@
        && start[i].metadata.name@ == python[i].metadata.name@ && start[i].relative_path@ == python[i].relative_path@ by {
        assert(start[i].plugin_name@ == elixir[i].plugin_name@);
        assert(is_resolved(elixir[i], python[i], "python"@, addresses_by_name(elixir, "python"@), "uv_workspace:"@));
    }
    names_go_by_plugin_name_and_path(start, python, "ruby"@);
    assert(is_resolved(start[at], elixir[at], "elixir"@, addresses_by_name(start, "elixir"@), "in_umbrella:"@));
    assert(is_resolved(elixir[at], python[at], "python"@, addresses_by_name(elixir, "python"@), "uv_workspace:"@));
    assert(keeps_siblings(python[at], end[at], addresses_by_name(python, "ruby"@)));
}

/// Each found project has its own targets.
pub proof fn projects_have_their_targets(found: Seq<PartialProject>, targets: Seq<TextMap<Target>>, at: int)
    requires
        0 <= at < found.len(),
        found.len() == targets.len(),
    ensures
        all_with_targets(found, targets).len() == found.len(),
        all_with_targets(found, targets)[at].targets == targets[at],
        all_with_targets(found, targets)[at].relative_path == found[at].relative_path,
        all_with_targets(found, targets)[at].root == found[at].root,
        all_with_targets(found, targets)[at].metadata == found[at].metadata,
        all_with_targets(found, targets)[at].dependencies == found[at].dependencies,
        all_with_targets(found, targets)[at].plugin_name == found[at].plugin_name,
{
}

/// A missing target is told with who requires it, and it is one that no project has.
pub proof fn missing_targets_are_told(error: DiscoveryError, explicit: Seq<(Seq<char>, Seq<char>)>, available: Set<Seq<char>>)
    requires
        names_missing(error, explicit, available),
    ensures
        error is MissingTarget,
        error matches DiscoveryError::MissingTarget { source, dependency } ==> !available.contains(dependency@)
            && explicit.contains((source@, dependency@)),
{
    let i = choose|i: int|
        {
            &&& 0 <= i < explicit.len()
            &&& !available.contains((#[trigger] explicit[i]).1)
            &&& forall|j: int| 0 <= j < i ==> available.contains((#[trigger] explicit[j]).1)
            &&& error matches DiscoveryError::MissingTarget { source, dependency } && source@ == explicit[i].0
                && dependency@ == explicit[i].1
        };
    assert(explicit[i] == (explicit[i].0, explicit[i].1));
}

/// Settling keeps where a project is and what its targets run; a target loses only
/// dependencies that are no targets.
pub proof fn settling_keeps_the_targets(
    before: Seq<DiscoveredProject>,
    after: Seq<DiscoveredProject>,
    at: int,
    name: Seq<char>,
    dependency: Seq<char>,
)
    requires
        is_settled(before, after, at),
    ensures
        after[at].relative_path == before[at].relative_path,
        after[at].root == before[at].root,
        after[at].targets@.contains_key(name) <==> before[at].targets@.contains_key(name),
        before[at].targets@.contains_key(name) ==> after[at].targets@[name].command == before[at].targets@[name].command,
        before[at].targets@.contains_key(name) ==> (texts(after[at].targets@[name].depends_on@).contains(dependency) <==> texts(
            before[at].targets@[name].depends_on@,
        ).contains(dependency) && is_target(before, dependency)),
{
    if before[at].targets@.contains_key(name) {
        assert(after[at].targets@.contains_key(name));
        settled_targets_depend_on_targets(
            before[at].targets@[name],
            after[at].targets@[name],
            all_target_addresses(before).to_set(),
            dependency,
        );
        target_addresses_are_targets(before, dependency);
    }
}

/// Where two projects have one address, both are told of, and the addresses before the
/// second are all different.
pub proof fn equal_addresses_are_told(error: DiscoveryError, projects: Seq<DiscoveredProject>)
    requires
        names_duplicate(error, projects),
    ensures
        error is SameAddress,
        exists|i: int, j: int|
            0 <= i < j < projects.len() && (#[trigger] projects[i]).relative_path@ == (#[trigger] projects[j]).relative_path@
                && error->address@ == "//"@ + projects[j].relative_path@ && error->first@ == projects[i].config_path@
                && error->second@ == projects[j].config_path@,
        !project_addresses(projects).no_duplicates(),
{
    let (i, j) = choose|i: int, j: int|
        {
            &&& 0 <= i < j < projects.len()
            &&& (#[trigger] projects[i]).relative_path@ == (#[trigger] projects[j]).relative_path@
            &&& project_addresses(projects).take(j).no_duplicates()
            &&& error matches DiscoveryError::SameAddress { address, first, first_plugin, second, second_plugin }
                && address@ == address_of(projects[j].relative_path@) && first@ == projects[i].config_path@
                && first_plugin@ == projects[i].plugin_name@ && second@ == projects[j].config_path@ && second_plugin@
                == projects[j].plugin_name@
        };
    assert(project_addresses(projects)[i] == project_addresses(projects)[j]);
}

/// A target that loses dependencies stays as it is in everything else.
pub proof fn settled_targets_stay_the_same(before: Target, after: Target, available: Set<Seq<char>>)
    requires
        keeps_available(before, after, available),
    ensures
        after.command == before.command,
        after.capabilities == before.capabilities,
        after.files_glob == before.files_glob,
        after.stream == before.stream,
        after.cache == before.cache,
        after.invalidates_cache == before.invalidates_cache,
        after.working_dir == before.working_dir,
        after.exclusive_resources == before.exclusive_resources,
{
}

/// Names and targets are settled without anything else of a project being changed.
pub proof fn projects_stay_the_same(one: DiscoveredProject, two: DiscoveredProject)
    ensures
        same_but_name(one, two) ==> one.root == two.root && one.config_path == two.config_path && one.dependencies
            == two.dependencies && one.targets == two.targets && one.plugin_name == two.plugin_name && one.relative_path
            == two.relative_path && one.metadata.version == two.metadata.version,
        same_but_targets(one, two) ==> one.root == two.root && one.config_path == two.config_path && one.metadata
            == two.metadata && one.dependencies == two.dependencies && one.plugin_name == two.plugin_name
            && one.relative_path == two.relative_path,
{
}

} // verus!
