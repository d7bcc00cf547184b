//! Dependencies that plugins name by project and that become addresses.
use vstd::prelude::*;
use crate::collections::TextMap;
use crate::discovery::scanner::{address_of, project_address, PartialProject};
use crate::plugins::LocalDependency;
use crate::text::{same_text, strip_prefix};

verus! {

/// The addresses of a plugin's projects by name; of projects with the same
/// name the last.
pub open spec fn addresses_by_name(projects: Seq<PartialProject>, plugin: Seq<char>) -> Map<Seq<char>, Seq<char>>
    decreases projects.len(),
{
    if projects.len() == 0 {
        Map::empty()
    } else {
        let earlier = addresses_by_name(projects.drop_last(), plugin);
        let last = projects.last();
        if last.plugin_name@ == plugin {
            earlier.insert(last.metadata.name@, address_of(last.relative_path@))
        } else {
            earlier
        }
    }
}

/// The characters of a map's values.
pub open spec fn text_values(map: Map<Seq<char>, String>) -> Map<Seq<char>, Seq<char>> {
    map.map_values(|text: String| text@)
}

fn name_addresses(projects: &Vec<PartialProject>, plugin: &str) -> (names: TextMap<String>)
    ensures
        text_values(names@) == addresses_by_name(projects@, plugin@),
{
    let mut names: TextMap<String> = TextMap::new();
    let mut i: usize = 0;
    proof {
        assert(projects@.take(0) =~= Seq::<PartialProject>::empty());
        assert(text_values(names@) =~= Map::empty());
    }
    while i < projects.len()
        invariant
            i <= projects@.len(),
            text_values(names@) == addresses_by_name(projects@.take(i as int), plugin@),
        decreases projects@.len() - i,
    {
        let project = &projects[i];
        let ghost before = names@;
        proof {
            assert(projects@.take(i + 1).drop_last() =~= projects@.take(i as int));
            assert(projects@.take(i + 1).last() == *project);
        }
        if same_text(&project.plugin_name, plugin) {
            let address = project_address(&project.relative_path);
            let ghost text = address@;
            names.insert(project.metadata.name.clone(), address);
            assert(text_values(names@) =~= text_values(before).insert(project.metadata.name@, text));
        }
        i += 1;
    }
    assert(projects@.take(projects@.len() as int) =~= projects@);
    names
}

/// What a placeholder stands for: the address of the project it names, where
/// there is one. Any other path stays as it is.
pub open spec fn resolved_path(names: Map<Seq<char>, Seq<char>>, prefix: Seq<char>, path: Seq<char>) -> Seq<char> {
    if prefix.is_prefix_of(path) && names.contains_key(path.skip(prefix.len() as int)) {
        names[path.skip(prefix.len() as int)]
    } else {
        path
    }
}

/// The placeholder names no project.
pub open spec fn unresolved(names: Map<Seq<char>, Seq<char>>, prefix: Seq<char>, path: Seq<char>) -> bool {
    prefix.is_prefix_of(path) && !names.contains_key(path.skip(prefix.len() as int))
}

/// The name and path of each dependency.
pub open spec fn dependency_texts(dependencies: Seq<LocalDependency>) -> Seq<(Seq<char>, Seq<char>)> {
    dependencies.map_values(|dependency: LocalDependency| (dependency.name@, dependency.path@))
}

/// Everything but the dependencies is the same.
pub open spec fn same_but_dependencies(a: PartialProject, b: PartialProject) -> bool {
    &&& a.root == b.root
    &&& a.config_path == b.config_path
    &&& a.metadata == b.metadata
    &&& a.custom_targets == b.custom_targets
    &&& a.explicit_target_dependencies == b.explicit_target_dependencies
    &&& a.plugin_name == b.plugin_name
    &&& a.relative_path == b.relative_path
}

/// Each placeholder of a dependency that names a project is replaced by its address.
pub open spec fn resolved_dependencies(
    names: Map<Seq<char>, Seq<char>>,
    prefix: Seq<char>,
    dependencies: Seq<(Seq<char>, Seq<char>)>,
) -> Seq<(Seq<char>, Seq<char>)> {
    dependencies.map_values(
        |dependency: (Seq<char>, Seq<char>)| (dependency.0, resolved_path(names, prefix, dependency.1)),
    )
}

/// The dependencies of a project of the plugin are resolved; those of any other are the same.
pub open spec fn is_resolved(
    before: PartialProject,
    after: PartialProject,
    plugin: Seq<char>,
    names: Map<Seq<char>, Seq<char>>,
    prefix: Seq<char>,
) -> bool {
    if before.plugin_name@ == plugin {
        same_but_dependencies(before, after) && dependency_texts(after.dependencies@) == resolved_dependencies(
            names,
            prefix,
            dependency_texts(before.dependencies@),
        )
    } else {
        after == before
    }
}

/// Replaces placeholders by the addresses of the projects they name. A
/// placeholder that names none is kept (it will fail to resolve later).
pub fn resolve_placeholders(projects: &mut Vec<PartialProject>, plugin: &str, prefix: &str)
    ensures
        final(projects)@.len() == old(projects)@.len(),
        forall|i: int|
            0 <= i < old(projects)@.len() ==> is_resolved(
                old(projects)@[i],
                #[trigger] final(projects)@[i],
                plugin@,
                addresses_by_name(old(projects)@, plugin@),
                prefix@,
            ),
{
    let addresses = name_addresses(projects, plugin);
    let ghost names = addresses_by_name(projects@, plugin@);
    let ghost start = projects@;
    let count: usize = projects.len();
    let mut i: usize = 0;
    while i < count
        invariant
            i <= count,
            count == start.len(),
            start == old(projects)@,
            projects@.len() == start.len(),
            names == addresses_by_name(start, plugin@),
            text_values(addresses@) == names,
            forall|k: int| 0 <= k < i ==> is_resolved(start[k], #[trigger] projects@[k], plugin@, names, prefix@),
            forall|k: int| i <= k < count ==> #[trigger] projects@[k] == start[k],
        decreases count - i,
    {
        if same_text(&projects[i].plugin_name, plugin) {
            let ghost own = dependency_texts(start[i as int].dependencies@);
            let total: usize = projects[i].dependencies.len();
            let mut j: usize = 0;
            assert(projects@[i as int] == start[i as int]);
            while j < total
                invariant
                    i < count,
                    j <= total,
                    count == start.len(),
                    projects@.len() == start.len(),
                    own == dependency_texts(start[i as int].dependencies@),
                    total == own.len(),
                    text_values(addresses@) == names,
                    projects@[i as int].dependencies@.len() == total,
                    same_but_dependencies(start[i as int], projects@[i as int]),
                    forall|k: int| 0 <= k < i ==> is_resolved(start[k], #[trigger] projects@[k], plugin@, names, prefix@),
                    forall|k: int| i < k < count ==> #[trigger] projects@[k] == start[k],
                    forall|k: int|
                        0 <= k < total ==> (#[trigger] projects@[i as int].dependencies@[k]).name@ == own[k].0,
                    forall|k: int|
                        0 <= k < j ==> (#[trigger] projects@[i as int].dependencies@[k]).path@ == resolved_path(
                            names,
                            prefix@,
                            own[k].1,
                        ),
                    forall|k: int|
                        j <= k < total ==> (#[trigger] projects@[i as int].dependencies@[k]).path@ == own[k].1,
                decreases total - j,
            {
                let ghost path = projects@[i as int].dependencies@[j as int].path@;
                if let Some(name) = strip_prefix(&projects[i].dependencies[j].path, prefix) {
                    assert(text_values(addresses@).contains_key(name@) == addresses@.contains_key(name@));
                    if let Some(address) = addresses.get(&name) {
                        assert(text_values(addresses@)[name@] == address@);
                        projects[i].dependencies[j].path = address.clone();
                    }
                }
                j += 1;
            }
            proof {
                let done = dependency_texts(projects@[i as int].dependencies@);
                assert(done =~= resolved_dependencies(names, prefix@, own));
            }
        }
        i += 1;
    }
}

/// Resolve in_umbrella dependencies for Elixir projects
///
/// In Elixir umbrella projects, `{:dep_name, in_umbrella: true}` dependencies
/// use app names that may differ from directory names. This function resolves
/// these by looking up the app name in discovered projects.
pub fn resolve_umbrella_dependencies_partial(projects: &mut Vec<PartialProject>)
    ensures
        final(projects)@.len() == old(projects)@.len(),
        forall|i: int|
            0 <= i < old(projects)@.len() ==> is_resolved(
                old(projects)@[i],
                #[trigger] final(projects)@[i],
                "elixir"@,
                addresses_by_name(old(projects)@, "elixir"@),
                "in_umbrella:"@,
            ),
{
    resolve_placeholders(projects, "elixir", "in_umbrella:");
}

/// Resolve uv workspace dependencies for Python projects
///
/// In uv workspaces, `[tool.uv.sources]` can reference other workspace members
/// via `{ workspace = true }`. The Python plugin emits these as sentinel paths
/// `uv_workspace:<name>`. This function resolves them to project addresses by
/// matching the dependency name against discovered Python project names.
pub fn resolve_uv_workspace_dependencies_partial(projects: &mut Vec<PartialProject>)
    ensures
        final(projects)@.len() == old(projects)@.len(),
        forall|i: int|
            0 <= i < old(projects)@.len() ==> is_resolved(
                old(projects)@[i],
                #[trigger] final(projects)@[i],
                "python"@,
                addresses_by_name(old(projects)@, "python"@),
                "uv_workspace:"@,
            ),
{
    resolve_placeholders(projects, "python", "uv_workspace:");
}

/// The dependencies without the placeholders that name no project, the others resolved.
pub open spec fn kept_dependencies(
    names: Map<Seq<char>, Seq<char>>,
    prefix: Seq<char>,
    dependencies: Seq<(Seq<char>, Seq<char>)>,
) -> Seq<(Seq<char>, Seq<char>)>
    decreases dependencies.len(),
{
    if dependencies.len() == 0 {
        Seq::empty()
    } else {
        let earlier = kept_dependencies(names, prefix, dependencies.drop_last());
        let last = dependencies.last();
        if unresolved(names, prefix, last.1) {
            earlier
        } else {
            earlier.push((last.0, resolved_path(names, prefix, last.1)))
        }
    }
}

/// The Ruby project keeps the dependencies that can be resolved; any other project is the same.
pub open spec fn keeps_siblings(
    before: PartialProject,
    after: PartialProject,
    names: Map<Seq<char>, Seq<char>>,
) -> bool {
    if before.plugin_name@ == "ruby"@ {
        same_but_dependencies(before, after) && dependency_texts(after.dependencies@) == kept_dependencies(
            names,
            "ruby_workspace:"@,
            dependency_texts(before.dependencies@),
        )
    } else {
        after == before
    }
}

fn keep_siblings(dependencies: &Vec<LocalDependency>, addresses: &TextMap<String>) -> (kept: Vec<LocalDependency>)
    ensures
        dependency_texts(kept@) == kept_dependencies(
            text_values(addresses@),
            "ruby_workspace:"@,
            dependency_texts(dependencies@),
        ),
{
    let ghost names = text_values(addresses@);
    let ghost prefix = "ruby_workspace:"@;
    let ghost all = dependency_texts(dependencies@);
    let mut kept: Vec<LocalDependency> = Vec::new();
    let mut i: usize = 0;
    proof {
        assert(all.take(0) =~= Seq::<(Seq<char>, Seq<char>)>::empty());
        assert(dependency_texts(kept@) =~= Seq::<(Seq<char>, Seq<char>)>::empty());
    }
    while i < dependencies.len()
        invariant
            i <= dependencies@.len(),
            names == text_values(addresses@),
            prefix == "ruby_workspace:"@,
            all == dependency_texts(dependencies@),
            dependency_texts(kept@) == kept_dependencies(names, prefix, all.take(i as int)),
        decreases dependencies@.len() - i,
    {
        let dependency = &dependencies[i];
        let ghost before = dependency_texts(kept@);
        let ghost added: Option<(Seq<char>, Seq<char>)> = None;
        proof {
            assert(all.take(i + 1).drop_last() =~= all.take(i as int));
            assert(all.take(i + 1).last() == (dependency.name@, dependency.path@));
        }
        match strip_prefix(&dependency.path, "ruby_workspace:") {
            None => {
                kept.push(dependency.clone());
                assert(dependency_texts(kept@) =~= before.push((dependency.name@, dependency.path@)));
            },
            Some(name) => {
                assert(names.contains_key(name@) == addresses@.contains_key(name@));
                if let Some(address) = addresses.get(&name) {
                    assert(names[name@] == address@);
                    kept.push(LocalDependency { name: dependency.name.clone(), path: address.clone() });
                    assert(dependency_texts(kept@) =~= before.push((dependency.name@, address@)));
                }
            },
        }
        i += 1;
    }
    assert(all.take(all.len() as int) =~= all);
    kept
}

/// Resolve gemspec runtime dependencies to sibling gems in the same workspace.
/// Unmatched names are ordinary remote gems and are removed: LocalDependency
/// represents only relationships Aster can resolve within this checkout.
pub fn resolve_ruby_workspace_dependencies_partial(projects: &mut Vec<PartialProject>)
    ensures
        final(projects)@.len() == old(projects)@.len(),
        forall|i: int|
            0 <= i < old(projects)@.len() ==> keeps_siblings(
                old(projects)@[i],
                #[trigger] final(projects)@[i],
                addresses_by_name(old(projects)@, "ruby"@),
            ),
{
    let addresses = name_addresses(projects, "ruby");
    let ghost start = projects@;
    let ghost names = addresses_by_name(start, "ruby"@);
    let count: usize = projects.len();
    let mut i: usize = 0;
    while i < count
        invariant
            i <= count,
            count == start.len(),
            start == old(projects)@,
            projects@.len() == start.len(),
            names == addresses_by_name(start, "ruby"@),
            text_values(addresses@) == names,
            forall|k: int| 0 <= k < i ==> keeps_siblings(start[k], #[trigger] projects@[k], names),
            forall|k: int| i <= k < count ==> #[trigger] projects@[k] == start[k],
        decreases count - i,
    {
        if same_text(&projects[i].plugin_name, "ruby") {
            let kept = keep_siblings(&projects[i].dependencies, &addresses);
            projects[i].dependencies = kept;
        }
        i += 1;
    }
}

/// A name stands for the last project of the plugin that has it; projects of other
/// plugins are no part of it.
pub proof fn names_stand_for_the_plugins_projects(projects: Seq<PartialProject>, plugin: Seq<char>, name: Seq<char>)
    ensures
        addresses_by_name(projects, plugin).contains_key(name) <==> exists|i: int|
            0 <= i < projects.len() && (#[trigger] projects[i]).plugin_name@ == plugin && projects[i].metadata.name@ == name,
        addresses_by_name(projects, plugin).contains_key(name) ==> exists|i: int|
            0 <= i < projects.len() && (#[trigger] projects[i]).plugin_name@ == plugin && projects[i].metadata.name@ == name
                && addresses_by_name(projects, plugin)[name] == "//"@ + projects[i].relative_path@ && forall|j: int|
                i < j < projects.len() ==> !((#[trigger] projects[j]).plugin_name@ == plugin && projects[j].metadata.name@
                    == name),
    decreases projects.len(),
{
    if projects.len() > 0 {
        let front = projects.drop_last();
        let end = projects.len() - 1;
        names_stand_for_the_plugins_projects(front, plugin, name);
        assert(projects[end] == projects.last());
        assert(forall|i: int| 0 <= i < front.len() ==> #[trigger] front[i] == projects[i]);
        if !(projects[end].plugin_name@ == plugin && projects[end].metadata.name@ == name) {
            if addresses_by_name(front, plugin).contains_key(name) {
                let i = choose|i: int|
                    0 <= i < front.len() && (#[trigger] front[i]).plugin_name@ == plugin && front[i].metadata.name@ == name
                        && addresses_by_name(front, plugin)[name] == "//"@ + front[i].relative_path@ && forall|j: int|
                        i < j < front.len() ==> !((#[trigger] front[j]).plugin_name@ == plugin && front[j].metadata.name@
                            == name);
                assert(projects[i].plugin_name@ == plugin);
                assert forall|j: int| i < j < projects.len() implies !((#[trigger] projects[j]).plugin_name@ == plugin
                    && projects[j].metadata.name@ == name) by {
                    if j < end {
                        assert(front[j] == projects[j]);
                    }
                }
            } else {
                assert forall|i: int| 0 <= i < projects.len() implies !((#[trigger] projects[i]).plugin_name@ == plugin
                    && projects[i].metadata.name@ == name) by {
                    if i < end {
                        assert(front[i] == projects[i]);
                    }
                }
            }
        }
    }
}

/// A dependency stays where it is no placeholder, becomes an address where its
/// placeholder names a project, and is left out where it names none; each in its
/// turn.
pub proof fn placeholders_are_settled(
    names: Map<Seq<char>, Seq<char>>,
    prefix: Seq<char>,
    one: Seq<(Seq<char>, Seq<char>)>,
    two: Seq<(Seq<char>, Seq<char>)>,
    dependency: Seq<char>,
    name: Seq<char>,
    path: Seq<char>,
)
    requires
        !prefix.is_prefix_of(path),
    ensures
        kept_dependencies(names, prefix, one + two) == kept_dependencies(names, prefix, one) + kept_dependencies(
            names,
            prefix,
            two,
        ),
        kept_dependencies(names, prefix, seq![(dependency, path)]) == seq![(dependency, path)],
        kept_dependencies(names, prefix, seq![(dependency, prefix + name)]) == (if names.contains_key(name) {
            seq![(dependency, names[name])]
        } else {
            Seq::empty()
        }),
    decreases two.len(),
{
    let plain = seq![(dependency, path)];
    let placed = seq![(dependency, prefix + name)];
    assert(plain.drop_last() =~= Seq::<(Seq<char>, Seq<char>)>::empty());
    assert(placed.drop_last() =~= Seq::<(Seq<char>, Seq<char>)>::empty());
    assert(kept_dependencies(names, prefix, plain.drop_last()) =~= Seq::<(Seq<char>, Seq<char>)>::empty());
    assert(kept_dependencies(names, prefix, placed.drop_last()) =~= Seq::<(Seq<char>, Seq<char>)>::empty());
    assert(kept_dependencies(names, prefix, plain) =~= plain);
    assert((prefix + name).take(prefix.len() as int) =~= prefix);
    assert((prefix + name).skip(prefix.len() as int) =~= name);
    assert(prefix.is_prefix_of(prefix + name));
    assert(kept_dependencies(names, prefix, placed) =~= (if names.contains_key(name) {
        seq![(dependency, names[name])]
    } else {
        Seq::empty()
    }));
    if two.len() == 0 {
        assert(one + two =~= one);
        assert(kept_dependencies(names, prefix, one) + kept_dependencies(names, prefix, two) =~= kept_dependencies(
            names,
            prefix,
            one,
        ));
    } else {
        placeholders_are_settled(names, prefix, one, two.drop_last(), dependency, name, path);
        assert((one + two).drop_last() =~= one + two.drop_last());
        assert((one + two).last() == two.last());
        assert(kept_dependencies(names, prefix, one + two) =~= kept_dependencies(names, prefix, one) + kept_dependencies(
            names,
            prefix,
            two,
        ));
    }
}

/// A placeholder that names a project of the plugin becomes the address of that
/// project, and every other dependency stays as it was, in its place.
pub proof fn dependencies_keep_their_places(
    names: Map<Seq<char>, Seq<char>>,
    prefix: Seq<char>,
    dependencies: Seq<(Seq<char>, Seq<char>)>,
    at: int,
    name: Seq<char>,
)
    requires
        0 <= at < dependencies.len(),
    ensures
        resolved_dependencies(names, prefix, dependencies).len() == dependencies.len(),
        resolved_dependencies(names, prefix, dependencies)[at].0 == dependencies[at].0,
        !prefix.is_prefix_of(dependencies[at].1) ==> resolved_dependencies(names, prefix, dependencies)[at] == dependencies[at],
        dependencies[at].1 == prefix + name && names.contains_key(name) ==> resolved_dependencies(
            names,
            prefix,
            dependencies,
        )[at].1 == names[name],
        dependencies[at].1 == prefix + name && !names.contains_key(name) ==> resolved_dependencies(
            names,
            prefix,
            dependencies,
        )[at].1 == prefix + name,
{
    assert((prefix + name).take(prefix.len() as int) =~= prefix);
    assert((prefix + name).skip(prefix.len() as int) =~= name);
    assert(prefix.is_prefix_of(prefix + name));
}

/// Names stand for the same addresses as long as plugins, names and paths of the
/// projects are the same.
pub proof fn names_go_by_plugin_name_and_path(one: Seq<PartialProject>, two: Seq<PartialProject>, plugin: Seq<char>)
    requires
        one.len() == two.len(),
        forall|i: int|
            0 <= i < one.len() ==> (#[trigger] one[i]).plugin_name@ == two[i].plugin_name@ && one[i].metadata.name@
                == two[i].metadata.name@ && one[i].relative_path@ == two[i].relative_path@,
    ensures
        addresses_by_name(one, plugin) == addresses_by_name(two, plugin),
    decreases one.len(),
{
    if one.len() > 0 {
        let first = one.drop_last();
        let second = two.drop_last();
        assert forall|i: int| 0 <= i < first.len() implies (#[trigger] first[i]).plugin_name@ == second[i].plugin_name@
            && first[i].metadata.name@ == second[i].metadata.name@ && first[i].relative_path@ == second[i].relative_path@ by {
            assert(first[i] == one[i] && second[i] == two[i]);
        }
        names_go_by_plugin_name_and_path(first, second, plugin);
        assert(one.last() == one[one.len() - 1] && two.last() == two[two.len() - 1]);
    }
}

/// Dependencies are resolved without anything else of a project being changed, and
/// only in projects of the plugin.
pub proof fn projects_change_in_dependencies_alone(
    before: PartialProject,
    after: PartialProject,
    plugin: Seq<char>,
    names: Map<Seq<char>, Seq<char>>,
    prefix: Seq<char>,
)
    requires
        is_resolved(before, after, plugin, names, prefix) || keeps_siblings(before, after, names),
    ensures
        after.root == before.root,
        after.config_path == before.config_path,
        after.metadata == before.metadata,
        after.custom_targets == before.custom_targets,
        after.explicit_target_dependencies == before.explicit_target_dependencies,
        after.plugin_name == before.plugin_name,
        after.relative_path == before.relative_path,
{
}

} // verus!
