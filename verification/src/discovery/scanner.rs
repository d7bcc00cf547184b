//! From the files found in a workspace to its projects.
use globset::GlobSet;
use vstd::prelude::*;
use crate::collections::TextMap;
use crate::config::project::TargetConfig;
use crate::globs::{add_globs, any_glob_matches, build_set, globs_compile, is_glob, new_builder, set_globs, set_matches};
use crate::paths::{
    is_absolute, is_current, joined_names_are_left, joined_paths_lie_under_their_base, path_rest, path_under,
    strip_path,
};
use crate::plugins::{LocalDependency, ProjectMetadata, Target};
use crate::text::{
    concat2, concat3, joined, split_first, split_first_at, split_first_none, split_once, starts_with, strip_prefix,
    texts,
};

verus! {

/// A project discovered during workspace traversal
#[derive(Debug)]
pub struct DiscoveredProject {
    /// Absolute path to project directory
    pub root: String,
    /// Path to the native config file (e.g., package.json)
    pub config_path: String,
    /// Metadata from native config (possibly overridden by aster.toml)
    pub metadata: ProjectMetadata,
    /// Dependencies from native config + aster.toml depends_on
    pub dependencies: Vec<LocalDependency>,
    /// Resolved targets with commands and dependencies
    pub targets: TextMap<Target>,
    /// Which plugin discovered this project
    pub plugin_name: String,
    /// Path relative to workspace root (for addressing)
    pub relative_path: String,
}

/// A project before its targets are detected.
#[derive(Debug)]
pub struct PartialProject {
    pub root: String,
    pub config_path: String,
    pub metadata: ProjectMetadata,
    pub dependencies: Vec<LocalDependency>,
    pub custom_targets: TextMap<TargetConfig>,
    /// Who depends on which target by configuration
    pub explicit_target_dependencies: Vec<(String, String)>,
    pub plugin_name: String,
    pub relative_path: String,
}

/// The address of the project in a directory of the workspace.
pub open spec fn address_of(relative_path: Seq<char>) -> Seq<char> {
    "//"@ + relative_path
}

/// The address of the project in a directory of the workspace.
pub fn project_address(relative_path: &str) -> (address: String)
    ensures
        address@ == address_of(relative_path@),
{
    concat2("//", relative_path)
}

/// Why the projects of a workspace cannot be used.
#[derive(Debug, Clone)]
pub enum DiscoveryError {
    /// A string is no ignore pattern
    InvalidIgnorePattern(String),
    /// The ignore patterns do not compile together
    IgnorePatternsTooComplex,
    /// An alias names a target of another project
    ExternalAlias { target: String, alias: String },
    /// Two projects have the same address
    SameAddress { address: String, first: String, first_plugin: String, second: String, second_plugin: String },
    /// A configured dependency names no target
    MissingTarget { source: String, dependency: String },
}

impl DiscoveryError {
    /// The message for a reader.
    pub open spec fn message(&self) -> Seq<char> {
        match self {
            DiscoveryError::InvalidIgnorePattern(pattern) => "Invalid ignore pattern: "@ + pattern@,
            DiscoveryError::IgnorePatternsTooComplex => "Failed to build ignore pattern set"@,
            DiscoveryError::ExternalAlias { target, alias } => "target "@ + target@ + " has external alias source "@
                + alias@ + "; aliases must use a local target name or //self:<target>"@,
            DiscoveryError::SameAddress { address, first, first_plugin, second, second_plugin } =>
                "Multiple projects resolve to "@ + address@ + ": "@ + first@ + " ("@ + first_plugin@ + ") and "@
                    + second@ + " ("@ + second_plugin@ + "). Put each language project in its own directory."@,
            DiscoveryError::MissingTarget { source, dependency } => source@ + " depends on missing target "@
                + dependency@,
        }
    }

    /// The message for a reader.
    pub fn to_string(&self) -> (message: String)
        ensures
            message@ == self.message(),
    {
        match self {
            DiscoveryError::InvalidIgnorePattern(pattern) => concat2("Invalid ignore pattern: ", pattern),
            DiscoveryError::IgnorePatternsTooComplex => "Failed to build ignore pattern set".to_owned(),
            DiscoveryError::ExternalAlias { target, alias } => {
                let front = concat3("target ", target, " has external alias source ");
                concat3(&front, alias, "; aliases must use a local target name or //self:<target>")
            },
            DiscoveryError::SameAddress { address, first, first_plugin, second, second_plugin } => {
                let mut text = concat3("Multiple projects resolve to ", address, ": ");
                text = concat3(&concat3(&text, first, " ("), first_plugin, ") and ");
                text = concat3(&concat2(&text, second), " (", second_plugin);
                concat2(&text, "). Put each language project in its own directory.")
            },
            DiscoveryError::MissingTarget { source, dependency } => concat3(
                source,
                " depends on missing target ",
                dependency,
            ),
        }
    }
}

/// Build a set from ignore patterns
pub fn build_ignore_set(patterns: &Vec<String>) -> (set: Result<GlobSet, DiscoveryError>)
    ensures
        match set {
            Ok(built) => {
                &&& forall|i: int| 0 <= i < patterns@.len() ==> is_glob((#[trigger] patterns@[i])@)
                &&& globs_compile(texts(patterns@))
                &&& set_globs(built) == texts(patterns@)
            },
            Err(DiscoveryError::InvalidIgnorePattern(pattern)) => exists|i: int|
                0 <= i < patterns@.len() && pattern@ == (#[trigger] patterns@[i])@ && !is_glob(pattern@) && forall|j: int|
                    0 <= j < i ==> is_glob((#[trigger] patterns@[j])@),
            Err(DiscoveryError::IgnorePatternsTooComplex) => {
                &&& forall|i: int| 0 <= i < patterns@.len() ==> is_glob((#[trigger] patterns@[i])@)
                &&& !globs_compile(texts(patterns@))
            },
            Err(_) => false,
        },
{
    let mut builder = new_builder();
    if let Some(at) = add_globs(&mut builder, patterns) {
        return Err(DiscoveryError::InvalidIgnorePattern(patterns[at].clone()));
    }
    assert(Seq::<Seq<char>>::empty() + texts(patterns@) =~= texts(patterns@));
    match build_set(&builder) {
        Ok(set) => Ok(set),
        Err(_) => Err(DiscoveryError::IgnorePatternsTooComplex),
    }
}

/// The path of a directory seen from the workspace root; a directory outside
/// the workspace keeps its path.
pub open spec fn path_in_workspace(workspace_root: Seq<char>, directory: Seq<char>) -> Seq<char> {
    if path_under(directory, workspace_root) {
        path_rest(directory, workspace_root)
    } else {
        directory
    }
}

/// The path of a project directory in the workspace, unless it is ignored.
pub fn discovered_path(workspace_root: &str, project_dir: &str, ignore_set: &GlobSet) -> (relative: Option<String>)
    ensures
        relative is None <==> any_glob_matches(
            set_globs(*ignore_set),
            path_in_workspace(workspace_root@, project_dir@),
        ),
        relative matches Some(path) ==> path@ == path_in_workspace(workspace_root@, project_dir@),
{
    let path = match strip_path(project_dir, workspace_root) {
        Some(rest) => rest,
        None => project_dir.to_owned(),
    };
    if set_matches(ignore_set, &path) {
        None
    } else {
        Some(path)
    }
}

/// What a `//self:` reference or a bare name means in a project.
pub open spec fn local_target(project: Seq<char>, name: Seq<char>) -> Seq<char> {
    if "//self:"@.is_prefix_of(name) {
        project + ":"@ + name.skip(7)
    } else {
        project + ":"@ + name
    }
}

/// What a dependency means in a project: `//self:` stands for the project itself.
pub open spec fn own_dependency(project: Seq<char>, dependency: Seq<char>) -> Seq<char> {
    if "//self:"@.is_prefix_of(dependency) {
        project + ":"@ + dependency.skip(7)
    } else {
        dependency
    }
}

/// The alias names a target of another project.
pub open spec fn is_external_alias(target: TargetConfig) -> bool {
    target matches TargetConfig::Alias(alias) && "//"@.is_prefix_of(alias.alias@) && !"//self:"@.is_prefix_of(
        alias.alias@,
    )
}

/// The first part of an address, in front of its target.
pub open spec fn project_part(address: Seq<char>) -> Seq<char> {
    match split_first(address, ':') {
        Some((front, _)) => front,
        None => address,
    }
}

/// Who depends on which target by a project's own configuration: the project
/// on the build of each project it names.
pub open spec fn project_requirements(relative_path: Seq<char>, depends_on: Seq<Seq<char>>) -> Seq<
    (Seq<char>, Seq<char>),
> {
    depends_on.map_values(
        |dependency: Seq<char>|
            ("project //"@ + relative_path, project_part(dependency) + ":build"@),
    )
}

/// Who depends on which target by the configuration of one target: on the
/// target it is an alias of, and on those it names.
pub open spec fn target_requirements(project: Seq<char>, name: Seq<char>, target: TargetConfig) -> Seq<
    (Seq<char>, Seq<char>),
> {
    let source = "target "@ + project + ":"@ + name;
    let named = texts(target.dependency_list()).map_values(
        |dependency: Seq<char>| (source, own_dependency(project, dependency)),
    );
    match target {
        TargetConfig::Alias(alias) => seq![(source, local_target(project, alias.alias@))] + named,
        _ => named,
    }
}

/// The same for the first `count` targets of a project, in the order of their names.
pub open spec fn targets_requirements(
    project: Seq<char>,
    targets: TextMap<TargetConfig>,
    count: int,
) -> Seq<(Seq<char>, Seq<char>)>
    decreases count,
{
    if count <= 0 {
        Seq::empty()
    } else {
        targets_requirements(project, targets, count - 1) + target_requirements(
            project,
            targets.keys()[count - 1],
            targets@[targets.keys()[count - 1]],
        )
    }
}

/// The strings of each pair.
pub open spec fn pair_texts(pairs: Seq<(String, String)>) -> Seq<(Seq<char>, Seq<char>)> {
    pairs.map_values(|pair: (String, String)| (pair.0@, pair.1@))
}

fn push_pair(pairs: &mut Vec<(String, String)>, first: String, second: String)
    ensures
        pair_texts(final(pairs)@) == pair_texts(old(pairs)@).push((first@, second@)),
{
    let ghost before = pair_texts(pairs@);
    let ghost pair = (first@, second@);
    pairs.push((first, second));
    assert(pair_texts(pairs@) =~= before.push(pair));
}

fn resolve_own(project: &str, dependency: &str) -> (resolved: String)
    ensures
        resolved@ == own_dependency(project@, dependency@),
{
    proof {
        reveal_strlit("//self:");
    }
    match strip_prefix(dependency, "//self:") {
        Some(name) => concat3(project, ":", &name),
        None => dependency.to_owned(),
    }
}

fn require_target(pairs: &mut Vec<(String, String)>, project: &str, name: &str, target: &TargetConfig) -> (result: Result<
    (),
    DiscoveryError,
>)
    ensures
        result is Ok <==> !is_external_alias(*target),
        result is Ok ==> pair_texts(final(pairs)@) == pair_texts(old(pairs)@) + target_requirements(
            project@,
            name@,
            *target,
        ),
        result matches Err(error) ==> error is ExternalAlias && error->target@ == project@ + ":"@ + name@
            && error->alias@ == target->Alias_0.alias@,
{
    let ghost start = pair_texts(pairs@);
    let source = concat2(&concat3("target ", project, ":"), name);
    let ghost who = source@;
    if let TargetConfig::Alias(alias) = target {
        if starts_with(&alias.alias, "//") && !starts_with(&alias.alias, "//self:") {
            return Err(
                DiscoveryError::ExternalAlias { target: concat3(project, ":", name), alias: alias.alias.clone() },
            );
        }
        proof {
            reveal_strlit("//self:");
        }
        let meant = match strip_prefix(&alias.alias, "//self:") {
            Some(own) => concat3(project, ":", &own),
            None => concat3(project, ":", &alias.alias),
        };
        push_pair(pairs, source.clone(), meant);
    }
    let dependencies = target.depends_on();
    let ghost all = texts(dependencies@);
    let ghost named = all.map_values(|dependency: Seq<char>| (who, own_dependency(project@, dependency)));
    let ghost head = pair_texts(pairs@);
    let mut i: usize = 0;
    assert(head + named.take(0) =~= head);
    while i < dependencies.len()
        invariant
            i <= dependencies@.len(),
            source@ == who,
            all == texts(dependencies@),
            named == all.map_values(|dependency: Seq<char>| (who, own_dependency(project@, dependency))),
            pair_texts(pairs@) == head + named.take(i as int),
        decreases dependencies@.len() - i,
    {
        let ghost so_far = pair_texts(pairs@);
        let meant = resolve_own(project, &dependencies[i]);
        let ghost pair = (who, meant@);
        push_pair(pairs, source.clone(), meant);
        proof {
            assert(named[i as int] == pair);
            assert(named.take(i + 1) =~= named.take(i as int).push(pair));
            assert(so_far.push(pair) =~= head + named.take(i + 1));
        }
        i += 1;
    }
    proof {
        assert(named.take(named.len() as int) =~= named);
        assert(head + named =~= start + target_requirements(project@, name@, *target));
    }
    Ok(())
}

/// What an aster.toml file says of the project it lies beside.
#[derive(Debug)]
pub struct ProjectOverrides {
    pub name: Option<String>,
    pub depends_on: Vec<String>,
    pub targets: TextMap<TargetConfig>,
}

/// The name and path of a dependency that configuration adds.
pub open spec fn added_dependencies(depends_on: Seq<Seq<char>>) -> Seq<(Seq<char>, Seq<char>)> {
    depends_on.map_values(|address: Seq<char>| (address, address))
}

/// Merges an aster.toml into a project: its name replaces the project's, its
/// dependencies are added, and what it requires is noted. It is refused where
/// an alias names a target of another project.
pub fn merge_overrides(project: &mut PartialProject, overrides: ProjectOverrides) -> (merged: Result<(), DiscoveryError>)
    ensures
        merged is Ok <==> forall|k: int|
            0 <= k < overrides.targets.keys().len() ==> !is_external_alias(
                overrides.targets@[#[trigger] overrides.targets.keys()[k]],
            ),
        merged matches Err(error) ==> exists|k: int|
            {
                &&& 0 <= k < overrides.targets.keys().len()
                &&& is_external_alias(overrides.targets@[#[trigger] overrides.targets.keys()[k]])
                &&& error is ExternalAlias
                &&& error->target@ == address_of(old(project).relative_path@) + ":"@ + overrides.targets.keys()[k]
                &&& error->alias@ == overrides.targets@[overrides.targets.keys()[k]]->Alias_0.alias@
            },
        merged is Ok ==> {
            let project_address = address_of(old(project).relative_path@);
            &&& final(project).root == old(project).root
            &&& final(project).config_path == old(project).config_path
            &&& final(project).plugin_name == old(project).plugin_name
            &&& final(project).relative_path == old(project).relative_path
            &&& final(project).metadata.version == old(project).metadata.version
            &&& final(project).metadata.name == (match overrides.name {
                Some(name) => name,
                None => old(project).metadata.name,
            })
            &&& final(project).custom_targets == overrides.targets
            &&& crate::discovery::placeholders::dependency_texts(final(project).dependencies@)
                == crate::discovery::placeholders::dependency_texts(old(project).dependencies@) + added_dependencies(
                texts(overrides.depends_on@),
            )
            &&& pair_texts(final(project).explicit_target_dependencies@) == pair_texts(
                old(project).explicit_target_dependencies@,
            ) + project_requirements(old(project).relative_path@, texts(overrides.depends_on@))
                + targets_requirements(project_address, overrides.targets, overrides.targets.keys().len() as int)
        },
{
    let address = project_address(&project.relative_path);
    let ghost start = *project;
    let ghost wanted = texts(overrides.depends_on@);
    let ghost required = project_requirements(start.relative_path@, wanted);
    let ghost added = added_dependencies(wanted);
    let ghost first_pairs = pair_texts(project.explicit_target_dependencies@);
    let ghost first_dependencies = crate::discovery::placeholders::dependency_texts(project.dependencies@);
    let ghost before_name = project.metadata.name;
    if let Some(name) = overrides.name {
        project.metadata.name = name;
    }
    let ghost new_name = project.metadata.name;
    let mut i: usize = 0;
    proof {
        assert(first_pairs + required.take(0) =~= first_pairs);
        assert(first_dependencies + added.take(0) =~= first_dependencies);
    }
    while i < overrides.depends_on.len()
        invariant
            i <= overrides.depends_on@.len(),
            wanted == texts(overrides.depends_on@),
            required == project_requirements(start.relative_path@, wanted),
            added == added_dependencies(wanted),
            project.root == start.root,
            project.config_path == start.config_path,
            project.plugin_name == start.plugin_name,
            project.relative_path == start.relative_path,
            project.metadata.version == start.metadata.version,
            project.metadata.name == new_name,
            pair_texts(project.explicit_target_dependencies@) == first_pairs + required.take(i as int),
            crate::discovery::placeholders::dependency_texts(project.dependencies@) == first_dependencies + added.take(
                i as int,
            ),
        decreases overrides.depends_on@.len() - i,
    {
        let dependency = &overrides.depends_on[i];
        let named = match split_once(dependency, ':') {
            Some((front, _)) => front,
            None => dependency.clone(),
        };
        let ghost pairs = pair_texts(project.explicit_target_dependencies@);
        let ghost known = crate::discovery::placeholders::dependency_texts(project.dependencies@);
        let source = concat2("project //", &project.relative_path);
        let meant = concat2(&named, ":build");
        let ghost pair = (source@, meant@);
        push_pair(&mut project.explicit_target_dependencies, source, meant);
        project.dependencies.push(LocalDependency { name: dependency.clone(), path: dependency.clone() });
        proof {
            assert(wanted[i as int] == dependency@);
            assert(required[i as int] == pair);
            assert(required.take(i + 1) =~= required.take(i as int).push(pair));
            assert(pairs.push(pair) =~= first_pairs + required.take(i + 1));
            assert(added[i as int] == (dependency@, dependency@));
            assert(added.take(i + 1) =~= added.take(i as int).push((dependency@, dependency@)));
            assert(crate::discovery::placeholders::dependency_texts(project.dependencies@) =~= known.push(
                (dependency@, dependency@),
            ));
            assert(known.push((dependency@, dependency@)) =~= first_dependencies + added.take(i + 1));
        }
        i += 1;
    }
    proof {
        assert(required.take(required.len() as int) =~= required);
        assert(added.take(added.len() as int) =~= added);
    }
    let ghost head = first_pairs + required;
    let count = overrides.targets.len();
    let ghost keys = overrides.targets.keys();
    let mut j: usize = 0;
    assert(head + targets_requirements(address@, overrides.targets, 0) =~= head);
    while j < count
        invariant
            j <= count,
            count == overrides.targets.keys().len(),
            keys == overrides.targets.keys(),
            start == *old(project),
            address@ == address_of(start.relative_path@),
            project.root == start.root,
            project.config_path == start.config_path,
            project.plugin_name == start.plugin_name,
            project.relative_path == start.relative_path,
            project.metadata.version == start.metadata.version,
            project.metadata.name == new_name,
            crate::discovery::placeholders::dependency_texts(project.dependencies@) == first_dependencies + added,
            forall|k: int| 0 <= k < j ==> !is_external_alias(overrides.targets@[#[trigger] keys[k]]),
            pair_texts(project.explicit_target_dependencies@) == head + targets_requirements(
                address@,
                overrides.targets,
                j as int,
            ),
        decreases count - j,
    {
        let name = overrides.targets.key_at(j);
        let target = overrides.targets.value_at(j);
        let ghost so_far = targets_requirements(address@, overrides.targets, j as int);
        let ghost own = target_requirements(address@, name@, *target);
        assert(keys[j as int] == name@);
        if let Err(error) = require_target(&mut project.explicit_target_dependencies, &address, name, target) {
            assert(is_external_alias(overrides.targets@[keys[j as int]]));
            return Err(error);
        }
        assert(head + so_far + own =~= head + (so_far + own));
        j += 1;
    }
    project.custom_targets = overrides.targets;
    Ok(())
}

/// What a project requires is what each of its targets requires: the target that an
/// alias stands for, and whatever it names as a dependency.
pub proof fn targets_require_what_they_name(
    project: Seq<char>,
    targets: TextMap<TargetConfig>,
    count: int,
    requirement: (Seq<char>, Seq<char>),
)
    requires
        0 <= count <= targets.keys().len(),
    ensures
        targets_requirements(project, targets, count).contains(requirement) <==> exists|k: int|
            0 <= k < count && target_requirements(project, #[trigger] targets.keys()[k], targets@[targets.keys()[k]]).contains(
                requirement,
            ),
    decreases count,
{
    if count > 0 {
        let before = targets_requirements(project, targets, count - 1);
        let all = targets_requirements(project, targets, count);
        let own = target_requirements(project, targets.keys()[count - 1], targets@[targets.keys()[count - 1]]);
        targets_require_what_they_name(project, targets, count - 1, requirement);
        if before.contains(requirement) {
            let i = choose|i: int| 0 <= i < before.len() && before[i] == requirement;
            assert(all[i] == requirement);
        }
        if own.contains(requirement) {
            let i = choose|i: int| 0 <= i < own.len() && own[i] == requirement;
            assert(all[before.len() + i] == requirement);
        }
        if all.contains(requirement) {
            let i = choose|i: int| 0 <= i < all.len() && all[i] == requirement;
            if i < before.len() {
                assert(before.contains(before[i]));
            } else {
                assert(own.contains(own[i - before.len()]));
            }
        }
    }
}

/// A reference to `//self` means the project it stands in, and any other address
/// means itself.
pub proof fn self_is_the_project(project: Seq<char>, name: Seq<char>)
    ensures
        own_dependency(project, "//self:"@ + name) == project + ":"@ + name,
        local_target(project, "//self:"@ + name) == project + ":"@ + name,
        !"//self:"@.is_prefix_of(name) ==> own_dependency(project, name) == name && local_target(project, name) == project
            + ":"@ + name,
{
    reveal_strlit("//self:");
    assert(("//self:"@ + name).take(7) =~= "//self:"@);
    assert(("//self:"@ + name).skip(7) =~= name);
    assert("//self:"@.is_prefix_of("//self:"@ + name));
}

/// A directory of the workspace is known by its path from the root, and one outside by
/// its own.
pub proof fn directories_are_seen_from_the_root(root: Seq<char>, names: Seq<Seq<char>>, outside: Seq<char>)
    requires
        root.len() > 0,
        root.last() != '/',
        names.len() > 0,
        forall|i: int| 0 <= i < names.len() ==> !is_current(#[trigger] names[i]) && !names[i].contains('/'),
        !is_absolute(joined(names, "/"@)),
        !path_under(outside, root),
    ensures
        path_in_workspace(root, root + "/"@ + joined(names, "/"@)) == joined(names, "/"@),
        path_in_workspace(root, outside) == outside,
{
    joined_names_are_left(root, names);
    joined_paths_lie_under_their_base(root, joined(names, "/"@));
}

/// A project requires the build of each project that it names, with or without a
/// target behind the name.
pub proof fn projects_require_builds(path: Seq<char>, depends_on: Seq<Seq<char>>, project: Seq<char>, target: Seq<char>, at: int)
    requires
        0 <= at < depends_on.len(),
        !project.contains(':'),
        depends_on[at] == project || depends_on[at] == project + ":"@ + target,
    ensures
        project_requirements(path, depends_on).len() == depends_on.len(),
        project_requirements(path, depends_on)[at] == ("project //"@ + path, project + ":build"@),
{
    reveal_strlit(":");
    let end = project.len() as int;
    let all = project + ":"@ + target;
    assert forall|j: int| 0 <= j < end implies project[j] != ':' && all[j] != ':' by {
        assert(project.contains(project[j]));
    }
    split_first_none(project, ':');
    assert(all[end] == ':');
    split_first_at(all, ':', end);
    assert(all.take(end) =~= project);
}

/// An alias of another project's target is one, and an alias in its own project is
/// not.
pub proof fn aliases_of_others(target: TargetConfig, name: Seq<char>)
    requires
        target is Alias,
    ensures
        target->Alias_0.alias@ == "//self:"@ + name ==> !is_external_alias(target),
        target->Alias_0.alias@ == "//"@ + name && !"self:"@.is_prefix_of(name) ==> is_external_alias(target),
        !"//"@.is_prefix_of(target->Alias_0.alias@) ==> !is_external_alias(target),
{
    reveal_strlit("//");
    reveal_strlit("self:");
    reveal_strlit("//self:");
    let alias = target->Alias_0.alias@;
    if alias == "//self:"@ + name {
        assert("//self:"@ =~= alias.take(7));
    }
    if alias == "//"@ + name {
        assert("//"@ =~= alias.take(2));
        if "//self:"@.is_prefix_of(alias) {
            assert(alias.take(7) == "//self:"@);
            assert forall|i: int| 0 <= i < 5 implies name[i] == "self:"@[i] by {
                assert(alias.take(7)[i + 2] == name[i]);
                assert("//self:"@[i + 2] == "self:"@[i]);
            }
            assert("self:"@ =~= name.take(5));
        }
    }
}

/// A target requires whatever it names, and an alias also what it stands for.
pub proof fn each_dependency_is_required(project: Seq<char>, name: Seq<char>, target: TargetConfig, at: int)
    ensures
        0 <= at < target.dependency_list().len() ==> target_requirements(project, name, target).contains(
            ("target "@ + project + ":"@ + name, own_dependency(project, target.dependency_list()[at]@)),
        ),
        target matches TargetConfig::Alias(alias) ==> target_requirements(project, name, target).contains(
            ("target "@ + project + ":"@ + name, local_target(project, alias.alias@)),
        ),
        target_requirements(project, name, target).len() == target.dependency_list().len() + (if target is Alias {
            1int
        } else {
            0
        }),
{
    let source = "target "@ + project + ":"@ + name;
    let all = target_requirements(project, name, target);
    let shift: int = if target is Alias {
        1
    } else {
        0
    };
    if 0 <= at < target.dependency_list().len() {
        assert(all[at + shift] == (source, own_dependency(project, target.dependency_list()[at]@)));
    }
    if let TargetConfig::Alias(alias) = target {
        assert(all[0] == (source, local_target(project, alias.alias@)));
    }
}

} // verus!
