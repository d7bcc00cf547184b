//! Execution of targets in dependency order
//!
//! Collects all target dependencies transitively (e.g., test depends on deps)
//! and groups the targets into levels:
//! - Level 0: targets with no dependencies
//! - Level 1: targets depending only on level 0
//! - Level N: targets depending on level 0..N-1
use vstd::prelude::*;
use crate::cli::output::OutputMode;
use crate::collections::{ascending, TextMap, TextSet};
use crate::discovery::scanner::{address_of, project_address, DiscoveredProject};
use crate::executor::command::{command_of, parse_command, shell_split, ParsedCommand};
use crate::executor::levels::{assigned_before, level_at};
use crate::executor::run::{overrides_in, TargetRun};
use crate::executor::targets::{
    closed_in, collect_target_deps, collecting_closes, dependencies_of, depends_avoiding, depends_avoiding_less,
    reachable_dependencies,
};
use crate::graph::builder::ProjectGraph;
use crate::graph::targets::{target_address, target_address_of};
use crate::text::{concat2, concat4, texts};

verus! {

/// Executor for running target commands on projects
#[derive(Debug, Clone, Copy)]
pub struct Executor<'a> {
    /// Workspace root directory
    pub workspace_root: &'a str,
    /// Output mode for controlling what gets printed
    pub output_mode: OutputMode,
    /// Whether to show full logs for failures instead of truncated output
    pub full_logs: bool,
    /// Whether to use caching
    pub use_cache: bool,
    /// Whether child targets should receive a closed stdin.
    pub null_stdin: bool,
}

/// The projects by address; of projects with the same address the last.
pub open spec fn projects_by_address(projects: Seq<&DiscoveredProject>) -> Map<Seq<char>, &DiscoveredProject>
    decreases projects.len(),
{
    if projects.len() == 0 {
        Map::empty()
    } else {
        projects_by_address(projects.drop_last()).insert(
            address_of(projects.last().relative_path@),
            projects.last(),
        )
    }
}

/// The projects by address.
pub fn project_map<'a>(projects: &Vec<&'a DiscoveredProject>) -> (map: TextMap<&'a DiscoveredProject>)
    ensures
        map@ == projects_by_address(projects@),
{
    let mut map: TextMap<&'a DiscoveredProject> = TextMap::new();
    let mut i: usize = 0;
    assert(projects@.take(0) =~= Seq::<&DiscoveredProject>::empty());
    while i < projects.len()
        invariant
            i <= projects@.len(),
            map@ == projects_by_address(projects@.take(i as int)),
        decreases projects@.len() - i,
    {
        assert(projects@.take(i + 1).drop_last() =~= projects@.take(i as int));
        assert(projects@.take(i + 1).last() == projects@[i as int]);
        map.insert(project_address(&projects[i].relative_path), projects[i]);
        i += 1;
    }
    assert(projects@.take(projects@.len() as int) =~= projects@);
    map
}

/// The project is one on which the requested target itself is to run.
pub open spec fn is_primary(primary_projects: Option<Set<Seq<char>>>, address: Seq<char>) -> bool {
    primary_projects is None || primary_projects->0.contains(address)
}

/// The members of a set that may be missing.
pub open spec fn set_option(set: Option<&TextSet>) -> Option<Set<Seq<char>>> {
    match set {
        Some(found) => Some(found@),
        None => None,
    }
}

/// The requested target of each primary project, and all that these depend on.
pub open spec fn requested_targets(
    map: Map<Seq<char>, &DiscoveredProject>,
    projects: Seq<&DiscoveredProject>,
    target: Seq<char>,
    primary_projects: Option<Set<Seq<char>>>,
) -> Set<Seq<char>>
    decreases projects.len(),
{
    if projects.len() == 0 {
        Set::empty()
    } else {
        let before = requested_targets(map, projects.drop_last(), target, primary_projects);
        let last = projects.last();
        if is_primary(primary_projects, address_of(last.relative_path@)) {
            let own = target_address_of(last.relative_path@, target);
            before.insert(own).union(reachable_dependencies(map, own, before.insert(own)))
        } else {
            before
        }
    }
}

/// The targets of a set, and all that the first `count` of them in order depend on.
pub open spec fn expanded_targets(
    map: Map<Seq<char>, &DiscoveredProject>,
    primary_targets: Seq<Seq<char>>,
    count: int,
) -> Set<Seq<char>>
    decreases count,
{
    if count <= 0 {
        primary_targets.to_set()
    } else {
        let before = expanded_targets(map, primary_targets, count - 1);
        before.union(reachable_dependencies(map, primary_targets[count - 1], before))
    }
}

/// The requested target runs on every primary project, and with a target run
/// all the targets it depends on.
pub proof fn requested_targets_are_closed(
    map: Map<Seq<char>, &DiscoveredProject>,
    projects: Seq<&DiscoveredProject>,
    target: Seq<char>,
    primary_projects: Option<Set<Seq<char>>>,
)
    ensures
        closed_in(
            map,
            requested_targets(map, projects, target, primary_projects),
            requested_targets(map, projects, target, primary_projects),
        ),
        forall|i: int|
            0 <= i < projects.len() && is_primary(
                primary_projects,
                address_of((#[trigger] projects[i]).relative_path@),
            ) ==> requested_targets(map, projects, target, primary_projects).contains(
                target_address_of(projects[i].relative_path@, target),
            ),
    decreases projects.len(),
{
    if projects.len() > 0 {
        let front = projects.drop_last();
        requested_targets_are_closed(map, front, target, primary_projects);
        let before = requested_targets(map, front, target, primary_projects);
        let last = projects.last();
        let all = requested_targets(map, projects, target, primary_projects);
        if is_primary(primary_projects, address_of(last.relative_path@)) {
            let own = target_address_of(last.relative_path@, target);
            let pending = Set::<Seq<char>>::empty().insert(own);
            collecting_closes(map, own, before.insert(own), pending);
            assert(all.difference(pending.remove(own)) =~= all);
        }
        assert forall|i: int|
            0 <= i < projects.len() && is_primary(
                primary_projects,
                address_of((#[trigger] projects[i]).relative_path@),
            ) implies all.contains(target_address_of(projects[i].relative_path@, target)) by {
            if i < front.len() {
                assert(front[i] == projects[i]);
            }
        }
    }
}

/// A run of a target holds nothing that was not asked for: each of its targets
/// is the requested one of a selected project, or a chain of dependencies leads
/// to it from such a one.
pub proof fn requested_targets_are_asked_for(
    map: Map<Seq<char>, &DiscoveredProject>,
    projects: Seq<&DiscoveredProject>,
    target: Seq<char>,
    primary_projects: Option<Set<Seq<char>>>,
    address: Seq<char>,
)
    requires
        requested_targets(map, projects, target, primary_projects).contains(address),
    ensures
        exists|i: int|
            {
                let own = address_of((#[trigger] projects[i]).relative_path@) + ":"@ + target;
                &&& 0 <= i < projects.len()
                &&& primary_projects matches Some(selected) ==> selected.contains(
                    address_of(projects[i].relative_path@),
                )
                &&& address == own || depends_avoiding(map, own, address, Set::empty())
            },
    decreases projects.len(),
{
    let front = projects.drop_last();
    let before = requested_targets(map, front, target, primary_projects);
    if before.contains(address) {
        requested_targets_are_asked_for(map, front, target, primary_projects, address);
        let i = choose|i: int|
            {
                let own = address_of((#[trigger] front[i]).relative_path@) + ":"@ + target;
                &&& 0 <= i < front.len()
                &&& primary_projects matches Some(selected) ==> selected.contains(address_of(front[i].relative_path@))
                &&& address == own || depends_avoiding(map, own, address, Set::empty())
            };
        assert(projects[i] == front[i]);
    } else {
        let at = projects.len() - 1;
        let own = target_address_of(projects[at].relative_path@, target);
        assert(own == address_of(projects[at].relative_path@) + ":"@ + target);
        if address != own {
            depends_avoiding_less(map, own, address, before.insert(own), Set::empty());
        }
        assert(projects[at] == projects.last());
    }
}

/// A run of given targets holds nothing that was not asked for: each of its
/// targets is one of them, or a chain of dependencies leads to it from one of
/// them.
pub proof fn expanded_targets_are_asked_for(
    map: Map<Seq<char>, &DiscoveredProject>,
    primary_targets: Seq<Seq<char>>,
    count: int,
    address: Seq<char>,
)
    requires
        0 <= count <= primary_targets.len(),
        expanded_targets(map, primary_targets, count).contains(address),
    ensures
        exists|i: int|
            0 <= i < primary_targets.len() && (address == #[trigger] primary_targets[i] || depends_avoiding(
                map,
                primary_targets[i],
                address,
                Set::empty(),
            )),
    decreases count,
{
    if count <= 0 {
        let i = choose|i: int| 0 <= i < primary_targets.len() && primary_targets[i] == address;
        assert(primary_targets[i] == address);
    } else {
        let before = expanded_targets(map, primary_targets, count - 1);
        if before.contains(address) {
            expanded_targets_are_asked_for(map, primary_targets, count - 1, address);
        } else {
            depends_avoiding_less(map, primary_targets[count - 1], address, before, Set::empty());
        }
    }
}

proof fn expanded_targets_pending(
    map: Map<Seq<char>, &DiscoveredProject>,
    primary_targets: Seq<Seq<char>>,
    count: int,
)
    requires
        0 <= count <= primary_targets.len(),
    ensures
        closed_in(
            map,
            expanded_targets(map, primary_targets, count).difference(primary_targets.skip(count).to_set()),
            expanded_targets(map, primary_targets, count),
        ),
        primary_targets.to_set().subset_of(expanded_targets(map, primary_targets, count)),
    decreases count,
{
    let all = expanded_targets(map, primary_targets, count);
    if count == 0 {
        assert(primary_targets.skip(0) =~= primary_targets);
    } else {
        expanded_targets_pending(map, primary_targets, count - 1);
        let before = expanded_targets(map, primary_targets, count - 1);
        let target = primary_targets[count - 1];
        let pending = primary_targets.skip(count - 1).to_set();
        collecting_closes(map, target, before, pending);
        assert forall|x: Seq<char>| pending.remove(target).contains(x) implies primary_targets.skip(
            count,
        ).to_set().contains(x) by {
            let tail = primary_targets.skip(count - 1);
            let i = choose|i: int| 0 <= i < tail.len() && tail[i] == x;
            assert(i > 0);
            assert(primary_targets.skip(count)[i - 1] == x);
        }
    }
}

/// An explicit set of targets runs whole, and with a target run all the
/// targets it depends on.
pub proof fn expanded_targets_are_closed(map: Map<Seq<char>, &DiscoveredProject>, primary_targets: Seq<Seq<char>>)
    ensures
        closed_in(
            map,
            expanded_targets(map, primary_targets, primary_targets.len() as int),
            expanded_targets(map, primary_targets, primary_targets.len() as int),
        ),
        primary_targets.to_set().subset_of(expanded_targets(map, primary_targets, primary_targets.len() as int)),
{
    let count = primary_targets.len() as int;
    expanded_targets_pending(map, primary_targets, count);
    assert(primary_targets.skip(count) =~= Seq::<Seq<char>>::empty());
    let all = expanded_targets(map, primary_targets, count);
    assert(all.difference(primary_targets.skip(count).to_set()) =~= all);
}

/// A run that has not begun and covers a set of targets, with the commands
/// that replace those of some of them.
pub open spec fn is_run_of(
    run: TargetRun,
    map: Map<Seq<char>, &DiscoveredProject>,
    targets: Set<Seq<char>>,
    overrides: Map<Seq<char>, String>,
) -> bool {
    &&& run.well_formed()
    &&& run.overrides@ == overrides
    &&& run.next == 0
    &&& run.failed_or_blocked@ == Set::<Seq<char>>::empty()
    &&& run.blocked@.len() == 0
    &&& run.results@.len() == 0
    &&& targets.is_empty() ==> run.levels@.len() == 0
    &&& !targets.is_empty() ==> {
        &&& assigned_before(map, targets, run.levels@.len() as int) == targets
        &&& forall|i: int|
            0 <= i < run.levels@.len() ==> texts((#[trigger] run.levels@[i])@).to_set() == level_at(map, targets, i)
                && ascending(texts(run.levels@[i]@)) && run.levels@[i]@.len() > 0
    }
}

/// A target that runs with the terminal as its input and output.
pub struct StreamingStart {
    /// What is said before the target starts
    pub notices: Vec<String>,
    /// The process to start and its directory, or why there is none
    pub process: Result<(ParsedCommand, String), String>,
}

impl<'a> Executor<'a> {
    /// Create a new executor with default output mode (Normal)
    pub fn new(workspace_root: &'a str) -> (executor: Executor<'a>)
        ensures
            executor == (Executor {
                workspace_root,
                output_mode: OutputMode::Normal,
                full_logs: false,
                use_cache: true,
                null_stdin: false,
            }),
    {
        Executor {
            workspace_root,
            output_mode: OutputMode::Normal,
            full_logs: false,
            use_cache: true,
            null_stdin: false,
        }
    }

    /// Create a new executor with specified output mode
    pub fn with_output_mode(workspace_root: &'a str, output_mode: OutputMode) -> (executor: Executor<'a>)
        ensures
            executor == (Executor {
                workspace_root,
                output_mode,
                full_logs: false,
                use_cache: true,
                null_stdin: false,
            }),
    {
        Executor { workspace_root, output_mode, full_logs: false, use_cache: true, null_stdin: false }
    }

    /// Create a new executor with specified output mode and full_logs option
    pub fn with_options(workspace_root: &'a str, output_mode: OutputMode, full_logs: bool) -> (executor: Executor<'a>)
        ensures
            executor == (Executor { workspace_root, output_mode, full_logs, use_cache: true, null_stdin: false }),
    {
        Executor { workspace_root, output_mode, full_logs, use_cache: true, null_stdin: false }
    }

    /// Create a new executor with all options including cache control
    pub fn with_all_options(
        workspace_root: &'a str,
        output_mode: OutputMode,
        full_logs: bool,
        use_cache: bool,
    ) -> (executor: Executor<'a>)
        ensures
            executor == (Executor { workspace_root, output_mode, full_logs, use_cache, null_stdin: false }),
    {
        Executor { workspace_root, output_mode, full_logs, use_cache, null_stdin: false }
    }

    /// Prevent targets from reading the caller's terminal.
    ///
    /// This is used for dev-service prerequisites, which execute in a worker
    /// while the dashboard remains the foreground terminal process.
    pub fn with_null_stdin(self) -> (executor: Executor<'a>)
        ensures
            executor == (Executor { null_stdin: true, ..self }),
    {
        Executor { null_stdin: true, ..self }
    }

    /// The run of a target on selected projects in dependency order
    ///
    /// The `primary_projects` set specifies which projects should run the requested target.
    /// Dependency projects take part for target-level dependency resolution (e.g., :build)
    /// but won't run the requested target unless they're in the primary set.
    pub fn execute(
        &self,
        target: &str,
        projects: &Vec<&DiscoveredProject>,
        _graph: &ProjectGraph,
        primary_projects: Option<&TextSet>,
    ) -> (run: TargetRun)
        ensures
            is_run_of(
                run,
                projects_by_address(projects@),
                requested_targets(
                    projects_by_address(projects@),
                    projects@,
                    target@,
                    set_option(primary_projects),
                ),
                Map::empty(),
            ),
    {
        self.execute_internal(target, projects, None, primary_projects)
    }

    /// The run of a target with command overrides for specific targets
    ///
    /// The `command_overrides` map replaces the command for specific target addresses:
    /// `TargetRun::next_level` hands the targets out with these commands.
    pub fn execute_with_command_overrides(
        &self,
        target: &str,
        projects: &Vec<&DiscoveredProject>,
        command_overrides: &TextMap<String>,
        primary_projects: Option<&TextSet>,
    ) -> (run: TargetRun)
        ensures
            is_run_of(
                run,
                projects_by_address(projects@),
                requested_targets(
                    projects_by_address(projects@),
                    projects@,
                    target@,
                    set_option(primary_projects),
                ),
                command_overrides@,
            ),
    {
        self.execute_internal(target, projects, Some(command_overrides), primary_projects)
    }

    fn execute_internal(
        &self,
        target: &str,
        projects: &Vec<&DiscoveredProject>,
        command_overrides: Option<&TextMap<String>>,
        primary_projects: Option<&TextSet>,
    ) -> (run: TargetRun)
        ensures
            is_run_of(
                run,
                projects_by_address(projects@),
                requested_targets(
                    projects_by_address(projects@),
                    projects@,
                    target@,
                    set_option(primary_projects),
                ),
                overrides_in(command_overrides),
            ),
    {
        let map = project_map(projects);
        let ghost primary = set_option(primary_projects);
        let mut targets_to_run = TextSet::new();
        let mut i: usize = 0;
        assert(projects@.take(0) =~= Seq::<&DiscoveredProject>::empty());
        while i < projects.len()
            invariant
                i <= projects@.len(),
                map@ == projects_by_address(projects@),
                primary == set_option(primary_projects),
                targets_to_run@ == requested_targets(map@, projects@.take(i as int), target@, primary),
            decreases projects@.len() - i,
        {
            let project = projects[i];
            assert(projects@.take(i + 1).drop_last() =~= projects@.take(i as int));
            assert(projects@.take(i + 1).last() == project);
            let address = project_address(&project.relative_path);
            let primary_here = match primary_projects {
                Some(wanted) => wanted.contains(&address),
                None => true,
            };
            if primary_here {
                let own = target_address(&project.relative_path, target);
                let _ = targets_to_run.insert(own.clone());
                collect_target_deps(&own, &map, &mut targets_to_run);
            }
            i += 1;
        }
        assert(projects@.take(projects@.len() as int) =~= projects@);
        TargetRun::new(&targets_to_run, &map, command_overrides)
    }

    /// The run of an explicit set of target addresses (heterogeneous run): the
    /// targets and, unless `no_deps` is set, all that they depend on.
    pub fn execute_targets(
        &self,
        primary_targets: &TextSet,
        projects: &Vec<&DiscoveredProject>,
        no_deps: bool,
    ) -> (run: TargetRun)
        ensures
            is_run_of(
                run,
                projects_by_address(projects@),
                if projects@.len() == 0 {
                    Set::empty()
                } else if no_deps {
                    primary_targets@
                } else {
                    expanded_targets(
                        projects_by_address(projects@),
                        primary_targets.items(),
                        primary_targets.items().len() as int,
                    )
                },
                Map::empty(),
            ),
    {
        let map = project_map(projects);
        if projects.len() == 0 {
            return TargetRun::new(&TextSet::new(), &map, None);
        }
        let mut targets_to_run = primary_targets.clone();
        if !no_deps {
            let count = primary_targets.len();
            let mut i: usize = 0;
            while i < count
                invariant
                    i <= count,
                    count == primary_targets.items().len(),
                    targets_to_run@ == expanded_targets(map@, primary_targets.items(), i as int),
                decreases count - i,
            {
                collect_target_deps(primary_targets.item_at(i), &map, &mut targets_to_run);
                i += 1;
            }
        }
        TargetRun::new(&targets_to_run, &map, None)
    }

    /// How a target starts with streaming output (for long-running processes like dev servers)
    pub fn execute_streaming(&self, target: &str, project: &DiscoveredProject) -> (start: StreamingStart)
        ensures
            !project.targets@.contains_key(target@) ==> {
                &&& start.notices@.len() == 0
                &&& start.process is Err
                &&& start.process->Err_0@ == "No '"@ + target@ + "' target defined for "@ + address_of(
                    project.relative_path@,
                )
            },
            project.targets@.contains_key(target@) ==> {
                let definition = project.targets@[target@];
                let directory = match definition.working_dir {
                    Some(directory) => directory@,
                    None => project.root@,
                };
                &&& texts(start.notices@) == (if self.output_mode is Verbose {
                    seq!["[aster] Running: "@ + definition.command@, "[aster] Working directory: "@ + directory]
                } else {
                    Seq::empty()
                })
                &&& match start.process {
                    Ok((command, found)) => found@ == directory && shell_split(definition.command@) is Some
                        && command_of(shell_split(definition.command@)->0, command),
                    Err(message) => match shell_split(definition.command@) {
                        None => message@ == "invalid command quoting: "@ + definition.command@,
                        Some(words) => if words.len() == 0 {
                            message@ == "empty command"@
                        } else {
                            message@ == "empty command (only environment variables)"@
                                && crate::executor::command::leading_assignments(words) == words.len()
                        },
                    },
                }
            },
    {
        let mut notices: Vec<String> = Vec::new();
        assert(texts(notices@) =~= Seq::<Seq<char>>::empty());
        let definition = match project.targets.get(target) {
            Some(definition) => definition,
            None => {
                let message = concat4("No '", target, "' target defined for ", &project_address(&project.relative_path));
                return StreamingStart { notices, process: Err(message) };
            },
        };
        let directory = match &definition.working_dir {
            Some(directory) => directory.clone(),
            None => project.root.clone(),
        };
        if let OutputMode::Verbose = self.output_mode {
            let first = concat2("[aster] Running: ", &definition.command);
            let second = concat2("[aster] Working directory: ", &directory);
            let ghost lines = seq![first@, second@];
            notices.push(first);
            notices.push(second);
            assert(texts(notices@) =~= lines);
        }
        let process = match parse_command(&definition.command) {
            Ok(command) => Ok((command, directory)),
            Err(error) => Err(error.to_string()),
        };
        StreamingStart { notices, process }
    }
}

/// An address stands for the last project that has it, and every project's address
/// stands for one.
pub proof fn the_last_project_has_the_address(projects: Seq<&DiscoveredProject>, address: Seq<char>)
    ensures
        projects_by_address(projects).contains_key(address) <==> exists|i: int|
            0 <= i < projects.len() && "//"@ + (#[trigger] projects[i]).relative_path@ == address,
        projects_by_address(projects).contains_key(address) ==> exists|i: int|
            0 <= i < projects.len() && "//"@ + (#[trigger] projects[i]).relative_path@ == address
                && projects_by_address(projects)[address] == projects[i] && forall|j: int|
                i < j < projects.len() ==> "//"@ + (#[trigger] projects[j]).relative_path@ != address,
    decreases projects.len(),
{
    if projects.len() > 0 {
        let front = projects.drop_last();
        let end = projects.len() - 1;
        the_last_project_has_the_address(front, address);
        assert(projects[end] == projects.last());
        assert(forall|i: int| 0 <= i < front.len() ==> #[trigger] front[i] == projects[i]);
        if "//"@ + projects[end].relative_path@ != address {
            if projects_by_address(front).contains_key(address) {
                let i = choose|i: int|
                    0 <= i < front.len() && "//"@ + (#[trigger] front[i]).relative_path@ == address
                        && projects_by_address(front)[address] == front[i] && forall|j: int|
                        i < j < front.len() ==> "//"@ + (#[trigger] front[j]).relative_path@ != address;
                assert("//"@ + projects[i].relative_path@ == address);
                assert forall|j: int| i < j < projects.len() implies "//"@ + (#[trigger] projects[j]).relative_path@
                    != address by {
                    if j < end {
                        assert(front[j] == projects[j]);
                    }
                }
            } else {
                assert forall|i: int| 0 <= i < projects.len() implies "//"@ + (#[trigger] projects[i]).relative_path@
                    != address by {
                    if i < end {
                        assert(front[i] == projects[i]);
                    }
                }
            }
        }
    }
}

/// A run of a target holds all that was asked for: the target on each project of the
/// list that is selected, or on each where none was selected, and with every target
/// whatever that target depends on.
pub proof fn what_is_asked_for_is_run(
    map: Map<Seq<char>, &DiscoveredProject>,
    projects: Seq<&DiscoveredProject>,
    target: Seq<char>,
    primary_projects: Option<Set<Seq<char>>>,
    at: int,
    one: Seq<char>,
    two: Seq<char>,
)
    ensures
        0 <= at < projects.len() && (primary_projects matches Some(selected) ==> selected.contains(
            "//"@ + projects[at].relative_path@,
        )) ==> requested_targets(map, projects, target, primary_projects).contains(
            "//"@ + projects[at].relative_path@ + ":"@ + target,
        ),
        requested_targets(map, projects, target, primary_projects).contains(one) && dependencies_of(map, one).contains(two)
            ==> requested_targets(map, projects, target, primary_projects).contains(two),
{
    requested_targets_are_closed(map, projects, target, primary_projects);
    if 0 <= at < projects.len() && (primary_projects matches Some(selected) ==> selected.contains(
        "//"@ + projects[at].relative_path@,
    )) {
        assert(is_primary(primary_projects, address_of(projects[at].relative_path@)));
    }
}

/// A run of given targets holds each of them, and with every target whatever that
/// target depends on.
pub proof fn given_targets_are_run(
    map: Map<Seq<char>, &DiscoveredProject>,
    primary_targets: Seq<Seq<char>>,
    at: int,
    one: Seq<char>,
    two: Seq<char>,
)
    ensures
        ({
            let all = expanded_targets(map, primary_targets, primary_targets.len() as int);
            &&& 0 <= at < primary_targets.len() ==> all.contains(primary_targets[at])
            &&& all.contains(one) && dependencies_of(map, one).contains(two) ==> all.contains(two)
        }),
{
    expanded_targets_are_closed(map, primary_targets);
    if 0 <= at < primary_targets.len() {
        assert(primary_targets.contains(primary_targets[at]));
    }
}

} // verus!
