//! Run command argument parsing and project selection
//!
//! Handles parsing external subcommand args for target execution
//! and selecting projects based on flags (--all, --no-deps, --dependents).
use globset::GlobSet;
use vstd::prelude::*;
use crate::collections::TextSet;
use crate::discovery::scanner::{address_of, project_address, DiscoveredProject};
use crate::git::file_owner::path_length;
use crate::globs::{add_glob, build_set, glob_matches, globs_compile, is_glob, new_builder, set_globs, set_matches};
use crate::graph::builder::{project_addresses, ProjectGraph};
use crate::graph::closure::{is_neighbor, is_reached, reached_addresses, Direction};
use crate::paths::{is_same_path, path_rest, path_under, same_path, strip_path, under_path};
use crate::text::{concat2, concat3, concat4, contains_char, contains_item, ends_with, join_texts, joined, same_text, starts_with, strip_prefix, texts};

verus! {

/// Reserved command names that cannot be used as targets
pub const RESERVED_COMMANDS: [&'static str; 7] = ["list", "graph", "why", "init", "affected", "logs", "help"];

/// The reserved names.
pub open spec fn reserved_names() -> Seq<Seq<char>> {
    Seq::new(7, |i: int| RESERVED_COMMANDS@[i]@)
}

/// Parsed arguments for the run command
#[derive(Debug, Clone, Default)]
pub struct RunArgs {
    /// Target to run (e.g., "test", "build", "lint")
    pub target: String,
    /// Explicit projects to run on (//path/to/project, //prefix/..., ./...,
    /// path/to/project, path/*)
    pub projects: Vec<String>,
    /// Projects to exclude (-//path/to/project, -//prefix/...)
    pub exclusions: Vec<String>,
    /// Skip dependencies (run only specified projects)
    pub no_deps: bool,
    /// Include projects that depend on selected projects
    pub dependents: bool,
    /// Run on all projects
    pub all: bool,
    /// Use current directory to find project (triggered by "." argument)
    pub use_cwd: bool,
    /// Treat warnings as errors for targets that support it
    pub warnings_as_errors: bool,
    /// Stream override: Some(true) = force stream, Some(false) = force no-stream, None = use target config
    pub stream_override: Option<bool>,
    /// Disable caching
    pub no_cache: bool,
    /// Enable verbose output
    pub verbose: bool,
    /// Suppress per-project output
    pub quiet: bool,
    /// Output in JSON format
    pub json: bool,
    /// Show full output for failed targets
    pub full_logs: bool,
}

/// Check if a target name conflicts with a reserved command
///
/// Returns an error message if the target is reserved, None otherwise.
pub fn check_reserved_target(target: &str) -> (message: Option<String>)
    ensures
        message is Some <==> reserved_names().contains(target@),
        message matches Some(text) ==> text@ == "'"@ + target@
            + "' is a reserved command. If you have a target named '"@ + target@
            + "', rename it to avoid conflicts (e.g., 'run-"@ + target@ + "' or '"@ + target@
            + "-all').\n\nReserved commands: "@ + joined(reserved_names(), ", "@),
{
    let mut names: Vec<String> = Vec::new();
    let mut i: usize = 0;
    let list = RESERVED_COMMANDS;
    while i < 7
        invariant
            i <= 7,
            list == RESERVED_COMMANDS,
            names@.len() == i,
            forall|k: int| 0 <= k < i ==> (#[trigger] names@[k])@ == RESERVED_COMMANDS@[k]@,
        decreases 7 - i,
    {
        names.push(list[i].to_owned());
        i += 1;
    }
    assert(texts(names@) =~= reserved_names());
    if contains_item(&names, target) {
        let front = concat4("'", target, "' is a reserved command. If you have a target named '", target);
        let middle = concat4("', rename it to avoid conflicts (e.g., 'run-", target, "' or '", target);
        let back = concat2("-all').\n\nReserved commands: ", &join_texts(&names, ", "));
        let text = concat3(&front, &middle, &back);
        assert(text@ =~= "'"@ + target@ + "' is a reserved command. If you have a target named '"@ + target@
            + "', rename it to avoid conflicts (e.g., 'run-"@ + target@ + "' or '"@ + target@
            + "-all').\n\nReserved commands: "@ + joined(reserved_names(), ", "@));
        Some(text)
    } else {
        None
    }
}

// ---------------------------------------------------------------------------
// Arguments
// ---------------------------------------------------------------------------

/// An argument that starts like a long flag.
pub open spec fn is_long_flag(arg: Seq<char>) -> bool {
    "--"@.is_prefix_of(arg)
}

/// An argument that leaves projects out.
pub open spec fn is_exclusion(arg: Seq<char>) -> bool {
    "-//"@.is_prefix_of(arg)
}

/// An argument that names projects wherever it stands.
pub open spec fn is_project(arg: Seq<char>) -> bool {
    "//"@.is_prefix_of(arg) || "./"@.is_prefix_of(arg)
}

/// An argument that may name the target.
pub open spec fn is_positional(arg: Seq<char>) -> bool {
    !is_long_flag(arg) && arg != "-v"@ && arg != "-q"@ && arg != "."@ && !is_exclusion(arg) && !is_project(arg)
}

/// The first argument that names the target, or nothing.
pub open spec fn target_of(args: Seq<Seq<char>>) -> Seq<char>
    decreases args.len(),
{
    if args.len() == 0 {
        Seq::empty()
    } else if target_of(args.drop_last()).len() == 0 && is_positional(args.last()) {
        args.last()
    } else {
        target_of(args.drop_last())
    }
}

/// What the last of the stream flags says.
pub open spec fn stream_of(args: Seq<Seq<char>>) -> Option<bool>
    decreases args.len(),
{
    if args.len() == 0 {
        None
    } else if args.last() == "--stream"@ {
        Some(true)
    } else if args.last() == "--no-stream"@ {
        Some(false)
    } else {
        stream_of(args.drop_last())
    }
}

/// Behind some arguments a positional one names projects by their directory:
/// the target is known, and it is neither a flag nor the value of `--lang`.
pub open spec fn is_directory(front: Seq<Seq<char>>, arg: Seq<char>) -> bool {
    is_positional(arg) && target_of(front).len() > 0 && front.last() != "--lang"@ && !"-"@.is_prefix_of(arg)
}

/// The arguments that name projects: by an address or a path from the current
/// directory, or by a directory behind the target.
pub open spec fn projects_of(args: Seq<Seq<char>>) -> Seq<Seq<char>>
    decreases args.len(),
{
    if args.len() == 0 {
        Seq::empty()
    } else {
        let front = args.drop_last();
        let arg = args.last();
        if is_project(arg) || is_directory(front, arg) {
            projects_of(front).push(arg)
        } else {
            projects_of(front)
        }
    }
}

/// What the arguments leave out, without the leading dash.
pub open spec fn exclusions_of(args: Seq<Seq<char>>) -> Seq<Seq<char>> {
    args.filter(|arg: Seq<char>| is_exclusion(arg)).map_values(|arg: Seq<char>| arg.skip(1))
}

/// What the arguments of a run say.
pub open spec fn says(args: Seq<Seq<char>>, run: RunArgs) -> bool {
    &&& run.target@ == target_of(args)
    &&& texts(run.projects@) == projects_of(args)
    &&& texts(run.exclusions@) == exclusions_of(args)
    &&& run.no_deps == args.contains("--no-deps"@)
    &&& run.dependents == args.contains("--dependents"@)
    &&& run.all == args.contains("--all"@)
    &&& run.use_cwd == args.contains("."@)
    &&& run.warnings_as_errors == args.contains("--warnings-as-errors"@)
    &&& run.stream_override == stream_of(args)
    &&& run.no_cache == args.contains("--no-cache"@)
    &&& run.verbose == (args.contains("--verbose"@) || args.contains("-v"@))
    &&& run.quiet == (args.contains("--quiet"@) || args.contains("-q"@))
    &&& run.json == args.contains("--json"@)
    &&& run.full_logs == args.contains("--full-logs"@)
}

proof fn flag_shapes()
    ensures
        is_long_flag("--no-deps"@),
        is_long_flag("--dependents"@),
        is_long_flag("--all"@),
        is_long_flag("--warnings-as-errors"@),
        is_long_flag("--stream"@),
        is_long_flag("--no-stream"@),
        is_long_flag("--no-cache"@),
        is_long_flag("--verbose"@),
        is_long_flag("--quiet"@),
        is_long_flag("--json"@),
        is_long_flag("--full-logs"@),
        !is_long_flag("-v"@) && !is_exclusion("-v"@) && !is_project("-v"@),
        !is_long_flag("-q"@) && !is_exclusion("-q"@) && !is_project("-q"@),
        !is_long_flag("."@) && !is_exclusion("."@) && !is_project("."@),
        "-v"@ != "-q"@,
        "-v"@ != "."@,
        "-q"@ != "."@,
        forall|arg: Seq<char>| #[trigger] is_long_flag(arg) ==> !is_exclusion(arg) && !is_project(arg),
        forall|arg: Seq<char>| #[trigger] is_exclusion(arg) ==> !is_project(arg) && arg.len() >= 1,
{
    reveal_strlit("--");
    reveal_strlit("-//");
    reveal_strlit("//");
    reveal_strlit("./");
    reveal_strlit("--no-deps");
    reveal_strlit("--dependents");
    reveal_strlit("--all");
    reveal_strlit("--warnings-as-errors");
    reveal_strlit("--stream");
    reveal_strlit("--no-stream");
    reveal_strlit("--no-cache");
    reveal_strlit("--verbose");
    reveal_strlit("--quiet");
    reveal_strlit("--json");
    reveal_strlit("--full-logs");
    reveal_strlit("-v");
    reveal_strlit("-q");
    reveal_strlit(".");
    assert("-v"@[1] == 'v' && "-q"@[1] == 'q');
    assert("-v"@.subrange(0, 2)[1] == 'v' && "-v"@.subrange(0, 2)[0] == '-');
    assert("-q"@.subrange(0, 2)[1] == 'q' && "-q"@.subrange(0, 2)[0] == '-');
    assert forall|arg: Seq<char>| #[trigger] is_long_flag(arg) implies !is_exclusion(arg) && !is_project(arg) by {
        assert(arg.subrange(0, 2)[1] == '-' && arg.subrange(0, 2)[0] == '-');
        assert(arg[1] == '-' && arg[0] == '-');
        if is_exclusion(arg) {
            assert(arg.subrange(0, 3)[1] == '/');
        }
    }
    assert forall|arg: Seq<char>| #[trigger] is_exclusion(arg) implies !is_project(arg) && arg.len() >= 1 by {
        assert(arg.subrange(0, 3)[0] == '-');
        assert(arg[0] == '-');
    }
}

proof fn pushed(args: Seq<Seq<char>>, arg: Seq<char>, other: Seq<char>)
    ensures
        args.push(arg).contains(other) == (args.contains(other) || arg == other),
{
    if args.contains(other) {
        let i = choose|i: int| 0 <= i < args.len() && args[i] == other;
        assert(args.push(arg)[i] == other);
    }
    assert(args.push(arg)[args.len() as int] == arg);
}

proof fn args_step(args: Seq<Seq<char>>, arg: Seq<char>)
    ensures
        target_of(args.push(arg)) == (if target_of(args).len() == 0 && is_positional(arg) {
            arg
        } else {
            target_of(args)
        }),
        stream_of(args.push(arg)) == (if arg == "--stream"@ {
            Some(true)
        } else if arg == "--no-stream"@ {
            Some(false)
        } else {
            stream_of(args)
        }),
        projects_of(args.push(arg)) == (if is_project(arg) || is_directory(args, arg) {
            projects_of(args).push(arg)
        } else {
            projects_of(args)
        }),
        exclusions_of(args.push(arg)) == (if is_exclusion(arg) {
            exclusions_of(args).push(arg.skip(1))
        } else {
            exclusions_of(args)
        }),
        forall|other: Seq<char>| #[trigger]
            args.push(arg).contains(other) == (args.contains(other) || arg == other),
{
    reveal(Seq::filter);
    assert(args.push(arg).drop_last() =~= args);
    let excluded = |arg: Seq<char>| is_exclusion(arg);
    let cut = |arg: Seq<char>| arg.skip(1);
    if is_exclusion(arg) {
        assert(args.filter(excluded).push(arg).map_values(cut) =~= args.filter(excluded).map_values(cut).push(cut(arg)));
    }
    assert forall|other: Seq<char>| #[trigger]
        args.push(arg).contains(other) == (args.contains(other) || arg == other) by {
        pushed(args, arg, other);
    }
}

spec fn is_same(arg: Seq<char>, name: Seq<char>) -> bool {
    arg == name
}

fn is_set(flag: bool, arg: &str, name: &str) -> (set: bool)
    ensures
        set == (flag || is_same(arg@, name@)),
{
    flag || same_text(arg, name)
}

fn with_flag(run: RunArgs, arg: &str) -> (result: RunArgs)
    ensures
        result.target == run.target,
        result.projects == run.projects,
        result.exclusions == run.exclusions,
        result.use_cwd == run.use_cwd,
        result.no_deps == (run.no_deps || is_same(arg@, "--no-deps"@)),
        result.dependents == (run.dependents || is_same(arg@, "--dependents"@)),
        result.all == (run.all || is_same(arg@, "--all"@)),
        result.warnings_as_errors == (run.warnings_as_errors || is_same(arg@, "--warnings-as-errors"@)),
        result.stream_override == (if is_same(arg@, "--stream"@) {
            Some(true)
        } else if is_same(arg@, "--no-stream"@) {
            Some(false)
        } else {
            run.stream_override
        }),
        result.no_cache == (run.no_cache || is_same(arg@, "--no-cache"@)),
        result.verbose == (run.verbose || is_same(arg@, "--verbose"@)),
        result.quiet == (run.quiet || is_same(arg@, "--quiet"@)),
        result.json == (run.json || is_same(arg@, "--json"@)),
        result.full_logs == (run.full_logs || is_same(arg@, "--full-logs"@)),
{
    let stream_override = if same_text(arg, "--stream") {
        Some(true)
    } else if same_text(arg, "--no-stream") {
        Some(false)
    } else {
        run.stream_override
    };
    RunArgs {
        target: run.target,
        projects: run.projects,
        exclusions: run.exclusions,
        no_deps: is_set(run.no_deps, arg, "--no-deps"),
        dependents: is_set(run.dependents, arg, "--dependents"),
        all: is_set(run.all, arg, "--all"),
        use_cwd: run.use_cwd,
        warnings_as_errors: is_set(run.warnings_as_errors, arg, "--warnings-as-errors"),
        stream_override,
        no_cache: is_set(run.no_cache, arg, "--no-cache"),
        verbose: is_set(run.verbose, arg, "--verbose"),
        quiet: is_set(run.quiet, arg, "--quiet"),
        json: is_set(run.json, arg, "--json"),
        full_logs: is_set(run.full_logs, arg, "--full-logs"),
    }
}

/// Take in one more argument.
#[verifier::spinoff_prover]
fn with_arg(run: RunArgs, args: &Vec<String>, at: usize) -> (result: RunArgs)
    requires
        at < args@.len(),
        says(texts(args@).take(at as int), run),
    ensures
        says(texts(args@).take(at + 1), result),
{
    let mut run = run;
    let arg = &args[at];
    let is_value = at > 0 && same_text(&args[at - 1], "--lang");
    let ghost front = texts(args@).take(at as int);
    proof {
        if at > 0 {
            assert(front.last() == args@[at - 1]@);
        }
        assert(texts(args@).take(at + 1) =~= front.push(arg@));
        args_step(front, arg@);
        flag_shapes();
    }
    if starts_with(arg, "--") {
        run = with_flag(run, arg);
    } else if same_text(arg, "-v") {
        run.verbose = true;
    } else if same_text(arg, "-q") {
        run.quiet = true;
    } else if same_text(arg, ".") {
        run.use_cwd = true;
    } else if starts_with(arg, "-//") {
        let chars = crate::text::chars_of(arg);
        let rest = crate::text::text_of(&chars, 1, chars.len());
        let ghost before = texts(run.exclusions@);
        assert(rest@ =~= arg@.skip(1));
        run.exclusions.push(rest);
        assert(texts(run.exclusions@) =~= before.push(arg@.skip(1)));
    } else if starts_with(arg, "//") || starts_with(arg, "./") || (!run.target.as_str().is_empty() && !is_value
        && !starts_with(arg, "-")) {
        let ghost before = texts(run.projects@);
        run.projects.push(arg.clone());
        assert(texts(run.projects@) =~= before.push(arg@));
    } else if run.target.as_str().is_empty() {
        run.target = arg.clone();
    }
    run
}

/// Parse external subcommand args into RunArgs
///
/// Args format: [target] [projects...] [--no-deps] [--dependents] [--all]
///
/// Project patterns:
///   //path/to/project  - exact project match
///   //path/prefix/...  - all projects under prefix
///   //...              - all projects (same as --all)
///   ./...              - all projects under current directory
///   path/to/project    - the project in that directory of the workspace
///   path/*             - the projects whose directories match the glob
///   -//path/...        - exclude from selection
///
/// The first positional argument is the target; those behind it name projects.
/// Other arguments with a leading dash are flags: those that are not known are
/// ignored, and so is the value of `--lang`.
pub fn parse_run_args(args: Vec<String>) -> (run: RunArgs)
    ensures
        says(texts(args@), run),
{
    let mut run = RunArgs {
        target: String::new(),
        projects: Vec::new(),
        exclusions: Vec::new(),
        no_deps: false,
        dependents: false,
        all: false,
        use_cwd: false,
        warnings_as_errors: false,
        stream_override: None,
        no_cache: false,
        verbose: false,
        quiet: false,
        json: false,
        full_logs: false,
    };
    let ghost all = texts(args@);
    let mut i: usize = 0;
    proof {
        reveal(Seq::filter);
        assert(all.take(0) =~= Seq::<Seq<char>>::empty());
        assert(texts(run.projects@) =~= projects_of(all.take(0)));
        assert(texts(run.exclusions@) =~= exclusions_of(all.take(0)));
    }
    while i < args.len()
        invariant
            i <= args@.len(),
            all == texts(args@),
            says(all.take(i as int), run),
        decreases args@.len() - i,
    {
        run = with_arg(run, &args, i);
        i += 1;
    }
    assert(all.take(all.len() as int) =~= all);
    run
}

// ---------------------------------------------------------------------------
// Selection
// ---------------------------------------------------------------------------

/// The address is the prefix itself or lies below it.
pub open spec fn address_below(address: Seq<char>, prefix: Seq<char>) -> bool {
    address == prefix || (prefix + "/"@).is_prefix_of(address)
}

/// The address of a path seen from a directory of the workspace.
pub open spec fn address_from(directory: Seq<char>, path: Seq<char>) -> Seq<char> {
    if directory.len() == 0 {
        "//"@ + path
    } else {
        "//"@ + directory + "/"@ + path
    }
}

/// A glob matches a path. A string that `globset` does not take matches none.
pub open spec fn glob_selects(glob: Seq<char>, path: Seq<char>) -> bool {
    is_glob(glob) && globs_compile(seq![glob]) && glob_matches(glob, path)
}

/// A directory, or with a star a glob, selects the path of a project.
pub open spec fn path_selects(wanted: Seq<char>, path: Seq<char>) -> bool {
    if wanted.contains('*') {
        glob_selects(wanted, path)
    } else {
        same_path(wanted, path)
    }
}

/// A pattern without an address selects the path of a project: seen from the
/// workspace root, or from the current directory where it begins with `./`.
pub open spec fn directory_selects(pattern: Seq<char>, path: Seq<char>, directory: Option<Seq<char>>) -> bool {
    if "./"@.is_prefix_of(pattern) {
        directory matches Some(here) && path_under(path, here) && path_selects(pattern.skip(2), path_rest(path, here))
    } else {
        path_selects(pattern, path)
    }
}

/// A pattern that selects the directories of projects by a glob.
pub open spec fn is_glob_pattern(pattern: Seq<char>) -> bool {
    !"//"@.is_prefix_of(pattern) && pattern.contains('*')
}

/// An address, or one with `/...` for all below it, selects an address. The
/// directory is the current one, where it lies in the workspace.
pub open spec fn address_selects(pattern: Seq<char>, address: Seq<char>, directory: Option<Seq<char>>) -> bool {
    if pattern == "//..."@ {
        true
    } else if "/..."@.is_suffix_of(pattern) {
        let prefix = pattern.take(pattern.len() - 4);
        if prefix == "."@ {
            directory matches Some(path) && (path.len() == 0 || address_below(address, "//"@ + path))
        } else if "./"@.is_prefix_of(prefix) {
            directory matches Some(path) && address_below(address, address_from(path, prefix.skip(2)))
        } else {
            prefix.len() > 0 && address_below(address, prefix)
        }
    } else {
        address == pattern
    }
}

/// A pattern selects an address, by the address or by the directory.
pub open spec fn pattern_selects(pattern: Seq<char>, address: Seq<char>, directory: Option<Seq<char>>) -> bool {
    if "//"@.is_prefix_of(pattern) || "/..."@.is_suffix_of(pattern) {
        address_selects(pattern, address, directory)
    } else {
        "//"@.is_prefix_of(address) && directory_selects(pattern, address.skip(2), directory)
    }
}

/// A pattern selects one of the addresses.
pub open spec fn selects_some(pattern: Seq<char>, addresses: Seq<Seq<char>>, directory: Option<Seq<char>>) -> bool {
    exists|i: int| 0 <= i < addresses.len() && pattern_selects(pattern, #[trigger] addresses[i], directory)
}

/// The address of one of the chosen projects.
pub open spec fn is_chosen(addresses: Seq<Seq<char>>, chosen: Seq<int>, address: Seq<char>) -> bool {
    exists|i: int| 0 <= i < chosen.len() && addresses[#[trigger] chosen[i]] == address
}

/// The projects chosen so far, and those of the first `count` that the pattern
/// adds: one for each address.
pub open spec fn choose_more(
    pattern: Seq<char>,
    addresses: Seq<Seq<char>>,
    directory: Option<Seq<char>>,
    chosen: Seq<int>,
    count: int,
) -> Seq<int>
    decreases count,
{
    if count <= 0 {
        chosen
    } else {
        let before = choose_more(pattern, addresses, directory, chosen, count - 1);
        if pattern_selects(pattern, addresses[count - 1], directory) && !is_chosen(
            addresses,
            before,
            addresses[count - 1],
        ) {
            before.push(count - 1)
        } else {
            before
        }
    }
}

/// The projects that the patterns choose, or what is said of the first that
/// selects none. A `/...` pattern has to add a project to those of the patterns
/// before it.
pub open spec fn chosen_by(
    patterns: Seq<Seq<char>>,
    known: spec_fn(Seq<char>) -> bool,
    addresses: Seq<Seq<char>>,
    directory: Option<Seq<char>>,
) -> Result<Seq<int>, Seq<char>>
    decreases patterns.len(),
{
    if patterns.len() == 0 {
        Ok(Seq::empty())
    } else {
        match chosen_by(patterns.drop_last(), known, addresses, directory) {
            Err(message) => Err(message),
            Ok(before) => {
                let pattern = patterns.last();
                let after = choose_more(pattern, addresses, directory, before, addresses.len() as int);
                if after.len() > before.len() {
                    Ok(after)
                } else if "/..."@.is_suffix_of(pattern) {
                    Err("No projects found matching: "@ + pattern)
                } else if known(pattern) || selects_some(pattern, addresses, directory) {
                    Ok(after)
                } else if is_glob_pattern(pattern) {
                    Err("No projects found matching: "@ + pattern)
                } else {
                    Err("Project not found: "@ + pattern)
                }
            },
        }
    }
}

/// The current directory lies in the project. The project of the workspace
/// root holds only the root itself.
pub open spec fn holds_directory(path: Seq<char>, directory: Seq<char>) -> bool {
    if path.len() == 0 {
        directory.len() == 0
    } else {
        path_under(directory, path)
    }
}

/// The project with the longest path, the first of them, among the first
/// `count` that hold the directory.
pub open spec fn project_here(projects: Seq<DiscoveredProject>, directory: Seq<char>, count: int) -> Option<int>
    decreases count,
{
    if count <= 0 {
        None
    } else {
        let best = project_here(projects, directory, count - 1);
        let path = projects[count - 1].relative_path@;
        if holds_directory(path, directory) && (best is None || path_length(path) > path_length(
            projects[best->0].relative_path@,
        )) {
            Some(count - 1)
        } else {
            best
        }
    }
}

/// One of the patterns leaves the address out.
pub open spec fn is_left_out(exclusions: Seq<Seq<char>>, address: Seq<char>, directory: Option<Seq<char>>) -> bool {
    exists|i: int| 0 <= i < exclusions.len() && address_selects(#[trigger] exclusions[i], address, directory)
}

/// What is said where nothing was selected.
pub open spec fn nothing_selected() -> Seq<char> {
    "No projects specified. Use --all to run on all projects, or specify project addresses."@
}

/// The projects that a run starts with, by their places.
///
/// Priority:
/// 1. If --all or //...: all projects (minus exclusions)
/// 2. If explicit projects given: those (minus exclusions)
/// 3. Otherwise: the project in the current directory
pub open spec fn selection(
    run: RunArgs,
    known: spec_fn(Seq<char>) -> bool,
    projects: Seq<DiscoveredProject>,
    directory: Option<Seq<char>>,
) -> Result<Seq<int>, Seq<char>> {
    let addresses = project_addresses(projects);
    let patterns = texts(run.projects@);
    let kept = |i: int| !is_left_out(texts(run.exclusions@), addresses[i], directory);
    if run.all || patterns.contains("//..."@) {
        Ok(Seq::new(projects.len(), |i: int| i).filter(kept))
    } else if patterns.len() > 0 {
        match chosen_by(patterns, known, addresses, directory) {
            Ok(chosen) => Ok(chosen.filter(kept)),
            Err(message) => Err(message),
        }
    } else if directory is Some && project_here(projects, directory->0, projects.len() as int) is Some {
        Ok(seq![project_here(projects, directory->0, projects.len() as int)->0])
    } else {
        Err(nothing_selected())
    }
}

/// The glob of a pattern without an address.
spec fn glob_in(pattern: Seq<char>) -> Seq<char> {
    if "./"@.is_prefix_of(pattern) {
        pattern.skip(2)
    } else {
        pattern
    }
}

spec fn is_glob_set(glob: Seq<char>, set: Option<GlobSet>) -> bool {
    &&& set is Some <==> glob.contains('*') && is_glob(glob) && globs_compile(seq![glob])
    &&& set matches Some(built) ==> set_globs(built) == seq![glob]
}

fn compile_glob(pattern: &str) -> (set: Option<GlobSet>)
    ensures
        is_glob_set(glob_in(pattern@), set),
{
    let glob = match strip_prefix(pattern, "./") {
        Some(rest) => rest,
        None => pattern.to_owned(),
    };
    proof {
        reveal_strlit("./");
    }
    if !contains_char(&glob, '*') {
        return None;
    }
    let mut builder = new_builder();
    if add_glob(&mut builder, &glob).is_err() {
        return None;
    }
    assert(Seq::<Seq<char>>::empty().push(glob@) =~= seq![glob@]);
    match build_set(&builder) {
        Ok(set) => Some(set),
        Err(_) => None,
    }
}

fn selects_path(wanted: &str, set: &Option<GlobSet>, path: &str) -> (selected: bool)
    requires
        is_glob_set(wanted@, *set),
    ensures
        selected == path_selects(wanted@, path@),
{
    if contains_char(wanted, '*') {
        match set {
            Some(built) => {
                assert(set_globs(*built)[0] == wanted@);
                set_matches(built, path)
            },
            None => false,
        }
    } else {
        is_same_path(wanted, path)
    }
}

fn selects(pattern: &str, set: &Option<GlobSet>, address: &str, directory: &Option<String>) -> (selected: bool)
    requires
        is_glob_set(glob_in(pattern@), *set),
    ensures
        selected == pattern_selects(pattern@, address@, crate::text::text_option(*directory)),
{
    if starts_with(pattern, "//") || ends_with(pattern, "/...") {
        return selects_address(pattern, address, directory);
    }
    proof {
        reveal_strlit("//");
        reveal_strlit("./");
    }
    let path = match strip_prefix(address, "//") {
        Some(rest) => rest,
        None => return false,
    };
    match strip_prefix(pattern, "./") {
        None => selects_path(pattern, set, &path),
        Some(wanted) => match directory {
            None => false,
            Some(here) => match strip_path(&path, here) {
                None => false,
                Some(rest) => selects_path(&wanted, set, &rest),
            },
        },
    }
}

fn selects_address(pattern: &str, address: &str, directory: &Option<String>) -> (selected: bool)
    ensures
        selected == address_selects(pattern@, address@, crate::text::text_option(*directory)),
{
    if same_text(pattern, "//...") {
        return true;
    }
    if !ends_with(pattern, "/...") {
        return same_text(address, pattern);
    }
    proof {
        reveal_strlit("/...");
        reveal_strlit("./");
    }
    let chars = crate::text::chars_of(pattern);
    let prefix = crate::text::text_of(&chars, 0, chars.len() - 4);
    assert(prefix@ =~= pattern@.take(pattern@.len() - 4));
    let base = if same_text(&prefix, ".") {
        match directory {
            None => return false,
            Some(path) => {
                if path.as_str().is_empty() {
                    return true;
                }
                project_address(path)
            },
        }
    } else if let Some(rest) = strip_prefix(&prefix, "./") {
        match directory {
            None => return false,
            Some(path) => {
                if path.as_str().is_empty() {
                    project_address(&rest)
                } else {
                    concat4("//", path, "/", &rest)
                }
            },
        }
    } else {
        if prefix.as_str().is_empty() {
            return false;
        }
        prefix
    };
    same_text(address, &base) || starts_with(address, &concat2(&base, "/"))
}

fn addresses_of_projects(projects: &Vec<DiscoveredProject>) -> (addresses: Vec<String>)
    ensures
        texts(addresses@) == project_addresses(projects@),
{
    let mut addresses: Vec<String> = Vec::new();
    let mut i: usize = 0;
    while i < projects.len()
        invariant
            i <= projects@.len(),
            addresses@.len() == i,
            forall|k: int| 0 <= k < i ==> (#[trigger] addresses@[k])@ == address_of(projects@[k].relative_path@),
        decreases projects@.len() - i,
    {
        addresses.push(project_address(&projects[i].relative_path));
        i += 1;
    }
    assert(texts(addresses@) =~= project_addresses(projects@));
    addresses
}

/// The places as integers.
pub open spec fn places(list: Seq<usize>) -> Seq<int> {
    list.map_values(|place: usize| place as int)
}

spec fn within(list: Seq<usize>, count: nat) -> bool {
    forall|i: int| 0 <= i < list.len() ==> (#[trigger] list[i]) < count
}

fn chosen_already(addresses: &Vec<String>, chosen: &Vec<usize>, address: &str) -> (found: bool)
    requires
        within(chosen@, addresses@.len()),
    ensures
        found == is_chosen(texts(addresses@), places(chosen@), address@),
{
    let ghost list = places(chosen@);
    let mut i: usize = 0;
    while i < chosen.len()
        invariant
            i <= chosen@.len(),
            list == places(chosen@),
            within(chosen@, addresses@.len()),
            forall|k: int| 0 <= k < i ==> texts(addresses@)[#[trigger] list[k]] != address@,
        decreases chosen@.len() - i,
    {
        assert(list[i as int] == chosen@[i as int]);
        if same_text(&addresses[chosen[i]], address) {
            assert(texts(addresses@)[list[i as int]] == address@);
            return true;
        }
        i += 1;
    }
    false
}

fn choose_by_pattern(
    pattern: &str,
    addresses: &Vec<String>,
    directory: &Option<String>,
    chosen: &mut Vec<usize>,
) -> (found: bool)
    requires
        within(old(chosen)@, addresses@.len()),
    ensures
        within(final(chosen)@, addresses@.len()),
        places(final(chosen)@) == choose_more(
            pattern@,
            texts(addresses@),
            crate::text::text_option(*directory),
            places(old(chosen)@),
            addresses@.len() as int,
        ),
        found == selects_some(pattern@, texts(addresses@), crate::text::text_option(*directory)),
        final(chosen)@.len() >= old(chosen)@.len(),
{
    let ghost start = places(chosen@);
    let ghost length = chosen@.len();
    let ghost all = texts(addresses@);
    let ghost here = crate::text::text_option(*directory);
    let set = compile_glob(pattern);
    let mut found = false;
    let mut i: usize = 0;
    while i < addresses.len()
        invariant
            i <= addresses@.len(),
            within(chosen@, addresses@.len()),
            all == texts(addresses@),
            here == crate::text::text_option(*directory),
            is_glob_set(glob_in(pattern@), set),
            chosen@.len() >= length,
            places(chosen@) == choose_more(pattern@, all, here, start, i as int),
            found == exists|k: int| 0 <= k < i && pattern_selects(pattern@, #[trigger] all[k], here),
        decreases addresses@.len() - i,
    {
        let ghost before = places(chosen@);
        assert(all[i as int] == addresses@[i as int]@);
        if selects(pattern, &set, &addresses[i], directory) {
            found = true;
            if !chosen_already(addresses, chosen, &addresses[i]) {
                chosen.push(i);
                assert(places(chosen@) =~= before.push(i as int));
            }
        }
        i += 1;
    }
    found
}

fn find_project_here(projects: &Vec<DiscoveredProject>, directory: &str) -> (found: Option<usize>)
    ensures
        found is Some <==> project_here(projects@, directory@, projects@.len() as int) is Some,
        found matches Some(at) ==> project_here(projects@, directory@, projects@.len() as int) == Some(at as int) && at
            < projects@.len(),
{
    let mut best: Option<usize> = None;
    let mut i: usize = 0;
    while i < projects.len()
        invariant
            i <= projects@.len(),
            best is Some <==> project_here(projects@, directory@, i as int) is Some,
            best matches Some(at) ==> project_here(projects@, directory@, i as int) == Some(at as int) && at < i,
        decreases projects@.len() - i,
    {
        let path = &projects[i].relative_path;
        let holds = if path.as_str().is_empty() {
            directory.is_empty()
        } else {
            under_path(directory, path)
        };
        if holds {
            let longer = match best {
                None => true,
                Some(at) => path.as_str().len() > projects[at].relative_path.as_str().len(),
            };
            if longer {
                best = Some(i);
            }
        }
        i += 1;
    }
    best
}

fn keep_wanted(
    chosen: &Vec<usize>,
    addresses: &Vec<String>,
    exclusions: &Vec<String>,
    directory: &Option<String>,
) -> (kept: Vec<usize>)
    requires
        within(chosen@, addresses@.len()),
    ensures
        within(kept@, addresses@.len()),
        places(kept@) == places(chosen@).filter(
            |i: int|
                !is_left_out(texts(exclusions@), texts(addresses@)[i], crate::text::text_option(*directory)),
        ),
{
    let ghost out = texts(exclusions@);
    let ghost all = texts(addresses@);
    let ghost here = crate::text::text_option(*directory);
    let ghost keep = |i: int| !is_left_out(out, all[i], here);
    let ghost list = places(chosen@);
    let mut kept: Vec<usize> = Vec::new();
    let mut i: usize = 0;
    proof {
        reveal(Seq::filter);
        assert(places(kept@) =~= list.take(0).filter(keep));
    }
    while i < chosen.len()
        invariant
            i <= chosen@.len(),
            within(chosen@, addresses@.len()),
            within(kept@, addresses@.len()),
            out == texts(exclusions@),
            all == texts(addresses@),
            here == crate::text::text_option(*directory),
            keep == (|i: int| !is_left_out(out, all[i], here)),
            list == places(chosen@),
            places(kept@) == list.take(i as int).filter(keep),
        decreases chosen@.len() - i,
    {
        let place = chosen[i];
        let mut left_out = false;
        let mut j: usize = 0;
        while j < exclusions.len() && !left_out
            invariant
                j <= exclusions@.len(),
                place < addresses@.len(),
                out == texts(exclusions@),
                all == texts(addresses@),
                here == crate::text::text_option(*directory),
                left_out ==> is_left_out(out, all[place as int], here),
                !left_out ==> forall|k: int|
                    0 <= k < j ==> !address_selects(#[trigger] out[k], all[place as int], here),
            decreases exclusions@.len() - j,
        {
            assert(out[j as int] == exclusions@[j as int]@);
            left_out = selects_address(&exclusions[j], &addresses[place], directory);
            j += 1;
        }
        proof {
            reveal(Seq::filter);
            assert(list.take(i + 1).drop_last() =~= list.take(i as int));
            assert(list.take(i + 1).last() == place as int);
        }
        if !left_out {
            let ghost before = places(kept@);
            kept.push(place);
            assert(places(kept@) =~= before.push(place as int));
        }
        i += 1;
    }
    assert(list.take(list.len() as int) =~= list);
    kept
}

/// The projects at some places.
pub open spec fn projects_at<'a>(list: Seq<&'a DiscoveredProject>, projects: Seq<DiscoveredProject>, at: Seq<int>) -> bool {
    list.len() == at.len() && forall|i: int| 0 <= i < at.len() ==> *(#[trigger] list[i]) == projects[at[i]]
}

fn take_projects<'a>(projects: &'a Vec<DiscoveredProject>, at: &Vec<usize>) -> (list: Vec<&'a DiscoveredProject>)
    requires
        within(at@, projects@.len()),
    ensures
        projects_at(list@, projects@, places(at@)),
{
    let mut list: Vec<&'a DiscoveredProject> = Vec::new();
    let mut i: usize = 0;
    while i < at.len()
        invariant
            i <= at@.len(),
            within(at@, projects@.len()),
            list@.len() == i,
            forall|k: int| 0 <= k < i ==> *(#[trigger] list@[k]) == projects@[at@[k] as int],
        decreases at@.len() - i,
    {
        list.push(&projects[at[i]]);
        i += 1;
    }
    assert forall|k: int| 0 <= k < at@.len() implies *(#[trigger] list@[k]) == projects@[places(at@)[k]] by {
        assert(places(at@)[k] == at@[k]);
    }
    list
}

/// The directory as seen from the workspace root, where it lies below.
pub open spec fn directory_in(cwd: Seq<char>, workspace_root: Seq<char>) -> Option<Seq<char>> {
    if path_under(cwd, workspace_root) {
        Some(path_rest(cwd, workspace_root))
    } else {
        None
    }
}

/// Select initial projects based on args
///
/// Priority:
/// 1. If --all or //...: return all projects (minus exclusions)
/// 2. If explicit projects given: return those (supports glob syntax)
/// 3. Otherwise: try to find project in cwd
///
/// Glob syntax:
/// - `//path/to/project` - exact match
/// - `//path/prefix/...` - all projects under that path prefix
/// - `//...` - all projects
/// - `./...` - all projects under current directory
/// - `path/to/project` - the project in that directory of the workspace
/// - `path/*` - the projects whose directories match the glob
/// - `-//path/...` - exclude from selection (in args.exclusions)
pub fn select_projects<'a>(
    args: &RunArgs,
    graph: &'a ProjectGraph,
    discovered: &'a Vec<DiscoveredProject>,
    cwd: &str,
    workspace_root: &str,
) -> (selected: Result<Vec<&'a DiscoveredProject>, String>)
    requires
        graph.well_formed(),
    ensures
        ({
            let known = |pattern: Seq<char>|
                graph.node_at(pattern) is Some || project_addresses(discovered@).contains(pattern);
            let wanted = selection(*args, known, discovered@, directory_in(cwd@, workspace_root@));
            &&& selected is Ok <==> wanted is Ok
            &&& selected matches Ok(list) ==> projects_at(list@, discovered@, wanted->Ok_0)
            &&& selected matches Err(message) ==> message@ == wanted->Err_0
        }),
{
    let addresses = addresses_of_projects(discovered);
    let directory = strip_path(cwd, workspace_root);
    let ghost here = directory_in(cwd@, workspace_root@);
    assert(here == crate::text::text_option(directory));
    let ghost known = |pattern: Seq<char>|
        graph.node_at(pattern) is Some || project_addresses(discovered@).contains(pattern);
    let ghost patterns = texts(args.projects@);
    let ghost all = texts(addresses@);
    let mut chosen: Vec<usize> = Vec::new();
    assert(addresses@.len() == discovered@.len());
    if args.all || contains_item(&args.projects, "//...") {
        let mut i: usize = 0;
        while i < discovered.len()
            invariant
                i <= discovered@.len(),
                chosen@.len() == i,
                forall|k: int| 0 <= k < i ==> #[trigger] chosen@[k] == k,
            decreases discovered@.len() - i,
        {
            chosen.push(i);
            i += 1;
        }
        assert(places(chosen@) =~= Seq::new(discovered@.len(), |i: int| i));
    } else if args.projects.len() > 0 {
        let mut i: usize = 0;
        assert(patterns.take(0) =~= Seq::<Seq<char>>::empty());
        assert(places(chosen@) =~= Seq::<int>::empty());
        while i < args.projects.len()
            invariant
                graph.well_formed(),
                i <= args.projects@.len(),
                patterns == texts(args.projects@),
                !args.all,
                !patterns.contains("//..."@),
                patterns.len() > 0,
                all == texts(addresses@),
                all == project_addresses(discovered@),
                here == crate::text::text_option(directory),
                here == directory_in(cwd@, workspace_root@),
                known == (|pattern: Seq<char>|
                    graph.node_at(pattern) is Some || project_addresses(discovered@).contains(pattern)),
                within(chosen@, addresses@.len()),
                chosen_by(patterns.take(i as int), known, all, here) == Ok::<Seq<int>, Seq<char>>(places(chosen@)),
            decreases args.projects@.len() - i,
        {
            let pattern = &args.projects[i];
            proof {
                assert(patterns.take(i + 1).drop_last() =~= patterns.take(i as int));
                assert(patterns.take(i + 1).last() == pattern@);
            }
            let before = chosen.len();
            let ghost start = places(chosen@);
            let selected = choose_by_pattern(pattern, &addresses, &directory, &mut chosen);
            assert(places(chosen@).len() == chosen@.len() && start.len() == before);
            if chosen.len() == before {
                if ends_with(pattern, "/...") {
                    proof {
                        failure_stays(patterns, known, all, here, i + 1);
                    }
                    return Err(concat2("No projects found matching: ", pattern));
                }
                if !selected && graph.get(pattern).is_none() && !contains_item(&addresses, pattern) {
                    if !starts_with(pattern, "//") && contains_char(pattern, '*') {
                        proof {
                            assert(!known(pattern@));
                            failure_stays(patterns, known, all, here, i + 1);
                        }
                        return Err(concat2("No projects found matching: ", pattern));
                    }
                    proof {
                        assert(!known(pattern@));
                        failure_stays(patterns, known, all, here, i + 1);
                    }
                    return Err(concat2("Project not found: ", pattern));
                }
                assert(known(pattern@) || selected);
            }
            i += 1;
        }
        assert(patterns.take(patterns.len() as int) =~= patterns);
    } else {
        if let Some(path) = &directory {
            if let Some(at) = find_project_here(discovered, path) {
                let mut list: Vec<&'a DiscoveredProject> = Vec::new();
                list.push(&discovered[at]);
                return Ok(list);
            }
        }
        return Err(
            "No projects specified. Use --all to run on all projects, or specify project addresses.".to_owned(),
        );
    }
    let kept = keep_wanted(&chosen, &addresses, &args.exclusions, &directory);
    Ok(take_projects(discovered, &kept))
}

proof fn failure_stays(
    patterns: Seq<Seq<char>>,
    known: spec_fn(Seq<char>) -> bool,
    addresses: Seq<Seq<char>>,
    directory: Option<Seq<char>>,
    count: int,
)
    requires
        0 <= count <= patterns.len(),
        chosen_by(patterns.take(count), known, addresses, directory) is Err,
    ensures
        chosen_by(patterns, known, addresses, directory) == chosen_by(
            patterns.take(count),
            known,
            addresses,
            directory,
        ),
    decreases patterns.len() - count,
{
    if count == patterns.len() {
        assert(patterns.take(count) =~= patterns);
    } else {
        assert(patterns.take(count + 1).drop_last() =~= patterns.take(count));
        failure_stays(patterns, known, addresses, directory, count + 1);
    }
}

// ---------------------------------------------------------------------------
// Expansion
// ---------------------------------------------------------------------------

/// The addresses of some projects.
pub open spec fn addresses_in(list: Seq<&DiscoveredProject>) -> Set<Seq<char>> {
    Set::new(
        |address: Seq<char>|
            exists|i: int| 0 <= i < list.len() && address_of((#[trigger] list[i]).relative_path@) == address,
    )
}

/// The addresses, and those of the projects that depend on one of them.
pub open spec fn with_dependents(graph: &ProjectGraph, seeds: Set<Seq<char>>) -> Set<Seq<char>> {
    Set::new(
        |address: Seq<char>|
            seeds.contains(address) || exists|seed: Seq<char>|
                seeds.contains(seed) && #[trigger] is_neighbor(graph, Direction::Dependents, seed, address),
    )
}

/// The addresses that a run works on.
pub open spec fn expansion(run: RunArgs, graph: &ProjectGraph, seeds: Set<Seq<char>>) -> Set<Seq<char>> {
    let first = if run.dependents {
        with_dependents(graph, seeds)
    } else {
        seeds
    };
    if run.no_deps {
        first
    } else {
        Set::new(|address: Seq<char>| is_reached(graph, Direction::Dependencies, first, address))
    }
}

/// The projects with one of the addresses, in order, by their places.
pub open spec fn places_of(projects: Seq<DiscoveredProject>, wanted: Set<Seq<char>>) -> Seq<int> {
    Seq::new(projects.len(), |i: int| i).filter(|i: int| wanted.contains(address_of(projects[i].relative_path@)))
}

fn add_dependents(graph: &ProjectGraph, seeds: TextSet) -> (result: TextSet)
    requires
        graph.well_formed(),
    ensures
        result@ == with_dependents(graph, seeds@),
{
    let ghost start = seeds@;
    let list = seeds.to_vec();
    let mut result = seeds.clone();
    let ghost all = texts(list@);
    let mut i: usize = 0;
    while i < list.len()
        invariant
            graph.well_formed(),
            i <= list@.len(),
            all == texts(list@),
            all.to_set() == start,
            forall|address: Seq<char>| #[trigger]
                result@.contains(address) <==> start.contains(address) || exists|k: int|
                    0 <= k < i && is_neighbor(graph, Direction::Dependents, #[trigger] all[k], address),
        decreases list@.len() - i,
    {
        let others = graph.dependents(&list[i]);
        let ghost found = texts(others@);
        let ghost seed = all[i as int];
        let ghost before = result@;
        proof {
            assert(seed == list@[i as int]@);
            assert forall|address: Seq<char>| #[trigger] found.contains(address) <==> is_neighbor(
                graph,
                Direction::Dependents,
                seed,
                address,
            ) by {}
        }
        let mut j: usize = 0;
        while j < others.len()
            invariant
                j <= others@.len(),
                found == texts(others@),
                forall|address: Seq<char>| #[trigger]
                    result@.contains(address) <==> before.contains(address) || found.take(j as int).contains(address),
            decreases others@.len() - j,
        {
            let ghost so_far = result@;
            let _ = result.insert(others[j].clone());
            proof {
                assert(found.take(j + 1) =~= found.take(j as int).push(others@[j as int]@));
                assert forall|address: Seq<char>| #[trigger]
                    result@.contains(address) <==> before.contains(address) || found.take(j + 1).contains(address) by {
                    pushed(found.take(j as int), others@[j as int]@, address);
                    assert(so_far.contains(address) <==> before.contains(address) || found.take(j as int).contains(
                        address,
                    ));
                }
            }
            j += 1;
        }
        assert(found.take(found.len() as int) =~= found);
        proof {
            assert forall|address: Seq<char>| #[trigger]
                result@.contains(address) <==> start.contains(address) || exists|k: int|
                    0 <= k < i + 1 && is_neighbor(graph, Direction::Dependents, #[trigger] all[k], address) by {
                if found.contains(address) {
                    assert(is_neighbor(graph, Direction::Dependents, all[i as int], address));
                }
                assert(before.contains(address) <==> start.contains(address) || exists|k: int|
                    0 <= k < i && is_neighbor(graph, Direction::Dependents, #[trigger] all[k], address));
            }
        }
        i += 1;
    }
    proof {
        assert forall|address: Seq<char>| #[trigger] result@.contains(address) <==> with_dependents(
            graph,
            start,
        ).contains(address) by {
            if exists|seed: Seq<char>|
                start.contains(seed) && #[trigger] is_neighbor(graph, Direction::Dependents, seed, address) {
                let seed = choose|seed: Seq<char>|
                    start.contains(seed) && #[trigger] is_neighbor(graph, Direction::Dependents, seed, address);
                assert(all.contains(seed));
                let k = choose|k: int| 0 <= k < all.len() && all[k] == seed;
                assert(is_neighbor(graph, Direction::Dependents, all[k], address));
            }
            if exists|k: int|
                0 <= k < all.len() && is_neighbor(graph, Direction::Dependents, #[trigger] all[k], address) {
                let k = choose|k: int|
                    0 <= k < all.len() && is_neighbor(graph, Direction::Dependents, #[trigger] all[k], address);
                assert(all.to_set().contains(all[k]));
            }
        }
        assert(result@ =~= with_dependents(graph, start));
    }
    result
}

/// Expand project selection based on flags
///
/// - Default: include dependencies (build deps first)
/// - --no-deps: don't include dependencies
/// - --dependents: include projects that depend on selected projects
pub fn expand_selection<'a>(
    args: &RunArgs,
    initial: &Vec<&'a DiscoveredProject>,
    graph: &ProjectGraph,
    discovered: &'a Vec<DiscoveredProject>,
) -> (expanded: Vec<&'a DiscoveredProject>)
    requires
        graph.well_formed(),
    ensures
        projects_at(
            expanded@,
            discovered@,
            places_of(discovered@, expansion(*args, graph, addresses_in(initial@))),
        ),
{
    let mut selected = TextSet::new();
    let mut i: usize = 0;
    while i < initial.len()
        invariant
            i <= initial@.len(),
            forall|address: Seq<char>| #[trigger]
                selected@.contains(address) <==> exists|k: int|
                    0 <= k < i && address_of((#[trigger] initial@[k]).relative_path@) == address,
        decreases initial@.len() - i,
    {
        let ghost before = selected@;
        let address = project_address(&initial[i].relative_path);
        let ghost added = address@;
        let _ = selected.insert(address);
        proof {
            assert forall|address: Seq<char>| #[trigger]
                selected@.contains(address) <==> exists|k: int|
                    0 <= k < i + 1 && address_of((#[trigger] initial@[k]).relative_path@) == address by {
                assert(before.contains(address) <==> exists|k: int|
                    0 <= k < i && address_of((#[trigger] initial@[k]).relative_path@) == address);
                if address == added {
                    assert(address_of(initial@[i as int].relative_path@) == address);
                }
            }
        }
        i += 1;
    }
    assert(selected@ =~= addresses_in(initial@));
    let first = if args.dependents {
        add_dependents(graph, selected)
    } else {
        selected
    };
    let wanted = if args.no_deps {
        first
    } else {
        reached_addresses(first, graph, Direction::Dependencies)
    };
    assert(wanted@ == expansion(*args, graph, addresses_in(initial@)));
    let ghost keep = |i: int| wanted@.contains(address_of(discovered@[i].relative_path@));
    let ghost all = Seq::new(discovered@.len(), |i: int| i);
    let mut at: Vec<usize> = Vec::new();
    let mut j: usize = 0;
    proof {
        reveal(Seq::filter);
        assert(places(at@) =~= all.take(0).filter(keep));
    }
    while j < discovered.len()
        invariant
            j <= discovered@.len(),
            within(at@, discovered@.len()),
            keep == (|i: int| wanted@.contains(address_of(discovered@[i].relative_path@))),
            all == Seq::new(discovered@.len(), |i: int| i),
            places(at@) == all.take(j as int).filter(keep),
        decreases discovered@.len() - j,
    {
        proof {
            reveal(Seq::filter);
            assert(all.take(j + 1).drop_last() =~= all.take(j as int));
            assert(all.take(j + 1).last() == j as int);
        }
        if wanted.contains(&project_address(&discovered[j].relative_path)) {
            let ghost before = places(at@);
            at.push(j);
            assert(places(at@) =~= before.push(j as int));
        }
        j += 1;
    }
    assert(all.take(all.len() as int) =~= all);
    take_projects(discovered, &at)
}

/// No selected project is left out by one of the patterns, unless the current
/// directory selected it.
pub proof fn selection_leaves_out(
    run: RunArgs,
    known: spec_fn(Seq<char>) -> bool,
    projects: Seq<DiscoveredProject>,
    directory: Option<Seq<char>>,
    at: int,
)
    requires
        selection(run, known, projects, directory) is Ok,
        run.all || run.projects@.len() > 0,
        0 <= at < selection(run, known, projects, directory)->Ok_0.len(),
    ensures
        !is_left_out(
            texts(run.exclusions@),
            project_addresses(projects)[selection(run, known, projects, directory)->Ok_0[at]],
            directory,
        ),
{
    let addresses = project_addresses(projects);
    let kept = |i: int| !is_left_out(texts(run.exclusions@), addresses[i], directory);
    let all = if run.all || texts(run.projects@).contains("//..."@) {
        Seq::new(projects.len(), |i: int| i)
    } else {
        chosen_by(texts(run.projects@), known, addresses, directory)->Ok_0
    };
    all.lemma_filter_pred(kept, at);
}

/// The project of the current directory is the most specific one that holds
/// it: no project that holds it has a longer path, and none before it has one
/// as long. There is none only where no project holds the directory. The
/// project of the workspace root holds the root alone, any other its directory
/// and all below.
pub proof fn project_here_is_most_specific(projects: Seq<DiscoveredProject>, directory: Seq<char>, count: int)
    requires
        0 <= count <= projects.len(),
    ensures
        project_here(projects, directory, count) matches Some(at) ==> {
            &&& 0 <= at < count
            &&& path_under(directory, projects[at].relative_path@)
            &&& projects[at].relative_path@.len() == 0 ==> directory.len() == 0
            &&& forall|i: int|
                0 <= i < count && path_under(directory, (#[trigger] projects[i]).relative_path@) && (
                projects[i].relative_path@.len() > 0 || directory.len() == 0) ==> path_length(
                    projects[i].relative_path@,
                ) <= path_length(projects[at].relative_path@) && (i < at ==> path_length(projects[i].relative_path@)
                    < path_length(projects[at].relative_path@))
        },
        project_here(projects, directory, count) is None ==> forall|i: int|
            0 <= i < count && path_under(directory, (#[trigger] projects[i]).relative_path@) ==> projects[i].relative_path@.len() == 0
                && directory.len() > 0,
    decreases count,
{
    if directory.len() == 0 {
        crate::paths::empty_path_is_its_own(directory);
    }
    if count > 0 {
        project_here_is_most_specific(projects, directory, count - 1);
        if projects[count - 1].relative_path@.len() == 0 {
            crate::paths::empty_path_is_its_own(projects[count - 1].relative_path@);
        }
    }
}

/// A directory of the workspace selects the project in it, from wherever the
/// run is started.
pub proof fn directory_selects_its_project(path: Seq<char>, directory: Option<Seq<char>>)
    requires
        !path.contains('*'),
        !"/..."@.is_suffix_of(path),
        !"//"@.is_prefix_of(path),
        !"./"@.is_prefix_of(path),
    ensures
        pattern_selects(path, address_of(path), directory),
{
    reveal_strlit("//");
    reveal_strlit("//...");
    assert(address_of(path).skip(2) =~= path);
    assert("//"@ =~= address_of(path).take(2));
    if path == "//..."@ {
        assert("//"@ =~= path.take(2));
    }
}

/// The patterns of a run are refused only where one of them selects no project
/// at all, or where a `/...` pattern adds none to those of the patterns before
/// it.
pub proof fn refused_patterns_add_nothing(
    patterns: Seq<Seq<char>>,
    known: spec_fn(Seq<char>) -> bool,
    addresses: Seq<Seq<char>>,
    directory: Option<Seq<char>>,
)
    requires
        chosen_by(patterns, known, addresses, directory) is Err,
    ensures
        exists|i: int|
            0 <= i < patterns.len() && chosen_by(patterns.take(i), known, addresses, directory) is Ok && ({
                let before = chosen_by(patterns.take(i), known, addresses, directory)->Ok_0;
                ||| !selects_some(#[trigger] patterns[i], addresses, directory)
                ||| "/..."@.is_suffix_of(patterns[i]) && choose_more(
                    patterns[i],
                    addresses,
                    directory,
                    before,
                    addresses.len() as int,
                ).len() <= before.len()
            }),
    decreases patterns.len(),
{
    let front = patterns.drop_last();
    if chosen_by(front, known, addresses, directory) is Err {
        refused_patterns_add_nothing(front, known, addresses, directory);
        let at = choose|i: int|
            0 <= i < front.len() && chosen_by(front.take(i), known, addresses, directory) is Ok && ({
                let before = chosen_by(front.take(i), known, addresses, directory)->Ok_0;
                ||| !selects_some(#[trigger] front[i], addresses, directory)
                ||| "/..."@.is_suffix_of(front[i]) && choose_more(
                    front[i],
                    addresses,
                    directory,
                    before,
                    addresses.len() as int,
                ).len() <= before.len()
            });
        assert(front.take(at) =~= patterns.take(at));
        assert(patterns[at] == front[at]);
    } else {
        let at = patterns.len() - 1;
        assert(patterns.take(at) =~= front);
        assert(patterns[at] == patterns.last());
    }
}

/// A run works on what was selected, whatever the flags, and without --no-deps
/// on everything that what it works on depends on.
pub proof fn expansion_covers(run: RunArgs, graph: &ProjectGraph, seeds: Set<Seq<char>>)
    ensures
        seeds.subset_of(expansion(run, graph, seeds)),
        !run.no_deps ==> forall|a: Seq<char>, b: Seq<char>|
            expansion(run, graph, seeds).contains(a) && #[trigger] is_neighbor(graph, Direction::Dependencies, a, b)
                ==> expansion(run, graph, seeds).contains(b),
{
    let first = if run.dependents {
        with_dependents(graph, seeds)
    } else {
        seeds
    };
    let all = expansion(run, graph, seeds);
    if !run.no_deps {
        assert forall|address: Seq<char>| seeds.contains(address) implies #[trigger] all.contains(address) by {
            crate::graph::closure::seed_is_reached(graph, Direction::Dependencies, first, address);
        }
        assert forall|a: Seq<char>, b: Seq<char>|
            all.contains(a) && #[trigger] is_neighbor(graph, Direction::Dependencies, a, b) implies all.contains(b) by {
            crate::graph::closure::reached_extends(graph, Direction::Dependencies, first, a, b);
        }
    }
}

/// The target is the first argument that is no flag, no exclusion and no project,
/// and not empty, whatever stands behind it.
pub proof fn the_first_name_is_the_target(before: Seq<Seq<char>>, name: Seq<char>, behind: Seq<Seq<char>>)
    requires
        forall|i: int|
            0 <= i < before.len() ==> {
                ||| (#[trigger] before[i]).len() == 0
                ||| "--"@.is_prefix_of(before[i])
                ||| before[i] == "-v"@
                ||| before[i] == "-q"@
                ||| before[i] == "."@
                ||| "-//"@.is_prefix_of(before[i])
                ||| "//"@.is_prefix_of(before[i])
                ||| "./"@.is_prefix_of(before[i])
            },
    ensures
        target_of(before).len() == 0,
        name.len() > 0 && !"--"@.is_prefix_of(name) && name != "-v"@ && name != "-q"@ && name != "."@
            && !"-//"@.is_prefix_of(name) && !"//"@.is_prefix_of(name) && !"./"@.is_prefix_of(name) ==> target_of(
            before + seq![name] + behind,
        ) == name,
    decreases before.len(), behind.len(),
{
    if behind.len() > 0 {
        let all = before + seq![name] + behind;
        the_first_name_is_the_target(before, name, behind.drop_last());
        assert(all.drop_last() =~= before + seq![name] + behind.drop_last());
    } else {
        if before.len() > 0 {
            let front = before.drop_last();
            assert forall|i: int| 0 <= i < front.len() implies {
                ||| (#[trigger] front[i]).len() == 0
                ||| "--"@.is_prefix_of(front[i])
                ||| front[i] == "-v"@
                ||| front[i] == "-q"@
                ||| front[i] == "."@
                ||| "-//"@.is_prefix_of(front[i])
                ||| "//"@.is_prefix_of(front[i])
                ||| "./"@.is_prefix_of(front[i])
            } by {
                assert(front[i] == before[i]);
            }
            the_first_name_is_the_target(front, name, behind);
            assert(before[before.len() - 1] == before.last());
        }
        assert(before + seq![name] + behind =~= before.push(name));
        assert(before.push(name).drop_last() =~= before);
        assert(before.push(name).last() == name);
    }
}

/// The last stream flag counts, and without one nothing is said.
pub proof fn the_last_stream_flag_counts(before: Seq<Seq<char>>, behind: Seq<Seq<char>>)
    requires
        forall|i: int|
            0 <= i < behind.len() ==> (#[trigger] behind[i]) != "--stream"@ && behind[i] != "--no-stream"@,
    ensures
        stream_of(behind) is None,
        stream_of(before + seq!["--stream"@] + behind) == Some(true),
        stream_of(before + seq!["--no-stream"@] + behind) == Some(false),
    decreases behind.len(),
{
    reveal_strlit("--stream");
    reveal_strlit("--no-stream");
    assert("--stream"@.len() == 8);
    assert("--no-stream"@.len() == 11);
    if behind.len() > 0 {
        let front = behind.drop_last();
        assert forall|i: int| 0 <= i < front.len() implies (#[trigger] front[i]) != "--stream"@ && front[i]
            != "--no-stream"@ by {
            assert(front[i] == behind[i]);
        }
        the_last_stream_flag_counts(before, front);
        assert(behind.last() == behind[behind.len() - 1]);
        assert((before + seq!["--stream"@] + behind).drop_last() =~= before + seq!["--stream"@] + front);
        assert((before + seq!["--no-stream"@] + behind).drop_last() =~= before + seq!["--no-stream"@] + front);
    } else {
        assert(before + seq!["--stream"@] + behind =~= before.push("--stream"@));
        assert(before + seq!["--no-stream"@] + behind =~= before.push("--no-stream"@));
    }
}

proof fn a_target_has_a_name(args: Seq<Seq<char>>)
    ensures
        target_of(args).len() > 0 <==> exists|i: int|
            0 <= i < args.len() && (#[trigger] args[i]).len() > 0 && is_positional(args[i]),
    decreases args.len(),
{
    if args.len() > 0 {
        let front = args.drop_last();
        a_target_has_a_name(front);
        if target_of(front).len() > 0 {
            let i = choose|i: int| 0 <= i < front.len() && (#[trigger] front[i]).len() > 0 && is_positional(front[i]);
            assert(args[i] == front[i]);
        } else {
            assert forall|i: int| 0 <= i < front.len() implies !((#[trigger] args[i]).len() > 0 && is_positional(
                args[i],
            )) by {
                assert(front[i] == args[i]);
            }
            assert(args[args.len() - 1] == args.last());
        }
    }
}

/// The projects are the arguments that start like an address or a path from
/// here, and the names behind the target that are neither flags nor a language.
pub proof fn projects_are_named(args: Seq<Seq<char>>, project: Seq<char>)
    ensures
        projects_of(args).contains(project) <==> exists|i: int|
            0 <= i < args.len() && (#[trigger] args[i]) == project && {
                ||| "//"@.is_prefix_of(project)
                ||| "./"@.is_prefix_of(project)
                ||| is_positional(project) && !"-"@.is_prefix_of(project) && 0 < i && args[i - 1] != "--lang"@ && exists|
                    j: int,
                |
                    0 <= j < i && (#[trigger] args[j]).len() > 0 && is_positional(args[j])
            },
        projects_of(args).len() <= args.len(),
    decreases args.len(),
{
    if args.len() > 0 {
        let front = args.drop_last();
        let arg = args.last();
        let at = args.len() - 1;
        projects_are_named(front, project);
        a_target_has_a_name(front);
        assert forall|j: int| 0 <= j < at implies #[trigger] args[j] == front[j] by {}
        let takes = is_project(arg) || is_directory(front, arg);
        if projects_of(front).contains(project) {
            let k = choose|k: int| 0 <= k < projects_of(front).len() && projects_of(front)[k] == project;
            assert(projects_of(args)[k] == project);
            let i = choose|i: int|
                0 <= i < front.len() && (#[trigger] front[i]) == project && {
                    ||| "//"@.is_prefix_of(project)
                    ||| "./"@.is_prefix_of(project)
                    ||| is_positional(project) && !"-"@.is_prefix_of(project) && 0 < i && front[i - 1] != "--lang"@
                        && exists|j: int| 0 <= j < i && (#[trigger] front[j]).len() > 0 && is_positional(front[j])
                };
            assert(args[i] == project);
            if is_positional(project) && 0 < i && exists|j: int|
                0 <= j < i && (#[trigger] front[j]).len() > 0 && is_positional(front[j]) {
                let j = choose|j: int| 0 <= j < i && (#[trigger] front[j]).len() > 0 && is_positional(front[j]);
                assert(args[j] == front[j]);
                assert(args[i - 1] == front[i - 1]);
            }
        }
        if takes && arg == project {
            assert(projects_of(args)[projects_of(front).len() as int] == project);
            assert(args[at] == project);
            if is_directory(front, arg) {
                let j = choose|j: int| 0 <= j < front.len() && (#[trigger] front[j]).len() > 0 && is_positional(front[j]);
                assert(args[j] == front[j]);
                assert(args[at - 1] == front.last());
            }
        }
        if projects_of(args).contains(project) {
            let k = choose|k: int| 0 <= k < projects_of(args).len() && projects_of(args)[k] == project;
            if k < projects_of(front).len() {
                assert(projects_of(front).contains(projects_of(front)[k]));
            }
        }
        if exists|i: int|
            0 <= i < args.len() && (#[trigger] args[i]) == project && {
                ||| "//"@.is_prefix_of(project)
                ||| "./"@.is_prefix_of(project)
                ||| is_positional(project) && !"-"@.is_prefix_of(project) && 0 < i && args[i - 1] != "--lang"@ && exists|
                    j: int,
                |
                    0 <= j < i && (#[trigger] args[j]).len() > 0 && is_positional(args[j])
            } {
            let i = choose|i: int|
                0 <= i < args.len() && (#[trigger] args[i]) == project && {
                    ||| "//"@.is_prefix_of(project)
                    ||| "./"@.is_prefix_of(project)
                    ||| is_positional(project) && !"-"@.is_prefix_of(project) && 0 < i && args[i - 1] != "--lang"@
                        && exists|j: int| 0 <= j < i && (#[trigger] args[j]).len() > 0 && is_positional(args[j])
                };
            if !is_project(project) {
                let j = choose|j: int| 0 <= j < i && (#[trigger] args[j]).len() > 0 && is_positional(args[j]);
                assert(front[j] == args[j]);
                assert(args[i - 1] == front[i - 1]);
            }
            if i < at {
                assert(front[i] == project);
            }
        }
    }
}

proof fn one_pattern_chooses(
    pattern: Seq<char>,
    addresses: Seq<Seq<char>>,
    directory: Option<Seq<char>>,
    chosen: Seq<int>,
    count: int,
)
    requires
        0 <= count <= addresses.len(),
        forall|k: int| 0 <= k < chosen.len() ==> 0 <= #[trigger] chosen[k] < addresses.len(),
        forall|k: int, l: int| 0 <= k < l < chosen.len() ==> addresses[#[trigger] chosen[k]] != addresses[#[trigger] chosen[l]],
    ensures
        ({
            let after = choose_more(pattern, addresses, directory, chosen, count);
            &&& chosen.len() <= after.len()
            &&& after.take(chosen.len() as int) == chosen
            &&& forall|k: int| 0 <= k < after.len() ==> 0 <= #[trigger] after[k] < addresses.len()
            &&& forall|k: int|
                chosen.len() <= k < after.len() ==> pattern_selects(pattern, addresses[#[trigger] after[k]], directory)
            &&& forall|k: int, l: int|
                0 <= k < l < after.len() ==> addresses[#[trigger] after[k]] != addresses[#[trigger] after[l]]
            &&& forall|i: int|
                0 <= i < count && pattern_selects(pattern, #[trigger] addresses[i], directory) ==> is_chosen(
                    addresses,
                    after,
                    addresses[i],
                )
        }),
    decreases count,
{
    if count > 0 {
        one_pattern_chooses(pattern, addresses, directory, chosen, count - 1);
        let before = choose_more(pattern, addresses, directory, chosen, count - 1);
        let after = choose_more(pattern, addresses, directory, chosen, count);
        assert(after.take(before.len() as int) =~= before);
        assert(after.take(chosen.len() as int) =~= before.take(chosen.len() as int));
        assert forall|i: int| 0 <= i < count && pattern_selects(pattern, #[trigger] addresses[i], directory) implies is_chosen(
            addresses,
            after,
            addresses[i],
        ) by {
            if is_chosen(addresses, before, addresses[i]) {
                let k = choose|k: int| 0 <= k < before.len() && addresses[#[trigger] before[k]] == addresses[i];
                assert(addresses[after[k]] == addresses[i]);
            } else {
                assert(i == count - 1);
                assert(addresses[after[before.len() as int]] == addresses[i]);
            }
        }
        if after.len() > before.len() {
            assert forall|k: int, l: int| 0 <= k < l < after.len() implies addresses[#[trigger] after[k]] != addresses[#[trigger] after[l]] by {
                if l == before.len() {
                    assert(before[k] == after[k]);
                } else {
                    assert(before[k] == after[k] && before[l] == after[l]);
                }
            }
        }
    } else {
        assert(chosen.take(chosen.len() as int) =~= chosen);
    }
}

/// The chosen projects are those that one of the patterns selects: all of them,
/// no others, and none of them twice.
pub proof fn patterns_choose_what_they_select(
    patterns: Seq<Seq<char>>,
    known: spec_fn(Seq<char>) -> bool,
    addresses: Seq<Seq<char>>,
    directory: Option<Seq<char>>,
)
    requires
        chosen_by(patterns, known, addresses, directory) is Ok,
    ensures
        ({
            let chosen = chosen_by(patterns, known, addresses, directory)->Ok_0;
            &&& forall|k: int|
                0 <= k < chosen.len() ==> 0 <= #[trigger] chosen[k] < addresses.len() && exists|p: int|
                    0 <= p < patterns.len() && pattern_selects(#[trigger] patterns[p], addresses[chosen[k]], directory)
            &&& forall|p: int, i: int|
                0 <= p < patterns.len() && 0 <= i < addresses.len() && #[trigger] pattern_selects(
                    patterns[p],
                    addresses[i],
                    directory,
                ) ==> exists|k: int| 0 <= k < chosen.len() && addresses[#[trigger] chosen[k]] == addresses[i]
            &&& forall|k: int, l: int|
                0 <= k < l < chosen.len() ==> addresses[#[trigger] chosen[k]] != addresses[#[trigger] chosen[l]]
        }),
    decreases patterns.len(),
{
    if patterns.len() > 0 {
        let front = patterns.drop_last();
        let pattern = patterns.last();
        patterns_choose_what_they_select(front, known, addresses, directory);
        let before = chosen_by(front, known, addresses, directory)->Ok_0;
        let after = chosen_by(patterns, known, addresses, directory)->Ok_0;
        one_pattern_chooses(pattern, addresses, directory, before, addresses.len() as int);
        assert(after == choose_more(pattern, addresses, directory, before, addresses.len() as int));
        assert forall|k: int| 0 <= k < before.len() implies #[trigger] after[k] == before[k] by {
            assert(after.take(before.len() as int)[k] == after[k]);
        }
        assert forall|k: int| 0 <= k < after.len() implies 0 <= #[trigger] after[k] < addresses.len() && exists|p: int|
            0 <= p < patterns.len() && pattern_selects(#[trigger] patterns[p], addresses[after[k]], directory) by {
            if k < before.len() {
                assert(after[k] == before[k]);
                let p = choose|p: int|
                    0 <= p < front.len() && pattern_selects(#[trigger] front[p], addresses[before[k]], directory);
                assert(patterns[p] == front[p]);
            } else {
                assert(patterns[patterns.len() - 1] == pattern);
            }
        }
        assert forall|p: int, i: int|
            0 <= p < patterns.len() && 0 <= i < addresses.len() && #[trigger] pattern_selects(
                patterns[p],
                addresses[i],
                directory,
            ) implies exists|k: int| 0 <= k < after.len() && addresses[#[trigger] after[k]] == addresses[i] by {
            if p < front.len() {
                assert(front[p] == patterns[p]);
                assert(pattern_selects(front[p], addresses[i], directory));
                let k = choose|k: int| 0 <= k < before.len() && addresses[#[trigger] before[k]] == addresses[i];
                assert(after[k] == before[k]);
            } else {
                assert(is_chosen(addresses, after, addresses[i]));
            }
        }
    }
}

/// A run works on no more than it has to: on what was selected, with
/// --dependents on what depends on that directly, and without --no-deps on what
/// all this depends on.
pub proof fn expansion_adds_no_more(run: RunArgs, graph: &ProjectGraph, seeds: Set<Seq<char>>, all: Set<Seq<char>>)
    requires
        seeds.subset_of(all),
        run.dependents ==> forall|seed: Seq<char>, other: Seq<char>|
            seeds.contains(seed) && #[trigger] is_neighbor(graph, Direction::Dependents, seed, other) ==> all.contains(
                other,
            ),
        !run.no_deps ==> forall|a: Seq<char>, b: Seq<char>|
            all.contains(a) && #[trigger] is_neighbor(graph, Direction::Dependencies, a, b) ==> all.contains(b),
    ensures
        expansion(run, graph, seeds).subset_of(all),
{
    let first = if run.dependents {
        with_dependents(graph, seeds)
    } else {
        seeds
    };
    assert forall|address: Seq<char>| expansion(run, graph, seeds).contains(address) implies #[trigger] all.contains(
        address,
    ) by {
        if !run.no_deps {
            crate::graph::closure::reached_stays_inside(graph, Direction::Dependencies, first, all, address);
        }
    }
}

/// With --dependents a run works on whatever depends on a selected project
/// directly.
pub proof fn dependents_are_run(run: RunArgs, graph: &ProjectGraph, seeds: Set<Seq<char>>, seed: Seq<char>, other: Seq<char>)
    requires
        run.dependents,
        seeds.contains(seed),
        is_neighbor(graph, Direction::Dependents, seed, other),
    ensures
        expansion(run, graph, seeds).contains(other),
{
    let first = with_dependents(graph, seeds);
    assert(first.contains(other));
    if !run.no_deps {
        crate::graph::closure::seed_is_reached(graph, Direction::Dependencies, first, other);
    }
}

/// A run of everything has every project that no exclusion names, and no other.
pub proof fn everything_is_selected(
    run: RunArgs,
    known: spec_fn(Seq<char>) -> bool,
    projects: Seq<DiscoveredProject>,
    directory: Option<Seq<char>>,
    at: int,
)
    requires
        run.all || texts(run.projects@).contains("//..."@),
    ensures
        selection(run, known, projects, directory) is Ok,
        selection(run, known, projects, directory)->Ok_0.contains(at) <==> 0 <= at < projects.len() && forall|e: int|
            0 <= e < run.exclusions@.len() ==> !address_selects(
                (#[trigger] run.exclusions@[e])@,
                "//"@ + projects[at].relative_path@,
                directory,
            ),
{
    let addresses = project_addresses(projects);
    let exclusions = texts(run.exclusions@);
    let kept = |i: int| !is_left_out(exclusions, addresses[i], directory);
    let all = Seq::new(projects.len(), |i: int| i);
    let chosen = selection(run, known, projects, directory)->Ok_0;
    assert(chosen == all.filter(kept));
    left_out_by_one(run, projects, directory, at);
    if chosen.contains(at) {
        all.lemma_filter_contains_rev(kept, at);
        let k = choose|k: int| 0 <= k < chosen.len() && chosen[k] == at;
        all.lemma_filter_pred(kept, k);
        let n = choose|n: int| 0 <= n < all.len() && all[n] == at;
    }
    if 0 <= at < projects.len() && kept(at) {
        assert(all[at] == at);
        all.lemma_filter_contains(kept, at);
    }
}

proof fn left_out_by_one(run: RunArgs, projects: Seq<DiscoveredProject>, directory: Option<Seq<char>>, at: int)
    ensures
        0 <= at < projects.len() ==> (is_left_out(texts(run.exclusions@), project_addresses(projects)[at], directory)
            <==> exists|e: int|
            0 <= e < run.exclusions@.len() && address_selects(
                (#[trigger] run.exclusions@[e])@,
                "//"@ + projects[at].relative_path@,
                directory,
            )),
{
    if 0 <= at < projects.len() {
        let exclusions = texts(run.exclusions@);
        assert(project_addresses(projects)[at] == "//"@ + projects[at].relative_path@);
        if is_left_out(exclusions, project_addresses(projects)[at], directory) {
            let e = choose|e: int|
                0 <= e < exclusions.len() && address_selects(#[trigger] exclusions[e], project_addresses(projects)[at], directory);
            assert(run.exclusions@[e]@ == exclusions[e]);
        }
        if exists|e: int|
            0 <= e < run.exclusions@.len() && address_selects(
                (#[trigger] run.exclusions@[e])@,
                "//"@ + projects[at].relative_path@,
                directory,
            ) {
            let e = choose|e: int|
                0 <= e < run.exclusions@.len() && address_selects(
                    (#[trigger] run.exclusions@[e])@,
                    "//"@ + projects[at].relative_path@,
                    directory,
                );
            assert(exclusions[e] == run.exclusions@[e]@);
        }
    }
}

/// A run of some projects has no project that no pattern selects.
pub proof fn selected_projects_are_named(
    run: RunArgs,
    known: spec_fn(Seq<char>) -> bool,
    projects: Seq<DiscoveredProject>,
    directory: Option<Seq<char>>,
    chosen: Seq<int>,
    at: int,
)
    requires
        !run.all,
        !texts(run.projects@).contains("//..."@),
        run.projects@.len() > 0,
        selection(run, known, projects, directory) == Ok::<Seq<int>, Seq<char>>(chosen),
        chosen.contains(at),
    ensures
        0 <= at < projects.len(),
        exists|q: int|
            0 <= q < run.projects@.len() && pattern_selects(
                (#[trigger] run.projects@[q])@,
                "//"@ + projects[at].relative_path@,
                directory,
            ),
{
    let addresses = project_addresses(projects);
    let patterns = texts(run.projects@);
    let kept = |i: int| !is_left_out(texts(run.exclusions@), addresses[i], directory);
    let all = chosen_by(patterns, known, addresses, directory)->Ok_0;
    assert(chosen == all.filter(kept));
    patterns_choose_what_they_select(patterns, known, addresses, directory);
    all.lemma_filter_contains_rev(kept, at);
    let k = choose|k: int| 0 <= k < all.len() && all[k] == at;
    assert(0 <= all[k] < addresses.len());
    let q = choose|q: int| 0 <= q < patterns.len() && pattern_selects(#[trigger] patterns[q], addresses[all[k]], directory);
    assert(addresses[at] == "//"@ + projects[at].relative_path@);
    assert(run.projects@[q]@ == patterns[q]);
}

/// A run of some projects has each project that a pattern selects and no exclusion
/// names.
pub proof fn named_projects_are_selected(
    run: RunArgs,
    known: spec_fn(Seq<char>) -> bool,
    projects: Seq<DiscoveredProject>,
    directory: Option<Seq<char>>,
    chosen: Seq<int>,
    p: int,
    at: int,
)
    requires
        !run.all,
        !texts(run.projects@).contains("//..."@),
        selection(run, known, projects, directory) == Ok::<Seq<int>, Seq<char>>(chosen),
        0 <= at < projects.len(),
        0 <= p < run.projects@.len(),
        pattern_selects(run.projects@[p]@, "//"@ + projects[at].relative_path@, directory),
        forall|e: int|
            0 <= e < run.exclusions@.len() ==> !address_selects(
                (#[trigger] run.exclusions@[e])@,
                "//"@ + projects[at].relative_path@,
                directory,
            ),
    ensures
        exists|k: int|
            0 <= k < chosen.len() && 0 <= #[trigger] chosen[k] < projects.len() && projects[chosen[k]].relative_path@
                == projects[at].relative_path@,
{
    let addresses = project_addresses(projects);
    let patterns = texts(run.projects@);
    let kept = |i: int| !is_left_out(texts(run.exclusions@), addresses[i], directory);
    let all = chosen_by(patterns, known, addresses, directory)->Ok_0;
    assert(chosen == all.filter(kept));
    patterns_choose_what_they_select(patterns, known, addresses, directory);
    left_out_by_one(run, projects, directory, at);
    assert(addresses[at] == "//"@ + projects[at].relative_path@);
    assert(patterns[p] == run.projects@[p]@);
    assert(pattern_selects(patterns[p], addresses[at], directory));
    let n = choose|n: int| 0 <= n < all.len() && addresses[#[trigger] all[n]] == addresses[at];
    assert(kept(all[n]));
    all.lemma_filter_contains(kept, n);
    let k = choose|k: int| 0 <= k < chosen.len() && chosen[k] == all[n];
    let slashes = "//"@.len() as int;
    assert(addresses[all[n]] == "//"@ + projects[all[n]].relative_path@);
    assert(addresses[all[n]].skip(slashes) =~= projects[all[n]].relative_path@);
    assert(addresses[at].skip(slashes) =~= projects[at].relative_path@);
    assert(projects[chosen[k]].relative_path@ == projects[at].relative_path@);
}

/// Without a project a run has the project of the current directory, and is refused
/// where there is none.
pub proof fn the_directory_selects(
    run: RunArgs,
    known: spec_fn(Seq<char>) -> bool,
    projects: Seq<DiscoveredProject>,
    directory: Option<Seq<char>>,
)
    requires
        !run.all,
        run.projects@.len() == 0,
    ensures
        selection(run, known, projects, directory) matches Ok(chosen) ==> chosen.len() == 1 && directory is Some
            && project_here(projects, directory->0, projects.len() as int) == Some(chosen[0]),
        selection(run, known, projects, directory) is Err <==> directory is None || project_here(
            projects,
            directory->0,
            projects.len() as int,
        ) is None,
{
    assert(texts(run.projects@).len() == 0);
    if texts(run.projects@).contains("//..."@) {
        let i = choose|i: int| 0 <= i < texts(run.projects@).len() && texts(run.projects@)[i] == "//..."@;
    }
}

/// `//...` selects every address; an address selects itself alone; and with `/...`
/// behind it, itself and what lies below, but no address that merely begins the
/// same.
pub proof fn addresses_select(prefix: Seq<char>, address: Seq<char>, rest: Seq<char>, directory: Option<Seq<char>>)
    requires
        "//"@.is_prefix_of(prefix),
        prefix.len() > 2,
        !"/..."@.is_suffix_of(prefix),
    ensures
        address_selects("//..."@, address, directory),
        address_selects(prefix, address, directory) <==> address == prefix,
        address_selects(prefix + "/..."@, prefix, directory),
        address_selects(prefix + "/..."@, prefix + "/"@ + rest, directory),
        rest.len() > 0 && rest[0] != '/' ==> !address_selects(prefix + "/..."@, prefix + rest, directory),
        !prefix.is_prefix_of(address) ==> !address_selects(prefix + "/..."@, address, directory),
{
    reveal_strlit("//");
    reveal_strlit("//...");
    reveal_strlit("/...");
    reveal_strlit("/");
    reveal_strlit(".");
    reveal_strlit("./");
    let pattern = prefix + "/..."@;
    assert(prefix[0] == '/') by {
        assert(prefix.take(2)[0] == "//"@[0]);
    }
    assert(pattern.len() > 5);
    assert("/..."@ =~= pattern.skip(pattern.len() - 4));
    assert("/..."@.is_suffix_of(pattern));
    assert(pattern.take(pattern.len() - 4) =~= prefix);
    if prefix == "//..."@ {
        assert("/..."@ =~= prefix.skip(1));
    }
    if "./"@.is_prefix_of(prefix) {
        assert(prefix.take(2)[0] == '.');
    }
    let below = prefix + "/"@ + rest;
    assert(prefix + "/"@ =~= below.take((prefix + "/"@).len() as int));
    assert((prefix + "/"@).is_prefix_of(below));
    if rest.len() > 0 && rest[0] != '/' && (prefix + "/"@).is_prefix_of(prefix + rest) {
        assert((prefix + rest).take(prefix.len() as int + 1)[prefix.len() as int] == '/');
    }
    if (prefix + "/"@).is_prefix_of(address) {
        assert(prefix =~= address.take(prefix.len() as int));
    }
    if address == prefix {
        assert(prefix =~= address.take(prefix.len() as int));
    }
}

/// An argument with a dash before an address leaves that address out, and no other
/// argument leaves anything out.
pub proof fn dashes_leave_out(args: Seq<Seq<char>>, address: Seq<char>)
    ensures
        exclusions_of(args).contains(address) <==> "//"@.is_prefix_of(address) && args.contains("-"@ + address),
{
    reveal_strlit("//");
    reveal_strlit("-//");
    reveal_strlit("-");
    let leaves = |arg: Seq<char>| is_exclusion(arg);
    let found = args.filter(leaves);
    let all = exclusions_of(args);
    assert(all =~= found.map_values(|arg: Seq<char>| arg.skip(1)));
    let arg = "-"@ + address;
    if all.contains(address) {
        let i = choose|i: int| 0 <= i < all.len() && all[i] == address;
        args.lemma_filter_pred(leaves, i);
        assert(found.contains(found[i]));
        args.lemma_filter_contains_rev(leaves, found[i]);
        let text = found[i];
        assert(text.take(3) == "-//"@);
        assert(text.take(3)[0] == '-' && text.take(3)[1] == '/' && text.take(3)[2] == '/');
        assert(text =~= arg);
        assert("//"@ =~= address.take(2));
    }
    if "//"@.is_prefix_of(address) && args.contains(arg) {
        assert(address.take(2)[0] == '/' && address.take(2)[1] == '/');
        assert("-//"@ =~= arg.take(3));
        assert(leaves(arg));
        let k = choose|k: int| 0 <= k < args.len() && args[k] == arg;
        args.lemma_filter_contains(leaves, k);
        let i = choose|i: int| 0 <= i < found.len() && found[i] == arg;
        assert(all[i] == arg.skip(1));
        assert(arg.skip(1) =~= address);
    }
}

/// The projects of a run are those with a wanted address, each in its place.
pub proof fn wanted_projects_are_run(projects: Seq<DiscoveredProject>, wanted: Set<Seq<char>>, at: int)
    ensures
        places_of(projects, wanted).contains(at) <==> 0 <= at < projects.len() && wanted.contains(
            "//"@ + projects[at].relative_path@,
        ),
{
    let all = Seq::new(projects.len(), |i: int| i);
    let fits = |i: int| wanted.contains(address_of(projects[i].relative_path@));
    let found = places_of(projects, wanted);
    assert(found == all.filter(fits));
    if found.contains(at) {
        all.lemma_filter_contains_rev(fits, at);
        let k = choose|k: int| 0 <= k < found.len() && found[k] == at;
        all.lemma_filter_pred(fits, k);
    }
    if 0 <= at < projects.len() && fits(at) {
        assert(all[at] == at);
        all.lemma_filter_contains(fits, at);
    }
}

/// Each flag says what it is for, wherever it stands, and is off without it.
pub proof fn flags_are_read(args: Seq<Seq<char>>, run: RunArgs)
    requires
        says(args, run),
    ensures
        run.no_deps <==> args.contains("--no-deps"@),
        run.dependents <==> args.contains("--dependents"@),
        run.all <==> args.contains("--all"@),
        run.use_cwd <==> args.contains("."@),
        run.warnings_as_errors <==> args.contains("--warnings-as-errors"@),
        run.no_cache <==> args.contains("--no-cache"@),
        run.json <==> args.contains("--json"@),
        run.full_logs <==> args.contains("--full-logs"@),
        run.verbose <==> args.contains("--verbose"@) || args.contains("-v"@),
        run.quiet <==> args.contains("--quiet"@) || args.contains("-q"@),
        run.target@ == target_of(args),
        texts(run.projects@) == projects_of(args),
        texts(run.exclusions@) == exclusions_of(args),
        run.stream_override == stream_of(args),
{
}

/// A path from here selects what it selects from there: below the current directory
/// a directory selects the project with that path, whatever directory it is.
pub proof fn paths_from_here_are_taken_from_here(wanted: Seq<char>, path: Seq<char>, here: Seq<char>)
    requires
        !wanted.contains('*'),
    ensures
        directory_selects("./"@ + wanted, path, Some(here)) <==> path_under(path, here) && same_path(
            wanted,
            path_rest(path, here),
        ),
        !directory_selects("./"@ + wanted, path, None),
        !"./"@.is_prefix_of(wanted) ==> (directory_selects(wanted, path, Some(here)) <==> same_path(wanted, path)),
{
    reveal_strlit("./");
    let pattern = "./"@ + wanted;
    assert("./"@ =~= pattern.take(2));
    assert("./"@.is_prefix_of(pattern));
    assert(pattern.skip(2) =~= wanted);
}

/// The current directory is known from the workspace root, and not outside it.
pub proof fn directories_are_known_inside(root: Seq<char>, names: Seq<Seq<char>>, cwd: Seq<char>)
    requires
        root.len() > 0,
        root.last() != '/',
        names.len() > 0,
        forall|i: int|
            0 <= i < names.len() ==> (#[trigger] names[i]).len() > 0 && names[i] != "."@ && !names[i].contains('/'),
    ensures
        directory_in(root + "/"@ + joined(names, "/"@), root) == Some(joined(names, "/"@)),
        !path_under(cwd, root) ==> directory_in(cwd, root) is None,
{
    reveal_strlit("/");
    let rest = joined(names, "/"@);
    assert forall|i: int| 0 <= i < names.len() implies !crate::paths::is_current(#[trigger] names[i]) && !names[i].contains('/') by {
        assert(names[i].len() > 0);
    }
    crate::paths::joined_names_are_left(root, names);
    first_is_a_name(names);
    assert(!crate::paths::is_absolute(rest));
    crate::paths::joined_paths_lie_under_their_base(root, rest);
}

proof fn first_is_a_name(names: Seq<Seq<char>>)
    requires
        names.len() > 0,
        forall|i: int| 0 <= i < names.len() ==> (#[trigger] names[i]).len() > 0 && !names[i].contains('/'),
    ensures
        joined(names, "/"@).len() > 0,
        joined(names, "/"@)[0] != '/',
    decreases names.len(),
{
    if names.len() == 1 {
        assert(names[0].contains(names[0][0]));
    } else {
        let front = names.drop_last();
        assert forall|i: int| 0 <= i < front.len() implies (#[trigger] front[i]).len() > 0 && !front[i].contains('/') by {
            assert(front[i] == names[i]);
        }
        first_is_a_name(front);
    }
}

/// A pattern with a star selects the projects whose path its glob matches, and none
/// where it is no glob.
pub proof fn stars_select_by_glob(pattern: Seq<char>, path: Seq<char>, directory: Option<Seq<char>>)
    requires
        pattern.contains('*'),
        !"./"@.is_prefix_of(pattern),
    ensures
        directory_selects(pattern, path, directory) <==> is_glob(pattern) && globs_compile(seq![pattern]) && glob_matches(
            pattern,
            path,
        ),
{
}

} // verus!
