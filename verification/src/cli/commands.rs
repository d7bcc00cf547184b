//! The commands of the program and the flags that they share.
use vstd::prelude::*;
use crate::cli::output::OutputMode;

verus! {

/// Build orchestration for polyglot monorepos
#[derive(Debug, Clone)]
pub struct Cli {
    pub command: Commands,
    /// Enable verbose output
    pub verbose: bool,
    /// Suppress per-project output, show only summary
    pub quiet: bool,
    /// Output in JSON format for machine consumption
    pub json: bool,
    /// Show full output for failed targets instead of truncated logs
    ///
    /// By default, only the last 15 lines of output are shown for failures.
    /// Use this flag to see the complete output, useful for CI environments.
    pub full_logs: bool,
    /// Disable caching, force re-run of all targets
    pub no_cache: bool,
}

impl Cli {
    /// Determine the output mode based on flags
    pub fn output_mode(&self) -> (mode: OutputMode)
        ensures
            mode == (if self.json {
                OutputMode::Json
            } else if self.verbose {
                OutputMode::Verbose
            } else if self.quiet {
                OutputMode::Quiet
            } else {
                OutputMode::Normal
            }),
    {
        if self.json {
            OutputMode::Json
        } else if self.verbose {
            OutputMode::Verbose
        } else if self.quiet {
            OutputMode::Quiet
        } else {
            OutputMode::Normal
        }
    }

    /// Check if full logs should be shown for failures
    pub fn full_logs(&self) -> (full: bool)
        ensures
            full == self.full_logs,
    {
        self.full_logs
    }
}

/// Available commands
#[derive(Debug, Clone)]
pub enum Commands {
    /// List all discovered projects in the workspace
    List {
        /// Directory to scope listing to (e.g., "services/" or ".")
        path: Option<String>,
        /// Filter by language (e.g., nodejs, python, rust, go, elixir)
        lang: Vec<String>,
    },
    /// Show the target dependency graph
    Graph {
        /// Specific target to show dependencies for (//path/to/project:target)
        target: Option<String>,
    },
    /// Show the dependency path between two targets
    Why {
        /// Source target (//path/to/project:target)
        from: String,
        /// Destination target (//path/to/project:target)
        to: String,
    },
    /// Initialize an aster workspace
    Init,
    /// Run a target on projects affected by git changes
    Affected {
        /// Target to run (test, build, lint, etc.)
        target: String,
        /// Base ref for comparison (default: main)
        base: String,
        /// Head ref for comparison (default: HEAD + uncommitted)
        head: Option<String>,
        /// Also run dependents of affected projects
        dependents: bool,
        /// Show what would run without executing
        dry_run: bool,
        /// Pass affected files to targets that support it
        ///
        /// For targets with FilesList capability, passes only the changed files
        /// instead of running the full target. Useful for running tests only
        /// on files that changed.
        only_affected_files: bool,
        /// Treat warnings as errors for targets that support it
        ///
        /// For targets with WarningsAsErrors capability, modifies the command
        /// to fail on warnings. Useful for CI to catch potential issues.
        warnings_as_errors: bool,
        /// Filter by language (e.g., nodejs, python, rust, go, elixir)
        lang: Vec<String>,
    },
    /// View logs from the last run
    Logs {
        /// Specific target to view (e.g., //services/api:test)
        target: Option<String>,
    },
    /// Run a heterogeneous set of targets
    ///
    /// Execute multiple project:target pairs in dependency order.
    /// Useful when you need to run different targets on different projects.
    Run {
        /// Targets to run (//project:target format)
        targets: Vec<String>,
        /// Skip dependencies not explicitly listed
        no_deps: bool,
        /// Filter by language (e.g., nodejs, python, rust, go, elixir)
        lang: Vec<String>,
    },
    /// Project-level commands
    Project { command: ProjectCommands },
    /// Manage the build cache
    Cache { command: CacheCommands },
    /// Watch targets and rerun them when their declared inputs change
    ///
    /// Pass one or more target addresses (//project:target) or bare projects
    /// (//project uses the --target default). Watching a target implicitly
    /// watches its transitive dependency closure.
    ///
    /// Targets with `stream = true` (dev servers, etc.) are kept running and
    /// restarted when their inputs or any dependency's inputs change.
    Watch {
        /// Targets to watch (//project:target or //project)
        targets: Vec<String>,
        /// Default target name for bare project addresses
        target: String,
        /// Debounce window for coalescing rapid file events (e.g. "300ms", "1s")
        debounce: Option<String>,
        /// Skip the one-shot initial run on startup
        no_initial: bool,
        /// Filter by language (e.g., --lang nodejs,python)
        lang: Vec<String>,
    },
    /// Run a single target on projects (catch-all for targets like test, build, lint)
    Target(Vec<String>),
}

/// Cache subcommands
#[derive(Debug, Clone)]
pub enum CacheCommands {
    /// Clear cached results
    Clear {
        /// Specific target to clear (e.g., //services/api:test)
        /// If not specified, clears all cache
        target: Option<String>,
    },
    /// Show cache status
    Status {
        /// Specific target to show (e.g., //services/api:test)
        target: Option<String>,
    },
}

/// Project-level subcommands
#[derive(Debug, Clone)]
pub enum ProjectCommands {
    /// Initialize an aster.toml config file in the current project
    ///
    /// Creates a project configuration file with helpful examples based on
    /// the detected language. If no language is detected, provides a generic
    /// template for custom targets.
    Init {
        /// Path to project directory (default: current directory)
        path: String,
        /// Overwrite existing aster.toml
        force: bool,
    },
}

} // verus!
