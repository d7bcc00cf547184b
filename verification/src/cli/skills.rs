//! The guide that the program prints about itself.
use vstd::prelude::*;

verus! {

/// A workspace-independent Markdown reference intended for humans and LLMs.
pub const SKILLS_MARKDOWN: &'static str = "# Using Aster

Aster runs the targets of the projects in a workspace: in dependency order, in
parallel where that is possible, and only where something has changed.

## Find out what there is

    aster list
    aster list --json
    aster graph
    aster why //services/api:test //libs/core:build

A project is addressed as `//path/to/project`, a target as
`//path/to/project:target`.

## Run targets

    aster lint --all
    aster test --all
    aster build //services/api
    aster test //libs/...
    aster run //services/api:test //libs/core:build

Dependencies run first. `--no-deps` leaves them out, and `--dependents` adds
the projects that depend on those selected. `--json` prints results for
machines, `--full-logs` prints the whole output of what failed, and `aster logs`
shows the output of the last run.

## Run what a change affects

    aster affected test
    aster affected test --base=main --dependents
    aster affected test --dry-run

## Watch

    aster watch //services/api:build

The targets and all that they depend on run again when their inputs change.

## Services

    aster services up
    aster services logs
    aster services down

The services of the `[dev]` section of the root `aster.toml` are started
together, with the ports and the environment that it configures.
";

} // verus!
