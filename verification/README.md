# aster

Aster is a build orchestrator for monorepos in many languages. It finds the
projects of a workspace, connects what depends on what, runs targets in order,
remembers what need not run again, and keeps development services running.

This crate is the part of Aster that decides. It is written in Verus: every
public function says in its contract what it returns, and Verus proves that it does.

## Layout

- `src/` is the verified library.
  - `address`, `paths`, `text`, `numbers`, `collections`: addresses, paths,
    strings, and sets and maps of strings that are kept in order.
  - `globs`, `graph`: sets of glob patterns and the graphs of projects and
    targets, on top of `globset` and `petgraph`.
  - `config`, `discovery`, `plugins`: what configuration files say, and how the
    projects that were found become the projects of a workspace.
  - `cache`, `executor`: keys of targets, the cache, the levels in which targets
    run, and what is decided before and after each of them runs.
  - `git`: which projects a change concerns.
  - `cli`: arguments, selections of projects, and reports.
  - `dev`: development services. Their ports, environment and start order, the
    dashboard, the control socket, log files, the TLS proxy, and the daemon that
    keeps bundles of services.
- `tests/` runs the library.
- `app/` is ordinary Rust around it: files, processes, sockets, threads and the
  terminal. It asks the library what to do and does it.

## What is trusted

The library calls `globset`, `petgraph`, `sha2`, `shell-words` and `serde_json`,
and a few functions of the standard library that `vstd` does not specify. Each
such call stands in a function of its own, whose doc comment says what is
believed of it. Everything else is proved.

Public proof functions state what holds of several functions together, such as
that a cache key does not depend on the order in which files are found, that no
target runs before what it depends on, and that a refused request leaves the
daemon as it was.
