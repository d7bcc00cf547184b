//! Build orchestration for polyglot monorepos.
use vstd::prelude::*;

pub mod address;
pub mod cache;
pub mod cli;
pub mod collections;
pub mod config;
pub mod dev;
pub mod discovery;
pub mod executor;
pub mod git;
pub mod globs;
pub mod graph;
pub mod numbers;
pub mod paths;
pub mod plugins;
pub mod text;

verus! {

} // verus!
