//! Dependency graphs of projects and targets.
pub mod addressed;
pub mod builder;
pub mod closure;
pub mod cycles;
pub mod digraph;
pub mod path;
pub mod targets;
