//! Command execution engine
//!
//! Executes target commands on projects in dependency order, level by level.
pub mod caching;
pub mod command;
pub mod jobs;
pub mod levels;
pub mod logs;
pub mod results;
pub mod run;
pub mod runner;
pub mod signals;
pub mod targets;
