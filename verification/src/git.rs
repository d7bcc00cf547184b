//! Git integration for affected detection
//!
//! Maps changed files to affected projects in the workspace.
pub mod affected;
pub mod file_owner;
pub mod ignore;
pub mod lane;
