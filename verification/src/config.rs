//! Configuration of projects and of the workspace.
pub mod file;
pub mod project;
pub mod workspace;
