//! Finding the projects of a workspace.
pub mod placeholders;
pub mod scanner;
pub mod validation;
