//! The command line's words and what is shown for them.
pub mod commands;
pub mod output;
pub mod run;
pub mod skills;
