//! Target caching for incremental builds
//!
//! Caches target execution results based on input hashes to skip
//! re-running targets when nothing has changed.
pub mod hasher;
pub mod matcher;
pub mod store;
