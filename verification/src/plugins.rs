//! What language plugins report of a project.
use vstd::prelude::*;
use crate::collections::TextSet;
use crate::config::project::CacheConfig;

verus! {

/// What a native config file says of a project.
#[derive(Debug, Clone)]
pub struct ProjectMetadata {
    pub name: String,
    pub version: Option<String>,
}

/// A dependency on another project of the workspace.
#[derive(Debug)]
pub struct LocalDependency {
    pub name: String,
    /// An address, a path relative to the project, or a plugin's placeholder
    pub path: String,
}

impl Clone for LocalDependency {
    fn clone(&self) -> (copy: LocalDependency)
        ensures
            copy == *self,
    {
        LocalDependency { name: self.name.clone(), path: self.path.clone() }
    }
}

/// The inputs of a target that its plugin knows of.
#[derive(Debug, Clone)]
pub struct CacheInputs {
    pub source_globs: Vec<String>,
    pub config_files: Vec<String>,
    pub env_vars: Vec<String>,
}

/// A named unit of work of a project.
#[derive(Debug, Clone)]
pub struct Target {
    pub command: String,
    /// Full addresses of targets (//path/to/project:target)
    pub depends_on: Vec<String>,
    pub capabilities: TextSet,
    pub files_glob: Option<String>,
    pub stream: bool,
    pub cache: Option<CacheConfig>,
    pub invalidates_cache: bool,
    pub working_dir: Option<String>,
    pub exclusive_resources: Vec<String>,
}

} // verus!
