//! What an aster.toml holds, and what makes it valid.
use vstd::prelude::*;
use crate::collections::TextMap;
use crate::config::project::{config_fault, validate_aster_config, ConfigError, TargetConfig};
use crate::config::workspace::{
    bare_affected, bare_dev, bare_watch, AffectedWorkspaceConfig, DevWorkspaceConfig, WatchWorkspaceConfig,
    WorkspaceConfig,
};
use crate::dev::services::dev_fault;
use crate::text::texts;

verus! {

/// Configuration from an aster.toml file
#[derive(Debug)]
pub struct AsterToml {
    /// Override project name (instead of inferring from native config)
    pub name: Option<String>,
    /// Cross-language dependencies: ["//services/platform:build"]
    pub depends_on: Vec<String>,
    /// Custom targets, by name
    pub targets: TextMap<TargetConfig>,
    /// Workspace discovery settings are accepted because a repository-root
    /// project may share this file with workspace configuration.
    pub ignore: Vec<String>,
    pub watch: WatchWorkspaceConfig,
    pub affected: AffectedWorkspaceConfig,
    pub dev: DevWorkspaceConfig,
}

/// Why an aster.toml is refused.
#[derive(Debug, PartialEq, Eq)]
pub enum AsterTomlError {
    /// What it says of projects
    Config(ConfigError),
    /// What it says of services
    Services(String),
}

/// What is wrong with an aster.toml: the projects come first.
pub open spec fn is_file_error(
    error: AsterTomlError,
    depends_on: Seq<Seq<char>>,
    targets: TextMap<TargetConfig>,
    dev: DevWorkspaceConfig,
    path: Seq<char>,
) -> bool {
    match config_fault(depends_on, targets) {
        Some(fault) => error matches AsterTomlError::Config(error) && error.fault() == fault && error.file() == path,
        None => error matches AsterTomlError::Services(message) && dev_fault(dev) == Some(message@),
    }
}

fn check_file(
    depends_on: &Vec<String>,
    targets: &TextMap<TargetConfig>,
    dev: &DevWorkspaceConfig,
    path: &str,
) -> (valid: Result<(), AsterTomlError>)
    ensures
        valid is Ok <==> config_fault(texts(depends_on@), *targets) is None && dev_fault(*dev) is None,
        valid matches Err(error) ==> is_file_error(error, texts(depends_on@), *targets, *dev, path@),
{
    if let Err(error) = validate_aster_config(depends_on, targets, path) {
        return Err(AsterTomlError::Config(error));
    }
    match dev.validate() {
        Ok(_) => Ok(()),
        Err(message) => Err(AsterTomlError::Services(message)),
    }
}

impl AsterToml {
    /// Check what the file says of projects, then what it says of services.
    pub fn validate(&self, path: &str) -> (valid: Result<(), AsterTomlError>)
        ensures
            valid is Ok <==> config_fault(texts(self.depends_on@), self.targets) is None && dev_fault(self.dev) is None,
            valid matches Err(error) ==> is_file_error(
                error,
                texts(self.depends_on@),
                self.targets,
                self.dev,
                path@,
            ),
    {
        check_file(&self.depends_on, &self.targets, &self.dev, path)
    }
}

impl Default for AsterToml {
    fn default() -> (config: AsterToml)
        ensures
            config.name is None,
            config.depends_on@.len() == 0,
            config.targets@ == Map::<Seq<char>, TargetConfig>::empty(),
            config.ignore@.len() == 0,
            bare_watch(config.watch),
            bare_affected(config.affected),
            bare_dev(config.dev),
    {
        AsterToml {
            name: None,
            depends_on: Vec::new(),
            targets: TextMap::new(),
            ignore: Vec::new(),
            watch: WatchWorkspaceConfig::default(),
            affected: AffectedWorkspaceConfig::default(),
            dev: DevWorkspaceConfig::default(),
        }
    }
}

impl Default for WorkspaceConfig {
    fn default() -> (config: WorkspaceConfig)
        ensures
            config.name is None,
            config.depends_on@.len() == 0,
            config.targets@ == Map::<Seq<char>, TargetConfig>::empty(),
            config.ignore@.len() == 0,
            bare_watch(config.watch),
            bare_affected(config.affected),
            bare_dev(config.dev),
    {
        WorkspaceConfig {
            ignore: Vec::new(),
            watch: WatchWorkspaceConfig::default(),
            affected: AffectedWorkspaceConfig::default(),
            dev: DevWorkspaceConfig::default(),
            name: None,
            depends_on: Vec::new(),
            targets: TextMap::new(),
        }
    }
}

} // verus!
