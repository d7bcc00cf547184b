use aster::collections::TextMap;
use aster::config::file::{AsterToml, AsterTomlError};
use aster::config::project::{
    find_aster_toml, validate_aster_config, AliasTargetConfig, CacheConfig, ConfigError, RichTargetConfig,
    TargetConfig,
};
use aster::config::workspace::{
    find_workspace_root, DetailedDevServiceGroupConfig, DevServiceGroupConfig, DirectoryMarks, WorkspaceConfig,
};

fn marks(path: &str, has_git: bool, has_aster_toml: bool) -> DirectoryMarks {
    DirectoryMarks {
        path: path.to_string(),
        has_git,
        has_aster_toml,
    }
}

fn rich(command: &str) -> RichTargetConfig {
    RichTargetConfig {
        command: command.to_string(),
        depends_on: Vec::new(),
        capabilities: Vec::new(),
        files_glob: None,
        stream: false,
        cache: None,
        invalidates_cache: false,
        exclusive_resources: Vec::new(),
    }
}

fn targets(name: &str, target: TargetConfig) -> TextMap<TargetConfig> {
    let mut map = TextMap::new();
    map.insert(name.to_string(), target);
    map
}

#[test]
fn the_root_is_the_nearest_git_directory() {
    let directories = vec![
        marks("/r/w/p", false, true),
        marks("/r/w", true, false),
        marks("/r", true, true),
        marks("/", false, false),
    ];
    assert_eq!(find_workspace_root(&directories).as_deref(), Some("/r/w"));
}

#[test]
fn without_git_the_root_is_the_highest_configuration() {
    let directories = vec![
        marks("/r/w/p", false, true),
        marks("/r/w", false, true),
        marks("/r", false, false),
    ];
    assert_eq!(find_workspace_root(&directories).as_deref(), Some("/r/w"));
    assert_eq!(find_workspace_root(&vec![marks("/", false, false)]), None);
    assert_eq!(find_workspace_root(&Vec::new()), None);
}

#[test]
fn project_files_are_found_where_they_exist() {
    assert_eq!(find_aster_toml("/w/a", true).as_deref(), Some("/w/a/aster.toml"));
    assert_eq!(find_aster_toml("/w/a", false), None);
}

#[test]
fn targets_say_what_they_are() {
    let simple = TargetConfig::Simple("npm test".to_string());
    assert_eq!(simple.command(), "npm test");
    assert!(simple.depends_on().is_empty() && !simple.stream() && !simple.is_alias());
    let alias = TargetConfig::Alias(AliasTargetConfig {
        alias: "test".to_string(),
        depends_on: vec!["//a:build".to_string()],
    });
    assert!(alias.is_alias());
    assert_eq!(alias.alias_target(), Some("test"));
    assert_eq!(alias.depends_on(), vec!["//a:build"]);
    let mut config = rich("npm run dev");
    config.stream = true;
    config.files_glob = Some("*.ts".to_string());
    config.exclusive_resources = vec!["db".to_string()];
    let rich = TargetConfig::Rich(config);
    assert!(rich.stream() && !rich.invalidates_cache());
    assert_eq!(rich.files_glob(), Some("*.ts"));
    assert_eq!(rich.exclusive_resources(), vec!["db"]);
    assert!(rich.cache().is_none());
    assert_eq!(rich.alias_target(), None);
}

#[test]
fn each_fault_of_a_configuration_is_named() {
    let path = "/w/aster.toml";
    let none = TextMap::new();
    let error = validate_aster_config(&vec!["services/api".to_string()], &none, path).unwrap_err();
    assert_eq!(
        error,
        ConfigError::Dependency {
            dependency: "services/api".to_string(),
            path: path.to_string()
        }
    );
    assert_eq!(error.to_string(), "Invalid dependency 'services/api' in /w/aster.toml");

    let mut config = rich("make");
    config.depends_on = vec!["build".to_string()];
    let error = validate_aster_config(&Vec::new(), &targets("test", TargetConfig::Rich(config)), path).unwrap_err();
    assert_eq!(
        error.to_string(),
        "Invalid dependency 'build' for target 'test' in /w/aster.toml"
    );

    let mut config = rich("make");
    config.capabilities = vec!["files_list".to_string(), "magic".to_string()];
    let error = validate_aster_config(&Vec::new(), &targets("test", TargetConfig::Rich(config)), path).unwrap_err();
    assert_eq!(
        error.to_string(),
        "Unsupported capability 'magic' for target 'test' in /w/aster.toml. Supported capabilities: files_list"
    );

    let mut config = rich("make");
    config.files_glob = Some("[".to_string());
    let error = validate_aster_config(&Vec::new(), &targets("test", TargetConfig::Rich(config)), path).unwrap_err();
    assert_eq!(
        error.to_string(),
        "Invalid files_glob '[' for target 'test' in /w/aster.toml"
    );

    let mut config = rich("make");
    config.cache = Some(CacheConfig {
        enabled: None,
        include_globs: vec!["**/*.ts".to_string()],
        exclude_globs: vec!["{".to_string()],
        env: Vec::new(),
        outputs: Vec::new(),
    });
    let error = validate_aster_config(&Vec::new(), &targets("test", TargetConfig::Rich(config)), path).unwrap_err();
    assert_eq!(
        error.to_string(),
        "Invalid cache glob '{' for target 'test' in /w/aster.toml"
    );

    let mut config = rich("make");
    config.depends_on = vec!["//self:build".to_string(), "//a:build".to_string()];
    assert!(validate_aster_config(
        &vec!["//services/api".to_string()],
        &targets("test", TargetConfig::Rich(config)),
        path
    )
    .is_ok());
}

#[test]
fn files_are_checked_as_a_whole() {
    let mut file = AsterToml::default();
    assert_eq!(file.validate("/w/aster.toml"), Ok(()));
    file.dev.service_groups.insert(
        "all".to_string(),
        DevServiceGroupConfig::Services(vec!["gone".to_string()]),
    );
    assert_eq!(
        file.validate("/w/aster.toml"),
        Err(AsterTomlError::Services(
            "service group 'all' references unknown service 'gone'".to_string()
        ))
    );
    file.depends_on = vec!["api".to_string()];
    assert!(matches!(
        file.validate("/w/aster.toml"),
        Err(AsterTomlError::Config(ConfigError::Dependency { .. }))
    ));
    let workspace = WorkspaceConfig::default();
    assert!(workspace.ignore.is_empty() && workspace.watch.debounce_ms.is_none());
}

#[test]
fn groups_may_have_a_port_of_their_own() {
    let plain = DevServiceGroupConfig::Services(vec!["api".to_string()]);
    assert_eq!(plain.services(), &vec!["api".to_string()]);
    assert_eq!(plain.control_port(), None);
    let detailed = DevServiceGroupConfig::Detailed(DetailedDevServiceGroupConfig {
        services: vec!["web".to_string()],
        control_port: Some("control".to_string()),
    });
    assert_eq!(detailed.services(), &vec!["web".to_string()]);
    assert_eq!(detailed.control_port(), Some(&"control".to_string()));
}
