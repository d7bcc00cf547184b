use aster::collections::{TextMap, TextSet};
use aster::config::project::{AliasTargetConfig, TargetConfig};
use aster::discovery::placeholders::{
    resolve_ruby_workspace_dependencies_partial, resolve_umbrella_dependencies_partial,
    resolve_uv_workspace_dependencies_partial,
};
use aster::discovery::scanner::{
    build_ignore_set, discovered_path, merge_overrides, project_address, DiscoveryError, PartialProject,
    ProjectOverrides,
};
use aster::discovery::validation::{discover_projects, resolve_workspace_dependencies};
use aster::plugins::{LocalDependency, ProjectMetadata, Target};

fn partial(path: &str, name: &str, plugin: &str, dependencies: &[(&str, &str)]) -> PartialProject {
    PartialProject {
        root: format!("/w/{path}"),
        config_path: format!("/w/{path}/config"),
        metadata: ProjectMetadata {
            name: name.to_string(),
            version: None,
        },
        dependencies: dependencies
            .iter()
            .map(|(name, path)| LocalDependency {
                name: name.to_string(),
                path: path.to_string(),
            })
            .collect(),
        custom_targets: TextMap::new(),
        explicit_target_dependencies: Vec::new(),
        plugin_name: plugin.to_string(),
        relative_path: path.to_string(),
    }
}

fn target(depends_on: &[&str]) -> Target {
    Target {
        command: "make".to_string(),
        depends_on: depends_on.iter().map(|s| s.to_string()).collect(),
        capabilities: TextSet::new(),
        files_glob: None,
        stream: false,
        cache: None,
        invalidates_cache: false,
        working_dir: None,
        exclusive_resources: Vec::new(),
    }
}

fn targets(list: &[(&str, &[&str])]) -> TextMap<Target> {
    let mut map = TextMap::new();
    for (name, depends_on) in list {
        map.insert(name.to_string(), target(depends_on));
    }
    map
}

fn overrides(depends_on: &[&str], custom: Vec<(&str, TargetConfig)>) -> ProjectOverrides {
    let mut map = TextMap::new();
    for (name, config) in custom {
        map.insert(name.to_string(), config);
    }
    ProjectOverrides {
        name: None,
        depends_on: depends_on.iter().map(|s| s.to_string()).collect(),
        targets: map,
    }
}

fn alias(name: &str, depends_on: &[&str]) -> TargetConfig {
    TargetConfig::Alias(AliasTargetConfig {
        alias: name.to_string(),
        depends_on: depends_on.iter().map(|s| s.to_string()).collect(),
    })
}

#[test]
fn projects_are_addressed_by_path() {
    assert_eq!(project_address("services/api"), "//services/api");
    let none = build_ignore_set(&Vec::new()).unwrap();
    assert_eq!(
        discovered_path("/w", "/w/services/api", &none).as_deref(),
        Some("services/api")
    );
    assert_eq!(discovered_path("/w", "/other", &none).as_deref(), Some("/other"));
}

#[test]
fn ignored_projects_are_left_out() {
    let set = build_ignore_set(&vec!["vendor/**".to_string(), "**/examples/*".to_string()]).unwrap();
    assert_eq!(discovered_path("/w", "/w/vendor/lib", &set), None);
    assert_eq!(discovered_path("/w", "/w/a/examples/one", &set), None);
    assert_eq!(discovered_path("/w", "/w/src/a", &set).as_deref(), Some("src/a"));
    match build_ignore_set(&vec!["ok".to_string(), "a[".to_string()]) {
        Err(error) => assert_eq!(error.to_string(), "Invalid ignore pattern: a["),
        Ok(_) => panic!("the pattern is malformed"),
    }
}

#[test]
fn placeholders_stand_for_projects_of_the_workspace() {
    let mut projects = vec![
        partial("apps/core", "core", "elixir", &[]),
        partial(
            "apps/web",
            "web",
            "elixir",
            &[
                ("core", "in_umbrella:core"),
                ("gone", "in_umbrella:gone"),
                ("lib", "../lib"),
            ],
        ),
        partial("tools/core", "core", "nodejs", &[("core", "in_umbrella:core")]),
    ];
    resolve_umbrella_dependencies_partial(&mut projects);
    let paths = projects[1]
        .dependencies
        .iter()
        .map(|dependency| dependency.path.as_str())
        .collect::<Vec<_>>();
    assert_eq!(paths, vec!["//apps/core", "in_umbrella:gone", "../lib"]);
    assert_eq!(projects[2].dependencies[0].path, "in_umbrella:core");

    let mut projects = vec![
        partial("py/a", "a", "python", &[("b", "uv_workspace:b")]),
        partial("py/b", "b", "python", &[]),
    ];
    resolve_uv_workspace_dependencies_partial(&mut projects);
    assert_eq!(projects[0].dependencies[0].path, "//py/b");
}

#[test]
fn gems_outside_the_workspace_are_dropped() {
    let mut projects = vec![
        partial(
            "gems/a",
            "a",
            "ruby",
            &[("b", "ruby_workspace:b"), ("rails", "ruby_workspace:rails")],
        ),
        partial("gems/b", "b", "ruby", &[]),
    ];
    resolve_ruby_workspace_dependencies_partial(&mut projects);
    assert_eq!(projects[0].dependencies.len(), 1);
    assert_eq!(projects[0].dependencies[0].path, "//gems/b");
    let mut again = vec![
        partial("gems/a", "a", "ruby", &[("b", "ruby_workspace:b")]),
        partial("gems/b", "b", "ruby", &[]),
    ];
    resolve_workspace_dependencies(&mut again);
    assert_eq!(again[0].dependencies[0].path, "//gems/b");
}

#[test]
fn configuration_is_merged_into_a_project() {
    let mut project = partial("a", "a", "nodejs", &[("b", "../b")]);
    let mut given = overrides(
        &["//c:lint", "//d"],
        vec![
            ("check", alias("//self:lint", &["//self:build"])),
            ("go", alias("build", &[])),
        ],
    );
    given.name = Some("renamed".to_string());
    merge_overrides(&mut project, given).unwrap();
    assert_eq!(project.metadata.name, "renamed");
    assert_eq!(project.dependencies.len(), 3);
    assert_eq!(project.dependencies[1].path, "//c:lint");
    let required = |source: &str, dependency: &str| (source.to_string(), dependency.to_string());
    assert_eq!(
        project.explicit_target_dependencies,
        vec![
            required("project //a", "//c:build"),
            required("project //a", "//d:build"),
            required("target //a:check", "//a:lint"),
            required("target //a:check", "//a:build"),
            required("target //a:go", "//a:build"),
        ]
    );
    assert_eq!(project.custom_targets.len(), 2);
}

#[test]
fn aliases_stay_in_their_project() {
    let mut project = partial("a", "a", "nodejs", &[]);
    let error = merge_overrides(&mut project, overrides(&[], vec![("go", alias("//b:build", &[]))])).unwrap_err();
    assert!(matches!(error, DiscoveryError::ExternalAlias { .. }));
    assert_eq!(
        error.to_string(),
        "target //a:go has external alias source //b:build; aliases must use a local target name or //self:<target>"
    );
}

#[test]
fn names_that_collide_get_their_plugin() {
    let found = vec![
        partial("a", "api", "nodejs", &[]),
        partial("b", "api", "python", &[]),
        partial("c", "web", "nodejs", &[]),
    ];
    let none = vec![TextMap::new(), TextMap::new(), TextMap::new()];
    let projects = discover_projects(found, none).unwrap();
    let names = projects
        .iter()
        .map(|project| project.metadata.name.as_str())
        .collect::<Vec<_>>();
    assert_eq!(names, vec!["api-nodejs", "api-python", "web"]);
}

#[test]
fn projects_need_an_address_of_their_own() {
    let found = vec![partial("a", "one", "nodejs", &[]), partial("a", "two", "python", &[])];
    let error = discover_projects(found, vec![TextMap::new(), TextMap::new()]).unwrap_err();
    assert_eq!(
        error.to_string(),
        "Multiple projects resolve to //a: /w/a/config (nodejs) and /w/a/config (python). Put each language project in its own directory."
    );
}

#[test]
fn named_targets_must_exist_and_inferred_ones_are_dropped() {
    let found = vec![partial("a", "a", "nodejs", &[]), partial("b", "b", "nodejs", &[])];
    let projects = discover_projects(
        found,
        vec![
            targets(&[("build", &["//b:build", "//b:test"])]),
            targets(&[("test", &[])]),
        ],
    )
    .unwrap();
    assert_eq!(projects[0].targets.get("build").unwrap().depends_on, vec!["//b:test"]);

    let mut named = partial("a", "a", "nodejs", &[]);
    merge_overrides(&mut named, overrides(&["//b"], Vec::new())).unwrap();
    let error = discover_projects(
        vec![named, partial("b", "b", "nodejs", &[])],
        vec![targets(&[("build", &[])]), targets(&[("test", &[])])],
    )
    .unwrap_err();
    assert!(matches!(error, DiscoveryError::MissingTarget { .. }));
    assert_eq!(error.to_string(), "project //a depends on missing target //b:build");
}
