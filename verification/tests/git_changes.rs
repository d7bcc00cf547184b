use aster::collections::{TextMap, TextSet};
use aster::config::workspace::{AffectedLaneConfig, AffectedWorkspaceConfig};
use aster::discovery::scanner::DiscoveredProject;
use aster::git::affected::{all_affected_files, changed_files, comparison, ChangedPaths};
use aster::git::file_owner::{affected_with_dependents, files_to_projects};
use aster::git::lane::{select_affected_lane, LaneError};
use aster::graph::builder::build_graph;
use aster::plugins::{LocalDependency, ProjectMetadata};

fn set(items: &[&str]) -> TextSet {
    let mut set = TextSet::new();
    for item in items {
        set.insert(item.to_string());
    }
    set
}

fn project(path: &str, dependencies: &[&str]) -> DiscoveredProject {
    DiscoveredProject {
        root: format!("/w/{path}"),
        config_path: format!("/w/{path}/package.json"),
        metadata: ProjectMetadata {
            name: path.to_string(),
            version: None,
        },
        dependencies: dependencies
            .iter()
            .map(|path| LocalDependency {
                name: path.to_string(),
                path: path.to_string(),
            })
            .collect(),
        targets: TextMap::new(),
        plugin_name: "nodejs".to_string(),
        relative_path: path.to_string(),
    }
}

fn lanes(list: &[(&str, &[&str], &[&str])]) -> AffectedWorkspaceConfig {
    let texts = |items: &[&str]| items.iter().map(|item| item.to_string()).collect::<Vec<_>>();
    let mut config = AffectedWorkspaceConfig::default();
    for (name, includes, excludes) in list {
        config.lanes.insert(
            name.to_string(),
            AffectedLaneConfig {
                includes: texts(includes),
                excludes: texts(excludes),
            },
        );
    }
    config
}

#[test]
fn without_a_head_the_working_tree_counts() {
    let given = comparison(Some("feature"));
    assert_eq!(given.head, "feature");
    assert!(!given.from_merge_base && !given.with_uncommitted);
    let own = comparison(None);
    assert_eq!(own.head, "HEAD");
    assert!(own.from_merge_base && own.with_uncommitted);
}

#[test]
fn renamed_files_count_under_both_names() {
    let changes = vec![
        ChangedPaths {
            old: Some("a".to_string()),
            new: Some("b".to_string()),
        },
        ChangedPaths {
            old: None,
            new: Some("c".to_string()),
        },
        ChangedPaths {
            old: Some("d".to_string()),
            new: None,
        },
    ];
    let between = changed_files(&changes);
    assert_eq!(between.to_vec(), vec!["a", "b", "c", "d"]);
    assert_eq!(
        all_affected_files(&between, Some(&set(&["e", "a"]))).to_vec(),
        vec!["a", "b", "c", "d", "e"]
    );
    assert_eq!(all_affected_files(&between, None), between);
}

#[test]
fn changes_reach_the_projects_that_depend_on_them() {
    let projects = vec![
        project("libs/core", &[]),
        project("libs/core/nested", &[]),
        project("apps/web", &["//libs/core"]),
        project("apps/shell", &["//apps/web"]),
    ];
    let direct = files_to_projects(&set(&["libs/core/src/a.ts", "README.md"]), &projects);
    assert_eq!(direct.to_vec(), vec!["//libs/core"]);
    let graph = build_graph(&projects).unwrap();
    let all = affected_with_dependents(direct, &graph);
    assert_eq!(all.to_vec(), vec!["//apps/shell", "//apps/web", "//libs/core"]);
}

#[test]
fn lanes_select_among_the_affected_projects() {
    let projects = vec![project("a/one", &[]), project("a/two", &[]), project("b", &[])];
    let config = lanes(&[
        ("front", &["//a/..."], &["//a/two"]),
        ("bad", &["a"], &[]),
        ("none", &["//gone/..."], &[]),
    ]);
    let affected = set(&["//a/one", "//a/two", "//b"]);
    assert_eq!(
        select_affected_lane("front", &config, &affected, &projects).unwrap().to_vec(),
        vec!["//a/one"]
    );
    let error = select_affected_lane("other", &config, &affected, &projects).unwrap_err();
    assert_eq!(
        error.to_string(),
        "unknown affected lane 'other'; configured lanes: bad, front, none"
    );
    let error = select_affected_lane("other", &lanes(&[]), &affected, &projects).unwrap_err();
    assert_eq!(
        error.to_string(),
        "unknown affected lane 'other'; no lanes are configured"
    );
    let error = select_affected_lane("bad", &config, &affected, &projects).unwrap_err();
    assert!(matches!(error, LaneError::InvalidSelector { .. }));
    assert_eq!(
        error.to_string(),
        "invalid selector 'a' in affected lane 'bad' include: project selector must start with '//': 'a'"
    );
    let error = select_affected_lane("none", &config, &affected, &projects).unwrap_err();
    assert_eq!(
        error.to_string(),
        "selector '//gone/...' in affected lane 'none' include matches no projects"
    );
}
