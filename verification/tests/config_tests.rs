use task_marshal::config::{
    ConfigError, ConfigLoader, RawBeads, RawConfig, RawGithub, RawLocal, CONFIG_FILE_NAME,
    DEFAULT_LOCAL_PATH,
};
use task_marshal::identity::SourceKey;

fn strings(v: &[&str]) -> Vec<String> {
    v.iter().map(|s| s.to_string()).collect()
}

fn all_sources() -> RawConfig {
    RawConfig {
        priority: Some(strings(&["local", "beads", "gh"])),
        local: Some(RawLocal { path: Some(".llm/tasks.md".to_string()) }),
        beads: Some(RawBeads { beads_dir: Some(".beads".to_string()) }),
        github: Some(RawGithub { repo: Some("owner/repo".to_string()), labels: Some(strings(&["agent-task"])) }),
    }
}

fn invalid(r: Result<task_marshal::config::Config, ConfigError>) -> bool {
    matches!(r, Err(ConfigError::Invalid { .. }))
}

#[test]
fn constants() {
    assert_eq!(CONFIG_FILE_NAME, "task-marshal.toml");
    assert_eq!(DEFAULT_LOCAL_PATH, ".llm/tasks.md");
}

#[test]
fn load_all_sources() {
    let c = ConfigLoader::load_from_path("/project/task-marshal.toml", all_sources()).unwrap();
    assert_eq!(c.config_dir, "/project");
    assert_eq!(c.sources.priority, vec![SourceKey::Local, SourceKey::Beads, SourceKey::Github]);
    assert_eq!(c.sources.local.as_ref().unwrap().path, "/project/.llm/tasks.md");
    assert_eq!(c.sources.beads.as_ref().unwrap().beads_dir.as_deref(), Some("/project/.beads"));
    let gh = c.sources.github.as_ref().unwrap();
    assert_eq!(gh.repo, "owner/repo");
    assert_eq!(gh.labels, strings(&["agent-task"]));
}

#[test]
fn load_without_local_section() {
    let mut raw = all_sources();
    raw.local = None;
    let c = ConfigLoader::load_from_path("/project/task-marshal.toml", raw).unwrap();
    assert!(c.sources.local.is_none());
    assert!(c.sources.beads.is_some());
}

#[test]
fn load_defaults() {
    let raw = RawConfig {
        priority: None,
        local: Some(RawLocal { path: None }),
        beads: Some(RawBeads { beads_dir: None }),
        github: Some(RawGithub { repo: Some("o/r".to_string()), labels: None }),
    };
    let c = ConfigLoader::load_from_path("/p/task-marshal.toml", raw).unwrap();
    assert_eq!(c.sources.priority, vec![SourceKey::Local, SourceKey::Beads, SourceKey::Github]);
    assert_eq!(c.sources.local.as_ref().unwrap().path, "/p/.llm/tasks.md");
    assert!(c.sources.beads.as_ref().unwrap().beads_dir.is_none());
    assert!(c.sources.github.as_ref().unwrap().labels.is_empty());
}

#[test]
fn load_deduplicates_priority() {
    let mut raw = all_sources();
    raw.priority = Some(strings(&["local", "local", "gh", "local"]));
    let c = ConfigLoader::load_from_path("/p/task-marshal.toml", raw).unwrap();
    assert_eq!(c.sources.priority, vec![SourceKey::Local, SourceKey::Github]);
}

#[test]
fn load_rejects_unknown_priority_key() {
    let mut raw = all_sources();
    raw.priority = Some(strings(&["local", "github"]));
    assert!(invalid(ConfigLoader::load_from_path("/p/task-marshal.toml", raw)));
}

#[test]
fn load_rejects_missing_repo() {
    let mut raw = all_sources();
    raw.github = Some(RawGithub { repo: None, labels: None });
    match ConfigLoader::load_from_path("/p/task-marshal.toml", raw) {
        Err(ConfigError::Invalid { message }) => assert_eq!(message, "sources.gh.repo is required"),
        other => panic!("unexpected {other:?}"),
    }
}

#[test]
fn load_reports_first_broken_rule() {
    let mut raw = all_sources();
    raw.priority = Some(strings(&["nope"]));
    raw.local = Some(RawLocal { path: Some("../x".to_string()) });
    match ConfigLoader::load_from_path("/p/task-marshal.toml", raw) {
        Err(ConfigError::Invalid { message }) => {
            assert_eq!(message, "sources.priority names an unknown source key")
        }
        other => panic!("unexpected {other:?}"),
    }
    let mut raw = all_sources();
    raw.local = Some(RawLocal { path: Some("../x".to_string()) });
    raw.github = Some(RawGithub { repo: None, labels: None });
    match ConfigLoader::load_from_path("/p/task-marshal.toml", raw) {
        Err(ConfigError::Invalid { message }) => {
            assert_eq!(message, "sources.local.path escapes the project directory")
        }
        other => panic!("unexpected {other:?}"),
    }
}

#[test]
fn load_rejects_bad_repo_format() {
    for repo in ["ownerrepo", "a/b/c", "/repo", "owner/", ""] {
        let mut raw = all_sources();
        raw.github = Some(RawGithub { repo: Some(repo.to_string()), labels: None });
        assert!(invalid(ConfigLoader::load_from_path("/p/task-marshal.toml", raw)), "repo {repo:?}");
    }
}

#[test]
fn load_rejects_path_traversal() {
    let mut raw = all_sources();
    raw.local = Some(RawLocal { path: Some("../../etc/passwd".to_string()) });
    assert!(invalid(ConfigLoader::load_from_path("/project/task-marshal.toml", raw)));
    let mut raw = all_sources();
    raw.local = Some(RawLocal { path: Some("/etc/passwd".to_string()) });
    assert!(invalid(ConfigLoader::load_from_path("/project/task-marshal.toml", raw)));
    let mut raw = all_sources();
    raw.beads = Some(RawBeads { beads_dir: Some("..".to_string()) });
    assert!(invalid(ConfigLoader::load_from_path("/project/task-marshal.toml", raw)));
    let mut raw = all_sources();
    raw.local = Some(RawLocal { path: Some(".".to_string()) });
    assert!(invalid(ConfigLoader::load_from_path("/project/task-marshal.toml", raw)));
}

#[test]
fn load_normalises_paths_inside_the_project() {
    let mut raw = all_sources();
    raw.local = Some(RawLocal { path: Some("./docs/../.llm//tasks.md".to_string()) });
    let c = ConfigLoader::load_from_path("/project/task-marshal.toml", raw).unwrap();
    assert_eq!(c.sources.local.unwrap().path, "/project/.llm/tasks.md");
    let mut raw = all_sources();
    raw.local = Some(RawLocal { path: Some("/project/sub/tasks.md".to_string()) });
    let c = ConfigLoader::load_from_path("/project/task-marshal.toml", raw).unwrap();
    assert_eq!(c.sources.local.unwrap().path, "/project/sub/tasks.md");
}

#[test]
fn config_candidates_walk_up() {
    let c = ConfigLoader::config_candidates("/project/src/module");
    assert_eq!(
        c,
        strings(&[
            "/project/src/module/task-marshal.toml",
            "/project/src/task-marshal.toml",
            "/project/task-marshal.toml",
            "/task-marshal.toml",
        ])
    );
    assert_eq!(ConfigLoader::config_candidates("/"), strings(&["/task-marshal.toml"]));
}

#[test]
fn discover_finds_ancestor_config() {
    let found = ConfigLoader::discover_config_path("/project/src/module", &vec![false, false, true, false]);
    assert_eq!(found.unwrap(), "/project/task-marshal.toml");
    let found = ConfigLoader::discover_config_path("/project/src/module", &vec![false, true, true]);
    assert_eq!(found.unwrap(), "/project/src/task-marshal.toml");
}

#[test]
fn discover_without_config_is_not_found() {
    match ConfigLoader::discover_config_path("/project/src", &vec![false, false, false]) {
        Err(ConfigError::NotFound { start_dir }) => assert_eq!(start_dir, "/project/src"),
        other => panic!("unexpected {other:?}"),
    }
    assert!(matches!(
        ConfigLoader::discover_config_path("/project/src", &Vec::new()),
        Err(ConfigError::NotFound { .. })
    ));
}

#[test]
fn relative_config_path_keeps_leading_parent() {
    let mut raw = all_sources();
    raw.local = Some(RawLocal { path: Some("../../etc/passwd".to_string()) });
    match ConfigLoader::load_from_path("../task-marshal.toml", raw) {
        Err(ConfigError::Invalid { message }) => {
            assert_eq!(message, "sources.local.path escapes the project directory")
        }
        other => panic!("unexpected {other:?}"),
    }
    let c = ConfigLoader::load_from_path("../task-marshal.toml", all_sources()).unwrap();
    assert_eq!(c.config_dir, "..");
    assert_eq!(c.sources.local.unwrap().path, "../.llm/tasks.md");
    assert_eq!(c.sources.beads.unwrap().beads_dir.as_deref(), Some("../.beads"));
    let mut raw = all_sources();
    raw.beads = Some(RawBeads { beads_dir: Some("../.beads".to_string()) });
    assert!(invalid(ConfigLoader::load_from_path("../task-marshal.toml", raw)));
}

#[test]
fn absolute_config_path_drops_parent_at_top() {
    let c = ConfigLoader::load_from_path("/../project/task-marshal.toml", all_sources()).unwrap();
    assert_eq!(c.config_dir, "/project");
}

#[test]
fn config_path_must_name_a_file() {
    for p in ["", "/", "a/..", "../.."] {
        match ConfigLoader::load_from_path(p, all_sources()) {
            Err(ConfigError::Invalid { message }) => {
                assert_eq!(message, "the configuration path names no file", "path {p:?}")
            }
            other => panic!("unexpected {other:?} for {p:?}"),
        }
    }
}

#[test]
fn config_candidates_for_relative_start() {
    assert_eq!(
        ConfigLoader::config_candidates("../a"),
        strings(&["../a/task-marshal.toml", "../task-marshal.toml", "task-marshal.toml"])
    );
    assert_eq!(
        ConfigLoader::config_candidates("../../x/.."),
        strings(&["../../task-marshal.toml", "../task-marshal.toml", "task-marshal.toml"])
    );
}

#[test]
fn resolved_paths_must_stay_inside() {
    assert!(ConfigLoader::check_resolved("/project", "/project/.llm/tasks.md").is_ok());
    assert!(ConfigLoader::check_resolved("/project/", "/project/./a").is_ok());
    for outside in ["/etc/passwd", "/project", "/projectx/a", "/project/../etc", "relative/a"] {
        match ConfigLoader::check_resolved("/project", outside) {
            Err(ConfigError::Invalid { message }) => {
                assert_eq!(message, "a configured path leads outside the project directory", "path {outside:?}")
            }
            other => panic!("unexpected {other:?} for {outside:?}"),
        }
    }
}
