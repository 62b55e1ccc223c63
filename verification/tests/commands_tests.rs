use task_marshal::commands::{consulted, Gathered};
use task_marshal::config::{BeadsSourceConfig, Config, GithubSourceConfig, LocalSourceConfig, SourcesConfig};
use task_marshal::identity::{NativeId, SourceKey, TaskId};
use task_marshal::selection::{SelectionFilter, TaskSelector};
use task_marshal::sources::{SourceError, SourceRegistry};
use task_marshal::{Priority, TaskState, TaskSummary};

fn registry() -> SourceRegistry {
    let c = Config {
        sources: SourcesConfig {
            priority: vec![SourceKey::Local, SourceKey::Beads, SourceKey::Github],
            local: Some(LocalSourceConfig { path: "/p/.llm/tasks.md".to_string() }),
            beads: Some(BeadsSourceConfig { beads_dir: None }),
            github: Some(GithubSourceConfig { repo: "o/r".to_string(), labels: Vec::new() }),
        },
        config_dir: "/p".to_string(),
    };
    SourceRegistry::from_config(&c).unwrap()
}

fn summary(key: SourceKey, native: &str, prio: u32) -> TaskSummary {
    TaskSummary {
        id: TaskId { source_key: key, native_id: NativeId(native.to_string()) },
        source_key: key,
        priority: Priority(prio),
        role: None,
        title: native.to_string(),
        state: TaskState::Unstarted,
    }
}

fn filter(source: Option<SourceKey>) -> SelectionFilter {
    SelectionFilter { role: None, source_key: source, include_all: false }
}

#[test]
fn consulted_sources_follow_priority() {
    let reg = registry();
    assert_eq!(consulted(&reg, &filter(None)), vec![0, 1, 2]);
    assert_eq!(consulted(&reg, &filter(Some(SourceKey::Github))), vec![2]);
    assert_eq!(consulted(&reg, &filter(Some(SourceKey::Beads))), vec![1]);
}

#[test]
fn gathered_answers_become_candidates() {
    let mut g = Gathered::new();
    g.record(0, SourceKey::Local, Ok(vec![summary(SourceKey::Local, "TASK-1", 1), summary(SourceKey::Local, "TASK-2", 0)]));
    g.record(1, SourceKey::Beads, Err(SourceError::Unavailable { message: "bd exited with status 1".to_string() }));
    g.record(2, SourceKey::Github, Ok(vec![summary(SourceKey::Github, "9", 0)]));
    assert_eq!(g.candidates.len(), 3);
    assert_eq!(g.candidates[0].source_order, 0);
    assert_eq!(g.candidates[2].source_order, 2);
    assert_eq!(g.failures.len(), 1);
    assert_eq!(g.failures[0].0, SourceKey::Beads);
    let chosen = TaskSelector::select(g.candidates, &filter(None)).unwrap();
    assert_eq!(chosen.id.to_string(), "local:TASK-2");
}

#[test]
fn gathered_summaries_keep_order() {
    let mut g = Gathered::new();
    g.record(1, SourceKey::Beads, Ok(vec![summary(SourceKey::Beads, "bd-2", 3)]));
    g.record(0, SourceKey::Local, Ok(vec![summary(SourceKey::Local, "A", 1), summary(SourceKey::Local, "B", 2)]));
    let ids: Vec<String> = g.summaries().iter().map(|s| s.id.to_string()).collect();
    assert_eq!(ids, vec!["beads:bd-2", "local:A", "local:B"]);
}

#[test]
fn nothing_gathered_selects_nothing() {
    let mut g = Gathered::new();
    g.record(0, SourceKey::Local, Err(SourceError::Io { message: "denied".to_string() }));
    assert!(g.candidates.is_empty());
    assert!(TaskSelector::select(g.candidates, &filter(None)).is_err());
}
