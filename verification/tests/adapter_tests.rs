use task_marshal::config::{
    BeadsSourceConfig, Config, GithubSourceConfig, LocalSourceConfig, SourcesConfig,
};
use task_marshal::identity::{NativeId, SourceKey};
use task_marshal::selection::SelectionFilter;
use task_marshal::sources::beads::{BeadsIssue, BeadsSource};
use task_marshal::sources::github::{CompletionStep, GithubIssue, GithubSource};
use task_marshal::sources::{
    check_read, check_write, exit_message_of, Invocation, SourceAdapter, SourceError,
    SourceRegistry, SubprocessOutput,
};
use task_marshal::{Priority, TaskState};

fn args(inv: &Invocation) -> Vec<&str> {
    inv.args.iter().map(|s| s.as_str()).collect()
}

fn out(code: i32) -> SubprocessOutput {
    SubprocessOutput { stdout: Vec::new(), stderr: Vec::new(), exit_code: code }
}

fn issue(id: &str, status: Option<&str>, priority: Option<i64>) -> BeadsIssue {
    BeadsIssue {
        id: id.to_string(),
        title: format!("Issue {id}"),
        description: Some("Do the thing.".to_string()),
        acceptance_criteria: None,
        priority,
        role: Some("coder".to_string()),
        status: status.map(|s| s.to_string()),
        dependencies: vec!["bd-0".to_string()],
        notes: Some(String::new()),
    }
}

fn gh_issue(number: u64, state: &str, assignees: usize) -> GithubIssue {
    GithubIssue {
        number,
        title: format!("Issue {number}"),
        body: Some("Body text".to_string()),
        state: state.to_string(),
        assignee_count: assignees,
    }
}

fn gh_source() -> GithubSource {
    GithubSource::new(GithubSourceConfig {
        repo: "owner/repo".to_string(),
        labels: vec!["agent-task".to_string(), "ready".to_string()],
    })
}

#[test]
fn exit_messages() {
    assert_eq!(exit_message_of("bd", 1), "bd exited with status 1");
    assert_eq!(exit_message_of("gh", -2), "gh exited with status -2");
    assert!(check_read("bd", &out(0)).is_ok());
    match check_read("bd", &out(3)) {
        Err(SourceError::Unavailable { message }) => assert_eq!(message, "bd exited with status 3"),
        other => panic!("unexpected {other:?}"),
    }
    match check_write("bd", &out(1)) {
        Err(SourceError::Io { message }) => assert_eq!(message, "bd exited with status 1"),
        other => panic!("unexpected {other:?}"),
    }
    assert!(check_write("bd", &out(0)).is_ok());
}

#[test]
fn beads_invocations() {
    let s = BeadsSource::new(BeadsSourceConfig { beads_dir: None });
    let l = s.list_invocation();
    assert_eq!(l.program, "bd");
    assert_eq!(args(&l), vec!["ready", "--json"]);
    assert!(l.env_vars.is_empty());
    let g = s.get_invocation(&NativeId("bd-a1b2".to_string()));
    assert_eq!(args(&g), vec!["show", "bd-a1b2", "--json"]);
    let c = s.complete_invocation(&NativeId("bd-a1b2".to_string()), None);
    assert_eq!(args(&c), vec!["close", "bd-a1b2"]);
    let c = s.complete_invocation(&NativeId("bd-a1b2".to_string()), Some(""));
    assert_eq!(args(&c), vec!["close", "bd-a1b2"]);
    let c = s.complete_invocation(&NativeId("bd-a1b2".to_string()), Some("shipped; see PR"));
    assert_eq!(args(&c), vec!["close", "bd-a1b2", "--comment", "shipped; see PR"]);
}

#[test]
fn beads_dir_sets_environment() {
    let s = BeadsSource::new(BeadsSourceConfig { beads_dir: Some("/project/.beads".to_string()) });
    let l = s.list_invocation();
    assert_eq!(l.env_vars, vec![("BEADS_DIR".to_string(), "/project/.beads".to_string())]);
    let c = s.complete_invocation(&NativeId("x".to_string()), None);
    assert_eq!(c.env_vars.len(), 1);
}

#[test]
fn beads_record_mapping() {
    let t = BeadsSource::task_from(&issue("bd-a1b2", Some("in_progress"), Some(1))).unwrap();
    assert_eq!(t.id.to_string(), "beads:bd-a1b2");
    assert_eq!(t.title, "Issue bd-a1b2");
    assert_eq!(t.description, "Do the thing.");
    assert_eq!(t.acceptance_criteria, "");
    assert_eq!(t.state, TaskState::InProgress);
    assert_eq!(t.priority, Priority(1));
    assert_eq!(t.role.as_ref().unwrap().0, "coder");
    assert_eq!(t.dependencies.len(), 1);
    assert_eq!(t.dependencies[0].0 .0, "bd-0");
    assert!(t.context_notes.is_none());
}

#[test]
fn beads_status_and_priority_mapping() {
    let st = |s: Option<&str>| BeadsSource::task_from(&issue("bd-1", s, None)).unwrap().state;
    assert_eq!(st(None), TaskState::Unstarted);
    assert_eq!(st(Some("open")), TaskState::Unstarted);
    assert_eq!(st(Some("OPEN")), TaskState::Unstarted);
    assert_eq!(st(Some("blocked")), TaskState::Blocked);
    assert_eq!(st(Some("closed")), TaskState::Done);
    assert_eq!(BeadsSource::task_from(&issue("bd-1", None, None)).unwrap().priority, Priority(2));
    match BeadsSource::task_from(&issue("bd-1", Some("weird"), Some(-1))) {
        Err(SourceError::Parse { message }) => assert_eq!(message, "a bd record has an unknown status"),
        other => panic!("unexpected {other:?}"),
    }
    match BeadsSource::task_from(&issue("bd-1", None, Some(1 << 40))) {
        Err(SourceError::Parse { message }) => assert_eq!(message, "a bd record has an out-of-range priority"),
        other => panic!("unexpected {other:?}"),
    }
    assert!(matches!(BeadsSource::task_from(&issue("bd-1", None, Some(-1))), Err(SourceError::Parse { .. })));
    assert!(matches!(BeadsSource::task_from(&issue("", None, None)), Err(SourceError::Parse { .. })));
    assert!(matches!(BeadsSource::task_from(&issue("a:b", None, None)), Err(SourceError::Parse { .. })));
}

#[test]
fn beads_summaries_filter() {
    let issues = vec![
        issue("bd-1", Some("open"), Some(3)),
        issue("bd-2", Some("closed"), Some(0)),
        issue("bd-3", None, None),
    ];
    let list = BeadsSource::summaries_from(&issues, &SelectionFilter::default()).unwrap();
    let ids: Vec<String> = list.iter().map(|s| s.id.to_string()).collect();
    assert_eq!(ids, vec!["beads:bd-1", "beads:bd-3"]);
    let bad = vec![issue("bd-1", None, None), issue("", Some("???"), None), issue("bd-3", Some("???"), None)];
    match BeadsSource::summaries_from(&bad, &SelectionFilter::default()) {
        Err(SourceError::Parse { message }) => assert_eq!(message, "a bd record has an unusable id"),
        other => panic!("unexpected {other:?}"),
    }
}

#[test]
fn github_invocations() {
    let s = gh_source();
    let l = s.list_invocation();
    assert_eq!(l.program, "gh");
    assert_eq!(
        args(&l),
        vec![
            "issue", "list", "--repo", "owner/repo", "--label", "agent-task", "--label", "ready",
            "--json", "number,title,state,labels,assignees", "--state", "open",
        ]
    );
    let g = s.get_invocation(&NativeId("187".to_string()));
    assert_eq!(
        args(&g),
        vec!["issue", "view", "187", "--repo", "owner/repo", "--json", "number,title,body,state,labels"]
    );
    let c = s.close_invocation(&NativeId("187".to_string()));
    assert_eq!(args(&c), vec!["issue", "close", "187", "--repo", "owner/repo"]);
    let m = s.comment_invocation(&NativeId("187".to_string()), "Implemented via PR #42");
    assert_eq!(
        args(&m),
        vec!["issue", "comment", "187", "--repo", "owner/repo", "--body", "Implemented via PR #42"]
    );
}

#[test]
fn github_completion_steps() {
    let s = gh_source();
    let n = NativeId("187".to_string());
    assert!(matches!(s.after_close(&n, None, &out(0)), CompletionStep::Finished(Ok(()))));
    assert!(matches!(s.after_close(&n, Some(""), &out(0)), CompletionStep::Finished(Ok(()))));
    match s.after_close(&n, Some("note"), &out(0)) {
        CompletionStep::Run(inv) => {
            assert_eq!(args(&inv), vec!["issue", "comment", "187", "--repo", "owner/repo", "--body", "note"])
        }
        other => panic!("unexpected {other:?}"),
    }
    match s.after_close(&n, Some("note"), &out(1)) {
        CompletionStep::Finished(Err(SourceError::Io { message })) => {
            assert_eq!(message, "gh exited with status 1")
        }
        other => panic!("unexpected {other:?}"),
    }
    assert!(GithubSource::after_comment(&out(0)).is_ok());
    match GithubSource::after_comment(&out(4)) {
        Err(SourceError::PartialCompletion { message }) => assert_eq!(
            message,
            "issue closed, but adding the comment failed: gh exited with status 4"
        ),
        other => panic!("unexpected {other:?}"),
    }
}

#[test]
fn github_issue_mapping() {
    let t = GithubSource::task_from(&gh_issue(187, "OPEN", 0)).unwrap();
    assert_eq!(t.id.to_string(), "gh:187");
    assert_eq!(t.title, "Issue 187");
    assert_eq!(t.description, "Body text");
    assert_eq!(t.state, TaskState::Unstarted);
    assert_eq!(t.priority, Priority(2));
    assert!(t.role.is_none());
    assert!(t.dependencies.is_empty());
    assert_eq!(GithubSource::task_from(&gh_issue(5, "open", 2)).unwrap().state, TaskState::InProgress);
    assert_eq!(GithubSource::task_from(&gh_issue(5, "closed", 0)).unwrap().state, TaskState::Done);
    match GithubSource::task_from(&gh_issue(5, "merged", 0)) {
        Err(SourceError::Parse { message }) => assert_eq!(message, "a gh issue has an unknown state"),
        other => panic!("unexpected {other:?}"),
    }
    let zero = GithubSource::task_from(&gh_issue(0, "open", 0)).unwrap();
    assert_eq!(zero.id.native_id.0, "0");
}

#[test]
fn github_summaries_filter() {
    let issues = vec![gh_issue(20, "open", 0), gh_issue(9, "CLOSED", 0), gh_issue(3, "open", 1), gh_issue(4, "weird", 0)];
    let list = GithubSource::summaries_from(&issues, &SelectionFilter::default());
    let ids: Vec<String> = list.iter().map(|s| s.id.to_string()).collect();
    assert_eq!(ids, vec!["gh:20", "gh:9", "gh:3", "gh:4"]);
    assert_eq!(list[1].state, TaskState::Unstarted);
    assert_eq!(list[2].state, TaskState::InProgress);
    assert!(list.iter().all(|s| s.role.is_none() && s.source_key == SourceKey::Github));
    let all = SelectionFilter { role: None, source_key: None, include_all: true };
    let list = GithubSource::summaries_from(&issues, &all);
    assert!(list.iter().all(|s| s.state == TaskState::Unstarted || s.state == TaskState::InProgress));
}

fn config(priority: Vec<SourceKey>, local_path: &str) -> Config {
    Config {
        sources: SourcesConfig {
            priority,
            local: Some(LocalSourceConfig { path: local_path.to_string() }),
            beads: None,
            github: Some(GithubSourceConfig { repo: "o/r".to_string(), labels: Vec::new() }),
        },
        config_dir: "/project".to_string(),
    }
}

#[test]
fn registry_orders_configured_sources() {
    let c = config(
        vec![SourceKey::Github, SourceKey::Beads, SourceKey::Local, SourceKey::Github],
        "/project/.llm/tasks.md",
    );
    let reg = SourceRegistry::from_config(&c).unwrap();
    let keys: Vec<SourceKey> = reg.ordered_sources().iter().map(|p| p.0).collect();
    assert_eq!(keys, vec![SourceKey::Github, SourceKey::Local]);
    assert_eq!(reg.source_order(&SourceKey::Github), Some(0));
    assert_eq!(reg.source_order(&SourceKey::Local), Some(1));
    assert_eq!(reg.source_order(&SourceKey::Beads), None);
    assert!(reg.find_source(&SourceKey::Beads).is_none());
    match reg.find_source(&SourceKey::Local) {
        Some(SourceAdapter::Local(l)) => assert_eq!(l.path(), "/project/.llm/tasks.md"),
        other => panic!("unexpected {other:?}"),
    }
    assert_eq!(reg.find_source(&SourceKey::Github).unwrap().key(), SourceKey::Github);
}

#[test]
fn registry_rejects_relative_local_path() {
    let c = config(vec![SourceKey::Local], "tasks.md");
    assert!(SourceRegistry::from_config(&c).is_err());
    let c = config(vec![SourceKey::Github], "tasks.md");
    assert!(SourceRegistry::from_config(&c).is_ok());
    let c = config(vec![SourceKey::Local], "/project/./.llm//tasks.md");
    let reg = SourceRegistry::from_config(&c).unwrap();
    match reg.find_source(&SourceKey::Local) {
        Some(SourceAdapter::Local(l)) => assert_eq!(l.path(), "/project/.llm/tasks.md"),
        other => panic!("unexpected {other:?}"),
    }
}

#[test]
fn beads_show_takes_first_record() {
    let n = NativeId("bd-7".to_string());
    match BeadsSource::task_from_shown(&Vec::new(), &n) {
        Err(SourceError::NotFound { native_id }) => assert_eq!(native_id.0, "bd-7"),
        other => panic!("unexpected {other:?}"),
    }
    let recs = vec![issue("bd-7", Some("open"), Some(1)), issue("bd-8", Some("closed"), None)];
    let t = BeadsSource::task_from_shown(&recs, &n).unwrap();
    assert_eq!(t.id.to_string(), "beads:bd-7");
    assert_eq!(t.state, TaskState::Unstarted);
    let bad = vec![issue("bd-7", Some("???"), None)];
    assert!(matches!(BeadsSource::task_from_shown(&bad, &n), Err(SourceError::Parse { .. })));
}

#[test]
fn github_comment_not_run_is_partial() {
    let e = SourceError::Unavailable { message: "'gh' not found in PATH".to_string() };
    match GithubSource::comment_not_run(&e) {
        SourceError::PartialCompletion { message } => assert_eq!(
            message,
            "issue closed, but adding the comment failed: 'gh' not found in PATH"
        ),
        other => panic!("unexpected {other:?}"),
    }
    assert_eq!(SourceError::NotFound { native_id: NativeId("12".to_string()) }.detail(), "12");
}
