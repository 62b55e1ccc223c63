use task_marshal::identity::{NativeId, SourceKey, TaskId};
use task_marshal::output::{CompletionError, OutputFormatter};
use task_marshal::sources::SourceError;
use task_marshal::{Dependency, Priority, Role, Task, TaskState, TaskSummary};

fn id(key: SourceKey, native: &str) -> TaskId {
    TaskId { source_key: key, native_id: NativeId(native.to_string()) }
}

fn full_task() -> Task {
    Task {
        id: id(SourceKey::Local, "TASK-042"),
        title: "Implement the parser".to_string(),
        description: "Parse the **file**.".to_string(),
        acceptance_criteria: "- [ ] It parses".to_string(),
        state: TaskState::InProgress,
        priority: Priority(1),
        role: Some(Role("coder".to_string())),
        dependencies: vec![
            Dependency(NativeId("TASK-040".to_string())),
            Dependency(NativeId("TASK-041".to_string())),
        ],
        context_notes: Some("See the design notes.".to_string()),
    }
}

fn bare_task() -> Task {
    Task {
        id: id(SourceKey::Github, "187"),
        title: "Fix it".to_string(),
        description: String::new(),
        acceptance_criteria: String::new(),
        state: TaskState::Unstarted,
        priority: Priority(2),
        role: None,
        dependencies: Vec::new(),
        context_notes: None,
    }
}

fn summary(key: SourceKey, native: &str, prio: u32, role: Option<&str>, title: &str, state: TaskState) -> TaskSummary {
    TaskSummary {
        id: id(key, native),
        source_key: key,
        priority: Priority(prio),
        role: role.map(|r| Role(r.to_string())),
        title: title.to_string(),
        state,
    }
}

#[test]
fn format_task_full_block() {
    let block = OutputFormatter::format_task(&full_task());
    let expected = "Task: local:TASK-042\n\
Title: Implement the parser\n\
State: in_progress\n\
Priority: P1\n\
Role: coder\n\
Depends: local:TASK-040, local:TASK-041\n\
\n\
Description\n\
-----------\n\
Parse the **file**.\n\
\n\
Acceptance Criteria\n\
-------------------\n\
- [ ] It parses\n\
\n\
Context\n\
-------\n\
See the design notes.\n";
    assert_eq!(block.0, expected);
}

#[test]
fn format_task_has_no_ansi_codes() {
    assert!(!OutputFormatter::format_task(&full_task()).0.contains('\u{1b}'));
    assert!(!OutputFormatter::format_task(&bare_task()).0.contains('\u{1b}'));
}

#[test]
fn format_task_omits_absent_parts() {
    let block = OutputFormatter::format_task(&bare_task()).0;
    assert!(!block.contains("Role:"));
    assert!(!block.contains("Depends:"));
    assert!(!block.contains("Context"));
    assert_eq!(
        block,
        "Task: gh:187\nTitle: Fix it\nState: unstarted\nPriority: P2\n\nDescription\n-----------\n\n\nAcceptance Criteria\n-------------------\n\n"
    );
}

#[test]
fn format_summary_list_empty() {
    let out = OutputFormatter::format_summary_list(&[]);
    assert_eq!(out, "No tasks found.\n");
    assert!(!out.trim().is_empty());
}

#[test]
fn format_summary_list_aligned_table() {
    let rows = vec![
        summary(SourceKey::Local, "TASK-042", 1, Some("coder"), "Implement", TaskState::Unstarted),
        summary(SourceKey::Github, "7", 12, None, "Docs", TaskState::InProgress),
    ];
    let out = OutputFormatter::format_summary_list(&rows);
    let expected = "ID              STATE        PRIORITY  ROLE   TITLE\n\
local:TASK-042  unstarted    P1        coder  Implement\n\
gh:7            in_progress  P12       -      Docs\n";
    assert_eq!(out, expected);
    assert!(!out.contains('\u{1b}'));
}

#[test]
fn format_completion_confirmation_names_task() {
    let s = OutputFormatter::format_completion_confirmation(&id(SourceKey::Beads, "bd-a1b2"));
    assert_eq!(s, "Done: beads:bd-a1b2");
}

#[test]
fn format_source_warning_names_source() {
    let s = OutputFormatter::format_source_warning(&SourceKey::Beads, "bd exited with status 1");
    assert_eq!(s, "Warning: source 'beads' unavailable: bd exited with status 1");
}

#[test]
fn format_error_message() {
    assert_eq!(OutputFormatter::format_error("no config"), "Error: no config");
}

#[test]
fn task_summary_of_task() {
    let s = full_task().summary();
    assert_eq!(s.id.to_string(), "local:TASK-042");
    assert_eq!(s.source_key, SourceKey::Local);
    assert_eq!(s.priority, Priority(1));
    assert_eq!(s.title, "Implement the parser");
    assert_eq!(s.state, TaskState::InProgress);
    assert!(s.role == Some(Role("CODER".to_string())));
}

#[test]
fn completion_error_from_source_errors() {
    let t = || id(SourceKey::Local, "TASK-1");
    match CompletionError::from_source_error(t(), SourceError::NotFound { native_id: NativeId("TASK-1".to_string()) }) {
        CompletionError::TaskNotFound { task_id } => assert_eq!(task_id.to_string(), "local:TASK-1"),
        other => panic!("unexpected {other:?}"),
    }
    match CompletionError::from_source_error(t(), SourceError::Unavailable { message: "m".to_string() }) {
        CompletionError::SourceUnavailable { message, .. } => assert_eq!(message, "m"),
        other => panic!("unexpected {other:?}"),
    }
    match CompletionError::from_source_error(t(), SourceError::Io { message: "disk".to_string() }) {
        CompletionError::Io { message, .. } => assert_eq!(message, "disk"),
        other => panic!("unexpected {other:?}"),
    }
    match CompletionError::from_source_error(t(), SourceError::Parse { message: "json".to_string() }) {
        CompletionError::Io { message, .. } => assert_eq!(message, "json"),
        other => panic!("unexpected {other:?}"),
    }
    match CompletionError::from_source_error(t(), SourceError::PartialCompletion { message: "c".to_string() }) {
        CompletionError::PartialCompletion { message, .. } => assert_eq!(message, "c"),
        other => panic!("unexpected {other:?}"),
    }
}

#[test]
fn task_state_texts() {
    assert_eq!(TaskState::Unstarted.as_str(), "unstarted");
    assert_eq!(TaskState::InProgress.as_str(), "in_progress");
    assert_eq!(TaskState::Blocked.as_str(), "blocked");
    assert_eq!(TaskState::Done.as_str(), "done");
    assert_eq!(Priority::default(), Priority(2));
}

#[test]
fn task_blocks_compare_by_text() {
    let a = OutputFormatter::format_task(&bare_task());
    let b = a.clone();
    assert!(a == b);
    assert!(a != OutputFormatter::format_task(&full_task()));
}
