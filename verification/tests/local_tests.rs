use task_marshal::config::{ConfigError, LocalSourceConfig};
use task_marshal::identity::NativeId;
use task_marshal::selection::SelectionFilter;
use task_marshal::sources::local::{parse_file, LocalFileSource};
use task_marshal::sources::SourceError;
use task_marshal::{Priority, Role, TaskState};

const FILE: &str = "# Tasks

Intro text that belongs to no task.

## TASK-040: Write the schema

**Priority:** P0
**State:** done

### Description

The schema.

### Acceptance Criteria

- [x] Written

## TASK-041: Draft the parser

**Priority:** P1
**Role:** Coder
**State:** in_progress

### Description

Parse it.

### Acceptance Criteria

- [ ] Parses

### Context

Started yesterday.

## TASK-042: Implement the loader

**Priority:** P1
**Role:** coder
**State:** unstarted
**Depends:** TASK-040, TASK-041

### Description

Full description of the work to be done.

### Acceptance Criteria

- [ ] Criterion one
- [ ] Criterion two

## TASK-043: Broken block

**Priority:** P1

### Description

No state line.

### Acceptance Criteria

- [ ] Never listed

## TASK-044: Tester work

**Role:** tester
**State:** Unstarted

### Description

Test it.

### Acceptance Criteria

- [ ] Tested
";

fn source() -> LocalFileSource {
    LocalFileSource::new(&LocalSourceConfig { path: "/project/.llm/tasks.md".to_string() }).unwrap()
}

fn nid(s: &str) -> NativeId {
    NativeId(s.to_string())
}

fn ids(list: &[task_marshal::TaskSummary]) -> Vec<String> {
    list.iter().map(|s| s.id.to_string()).collect()
}

#[test]
fn local_source_needs_absolute_path_without_parent_steps() {
    assert_eq!(source().path(), "/project/.llm/tasks.md");
    for bad in ["relative/tasks.md", "/a/../b", "../x", "/", "", "/a/.."] {
        match LocalFileSource::new(&LocalSourceConfig { path: bad.to_string() }) {
            Err(ConfigError::Invalid { message }) => {
                assert_eq!(message, "the local task file path is not absolute or climbs with `..`", "path {bad:?}")
            }
            other => panic!("unexpected {other:?} for {bad:?}"),
        }
    }
}

#[test]
fn local_source_keeps_normalised_path() {
    let cases = [("/project/./tasks.md", "/project/tasks.md"), ("/a//b", "/a/b"), ("/a/", "/a"), ("//x/./y/", "/x/y")];
    for (given, kept) in cases {
        let s = LocalFileSource::new(&LocalSourceConfig { path: given.to_string() }).unwrap();
        assert_eq!(s.path(), kept, "path {given:?}");
    }
}

#[test]
fn list_returns_actionable_unblocked_tasks() {
    let (list, malformed) = source().list_in(FILE, &SelectionFilter::default());
    assert_eq!(ids(&list), vec!["local:TASK-041", "local:TASK-044"]);
    assert_eq!(malformed, vec![51]);
    let t = &list[1];
    assert_eq!(t.priority, Priority(2));
    assert_eq!(t.state, TaskState::Unstarted);
    assert_eq!(t.title, "Tester work");
}

#[test]
fn list_all_shows_done_and_blocked() {
    let f = SelectionFilter { role: None, source_key: None, include_all: true };
    let (list, _) = source().list_in(FILE, &f);
    assert_eq!(ids(&list), vec!["local:TASK-040", "local:TASK-041", "local:TASK-042", "local:TASK-044"]);
    assert_eq!(list[0].state, TaskState::Done);
    assert_eq!(list[2].state, TaskState::Blocked);
}

#[test]
fn list_with_role_filter() {
    let f = SelectionFilter { role: Some(Role("tester".to_string())), source_key: None, include_all: false };
    let (list, _) = source().list_in(FILE, &f);
    assert_eq!(ids(&list), vec!["local:TASK-044"]);
    let f = SelectionFilter { role: Some(Role("coder".to_string())), source_key: None, include_all: false };
    let (list, _) = source().list_in(FILE, &f);
    assert_eq!(ids(&list), vec!["local:TASK-041"]);
}

#[test]
fn list_empty_file() {
    let (list, malformed) = source().list_in("", &SelectionFilter::default());
    assert!(list.is_empty());
    assert!(malformed.is_empty());
    let (list, _) = source().list_in("# Only a title\n\nSome prose.\n", &SelectionFilter::default());
    assert!(list.is_empty());
}

#[test]
fn get_returns_full_task() {
    let t = source().get_in(FILE, &nid("TASK-041")).unwrap();
    assert_eq!(t.id.to_string(), "local:TASK-041");
    assert_eq!(t.title, "Draft the parser");
    assert_eq!(t.description, "Parse it.");
    assert_eq!(t.acceptance_criteria, "- [ ] Parses");
    assert_eq!(t.state, TaskState::InProgress);
    assert_eq!(t.priority, Priority(1));
    assert_eq!(t.role.as_ref().unwrap().0, "Coder");
    assert!(t.dependencies.is_empty());
    assert_eq!(t.context_notes.as_deref(), Some("Started yesterday."));
}

#[test]
fn get_reports_blocked_dependencies() {
    let t = source().get_in(FILE, &nid("TASK-042")).unwrap();
    assert_eq!(t.state, TaskState::Blocked);
    assert_eq!(t.dependencies.len(), 2);
    assert_eq!(t.dependencies[0].0 .0, "TASK-040");
    assert_eq!(t.dependencies[1].0 .0, "TASK-041");
    assert_eq!(t.acceptance_criteria, "- [ ] Criterion one\n- [ ] Criterion two");
    assert!(t.context_notes.is_none());
}

#[test]
fn get_unknown_is_not_found() {
    match source().get_in(FILE, &nid("DOES-NOT-EXIST")) {
        Err(SourceError::NotFound { native_id }) => assert_eq!(native_id.0, "DOES-NOT-EXIST"),
        other => panic!("unexpected {other:?}"),
    }
    assert!(matches!(source().get_in(FILE, &nid("TASK-043")), Err(SourceError::NotFound { .. })));
}

#[test]
fn complete_marks_done_and_keeps_the_rest() {
    let out = source().complete_in(FILE, &nid("TASK-044"), None).unwrap();
    assert_eq!(out, FILE.replace("**State:** Unstarted", "**State:** done"));
    let t = source().get_in(&out, &nid("TASK-044")).unwrap();
    assert_eq!(t.state, TaskState::Done);
}

#[test]
fn complete_then_dependency_resolves() {
    let out = source().complete_in(FILE, &nid("TASK-041"), None).unwrap();
    let t = source().get_in(&out, &nid("TASK-042")).unwrap();
    assert_eq!(t.state, TaskState::Unstarted);
    let (list, _) = source().list_in(&out, &SelectionFilter::default());
    assert_eq!(ids(&list), vec!["local:TASK-042", "local:TASK-044"]);
}

#[test]
fn complete_with_comment_adds_note() {
    let out = source().complete_in(FILE, &nid("TASK-044"), Some("Done, see\ncommit abc123")).unwrap();
    assert_eq!(
        out,
        FILE.replace(
            "**State:** Unstarted",
            "**State:** done\n**Completion Note:** Done, see commit abc123"
        )
    );
    let t = source().get_in(&out, &nid("TASK-044")).unwrap();
    assert_eq!(t.state, TaskState::Done);
    assert_eq!(t.description, "Test it.");
}

#[test]
fn complete_with_empty_comment_adds_nothing() {
    let a = source().complete_in(FILE, &nid("TASK-044"), Some("")).unwrap();
    let b = source().complete_in(FILE, &nid("TASK-044"), None).unwrap();
    assert_eq!(a, b);
}

#[test]
fn complete_is_idempotent() {
    let once = source().complete_in(FILE, &nid("TASK-041"), None).unwrap();
    let twice = source().complete_in(&once, &nid("TASK-041"), None).unwrap();
    assert_eq!(once, twice);
    let done_again = source().complete_in(FILE, &nid("TASK-040"), None).unwrap();
    assert_eq!(done_again, FILE);
}

#[test]
fn complete_unknown_is_not_found() {
    assert!(matches!(
        source().complete_in(FILE, &nid("TASK-999"), None),
        Err(SourceError::NotFound { .. })
    ));
}

#[test]
fn complete_keeps_crlf_line_endings() {
    let crlf = FILE.replace('\n', "\r\n");
    let out = source().complete_in(&crlf, &nid("TASK-044"), Some("ok")).unwrap();
    assert_eq!(
        out,
        crlf.replace("**State:** Unstarted\r\n", "**State:** done\r\n**Completion Note:** ok\r\n")
    );
    let (list, _) = source().list_in(&crlf, &SelectionFilter::default());
    assert_eq!(ids(&list), vec!["local:TASK-041", "local:TASK-044"]);
}

#[test]
fn parse_file_positions() {
    let p = parse_file(FILE);
    assert_eq!(p.tasks.len(), 4);
    assert_eq!(p.starts, vec![4, 17, 35, 63]);
    assert_eq!(p.state_lines, vec![7, 21, 39, 66]);
    assert_eq!(p.malformed, vec![51]);
}

#[test]
fn malformed_blocks_are_skipped() {
    let text = "## : no id\n**State:** unstarted\n### Description\nx\n### Acceptance Criteria\ny\n\
## BAD ID: spaces\n**State:** unstarted\n### Description\nx\n### Acceptance Criteria\ny\n\
## T-1: bad priority\n**Priority:** high\n**State:** unstarted\n### Description\nx\n### Acceptance Criteria\ny\n\
## T-2: bad state\n**State:** later\n### Description\nx\n### Acceptance Criteria\ny\n\
## T-3: no criteria\n**State:** unstarted\n### Description\nx\n\
## T-4 no colon\n**State:** unstarted\n### Description\nx\n### Acceptance Criteria\ny\n\
## T-5: good\n**State:** unstarted\n### Description\nx\n### Acceptance Criteria\ny\n";
    let (list, malformed) = source().list_in(text, &SelectionFilter::default());
    assert_eq!(ids(&list), vec!["local:T-5"]);
    assert_eq!(malformed, vec![0, 6, 12, 19, 25, 29]);
}
