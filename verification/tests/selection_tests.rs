use task_marshal::identity::{NativeId, SourceKey, TaskId};
use task_marshal::selection::{ScoredCandidate, SelectionError, SelectionFilter, TaskSelector};
use task_marshal::{Priority, Role, TaskState, TaskSummary};

fn summary(key: SourceKey, native: &str, prio: u32, role: Option<&str>, state: TaskState) -> TaskSummary {
    TaskSummary {
        id: TaskId { source_key: key, native_id: NativeId(native.to_string()) },
        source_key: key,
        priority: Priority(prio),
        role: role.map(|r| Role(r.to_string())),
        title: format!("task {native}"),
        state,
    }
}

fn cand(order: usize, s: TaskSummary) -> ScoredCandidate {
    ScoredCandidate { source_order: order, summary: s }
}

fn filter(role: Option<&str>, source: Option<SourceKey>, all: bool) -> SelectionFilter {
    SelectionFilter { role: role.map(|r| Role(r.to_string())), source_key: source, include_all: all }
}

fn chosen(cands: Vec<ScoredCandidate>, f: &SelectionFilter) -> String {
    match TaskSelector::select(cands, f) {
        Ok(s) => s.id.to_string(),
        Err(e) => panic!("no selection: {e:?}"),
    }
}

#[test]
fn select_empty_is_no_task_found() {
    assert_eq!(
        TaskSelector::select(Vec::new(), &SelectionFilter::default()).unwrap_err(),
        SelectionError::NoTaskFound
    );
}

#[test]
fn select_single_candidate() {
    let c = vec![cand(0, summary(SourceKey::Local, "TASK-1", 1, None, TaskState::Unstarted))];
    let s = TaskSelector::select(c, &SelectionFilter::default()).unwrap();
    assert_eq!(s.id.to_string(), "local:TASK-1");
    assert_eq!(s.title, "task TASK-1");
    assert_eq!(s.priority, Priority(1));
}

#[test]
fn select_all_done_is_no_task_found() {
    let c = vec![
        cand(0, summary(SourceKey::Local, "A", 0, None, TaskState::Done)),
        cand(0, summary(SourceKey::Local, "B", 1, None, TaskState::Done)),
    ];
    assert!(TaskSelector::select(c, &SelectionFilter::default()).is_err());
}

#[test]
fn select_blocked_excluded() {
    let c = vec![
        cand(0, summary(SourceKey::Local, "TASK-010", 0, None, TaskState::Blocked)),
        cand(0, summary(SourceKey::Local, "TASK-011", 3, None, TaskState::Unstarted)),
    ];
    assert_eq!(chosen(c, &SelectionFilter::default()), "local:TASK-011");
}

#[test]
fn select_in_progress_is_eligible() {
    let c = vec![cand(0, summary(SourceKey::Local, "TASK-005", 1, None, TaskState::InProgress))];
    assert_eq!(chosen(c, &SelectionFilter::default()), "local:TASK-005");
}

#[test]
fn select_lower_priority_number_wins() {
    let c = vec![
        cand(0, summary(SourceKey::Local, "TASK-001", 2, None, TaskState::Unstarted)),
        cand(0, summary(SourceKey::Local, "TASK-002", 0, None, TaskState::Unstarted)),
    ];
    assert_eq!(chosen(c, &SelectionFilter::default()), "local:TASK-002");
}

#[test]
fn select_source_order_breaks_ties() {
    let c = vec![
        cand(1, summary(SourceKey::Beads, "bd-1", 1, None, TaskState::Unstarted)),
        cand(0, summary(SourceKey::Local, "TASK-9", 1, None, TaskState::Unstarted)),
    ];
    assert_eq!(chosen(c, &SelectionFilter::default()), "local:TASK-9");
}

#[test]
fn select_native_id_breaks_ties() {
    let c = vec![
        cand(0, summary(SourceKey::Local, "TASK-020", 1, None, TaskState::Unstarted)),
        cand(0, summary(SourceKey::Local, "TASK-010", 1, None, TaskState::Unstarted)),
    ];
    assert_eq!(chosen(c, &SelectionFilter::default()), "local:TASK-010");
}

#[test]
fn select_numeric_ids_sort_numerically() {
    let c = vec![
        cand(2, summary(SourceKey::Github, "20", 2, None, TaskState::Unstarted)),
        cand(2, summary(SourceKey::Github, "9", 2, None, TaskState::Unstarted)),
    ];
    assert_eq!(chosen(c, &SelectionFilter::default()), "gh:9");
}

#[test]
fn select_role_filter_is_case_insensitive() {
    let c = vec![cand(0, summary(SourceKey::Local, "A", 1, Some("Coder"), TaskState::Unstarted))];
    assert_eq!(chosen(c, &filter(Some("coder"), None, false)), "local:A");
}

#[test]
fn select_role_filter_admits_unassigned() {
    let c = vec![cand(0, summary(SourceKey::Local, "A", 1, None, TaskState::Unstarted))];
    assert_eq!(chosen(c, &filter(Some("architect"), None, false)), "local:A");
}

#[test]
fn select_role_filter_rejects_other_roles() {
    let c = vec![cand(0, summary(SourceKey::Local, "A", 1, Some("tester"), TaskState::Unstarted))];
    assert!(TaskSelector::select(c, &filter(Some("coder"), None, false)).is_err());
}

#[test]
fn select_role_filter_keeps_matching_and_unassigned() {
    let c = vec![
        cand(0, summary(SourceKey::Local, "A", 0, Some("tester"), TaskState::Unstarted)),
        cand(0, summary(SourceKey::Local, "B", 1, Some("coder"), TaskState::Unstarted)),
        cand(0, summary(SourceKey::Local, "C", 2, None, TaskState::Unstarted)),
    ];
    assert_eq!(chosen(c, &filter(Some("coder"), None, false)), "local:B");
}

#[test]
fn select_source_filter_without_match() {
    let c = vec![cand(1, summary(SourceKey::Beads, "bd-1", 0, None, TaskState::Unstarted))];
    assert_eq!(
        TaskSelector::select(c, &filter(None, Some(SourceKey::Local), false)).unwrap_err(),
        SelectionError::NoTaskFound
    );
}

#[test]
fn select_source_filter_picks_that_source() {
    let c = vec![
        cand(0, summary(SourceKey::Local, "TASK-1", 0, None, TaskState::Unstarted)),
        cand(2, summary(SourceKey::Github, "7", 3, None, TaskState::Unstarted)),
    ];
    assert_eq!(chosen(c, &filter(None, Some(SourceKey::Github), false)), "gh:7");
}

#[test]
fn select_include_all_admits_done_and_blocked() {
    let c = vec![
        cand(0, summary(SourceKey::Local, "D", 0, None, TaskState::Done)),
        cand(0, summary(SourceKey::Local, "B", 1, None, TaskState::Blocked)),
    ];
    assert_eq!(chosen(c, &filter(None, None, true)), "local:D");
}

#[test]
fn select_is_deterministic_and_order_independent() {
    let make = |rev: bool| {
        let mut v = vec![
            cand(0, summary(SourceKey::Local, "TASK-3", 1, None, TaskState::Unstarted)),
            cand(1, summary(SourceKey::Beads, "bd-1", 1, None, TaskState::Unstarted)),
            cand(0, summary(SourceKey::Local, "TASK-2", 1, None, TaskState::Unstarted)),
            cand(2, summary(SourceKey::Github, "4", 0, None, TaskState::Blocked)),
        ];
        if rev {
            v.reverse();
        }
        v
    };
    let first = chosen(make(false), &SelectionFilter::default());
    for _ in 0..5 {
        assert_eq!(chosen(make(false), &SelectionFilter::default()), first);
        assert_eq!(chosen(make(true), &SelectionFilter::default()), first);
    }
    assert_eq!(first, "local:TASK-2");
}

#[test]
fn filter_accepts_rules() {
    let s = summary(SourceKey::Local, "A", 1, Some("Coder"), TaskState::Done);
    assert!(!SelectionFilter::default().accepts(&s));
    assert!(filter(None, None, true).accepts(&s));
    assert!(filter(Some("CODER"), Some(SourceKey::Local), true).accepts(&s));
    assert!(!filter(None, Some(SourceKey::Beads), true).accepts(&s));
}

#[test]
fn sort_keys_compare_field_by_field() {
    let a = cand(0, summary(SourceKey::Local, "TASK-2", 1, None, TaskState::Unstarted)).sort_key();
    let b = cand(0, summary(SourceKey::Local, "TASK-10", 1, None, TaskState::Unstarted)).sort_key();
    let c = cand(1, summary(SourceKey::Beads, "a", 0, None, TaskState::Unstarted)).sort_key();
    assert!(b.less_than(&a));
    assert!(!a.less_than(&b));
    assert!(c.less_than(&a));
    assert!(!a.less_than(&a));
    assert_eq!(a.native_id_sort_key, "TASK-2");
}

#[test]
fn role_matching_ignores_case() {
    assert!(Role("Coder".to_string()).matches(&Role("cODER".to_string())));
    assert!(!Role("coder".to_string()).matches(&Role("tester".to_string())));
    assert!(Role("QA".to_string()) == Role("qa".to_string()));
}

#[test]
fn roles_hash_like_they_compare() {
    let mut set = std::collections::HashSet::new();
    set.insert(Role("Coder".to_string()));
    set.insert(Role("coder".to_string()));
    set.insert(Role("tester".to_string()));
    assert_eq!(set.len(), 2);
    assert_eq!(Role("CoDer-2".to_string()).folded(), "coder-2");
}
