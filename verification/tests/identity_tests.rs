use task_marshal::identity::{NativeId, ParseError, SourceKey, TaskId, TaskIdParser};

fn parsed(input: &str) -> TaskId {
    match TaskIdParser::parse(input) {
        Ok(id) => id,
        Err(e) => panic!("{input} did not parse: {e:?}"),
    }
}

#[test]
fn parse_local_task_id() {
    let id = parsed("local:TASK-042");
    assert_eq!(id.source_key, SourceKey::Local);
    assert_eq!(id.native_id.0, "TASK-042");
}

#[test]
fn parse_beads_task_id() {
    let id = parsed("beads:bd-a1b2");
    assert_eq!(id.source_key, SourceKey::Beads);
    assert_eq!(id.native_id.0, "bd-a1b2");
}

#[test]
fn parse_github_task_id() {
    let id = parsed("gh:187");
    assert_eq!(id.source_key, SourceKey::Github);
    assert_eq!(id.native_id.0, "187");
}

#[test]
fn parse_splits_on_first_colon() {
    let id = parsed("beads:bd-a1b2.3");
    assert_eq!(id.source_key, SourceKey::Beads);
    assert_eq!(id.native_id.0, "bd-a1b2.3");
    let id = parsed("local:a:b");
    assert_eq!(id.native_id.0, "a:b");
}

#[test]
fn parse_trims_both_parts() {
    let id = parsed("  local : TASK-1  ");
    assert_eq!(id.source_key, SourceKey::Local);
    assert_eq!(id.native_id.0, "TASK-1");
}

#[test]
fn parse_unknown_source_key() {
    match TaskIdParser::parse("unknown:TASK-001") {
        Err(ParseError::UnknownSourceKey { key, input }) => {
            assert_eq!(key, "unknown");
            assert_eq!(input, "unknown:TASK-001");
        }
        other => panic!("unexpected {other:?}"),
    }
}

#[test]
fn parse_source_key_is_case_sensitive() {
    assert!(matches!(
        TaskIdParser::parse("LOCAL:TASK-1"),
        Err(ParseError::UnknownSourceKey { .. })
    ));
    assert!(matches!(
        TaskIdParser::parse("github:12"),
        Err(ParseError::UnknownSourceKey { .. })
    ));
}

#[test]
fn parse_rejects_missing_colon() {
    match TaskIdParser::parse("local") {
        Err(ParseError::InvalidTaskId { input }) => assert_eq!(input, "local"),
        other => panic!("unexpected {other:?}"),
    }
    assert!(matches!(TaskIdParser::parse("TASK-042"), Err(ParseError::InvalidTaskId { .. })));
}

#[test]
fn parse_rejects_empty_parts() {
    assert!(matches!(TaskIdParser::parse("local:"), Err(ParseError::InvalidTaskId { .. })));
    assert!(matches!(TaskIdParser::parse(":TASK-042"), Err(ParseError::InvalidTaskId { .. })));
    assert!(matches!(TaskIdParser::parse(""), Err(ParseError::InvalidTaskId { .. })));
    assert!(matches!(TaskIdParser::parse("local:   "), Err(ParseError::InvalidTaskId { .. })));
}

#[test]
fn task_id_text_round_trips() {
    for text in ["local:TASK-042", "beads:bd-a1b2", "gh:187", "beads:bd-a1b2.3"] {
        let id = parsed(text);
        assert_eq!(id.to_string(), text);
        let again = parsed(&id.to_string());
        assert!(again == id);
    }
}

#[test]
fn source_key_texts() {
    assert_eq!(SourceKey::Local.as_str(), "local");
    assert_eq!(SourceKey::Beads.as_str(), "beads");
    assert_eq!(SourceKey::Github.as_str(), "gh");
    assert_eq!(SourceKey::from_str("local"), Some(SourceKey::Local));
    assert_eq!(SourceKey::from_str("beads"), Some(SourceKey::Beads));
    assert_eq!(SourceKey::from_str("gh"), Some(SourceKey::Github));
    assert_eq!(SourceKey::from_str("github"), None);
    assert_eq!(SourceKey::from_str("Local"), None);
    assert_eq!(SourceKey::Github.to_text(), "gh");
}

#[test]
fn native_id_sort_keys() {
    let cases = [
        ("187", "000000187"),
        ("42", "000000042"),
        ("TASK-042", "TASK-042"),
        ("bd-a1b2", "bd-a1b2"),
        ("123456789", "123456789"),
        ("1234567890", "1234567890"),
        ("", ""),
        ("0", "000000000"),
    ];
    for (input, key) in cases {
        assert_eq!(NativeId(input.to_string()).sort_key(), key, "sort key of {input:?}");
    }
}

#[test]
fn native_id_equality_and_clone() {
    let a = NativeId("TASK-1".to_string());
    let b = a.clone();
    assert!(a == b);
    assert!(a != NativeId("TASK-2".to_string()));
}

#[test]
fn native_ids_hash_by_text() {
    let mut set = std::collections::HashSet::new();
    set.insert(NativeId("TASK-1".to_string()));
    set.insert(NativeId("TASK-1".to_string()));
    set.insert(NativeId("TASK-2".to_string()));
    assert_eq!(set.len(), 2);
}
