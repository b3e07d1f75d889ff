use clearhead::json::Json;
use clearhead::query::Row;
use clearhead::shape::frame_index;

fn field<'a>(j: &'a Json, key: &str) -> Option<&'a Json> {
    match j {
        Json::Object(entries) => entries.iter().find(|(k, _)| k == key).map(|(_, v)| v),
        _ => None,
    }
}

fn text(j: Option<&Json>) -> Option<&str> {
    match j {
        Some(Json::Str(s)) => Some(s.as_str()),
        _ => None,
    }
}

fn items(j: Option<&Json>) -> &Vec<Json> {
    match j {
        Some(Json::Array(v)) => v,
        _ => panic!("expected an array"),
    }
}

fn set(row: &mut Row, key: &str, value: &str) {
    if let Some(b) = row.bindings.iter_mut().find(|(k, _)| k == key) {
        b.1 = value.to_string();
    } else {
        row.bindings.push((key.to_string(), value.to_string()));
    }
}

fn remove(row: &mut Row, key: &str) {
    row.bindings.retain(|(k, _)| k != key);
}

fn sample_row(uuid_suffix: &str, name: &str) -> Row {
    Row {
        bindings: vec![
            ("id".to_string(), format!("urn:uuid:01900000-0000-7000-8000-{uuid_suffix}")),
            ("name".to_string(), name.to_string()),
            ("status".to_string(), "NotStarted".to_string()),
            ("source_file".to_string(), "charters/demo/next.actions".to_string()),
            ("source_line".to_string(), "3".to_string()),
            ("charter_root".to_string(), "/workspace/.clearhead".to_string()),
        ],
    }
}

#[test]
fn frames_rows_into_ordered_graph_document() {
    let mut first = sample_row("000000000001", "first action");
    set(&mut first, "scheduled_at", "2026-07-01T09:00:00Z");
    let second = sample_row("000000000002", "second action");

    let doc = frame_index(&vec![first, second]).expect("frame");

    assert!(field(&doc, "@context").is_some());
    let graph = items(field(&doc, "@graph"));
    assert_eq!(graph.len(), 2);
    assert_eq!(text(field(&graph[0], "name")), Some("first action"));
    assert_eq!(text(field(&graph[1], "name")), Some("second action"));
    assert_eq!(
        text(field(&graph[0], "id")),
        Some("urn:uuid:01900000-0000-7000-8000-000000000001")
    );
    assert!(matches!(field(&graph[0], "source_line"), Some(Json::Number(n)) if n.parse::<u64>().is_ok()));
    assert_eq!(text(field(&graph[0], "scheduled_at")), Some("2026-07-01T09:00:00Z"));
}

#[test]
fn missing_required_term_errors_loudly() {
    let mut row = sample_row("000000000001", "incomplete");
    remove(&mut row, "status");
    remove(&mut row, "charter_root");

    let err = frame_index(&vec![row]).expect_err("must fail");
    let msg = err.message();
    assert!(msg.contains("charter_root"), "unexpected: {msg}");
    assert!(msg.contains("status"), "unexpected: {msg}");
    assert!(!msg.contains("name"), "unexpected: {msg}");
}

#[test]
fn optional_sort_keys_are_not_required() {
    let undated = sample_row("000000000001", "undated");
    let doc = frame_index(&vec![undated]).expect("frame");
    let node = &items(field(&doc, "@graph"))[0];
    assert!(field(node, "scheduled_at").is_none());
    assert!(field(node, "due_date").is_none());
}

#[test]
fn empty_rows_frame_as_empty_graph_document() {
    let doc = frame_index(&vec![]).expect("frame");
    assert!(field(&doc, "@context").is_some());
    assert!(items(field(&doc, "@graph")).is_empty());
}

#[test]
fn non_integer_source_line_errors_loudly() {
    let mut row = sample_row("000000000001", "bad line");
    set(&mut row, "source_line", "not-a-number");
    let err = frame_index(&vec![row]).expect_err("must fail");
    assert!(err.message().contains("source_line"));
}

#[test]
fn context_expands_status_through_vocab_terms() {
    let doc = frame_index(&vec![sample_row("000000000001", "any")]).expect("frame");
    let ctx = field(&doc, "@context").expect("context");
    assert_eq!(text(field(field(ctx, "status").expect("status"), "@type")), Some("@vocab"));
    for term in ["NotStarted", "InProgress", "Completed", "Blocked", "Cancelled"] {
        let iri = text(field(ctx, term)).expect("status term defined");
        assert_eq!(iri, format!("actions:{term}"));
    }
    assert_eq!(text(field(ctx, "id")), Some("@id"));
}

#[test]
fn source_line_frames_as_its_number() {
    let doc = frame_index(&vec![sample_row("000000000007", "numbered")]).expect("frame");
    let node = &items(field(&doc, "@graph"))[0];
    assert!(matches!(field(node, "source_line"), Some(Json::Number(n)) if n == "3"));
}
