use clearhead::domain::{Action, PredecessorRef, Timestamp};
use clearhead::error::GraphError;
use clearhead::vocab::{uuid_iri_string, uuid_new_v5, uuid_parse, uuid_string, workspace_graph_uri};

#[test]
fn timestamps_render_as_rfc3339_at_their_offset() {
    let t = Timestamp::new(0, 0, 3600).expect("representable");
    assert_eq!(t.to_rfc3339(), "1970-01-01T01:00:00+01:00");
    assert_eq!(t.secs(), 0);
    assert_eq!(t.offset(), 3600);
}

#[test]
fn leap_second_nanos_are_not_timestamps() {
    assert!(Timestamp::new(59, 1_500_000_000, 0).is_none());
}

#[test]
fn uuids_render_hyphenated_lowercase_and_parse_back() {
    let id = 0x019d7100_1111_7111_8111_111111111111u128;
    assert_eq!(uuid_string(id), "019d7100-1111-7111-8111-111111111111");
    assert_eq!(uuid_iri_string(id), "urn:uuid:019d7100-1111-7111-8111-111111111111");
    assert_eq!(uuid_parse("019d7100-1111-7111-8111-111111111111"), Some(id));
    assert_eq!(uuid_parse("not a uuid"), None);
}

#[test]
fn name_based_uuids_follow_version_five() {
    let ns = uuid::Uuid::NAMESPACE_URL;
    let expected = uuid::Uuid::new_v5(&ns, b"Inbox").as_u128();
    assert_eq!(uuid_new_v5(ns.as_u128(), "Inbox"), expected);
}

#[test]
fn depends_on_keeps_resolved_predecessors_in_order() {
    let mut a = Action::named(1, "a".to_string());
    a.predecessors = Some(vec![
        PredecessorRef { raw_ref: "x".to_string(), resolved_uuid: Some(7) },
        PredecessorRef { raw_ref: "dangling".to_string(), resolved_uuid: None },
        PredecessorRef { raw_ref: "y".to_string(), resolved_uuid: Some(3) },
    ]);
    assert_eq!(a.depends_on(), vec![7, 3]);
}

#[test]
fn workspace_graphs_are_named_by_uuid() {
    assert_eq!(workspace_graph_uri("abc"), "urn:clearhead:workspace:abc");
}

#[test]
fn errors_carry_their_category() {
    assert_eq!(GraphError::Store("x".to_string()).message(), "Database error: x");
    assert_eq!(GraphError::Contract("y".to_string()).message(), "Shape contract violation: y");
}
