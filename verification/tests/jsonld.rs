use chrono::{Offset, TimeZone};
use clearhead::domain::{Action, ActionState, Charter, DomainModel, Plan, Timestamp};
use clearhead::json::Json;
use clearhead::jsonld::{collect_contexts, context_id, serialize_domain_to_jsonld, serialize_workspace_to_jsonld};
use clearhead::load::{CharterSources, SourcedAction};

fn uuid(s: &str) -> u128 {
    uuid::Uuid::parse_str(s).unwrap().as_u128()
}

fn local(y: i32, mo: u32, d: u32, h: u32, mi: u32) -> Timestamp {
    let dt = chrono::Local.with_ymd_and_hms(y, mo, d, h, mi, 0).unwrap();
    Timestamp::new(dt.timestamp(), 0, dt.offset().fix().local_minus_utc()).unwrap()
}

fn field<'a>(j: &'a Json, key: &str) -> Option<&'a Json> {
    match j {
        Json::Object(entries) => entries.iter().find(|(k, _)| k == key).map(|(_, v)| v),
        _ => None,
    }
}

fn text(j: Option<&Json>) -> Option<&str> {
    match j {
        Some(Json::Str(s)) => Some(s.as_str()),
        _ => None,
    }
}

fn graph(doc: &Json) -> &Vec<Json> {
    match field(doc, "@graph") {
        Some(Json::Array(v)) => v,
        _ => panic!("@graph array"),
    }
}

fn context_document() -> Json {
    Json::Object(vec![(
        "@context".to_string(),
        Json::Object(vec![("@vocab".to_string(), Json::Str("https://clearhead.us/vocab/actions/v4#".to_string()))]),
    )])
}

fn sample_model() -> DomainModel {
    let plan_id = uuid("019d7100-1111-7111-8111-111111111111");
    let action_id = uuid("019d7100-2222-7222-8222-222222222222");
    let charter_id = uuid("019d7100-3333-7333-8333-333333333333");

    let mut plan = Plan::named(plan_id, "Write graph tests".to_string());
    plan.description = Some("Lock down graph semantics".to_string());
    plan.recurrence = Some("R:FREQ=WEEKLY;INTERVAL=2;BYDAY=MO,WE".to_string());

    let mut action = Action::named(action_id, "Write graph tests".to_string());
    action.description = Some("Lock down graph semantics".to_string());
    action.priority = Some(1);
    action.contexts = Some(vec!["@dev".to_string()]);
    action.alias = Some("graph_tests".to_string());
    action.is_sequential = Some(true);
    action.plan_id = Some(plan_id);
    action.external_schedule_id = Some("weekly-review@example.com".to_string());
    action.external_occurrence_key = Some("2026-04-09T10:00:00-07:00".to_string());
    action.state = ActionState::InProgress;
    action.scheduled_at = Some(local(2026, 4, 9, 10, 0));
    action.duration = Some(45);
    action.created_at = Some(local(2026, 4, 9, 9, 0));

    let mut charter = Charter::titled(charter_id, "Platform".to_string());
    charter.description = Some("Platform charter".to_string());
    charter.alias = Some("platform".to_string());
    charter.plans = vec![plan];
    charter.actions = vec![action];
    DomainModel { charters: vec![charter] }
}

fn type_of(node: &Json) -> Option<&str> {
    text(field(node, "type"))
}

#[test]
fn serialize_domain_to_jsonld_contains_context_and_graph() {
    let doc = serialize_domain_to_jsonld(&sample_model(), context_document()).expect("serialize jsonld");
    assert!(field(&doc, "@context").is_some());
    let g = graph(&doc);
    assert!(g.iter().any(|n| type_of(n) == Some("Charter")));
    assert!(g.iter().any(|n| type_of(n) == Some("Plan")));
    assert!(g.iter().any(|n| type_of(n) == Some("Action")));
}

#[test]
fn jsonld_nodes_are_deterministically_sorted() {
    let doc = serialize_domain_to_jsonld(&sample_model(), context_document()).expect("serialize jsonld");
    let types: Vec<&str> = graph(&doc).iter().filter_map(type_of).collect();
    let charter_idx = types.iter().position(|t| *t == "Charter").unwrap();
    let context_idx = types.iter().position(|t| *t == "Context").unwrap();
    let plan_idx = types.iter().position(|t| *t == "Plan").unwrap();
    let action_idx = types.iter().position(|t| *t == "Action").unwrap();
    assert!(charter_idx < context_idx);
    assert!(context_idx < plan_idx);
    assert!(plan_idx < action_idx);
}

#[test]
fn plan_and_act_fields_follow_contract_names() {
    let doc = serialize_domain_to_jsonld(&sample_model(), context_document()).expect("serialize jsonld");
    let g = graph(&doc);
    let plan = g.iter().find(|n| type_of(n) == Some("Plan")).expect("plan node");
    assert!(field(plan, "actions").is_some());
    assert!(field(plan, "partOf").is_some());
    assert!(field(plan, "uuid").is_some());
    assert!(field(plan, "recurrence").is_some());

    let action = g.iter().find(|n| type_of(n) == Some("Action")).expect("action node");
    assert!(field(action, "name").is_some());
    assert!(field(action, "status").is_some());
    assert!(field(action, "scheduledAt").is_some());
    assert!(field(action, "durationMinutes").is_some());
    assert!(field(action, "externalScheduleId").is_some());
    assert!(field(action, "externalOccurrenceKey").is_some());
    assert_eq!(text(field(action, "status")), Some("InProgress"));
}

#[test]
fn context_ids_are_trimmed_unprefixed_lowercase_and_dashed() {
    assert_eq!(context_id("  @Deep Work "), "urn:context:deep-work");
    assert_eq!(context_id("home"), "urn:context:home");
}

#[test]
fn meta_records_provisional_contexts() {
    let doc = serialize_domain_to_jsonld(&sample_model(), context_document()).expect("serialize jsonld");
    let meta = field(&doc, "_meta").expect("_meta");
    let nodes = field(meta, "context_nodes").expect("context_nodes");
    assert_eq!(text(field(nodes, "status")), Some("provisional"));
    assert!(matches!(field(nodes, "count"), Some(Json::Number(n)) if n == "1"));
}

#[test]
fn no_contexts_means_no_meta_block() {
    let mut model = sample_model();
    model.charters[0].actions[0].contexts = None;
    let doc = serialize_domain_to_jsonld(&model, context_document()).expect("serialize jsonld");
    assert!(field(&doc, "_meta").is_none());
    assert!(!graph(&doc).iter().any(|n| type_of(n) == Some("Context")));
}

#[test]
fn missing_context_is_a_syntax_error() {
    let err = serialize_domain_to_jsonld(&sample_model(), Json::Object(vec![])).expect_err("no @context");
    assert_eq!(err.message(), "RDF syntax error: Vendored context missing @context");
}

#[test]
fn contexts_are_collected_once_per_identifier_in_identifier_order() {
    let mut a = Action::named(1, "a".to_string());
    a.contexts = Some(vec!["Work".to_string(), "home".to_string()]);
    let mut b = Action::named(2, "b".to_string());
    b.contexts = Some(vec!["work".to_string(), "@errands".to_string()]);
    let mut charter = Charter::titled(3, "C".to_string());
    charter.actions = vec![a, b];
    let model = DomainModel { charters: vec![charter] };
    assert_eq!(collect_contexts(&model), vec!["@errands", "home", "work"]);
}

#[test]
fn graph_is_sorted_by_rank_then_identifier() {
    let mut first = Charter::titled(uuid("019d7100-ffff-7fff-8fff-ffffffffffff"), "Zed".to_string());
    first.actions = vec![Action::named(uuid("019d7100-0002-7000-8000-000000000002"), "later".to_string())];
    let mut second = Charter::titled(uuid("019d7100-0000-7000-8000-000000000000"), "Alpha".to_string());
    second.actions = vec![Action::named(uuid("019d7100-0001-7000-8000-000000000001"), "sooner".to_string())];
    let model = DomainModel { charters: vec![first, second] };
    let doc = serialize_domain_to_jsonld(&model, context_document()).expect("serialize");
    let ids: Vec<&str> = graph(&doc).iter().filter_map(|n| text(field(n, "id"))).collect();
    assert_eq!(
        ids,
        vec![
            "urn:uuid:019d7100-0000-7000-8000-000000000000",
            "urn:uuid:019d7100-ffff-7fff-8fff-ffffffffffff",
            "urn:uuid:019d7100-0001-7000-8000-000000000001",
            "urn:uuid:019d7100-0002-7000-8000-000000000002",
        ]
    );
}

#[test]
fn sub_charters_resolve_by_alias_then_title() {
    let mut parent = Charter::titled(uuid("019d7100-0000-7000-8000-0000000000a1"), "Parent".to_string());
    parent.alias = Some("Par".to_string());
    let mut by_alias = Charter::titled(uuid("019d7100-0000-7000-8000-0000000000b1"), "Kid one".to_string());
    by_alias.parent = Some("par".to_string());
    let mut by_title = Charter::titled(uuid("019d7100-0000-7000-8000-0000000000b2"), "Kid two".to_string());
    by_title.parent = Some("PARENT".to_string());
    let model = DomainModel { charters: vec![parent, by_alias, by_title] };
    let doc = serialize_domain_to_jsonld(&model, context_document()).expect("serialize");
    let node = graph(&doc)
        .iter()
        .find(|n| text(field(n, "id")) == Some("urn:uuid:019d7100-0000-7000-8000-0000000000a1"))
        .expect("parent node");
    match field(node, "subCharters") {
        Some(Json::Array(kids)) => {
            let ids: Vec<&str> = kids.iter().filter_map(|k| text(Some(k))).collect();
            assert_eq!(
                ids,
                vec!["urn:uuid:019d7100-0000-7000-8000-0000000000b1", "urn:uuid:019d7100-0000-7000-8000-0000000000b2"]
            );
        },
        _ => panic!("expected two sub-charters"),
    }
}

#[test]
fn workspace_export_adds_source_locations() {
    let model = sample_model();
    let sources = vec![CharterSources {
        actions_file: Some("charters/platform/next.actions".to_string()),
        actions: vec![SourcedAction { id: uuid("019d7100-2222-7222-8222-222222222222"), start_row: Some(4) }],
    }];
    let doc = serialize_workspace_to_jsonld(&model, &sources, context_document()).expect("serialize");
    let ctx = field(&doc, "@context").expect("context");
    assert_eq!(text(field(ctx, "ws")), Some("https://clearhead.us/vocab/workspace/v1#"));
    assert_eq!(text(field(ctx, "sourceFile")), Some("ws:hasSourceFile"));
    let action = graph(&doc).iter().find(|n| type_of(n) == Some("Action")).expect("action");
    assert_eq!(text(field(action, "sourceFile")), Some("charters/platform/next.actions"));
    assert!(matches!(field(action, "sourceLine"), Some(Json::Number(n)) if n == "5"));
}

#[test]
fn workspace_export_without_sources_is_the_domain_export_with_workspace_context() {
    let model = sample_model();
    let domain = serialize_domain_to_jsonld(&model, context_document()).expect("domain");
    let workspace = serialize_workspace_to_jsonld(&model, &Vec::new(), context_document()).expect("workspace");
    assert_eq!(format!("{:?}", graph(&domain)), format!("{:?}", graph(&workspace)));
    assert_eq!(format!("{:?}", field(&domain, "_meta")), format!("{:?}", field(&workspace, "_meta")));
    let ctx = field(&workspace, "@context").expect("context");
    assert_eq!(text(field(ctx, "@vocab")), Some("https://clearhead.us/vocab/actions/v4#"));
    assert_eq!(text(field(ctx, "ws")), Some("https://clearhead.us/vocab/workspace/v1#"));
    assert!(field(field(&domain, "@context").expect("context"), "ws").is_none());
}

fn without_sources(j: &Json) -> String {
    match j {
        Json::Object(entries) => {
            let kept: Vec<String> = entries
                .iter()
                .filter(|(k, _)| k != "sourceFile" && k != "sourceLine")
                .map(|(k, v)| format!("{k}={v:?}"))
                .collect();
            kept.join(",")
        },
        other => format!("{other:?}"),
    }
}

#[test]
fn workspace_graph_is_domain_graph_plus_source_entries() {
    let model = sample_model();
    let sources = vec![CharterSources {
        actions_file: Some("charters/platform/next.actions".to_string()),
        actions: vec![SourcedAction { id: uuid("019d7100-2222-7222-8222-222222222222"), start_row: Some(4) }],
    }];
    let domain = serialize_domain_to_jsonld(&model, context_document()).expect("domain");
    let workspace = serialize_workspace_to_jsonld(&model, &sources, context_document()).expect("workspace");
    let d: Vec<String> = graph(&domain).iter().map(without_sources).collect();
    let w: Vec<String> = graph(&workspace).iter().map(without_sources).collect();
    assert_eq!(d, w);
    assert_ne!(format!("{:?}", graph(&domain)), format!("{:?}", graph(&workspace)));
}
