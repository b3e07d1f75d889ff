use chrono::{Offset, TimeZone};
use clearhead::domain::{Action, ActionState, Charter, DomainModel, Plan, PredecessorRef, Timestamp, WorkspaceConfig};
use clearhead::load::{create_store, load_actions_into_store, load_domain_model};
use clearhead::query::{query_action_ids, validate_actions_vocabulary};
use clearhead::vocab::{
    BFO_NS, CCO_IS_SUCCESSOR_OF, CCO_NS, CCO_PRESCRIBED_BY, RDF_NS, RDFS_NS, TRANSIENT_GRAPH_URI, XSD_NS,
};
use oxigraph::model::{LiteralRef, NamedNodeRef, TermRef};
use oxigraph::store::Store;

const ACTIONS: &str = "https://clearhead.us/vocab/actions/v4#";
const INBOX: u128 = 0x6ba7b811_9dad_11d1_80b4_00c04fd430c8;

fn uuid(s: &str) -> u128 {
    uuid::Uuid::parse_str(s).unwrap().as_u128()
}

fn local(y: i32, mo: u32, d: u32, h: u32, mi: u32) -> Timestamp {
    let dt = chrono::Local.with_ymd_and_hms(y, mo, d, h, mi, 0).unwrap();
    Timestamp::new(dt.timestamp(), 0, dt.offset().fix().local_minus_utc()).unwrap()
}

fn transient() -> Option<String> {
    Some(TRANSIENT_GRAPH_URI.to_string())
}

fn act(name: &str) -> String {
    format!("{ACTIONS}{name}")
}

fn has_term(store: &Store, subject: &str, predicate: &str, object: TermRef<'_>) -> bool {
    store
        .quads_for_pattern(
            Some(NamedNodeRef::new(subject).unwrap().into()),
            Some(NamedNodeRef::new(predicate).unwrap()),
            Some(object),
            None,
        )
        .next()
        .is_some()
}

fn has_predicate(store: &Store, subject: &str, predicate: &str) -> bool {
    store
        .quads_for_pattern(
            Some(NamedNodeRef::new(subject).unwrap().into()),
            Some(NamedNodeRef::new(predicate).unwrap()),
            None,
            None,
        )
        .next()
        .is_some()
}

fn iri(s: &str) -> TermRef<'_> {
    NamedNodeRef::new(s).unwrap().into()
}

fn sample_model() -> DomainModel {
    let plan_id = uuid("019d7100-1111-7111-8111-111111111111");
    let action_id = uuid("019d7100-2222-7222-8222-222222222222");
    let charter_id = uuid("019d7100-3333-7333-8333-333333333333");

    let mut plan = Plan::named(plan_id, "Write graph tests".to_string());
    plan.description = Some("Lock down graph semantics".to_string());
    plan.recurrence = Some("R:FREQ=WEEKLY;INTERVAL=2;BYDAY=MO,WE".to_string());
    plan.dtstart = Some(local(2026, 4, 7, 10, 0));

    let mut action = Action::named(action_id, "Write graph tests".to_string());
    action.description = Some("Lock down graph semantics".to_string());
    action.priority = Some(1);
    action.alias = Some("graph_tests".to_string());
    action.is_sequential = Some(true);
    action.predecessors = Some(vec![PredecessorRef {
        raw_ref: "019d7100-4444-7444-8444-444444444444".to_string(),
        resolved_uuid: Some(uuid("019d7100-4444-7444-8444-444444444444")),
    }]);
    action.plan_id = Some(plan_id);
    action.external_schedule_id = Some("weekly-review@example.com".to_string());
    action.external_occurrence_key = Some("2026-04-09T10:00:00-07:00".to_string());
    action.state = ActionState::InProgress;
    action.scheduled_at = Some(local(2026, 4, 9, 10, 0));
    action.duration = Some(45);
    action.created_at = Some(local(2026, 4, 9, 9, 0));

    let mut charter = Charter::titled(charter_id, "Platform".to_string());
    charter.description = Some("Platform charter".to_string());
    charter.alias = Some("platform".to_string());
    charter.plans = vec![plan];
    charter.actions = vec![action];
    DomainModel { charters: vec![charter] }
}

#[test]
fn load_domain_model_uses_canonical_v4_terms() {
    let mut store = create_store().expect("store");
    let model = sample_model();
    load_domain_model(&mut store, &model, None, &transient(), INBOX).expect("load model into graph");

    let plan = "urn:uuid:019d7100-1111-7111-8111-111111111111";
    let action = "urn:uuid:019d7100-2222-7222-8222-222222222222";
    let charter = "urn:uuid:019d7100-3333-7333-8333-333333333333";
    let label = format!("{RDFS_NS}label");
    let xsd_integer = format!("{XSD_NS}integer");
    assert!(has_term(&store, plan, &label, LiteralRef::new_simple_literal("Write graph tests").into()));
    assert!(has_term(&store, charter, &label, LiteralRef::new_simple_literal("Platform").into()));
    assert!(has_term(
        &store,
        plan,
        &act("hasUUID"),
        LiteralRef::new_simple_literal("019d7100-1111-7111-8111-111111111111").into()
    ));
    assert!(has_term(
        &store,
        plan,
        &act("hasRecurrenceRule"),
        LiteralRef::new_simple_literal("FREQ=WEEKLY;INTERVAL=2;BYDAY=MO,WE").into()
    ));
    assert!(has_term(&store, action, &format!("{CCO_NS}{CCO_PRESCRIBED_BY}"), iri(plan)));
    assert!(has_term(
        &store,
        action,
        &act("hasDurationMinutes"),
        LiteralRef::new_typed_literal("45", NamedNodeRef::new(&xsd_integer).unwrap()).into()
    ));
    assert!(has_term(
        &store,
        action,
        &act("hasExternalScheduleId"),
        LiteralRef::new_simple_literal("weekly-review@example.com").into()
    ));
    assert!(has_term(
        &store,
        action,
        &act("hasExternalOccurrenceKey"),
        LiteralRef::new_simple_literal("2026-04-09T10:00:00-07:00").into()
    ));
    assert!(has_predicate(&store, action, &act("hasCreatedDateTime")));

    assert!(!has_predicate(&store, plan, "http://schema.org/name"));
    assert!(!has_predicate(&store, plan, &act("id")));
    assert!(!has_predicate(&store, plan, &act("alias")));
    assert!(!has_predicate(&store, plan, &act("dependsOn")));
    assert!(!has_predicate(&store, plan, &act("isSequential")));
    assert!(!has_predicate(&store, plan, &act("hasRecurrence")));
    assert!(!has_predicate(&store, action, &act("duration")));
    assert!(!has_predicate(&store, action, &act("createdAt")));
    assert!(!has_predicate(&store, action, &act("prescribedBy")));
}

#[test]
fn canonical_graph_passes_validation_subset() {
    let mut store = create_store().expect("store");
    let model = sample_model();
    load_domain_model(&mut store, &model, None, &transient(), INBOX).expect("load model into graph");
    let violations = validate_actions_vocabulary(&store).expect("validate graph");
    assert!(violations.is_empty(), "violations: {violations:?}");
}

#[test]
fn sequential_parent_chains_children_in_document_order() {
    let charter_id = uuid("019d7100-5555-7555-8555-555555555555");
    let parent_id = uuid("019d7100-6666-7666-8666-666666666666");
    let child_a = "019d7100-7777-7777-8777-777777777777";
    let child_b = "019d7100-8888-7888-8888-888888888888";
    let child_c = "019d7100-9999-7999-8999-999999999999";
    let stray = "019d7100-aaaa-7aaa-8aaa-aaaaaaaaaaaa";

    let mut parent = Action::named(parent_id, "Deploy".to_string());
    parent.is_sequential = Some(true);
    let mut a = Action::named(uuid(child_a), "Backup".to_string());
    a.parent_id = Some(parent_id);
    let mut b = Action::named(uuid(child_b), "Migrate".to_string());
    b.parent_id = Some(parent_id);
    let mut c = Action::named(uuid(child_c), "Ship".to_string());
    c.parent_id = Some(parent_id);
    let free = Action::named(uuid(stray), "Freestanding".to_string());
    let mut charter = Charter::titled(charter_id, "Sequential".to_string());
    charter.actions = vec![parent, a, b, c, free];
    let model = DomainModel { charters: vec![charter] };

    let mut store = create_store().expect("store");
    load_domain_model(&mut store, &model, None, &transient(), INBOX).expect("load model into graph");

    let (a_uri, b_uri, c_uri) =
        (format!("urn:uuid:{child_a}"), format!("urn:uuid:{child_b}"), format!("urn:uuid:{child_c}"));
    let succ = format!("{CCO_NS}{CCO_IS_SUCCESSOR_OF}");
    assert!(!has_predicate(&store, &a_uri, &succ));
    assert!(has_term(&store, &b_uri, &succ, iri(&a_uri)));
    assert!(has_term(&store, &c_uri, &succ, iri(&b_uri)));
    assert!(!has_term(&store, &c_uri, &succ, iri(&a_uri)));
    let free_uri = format!("urn:uuid:{stray}");
    assert!(!has_predicate(&store, &free_uri, &succ));
}

fn action_with_contexts(contexts: Vec<&str>) -> DomainModel {
    let charter_id = uuid("019d7100-cccc-7ccc-8ccc-cccccccccccc");
    let action_id = uuid("019d7100-aaaa-7aaa-8aaa-aaaaaaaaaaaa");
    let mut action = Action::named(action_id, "Tagged action".to_string());
    action.contexts = Some(contexts.into_iter().map(String::from).collect());
    action.state = ActionState::NotStarted;
    let mut charter = Charter::titled(charter_id, "Test".to_string());
    charter.actions = vec![action];
    DomainModel { charters: vec![charter] }
}

fn hierarchy_config() -> WorkspaceConfig {
    WorkspaceConfig {
        tag_hierarchies: vec![
            ("computer".to_string(), vec!["terminal".to_string()]),
            ("terminal".to_string(), vec!["neovim".to_string()]),
        ],
        additional_workspaces: vec![],
    }
}

#[test]
fn context_triples_emitted_for_action_with_contexts() {
    let mut store = create_store().expect("store");
    let model = action_with_contexts(vec!["neovim", "work"]);
    load_domain_model(&mut store, &model, None, &transient(), INBOX).expect("load");

    let action = "urn:uuid:019d7100-aaaa-7aaa-8aaa-aaaaaaaaaaaa";
    assert!(has_term(&store, action, &act("requiresContext"), iri("urn:context:neovim")));
    assert!(has_term(&store, action, &act("requiresContext"), iri("urn:context:work")));
    assert!(has_term(
        &store,
        "urn:context:neovim",
        &format!("{RDF_NS}type"),
        iri("https://clearhead.us/vocab/actions/v4#Context")
    ));
    let xsd_string = format!("{XSD_NS}string");
    assert!(has_term(
        &store,
        "urn:context:neovim",
        &act("hasContextIdentifier"),
        LiteralRef::new_typed_literal("neovim", NamedNodeRef::new(&xsd_string).unwrap()).into()
    ));
}

#[test]
fn inject_context_hierarchy_emits_broader_narrower_triples() {
    let mut store = create_store().expect("store");
    let model = DomainModel { charters: vec![] };
    load_domain_model(&mut store, &model, Some(&hierarchy_config()), &transient(), INBOX).expect("inject");

    assert!(has_term(&store, "urn:context:terminal", &act("contextBroader"), iri("urn:context:computer")));
    assert!(has_term(&store, "urn:context:neovim", &act("contextBroader"), iri("urn:context:terminal")));
    assert!(has_term(&store, "urn:context:computer", &act("contextNarrower"), iri("urn:context:terminal")));
    assert!(has_term(&store, "urn:context:terminal", &act("contextNarrower"), iri("urn:context:neovim")));
}

#[test]
fn sparql_property_path_traverses_context_hierarchy() {
    let mut store = create_store().expect("store");
    let model = action_with_contexts(vec!["neovim"]);
    load_domain_model(&mut store, &model, Some(&hierarchy_config()), &transient(), INBOX).expect("load");

    let sparql = "
        PREFIX actions: <https://clearhead.us/vocab/actions/v4#>
        SELECT ?id WHERE {
            GRAPH ?g {
                ?action actions:hasUUID ?id .
                ?action actions:requiresContext ?ctx .
                ?ctx (actions:contextBroader)* <urn:context:computer> .
            }
        }
    ";
    let ids = query_action_ids(&store, sparql).expect("query");
    assert!(
        ids.contains(&"019d7100-aaaa-7aaa-8aaa-aaaaaaaaaaaa".to_string()),
        "neovim-tagged action not found under computer hierarchy; got: {:?}",
        ids
    );
}

#[test]
fn context_tags_are_normalized_into_one_node() {
    let mut store = create_store().expect("store");
    let model = action_with_contexts(vec!["+Deep Work"]);
    load_domain_model(&mut store, &model, None, &transient(), INBOX).expect("load");
    let action = "urn:uuid:019d7100-aaaa-7aaa-8aaa-aaaaaaaaaaaa";
    assert!(has_term(&store, action, &act("requiresContext"), iri("urn:context:deep-work")));
}

#[test]
fn invalid_context_iri_is_a_syntax_error() {
    let mut store = create_store().expect("store");
    let model = action_with_contexts(vec!["a<b"]);
    let err = load_domain_model(&mut store, &model, None, &transient(), INBOX).expect_err("invalid IRI");
    assert!(err.message().starts_with("RDF syntax error: "));
}

#[test]
fn loading_twice_changes_nothing() {
    let mut store = create_store().expect("store");
    let model = sample_model();
    load_domain_model(&mut store, &model, None, &transient(), INBOX).expect("load");
    let once = store.len().unwrap();
    load_domain_model(&mut store, &model, None, &transient(), INBOX).expect("reload");
    assert_eq!(store.len().unwrap(), once);
}

#[test]
fn unknown_parent_title_uses_inbox_namespace_uuid() {
    let mut child = Charter::titled(uuid("019d7100-dddd-7ddd-8ddd-dddddddddddd"), "Child".to_string());
    child.parent = Some("Missing".to_string());
    let known_parent = Charter::titled(uuid("019d7100-eeee-7eee-8eee-eeeeeeeeeeee"), "Known".to_string());
    let mut second = Charter::titled(uuid("019d7100-ffff-7fff-8fff-ffffffffffff"), "Second".to_string());
    second.parent = Some("KNOWN".to_string());
    let model = DomainModel { charters: vec![child, known_parent, second] };
    let mut store = create_store().expect("store");
    load_domain_model(&mut store, &model, None, &transient(), INBOX).expect("load");

    let inbox = uuid::Uuid::from_u128(INBOX);
    let missing = uuid::Uuid::new_v5(&inbox, b"Missing");
    assert!(has_term(
        &store,
        &format!("urn:uuid:{missing}"),
        &act("hasSubCharter"),
        iri("urn:uuid:019d7100-dddd-7ddd-8ddd-dddddddddddd")
    ));
    assert!(has_term(
        &store,
        "urn:uuid:019d7100-eeee-7eee-8eee-eeeeeeeeeeee",
        &act("hasSubCharter"),
        iri("urn:uuid:019d7100-ffff-7fff-8fff-ffffffffffff")
    ));
}

#[test]
fn archived_actions_go_to_the_default_graph() {
    let mut store = create_store().expect("store");
    let actions = vec![Action::named(uuid("019d7100-2222-7222-8222-222222222222"), "Archived".to_string())];
    load_actions_into_store(&mut store, &actions).expect("load");
    let in_default = store
        .quads_for_pattern(None, None, None, Some(oxigraph::model::GraphNameRef::DefaultGraph))
        .count();
    assert_eq!(in_default, store.len().unwrap());
    assert!(has_term(
        &store,
        "urn:uuid:019d7100-2222-7222-8222-222222222222",
        &format!("{CCO_NS}ont00001868"),
        iri(&act("NotStarted"))
    ));
}

#[test]
fn loose_actions_are_parts_of_their_charter() {
    let mut model = sample_model();
    let loose = Action::named(uuid("019d7100-abcd-7abc-8abc-abcdabcdabcd"), "Loose".to_string());
    model.charters[0].actions.push(loose);
    let mut store = create_store().expect("store");
    load_domain_model(&mut store, &model, None, &transient(), INBOX).expect("load");
    let has_part = format!("{BFO_NS}BFO_0000051");
    let charter = "urn:uuid:019d7100-3333-7333-8333-333333333333";
    assert!(has_term(&store, charter, &has_part, iri("urn:uuid:019d7100-abcd-7abc-8abc-abcdabcdabcd")));
    assert!(has_term(&store, charter, &has_part, iri("urn:uuid:019d7100-1111-7111-8111-111111111111")));
    assert!(!has_term(&store, charter, &has_part, iri("urn:uuid:019d7100-2222-7222-8222-222222222222")));
}
