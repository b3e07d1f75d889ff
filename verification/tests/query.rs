use clearhead::load::{create_store, load_turtle_into_graph};
use clearhead::query::{build_raw_where_query, build_where_query, query_action_ids, query_raw, validate_actions_vocabulary};
use clearhead::vocab::{
    ACTIONS_ACTION, ACTIONS_NS, CCO_IS_SUCCESSOR_OF, CCO_NS, CCO_PLAN, CCO_PRESCRIBED_BY, CCO_PRESCRIBES,
    CCO_STATUS_PROP, TRANSIENT_GRAPH_URI, workspace_graph_uri,
};

fn transient_graph() -> Option<String> {
    Some(TRANSIENT_GRAPH_URI.to_string())
}

fn violations_for(ttl: &str) -> Vec<String> {
    let mut store = create_store().expect("store");
    load_turtle_into_graph(&mut store, ttl, &transient_graph()).expect("load turtle");
    validate_actions_vocabulary(&store).expect("validate")
}

#[test]
fn build_raw_where_query_injects_standard_prefixes() {
    let q = build_raw_where_query("?s ?p ?o .");
    assert!(q.contains("PREFIX actions:"));
    assert!(q.contains("PREFIX cco:"));
    assert!(q.contains("SELECT * WHERE"));
}

#[test]
fn build_where_query_selects_uuid_of_matching_subjects() {
    let q = build_where_query("?s a ?t .", None, None);
    assert!(q.ends_with(
        "SELECT ?id WHERE { GRAPH ?g { ?s <https://clearhead.us/vocab/actions/v4#hasUUID> ?id . { ?s a ?t . } } }"
    ));
    assert!(q.starts_with("PREFIX actions: <https://clearhead.us/vocab/actions/v4#>\nPREFIX cco: <https://www.commoncoreontologies.org/>\n"));
}

#[test]
fn query_action_ids_reads_id_literal_bindings() {
    let mut store = create_store().expect("store");
    let ttl = format!(
        "@prefix actions: <{actions}> .\n\
         @prefix cco: <{cco}> .\n\
         <urn:uuid:019d7100-1111-7111-8111-111111111111> a cco:{plan} ;\n\
           actions:hasUUID \"019d7100-1111-7111-8111-111111111111\" .\n",
        actions = ACTIONS_NS,
        cco = CCO_NS,
        plan = CCO_PLAN,
    );
    load_turtle_into_graph(&mut store, &ttl, &transient_graph()).expect("load turtle");

    let sparql = format!(
        "SELECT ?id WHERE {{ ?s a <{cco}{plan}> ; <{actions}hasUUID> ?id . }}",
        cco = CCO_NS,
        plan = CCO_PLAN,
        actions = ACTIONS_NS,
    );

    let ids = query_action_ids(&store, &sparql).expect("query ids");
    assert_eq!(ids, vec!["019d7100-1111-7111-8111-111111111111"]);
}

#[test]
fn validate_actions_detects_missing_status() {
    let ttl = format!(
        "@prefix actions: <{actions}> .\n\
         @prefix cco: <{cco}> .\n\
          <urn:uuid:019d7100-2222-7222-8222-222222222222> a actions:{action} ;\n\
            actions:hasUUID \"019d7100-2222-7222-8222-222222222222\" ;\n\
            cco:{prescribed_by} <urn:uuid:019d7100-1111-7111-8111-111111111111> .\n",
        actions = ACTIONS_NS,
        cco = CCO_NS,
        action = ACTIONS_ACTION,
        prescribed_by = CCO_PRESCRIBED_BY,
    );
    let violations = violations_for(&ttl);
    assert!(violations.iter().any(|v| v.contains("missing a status")));
}

#[test]
fn raw_query_errors_on_boolean_queries() {
    let store = create_store().expect("store");
    let err = query_raw(&store, "ASK { ?s ?p ?o }").expect_err("expected error");
    assert!(err.message().contains("ASK queries not supported"));
}

#[test]
fn validates_prescribes_target_type() {
    let ttl = format!(
        "@prefix actions: <{actions}> .\n\
         @prefix cco: <{cco}> .\n\
         @prefix rdfs: <http://www.w3.org/2000/01/rdf-schema#> .\n\
         <urn:uuid:019d7100-1111-7111-8111-111111111111> a cco:{plan_class} ;\n\
           actions:hasUUID \"019d7100-1111-7111-8111-111111111111\" ;\n\
           rdfs:label \"Plan\" ;\n\
           cco:{prescribes} <urn:uuid:019d7100-9999-7999-8999-999999999999> .\n",
        actions = ACTIONS_NS,
        cco = CCO_NS,
        plan_class = CCO_PLAN,
        prescribes = CCO_PRESCRIBES,
    );
    let violations = violations_for(&ttl);
    assert!(violations.iter().any(|v| v.contains("PlanPrescribesShape")));
}

fn missing_uuid_ttl() -> String {
    format!(
        "@prefix actions: <{actions}> .\n\
         @prefix cco: <{cco}> .\n\
         <urn:uuid:019d7100-3333-7333-8333-333333333333> a actions:{action} ;\n\
           cco:{status} <{actions}NotStarted> .\n",
        actions = ACTIONS_NS,
        cco = CCO_NS,
        action = ACTIONS_ACTION,
        status = CCO_STATUS_PROP,
    )
}

fn completed_without_date_ttl() -> String {
    format!(
        "@prefix actions: <{actions}> .\n\
         @prefix cco: <{cco}> .\n\
         <urn:uuid:019d7100-4444-7444-8444-444444444444> a actions:{action} ;\n\
           actions:hasUUID \"019d7100-4444-7444-8444-444444444444\" ;\n\
           cco:{status} <{actions}Completed> .\n",
        actions = ACTIONS_NS,
        cco = CCO_NS,
        action = ACTIONS_ACTION,
        status = CCO_STATUS_PROP,
    )
}

fn recurrence_without_anchor_ttl() -> String {
    format!(
        "@prefix actions: <{actions}> .\n\
         @prefix cco: <{cco}> .\n\
         <urn:uuid:019d7100-5555-7555-8555-555555555555> a cco:{plan_cls} ;\n\
           actions:hasUUID \"019d7100-5555-7555-8555-555555555555\" ;\n\
           actions:hasRecurrenceRule \"FREQ=WEEKLY\" .\n",
        actions = ACTIONS_NS,
        cco = CCO_NS,
        plan_cls = CCO_PLAN,
    )
}

fn self_successor_ttl() -> String {
    format!(
        "@prefix cco: <{cco}> .\n\
         <urn:uuid:019d7100-6666-7666-8666-666666666666> cco:{successor} \
           <urn:uuid:019d7100-6666-7666-8666-666666666666> .\n",
        cco = CCO_NS,
        successor = CCO_IS_SUCCESSOR_OF,
    )
}

fn duplicate_alias_ttl() -> String {
    format!(
        "@prefix actions: <{actions}> .\n\
         @prefix cco: <{cco}> .\n\
         <urn:uuid:019d7100-7777-7777-8777-777777777771> a actions:{action} ;\n\
           actions:hasUUID \"019d7100-7777-7777-8777-777777777771\" ;\n\
           actions:hasAlias \"shared-alias\" ;\n\
           cco:{status} <{actions}NotStarted> .\n\
         <urn:uuid:019d7100-7777-7777-8777-777777777772> a actions:{action} ;\n\
           actions:hasUUID \"019d7100-7777-7777-8777-777777777772\" ;\n\
           actions:hasAlias \"shared-alias\" ;\n\
           cco:{status} <{actions}NotStarted> .\n",
        actions = ACTIONS_NS,
        cco = CCO_NS,
        action = ACTIONS_ACTION,
        status = CCO_STATUS_PROP,
    )
}

fn completed_with_date_ttl() -> String {
    format!(
        "@prefix actions: <{actions}> .\n\
         @prefix cco: <{cco}> .\n\
         @prefix xsd: <http://www.w3.org/2001/XMLSchema#> .\n\
         <urn:uuid:019d7100-8888-7888-8888-888888888888> a actions:{action} ;\n\
           actions:hasUUID \"019d7100-8888-7888-8888-888888888888\" ;\n\
           cco:{status} <{actions}Completed> ;\n\
           actions:hasCompletedDateTime \"2026-05-01T10:00:00Z\"^^xsd:dateTime .\n",
        actions = ACTIONS_NS,
        cco = CCO_NS,
        action = ACTIONS_ACTION,
        status = CCO_STATUS_PROP,
    )
}

#[test]
fn validates_missing_uuid_literal() {
    let violations = violations_for(&missing_uuid_ttl());
    assert!(
        violations.iter().any(|v| v.contains("UUIDShape")),
        "expected UUIDShape violation, got: {violations:?}"
    );
}

#[test]
fn validates_completed_action_requires_date() {
    let violations = violations_for(&completed_without_date_ttl());
    assert!(
        violations.iter().any(|v| v.contains("CompletedDateShape")),
        "expected CompletedDateShape violation, got: {violations:?}"
    );
}

#[test]
fn validates_recurrence_requires_scheduled_anchor() {
    let violations = violations_for(&recurrence_without_anchor_ttl());
    assert!(
        violations.iter().any(|v| v.contains("RecurrenceAnchorShape")),
        "expected RecurrenceAnchorShape violation, got: {violations:?}"
    );
}

#[test]
fn validates_self_successor_cycle() {
    let violations = violations_for(&self_successor_ttl());
    assert!(
        violations.iter().any(|v| v.contains("SuccessorCycleShape")),
        "expected SuccessorCycleShape violation, got: {violations:?}"
    );
}

#[test]
fn validates_duplicate_alias() {
    let violations = violations_for(&duplicate_alias_ttl());
    assert!(
        violations.iter().any(|v| v.contains("AliasUniquenessShape")),
        "expected AliasUniquenessShape violation, got: {violations:?}"
    );
}

#[test]
fn valid_completed_action_with_date_passes() {
    let violations = violations_for(&completed_with_date_ttl());
    assert!(
        !violations.iter().any(|v| v.contains("CompletedDateShape")),
        "completed action with date should not fire CompletedDateShape"
    );
}

#[test]
fn query_validates_missing_uuid_literal() {
    let violations = violations_for(&missing_uuid_ttl());
    assert!(
        violations.iter().any(|v| v.contains("UUIDShape")),
        "expected UUIDShape violation, got: {violations:?}"
    );
}

#[test]
fn query_validates_completed_action_requires_date() {
    let violations = violations_for(&completed_without_date_ttl());
    assert!(
        violations.iter().any(|v| v.contains("CompletedDateShape")),
        "expected CompletedDateShape violation, got: {violations:?}"
    );
}

#[test]
fn query_validates_recurrence_requires_scheduled_anchor() {
    let violations = violations_for(&recurrence_without_anchor_ttl());
    assert!(
        violations.iter().any(|v| v.contains("RecurrenceAnchorShape")),
        "expected RecurrenceAnchorShape violation, got: {violations:?}"
    );
}

#[test]
fn query_validates_self_successor_cycle() {
    let violations = violations_for(&self_successor_ttl());
    assert!(
        violations.iter().any(|v| v.contains("SuccessorCycleShape")),
        "expected SuccessorCycleShape violation, got: {violations:?}"
    );
}

#[test]
fn query_validates_duplicate_alias() {
    let violations = violations_for(&duplicate_alias_ttl());
    assert!(
        violations.iter().any(|v| v.contains("AliasUniquenessShape")),
        "expected AliasUniquenessShape violation, got: {violations:?}"
    );
}

#[test]
fn query_valid_completed_action_with_date_passes() {
    let violations = violations_for(&completed_with_date_ttl());
    assert!(
        !violations.iter().any(|v| v.contains("CompletedDateShape")),
        "completed action with date should not fire CompletedDateShape"
    );
}

#[test]
fn union_default_graph_means_no_graph_clause_matches_named_graphs() {
    let mut store = create_store().unwrap();
    let gn = Some(workspace_graph_uri("probe-uuid"));
    let ttl = r#"
@prefix actions: <https://clearhead.us/vocab/actions/v4#> .
@prefix rdfs: <http://www.w3.org/2000/01/rdf-schema#> .
<urn:uuid:bbbbbbbb-0000-7000-8000-000000000001> a actions:Action ; rdfs:label "Probe" .
"#;
    load_turtle_into_graph(&mut store, ttl, &gn).unwrap();

    let r1 = query_raw(&store, "PREFIX actions: <https://clearhead.us/vocab/actions/v4#> SELECT ?s WHERE { ?s a actions:Action }").unwrap();
    assert_eq!(
        r1.len(),
        1,
        "union default graph: no-GRAPH clause should find action in named graph; got {:?}",
        r1
    );

    let r2 = query_raw(&store, "PREFIX actions: <https://clearhead.us/vocab/actions/v4#> SELECT ?g ?s WHERE { GRAPH ?g { ?s a actions:Action } }").unwrap();
    assert_eq!(
        r2.len(),
        1,
        "GRAPH ?g should find action in named graph; got {:?}",
        r2
    );
    assert_eq!(r2[0].get("g").unwrap(), "urn:clearhead:workspace:probe-uuid");
}

#[test]
fn clean_graph_has_no_violations() {
    let store = create_store().expect("store");
    let violations = validate_actions_vocabulary(&store).expect("validate");
    assert!(violations.is_empty(), "empty store: {violations:?}");
}

#[test]
fn select_rows_carry_bound_terms_as_text() {
    let mut store = create_store().expect("store");
    let ttl = "<urn:a> <urn:p> \"lit\" .\n<urn:b> <urn:p> <urn:c> .\n";
    load_turtle_into_graph(&mut store, ttl, &transient_graph()).expect("load");
    let mut rows = query_raw(&store, "SELECT ?s ?o WHERE { ?s <urn:p> ?o } ORDER BY ?s").expect("query");
    assert_eq!(rows.len(), 2);
    let second = rows.pop().unwrap();
    let first = rows.pop().unwrap();
    assert_eq!(first.get("s").unwrap(), "urn:a");
    assert_eq!(first.get("o").unwrap(), "lit");
    assert_eq!(second.get("o").unwrap(), "urn:c");
    assert!(first.get("missing").is_none());
}

#[test]
fn graph_queries_are_errors() {
    let store = create_store().expect("store");
    let err = query_raw(&store, "CONSTRUCT { ?s ?p ?o } WHERE { ?s ?p ?o }").expect_err("construct");
    assert!(err.message().starts_with("SPARQL error: "));
}

#[test]
fn malformed_sparql_is_a_query_error() {
    let store = create_store().expect("store");
    let err = query_raw(&store, "SELEKT nonsense").expect_err("parse");
    assert!(err.message().starts_with("SPARQL error: "));
}

#[test]
fn charter_and_action_may_share_an_alias() {
    let ttl = format!(
        "@prefix actions: <{actions}> .\n\
         @prefix cco: <{cco}> .\n\
         <urn:uuid:c1> a actions:Charter ; actions:hasAlias \"platform\" .\n\
         <urn:uuid:a1> a actions:{action} ; actions:hasUUID \"a1\" ;\n\
           cco:{status} actions:NotStarted ; actions:hasAlias \"platform\" .\n",
        actions = ACTIONS_NS,
        cco = CCO_NS,
        action = ACTIONS_ACTION,
        status = CCO_STATUS_PROP,
    );
    let violations = violations_for(&ttl);
    assert_eq!(violations, Vec::<String>::new());
}

#[test]
fn declared_from_dataset_is_kept() {
    let mut store = create_store().expect("store");
    load_turtle_into_graph(&mut store, "<urn:a> <urn:b> <urn:c> .", &Some("urn:g1".to_string())).expect("load");
    let none = query_raw(&store, "SELECT ?x FROM <urn:g2> WHERE { ?x ?p ?o }").expect("query");
    assert!(none.is_empty());
    let one = query_raw(&store, "SELECT ?x FROM <urn:g1> WHERE { ?x ?p ?o }").expect("query");
    assert_eq!(one.len(), 1);
    assert_eq!(one[0].get("x").unwrap(), "urn:a");
}

#[test]
fn ask_and_construct_queries_name_their_form() {
    let store = create_store().expect("store");
    let ask = query_raw(&store, "ASK { ?s ?p ?o }").expect_err("ask");
    assert_eq!(ask.message(), "SPARQL error: ASK queries not supported; use SELECT");
    let construct = query_raw(&store, "CONSTRUCT { ?s ?p ?o } WHERE { ?s ?p ?o }").expect_err("construct");
    assert_eq!(construct.message(), "SPARQL error: CONSTRUCT/DESCRIBE not supported; use SELECT");
    let describe = query_raw(&store, "DESCRIBE <urn:a>").expect_err("describe");
    assert_eq!(describe.message(), "SPARQL error: CONSTRUCT/DESCRIBE not supported; use SELECT");
}

#[test]
fn action_ids_are_the_id_column_of_the_raw_rows() {
    let mut store = create_store().expect("store");
    let ttl = "<urn:x1> <urn:id> \"one\" .\n<urn:x2> <urn:id> \"two\" .\n<urn:x3> <urn:other> \"three\" .\n";
    load_turtle_into_graph(&mut store, ttl, &transient_graph()).expect("load");
    let q = "SELECT ?s ?id WHERE { ?s ?p ?o OPTIONAL { ?s <urn:id> ?id } } ORDER BY ?s";
    let rows = query_raw(&store, q).expect("rows");
    let column: Vec<String> = rows.iter().filter_map(|r| r.get("id")).collect();
    let ids = query_action_ids(&store, q).expect("ids");
    assert_eq!(ids, column);
    assert_eq!(ids, vec!["one".to_string(), "two".to_string()]);
}
