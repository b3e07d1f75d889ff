use clearhead::domain::{Action, ActionState, Charter, DomainModel};
use clearhead::load::{create_store, insert_quads, load_actions_into_store, load_turtle, load_turtle_into_graph};
use clearhead::rdf::{Quad, RdfTerm};
use clearhead::query::query_raw;
use clearhead::serialize::{
    PhaseFilter, dump_store_to_turtle, filter_model_by_phase, serialize_acts_to_turtle,
    serialize_closed_acts_to_turtle, serialize_open_acts_to_turtle,
};

fn model() -> DomainModel {
    let mut done = Action::named(1, "Done thing".to_string());
    done.state = ActionState::Completed;
    let mut dropped = Action::named(2, "Dropped thing".to_string());
    dropped.state = ActionState::Cancelled;
    let open = Action::named(3, "Open thing".to_string());
    let mut busy = Action::named(4, "Busy thing".to_string());
    busy.state = ActionState::InProgress;
    let mut mixed = Charter::titled(10, "Mixed".to_string());
    mixed.actions = vec![done, open, dropped, busy];
    let mut only_open = Charter::titled(11, "Open only".to_string());
    only_open.actions = vec![Action::named(5, "Another open".to_string())];
    DomainModel { charters: vec![mixed, only_open] }
}

#[test]
fn closed_filter_keeps_completed_and_cancelled_and_drops_empty_charters() {
    let filtered = filter_model_by_phase(&model(), PhaseFilter::Closed);
    assert_eq!(filtered.charters.len(), 1);
    let names: Vec<&str> = filtered.charters[0].actions.iter().map(|a| a.name.as_str()).collect();
    assert_eq!(names, vec!["Done thing", "Dropped thing"]);
    assert_eq!(filtered.charters[0].title, "Mixed");
}

#[test]
fn open_filter_keeps_the_rest() {
    let filtered = filter_model_by_phase(&model(), PhaseFilter::Open);
    assert_eq!(filtered.charters.len(), 2);
    let names: Vec<&str> = filtered.charters[0].actions.iter().map(|a| a.name.as_str()).collect();
    assert_eq!(names, vec!["Open thing", "Busy thing"]);
}

#[test]
fn phase_filters_split_every_action_once() {
    let m = model();
    let total: usize = m.charters.iter().map(|c| c.actions.len()).sum();
    let closed: usize = filter_model_by_phase(&m, PhaseFilter::Closed).charters.iter().map(|c| c.actions.len()).sum();
    let open: usize = filter_model_by_phase(&m, PhaseFilter::Open).charters.iter().map(|c| c.actions.len()).sum();
    assert_eq!(closed + open, total);
}

#[test]
fn turtle_round_trips_through_a_store() {
    let ttl = serialize_acts_to_turtle(&model(), 0).expect("turtle");
    assert!(ttl.contains("Done thing"));
    let mut store = create_store().expect("store");
    load_turtle(&mut store, &ttl).expect("reload");
    let mut direct = create_store().expect("store");
    let all: Vec<Action> = model().charters.into_iter().flat_map(|c| c.actions).collect();
    load_actions_into_store(&mut direct, &all).expect("load");
    assert!(store.len().unwrap() >= direct.len().unwrap());
}

#[test]
fn closed_and_open_turtle_hold_only_their_actions() {
    let closed = serialize_closed_acts_to_turtle(&model(), 0).expect("closed");
    assert!(closed.contains("Done thing") && closed.contains("Dropped thing"));
    assert!(!closed.contains("Open thing"));
    let open = serialize_open_acts_to_turtle(&model(), 0).expect("open");
    assert!(open.contains("Open thing") && open.contains("Another open"));
    assert!(!open.contains("Done thing"));
}

#[test]
fn dump_of_an_empty_store_is_empty() {
    let store = create_store().expect("store");
    let ttl = dump_store_to_turtle(&store).expect("dump");
    assert!(ttl.trim().is_empty());
}

#[test]
fn bad_turtle_is_a_syntax_error() {
    let mut store = create_store().expect("store");
    let err = load_turtle(&mut store, "this is not turtle").expect_err("syntax");
    assert!(err.message().starts_with("RDF syntax error: "));
}

#[test]
fn failed_turtle_load_leaves_the_store_unchanged() {
    let mut store = create_store().expect("store");
    load_turtle(&mut store, "<urn:a> <urn:p> <urn:b> .").expect("load");
    let before = store.len().unwrap();
    load_turtle(&mut store, "<urn:c> <urn:p> <urn:d> . this is not turtle").expect_err("syntax");
    assert_eq!(store.len().unwrap(), before);
}

#[test]
fn dump_holds_only_the_default_graph() {
    let mut store = create_store().expect("store");
    load_turtle(&mut store, "<urn:a> <urn:p> <urn:b> .").expect("default");
    load_turtle_into_graph(&mut store, "<urn:x> <urn:p> <urn:y> .", &Some("urn:g".to_string())).expect("named");
    let ttl = dump_store_to_turtle(&store).expect("dump");
    assert!(ttl.contains("urn:a"));
    assert!(!ttl.contains("urn:x"));
    let mut reloaded = create_store().expect("store");
    load_turtle(&mut reloaded, &ttl).expect("reload");
    assert_eq!(reloaded.len().unwrap(), 1);
}

#[test]
fn dump_then_reload_gives_the_same_default_graph() {
    let mut store = create_store().expect("store");
    let doc = "<urn:a> <urn:p> _:n .\n_:n <urn:q> \"v\"@en .\n<urn:a> <urn:r> [ <urn:s> 1 ] .\n";
    load_turtle(&mut store, doc).expect("load");
    assert_eq!(store.len().unwrap(), 4);
    let ttl = dump_store_to_turtle(&store).expect("dump");
    let mut reloaded = create_store().expect("store");
    load_turtle(&mut reloaded, &ttl).expect("reload");
    assert_eq!(reloaded.len().unwrap(), 4);
    let rows = query_raw(&reloaded, "SELECT ?v WHERE { <urn:a> <urn:p> ?n . ?n <urn:q> ?v }").expect("query");
    assert_eq!(rows.len(), 1);
    assert_eq!(rows[0].get("v").unwrap(), "v");
}

#[test]
fn loading_into_a_graph_adds_every_triple_there() {
    let mut store = create_store().expect("store");
    load_turtle_into_graph(&mut store, "<urn:a> <urn:p> <urn:b> .\n<urn:c> <urn:p> \"d\" .\n", &Some("urn:g".to_string()))
        .expect("load");
    assert_eq!(store.len().unwrap(), 2);
    let rows = query_raw(&store, "SELECT ?s WHERE { GRAPH <urn:g> { ?s <urn:p> ?o } } ORDER BY ?s").expect("query");
    assert_eq!(rows.len(), 2);
    assert_eq!(rows[0].get("s").unwrap(), "urn:a");
    assert_eq!(rows[1].get("s").unwrap(), "urn:c");
    assert!(dump_store_to_turtle(&store).expect("dump").trim().is_empty());
}

#[test]
fn literals_come_back_in_canonical_form() {
    let mut store = create_store().expect("store");
    let doc = "<urn:a> <urn:p> \"045\"^^<http://www.w3.org/2001/XMLSchema#integer> .\n\
               <urn:a> <urn:q> \"2026-01-01T00:00:00+00:00\"^^<http://www.w3.org/2001/XMLSchema#dateTime> .\n";
    load_turtle(&mut store, doc).expect("load");
    let rows = query_raw(&store, "SELECT ?n ?t WHERE { <urn:a> <urn:p> ?n ; <urn:q> ?t }").expect("query");
    assert_eq!(rows[0].get("n").unwrap(), "45");
    assert_eq!(rows[0].get("t").unwrap(), "2026-01-01T00:00:00Z");
    let ttl = dump_store_to_turtle(&store).expect("dump");
    assert!(!ttl.contains("045") && !ttl.contains("+00:00"));
    let mut reloaded = create_store().expect("store");
    load_turtle(&mut reloaded, &ttl).expect("reload");
    assert_eq!(reloaded.len().unwrap(), 2);
}

#[test]
fn a_tagless_lang_string_is_refused() {
    let mut store = create_store().expect("store");
    let quad = Quad {
        subject: RdfTerm::Iri("urn:a".to_string()),
        predicate: "urn:p".to_string(),
        object: RdfTerm::Literal(
            "v".to_string(),
            "http://www.w3.org/1999/02/22-rdf-syntax-ns#langString".to_string(),
            None,
        ),
        graph: None,
    };
    let err = insert_quads(&mut store, &vec![quad]).expect_err("tagless");
    assert!(err.message().starts_with("RDF syntax error: "));
    assert_eq!(store.len().unwrap(), 0);
}

#[test]
fn phase_exports_type_exactly_their_actions() {
    let q = "SELECT ?s WHERE { ?s a <https://clearhead.us/vocab/actions/v4#Action> }";
    let count = |ttl: &str| {
        let mut store = create_store().expect("store");
        load_turtle(&mut store, ttl).expect("load");
        query_raw(&store, q).expect("query").len()
    };
    let closed = count(&serialize_closed_acts_to_turtle(&model(), 0).expect("closed"));
    let open = count(&serialize_open_acts_to_turtle(&model(), 0).expect("open"));
    let all = count(&serialize_acts_to_turtle(&model(), 0).expect("all"));
    assert_eq!(closed, 2);
    assert_eq!(closed + open, all);
}

#[test]
fn loaded_actions_go_to_the_default_graph() {
    let mut store = create_store().expect("store");
    let all: Vec<Action> = model().charters.into_iter().flat_map(|c| c.actions).collect();
    load_actions_into_store(&mut store, &all).expect("load");
    assert!(store.len().unwrap() > 0);
    let named = query_raw(&store, "SELECT ?s WHERE { GRAPH ?g { ?s ?p ?o } }").expect("query");
    assert!(named.is_empty());
}
