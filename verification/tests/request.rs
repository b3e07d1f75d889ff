use clearhead::json::Json;
use clearhead::query::Row;
use clearhead::request::{QueryOutput, check_query_request, query_response};

#[test]
fn rejects_unknown_contract_version_before_loading_workspace() {
    let error = check_query_request(2, "SELECT * WHERE {}").unwrap_err();
    assert!(error.contains("expected 1"), "{error}");
    assert_eq!(error, "unsupported graphd query request version 2; expected 1");
}

#[test]
fn accepts_version_one_with_sparql() {
    assert!(check_query_request(1, "SELECT * WHERE {}").is_ok());
}

#[test]
fn rejects_blank_sparql() {
    let error = check_query_request(1, "  \n\t ").unwrap_err();
    assert_eq!(error, "graphd query request contains empty SPARQL");
}

#[test]
fn rows_response_is_an_array_of_string_maps() {
    let rows = vec![Row { bindings: vec![("s".to_string(), "urn:uuid:x".to_string())] }];
    let doc = query_response(&rows, QueryOutput::Rows).expect("rows");
    match doc {
        Json::Array(items) => {
            assert_eq!(items.len(), 1);
            match &items[0] {
                Json::Object(entries) => {
                    assert_eq!(entries.len(), 1);
                    assert_eq!(entries[0].0, "s");
                    assert!(matches!(&entries[0].1, Json::Str(v) if v == "urn:uuid:x"));
                },
                _ => panic!("expected an object"),
            }
        },
        _ => panic!("expected an array"),
    }
}

#[test]
fn empty_result_is_an_empty_array() {
    let doc = query_response(&vec![], QueryOutput::Rows).expect("rows");
    assert!(matches!(doc, Json::Array(v) if v.is_empty()));
}

#[test]
fn index_response_enforces_the_contract() {
    let rows = vec![Row { bindings: vec![("id".to_string(), "urn:uuid:x".to_string())] }];
    let err = query_response(&rows, QueryOutput::IndexJsonld).expect_err("contract");
    assert!(err.message().starts_with("Shape contract violation: "));
}
