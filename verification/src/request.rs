//! The graph daemon's query request: its compatibility check and the shape
//! of its response.

use crate::error::GraphError;
use crate::json::{Json, JsonView, entry_views, json_views, push_entry, push_item};
use crate::query::{Row, rows_view};
use crate::shape::{frame_index, framed_index};
use crate::text::{decimal, decimal_string, trim, trim_ws};
use vstd::prelude::*;

verus! {

/// The request version this daemon speaks.
pub const REQUEST_VERSION: u32 = 1;

/// What a query request asks for.
#[derive(Clone, Copy, Debug, PartialEq, Eq)]
pub enum QueryOutput {
    /// The raw rows.
    Rows,
    /// The rows framed as the index JSON-LD document.
    IndexJsonld,
}

/// Why a request is refused, if it is: another version than 1, or SPARQL
/// that is empty once trimmed.
pub open spec fn request_refusal(version: u32, sparql: Seq<char>) -> Option<Seq<char>> {
    if version != 1 {
        Some("unsupported graphd query request version "@ + decimal(version as nat) + "; expected 1"@)
    } else if trim_ws(sparql).len() == 0 {
        Some("graphd query request contains empty SPARQL"@)
    } else {
        None
    }
}

/// Checks a query request before any workspace is loaded.
pub fn check_query_request(version: u32, sparql: &str) -> (r: Result<(), String>)
    ensures
        match request_refusal(version, sparql@) {
            Some(m) => r matches Err(e) && e@ == m,
            None => r is Ok,
        },
{
    if version != REQUEST_VERSION {
        let mut m = String::from_str("unsupported graphd query request version ");
        let v = decimal_string(version as u64);
        m.append(v.as_str());
        m.append("; expected 1");
        return Err(m);
    }
    let t = trim(sparql);
    if t.as_str().unicode_len() == 0 {
        return Err(String::from_str("graphd query request contains empty SPARQL"));
    }
    Ok(())
}

/// One row as a JSON object of string values.
pub open spec fn row_json(b: Seq<(Seq<char>, Seq<char>)>) -> JsonView {
    JsonView::Object(b.map_values(|p: (Seq<char>, Seq<char>)| (p.0, JsonView::Str(p.1))))
}

fn row_to_json(row: &Row) -> (j: Json)
    ensures
        j@ == row_json(row@),
{
    let ghost bv = row@;
    let mut e: Vec<(String, Json)> = Vec::new();
    let mut i: usize = 0;
    while i < row.bindings.len()
        invariant
            bv == row@,
            i <= row.bindings@.len(),
            entry_views(e@) == bv.subrange(0, i as int).map_values(|p: (Seq<char>, Seq<char>)| (p.0, JsonView::Str(p.1))),
        decreases row.bindings@.len() - i,
    {
        let k = &row.bindings[i].0;
        let v = &row.bindings[i].1;
        push_entry(&mut e, k.as_str(), Json::Str(v.clone()));
        proof {
            assert(bv.subrange(0, i + 1) =~= bv.subrange(0, i as int).push(bv[i as int]));
            crate::domain::lemma_map_push(bv.subrange(0, i as int), bv[i as int], |p: (Seq<char>, Seq<char>)| (p.0, JsonView::Str(p.1)));
        }
        i = i + 1;
    }
    assert(bv.subrange(0, row.bindings@.len() as int) =~= bv);
    Json::Object(e)
}

/// The rows as a JSON array of objects.
pub fn rows_to_json(rows: &Vec<Row>) -> (j: Json)
    ensures
        j@ == JsonView::Array(rows_view(rows@).map_values(|b: Seq<(Seq<char>, Seq<char>)>| row_json(b))),
{
    let ghost rv = rows_view(rows@);
    let mut items: Vec<Json> = Vec::new();
    let mut i: usize = 0;
    while i < rows.len()
        invariant
            rv == rows_view(rows@),
            i <= rows@.len(),
            json_views(items@) == rv.subrange(0, i as int).map_values(|b: Seq<(Seq<char>, Seq<char>)>| row_json(b)),
        decreases rows@.len() - i,
    {
        push_item(&mut items, row_to_json(&rows[i]));
        proof {
            assert(rv.subrange(0, i + 1) =~= rv.subrange(0, i as int).push(rv[i as int]));
            crate::domain::lemma_map_push(rv.subrange(0, i as int), rv[i as int], |b: Seq<(Seq<char>, Seq<char>)>| row_json(b));
        }
        i = i + 1;
    }
    assert(rv.subrange(0, rows@.len() as int) =~= rv);
    Json::Array(items)
}

/// The response to a query: the rows, or the rows framed as the index
/// document (a framing contract violation is an error).
pub fn query_response(rows: &Vec<Row>, output: QueryOutput) -> (r: Result<Json, GraphError>)
    ensures
        output == QueryOutput::Rows ==> (r matches Ok(j) && j@ == JsonView::Array(
            rows_view(rows@).map_values(|b: Seq<(Seq<char>, Seq<char>)>| row_json(b)),
        )),
        output == QueryOutput::IndexJsonld ==> match framed_index(rows_view(rows@)) {
            Ok(j) => r matches Ok(d) && d@ == j,
            Err(m) => r matches Err(GraphError::Contract(s)) && s@ == m,
        },
{
    match output {
        QueryOutput::Rows => Ok(rows_to_json(rows)),
        QueryOutput::IndexJsonld => frame_index(rows),
    }
}

} // verus!
