//! Response shapes: the contract side of query output.
//!
//! A shape declares the node properties its consumers require and frames raw
//! SELECT rows into one JSON-LD payload. The `index` shape frames ordered,
//! display-labeled, locator-bearing entries, each addressable by `@id`; row
//! order is kept as `@graph` array position.

use crate::error::GraphError;
use crate::json::{
    Json, JsonView, entries_insert, entry_views, insert_entry, json_views, push_entry, push_item,
};
use crate::query::{Row, lookup, rows_view};
use crate::text::{
    debug_string, debug_text, decimal, decimal_string, join, join_strings, parse_u64, parse_u64_str,
    str_eq,
};
use crate::vocab::{ACTIONS_NS, BFO_NS, CCO_NS, RDFS_NS, WORKSPACE_NS, XSD_NS};
use vstd::prelude::*;

verus! {

/// Identity, display and locator terms every index entry must carry. Sort
/// keys (`scheduled_at`, `due_date`, ...) are framed when bound and not
/// required.
pub open spec fn index_required() -> Seq<Seq<char>> {
    seq!["id"@, "name"@, "status"@, "source_file"@, "source_line"@, "charter_root"@]
}

/// Terms framed as JSON numbers rather than strings.
pub open spec fn is_integer_term(t: Seq<char>) -> bool {
    t == "source_line"@ || t == "priority"@
}

/// The required terms `row` leaves unbound, in the order of `required`.
pub open spec fn missing_terms(row: Seq<(Seq<char>, Seq<char>)>, required: Seq<Seq<char>>) -> Seq<
    Seq<char>,
>
    decreases required.len(),
{
    if required.len() == 0 {
        Seq::empty()
    } else {
        let rest = missing_terms(row, required.drop_last());
        if lookup(row, required.last()) is None {
            rest.push(required.last())
        } else {
            rest
        }
    }
}

/// The first row that misses a required term, if any.
pub open spec fn first_incomplete(rows: Seq<Seq<(Seq<char>, Seq<char>)>>, required: Seq<Seq<char>>) -> Option<int>
    decreases rows.len(),
{
    if rows.len() == 0 {
        None
    } else {
        match first_incomplete(rows.drop_last(), required) {
            Some(i) => Some(i),
            None => if missing_terms(rows.last(), required).len() > 0 {
                Some(rows.len() - 1)
            } else {
                None
            },
        }
    }
}

/// The message of a row that misses required terms.
pub open spec fn incomplete_message(i: int, missing: Seq<Seq<char>>) -> Seq<char> {
    "index row "@ + decimal(i as nat) + " is missing required terms: "@ + join(missing, ", "@)
}

/// `Ok` when every row binds every required term; otherwise the message for
/// the first row that does not.
pub open spec fn contract_check(rows: Seq<Seq<(Seq<char>, Seq<char>)>>, required: Seq<Seq<char>>) -> Result<(), Seq<char>> {
    match first_incomplete(rows, required) {
        Some(i) => Err(incomplete_message(i, missing_terms(rows[i], required))),
        None => Ok(()),
    }
}

/// The entries of the node framed from the bindings `b`, in binding order
/// (a later binding of a term replaces an earlier one); integer terms must
/// parse as unsigned 64-bit numbers.
pub open spec fn node_entries(b: Seq<(Seq<char>, Seq<char>)>) -> Result<Seq<(Seq<char>, JsonView)>, Seq<char>>
    decreases b.len(),
{
    if b.len() == 0 {
        Ok(Seq::empty())
    } else {
        match node_entries(b.drop_last()) {
            Err(m) => Err(m),
            Ok(e) => {
                let t = b.last().0;
                let v = b.last().1;
                if is_integer_term(t) {
                    match parse_u64(v) {
                        Some(n) => Ok(entries_insert(e, t, JsonView::Number(decimal(n)))),
                        None => Err(t + " is not an integer: "@ + debug_text(v)),
                    }
                } else {
                    Ok(entries_insert(e, t, JsonView::Str(v)))
                }
            },
        }
    }
}

/// The nodes framed from `rows`, in row order, or the first framing error.
pub open spec fn framed_nodes(rows: Seq<Seq<(Seq<char>, Seq<char>)>>) -> Result<Seq<JsonView>, Seq<char>>
    decreases rows.len(),
{
    if rows.len() == 0 {
        Ok(Seq::empty())
    } else {
        match framed_nodes(rows.drop_last()) {
            Err(m) => Err(m),
            Ok(nodes) => match node_entries(rows.last()) {
                Err(m) => Err(m),
                Ok(e) => Ok(nodes.push(JsonView::Object(e))),
            },
        }
    }
}

/// A JSON-LD term definition with `@id` and `@type`.
pub open spec fn typed_term(id: Seq<char>, ty: Seq<char>) -> JsonView {
    JsonView::Object(seq![("@id"@, JsonView::Str(id)), ("@type"@, JsonView::Str(ty))])
}

/// The index shape's `@context`: exactly the terms the shape emits. `id`
/// aliases `@id`; `status` values are bare terms typed `@vocab`, expanding
/// through the five status term definitions; `charter_root` is deliberately
/// unmapped.
pub open spec fn index_context_view() -> JsonView {
    JsonView::Object(
        seq![
            ("@version"@, JsonView::Number("1.1"@)),
            ("actions"@, JsonView::Str(ACTIONS_NS@)),
            ("bfo"@, JsonView::Str(BFO_NS@)),
            ("cco"@, JsonView::Str(CCO_NS@)),
            ("ws"@, JsonView::Str(WORKSPACE_NS@)),
            ("rdfs"@, JsonView::Str(RDFS_NS@)),
            ("xsd"@, JsonView::Str(XSD_NS@)),
            ("id"@, JsonView::Str("@id"@)),
            ("name"@, JsonView::Str("rdfs:label"@)),
            ("status"@, typed_term("cco:ont00001868"@, "@vocab"@)),
            ("NotStarted"@, JsonView::Str("actions:NotStarted"@)),
            ("InProgress"@, JsonView::Str("actions:InProgress"@)),
            ("Completed"@, JsonView::Str("actions:Completed"@)),
            ("Blocked"@, JsonView::Str("actions:Blocked"@)),
            ("Cancelled"@, JsonView::Str("actions:Cancelled"@)),
            ("source_file"@, JsonView::Str("ws:hasSourceFile"@)),
            ("source_line"@, typed_term("ws:hasSourceLine"@, "xsd:integer"@)),
            ("priority"@, typed_term("actions:hasPriority"@, "xsd:integer"@)),
            ("scheduled_at"@, typed_term("actions:hasScheduledDateTime"@, "xsd:dateTime"@)),
            ("due_date"@, typed_term("actions:hasDueDateTime"@, "xsd:dateTime"@)),
            ("parent"@, typed_term("bfo:BFO_0000050"@, "@id"@)),
        ],
    )
}

/// Setting a key and reading it back gives the value set.
proof fn lemma_get_after_insert(e: Seq<(Seq<char>, JsonView)>, k: Seq<char>, v: JsonView)
    ensures
        crate::json::entries_get(entries_insert(e, k, v), k) == Some(v),
{
    crate::json::lemma_key_index_spec(e, k);
    let r = entries_insert(e, k, v);
    crate::json::lemma_key_index_spec(r, k);
    match crate::json::key_index(e, k) {
        Some(i) => {
            assert(r[i].0 == k);
            if let Some(i2) = crate::json::key_index(r, k) {
                if i2 < i {
                    assert(r[i2] == e[i2]);
                }
            }
        },
        None => {
            assert(r.drop_last() =~= e);
        },
    }
}

/// Every term the index context types `xsd:integer` is framed as a JSON
/// number: binding such a term to a value that parses as the unsigned number
/// `n` sets the node's entry for it to the number `n`, whatever was bound
/// before.
pub proof fn lemma_integer_terms_frame_as_numbers(
    b: Seq<(Seq<char>, Seq<char>)>,
    t: Seq<char>,
    id: Seq<char>,
    v: Seq<char>,
    n: nat,
)
    requires
        index_context_view()->Object_0.contains((t, typed_term(id, "xsd:integer"@))),
        parse_u64(v) == Some(n),
        node_entries(b) is Ok,
    ensures
        node_entries(b.push((t, v))) matches Ok(e) && crate::json::entries_get(e, t) == Some(
            JsonView::Number(decimal(n)),
        ),
{
    reveal_strlit("xsd:integer");
    reveal_strlit("xsd:dateTime");
    reveal_strlit("@vocab");
    reveal_strlit("@id");
    let c = index_context_view()->Object_0;
    let i = choose|i: int| 0 <= i < c.len() && c[i] == (t, typed_term(id, "xsd:integer"@));
    assert("xsd:integer"@.len() == 11);
    assert("xsd:dateTime"@.len() == 12);
    assert("@vocab"@.len() == 6);
    assert("@id"@.len() == 3);
    let want = typed_term(id, "xsd:integer"@);
    assert(want->Object_0[1].1 == JsonView::Str("xsd:integer"@));
    if i == 9 || i == 18 || i == 19 || i == 20 {
        assert(c[i].1 == want);
        let got = c[i].1->Object_0[1].1;
        assert(got == JsonView::Str("xsd:integer"@));
        assert(got->Str_0.len() != 11);
        assert(false);
    }
    assert(i == 16 || i == 17);
    assert(is_integer_term(t));
    let bb = b.push((t, v));
    assert(bb.drop_last() =~= b);
    assert(bb.last() == (t, v));
    lemma_get_after_insert(node_entries(b)->Ok_0, t, JsonView::Number(decimal(n)));
}

/// The index document framed from `rows`: `@context` then `@graph`, the
/// nodes in row order; or the message of the contract or framing error.
pub open spec fn framed_index(rows: Seq<Seq<(Seq<char>, Seq<char>)>>) -> Result<JsonView, Seq<char>> {
    match contract_check(rows, index_required()) {
        Err(m) => Err(m),
        Ok(()) => match framed_nodes(rows) {
            Err(m) => Err(m),
            Ok(nodes) => Ok(
                JsonView::Object(
                    seq![("@context"@, index_context_view()), ("@graph"@, JsonView::Array(nodes))],
                ),
            ),
        },
    }
}

/// The terms every index entry must carry.
pub fn index_required_terms() -> (v: Vec<&'static str>)
    ensures
        v@.map_values(|s: &str| s@) == index_required(),
{
    let v = vec!["id", "name", "status", "source_file", "source_line", "charter_root"];
    assert(v@.map_values(|s: &str| s@) =~= index_required());
    v
}

fn missing_of(row: &Row, required: &Vec<&str>) -> (m: Vec<String>)
    ensures
        m@.map_values(|s: String| s@) == missing_terms(row@, required@.map_values(|s: &str| s@)),
{
    let ghost req = required@.map_values(|s: &str| s@);
    let mut out: Vec<String> = Vec::new();
    let mut i: usize = 0;
    while i < required.len()
        invariant
            req == required@.map_values(|s: &str| s@),
            i <= required@.len(),
            out@.map_values(|s: String| s@) == missing_terms(row@, req.subrange(0, i as int)),
        decreases required@.len() - i,
    {
        assert(req.subrange(0, i + 1).drop_last() == req.subrange(0, i as int));
        assert(req.subrange(0, i + 1).last() == required@[i as int]@);
        let t = required[i];
        let ghost before = out@;
        if row.get(t).is_none() {
            out.push(String::from_str(t));
            assert(out@.map_values(|s: String| s@) == before.map_values(|s: String| s@).push(t@));
        }
        i = i + 1;
    }
    assert(req.subrange(0, required@.len() as int) == req);
    out
}

/// Checks that every row binds every term of `required`; the error names the
/// first row that does not and the terms it misses.
pub fn validate_contract(rows: &Vec<Row>, required: &Vec<&str>) -> (r: Result<(), GraphError>)
    ensures
        match contract_check(rows_view(rows@), required@.map_values(|s: &str| s@)) {
            Ok(()) => r is Ok,
            Err(m) => r matches Err(GraphError::Contract(s)) && s@ == m,
        },
{
    let ghost rv = rows_view(rows@);
    let ghost req = required@.map_values(|s: &str| s@);
    let mut i: usize = 0;
    while i < rows.len()
        invariant
            rv == rows_view(rows@),
            req == required@.map_values(|s: &str| s@),
            i <= rows@.len(),
            first_incomplete(rv.subrange(0, i as int), req) is None,
        decreases rows@.len() - i,
    {
        assert(rv.subrange(0, i + 1).drop_last() == rv.subrange(0, i as int));
        assert(rv.subrange(0, i + 1).last() == rows@[i as int]@);
        let missing = missing_of(&rows[i], required);
        if missing.len() > 0 {
            proof {
                lemma_first_incomplete_extend(rv, req, i as int);
            }
            let mut s = String::from_str("index row ");
            let n = decimal_string(i as u64);
            s.append(n.as_str());
            s.append(" is missing required terms: ");
            let j = join_strings(&missing, ", ");
            s.append(j.as_str());
            return Err(GraphError::Contract(s));
        }
        i = i + 1;
    }
    assert(rv.subrange(0, rows@.len() as int) == rv);
    Ok(())
}

proof fn lemma_first_incomplete_extend(rows: Seq<Seq<(Seq<char>, Seq<char>)>>, req: Seq<Seq<char>>, i: int)
    requires
        0 <= i < rows.len(),
        first_incomplete(rows.subrange(0, i), req) is None,
        missing_terms(rows[i], req).len() > 0,
    ensures
        first_incomplete(rows, req) == Some(i),
    decreases rows.len() - i,
{
    if i + 1 < rows.len() {
        let d = rows.drop_last();
        assert(d.subrange(0, i) == rows.subrange(0, i));
        assert(d[i] == rows[i]);
        lemma_first_incomplete_extend(d, req, i);
    } else {
        assert(rows.drop_last() == rows.subrange(0, i));
    }
}

fn is_integer_term_str(t: &str) -> (b: bool)
    ensures
        b == is_integer_term(t@),
{
    str_eq(t, "source_line") || str_eq(t, "priority")
}

/// Frames one row as an index node.
fn index_node(row: &Row) -> (r: Result<Json, GraphError>)
    ensures
        match node_entries(row@) {
            Ok(e) => r matches Ok(j) && j@ == JsonView::Object(e),
            Err(m) => r matches Err(GraphError::Contract(s)) && s@ == m,
        },
{
    let ghost b = row@;
    let mut entries: Vec<(String, Json)> = Vec::new();
    let mut i: usize = 0;
    while i < row.bindings.len()
        invariant
            b == row@,
            b.len() == row.bindings@.len(),
            i <= b.len(),
            node_entries(b.subrange(0, i as int)) == Ok::<Seq<(Seq<char>, JsonView)>, Seq<char>>(entry_views(entries@)),
        decreases b.len() - i,
    {
        assert(b.subrange(0, i + 1).drop_last() == b.subrange(0, i as int));
        assert(b.subrange(0, i + 1).last() == b[i as int]);
        let (term, value) = &row.bindings[i];
        assert(b[i as int] == (term@, value@));
        if is_integer_term_str(term.as_str()) {
            match parse_u64_str(value.as_str()) {
                Some(n) => {
                    let text = decimal_string(n);
                    insert_entry(&mut entries, term.as_str(), Json::Number(text));
                },
                None => {
                    let mut s = term.clone();
                    s.append(" is not an integer: ");
                    let d = debug_string(value.as_str());
                    s.append(d.as_str());
                    proof {
                        lemma_node_entries_err(b, i as int);
                    }
                    return Err(GraphError::Contract(s));
                },
            }
        } else {
            insert_entry(&mut entries, term.as_str(), Json::Str(value.clone()));
        }
        i = i + 1;
    }
    assert(b.subrange(0, b.len() as int) == b);
    Ok(Json::Object(entries))
}

proof fn lemma_node_entries_err(b: Seq<(Seq<char>, Seq<char>)>, i: int)
    requires
        0 <= i < b.len(),
        node_entries(b.subrange(0, i + 1)) is Err,
    ensures
        node_entries(b) == node_entries(b.subrange(0, i + 1)),
    decreases b.len() - i,
{
    if i + 1 < b.len() {
        let d = b.drop_last();
        assert(d.subrange(0, i + 1) == b.subrange(0, i + 1));
        lemma_node_entries_err(d, i);
    } else {
        assert(b.subrange(0, i + 1) == b);
    }
}

proof fn lemma_framed_nodes_err(rows: Seq<Seq<(Seq<char>, Seq<char>)>>, i: int)
    requires
        0 <= i < rows.len(),
        framed_nodes(rows.subrange(0, i + 1)) is Err,
    ensures
        framed_nodes(rows) == framed_nodes(rows.subrange(0, i + 1)),
    decreases rows.len() - i,
{
    if i + 1 < rows.len() {
        let d = rows.drop_last();
        assert(d.subrange(0, i + 1) == rows.subrange(0, i + 1));
        lemma_framed_nodes_err(d, i);
    } else {
        assert(rows.subrange(0, i + 1) == rows);
    }
}

fn typed_term_json(id: &str, ty: &str) -> (j: Json)
    ensures
        j@ == typed_term(id@, ty@),
{
    let mut e: Vec<(String, Json)> = Vec::new();
    push_entry(&mut e, "@id", Json::Str(String::from_str(id)));
    push_entry(&mut e, "@type", Json::Str(String::from_str(ty)));
    assert(entry_views(e@) =~= seq![("@id"@, JsonView::Str(id@)), ("@type"@, JsonView::Str(ty@))]);
    Json::Object(e)
}

fn str_json(s: &str) -> (j: Json)
    ensures
        j@ == JsonView::Str(s@),
{
    Json::Str(String::from_str(s))
}

fn context_prefixes(e: &mut Vec<(String, Json)>)
    ensures
        entry_views(final(e)@) == entry_views(old(e)@) + seq![
            ("@version"@, JsonView::Number("1.1"@)),
            ("actions"@, JsonView::Str(ACTIONS_NS@)),
            ("bfo"@, JsonView::Str(BFO_NS@)),
            ("cco"@, JsonView::Str(CCO_NS@)),
            ("ws"@, JsonView::Str(WORKSPACE_NS@)),
            ("rdfs"@, JsonView::Str(RDFS_NS@)),
            ("xsd"@, JsonView::Str(XSD_NS@)),
        ],
{
    let ghost s0 = entry_views(e@);
    push_entry(e, "@version", Json::Number(String::from_str("1.1")));
    push_entry(e, "actions", str_json(ACTIONS_NS));
    push_entry(e, "bfo", str_json(BFO_NS));
    push_entry(e, "cco", str_json(CCO_NS));
    push_entry(e, "ws", str_json(WORKSPACE_NS));
    push_entry(e, "rdfs", str_json(RDFS_NS));
    push_entry(e, "xsd", str_json(XSD_NS));
    assert(entry_views(e@) =~= s0 + seq![
        ("@version"@, JsonView::Number("1.1"@)),
        ("actions"@, JsonView::Str(ACTIONS_NS@)),
        ("bfo"@, JsonView::Str(BFO_NS@)),
        ("cco"@, JsonView::Str(CCO_NS@)),
        ("ws"@, JsonView::Str(WORKSPACE_NS@)),
        ("rdfs"@, JsonView::Str(RDFS_NS@)),
        ("xsd"@, JsonView::Str(XSD_NS@)),
    ]);
}

fn context_status_terms(e: &mut Vec<(String, Json)>)
    ensures
        entry_views(final(e)@) == entry_views(old(e)@) + seq![
            ("id"@, JsonView::Str("@id"@)),
            ("name"@, JsonView::Str("rdfs:label"@)),
            ("status"@, typed_term("cco:ont00001868"@, "@vocab"@)),
            ("NotStarted"@, JsonView::Str("actions:NotStarted"@)),
            ("InProgress"@, JsonView::Str("actions:InProgress"@)),
            ("Completed"@, JsonView::Str("actions:Completed"@)),
            ("Blocked"@, JsonView::Str("actions:Blocked"@)),
            ("Cancelled"@, JsonView::Str("actions:Cancelled"@)),
        ],
{
    let ghost s0 = entry_views(e@);
    push_entry(e, "id", str_json("@id"));
    push_entry(e, "name", str_json("rdfs:label"));
    push_entry(e, "status", typed_term_json("cco:ont00001868", "@vocab"));
    push_entry(e, "NotStarted", str_json("actions:NotStarted"));
    push_entry(e, "InProgress", str_json("actions:InProgress"));
    push_entry(e, "Completed", str_json("actions:Completed"));
    push_entry(e, "Blocked", str_json("actions:Blocked"));
    push_entry(e, "Cancelled", str_json("actions:Cancelled"));
    assert(entry_views(e@) =~= s0 + seq![
        ("id"@, JsonView::Str("@id"@)),
        ("name"@, JsonView::Str("rdfs:label"@)),
        ("status"@, typed_term("cco:ont00001868"@, "@vocab"@)),
        ("NotStarted"@, JsonView::Str("actions:NotStarted"@)),
        ("InProgress"@, JsonView::Str("actions:InProgress"@)),
        ("Completed"@, JsonView::Str("actions:Completed"@)),
        ("Blocked"@, JsonView::Str("actions:Blocked"@)),
        ("Cancelled"@, JsonView::Str("actions:Cancelled"@)),
    ]);
}

fn context_property_terms(e: &mut Vec<(String, Json)>)
    ensures
        entry_views(final(e)@) == entry_views(old(e)@) + seq![
            ("source_file"@, JsonView::Str("ws:hasSourceFile"@)),
            ("source_line"@, typed_term("ws:hasSourceLine"@, "xsd:integer"@)),
            ("priority"@, typed_term("actions:hasPriority"@, "xsd:integer"@)),
            ("scheduled_at"@, typed_term("actions:hasScheduledDateTime"@, "xsd:dateTime"@)),
            ("due_date"@, typed_term("actions:hasDueDateTime"@, "xsd:dateTime"@)),
            ("parent"@, typed_term("bfo:BFO_0000050"@, "@id"@)),
        ],
{
    let ghost s0 = entry_views(e@);
    push_entry(e, "source_file", str_json("ws:hasSourceFile"));
    push_entry(e, "source_line", typed_term_json("ws:hasSourceLine", "xsd:integer"));
    push_entry(e, "priority", typed_term_json("actions:hasPriority", "xsd:integer"));
    push_entry(e, "scheduled_at", typed_term_json("actions:hasScheduledDateTime", "xsd:dateTime"));
    push_entry(e, "due_date", typed_term_json("actions:hasDueDateTime", "xsd:dateTime"));
    push_entry(e, "parent", typed_term_json("bfo:BFO_0000050", "@id"));
    assert(entry_views(e@) =~= s0 + seq![
        ("source_file"@, JsonView::Str("ws:hasSourceFile"@)),
        ("source_line"@, typed_term("ws:hasSourceLine"@, "xsd:integer"@)),
        ("priority"@, typed_term("actions:hasPriority"@, "xsd:integer"@)),
        ("scheduled_at"@, typed_term("actions:hasScheduledDateTime"@, "xsd:dateTime"@)),
        ("due_date"@, typed_term("actions:hasDueDateTime"@, "xsd:dateTime"@)),
        ("parent"@, typed_term("bfo:BFO_0000050"@, "@id"@)),
    ]);
}

/// The index shape's `@context`.
pub fn index_context() -> (j: Json)
    ensures
        j@ == index_context_view(),
{
    let mut e: Vec<(String, Json)> = Vec::new();
    context_prefixes(&mut e);
    context_status_terms(&mut e);
    context_property_terms(&mut e);
    assert(entry_views(e@) =~= match index_context_view() {
        JsonView::Object(s) => s,
        _ => Seq::empty(),
    });
    Json::Object(e)
}

/// Frames ordered SELECT rows into the index JSON-LD document: `@context`,
/// then `@graph` holding one node per row in row order. Every row must bind
/// every required term; empty rows frame as an empty `@graph`.
pub fn frame_index(rows: &Vec<Row>) -> (r: Result<Json, GraphError>)
    ensures
        match framed_index(rows_view(rows@)) {
            Ok(j) => r matches Ok(d) && d@ == j,
            Err(m) => r matches Err(GraphError::Contract(s)) && s@ == m,
        },
{
    let required = index_required_terms();
    validate_contract(rows, &required)?;
    let ghost rv = rows_view(rows@);
    assert(contract_check(rv, index_required()) is Ok);
    let mut nodes: Vec<Json> = Vec::new();
    let mut i: usize = 0;
    while i < rows.len()
        invariant
            rv == rows_view(rows@),
            contract_check(rv, index_required()) is Ok,
            i <= rows@.len(),
            framed_nodes(rv.subrange(0, i as int)) == Ok::<Seq<JsonView>, Seq<char>>(json_views(nodes@)),
        decreases rows@.len() - i,
    {
        assert(rv.subrange(0, i + 1).drop_last() == rv.subrange(0, i as int));
        assert(rv.subrange(0, i + 1).last() == rows@[i as int]@);
        let node = match index_node(&rows[i]) {
            Ok(n) => n,
            Err(e) => {
                proof {
                    assert(node_entries(rv[i as int]) is Err);
                    assert(framed_nodes(rv.subrange(0, i + 1)) == Err::<Seq<JsonView>, Seq<char>>(
                        node_entries(rv[i as int])->Err_0));
                    lemma_framed_nodes_err(rv, i as int);
                }
                return Err(e);
            },
        };
        push_item(&mut nodes, node);
        i = i + 1;
    }
    assert(rv.subrange(0, rows@.len() as int) == rv);
    let mut doc: Vec<(String, Json)> = Vec::new();
    push_entry(&mut doc, "@context", index_context());
    push_entry(&mut doc, "@graph", Json::Array(nodes));
    assert(entry_views(doc@) =~= seq![
        ("@context"@, index_context_view()),
        ("@graph"@, JsonView::Array(json_views(nodes@))),
    ]);
    Ok(Json::Object(doc))
}

} // verus!
