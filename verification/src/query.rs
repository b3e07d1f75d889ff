//! SPARQL query building, execution against the store, and the vocabulary
//! checks.

use crate::error::GraphError;
use crate::rdf::{stringify_term, term_text};
use crate::rdf::{QuadView, TermView};
use crate::store::{
    DatasetView, QueryOutcome, execute_query, from_ox_term, opt_term_view,
    parse_sparql, set_default_graph_as_union, solutions_view, sparql_answer, sparql_head, store_quads,
    uses_default_dataset, vars_view,
};
use crate::vocab::{ACTIONS_NS, CCO_NS, BFO_NS, RDFS_NS, RDF_NS, XSD_NS, SKOS_NS, ACTIONS_ACTION, CCO_PLAN, CCO_STATUS_PROP, CCO_PRESCRIBES, CCO_IS_SUCCESSOR_OF};
use oxigraph::model::Term as OxTerm;
use oxigraph::store::Store;
use vstd::prelude::*;

verus! {

/// One solution of a SELECT query: the bound variables, in projection order,
/// each with the text of its value.
#[derive(Clone, Debug)]
pub struct Row {
    pub bindings: Vec<(String, String)>,
}

/// The view of one binding.
pub open spec fn binding_view(b: (String, String)) -> (Seq<char>, Seq<char>) {
    (b.0@, b.1@)
}

impl View for Row {
    type V = Seq<(Seq<char>, Seq<char>)>;

    open spec fn view(&self) -> Seq<(Seq<char>, Seq<char>)> {
        self.bindings@.map_values(|b: (String, String)| binding_view(b))
    }
}

/// The value bound to `key` by the first binding for it.
pub open spec fn lookup(b: Seq<(Seq<char>, Seq<char>)>, key: Seq<char>) -> Option<Seq<char>>
    decreases b.len(),
{
    if b.len() == 0 {
        None
    } else if b[0].0 == key {
        Some(b[0].1)
    } else {
        lookup(b.drop_first(), key)
    }
}

proof fn lemma_lookup_prefix(b: Seq<(Seq<char>, Seq<char>)>, key: Seq<char>, i: int)
    requires
        0 <= i < b.len(),
        forall|k: int| 0 <= k < i ==> b[k].0 != key,
    ensures
        lookup(b, key) == lookup(b.subrange(i, b.len() as int), key),
    decreases i,
{
    if i > 0 {
        let t = b.drop_first();
        assert forall|k: int| 0 <= k < i - 1 implies t[k].0 != key by {
            assert(t[k] == b[k + 1]);
        }
        lemma_lookup_prefix(t, key, i - 1);
        assert(t.subrange(i - 1, t.len() as int) == b.subrange(i, b.len() as int));
    } else {
        assert(b.subrange(0, b.len() as int) == b);
    }
}

impl Row {
    /// The value bound to `key`, if any.
    pub fn get(&self, key: &str) -> (r: Option<String>)
        ensures
            opt_string_view(r) == lookup(self@, key@),
    {
        let ghost b = self@;
        let mut i: usize = 0;
        while i < self.bindings.len()
            invariant
                b == self@,
                b.len() == self.bindings@.len(),
                i <= b.len(),
                forall|k: int| 0 <= k < i ==> b[k].0 != key@,
            decreases self.bindings@.len() - i,
        {
            let (k, v) = &self.bindings[i];
            assert(b[i as int] == binding_view(self.bindings@[i as int]));
            if crate::text::str_eq(k.as_str(), key) {
                proof {
                    lemma_lookup_prefix(b, key@, i as int);
                }
                return Some(v.clone());
            }
            i = i + 1;
        }
        proof {
            assert forall|j: int| 0 <= j <= b.len() implies lookup(b.subrange(j, b.len() as int), key@)
                is None by {
                lemma_lookup_none_suffix(b, key@, j);
            }
            assert(b.subrange(0, b.len() as int) == b);
        }
        None
    }
}

proof fn lemma_lookup_none_suffix(b: Seq<(Seq<char>, Seq<char>)>, key: Seq<char>, j: int)
    requires
        0 <= j <= b.len(),
        forall|k: int| 0 <= k < b.len() ==> b[k].0 != key,
    ensures
        lookup(b.subrange(j, b.len() as int), key) is None,
    decreases b.len() - j,
{
    let s = b.subrange(j, b.len() as int);
    if j < b.len() {
        assert(s[0] == b[j]);
        assert(s.drop_first() == b.subrange(j + 1, b.len() as int));
        lemma_lookup_none_suffix(b, key, j + 1);
    }
}

/// The view of an optional string.
pub open spec fn opt_string_view(o: Option<String>) -> Option<Seq<char>> {
    match o {
        Some(s) => Some(s@),
        None => None,
    }
}

/// The bindings of one solution: each variable that is bound, with the text of
/// its value, in projection order.
pub open spec fn solution_bindings(vars: Seq<Seq<char>>, sol: Seq<Option<TermView>>) -> Seq<
    (Seq<char>, Seq<char>),
>
    decreases vars.len(),
{
    if vars.len() == 0 {
        Seq::empty()
    } else {
        let rest = solution_bindings(vars.drop_last(), sol);
        let i = vars.len() - 1;
        if i < sol.len() && sol[i] is Some {
            rest.push((vars.last(), term_text(sol[i]->Some_0)))
        } else {
            rest
        }
    }
}

/// The rows of an answer: one row per solution.
pub open spec fn answer_rows(vars: Seq<Seq<char>>, sols: Seq<Seq<Option<TermView>>>) -> Seq<
    Seq<(Seq<char>, Seq<char>)>,
> {
    Seq::new(sols.len(), |i: int| solution_bindings(vars, sols[i]))
}

/// The dataset this library evaluates the SELECT query `text` over: the one
/// the query declares, or else the union of all graphs as the default graph.
pub open spec fn select_dataset(text: Seq<char>) -> DatasetView {
    if sparql_head(text) matches Some(h) && h.declares_dataset {
        DatasetView::Declared
    } else {
        DatasetView::Union
    }
}

/// Whether `rows` are the rows of an answer the evaluation gives to the SELECT
/// query `text` on a store holding `quads`, over [`select_dataset`].
pub open spec fn select_answer(quads: Set<QuadView>, text: Seq<char>, rows: Seq<Seq<(Seq<char>, Seq<char>)>>) -> bool {
    exists|vars: Seq<Seq<char>>, sols: Seq<Seq<Option<TermView>>>|
        #[trigger] sparql_answer(quads, text, select_dataset(text), vars, sols) && rows == answer_rows(vars, sols)
}

/// Whether the SPARQL parser accepts `text` as a SELECT query.
pub open spec fn is_select(text: Seq<char>) -> bool {
    sparql_head(text) matches Some(h) && h.form is Select
}

/// The message of a query result that is not a SELECT solution sequence.
pub open spec fn not_select_message(ask: bool) -> Seq<char> {
    if ask {
        "ASK queries not supported; use SELECT"@
    } else {
        "CONSTRUCT/DESCRIBE not supported; use SELECT"@
    }
}

/// The rows a query outcome stands for: one row per solution, or the message
/// of the error an ASK, CONSTRUCT or DESCRIBE query gives.
pub open spec fn outcome_rows(o: QueryOutcome) -> Result<Seq<Seq<(Seq<char>, Seq<char>)>>, Seq<char>> {
    match o {
        QueryOutcome::Solutions(vars, sols) => Ok(answer_rows(vars_view(vars@), solutions_view(sols@))),
        QueryOutcome::Boolean => Err(not_select_message(true)),
        QueryOutcome::Graph => Err(not_select_message(false)),
    }
}

/// The views of a sequence of rows.
pub open spec fn rows_view(rows: Seq<Row>) -> Seq<Seq<(Seq<char>, Seq<char>)>> {
    rows.map_values(|r: Row| r@)
}

/// Whether `r` is the result `outcome_rows` describes.
pub open spec fn matches_outcome(r: Result<Vec<Row>, GraphError>, o: Result<Seq<Seq<(Seq<char>, Seq<char>)>>, Seq<char>>) -> bool {
    match o {
        Ok(rows) => r matches Ok(v) && rows_view(v@) == rows,
        Err(m) => r matches Err(GraphError::Query(s)) && s@ == m,
    }
}

fn solution_row(vars: &Vec<String>, sol: &Vec<Option<OxTerm>>) -> (row: Row)
    ensures
        row@ == solution_bindings(vars_view(vars@), sol@.map_values(|t: Option<OxTerm>| opt_term_view(t))),
{
    let ghost vs = vars_view(vars@);
    let ghost sv = sol@.map_values(|t: Option<OxTerm>| opt_term_view(t));
    let mut bindings: Vec<(String, String)> = Vec::new();
    let mut i: usize = 0;
    while i < vars.len()
        invariant
            vs == vars_view(vars@),
            sv == sol@.map_values(|t: Option<OxTerm>| opt_term_view(t)),
            i <= vars@.len(),
            bindings@.map_values(|b: (String, String)| binding_view(b)) == solution_bindings(vs.subrange(0, i as int), sv),
        decreases vars@.len() - i,
    {
        let ghost before = bindings@;
        assert(vs.subrange(0, i + 1).drop_last() == vs.subrange(0, i as int));
        if i < sol.len() {
            assert(sv[i as int] == opt_term_view(sol@[i as int]));
            match &sol[i] {
                Some(t) => {
                    let text = stringify_term(&from_ox_term(t));
                    bindings.push((vars[i].clone(), text));
                    assert(bindings@.map_values(|b: (String, String)| binding_view(b)) == before.map_values(|b: (String, String)| binding_view(b)).push((vs[i as int], term_text(sv[i as int]->Some_0))));
                },
                None => {},
            }
        }
        i = i + 1;
    }
    assert(vs.subrange(0, vars@.len() as int) == vs);
    Row { bindings }
}

/// Turns a query outcome into rows: one row per solution, holding each bound
/// variable with the text of its value; an ASK, CONSTRUCT or DESCRIBE result is
/// a query error.
pub fn rows_from_outcome(outcome: QueryOutcome) -> (r: Result<Vec<Row>, GraphError>)
    ensures
        matches_outcome(r, outcome_rows(outcome)),
{
    match outcome {
        QueryOutcome::Solutions(vars, sols) => {
            let ghost vs = vars_view(vars@);
            let ghost ss = solutions_view(sols@);
            let mut rows: Vec<Row> = Vec::new();
            let mut i: usize = 0;
            while i < sols.len()
                invariant
                    vs == vars_view(vars@),
                    ss == solutions_view(sols@),
                    i <= sols@.len(),
                    rows@.len() == i,
                    forall|k: int| 0 <= k < i ==> #[trigger] rows@[k]@ == solution_bindings(vs, ss[k]),
                decreases sols@.len() - i,
            {
                rows.push(solution_row(&vars, &sols[i]));
                i = i + 1;
            }
            assert(rows_view(rows@) == answer_rows(vs, ss));
            Ok(rows)
        },
        QueryOutcome::Boolean => Err(GraphError::Query(String::from_str("ASK queries not supported; use SELECT"))),
        QueryOutcome::Graph => Err(GraphError::Query(String::from_str("CONSTRUCT/DESCRIBE not supported; use SELECT"))),
    }
}

/// Parses and runs a SELECT query against the store and returns its rows.
///
/// A query without a `FROM` / `FROM NAMED` dataset of its own is evaluated
/// over the union of all graphs as its default graph, so triple patterns
/// without `GRAPH` match data in named graphs; a declared dataset is kept.
/// A text the parser refuses, and an ASK, CONSTRUCT or DESCRIBE query, give a
/// query error.
pub fn execute_select_rows(store: &Store, sparql: &str) -> (r: Result<Vec<Row>, GraphError>)
    ensures
        r matches Err(e) ==> e is Query,
        !is_select(sparql@) ==> r is Err,
        r matches Ok(v) ==> select_answer(store_quads(*store), sparql@, rows_view(v@)),
{
    let mut prepared = match parse_sparql(sparql) {
        Ok(p) => p,
        Err(m) => return Err(GraphError::Query(m)),
    };
    if uses_default_dataset(&prepared) {
        set_default_graph_as_union(&mut prepared);
    }
    let ghost pv = crate::store::prepared_view(prepared);
    assert(pv.text == sparql@ && pv.dataset == select_dataset(sparql@));
    let ghost quads = store_quads(*store);
    let outcome = match execute_query(prepared, store) {
        Ok(o) => o,
        Err(m) => return Err(GraphError::Query(m)),
    };
    let ghost o = outcome;
    let r = rows_from_outcome(outcome);
    proof {
        if let QueryOutcome::Solutions(vars, sols) = o {
            assert(sparql_answer(quads, sparql@, select_dataset(sparql@), vars_view(vars@), solutions_view(sols@)));
        }
    }
    r
}

/// The values `rows` bind to `var`, in row order, skipping rows that leave it
/// unbound.
pub open spec fn values_of(rows: Seq<Seq<(Seq<char>, Seq<char>)>>, var: Seq<char>) -> Seq<Seq<char>>
    decreases rows.len(),
{
    if rows.len() == 0 {
        Seq::empty()
    } else {
        let rest = values_of(rows.drop_last(), var);
        match lookup(rows.last(), var) {
            Some(v) => rest.push(v),
            None => rest,
        }
    }
}

/// The values `rows` bind to `var`, in row order.
pub fn column_values(rows: &Vec<Row>, var: &str) -> (r: Vec<String>)
    ensures
        r@.map_values(|s: String| s@) == values_of(rows_view(rows@), var@),
{
    let ghost rv = rows_view(rows@);
    let mut out: Vec<String> = Vec::new();
    let mut i: usize = 0;
    while i < rows.len()
        invariant
            rv == rows_view(rows@),
            i <= rows@.len(),
            out@.map_values(|s: String| s@) == values_of(rv.subrange(0, i as int), var@),
        decreases rows@.len() - i,
    {
        assert(rv.subrange(0, i + 1).drop_last() == rv.subrange(0, i as int));
        assert(rv.subrange(0, i + 1).last() == rows@[i as int]@);
        let ghost before = out@;
        match rows[i].get(var) {
            Some(v) => {
                out.push(v);
                assert(out@.map_values(|s: String| s@) == before.map_values(|s: String| s@).push(out@.last()@));
            },
            None => {},
        }
        i = i + 1;
    }
    assert(rv.subrange(0, rows@.len() as int) == rv);
    out
}

/// Runs `sparql` and returns the values bound to `var_name`.
pub fn query_ids(store: &Store, sparql: &str, var_name: &str) -> (r: Result<Vec<String>, GraphError>)
    ensures
        r matches Err(e) ==> e is Query,
        !is_select(sparql@) ==> r is Err,
        r matches Ok(v) ==> exists|rows: Seq<Seq<(Seq<char>, Seq<char>)>>|
            #[trigger] select_answer(store_quads(*store), sparql@, rows) && strings_view(v@) == values_of(rows, var_name@),
{
    let rows = execute_select_rows(store, sparql)?;
    let v = column_values(&rows, var_name);
    assert(select_answer(store_quads(*store), sparql@, rows_view(rows@)));
    Ok(v)
}

/// Runs `sparql` and returns the values bound to `var_name`.
pub fn query_term_values(store: &Store, sparql: &str, var_name: &str) -> (r: Result<Vec<String>, GraphError>)
    ensures
        r matches Err(e) ==> e is Query,
        !is_select(sparql@) ==> r is Err,
        r matches Ok(v) ==> exists|rows: Seq<Seq<(Seq<char>, Seq<char>)>>|
            #[trigger] select_answer(store_quads(*store), sparql@, rows) && strings_view(v@) == values_of(rows, var_name@),
{
    query_ids(store, sparql, var_name)
}

/// Runs `sparql` and returns the values bound to `?id`.
pub fn query_action_ids(store: &Store, sparql: &str) -> (r: Result<Vec<String>, GraphError>)
    ensures
        r matches Err(e) ==> e is Query,
        !is_select(sparql@) ==> r is Err,
        r matches Ok(v) ==> exists|rows: Seq<Seq<(Seq<char>, Seq<char>)>>|
            #[trigger] select_answer(store_quads(*store), sparql@, rows) && strings_view(v@) == values_of(rows, "id"@),
{
    query_ids(store, sparql, "id")
}

/// Runs a SELECT query and returns its rows.
pub fn query_raw(store: &Store, sparql: &str) -> (r: Result<Vec<Row>, GraphError>)
    ensures
        r matches Err(e) ==> e is Query,
        !is_select(sparql@) ==> r is Err,
        r matches Ok(v) ==> select_answer(store_quads(*store), sparql@, rows_view(v@)),
{
    execute_select_rows(store, sparql)
}

/// Where the query has a single answer on the store (no `RAND`, `NOW`,
/// `UUID` or other choice in its evaluation), the ids `query_action_ids` gives
/// are the `id` column of the rows `query_raw` gives, in row order, rows
/// without an `id` left out.
pub proof fn lemma_action_ids_are_id_column(
    quads: Set<QuadView>,
    text: Seq<char>,
    rows: Seq<Seq<(Seq<char>, Seq<char>)>>,
    ids: Seq<Seq<char>>,
)
    requires
        forall|r1: Seq<Seq<(Seq<char>, Seq<char>)>>, r2: Seq<Seq<(Seq<char>, Seq<char>)>>|
            #[trigger] select_answer(quads, text, r1) && #[trigger] select_answer(quads, text, r2) ==> r1 == r2,
        select_answer(quads, text, rows),
        exists|r: Seq<Seq<(Seq<char>, Seq<char>)>>| #[trigger] select_answer(quads, text, r) && ids == values_of(r, "id"@),
    ensures
        ids == values_of(rows, "id"@),
{
    let r = choose|r: Seq<Seq<(Seq<char>, Seq<char>)>>| #[trigger] select_answer(quads, text, r) && ids == values_of(r, "id"@);
    assert(r == rows);
}

/// The `PREFIX` declarations every built query starts with.
pub open spec fn standard_prefixes() -> Seq<char> {
    "PREFIX actions: <"@ + ACTIONS_NS@ + ">\nPREFIX cco: <"@ + CCO_NS@ + ">\nPREFIX bfo: <"@ + BFO_NS@
        + ">\nPREFIX rdfs: <"@ + RDFS_NS@ + ">\nPREFIX rdf: <"@ + RDF_NS@ + ">\nPREFIX xsd: <"@
        + XSD_NS@ + ">\nPREFIX skos: <"@ + SKOS_NS@ + ">\n"@
}

fn standard_prefix_block() -> (r: String)
    ensures
        r@ == standard_prefixes(),
{
    let mut s = String::from_str("PREFIX actions: <");
    s.append(ACTIONS_NS);
    s.append(">\nPREFIX cco: <");
    s.append(CCO_NS);
    s.append(">\nPREFIX bfo: <");
    s.append(BFO_NS);
    s.append(">\nPREFIX rdfs: <");
    s.append(RDFS_NS);
    s.append(">\nPREFIX rdf: <");
    s.append(RDF_NS);
    s.append(">\nPREFIX xsd: <");
    s.append(XSD_NS);
    s.append(">\nPREFIX skos: <");
    s.append(SKOS_NS);
    s.append(">\n");
    s
}

/// The standard prefixes, then `SELECT * WHERE { GRAPH ?g { <clause> } }`.
pub fn build_raw_where_query(where_clause: &str) -> (r: String)
    ensures
        r@ == standard_prefixes() + "SELECT * WHERE { GRAPH ?g { "@ + where_clause@ + " } }"@,
{
    let mut s = standard_prefix_block();
    s.append("SELECT * WHERE { GRAPH ?g { ");
    s.append(where_clause);
    s.append(" } }");
    s
}

/// The standard prefixes, then a query selecting the `actions:hasUUID` value
/// `?id` of every subject `?s` that also satisfies `where_clause`. The
/// `_select` and `_from` arguments are accepted and not used.
pub fn build_where_query(where_clause: &str, _select: Option<&str>, _from: Option<&str>) -> (r: String)
    ensures
        r@ == standard_prefixes() + "SELECT ?id WHERE { GRAPH ?g { ?s <"@ + ACTIONS_NS@
            + "hasUUID> ?id . { "@ + where_clause@ + " } } }"@,
{
    let mut s = standard_prefix_block();
    s.append("SELECT ?id WHERE { GRAPH ?g { ?s <");
    s.append(ACTIONS_NS);
    s.append("hasUUID> ?id . { ");
    s.append(where_clause);
    s.append(" } } }");
    s
}

/// Number of vocabulary checks.
pub const SHAPE_CHECKS: usize = 8;

/// Text before the offending value in a violation of check `k`.
pub open spec fn shape_head(k: int) -> Seq<char> {
    if k == 0 {
        "ActionStatusShape: <"@
    } else if k == 1 {
        "ActionStatusShape (sh:in): <"@
    } else if k == 2 {
        "PlanPrescribesShape: <"@
    } else if k == 3 {
        "UUIDShape: <"@
    } else if k == 4 {
        "CompletedDateShape: <"@
    } else if k == 5 {
        "RecurrenceAnchorShape: <"@
    } else if k == 6 {
        "SuccessorCycleShape: <"@
    } else {
        "AliasUniquenessShape: alias '"@
    }
}

/// Text after the offending value in a violation of check `k`.
pub open spec fn shape_tail(k: int) -> Seq<char> {
    if k == 0 {
        "> is missing a status (cco:ont00001868)"@
    } else if k == 1 {
        "> has an unrecognized status value"@
    } else if k == 2 {
        "> has a prescribes target that is not an Action"@
    } else if k == 3 {
        "> is missing an actions:hasUUID literal"@
    } else if k == 4 {
        "> has status Completed but no hasCompletedDateTime"@
    } else if k == 5 {
        "> has hasRecurrenceRule but no hasScheduledDateTime anchor"@
    } else if k == 6 {
        "> is its own successor (self-loop)"@
    } else {
        "' is shared by more than one action in the same graph"@
    }
}

fn shape_head_text(k: usize) -> (r: &'static str)
    requires
        k < SHAPE_CHECKS,
    ensures
        r@ == shape_head(k as int),
{
    if k == 0 {
        "ActionStatusShape: <"
    } else if k == 1 {
        "ActionStatusShape (sh:in): <"
    } else if k == 2 {
        "PlanPrescribesShape: <"
    } else if k == 3 {
        "UUIDShape: <"
    } else if k == 4 {
        "CompletedDateShape: <"
    } else if k == 5 {
        "RecurrenceAnchorShape: <"
    } else if k == 6 {
        "SuccessorCycleShape: <"
    } else {
        "AliasUniquenessShape: alias '"
    }
}

fn shape_tail_text(k: usize) -> (r: &'static str)
    requires
        k < SHAPE_CHECKS,
    ensures
        r@ == shape_tail(k as int),
{
    if k == 0 {
        "> is missing a status (cco:ont00001868)"
    } else if k == 1 {
        "> has an unrecognized status value"
    } else if k == 2 {
        "> has a prescribes target that is not an Action"
    } else if k == 3 {
        "> is missing an actions:hasUUID literal"
    } else if k == 4 {
        "> has status Completed but no hasCompletedDateTime"
    } else if k == 5 {
        "> has hasRecurrenceRule but no hasScheduledDateTime anchor"
    } else if k == 6 {
        "> is its own successor (self-loop)"
    } else {
        "' is shared by more than one action in the same graph"
    }
}

/// The violation message check `k` gives for the offending value `v`.
pub open spec fn shape_message(k: int, v: Seq<char>) -> Seq<char> {
    shape_head(k) + v + shape_tail(k)
}

/// The violation messages of checks `0..n`, check by check, each in the order
/// of its offending values.
pub open spec fn violation_messages(results: Seq<Seq<Seq<char>>>, n: int) -> Seq<Seq<char>>
    decreases n,
{
    if n <= 0 {
        Seq::empty()
    } else {
        violation_messages(results, n - 1) + results[n - 1].map_values(|v: Seq<char>| shape_message(n - 1, v))
    }
}

/// There are no violation messages exactly when none of the checks found an
/// offending value; each check contributes one message per value it found.
pub proof fn lemma_no_messages_iff_nothing_found(found: Seq<Seq<Seq<char>>>, n: int)
    requires
        0 <= n <= found.len(),
    ensures
        violation_messages(found, n).len() == 0 <==> forall|k: int| 0 <= k < n ==> #[trigger] found[k].len() == 0,
    decreases n,
{
    if n > 0 {
        lemma_no_messages_iff_nothing_found(found, n - 1);
        let m = found[n - 1].map_values(|v: Seq<char>| shape_message(n - 1, v));
        assert(violation_messages(found, n) == violation_messages(found, n - 1) + m);
        assert(m.len() == found[n - 1].len());
    }
}

/// The views of a vector of strings.
pub open spec fn strings_view(v: Seq<String>) -> Seq<Seq<char>> {
    v.map_values(|s: String| s@)
}

/// The violations for the offending values found by each of the checks:
/// `results[k]` holds what check `k` found.
pub fn violations_from_results(results: &Vec<Vec<String>>) -> (r: Vec<String>)
    requires
        results@.len() == SHAPE_CHECKS,
    ensures
        strings_view(r@) == violation_messages(
            results@.map_values(|v: Vec<String>| strings_view(v@)),
            SHAPE_CHECKS as int,
        ),
{
    let ghost rv = results@.map_values(|v: Vec<String>| strings_view(v@));
    let mut out: Vec<String> = Vec::new();
    let mut k: usize = 0;
    while k < SHAPE_CHECKS
        invariant
            results@.len() == SHAPE_CHECKS,
            rv == results@.map_values(|v: Vec<String>| strings_view(v@)),
            k <= SHAPE_CHECKS,
            strings_view(out@) == violation_messages(rv, k as int),
        decreases SHAPE_CHECKS - k,
    {
        let values = &results[k];
        let head = shape_head_text(k);
        let tail = shape_tail_text(k);
        let ghost start = strings_view(out@);
        let mut j: usize = 0;
        while j < values.len()
            invariant
                0 <= k < SHAPE_CHECKS,
                results@.len() == SHAPE_CHECKS,
                values == &results@[k as int],
                rv == results@.map_values(|v: Vec<String>| strings_view(v@)),
                head@ == shape_head(k as int),
                tail@ == shape_tail(k as int),
                j <= values@.len(),
                strings_view(out@) == start + rv[k as int].subrange(0, j as int).map_values(
                    |v: Seq<char>| shape_message(k as int, v),
                ),
            decreases values@.len() - j,
        {
            let mut m = String::from_str(head);
            m.append(values[j].as_str());
            m.append(tail);
            let ghost before = strings_view(out@);
            out.push(m);
            assert(strings_view(out@) == before.push(m@));
            assert(rv[k as int][j as int] == values@[j as int]@);
            assert(rv[k as int].subrange(0, j + 1).map_values(|v: Seq<char>| shape_message(k as int, v))
                == rv[k as int].subrange(0, j as int).map_values(|v: Seq<char>| shape_message(k as int, v)).push(
                shape_message(k as int, values@[j as int]@),
            ));
            j = j + 1;
        }
        assert(rv[k as int].subrange(0, values@.len() as int) == rv[k as int]);
        k = k + 1;
    }
    out
}

/// The concatenation of `parts`, in order.
pub open spec fn concat(parts: Seq<Seq<char>>) -> Seq<char>
    decreases parts.len(),
{
    if parts.len() == 0 {
        Seq::empty()
    } else {
        concat(parts.drop_last()) + parts.last()
    }
}

fn cat(parts: &[&str]) -> (r: String)
    ensures
        r@ == concat(parts@.map_values(|p: &str| p@)),
{
    let ghost pv = parts@.map_values(|p: &str| p@);
    let mut s = String::new();
    let mut i: usize = 0;
    assert(pv.subrange(0, 0) =~= Seq::<Seq<char>>::empty());
    while i < parts.len()
        invariant
            pv == parts@.map_values(|p: &str| p@),
            i <= parts@.len(),
            s@ == concat(pv.subrange(0, i as int)),
        decreases parts@.len() - i,
    {
        assert(pv.subrange(0, i + 1).drop_last() =~= pv.subrange(0, i as int));
        assert(pv.subrange(0, i + 1).last() == parts@[i as int]@);
        s.append(parts[i]);
        i = i + 1;
    }
    assert(pv.subrange(0, parts@.len() as int) =~= pv);
    s
}

/// The IRI of `actions:Action`.
pub open spec fn action_class() -> Seq<char> {
    concat(seq![ACTIONS_NS@, ACTIONS_ACTION@])
}

/// The IRI of `cco:Plan`.
pub open spec fn plan_class() -> Seq<char> {
    concat(seq![CCO_NS@, CCO_PLAN@])
}

/// The IRI of the status property.
pub open spec fn status_prop() -> Seq<char> {
    concat(seq![CCO_NS@, CCO_STATUS_PROP@])
}

/// The SPARQL query of vocabulary check `k`: actions without a status,
/// unrecognized status values, plans prescribing non-actions, actions and
/// plans without a UUID literal, completed actions without a completion date,
/// recurring plans without a scheduled anchor, self-successors, and aliases
/// shared by two distinct `actions:Action` nodes of one graph.
pub open spec fn shape_sparql(k: int) -> Seq<char> {
    if k == 0 {
        concat(seq![
            "SELECT ?action WHERE { GRAPH ?g { ?action a <"@, action_class(),
            "> . FILTER NOT EXISTS { ?action <"@, status_prop(), "> ?s } } }"@,
        ])
    } else if k == 1 {
        concat(seq![
            "SELECT ?action WHERE { GRAPH ?g { ?action <"@, status_prop(), "> ?s . FILTER (?s NOT IN ( <"@,
            ACTIONS_NS@, "NotStarted>, <"@, ACTIONS_NS@, "InProgress>, <"@, ACTIONS_NS@, "Completed>, <"@,
            ACTIONS_NS@, "Blocked>, <"@, ACTIONS_NS@, "Cancelled> )) } }"@,
        ])
    } else if k == 2 {
        concat(seq![
            "SELECT ?plan WHERE { GRAPH ?g { ?plan a <"@, plan_class(), "> . ?plan <"@, CCO_NS@, CCO_PRESCRIBES@,
            "> ?target . FILTER NOT EXISTS { ?target a <"@, action_class(), "> } } }"@,
        ])
    } else if k == 3 {
        concat(seq![
            "SELECT ?node WHERE { GRAPH ?g { { ?node a <"@, action_class(), "> } UNION { ?node a <"@, plan_class(),
            "> } FILTER NOT EXISTS { ?node <"@, ACTIONS_NS@, "hasUUID> ?u } } }"@,
        ])
    } else if k == 4 {
        concat(seq![
            "SELECT ?action WHERE { GRAPH ?g { ?action a <"@, action_class(), "> ; <"@, status_prop(), "> <"@,
            ACTIONS_NS@, "Completed> . FILTER NOT EXISTS { ?action <"@, ACTIONS_NS@, "hasCompletedDateTime> ?d } } }"@,
        ])
    } else if k == 5 {
        concat(seq![
            "SELECT ?plan WHERE { GRAPH ?g { ?plan a <"@, plan_class(), "> ; <"@, ACTIONS_NS@,
            "hasRecurrenceRule> ?rrule . FILTER NOT EXISTS { ?plan <"@, ACTIONS_NS@, "hasScheduledDateTime> ?dt } } }"@,
        ])
    } else if k == 6 {
        concat(seq![
            "SELECT ?action WHERE { GRAPH ?g { ?action <"@, CCO_NS@, CCO_IS_SUCCESSOR_OF@, "> ?action . } }"@,
        ])
    } else {
        concat(seq![
            "SELECT ?alias WHERE { GRAPH ?g { ?a1 a <"@, action_class(), "> ; <"@, ACTIONS_NS@,
            "hasAlias> ?alias . ?a2 a <"@, action_class(), "> ; <"@, ACTIONS_NS@,
            "hasAlias> ?alias . FILTER (?a1 != ?a2) } }"@,
        ])
    }
}

/// The concatenation of two runs of parts is the concatenation of each.
proof fn lemma_concat_add(a: Seq<Seq<char>>, b: Seq<Seq<char>>)
    ensures
        concat(a + b) == concat(a) + concat(b),
    decreases b.len(),
{
    if b.len() == 0 {
        assert(a + b =~= a);
        assert(concat(a) + concat(b) =~= concat(a));
    } else {
        lemma_concat_add(a, b.drop_last());
        assert((a + b).drop_last() =~= a + b.drop_last());
        assert((a + b).last() == b.last());
        assert(concat(a + b) =~= concat(a) + concat(b));
    }
}

/// Whether `sub` occurs in `text`.
pub open spec fn holds_text(text: Seq<char>, sub: Seq<char>) -> bool {
    exists|i: int| 0 <= i <= text.len() - sub.len() && #[trigger] text.subrange(i, i + sub.len()) == sub
}

/// A text made of parts holds whatever begins two consecutive parts.
proof fn lemma_parts_hold(parts: Seq<Seq<char>>, i: int, sub: Seq<char>)
    requires
        0 <= i,
        i + 2 <= parts.len(),
        sub.len() <= (parts[i] + parts[i + 1]).len(),
        (parts[i] + parts[i + 1]).subrange(0, sub.len() as int) == sub,
    ensures
        holds_text(concat(parts), sub),
{
    let a = parts.take(i);
    let m = seq![parts[i], parts[i + 1]];
    let b = parts.skip(i + 2);
    assert(parts =~= a + m + b);
    lemma_concat_add(a + m, b);
    lemma_concat_add(a, m);
    let one = seq![parts[i]];
    assert(one.drop_last() =~= Seq::<Seq<char>>::empty());
    assert(concat(Seq::<Seq<char>>::empty()) == Seq::<char>::empty());
    assert(concat(one) =~= parts[i]);
    assert(m.drop_last() =~= one);
    assert(m.last() == parts[i + 1]);
    assert(concat(m) =~= parts[i] + parts[i + 1]);
    let t = concat(parts);
    let k = concat(a).len() as int;
    assert(t == concat(a) + (parts[i] + parts[i + 1]) + concat(b));
    assert(t.subrange(k, k + sub.len()) =~= sub);
}

/// The status-value check allows every status the loader writes: for each
/// action state, the IRI `actions:<name>` of its status term (the object of
/// the action's status quad) is in the check's `NOT IN` list, so an action in
/// any state passes it.
pub proof fn lemma_status_check_allows_every_state(s: crate::domain::ActionState)
    ensures
        holds_text(shape_sparql(1), ACTIONS_NS@ + crate::domain::phase_name(s) + ">"@),
{
    let parts = seq![
        "SELECT ?action WHERE { GRAPH ?g { ?action <"@, status_prop(), "> ?s . FILTER (?s NOT IN ( <"@,
        ACTIONS_NS@, "NotStarted>, <"@, ACTIONS_NS@, "InProgress>, <"@, ACTIONS_NS@, "Completed>, <"@,
        ACTIONS_NS@, "Blocked>, <"@, ACTIONS_NS@, "Cancelled> )) } }"@,
    ];
    assert(shape_sparql(1) == concat(parts));
    reveal_strlit(">");
    reveal_strlit("NotStarted>, <");
    reveal_strlit("InProgress>, <");
    reveal_strlit("Completed>, <");
    reveal_strlit("Blocked>, <");
    reveal_strlit("Cancelled> )) } }");
    reveal_strlit("NotStarted");
    reveal_strlit("InProgress");
    reveal_strlit("Completed");
    reveal_strlit("Blocked");
    reveal_strlit("Cancelled");
    let sub = ACTIONS_NS@ + crate::domain::phase_name(s) + ">"@;
    let i: int = match s {
        crate::domain::ActionState::NotStarted => 3,
        crate::domain::ActionState::InProgress => 5,
        crate::domain::ActionState::Completed => 7,
        crate::domain::ActionState::BlockedOrAwaiting => 9,
        crate::domain::ActionState::Cancelled => 11,
    };
    assert((parts[i] + parts[i + 1]).subrange(0, sub.len() as int) =~= sub);
    lemma_parts_hold(parts, i, sub);
}

/// The variable vocabulary check `k` reports.
pub open spec fn shape_var(k: int) -> Seq<char> {
    if k == 0 || k == 1 || k == 4 || k == 6 {
        "action"@
    } else if k == 2 || k == 5 {
        "plan"@
    } else if k == 3 {
        "node"@
    } else {
        "alias"@
    }
}

/// The SPARQL query of vocabulary check `k` and the variable it reports.
fn shape_query(k: usize) -> (r: (String, &'static str))
    requires
        k < SHAPE_CHECKS,
    ensures
        r.0@ == shape_sparql(k as int),
        r.1@ == shape_var(k as int),
{
    let action_parts = [ACTIONS_NS, ACTIONS_ACTION];
    let plan_parts = [CCO_NS, CCO_PLAN];
    let status_parts = [CCO_NS, CCO_STATUS_PROP];
    assert(action_parts@.map_values(|p: &str| p@) =~= seq![ACTIONS_NS@, ACTIONS_ACTION@]);
    assert(plan_parts@.map_values(|p: &str| p@) =~= seq![CCO_NS@, CCO_PLAN@]);
    assert(status_parts@.map_values(|p: &str| p@) =~= seq![CCO_NS@, CCO_STATUS_PROP@]);
    let action = cat(&action_parts);
    let plan = cat(&plan_parts);
    let status = cat(&status_parts);
    if k == 0 {
        let parts = [
            "SELECT ?action WHERE { GRAPH ?g { ?action a <", action.as_str(),
            "> . FILTER NOT EXISTS { ?action <", status.as_str(), "> ?s } } }",
        ];
        assert(parts@.map_values(|p: &str| p@) =~= seq![
            "SELECT ?action WHERE { GRAPH ?g { ?action a <"@, action_class(),
            "> . FILTER NOT EXISTS { ?action <"@, status_prop(), "> ?s } } }"@,
        ]);
        (cat(&parts), "action")
    } else if k == 1 {
        let parts = [
            "SELECT ?action WHERE { GRAPH ?g { ?action <", status.as_str(), "> ?s . FILTER (?s NOT IN ( <",
            ACTIONS_NS, "NotStarted>, <", ACTIONS_NS, "InProgress>, <", ACTIONS_NS, "Completed>, <",
            ACTIONS_NS, "Blocked>, <", ACTIONS_NS, "Cancelled> )) } }",
        ];
        assert(parts@.map_values(|p: &str| p@) =~= seq![
            "SELECT ?action WHERE { GRAPH ?g { ?action <"@, status_prop(), "> ?s . FILTER (?s NOT IN ( <"@,
            ACTIONS_NS@, "NotStarted>, <"@, ACTIONS_NS@, "InProgress>, <"@, ACTIONS_NS@, "Completed>, <"@,
            ACTIONS_NS@, "Blocked>, <"@, ACTIONS_NS@, "Cancelled> )) } }"@,
        ]);
        (cat(&parts), "action")
    } else if k == 2 {
        let parts = [
            "SELECT ?plan WHERE { GRAPH ?g { ?plan a <", plan.as_str(), "> . ?plan <", CCO_NS, CCO_PRESCRIBES,
            "> ?target . FILTER NOT EXISTS { ?target a <", action.as_str(), "> } } }",
        ];
        assert(parts@.map_values(|p: &str| p@) =~= seq![
            "SELECT ?plan WHERE { GRAPH ?g { ?plan a <"@, plan_class(), "> . ?plan <"@, CCO_NS@, CCO_PRESCRIBES@,
            "> ?target . FILTER NOT EXISTS { ?target a <"@, action_class(), "> } } }"@,
        ]);
        (cat(&parts), "plan")
    } else if k == 3 {
        let parts = [
            "SELECT ?node WHERE { GRAPH ?g { { ?node a <", action.as_str(), "> } UNION { ?node a <", plan.as_str(),
            "> } FILTER NOT EXISTS { ?node <", ACTIONS_NS, "hasUUID> ?u } } }",
        ];
        assert(parts@.map_values(|p: &str| p@) =~= seq![
            "SELECT ?node WHERE { GRAPH ?g { { ?node a <"@, action_class(), "> } UNION { ?node a <"@, plan_class(),
            "> } FILTER NOT EXISTS { ?node <"@, ACTIONS_NS@, "hasUUID> ?u } } }"@,
        ]);
        (cat(&parts), "node")
    } else if k == 4 {
        let parts = [
            "SELECT ?action WHERE { GRAPH ?g { ?action a <", action.as_str(), "> ; <", status.as_str(), "> <",
            ACTIONS_NS, "Completed> . FILTER NOT EXISTS { ?action <", ACTIONS_NS, "hasCompletedDateTime> ?d } } }",
        ];
        assert(parts@.map_values(|p: &str| p@) =~= seq![
            "SELECT ?action WHERE { GRAPH ?g { ?action a <"@, action_class(), "> ; <"@, status_prop(), "> <"@,
            ACTIONS_NS@, "Completed> . FILTER NOT EXISTS { ?action <"@, ACTIONS_NS@, "hasCompletedDateTime> ?d } } }"@,
        ]);
        (cat(&parts), "action")
    } else if k == 5 {
        let parts = [
            "SELECT ?plan WHERE { GRAPH ?g { ?plan a <", plan.as_str(), "> ; <", ACTIONS_NS,
            "hasRecurrenceRule> ?rrule . FILTER NOT EXISTS { ?plan <", ACTIONS_NS, "hasScheduledDateTime> ?dt } } }",
        ];
        assert(parts@.map_values(|p: &str| p@) =~= seq![
            "SELECT ?plan WHERE { GRAPH ?g { ?plan a <"@, plan_class(), "> ; <"@, ACTIONS_NS@,
            "hasRecurrenceRule> ?rrule . FILTER NOT EXISTS { ?plan <"@, ACTIONS_NS@, "hasScheduledDateTime> ?dt } } }"@,
        ]);
        (cat(&parts), "plan")
    } else if k == 6 {
        let parts = ["SELECT ?action WHERE { GRAPH ?g { ?action <", CCO_NS, CCO_IS_SUCCESSOR_OF, "> ?action . } }"];
        assert(parts@.map_values(|p: &str| p@) =~= seq![
            "SELECT ?action WHERE { GRAPH ?g { ?action <"@, CCO_NS@, CCO_IS_SUCCESSOR_OF@, "> ?action . } }"@,
        ]);
        (cat(&parts), "action")
    } else {
        let parts = [
            "SELECT ?alias WHERE { GRAPH ?g { ?a1 a <", action.as_str(), "> ; <", ACTIONS_NS,
            "hasAlias> ?alias . ?a2 a <", action.as_str(), "> ; <", ACTIONS_NS,
            "hasAlias> ?alias . FILTER (?a1 != ?a2) } }",
        ];
        assert(parts@.map_values(|p: &str| p@) =~= seq![
            "SELECT ?alias WHERE { GRAPH ?g { ?a1 a <"@, action_class(), "> ; <"@, ACTIONS_NS@,
            "hasAlias> ?alias . ?a2 a <"@, action_class(), "> ; <"@, ACTIONS_NS@,
            "hasAlias> ?alias . FILTER (?a1 != ?a2) } }"@,
        ]);
        (cat(&parts), "alias")
    }
}

/// Whether `vals` is what running the query of check `k` on a store holding
/// `quads` gives: the values of its reported variable in the rows of an
/// answer.
pub open spec fn check_result(quads: Set<QuadView>, k: int, vals: Seq<Seq<char>>) -> bool {
    exists|rows: Seq<Seq<(Seq<char>, Seq<char>)>>|
        #[trigger] select_answer(quads, shape_sparql(k), rows) && vals == values_of(rows, shape_var(k))
}

/// Whether `found[k]` is, for each of the first `n` checks, what running the
/// check's query on a store holding `quads` gives.
pub open spec fn shape_results(quads: Set<QuadView>, found: Seq<Seq<Seq<char>>>, n: int) -> bool {
    &&& found.len() == n
    &&& forall|k: int| 0 <= k < n ==> #[trigger] check_result(quads, k, found[k])
}

/// Runs the vocabulary checks (status present and recognized, plans prescribe
/// actions, UUID literal present, completed actions dated, recurring plans
/// anchored, no self-successor, aliases unique among the actions of a graph)
/// and returns one message per offending value, check by check.
pub fn validate_actions_vocabulary(store: &Store) -> (r: Result<Vec<String>, GraphError>)
    ensures
        r matches Err(e) ==> e is Query,
        r matches Ok(v) ==> exists|found: Seq<Seq<Seq<char>>>|
            #[trigger] shape_results(store_quads(*store), found, SHAPE_CHECKS as int) && strings_view(v@)
                == violation_messages(found, SHAPE_CHECKS as int),
{
    let ghost quads = store_quads(*store);
    let mut results: Vec<Vec<String>> = Vec::new();
    let mut k: usize = 0;
    while k < SHAPE_CHECKS
        invariant
            quads == store_quads(*store),
            k <= SHAPE_CHECKS,
            shape_results(quads, results@.map_values(|x: Vec<String>| strings_view(x@)), k as int),
        decreases SHAPE_CHECKS - k,
    {
        let (q, var) = shape_query(k);
        let found = query_term_values(store, q.as_str(), var)?;
        let ghost before = results@.map_values(|x: Vec<String>| strings_view(x@));
        results.push(found);
        proof {
            let after = results@.map_values(|x: Vec<String>| strings_view(x@));
            assert(after == before.push(strings_view(found@)));
            assert forall|j: int| 0 <= j < k + 1 implies #[trigger] check_result(quads, j, after[j]) by {
                if j < k {
                    assert(after[j] == before[j]);
                } else {
                    let rows = choose|rows: Seq<Seq<(Seq<char>, Seq<char>)>>|
                        #[trigger] select_answer(quads, q@, rows) && strings_view(found@) == values_of(rows, var@);
                    assert(select_answer(quads, shape_sparql(j), rows) && after[j] == values_of(rows, shape_var(j)));
                }
            }
        }
        k = k + 1;
    }
    let v = violations_from_results(&results);
    proof {
        let found = results@.map_values(|x: Vec<String>| strings_view(x@));
        assert(shape_results(quads, found, SHAPE_CHECKS as int) && strings_view(v@) == violation_messages(found, SHAPE_CHECKS as int));
    }
    Ok(v)
}

} // verus!
