//! The Oxigraph store and the calls the library makes into it.
//!
//! Oxigraph's store, its terms and quads and its prepared queries are opaque
//! here. What the contracts need of them is named: the set of quads a store
//! holds, and the plain value a term or quad stands for.

use crate::rdf::{QuadView, RdfTerm, TermView, opt_view};
use crate::vocab::RDF_NS;
use oxigraph::io::RdfFormat;
use oxigraph::model::{
    BlankNode, GraphName, GraphNameRef, Literal, NamedNode, NamedOrBlankNode, Quad as OxQuad,
    Term as OxTerm,
};
use oxigraph::sparql::{PreparedSparqlQuery, QueryResults, SparqlEvaluator};
use oxigraph::store::Store;
use vstd::prelude::*;

verus! {

#[verifier::external_type_specification]
#[verifier::external_body]
pub struct ExStore(Store);

#[verifier::external_type_specification]
#[verifier::external_body]
pub struct ExOxTerm(OxTerm);

#[verifier::external_type_specification]
#[verifier::external_body]
pub struct ExOxQuad(OxQuad);

#[verifier::external_type_specification]
#[verifier::external_body]
pub struct ExPreparedSparqlQuery(PreparedSparqlQuery);

/// The quads a store holds, as reads give them back (literals in the form the
/// storage keeps them, see [`stored_literal`]).
pub uninterp spec fn store_quads(store: Store) -> Set<QuadView>;

/// The plain value an Oxigraph term stands for.
pub uninterp spec fn ox_term_view(term: OxTerm) -> TermView;

/// The plain value an Oxigraph quad stands for.
pub uninterp spec fn ox_quad_view(quad: OxQuad) -> QuadView;

/// What a query evaluation gave back: the projected variables and one row of
/// optional bindings per solution, or the kind of a non-SELECT result.
pub enum QueryOutcome {
    Solutions(Vec<String>, Vec<Vec<Option<OxTerm>>>),
    Boolean,
    Graph,
}

/// Calls `Store::new`, which creates an empty in-memory store (without
/// RocksDB the call cannot fail).
#[verifier::external_body]
pub fn store_new() -> (r: Result<Store, String>)
    ensures
        r is Ok,
        r matches Ok(s) ==> store_quads(s) == Set::<QuadView>::empty(),
{
    Store::new().map_err(|e| e.to_string())
}

/// The lexical form and datatype Oxigraph's storage gives back for a literal
/// with lexical form `value`, datatype `datatype` and no language tag. A
/// literal of a type it stores as a native value (booleans, numbers, dates,
/// times, durations) comes back in the canonical form of its value and type
/// (`"045"^^xsd:int` as `"45"^^xsd:integer`, an offset of zero as `Z`); any
/// other literal comes back unchanged.
pub uninterp spec fn stored_literal(value: Seq<char>, datatype: Seq<char>) -> (Seq<char>, Seq<char>);

/// The term Oxigraph's storage gives back for `t`: IRIs, blank nodes and
/// language-tagged strings unchanged, other literals as [`stored_literal`].
pub open spec fn stored_term(t: TermView) -> TermView {
    match t {
        TermView::Literal(v, d, None) => TermView::Literal(stored_literal(v, d).0, stored_literal(v, d).1, None),
        _ => t,
    }
}

/// The quad Oxigraph's storage gives back for `q` (a subject is never a
/// literal, so only the object can change).
pub open spec fn stored_quad(q: QuadView) -> QuadView {
    QuadView { object: stored_term(q.object), ..q }
}

/// The quads Oxigraph's storage gives back for the quads `s`.
pub open spec fn stored_set(s: Set<QuadView>) -> Set<QuadView> {
    s.map(|q: QuadView| stored_quad(q))
}

/// Whether every quad of `s` is in the form the storage gives back.
pub open spec fn in_stored_form(s: Set<QuadView>) -> bool {
    forall|q: QuadView| #[trigger] s.contains(q) ==> stored_quad(q) == q
}

/// Whether the term is a literal of datatype `rdf:langString` without a
/// language tag (which Turtle cannot write).
pub open spec fn tagless_lang_string(t: TermView) -> bool {
    t matches TermView::Literal(_, d, None) && d == RDF_NS@ + "langString"@
}

/// Whether no quad of `s` has a tagless `rdf:langString` object.
pub open spec fn no_tagless_lang_strings(s: Set<QuadView>) -> bool {
    forall|q: QuadView| #[trigger] s.contains(q) ==> !tagless_lang_string(q.object)
}

/// Calls `Store::insert`: the quad, in the form the storage gives back, is
/// added to the set the store holds (an in-memory transaction always
/// commits). What the store holds is always in that form, and a tagless
/// `rdf:langString` literal is only held where one was inserted (a native
/// value never comes back as one).
#[verifier::external_body]
pub fn store_insert(store: &mut Store, quad: &OxQuad) -> (r: Result<(), String>)
    ensures
        r is Ok,
        store_quads(*final(store)) == store_quads(*old(store)).insert(stored_quad(ox_quad_view(*quad))),
        ox_quad_view(*quad).object matches TermView::Literal(v, d, None) ==> store_quads(*final(store)).contains(
            QuadView {
                object: TermView::Literal(stored_literal(v, d).0, stored_literal(v, d).1, None),
                ..ox_quad_view(*quad)
            },
        ),
        in_stored_form(store_quads(*final(store))),
        no_tagless_lang_strings(store_quads(*old(store))) && !tagless_lang_string(ox_quad_view(*quad).object)
            ==> no_tagless_lang_strings(store_quads(*final(store))),
{
    store.insert(quad).map_err(|e| e.to_string())
}

#[verifier::external_type_specification]
#[verifier::external_body]
pub struct ExNamedNode(NamedNode);

/// Whether `NamedNode::new` accepts `iri` (an absolute IRI, RFC 3987).
pub uninterp spec fn iri_valid(iri: Seq<char>) -> bool;

/// Whether `BlankNode::new` accepts `id` as a blank node identifier.
pub uninterp spec fn blank_id_valid(id: Seq<char>) -> bool;

/// Whether `Literal::new_language_tagged_literal` accepts `tag` (a BCP 47
/// language tag once ASCII lower-cased).
pub uninterp spec fn language_tag_valid(tag: Seq<char>) -> bool;

/// The IRI of an Oxigraph named node.
pub uninterp spec fn named_node_iri(n: NamedNode) -> Seq<char>;

/// The ASCII lower-case mapping of `s` (`str::make_ascii_lowercase`).
pub open spec fn ascii_lower(s: Seq<char>) -> Seq<char> {
    s.map_values(|c: char| if 'A' <= c && c <= 'Z' { ((c as u32) + 32) as char } else { c })
}

/// `NamedNode::clone` gives a node with the same IRI.
pub assume_specification[ <NamedNode as Clone>::clone ](n: &NamedNode) -> (r: NamedNode)
    ensures
        named_node_iri(r) == named_node_iri(*n),
;

/// Calls `NamedNode::new`: succeeds exactly on the IRIs it accepts, and the
/// node holds the IRI unchanged.
#[verifier::external_body]
pub fn ox_named_node(iri: &str) -> (r: Result<NamedNode, String>)
    ensures
        r is Ok <==> iri_valid(iri@),
        r matches Ok(n) ==> named_node_iri(n) == iri@,
{
    NamedNode::new(iri).map_err(|e| e.to_string())
}

/// The term `Term::NamedNode(n)`.
#[verifier::external_body]
pub fn ox_iri_term(n: NamedNode) -> (t: OxTerm)
    ensures
        ox_term_view(t) == TermView::Iri(named_node_iri(n)),
{
    OxTerm::NamedNode(n)
}

/// Calls `BlankNode::new`: succeeds exactly on the identifiers it accepts.
#[verifier::external_body]
pub fn ox_blank_term(id: &str) -> (r: Result<OxTerm, String>)
    ensures
        r is Ok <==> blank_id_valid(id@),
        r matches Ok(t) ==> ox_term_view(t) == TermView::Blank(id@),
{
    BlankNode::new(id).map(OxTerm::BlankNode).map_err(|e| e.to_string())
}

/// Calls `Literal::new_typed_literal`, which keeps the value and datatype.
#[verifier::external_body]
pub fn ox_typed_literal(value: &str, datatype: NamedNode) -> (t: OxTerm)
    ensures
        ox_term_view(t) == TermView::Literal(value@, named_node_iri(datatype), None),
{
    OxTerm::Literal(Literal::new_typed_literal(value, datatype))
}

/// Calls `Literal::new_language_tagged_literal`, which lower-cases the tag
/// (ASCII) and then checks it; the literal's datatype is `rdf:langString`.
#[verifier::external_body]
pub fn ox_language_literal(value: &str, tag: &str) -> (r: Result<OxTerm, String>)
    ensures
        r is Ok <==> language_tag_valid(tag@),
        r matches Ok(t) ==> ox_term_view(t) == TermView::Literal(
            value@,
            RDF_NS@ + "langString"@,
            Some(ascii_lower(tag@)),
        ),
{
    Literal::new_language_tagged_literal(value, tag).map(OxTerm::Literal).map_err(|e| e.to_string())
}

/// Calls `Quad::new` after `NamedOrBlankNode::try_from` on the subject, which
/// refuses a literal; no graph is the default graph.
#[verifier::external_body]
pub fn ox_quad(subject: OxTerm, predicate: NamedNode, object: OxTerm, graph: Option<NamedNode>) -> (r:
    Result<OxQuad, String>)
    ensures
        r is Ok <==> !(ox_term_view(subject) is Literal),
        r matches Ok(q) ==> ox_quad_view(q) == (QuadView {
            subject: ox_term_view(subject),
            predicate: named_node_iri(predicate),
            object: ox_term_view(object),
            graph: match graph {
                Some(n) => Some(named_node_iri(n)),
                None => None,
            },
        }),
{
    let s = NamedOrBlankNode::try_from(subject).map_err(|e| e.to_string())?;
    let g = match graph {
        Some(n) => GraphName::NamedNode(n),
        None => GraphName::DefaultGraph,
    };
    Ok(OxQuad::new(s, predicate, object, g))
}

/// Converts an Oxigraph term back to an [`RdfTerm`] (`NamedNode::as_str`,
/// `BlankNode::as_str`, `Literal::value`, `Literal::datatype`,
/// `Literal::language`).
#[verifier::external_body]
pub fn from_ox_term(t: &OxTerm) -> (r: RdfTerm)
    ensures
        r@ == ox_term_view(*t),
{
    match t {
        OxTerm::NamedNode(n) => RdfTerm::Iri(n.as_str().to_string()),
        OxTerm::BlankNode(b) => RdfTerm::Blank(b.as_str().to_string()),
        OxTerm::Literal(l) => RdfTerm::Literal(
            l.value().to_string(),
            l.datatype().as_str().to_string(),
            l.language().map(|s| s.to_string()),
        ),
    }
}

/// Splits an Oxigraph quad into its subject (a named or blank node, never a
/// literal), predicate, object and graph IRI (fields of `Quad`).
#[verifier::external_body]
pub fn ox_quad_parts(q: &OxQuad) -> (r: (OxTerm, NamedNode, OxTerm, Option<String>))
    ensures
        ox_quad_view(*q) == (QuadView {
            subject: ox_term_view(r.0),
            predicate: named_node_iri(r.1),
            object: ox_term_view(r.2),
            graph: opt_view(r.3),
        }),
        !(ox_term_view(r.0) is Literal),
{
    let g = match &q.graph_name {
        GraphName::NamedNode(n) => Some(n.as_str().to_string()),
        GraphName::BlankNode(b) => Some(b.as_str().to_string()),
        GraphName::DefaultGraph => None,
    };
    (OxTerm::from(q.subject.clone()), q.predicate.clone(), q.object.clone(), g)
}

/// Calls `Store::quads_for_pattern` for the default graph and collects the
/// quads: they are exactly the default-graph quads the store holds. An
/// in-memory store's snapshot iteration yields no error (it holds every term
/// it encoded), so the call succeeds.
#[verifier::external_body]
pub fn default_graph_quads(store: &Store) -> (r: Result<Vec<OxQuad>, String>)
    ensures
        r is Ok,
        r matches Ok(v) ==> (forall|i: int|
            0 <= i < v.len() ==> store_quads(*store).contains(#[trigger] ox_quad_view(v@[i]))
                && ox_quad_view(v@[i]).graph is None),
        r matches Ok(v) ==> (forall|q: QuadView|
            #[trigger] store_quads(*store).contains(q) && q.graph is None ==> exists|i: int|
                0 <= i < v.len() && ox_quad_view(#[trigger] v@[i]) == q),
{
    store.quads_for_pattern(None, None, None, Some(GraphNameRef::DefaultGraph))
        .collect::<Result<Vec<_>, _>>().map_err(|e| e.to_string())
}

/// Whether Oxigraph's Turtle parser (no base IRI) accepts the document
/// `content`.
pub uninterp spec fn turtle_accepted(content: Seq<char>) -> bool;

/// The triples the Turtle document `text` denotes, as quads: each blank node
/// labelled by its label in the document, and an anonymous one by a label of
/// its own.
pub uninterp spec fn turtle_triples(text: Seq<char>) -> Set<QuadView>;

/// The term `t` with a blank node label `b` replaced by `f(b)`.
pub open spec fn rename_term(t: TermView, f: spec_fn(Seq<char>) -> Seq<char>) -> TermView {
    match t {
        TermView::Blank(b) => TermView::Blank(f(b)),
        _ => t,
    }
}

/// The quads of `s` with their blank node labels replaced by `f` and placed in
/// the graph `g`.
pub open spec fn relabelled(s: Set<QuadView>, f: spec_fn(Seq<char>) -> Seq<char>, g: Option<Seq<char>>) -> Set<
    QuadView,
> {
    s.map(
        |q: QuadView|
            QuadView { subject: rename_term(q.subject, f), predicate: q.predicate, object: rename_term(q.object, f), graph: g },
    )
}

/// Whether `f` maps distinct labels to distinct labels.
pub open spec fn injective(f: spec_fn(Seq<char>) -> Seq<char>) -> bool {
    forall|a: Seq<char>, b: Seq<char>| #[trigger] f(a) == #[trigger] f(b) ==> a == b
}

/// Whether loading the Turtle document `text` into the graph `g` of a store
/// holding `before`, its blank nodes labelled by `f`, leaves it holding
/// `after`.
pub open spec fn loaded_as(
    before: Set<QuadView>,
    after: Set<QuadView>,
    text: Seq<char>,
    f: spec_fn(Seq<char>) -> Seq<char>,
    g: Option<Seq<char>>,
) -> bool {
    injective(f) && after == before.union(stored_set(relabelled(turtle_triples(text), f, g)))
}

/// Whether loading the Turtle document `text` into the graph `g` of a store
/// holding `before` leaves it holding `after`: the triples of the document are
/// added in `g`, their blank nodes under fresh labels and their literals in
/// the form the storage gives back.
pub open spec fn turtle_loaded(before: Set<QuadView>, after: Set<QuadView>, text: Seq<char>, g: Option<Seq<char>>) -> bool {
    exists|f: spec_fn(Seq<char>) -> Seq<char>| #[trigger] loaded_as(before, after, text, f, g)
}

/// Whether the Turtle document `text` denotes exactly the (default-graph)
/// quads `quads`, up to the labels of blank nodes.
pub open spec fn turtle_denotes(text: Seq<char>, quads: Set<QuadView>) -> bool {
    exists|f: spec_fn(Seq<char>) -> Seq<char>|
        injective(f) && quads == #[trigger] relabelled(turtle_triples(text), f, None)
}

/// The default-graph quads of `s`.
pub open spec fn default_graph_part(s: Set<QuadView>) -> Set<QuadView> {
    s.filter(|q: QuadView| q.graph is None)
}

/// Calls `Store::load_from_reader` with the Turtle parser. The load runs in
/// one transaction: it succeeds exactly when the parser accepts the document
/// (an in-memory store raises no storage error), and a failed load is rolled
/// back. A successful load adds the document's triples to the default graph,
/// each blank node under a label the parser gives it (distinct nodes keep
/// distinct labels) and each literal in the form the storage gives back. The
/// parser refuses a tagless `rdf:langString` literal, so the load adds none.
#[verifier::external_body]
pub fn store_load_turtle(store: &mut Store, content: &str) -> (r: Result<(), String>)
    ensures
        r is Ok <==> turtle_accepted(content@),
        r is Err ==> store_quads(*final(store)) == store_quads(*old(store)),
        r is Ok ==> exists|f: spec_fn(Seq<char>) -> Seq<char>|
            injective(f) && store_quads(*final(store)) == store_quads(*old(store)).union(
                stored_set(#[trigger] relabelled(turtle_triples(content@), f, None)),
            ),
        in_stored_form(store_quads(*final(store))),
        no_tagless_lang_strings(store_quads(*old(store))) ==> no_tagless_lang_strings(store_quads(*final(store))),
{
    store.load_from_reader(RdfFormat::Turtle, content.as_bytes()).map_err(|e| e.to_string())
}

/// Calls `Store::dump_graph_to_writer` on the default graph with the Turtle
/// serializer and returns the bytes written. Writing to a `Vec` cannot fail
/// and an in-memory store raises no storage error, so the call succeeds. The
/// bytes are UTF-8 text denoting exactly the store's default-graph quads (in
/// the form the storage holds them), up to the labels of blank nodes. The
/// serializer writes a tagless `rdf:langString` literal as
/// `"…"^^rdf:langString`, which the parser refuses; without one, the text is
/// accepted Turtle. The layout of the text (order of triples, prefixes, line
/// breaks) is not stated.
#[verifier::external_body]
pub fn store_dump_default_turtle(store: &Store) -> (r: Result<Vec<u8>, String>)
    ensures
        r is Ok,
        r matches Ok(b) ==> utf8_decode(b@) matches Some(t) && (no_tagless_lang_strings(
            default_graph_part(store_quads(*store)),
        ) ==> turtle_accepted(t) && exists|f: spec_fn(Seq<char>) -> Seq<char>|
            injective(f) && default_graph_part(store_quads(*store)) == #[trigger] relabelled(
                turtle_triples(t),
                f,
                None,
            )),
        r matches Ok(b) ==> in_stored_form(default_graph_part(store_quads(*store))),
{
    store.dump_graph_to_writer(GraphNameRef::DefaultGraph, RdfFormat::Turtle, Vec::new())
        .map_err(|e| e.to_string())
}

/// What a SPARQL query asks for.
pub enum QueryForm {
    Select,
    Ask,
    Construct,
    Describe,
}

/// What the SPARQL parser reads in a query text: its form, and whether it
/// declares a dataset of its own (`FROM` / `FROM NAMED`).
pub struct QueryHead {
    pub form: QueryForm,
    pub declares_dataset: bool,
}

/// What `SparqlEvaluator::parse_query` makes of `text`: `None` where it refuses
/// the text, else the form of the query and whether it declares a dataset.
pub uninterp spec fn sparql_head(text: Seq<char>) -> Option<QueryHead>;

/// The dataset a prepared query is evaluated over: the store's default graph
/// with all named graphs (`Default`), the union of all graphs as the default
/// graph (`Union`), or the dataset its own `FROM` / `FROM NAMED` clauses
/// declare (`Declared`).
pub enum DatasetView {
    Default,
    Union,
    Declared,
}

/// What a prepared query holds: the text it was parsed from and the dataset
/// it will be evaluated over.
pub struct PreparedView {
    pub text: Seq<char>,
    pub dataset: DatasetView,
}

/// The plain value a prepared query stands for.
pub uninterp spec fn prepared_view(query: PreparedSparqlQuery) -> PreparedView;

/// Calls `SparqlEvaluator::parse_query`: it succeeds exactly on the texts the
/// parser accepts, and the prepared query keeps the dataset the text declares,
/// or else the store's default dataset.
#[verifier::external_body]
pub fn parse_sparql(sparql: &str) -> (r: Result<PreparedSparqlQuery, String>)
    ensures
        r is Ok <==> sparql_head(sparql@) is Some,
        r matches Ok(q) ==> prepared_view(q) == (PreparedView {
            text: sparql@,
            dataset: if sparql_head(sparql@)->Some_0.declares_dataset {
                DatasetView::Declared
            } else {
                DatasetView::Default
            },
        }),
{
    SparqlEvaluator::new().parse_query(sparql).map_err(|e| e.to_string())
}

/// Calls `QueryDatasetSpecification::is_default_dataset` on the query's
/// dataset: true exactly for the store's default dataset (a declared `FROM`
/// graph is never the store's default graph, and `FROM NAMED` sets the named
/// graphs).
#[verifier::external_body]
pub fn uses_default_dataset(query: &PreparedSparqlQuery) -> (b: bool)
    ensures
        b <==> prepared_view(*query).dataset is Default,
{
    query.dataset().is_default_dataset()
}

/// Calls `QueryDatasetSpecification::set_default_graph_as_union` on the
/// query's dataset: the default graph becomes the union of all graphs; the
/// query text is kept.
#[verifier::external_body]
pub fn set_default_graph_as_union(query: &mut PreparedSparqlQuery)
    ensures
        prepared_view(*final(query)) == (PreparedView {
            text: prepared_view(*old(query)).text,
            dataset: DatasetView::Union,
        }),
{
    query.dataset_mut().set_default_graph_as_union()
}

/// The plain value of an optional Oxigraph term.
pub open spec fn opt_term_view(t: Option<OxTerm>) -> Option<TermView> {
    match t {
        Some(x) => Some(ox_term_view(x)),
        None => None,
    }
}

/// The plain values of solutions, one optional term per projected variable.
pub open spec fn solutions_view(sols: Seq<Vec<Option<OxTerm>>>) -> Seq<Seq<Option<TermView>>> {
    sols.map_values(|s: Vec<Option<OxTerm>>| s@.map_values(|t: Option<OxTerm>| opt_term_view(t)))
}

/// The plain values of variable names.
pub open spec fn vars_view(vars: Seq<String>) -> Seq<Seq<char>> {
    vars.map_values(|v: String| v@)
}

/// Whether `sols` (one optional term per variable of `vars`, solution by
/// solution, in the order they are yielded) is an answer Oxigraph's SPARQL
/// evaluation gives to the SELECT query `text` over `dataset` of a store
/// holding `quads`. Functions such as `RAND`, `NOW` or `UUID` allow more than
/// one answer.
pub uninterp spec fn sparql_answer(
    quads: Set<QuadView>,
    text: Seq<char>,
    dataset: DatasetView,
    vars: Seq<Seq<char>>,
    sols: Seq<Seq<Option<TermView>>>,
) -> bool;

/// Binds the query to the store (`PreparedSparqlQuery::on_store`), executes it
/// and collects the solutions, one optional binding per projected variable.
/// The kind of result follows the query's form; a SELECT result is an answer of
/// the evaluation. Whether evaluation fails is not stated.
#[verifier::external_body]
pub fn execute_query(query: PreparedSparqlQuery, store: &Store) -> (r: Result<QueryOutcome, String>)
    ensures
        r is Ok ==> sparql_head(prepared_view(query).text) is Some,
        r matches Ok(o) ==> (o is Solutions <==> sparql_head(prepared_view(query).text)->Some_0.form is Select),
        r matches Ok(o) ==> (o is Boolean <==> sparql_head(prepared_view(query).text)->Some_0.form is Ask),
        r matches Ok(QueryOutcome::Solutions(vars, sols)) ==> sparql_answer(
            store_quads(*store),
            prepared_view(query).text,
            prepared_view(query).dataset,
            vars_view(vars@),
            solutions_view(sols@),
        ),
{
    match query.on_store(store).execute().map_err(|e| e.to_string())? {
        QueryResults::Solutions(sol) => {
            let vars: Vec<String> = sol.variables().iter().map(|v| v.as_str().to_string()).collect();
            let mut rows = Vec::new();
            for s in sol {
                let s = s.map_err(|e| e.to_string())?;
                rows.push(vars.iter().map(|v| s.get(v.as_str()).cloned()).collect());
            }
            Ok(QueryOutcome::Solutions(vars, rows))
        },
        QueryResults::Boolean(_) => Ok(QueryOutcome::Boolean),
        QueryResults::Graph(_) => Ok(QueryOutcome::Graph),
    }
}

/// The text whose UTF-8 encoding is `bytes`, if they are valid UTF-8.
pub uninterp spec fn utf8_decode(bytes: Seq<u8>) -> Option<Seq<char>>;

/// Calls `String::from_utf8`.
#[verifier::external_body]
pub fn string_from_utf8(bytes: Vec<u8>) -> (r: Result<String, String>)
    ensures
        r matches Ok(s) ==> utf8_decode(bytes@) == Some(s@),
        r is Err ==> utf8_decode(bytes@) is None,
{
    String::from_utf8(bytes).map_err(|e| e.to_string())
}

} // verus!
