//! Loading quads into an Oxigraph store: the domain model, archived actions,
//! workspace metadata and Turtle documents.

use crate::domain::{Action, DomainModel, WorkspaceConfig, actions_view, hierarchies_view};
use crate::error::GraphError;
use crate::insert::{act, actions_quads, actions_quads_vec, model_quads, model_quads_vec, push_quad, quads_view, qv, uuid_node};
use crate::rdf::{Quad, QuadView, RdfTerm, TermView, opt_view, simple_literal_view, xsd_literal_view};
use crate::store::{
    ascii_lower, blank_id_valid, default_graph_quads, iri_valid, language_tag_valid,
    named_node_iri, ox_blank_term, ox_iri_term, ox_language_literal, ox_named_node, ox_quad,
    ox_quad_parts, ox_quad_view, ox_term_view, ox_typed_literal, store_insert, store_load_turtle, turtle_accepted,
    turtle_loaded, loaded_as, relabelled, turtle_triples, injective, stored_set, stored_quad, in_stored_form,
    no_tagless_lang_strings, tagless_lang_string,
    store_new, store_quads,
};
use crate::text::{decimal, decimal_string, str_eq};
use crate::vocab::{RDF_NS, RDFS_NS, WORKSPACE_GRAPH_PREFIX, WORKSPACE_NS, uuid_iri};
use oxigraph::model::{NamedNode, Quad as OxQuad, Term as OxTerm};
use oxigraph::store::Store;
use vstd::prelude::*;

verus! {

/// Whether `s` holds no ASCII upper-case letter.
pub open spec fn no_ascii_upper(s: Seq<char>) -> bool {
    forall|i: int| 0 <= i < s.len() ==> !('A' <= #[trigger] s[i] && s[i] <= 'Z')
}

/// Whether the term can go into the store and out again as Turtle: a valid
/// IRI, a valid blank node identifier, a literal with a valid datatype IRI
/// other than `rdf:langString`, or a language-tagged string (datatype
/// `rdf:langString`) with a valid lower-case tag.
pub open spec fn term_convertible(t: TermView) -> bool {
    match t {
        TermView::Iri(i) => iri_valid(i),
        TermView::Blank(b) => blank_id_valid(b),
        TermView::Literal(_, d, None) => iri_valid(d) && d != RDF_NS@ + "langString"@,
        TermView::Literal(_, d, Some(l)) => d == RDF_NS@ + "langString"@ && language_tag_valid(l)
            && no_ascii_upper(l),
    }
}

/// Whether Oxigraph can represent the quad: its subject is no literal, and
/// its terms, predicate and graph IRIs are valid.
pub open spec fn quad_convertible(q: QuadView) -> bool {
    &&& !(q.subject is Literal)
    &&& term_convertible(q.subject)
    &&& iri_valid(q.predicate)
    &&& term_convertible(q.object)
    &&& match q.graph {
        Some(g) => iri_valid(g),
        None => true,
    }
}

/// Whether every quad of `qs` is convertible.
pub open spec fn all_convertible(qs: Seq<QuadView>) -> bool {
    forall|i: int| 0 <= i < qs.len() ==> quad_convertible(#[trigger] qs[i])
}

/// The store holding `before` after the first `k` quads of `qs` were inserted
/// into it, each in the form the storage gives back.
pub open spec fn after_insert(before: Set<QuadView>, qs: Seq<QuadView>, k: int) -> Set<QuadView> {
    before.union(stored_set(qs.take(k).to_set()))
}

fn lower_case_free(s: &str) -> (b: bool)
    ensures
        b <==> no_ascii_upper(s@),
{
    let cs = crate::text::chars_of(s);
    let mut i: usize = 0;
    while i < cs.len()
        invariant
            cs@ == s@,
            i <= cs@.len(),
            forall|k: int| 0 <= k < i ==> !('A' <= #[trigger] s@[k] && s@[k] <= 'Z'),
        decreases cs@.len() - i,
    {
        if 'A' <= cs[i] && cs[i] <= 'Z' {
            return false;
        }
        i = i + 1;
    }
    true
}

/// Converts a term to Oxigraph's representation.
pub fn to_ox_term(t: &RdfTerm) -> (r: Result<OxTerm, GraphError>)
    ensures
        r is Ok <==> term_convertible(t@),
        r matches Ok(o) ==> ox_term_view(o) == t@,
        r matches Err(e) ==> e is Syntax,
{
    match t {
        RdfTerm::Iri(i) => match ox_named_node(i.as_str()) {
            Ok(n) => Ok(ox_iri_term(n)),
            Err(m) => Err(GraphError::Syntax(m)),
        },
        RdfTerm::Blank(b) => match ox_blank_term(b.as_str()) {
            Ok(o) => Ok(o),
            Err(m) => Err(GraphError::Syntax(m)),
        },
        RdfTerm::Literal(v, d, None) => {
            let lang_string = crate::vocab::ns(RDF_NS, "langString");
            if str_eq(d.as_str(), lang_string.as_str()) {
                return Err(GraphError::Syntax(String::from_str("an rdf:langString literal has a language tag")));
            }
            match ox_named_node(d.as_str()) {
                Ok(n) => Ok(ox_typed_literal(v.as_str(), n)),
                Err(m) => Err(GraphError::Syntax(m)),
            }
        },
        RdfTerm::Literal(v, d, Some(l)) => {
            let lang_string = crate::vocab::ns(RDF_NS, "langString");
            if !str_eq(d.as_str(), lang_string.as_str()) {
                return Err(GraphError::Syntax(String::from_str("a language-tagged literal has datatype rdf:langString")));
            }
            if !lower_case_free(l.as_str()) {
                return Err(GraphError::Syntax(String::from_str("a language tag is written in lower case")));
            }
            match ox_language_literal(v.as_str(), l.as_str()) {
                Ok(o) => {
                    assert(ascii_lower(l@) =~= l@);
                    Ok(o)
                },
                Err(m) => Err(GraphError::Syntax(m)),
            }
        },
    }
}

/// Converts a quad to Oxigraph's representation.
pub fn to_ox_quad(q: &Quad) -> (r: Result<OxQuad, GraphError>)
    ensures
        r is Ok <==> quad_convertible(q@),
        r matches Ok(o) ==> ox_quad_view(o) == q@,
        r matches Err(e) ==> e is Syntax,
{
    let s = to_ox_term(&q.subject)?;
    let p = match ox_named_node(q.predicate.as_str()) {
        Ok(n) => n,
        Err(m) => return Err(GraphError::Syntax(m)),
    };
    let o = to_ox_term(&q.object)?;
    let g = match &q.graph {
        Some(iri) => match ox_named_node(iri.as_str()) {
            Ok(n) => Some(n),
            Err(m) => return Err(GraphError::Syntax(m)),
        },
        None => None,
    };
    match ox_quad(s, p, o, g) {
        Ok(x) => Ok(x),
        Err(m) => Err(GraphError::Syntax(m)),
    }
}

/// Storing one more quad adds its stored form.
proof fn lemma_stored_set_insert(s: Set<QuadView>, q: QuadView)
    ensures
        stored_set(s.insert(q)) == stored_set(s).insert(stored_quad(q)),
{
    assert forall|x: QuadView| stored_set(s.insert(q)).contains(x) implies stored_set(s).insert(stored_quad(q)).contains(x) by {
        let y = choose|y: QuadView| s.insert(q).contains(y) && stored_quad(y) == x;
        if y != q {
            assert(s.contains(y));
        }
    }
    assert forall|x: QuadView| stored_set(s).insert(stored_quad(q)).contains(x) implies stored_set(s.insert(q)).contains(x) by {
        if x != stored_quad(q) {
            let y = choose|y: QuadView| s.contains(y) && stored_quad(y) == x;
            assert(s.insert(q).contains(y));
        } else {
            assert(s.insert(q).contains(q));
        }
    }
    assert(stored_set(s.insert(q)) =~= stored_set(s).insert(stored_quad(q)));
}

/// Inserts `quads` into the store, in order. Stops at the first quad that
/// Oxigraph cannot represent, with a syntax error; the quads before it stay
/// inserted.
pub fn insert_quads(store: &mut Store, quads: &Vec<Quad>) -> (r: Result<(), GraphError>)
    ensures
        r is Ok <==> all_convertible(quads_view(quads@)),
        r is Ok ==> store_quads(*final(store)) == after_insert(
            store_quads(*old(store)),
            quads_view(quads@),
            quads@.len() as int,
        ),
        r matches Err(e) ==> e is Syntax && exists|k: int|
            0 <= k < quads@.len() && !quad_convertible(#[trigger] quads_view(quads@)[k]) && (forall|j: int|
                0 <= j < k ==> quad_convertible(#[trigger] quads_view(quads@)[j]))
                && store_quads(*final(store)) == after_insert(
                store_quads(*old(store)),
                quads_view(quads@),
                k,
            ),
        no_tagless_lang_strings(store_quads(*old(store))) ==> no_tagless_lang_strings(store_quads(*final(store))),
{
    let ghost qv = quads_view(quads@);
    let ghost start = store_quads(*store);
    assert(stored_set(Set::<QuadView>::empty()) =~= Set::<QuadView>::empty());
    assert(qv.take(0).to_set() =~= Set::<QuadView>::empty());
    let mut i: usize = 0;
    while i < quads.len()
        invariant
            qv == quads_view(quads@),
            start == store_quads(*old(store)),
            i <= quads@.len(),
            forall|j: int| 0 <= j < i ==> quad_convertible(#[trigger] qv[j]),
            store_quads(*store) == after_insert(start, qv, i as int),
            no_tagless_lang_strings(start) ==> no_tagless_lang_strings(store_quads(*store)),
        decreases quads@.len() - i,
    {
        let oq = match to_ox_quad(&quads[i]) {
            Ok(o) => o,
            Err(e) => {
                assert(!quad_convertible(quads_view(quads@)[i as int]));
                assert(forall|j: int| 0 <= j < i ==> quad_convertible(#[trigger] quads_view(quads@)[j]));
                return Err(e);
            },
        };
        let _ = store_insert(store, &oq);
        proof {
            assert(qv.take(i + 1) =~= qv.take(i as int).push(qv[i as int]));
            qv.take(i as int).lemma_push_to_set_commute(qv[i as int]);
            lemma_stored_set_insert(qv.take(i as int).to_set(), qv[i as int]);
            assert(after_insert(start, qv, i + 1) =~= after_insert(start, qv, i as int).insert(stored_quad(qv[i as int])));
        }
        i = i + 1;
    }
    r_ok()
}

fn r_ok() -> (r: Result<(), GraphError>)
    ensures
        r is Ok,
{
    Ok(())
}

/// Creates an empty in-memory store.
pub fn create_store() -> (r: Result<Store, GraphError>)
    ensures
        r is Ok,
        r matches Ok(s) ==> store_quads(s) == Set::<QuadView>::empty(),
{
    match store_new() {
        Ok(s) => Ok(s),
        Err(m) => Err(GraphError::Store(m)),
    }
}

/// The context hierarchies of an optional configuration.
pub open spec fn config_hierarchies(config: Option<&WorkspaceConfig>) -> Option<Seq<(Seq<char>, Seq<Seq<char>>)>> {
    match config {
        Some(c) => Some(hierarchies_view(*c)),
        None => None,
    }
}

/// Loads a domain model into the store, in graph `graph` (`None` is the
/// default graph): charters with their plans, actions, the implicit successor
/// chains of sequential parents and, when a configuration is given, its
/// context tag hierarchies. A parent charter named by a title that no charter
/// of the model carries is identified by the name-based UUID of the title in
/// `inbox_ns`.
pub fn load_domain_model(
    store: &mut Store,
    model: &DomainModel,
    config: Option<&WorkspaceConfig>,
    graph: &Option<String>,
    inbox_ns: u128,
) -> (r: Result<(), GraphError>)
    ensures
        ({
            let qs = model_quads(model@, config_hierarchies(config), inbox_ns, opt_view(*graph));
            &&& (r is Ok <==> all_convertible(qs))
            &&& (r is Ok ==> store_quads(*final(store)) == after_insert(store_quads(*old(store)), qs, qs.len() as int))
            &&& (r matches Err(e) ==> e is Syntax && exists|k: int|
                0 <= k < qs.len() && !quad_convertible(#[trigger] qs[k]) && (forall|j: int|
                    0 <= j < k ==> quad_convertible(#[trigger] qs[j]))
                    && store_quads(*final(store)) == after_insert(store_quads(*old(store)), qs, k))
        }),
        no_tagless_lang_strings(store_quads(*old(store))) ==> no_tagless_lang_strings(store_quads(*final(store))),
{
    let quads = model_quads_vec(model, config, inbox_ns, graph);
    insert_quads(store, &quads)
}

/// Inserts actions into the store's default graph (the transient stores that
/// are written out as Turtle). Quads already present stay as they are.
pub fn load_actions_into_store(store: &mut Store, actions: &Vec<Action>) -> (r: Result<(), GraphError>)
    ensures
        ({
            let qs = actions_quads(actions_view(actions@), None);
            &&& (r is Ok <==> all_convertible(qs))
            &&& (r is Ok ==> store_quads(*final(store)) == after_insert(store_quads(*old(store)), qs, qs.len() as int))
            &&& (r matches Err(e) ==> e is Syntax && exists|k: int|
                0 <= k < qs.len() && !quad_convertible(#[trigger] qs[k]) && (forall|j: int|
                    0 <= j < k ==> quad_convertible(#[trigger] qs[j]))
                    && store_quads(*final(store)) == after_insert(store_quads(*old(store)), qs, k))
        }),
{
    let quads = actions_quads_vec(actions, &None);
    insert_quads(store, &quads)
}

/// Loads a Turtle document into the store's default graph. A document that
/// does not parse gives a syntax error and leaves the store unchanged.
pub fn load_turtle(store: &mut Store, content: &str) -> (r: Result<(), GraphError>)
    ensures
        r is Ok <==> turtle_accepted(content@),
        r is Ok ==> turtle_loaded(store_quads(*old(store)), store_quads(*final(store)), content@, None),
        r matches Err(e) ==> e is Syntax && store_quads(*final(store)) == store_quads(*old(store)),
{
    match store_load_turtle(store, content) {
        Ok(()) => {
            proof {
                let f = choose|f: spec_fn(Seq<char>) -> Seq<char>|
                    injective(f) && store_quads(*store) == store_quads(*old(store)).union(
                        stored_set(#[trigger] relabelled(turtle_triples(content@), f, None)),
                    );
                assert(loaded_as(store_quads(*old(store)), store_quads(*store), content@, f, None));
            }
            Ok(())
        },
        Err(m) => Err(GraphError::Syntax(m)),
    }
}

/// The quad `q` placed in the graph `g`.
pub open spec fn in_graph(q: QuadView, g: Option<Seq<char>>) -> QuadView {
    QuadView { graph: g, ..q }
}

/// The quads `v[j]` for `j < n`, each placed in the graph `g`.
pub open spec fn moved_prefix(v: Seq<OxQuad>, n: int, g: Option<Seq<char>>) -> Set<QuadView> {
    Set::new(|q: QuadView| exists|j: int| 0 <= j < n && q == in_graph(ox_quad_view(#[trigger] v[j]), g))
}

/// Stored, relabelled quads placed in one graph and then in another are the
/// stored quads relabelled into the second.
proof fn lemma_relabel_twice(
    t: Set<QuadView>,
    f: spec_fn(Seq<char>) -> Seq<char>,
    g1: Option<Seq<char>>,
    g2: Option<Seq<char>>,
)
    ensures
        stored_set(relabelled(t, f, g1)).map(|q: QuadView| in_graph(q, g2)) == stored_set(relabelled(t, f, g2)),
{
    let a = stored_set(relabelled(t, f, g1)).map(|q: QuadView| in_graph(q, g2));
    let b = stored_set(relabelled(t, f, g2));
    assert forall|q: QuadView| a.contains(q) implies b.contains(q) by {
        let q2 = choose|q2: QuadView| stored_set(relabelled(t, f, g1)).contains(q2) && in_graph(q2, g2) == q;
        let q1 = choose|q1: QuadView| relabelled(t, f, g1).contains(q1) && stored_quad(q1) == q2;
        let q0 = choose|q0: QuadView|
            t.contains(q0) && (QuadView {
                subject: crate::store::rename_term(q0.subject, f),
                predicate: q0.predicate,
                object: crate::store::rename_term(q0.object, f),
                graph: g1,
            }) == q1;
        let r1 = QuadView {
            subject: crate::store::rename_term(q0.subject, f),
            predicate: q0.predicate,
            object: crate::store::rename_term(q0.object, f),
            graph: g2,
        };
        assert(relabelled(t, f, g2).contains(r1));
        assert(stored_quad(r1) == q);
    }
    assert forall|q: QuadView| b.contains(q) implies a.contains(q) by {
        let r1 = choose|r1: QuadView| relabelled(t, f, g2).contains(r1) && stored_quad(r1) == q;
        let q0 = choose|q0: QuadView|
            t.contains(q0) && (QuadView {
                subject: crate::store::rename_term(q0.subject, f),
                predicate: q0.predicate,
                object: crate::store::rename_term(q0.object, f),
                graph: g2,
            }) == r1;
        let q1 = QuadView {
            subject: crate::store::rename_term(q0.subject, f),
            predicate: q0.predicate,
            object: crate::store::rename_term(q0.object, f),
            graph: g1,
        };
        assert(relabelled(t, f, g1).contains(q1));
        assert(stored_set(relabelled(t, f, g1)).contains(stored_quad(q1)));
        assert(in_graph(stored_quad(q1), g2) == q);
    }
    assert(a =~= b);
}

/// Loads a Turtle document into the graph `graph` of the store: the document
/// is parsed into a scratch store and each of its triples is inserted into
/// `graph`. An invalid graph IRI or a document that does not parse gives a
/// syntax error, and the store is then unchanged.
pub fn load_turtle_into_graph(store: &mut Store, content: &str, graph: &Option<String>) -> (r: Result<(), GraphError>)
    ensures
        r is Ok <==> (graph matches Some(g) ==> iri_valid(g@)) && turtle_accepted(content@),
        r is Ok ==> turtle_loaded(store_quads(*old(store)), store_quads(*final(store)), content@, opt_view(*graph)),
        r matches Err(e) ==> e is Syntax && store_quads(*final(store)) == store_quads(*old(store)),
{
    let gnode = match graph {
        Some(g) => match ox_named_node(g.as_str()) {
            Ok(n) => Some(n),
            Err(m) => return Err(GraphError::Syntax(m)),
        },
        None => None,
    };
    let mut temp = match create_store() {
        Ok(t) => t,
        Err(e) => return Err(e),
    };
    match store_load_turtle(&mut temp, content) {
        Ok(()) => {},
        Err(m) => return Err(GraphError::Syntax(m)),
    }
    let ghost tq = store_quads(temp);
    let ghost gv = opt_view(*graph);
    let ghost f = choose|f: spec_fn(Seq<char>) -> Seq<char>|
        injective(f) && tq == Set::<QuadView>::empty().union(
            stored_set(#[trigger] relabelled(turtle_triples(content@), f, None)),
        );
    assert(tq == stored_set(relabelled(turtle_triples(content@), f, None))) by {
        assert(Set::<QuadView>::empty().union(stored_set(relabelled(turtle_triples(content@), f, None)))
            =~= stored_set(relabelled(turtle_triples(content@), f, None)));
    }
    let quads = match default_graph_quads(&temp) {
        Ok(v) => v,
        Err(m) => return Err(GraphError::Store(m)),
    };
    let ghost start = store_quads(*store);
    assert forall|j: int| 0 <= j < quads@.len() implies stored_quad(ox_quad_view(#[trigger] quads@[j]))
        == ox_quad_view(quads@[j]) by {
        assert(tq.contains(ox_quad_view(quads@[j])));
    }
    let mut i: usize = 0;
    while i < quads.len()
        invariant
            start == store_quads(*old(store)),
            gv == opt_view(*graph),
            forall|j: int| 0 <= j < quads@.len() ==> stored_quad(ox_quad_view(#[trigger] quads@[j])) == ox_quad_view(
                quads@[j],
            ),
            store_quads(*store) == start.union(moved_prefix(quads@, i as int, gv)),
            i <= quads@.len(),
            gnode matches Some(n) ==> graph matches Some(g) && named_node_iri(n) == g@,
            gnode is None ==> graph is None,
        decreases quads@.len() - i,
    {
        let (s, p, o, _) = ox_quad_parts(&quads[i]);
        let g2 = match &gnode {
            Some(n) => Some(n.clone()),
            None => None,
        };
        let oq = match ox_quad(s, p, o, g2) {
            Ok(x) => x,
            Err(m) => return Err(GraphError::Store(m)),
        };
        let ghost before = store_quads(*store);
        let _ = store_insert(store, &oq);
        proof {
            assert(ox_quad_view(oq) == in_graph(ox_quad_view(quads@[i as int]), gv));
            assert(stored_quad(ox_quad_view(quads@[i as int])) == ox_quad_view(quads@[i as int]));
            assert(stored_quad(ox_quad_view(oq)) == ox_quad_view(oq));
            assert(moved_prefix(quads@, i + 1, gv) =~= moved_prefix(quads@, i as int, gv).insert(
                in_graph(ox_quad_view(quads@[i as int]), gv),
            ));
            assert(store_quads(*store) =~= start.union(moved_prefix(quads@, i + 1, gv)));
        }
        i = i + 1;
    }
    proof {
        let t = turtle_triples(content@);
        lemma_relabel_twice(t, f, None, gv);
        assert(moved_prefix(quads@, quads@.len() as int, gv) =~= tq.map(|q: QuadView| in_graph(q, gv)));
        assert(loaded_as(start, store_quads(*store), content@, f, gv));
    }
    Ok(())
}

/// A reload of the same quads leaves the store as the first load left it.
pub proof fn lemma_reload_changes_nothing(before: Set<QuadView>, qs: Seq<QuadView>)
    ensures
        after_insert(after_insert(before, qs, qs.len() as int), qs, qs.len() as int) == after_insert(
            before,
            qs,
            qs.len() as int,
        ),
{
    assert(after_insert(after_insert(before, qs, qs.len() as int), qs, qs.len() as int) =~= after_insert(
        before,
        qs,
        qs.len() as int,
    ));
}

/// Loading actions (as `load_actions_into_store` does) adds quads to the
/// default graph only.
pub proof fn lemma_actions_load_into_default_graph(before: Set<QuadView>, acts: Seq<crate::domain::ActionView>)
    ensures
        forall|q: QuadView|
            #[trigger] after_insert(before, actions_quads(acts, None), actions_quads(acts, None).len() as int).contains(q)
                && !before.contains(q) ==> q.graph is None,
{
    let qs = actions_quads(acts, None);
    crate::insert::lemma_actions_quads_in_graph(acts, None);
    assert(qs.take(qs.len() as int) =~= qs);
    assert forall|q: QuadView|
        #[trigger] after_insert(before, qs, qs.len() as int).contains(q) && !before.contains(q) implies q.graph is None by {
        let x = choose|x: QuadView| qs.take(qs.len() as int).to_set().contains(x) && stored_quad(x) == q;
        assert(qs.contains(x));
        let i = choose|i: int| 0 <= i < qs.len() && qs[i] == x;
        assert(qs[i].graph is None);
    }
}

/// After a load, the store holds every quad it held before and every quad
/// that was loaded, in the form the storage gives back.
pub proof fn lemma_load_keeps_and_adds(before: Set<QuadView>, qs: Seq<QuadView>)
    ensures
        before.subset_of(after_insert(before, qs, qs.len() as int)),
        forall|i: int|
            0 <= i < qs.len() ==> after_insert(before, qs, qs.len() as int).contains(stored_quad(#[trigger] qs[i])),
{
    assert(qs.take(qs.len() as int) =~= qs);
    assert forall|i: int| 0 <= i < qs.len() implies after_insert(before, qs, qs.len() as int).contains(
        stored_quad(#[trigger] qs[i]),
    ) by {
        assert(qs.take(qs.len() as int).contains(qs[i]));
        assert(qs.take(qs.len() as int).to_set().contains(qs[i]));
    }
}

/// An action of a workspace, with the row its source begins on where the
/// parser recorded source metadata.
#[derive(Clone, Debug)]
pub struct SourcedAction {
    pub id: u128,
    pub start_row: Option<u64>,
}

/// A charter's actions file and its actions.
#[derive(Clone, Debug)]
pub struct CharterSources {
    pub actions_file: Option<String>,
    pub actions: Vec<SourcedAction>,
}

/// What the workspace metadata records: the workspace's effective identity
/// and name, its canonical root directory, its charter directory, and the
/// source of each charter's actions.
#[derive(Clone, Debug)]
pub struct WorkspaceSnapshot {
    pub id: String,
    pub name: String,
    pub root: String,
    pub charter_root: String,
    pub charters: Vec<CharterSources>,
}

/// A term of the workspace vocabulary.
pub open spec fn ws_term(name: Seq<char>) -> Seq<char> {
    WORKSPACE_NS@ + name
}

/// For each action with source metadata: its source file and its one-based
/// source line.
pub open spec fn source_quads(file: Seq<char>, acts: Seq<SourcedAction>, g: Option<Seq<char>>) -> Seq<QuadView>
    decreases acts.len(),
{
    if acts.len() == 0 {
        Seq::empty()
    } else {
        let a = acts.last();
        source_quads(file, acts.drop_last(), g) + match a.start_row {
            Some(row) => seq![
                qv(uuid_node(a.id), ws_term("hasSourceFile"@), xsd_literal_view(file, "string"@), g),
                qv(uuid_node(a.id), ws_term("hasSourceLine"@), xsd_literal_view(decimal((row + 1) as nat), "integer"@), g),
            ],
            None => Seq::empty(),
        }
    }
}

/// The source file of a charter's actions, empty when it has none.
pub open spec fn file_text(f: Option<String>) -> Seq<char> {
    match f {
        Some(p) => p@,
        None => Seq::empty(),
    }
}

/// The source quads of each charter in turn.
pub open spec fn charter_sources_quads(cs: Seq<CharterSources>, g: Option<Seq<char>>) -> Seq<QuadView>
    decreases cs.len(),
{
    if cs.len() == 0 {
        Seq::empty()
    } else {
        charter_sources_quads(cs.drop_last(), g) + source_quads(file_text(cs.last().actions_file), cs.last().actions@, g)
    }
}

/// The quads the workspace metadata inserts, in order: the workspace
/// resource (type, label, alias, root, charter root), then the sources.
pub open spec fn workspace_quads(ws: WorkspaceSnapshot, g: Option<Seq<char>>) -> Seq<QuadView> {
    let s = TermView::Iri(WORKSPACE_GRAPH_PREFIX@ + ws.id@);
    seq![
        qv(s, RDF_NS@ + "type"@, TermView::Iri(ws_term("Workspace"@)), g),
        qv(s, RDFS_NS@ + "label"@, simple_literal_view(ws.name@), g),
        qv(s, act("hasAlias"@), simple_literal_view(ws.name@), g),
        qv(s, ws_term("root"@), xsd_literal_view(ws.root@, "string"@), g),
        qv(s, ws_term("charterRoot"@), xsd_literal_view(ws.charter_root@, "string"@), g),
    ] + charter_sources_quads(ws.charters@, g)
}

/// Whether the action's source row, if any, has a successor in `u64`.
pub open spec fn row_ok(a: SourcedAction) -> bool {
    match a.start_row {
        Some(row) => row < u64::MAX,
        None => true,
    }
}

/// Whether every recorded source row has a successor in `u64`.
pub open spec fn rows_bounded(cs: Seq<CharterSources>) -> bool {
    forall|i: int, j: int|
        0 <= i < cs.len() && 0 <= j < cs[i].actions@.len() ==> row_ok(#[trigger] cs[i].actions@[j])
}

fn push_sources(out: &mut Vec<Quad>, file: &String, acts: &Vec<SourcedAction>, g: &Option<String>)
    requires
        forall|j: int| 0 <= j < acts@.len() ==> row_ok(#[trigger] acts@[j]),
    ensures
        quads_view(final(out)@) == quads_view(old(out)@) + source_quads(file@, acts@, opt_view(*g)),
{
    let ghost start = quads_view(out@);
    let mut i: usize = 0;
    while i < acts.len()
        invariant
            i <= acts@.len(),
            forall|j: int| 0 <= j < acts@.len() ==> row_ok(#[trigger] acts@[j]),
            quads_view(out@) == start + source_quads(file@, acts@.subrange(0, i as int), opt_view(*g)),
        decreases acts@.len() - i,
    {
        assert(acts@.subrange(0, i + 1).drop_last() == acts@.subrange(0, i as int));
        assert(acts@.subrange(0, i + 1).last() == acts@[i as int]);
        match acts[i].start_row {
            Some(row) => {
                let subject = RdfTerm::Iri(crate::vocab::uuid_iri_string(acts[i].id));
                push_quad(out, &subject, crate::vocab::ns(WORKSPACE_NS, "hasSourceFile"), crate::rdf::xsd_literal(file.clone(), "string"), g);
                push_quad(out, &subject, crate::vocab::ns(WORKSPACE_NS, "hasSourceLine"), crate::rdf::xsd_literal(decimal_string(row + 1), "integer"), g);
            },
            None => {},
        }
        assert(quads_view(out@) =~= start + source_quads(file@, acts@.subrange(0, i + 1), opt_view(*g)));
        i = i + 1;
    }
    assert(acts@.subrange(0, acts@.len() as int) == acts@);
}

/// The quads of the workspace metadata.
pub fn workspace_quads_vec(ws: &WorkspaceSnapshot, g: &Option<String>) -> (v: Vec<Quad>)
    requires
        rows_bounded(ws.charters@),
    ensures
        quads_view(v@) == workspace_quads(*ws, opt_view(*g)),
{
    let s = RdfTerm::Iri(crate::vocab::workspace_graph_uri(ws.id.as_str()));
    let mut out: Vec<Quad> = Vec::new();
    push_quad(&mut out, &s, crate::vocab::rdf_type(), RdfTerm::Iri(crate::vocab::ns(WORKSPACE_NS, "Workspace")), g);
    push_quad(&mut out, &s, crate::vocab::rdfs_pred("label"), crate::rdf::simple_literal(ws.name.clone()), g);
    push_quad(&mut out, &s, crate::vocab::actions_pred("hasAlias"), crate::rdf::simple_literal(ws.name.clone()), g);
    push_quad(&mut out, &s, crate::vocab::ns(WORKSPACE_NS, "root"), crate::rdf::xsd_literal(ws.root.clone(), "string"), g);
    push_quad(&mut out, &s, crate::vocab::ns(WORKSPACE_NS, "charterRoot"), crate::rdf::xsd_literal(ws.charter_root.clone(), "string"), g);
    let ghost head = quads_view(out@);
    let cs = &ws.charters;
    let mut i: usize = 0;
    while i < cs.len()
        invariant
            cs == &ws.charters,
            rows_bounded(cs@),
            i <= cs@.len(),
            quads_view(out@) == head + charter_sources_quads(cs@.subrange(0, i as int), opt_view(*g)),
        decreases cs@.len() - i,
    {
        assert(cs@.subrange(0, i + 1).drop_last() == cs@.subrange(0, i as int));
        assert(cs@.subrange(0, i + 1).last() == cs@[i as int]);
        let file = match &cs[i].actions_file {
            Some(f) => f.clone(),
            None => String::new(),
        };
        assert(forall|j: int| 0 <= j < cs@[i as int].actions@.len() ==> row_ok(#[trigger] cs@[i as int].actions@[j]));
        push_sources(&mut out, &file, &cs[i].actions, g);
        assert(quads_view(out@) =~= head + charter_sources_quads(cs@.subrange(0, i + 1), opt_view(*g)));
        i = i + 1;
    }
    assert(cs@.subrange(0, cs@.len() as int) == cs@);
    assert(quads_view(out@) =~= workspace_quads(*ws, opt_view(*g)));
    out
}

/// Inserts the workspace metadata into the store, in graph `graph`: the
/// workspace resource with its label and alias (both the workspace's name),
/// root and charter root, and the source file and one-based source line of
/// each action that has source metadata.
pub fn insert_workspace_metadata(store: &mut Store, ws: &WorkspaceSnapshot, graph: &Option<String>) -> (r: Result<(), GraphError>)
    requires
        rows_bounded(ws.charters@),
    ensures
        ({
            let qs = workspace_quads(*ws, opt_view(*graph));
            &&& (r is Ok <==> all_convertible(qs))
            &&& (r is Ok ==> store_quads(*final(store)) == after_insert(store_quads(*old(store)), qs, qs.len() as int))
            &&& (r matches Err(e) ==> e is Syntax && exists|k: int|
                0 <= k < qs.len() && !quad_convertible(#[trigger] qs[k]) && (forall|j: int|
                    0 <= j < k ==> quad_convertible(#[trigger] qs[j]))
                    && store_quads(*final(store)) == after_insert(store_quads(*old(store)), qs, k))
        }),
{
    let quads = workspace_quads_vec(ws, graph);
    insert_quads(store, &quads)
}

} // verus!
