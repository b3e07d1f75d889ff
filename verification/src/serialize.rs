//! Turtle output of a store's default graph, and of a domain model filtered
//! by action phase.

use crate::domain::{
    Action, ActionView, Charter, CharterView, DomainModel, actions_view, all_actions,
    charters_view, clone_opt_string, copy_plans, is_closed_state, lemma_map_push,
};
use crate::error::GraphError;
use crate::insert::{
    action_class_term, action_type_quad, lemma_model_class_quads_type_actions, lemma_model_types_every_action, model_quads,
    qv, uuid_node,
};
use crate::load::{all_convertible, create_store, load_domain_model};
use crate::store::{
    default_graph_part, in_stored_form, injective, loaded_as, no_tagless_lang_strings, relabelled, rename_term,
    store_dump_default_turtle, stored_quad, stored_set, stored_term, store_quads, string_from_utf8,
    turtle_accepted, turtle_denotes, turtle_loaded, turtle_triples,
};
use crate::rdf::{QuadView, TermView};
use oxigraph::store::Store;
use vstd::prelude::*;

verus! {

/// Which actions a phase filter keeps.
#[derive(Clone, Copy, Debug, PartialEq, Eq)]
pub enum PhaseFilter {
    /// Completed or cancelled actions.
    Closed,
    /// Actions neither completed nor cancelled.
    Open,
}

/// Whether the filter keeps an action in state `s`.
pub open spec fn keeps(f: PhaseFilter, s: crate::domain::ActionState) -> bool {
    match f {
        PhaseFilter::Closed => is_closed_state(s),
        PhaseFilter::Open => !is_closed_state(s),
    }
}

/// The actions of `acts` the filter keeps, in order.
pub open spec fn kept_actions(acts: Seq<ActionView>, f: PhaseFilter) -> Seq<ActionView>
    decreases acts.len(),
{
    if acts.len() == 0 {
        Seq::empty()
    } else {
        let rest = kept_actions(acts.drop_last(), f);
        if keeps(f, acts.last().state) {
            rest.push(acts.last())
        } else {
            rest
        }
    }
}

/// The charters of `cs` that keep at least one action, each with only the
/// actions the filter keeps, in order; everything else of a charter stays.
pub open spec fn filtered_charters(cs: Seq<CharterView>, f: PhaseFilter) -> Seq<CharterView>
    decreases cs.len(),
{
    if cs.len() == 0 {
        Seq::empty()
    } else {
        let rest = filtered_charters(cs.drop_last(), f);
        let c = cs.last();
        let kept = kept_actions(c.actions, f);
        if kept.len() > 0 {
            rest.push(CharterView { actions: kept, ..c })
        } else {
            rest
        }
    }
}

fn keeps_state(f: PhaseFilter, s: crate::domain::ActionState) -> (b: bool)
    ensures
        b == keeps(f, s),
{
    let closed = match s {
        crate::domain::ActionState::Completed => true,
        crate::domain::ActionState::Cancelled => true,
        _ => false,
    };
    match f {
        PhaseFilter::Closed => closed,
        PhaseFilter::Open => !closed,
    }
}

fn filter_actions(acts: &Vec<Action>, f: PhaseFilter) -> (r: Vec<Action>)
    ensures
        actions_view(r@) == kept_actions(actions_view(acts@), f),
{
    let ghost av = actions_view(acts@);
    let mut out: Vec<Action> = Vec::new();
    let mut i: usize = 0;
    while i < acts.len()
        invariant
            av == actions_view(acts@),
            i <= acts@.len(),
            actions_view(out@) == kept_actions(av.subrange(0, i as int), f),
        decreases acts@.len() - i,
    {
        assert(av.subrange(0, i + 1).drop_last() == av.subrange(0, i as int));
        assert(av.subrange(0, i + 1).last() == acts@[i as int]@);
        if keeps_state(f, acts[i].state) {
            let ghost before = out@;
            let a = acts[i].copy();
            out.push(a);
            proof {
                lemma_map_push(before, a, |x: Action| x@);
            }
        }
        i = i + 1;
    }
    assert(av.subrange(0, acts@.len() as int) == av);
    out
}

/// Filters a model down to the actions the filter keeps, preserving each
/// charter's other content; charters left without actions are dropped.
pub fn filter_model_by_phase(model: &DomainModel, f: PhaseFilter) -> (r: DomainModel)
    ensures
        r@ == filtered_charters(model@, f),
{
    let ghost cv = model@;
    let cs = &model.charters;
    let mut out: Vec<Charter> = Vec::new();
    let mut i: usize = 0;
    while i < cs.len()
        invariant
            cs == &model.charters,
            cv == charters_view(cs@),
            i <= cs@.len(),
            charters_view(out@) == filtered_charters(cv.subrange(0, i as int), f),
        decreases cs@.len() - i,
    {
        assert(cv.subrange(0, i + 1).drop_last() == cv.subrange(0, i as int));
        assert(cv.subrange(0, i + 1).last() == cs@[i as int]@);
        let kept = filter_actions(&cs[i].actions, f);
        if kept.len() > 0 {
            let c = &cs[i];
            let nc = Charter {
                id: c.id,
                title: c.title.clone(),
                description: clone_opt_string(&c.description),
                alias: clone_opt_string(&c.alias),
                state: c.state,
                parent: clone_opt_string(&c.parent),
                plans: copy_plans(&c.plans),
                actions: kept,
            };
            let ghost before = out@;
            out.push(nc);
            proof {
                lemma_map_push(before, nc, |x: Charter| x@);
                assert(nc@ == (CharterView { actions: kept_actions(cs@[i as int]@.actions, f), ..cs@[i as int]@ }));
            }
        }
        i = i + 1;
    }
    assert(cv.subrange(0, cs@.len() as int) == cv);
    DomainModel { charters: out }
}

/// Serializes the store's default graph as Turtle. This always succeeds. The
/// text denotes exactly the default-graph quads of the store (quads of named
/// graphs are left out, literals are written in the form the store holds
/// them), up to the labels of blank nodes; it is accepted Turtle unless the
/// default graph holds an `rdf:langString` literal without a language tag.
pub fn dump_store_to_turtle(store: &Store) -> (r: Result<String, GraphError>)
    ensures
        r is Ok,
        r matches Ok(t) ==> no_tagless_lang_strings(default_graph_part(store_quads(*store))) ==> turtle_accepted(t@)
            && turtle_denotes(t@, default_graph_part(store_quads(*store))),
        r matches Ok(t) ==> in_stored_form(default_graph_part(store_quads(*store))),
{
    let bytes = match store_dump_default_turtle(store) {
        Ok(b) => b,
        Err(m) => return Err(GraphError::Syntax(m)),
    };
    match string_from_utf8(bytes) {
        Ok(s) => Ok(s),
        Err(m) => Err(GraphError::Syntax(m)),
    }
}

/// Whether `r` is the Turtle output of the quads `qs`: given exactly when each
/// quad can be represented, and then a Turtle document denoting exactly the
/// default-graph part of the quads in the form the store holds them, up to
/// the labels of blank nodes.
pub open spec fn turtle_of(qs: Seq<QuadView>, r: Result<String, GraphError>) -> bool {
    &&& (r is Ok <==> all_convertible(qs))
    &&& (r matches Ok(t) ==> turtle_accepted(t@) && turtle_denotes(t@, default_graph_part(stored_set(qs.to_set()))))
    &&& (r matches Err(e) ==> e is Syntax)
}

fn model_to_turtle(model: &DomainModel, inbox_ns: u128) -> (r: Result<String, GraphError>)
    ensures
        turtle_of(model_quads(model@, None, inbox_ns, None), r),
{
    let mut store = match create_store() {
        Ok(s) => s,
        Err(e) => return Err(e),
    };
    assert(no_tagless_lang_strings(store_quads(store)));
    match load_domain_model(&mut store, model, None, &None, inbox_ns) {
        Ok(()) => {},
        Err(e) => return Err(e),
    }
    proof {
        let qs = model_quads(model@, None, inbox_ns, None);
        assert(qs.take(qs.len() as int) =~= qs);
        assert(Set::<QuadView>::empty().union(stored_set(qs.to_set())) =~= stored_set(qs.to_set()));
    }
    dump_store_to_turtle(&store)
}

/// Serializes every charter, plan and action of the model as Turtle (a
/// temporary store, default graph). A parent charter named by a title that
/// no charter carries is identified in `inbox_ns`.
pub fn serialize_acts_to_turtle(model: &DomainModel, inbox_ns: u128) -> (r: Result<String, GraphError>)
    ensures
        turtle_of(model_quads(model@, None, inbox_ns, None), r),
{
    model_to_turtle(model, inbox_ns)
}

/// Serializes only the completed and cancelled actions, with their charters
/// and plans, as Turtle.
pub fn serialize_closed_acts_to_turtle(model: &DomainModel, inbox_ns: u128) -> (r: Result<String, GraphError>)
    ensures
        turtle_of(model_quads(filtered_charters(model@, PhaseFilter::Closed), None, inbox_ns, None), r),
{
    let filtered = filter_model_by_phase(model, PhaseFilter::Closed);
    model_to_turtle(&filtered, inbox_ns)
}

/// Serializes only the open (neither completed nor cancelled) actions, with
/// their charters and plans, as Turtle.
pub fn serialize_open_acts_to_turtle(model: &DomainModel, inbox_ns: u128) -> (r: Result<String, GraphError>)
    ensures
        turtle_of(model_quads(filtered_charters(model@, PhaseFilter::Open), None, inbox_ns, None), r),
{
    let filtered = filter_model_by_phase(model, PhaseFilter::Open);
    model_to_turtle(&filtered, inbox_ns)
}

/// The blank node labels the quads of `s` use.
pub open spec fn blank_labels(s: Set<QuadView>) -> Set<Seq<char>> {
    Set::new(
        |b: Seq<char>|
            exists|q: QuadView|
                #[trigger] s.contains(q) && (q.subject == TermView::Blank(b) || q.object == TermView::Blank(b)),
    )
}

/// Whether `b` is the default-graph quads `a` with their blank nodes
/// relabelled, distinct nodes kept distinct: the same triples up to the labels
/// of blank nodes.
pub open spec fn same_up_to_blank_labels(a: Set<QuadView>, b: Set<QuadView>) -> bool {
    exists|h: spec_fn(Seq<char>) -> Seq<char>|
        (forall|x: Seq<char>, y: Seq<char>|
            blank_labels(a).contains(x) && blank_labels(a).contains(y) && #[trigger] h(x) == #[trigger] h(y) ==> x == y)
            && #[trigger] relabelled(a, h, None) == b
}

/// Two labellings of the same triples give the same triples up to the labels
/// of blank nodes.
proof fn lemma_labellings_agree(t: Set<QuadView>, f: spec_fn(Seq<char>) -> Seq<char>, g: spec_fn(Seq<char>) -> Seq<char>)
    requires
        injective(f),
        injective(g),
    ensures
        same_up_to_blank_labels(relabelled(t, f, None), relabelled(t, g, None)),
{
    let h = |y: Seq<char>|
        if exists|x: Seq<char>| #[trigger] f(x) == y {
            g(choose|x: Seq<char>| #[trigger] f(x) == y)
        } else {
            y
        };
    assert forall|x: Seq<char>| #[trigger] h(f(x)) == g(x) by {
        assert(f(x) == f(x));
        let c = choose|x2: Seq<char>| #[trigger] f(x2) == f(x);
        assert(f(c) == f(x));
    }
    assert forall|t0: TermView| #[trigger] rename_term(rename_term(t0, f), h) == rename_term(t0, g) by {
        if let TermView::Blank(b) = t0 {
            assert(h(f(b)) == g(b));
        }
    }
    let a = relabelled(t, f, None);
    let b = relabelled(t, g, None);
    let ra = relabelled(a, h, None);
    assert forall|q: QuadView| ra.contains(q) implies b.contains(q) by {
        let q1 = choose|q1: QuadView|
            a.contains(q1) && (QuadView {
                subject: rename_term(q1.subject, h),
                predicate: q1.predicate,
                object: rename_term(q1.object, h),
                graph: None,
            }) == q;
        let q0 = choose|q0: QuadView|
            t.contains(q0) && (QuadView {
                subject: rename_term(q0.subject, f),
                predicate: q0.predicate,
                object: rename_term(q0.object, f),
                graph: None,
            }) == q1;
        assert(rename_term(rename_term(q0.subject, f), h) == rename_term(q0.subject, g));
        assert(rename_term(rename_term(q0.object, f), h) == rename_term(q0.object, g));
        assert(t.contains(q0));
    }
    assert forall|q: QuadView| b.contains(q) implies ra.contains(q) by {
        let q0 = choose|q0: QuadView|
            t.contains(q0) && (QuadView {
                subject: rename_term(q0.subject, g),
                predicate: q0.predicate,
                object: rename_term(q0.object, g),
                graph: None,
            }) == q;
        let q1 = QuadView {
            subject: rename_term(q0.subject, f),
            predicate: q0.predicate,
            object: rename_term(q0.object, f),
            graph: None,
        };
        assert(a.contains(q1));
        assert(rename_term(rename_term(q0.subject, f), h) == rename_term(q0.subject, g));
        assert(rename_term(rename_term(q0.object, f), h) == rename_term(q0.object, g));
    }
    assert(ra =~= b);
    assert forall|y: Seq<char>| #[trigger] blank_labels(a).contains(y) implies exists|x: Seq<char>| #[trigger] f(x) == y by {
        let q1 = choose|q: QuadView|
            #[trigger] a.contains(q) && (q.subject == TermView::Blank(y) || q.object == TermView::Blank(y));
        let q0 = choose|q0: QuadView|
            t.contains(q0) && (QuadView {
                subject: rename_term(q0.subject, f),
                predicate: q0.predicate,
                object: rename_term(q0.object, f),
                graph: None,
            }) == q1;
        if q1.subject == TermView::Blank(y) {
            if let TermView::Blank(x) = q0.subject {
                assert(f(x) == y);
            }
        } else {
            if let TermView::Blank(x) = q0.object {
                assert(f(x) == y);
            }
        }
    }
    assert forall|x: Seq<char>, y: Seq<char>|
        blank_labels(a).contains(x) && blank_labels(a).contains(y) && #[trigger] h(x) == #[trigger] h(y) implies x == y by {
        let x0 = choose|x0: Seq<char>| #[trigger] f(x0) == x;
        let y0 = choose|y0: Seq<char>| #[trigger] f(y0) == y;
        assert(h(f(x0)) == g(x0));
        assert(h(f(y0)) == g(y0));
    }
    assert(relabelled(a, h, None) == b);
}

/// The quad `q0` relabelled by `f` into the default graph.
spec fn relabel_one(q0: QuadView, f: spec_fn(Seq<char>) -> Seq<char>) -> QuadView {
    QuadView { subject: rename_term(q0.subject, f), predicate: q0.predicate, object: rename_term(q0.object, f), graph: None }
}

/// Where relabelling the triples by `f` gives quads the store keeps as they
/// are, relabelling them by any `g` does too.
proof fn lemma_stored_relabelling(t: Set<QuadView>, f: spec_fn(Seq<char>) -> Seq<char>, g: spec_fn(Seq<char>) -> Seq<char>)
    requires
        in_stored_form(relabelled(t, f, None)),
    ensures
        stored_set(relabelled(t, g, None)) == relabelled(t, g, None),
{
    assert forall|q0: QuadView| t.contains(q0) implies stored_quad(relabel_one(q0, g)) == relabel_one(q0, g) by {
        assert(relabelled(t, f, None).contains(relabel_one(q0, f)));
        assert(stored_quad(relabel_one(q0, f)) == relabel_one(q0, f));
        assert(stored_term(rename_term(q0.object, f)) == rename_term(q0.object, f));
        match q0.object {
            TermView::Literal(v, d, None) => {
                assert(stored_term(q0.object) == q0.object);
            },
            _ => {},
        }
    }
    let a = stored_set(relabelled(t, g, None));
    let b = relabelled(t, g, None);
    assert forall|q: QuadView| a.contains(q) implies b.contains(q) by {
        let x = choose|x: QuadView| b.contains(x) && stored_quad(x) == q;
        let q0 = choose|q0: QuadView| t.contains(q0) && relabel_one(q0, g) == x;
        assert(stored_quad(relabel_one(q0, g)) == relabel_one(q0, g));
    }
    assert forall|q: QuadView| b.contains(q) implies a.contains(q) by {
        let q0 = choose|q0: QuadView| t.contains(q0) && relabel_one(q0, g) == q;
        assert(stored_quad(relabel_one(q0, g)) == relabel_one(q0, g));
    }
    assert(a =~= b);
}

/// Dumping a store's default graph as Turtle and loading the text into an
/// empty store gives back the same triples up to the labels of blank nodes:
/// the reloaded store holds only default-graph quads, and they are the
/// dumped store's default-graph quads (held, like every stored quad, in the
/// form the storage gives back) with their blank nodes relabelled, distinct
/// nodes kept distinct.
pub proof fn lemma_turtle_round_trip(dumped: Set<QuadView>, text: Seq<char>, reloaded: Set<QuadView>)
    requires
        turtle_denotes(text, default_graph_part(dumped)),
        in_stored_form(default_graph_part(dumped)),
        turtle_loaded(Set::empty(), reloaded, text, None),
    ensures
        default_graph_part(reloaded) == reloaded,
        same_up_to_blank_labels(default_graph_part(dumped), reloaded),
{
    let t = turtle_triples(text);
    let f = choose|f: spec_fn(Seq<char>) -> Seq<char>|
        injective(f) && default_graph_part(dumped) == #[trigger] relabelled(t, f, None);
    let g = choose|g: spec_fn(Seq<char>) -> Seq<char>| #[trigger] loaded_as(Set::empty(), reloaded, text, g, None);
    lemma_stored_relabelling(t, f, g);
    assert(Set::<QuadView>::empty().union(stored_set(relabelled(t, g, None))) =~= relabelled(t, g, None));
    assert(reloaded == relabelled(t, g, None));
    assert(default_graph_part(reloaded) =~= reloaded);
    lemma_labellings_agree(t, f, g);
}

/// Keeping actions distributes over concatenation.
pub proof fn lemma_kept_add(a: Seq<ActionView>, b: Seq<ActionView>, f: PhaseFilter)
    ensures
        kept_actions(a + b, f) == kept_actions(a, f) + kept_actions(b, f),
    decreases b.len(),
{
    if b.len() == 0 {
        assert(a + b =~= a);
        assert(kept_actions(a, f) + kept_actions(b, f) =~= kept_actions(a, f));
    } else {
        lemma_kept_add(a, b.drop_last(), f);
        assert((a + b).drop_last() =~= a + b.drop_last());
        assert((a + b).last() == b.last());
        assert(kept_actions(a + b, f) =~= kept_actions(a, f) + kept_actions(b, f));
    }
}

/// The actions of a filtered model are exactly the model's actions the
/// filter keeps, in the same order.
pub proof fn lemma_filtered_actions(cs: Seq<CharterView>, f: PhaseFilter)
    ensures
        all_actions(filtered_charters(cs, f)) == kept_actions(all_actions(cs), f),
    decreases cs.len(),
{
    if cs.len() > 0 {
        lemma_filtered_actions(cs.drop_last(), f);
        lemma_kept_add(all_actions(cs.drop_last()), cs.last().actions, f);
        let rest = filtered_charters(cs.drop_last(), f);
        let kept = kept_actions(cs.last().actions, f);
        if kept.len() > 0 {
            let c2 = CharterView { actions: kept, ..cs.last() };
            assert(rest.push(c2).drop_last() =~= rest);
            assert(all_actions(rest.push(c2)) == all_actions(rest) + kept);
        } else {
            assert(kept =~= Seq::<ActionView>::empty());
            assert(all_actions(rest) + kept =~= all_actions(rest));
        }
    }
}

/// The closed and the open filter split the actions between them: every
/// action is kept by exactly one of the two.
pub proof fn lemma_phase_filters_partition(acts: Seq<ActionView>)
    ensures
        kept_actions(acts, PhaseFilter::Closed).len() + kept_actions(acts, PhaseFilter::Open).len() == acts.len(),
    decreases acts.len(),
{
    if acts.len() > 0 {
        lemma_phase_filters_partition(acts.drop_last());
    }
}

/// Together the closed and the open filter keep each action exactly once.
pub proof fn lemma_phase_filters_split(acts: Seq<ActionView>)
    ensures
        kept_actions(acts, PhaseFilter::Closed).to_multiset().add(kept_actions(acts, PhaseFilter::Open).to_multiset())
            == acts.to_multiset(),
    decreases acts.len(),
{
    let c = kept_actions(acts, PhaseFilter::Closed);
    let o = kept_actions(acts, PhaseFilter::Open);
    if acts.len() == 0 {
        vstd::seq_lib::to_multiset_len(c);
        vstd::seq_lib::to_multiset_len(o);
        vstd::seq_lib::to_multiset_len(acts);
        assert(c.to_multiset() =~= vstd::multiset::Multiset::empty());
        assert(o.to_multiset() =~= vstd::multiset::Multiset::empty());
        assert(acts.to_multiset() =~= vstd::multiset::Multiset::empty());
        assert(c.to_multiset().add(o.to_multiset()) =~= acts.to_multiset());
    } else {
        let rest = acts.drop_last();
        let a = acts.last();
        lemma_phase_filters_split(rest);
        assert(rest.push(a) =~= acts);
        vstd::seq_lib::to_multiset_build(rest, a);
        let rc = kept_actions(rest, PhaseFilter::Closed);
        let ro = kept_actions(rest, PhaseFilter::Open);
        if keeps(PhaseFilter::Closed, a.state) {
            vstd::seq_lib::to_multiset_build(rc, a);
            assert(c == rc.push(a) && o == ro);
            assert(c.to_multiset().add(o.to_multiset()) =~= acts.to_multiset());
        } else {
            vstd::seq_lib::to_multiset_build(ro, a);
            assert(o == ro.push(a) && c == rc);
            assert(c.to_multiset().add(o.to_multiset()) =~= acts.to_multiset());
        }
    }
}

/// The closed and the open Turtle exports are built from filtered models that
/// together hold each action of the model exactly once.
pub proof fn lemma_closed_and_open_exports_split_the_actions(cs: Seq<CharterView>)
    ensures
        all_actions(filtered_charters(cs, PhaseFilter::Closed)).to_multiset().add(
            all_actions(filtered_charters(cs, PhaseFilter::Open)).to_multiset(),
        ) == all_actions(cs).to_multiset(),
{
    lemma_filtered_actions(cs, PhaseFilter::Closed);
    lemma_filtered_actions(cs, PhaseFilter::Open);
    lemma_phase_filters_split(all_actions(cs));
}

/// The nodes the quads `s` type as `actions:Action`.
pub open spec fn typed_action_nodes(s: Set<QuadView>) -> Set<TermView> {
    Set::new(
        |n: TermView|
            exists|q: QuadView|
                #[trigger] s.contains(q) && q.subject == n && q.predicate == crate::vocab::RDF_NS@ + "type"@ && q.object
                    == action_class_term(),
    )
}

/// The nodes of the actions `acts`.
pub open spec fn action_nodes(acts: Seq<ActionView>) -> Set<TermView> {
    Set::new(|n: TermView| exists|k: int| 0 <= k < acts.len() && n == uuid_node(#[trigger] acts[k].id))
}

/// The Turtle export of a phase types as `actions:Action` exactly the
/// model's actions the filter keeps: with the closed filter the completed and
/// cancelled ones, with the open filter the others. (Its text denotes these
/// quads up to the labels of blank nodes, and action nodes are IRIs.)
pub proof fn lemma_phase_export_types_kept_actions(cs: Seq<CharterView>, ns: u128, f: PhaseFilter)
    ensures
        typed_action_nodes(default_graph_part(stored_set(model_quads(filtered_charters(cs, f), None, ns, None).to_set())))
            == action_nodes(kept_actions(all_actions(cs), f)),
{
    let m = filtered_charters(cs, f);
    let qs = model_quads(m, None, ns, None);
    let d = default_graph_part(stored_set(qs.to_set()));
    let acts = all_actions(m);
    lemma_filtered_actions(cs, f);
    lemma_model_class_quads_type_actions(m, None, ns, None);
    lemma_model_types_every_action(m, None, ns, None);
    let ty = crate::vocab::RDF_NS@ + "type"@;
    assert forall|n: TermView| typed_action_nodes(d).contains(n) implies action_nodes(acts).contains(n) by {
        let q = choose|q: QuadView| #[trigger] d.contains(q) && q.subject == n && q.predicate == ty && q.object == action_class_term();
        let x = choose|x: QuadView| qs.to_set().contains(x) && stored_quad(x) == q;
        let i = choose|i: int| 0 <= i < qs.len() && qs[i] == x;
        if let TermView::Literal(_, _, None) = x.object {
            assert(stored_term(x.object) is Literal);
        }
        assert(x.object == action_class_term());
        let k = choose|k: int| 0 <= k < acts.len() && qs[i] == action_type_quad(#[trigger] acts[k], None);
        assert(n == uuid_node(acts[k].id));
    }
    assert forall|n: TermView| action_nodes(acts).contains(n) implies typed_action_nodes(d).contains(n) by {
        let k = choose|k: int| 0 <= k < acts.len() && n == uuid_node(#[trigger] acts[k].id);
        let x = qv(uuid_node(acts[k].id), ty, TermView::Iri(crate::insert::act("Action"@)), None);
        assert(qs.contains(x));
        assert(qs.to_set().contains(x));
        assert(stored_quad(x) == x);
        assert(stored_set(qs.to_set()).contains(x));
        assert(d.contains(x));
    }
    assert(typed_action_nodes(d) =~= action_nodes(acts));
}

/// Every action the filter keeps satisfies it.
proof fn lemma_kept_satisfy(acts: Seq<ActionView>, f: PhaseFilter)
    ensures
        forall|j: int| 0 <= j < kept_actions(acts, f).len() ==> keeps(f, (#[trigger] kept_actions(acts, f)[j]).state),
    decreases acts.len(),
{
    if acts.len() > 0 {
        lemma_kept_satisfy(acts.drop_last(), f);
    }
}

/// A phase export leaves out the charters that keep no action: the filtered
/// model holds only charters with at least one action, all of them kept by
/// the filter, and each charter that keeps an action is there with exactly
/// its kept actions.
pub proof fn lemma_filtered_charters_keep_actions(cs: Seq<CharterView>, f: PhaseFilter)
    ensures
        forall|i: int|
            0 <= i < filtered_charters(cs, f).len() ==> (#[trigger] filtered_charters(cs, f)[i]).actions.len() > 0
                && forall|j: int|
                0 <= j < filtered_charters(cs, f)[i].actions.len() ==> keeps(
                    f,
                    (#[trigger] filtered_charters(cs, f)[i].actions[j]).state,
                ),
        forall|i: int|
            0 <= i < cs.len() && kept_actions((#[trigger] cs[i]).actions, f).len() > 0 ==> filtered_charters(
                cs,
                f,
            ).contains(CharterView { actions: kept_actions(cs[i].actions, f), ..cs[i] }),
    decreases cs.len(),
{
    if cs.len() > 0 {
        let rest = cs.drop_last();
        lemma_filtered_charters_keep_actions(rest, f);
        let c = cs.last();
        let kept = kept_actions(c.actions, f);
        lemma_kept_satisfy(c.actions, f);
        let fr = filtered_charters(rest, f);
        let fc = filtered_charters(cs, f);
        assert forall|i: int| 0 <= i < cs.len() && kept_actions((#[trigger] cs[i]).actions, f).len() > 0 implies fc.contains(
            CharterView { actions: kept_actions(cs[i].actions, f), ..cs[i] },
        ) by {
            if i < rest.len() {
                assert(cs[i] == rest[i]);
                let w = CharterView { actions: kept_actions(cs[i].actions, f), ..cs[i] };
                assert(fr.contains(w));
                let j = choose|j: int| 0 <= j < fr.len() && fr[j] == w;
                assert(fc[j] == w);
            } else {
                assert(cs[i] == c);
                assert(fc[fc.len() - 1] == CharterView { actions: kept, ..c });
            }
        }
    }
}

/// The closed filter keeps an action exactly when it is completed or
/// cancelled; the open filter keeps exactly the others (not started, in
/// progress, blocked).
pub proof fn lemma_phase_filters_by_state(s: crate::domain::ActionState)
    ensures
        keeps(PhaseFilter::Closed, s) <==> (s == crate::domain::ActionState::Completed || s
            == crate::domain::ActionState::Cancelled),
        keeps(PhaseFilter::Open, s) <==> (s == crate::domain::ActionState::NotStarted || s
            == crate::domain::ActionState::InProgress || s == crate::domain::ActionState::BlockedOrAwaiting),
{
}

proof fn lemma_kept_is_filter(acts: Seq<ActionView>, f: PhaseFilter)
    ensures
        kept_actions(acts, f) == acts.filter(|a: ActionView| keeps(f, a.state)),
    decreases acts.len(),
{
    reveal(Seq::filter);
    if acts.len() > 0 {
        lemma_kept_is_filter(acts.drop_last(), f);
    }
}

/// Filtering a model by phase keeps, in order, exactly the model's completed
/// and cancelled actions (closed), or exactly its other actions (open).
pub proof fn lemma_filtered_model_actions(cs: Seq<CharterView>)
    ensures
        all_actions(filtered_charters(cs, PhaseFilter::Closed)) == all_actions(cs).filter(
            |a: ActionView|
                a.state == crate::domain::ActionState::Completed || a.state == crate::domain::ActionState::Cancelled,
        ),
        all_actions(filtered_charters(cs, PhaseFilter::Open)) == all_actions(cs).filter(
            |a: ActionView|
                !(a.state == crate::domain::ActionState::Completed || a.state == crate::domain::ActionState::Cancelled),
        ),
{
    lemma_filtered_actions(cs, PhaseFilter::Closed);
    lemma_filtered_actions(cs, PhaseFilter::Open);
    lemma_kept_is_filter(all_actions(cs), PhaseFilter::Closed);
    lemma_kept_is_filter(all_actions(cs), PhaseFilter::Open);
    assert((|a: ActionView| keeps(PhaseFilter::Closed, a.state)) =~= (|a: ActionView|
        a.state == crate::domain::ActionState::Completed || a.state == crate::domain::ActionState::Cancelled));
    assert((|a: ActionView| keeps(PhaseFilter::Open, a.state)) =~= (|a: ActionView|
        !(a.state == crate::domain::ActionState::Completed || a.state == crate::domain::ActionState::Cancelled)));
}

} // verus!
