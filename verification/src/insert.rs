//! Domain model to RDF quads (v4 vocabulary), and loading quads into a store.

use crate::domain::{
    Action, ActionView, Charter, CharterView, DomainModel, PlanView, Plan, WorkspaceConfig,
    all_actions, charter_state_name, charter_state_term, depends_on, hierarchies_view, phase_name,
    phase_term, strs,
};
use crate::error::GraphError;
use crate::rdf::{
    QuadView, RdfTerm, TermView, Quad, opt_view, simple_literal_view, xsd_literal_view,
};
use crate::text::{
    decimal, decimal_string, lowercase, replace_char, replace_each, strip_leading, to_lowercase,
    trim, trim_start_char, trim_ws, has_prefix, strip_prefix_or_self, str_eq,
};
use crate::vocab::{
    ACTIONS_NS, BFO_HAS_PART, BFO_NS, BFO_PART_OF, CCO_IS_SUCCESSOR_OF, CCO_NS, CCO_PLAN,
    CCO_PRESCRIBED_BY, CCO_PRESCRIBES, CCO_STATUS_PROP, RDFS_NS, RDF_NS, XSD_NS, uuid_iri,
    uuid_iri_string, uuid_string, uuid_text, uuid_new_v5, uuid_v5,
};
use oxigraph::store::Store;
use vstd::prelude::*;

verus! {

/// The views of a sequence of quads.
pub open spec fn quads_view(v: Seq<Quad>) -> Seq<QuadView> {
    v.map_values(|q: Quad| q@)
}

/// The quad `s p o` in graph `g`.
pub open spec fn qv(s: TermView, p: Seq<char>, o: TermView, g: Option<Seq<char>>) -> QuadView {
    QuadView { subject: s, predicate: p, object: o, graph: g }
}

/// A term of the actions vocabulary.
pub open spec fn act(name: Seq<char>) -> Seq<char> {
    ACTIONS_NS@ + name
}

/// The IRI term of the UUID `id`.
pub open spec fn uuid_node(id: u128) -> TermView {
    TermView::Iri(uuid_iri(id))
}

/// One quad with a simple literal object when `o` is present, none otherwise.
pub open spec fn opt_literal(s: TermView, p: Seq<char>, o: Option<Seq<char>>, g: Option<Seq<char>>) -> Seq<QuadView> {
    match o {
        Some(v) => seq![qv(s, p, simple_literal_view(v), g)],
        None => Seq::empty(),
    }
}

/// One quad with an `xsd:dateTime` object when `t` is present, none otherwise.
pub open spec fn opt_time(s: TermView, p: Seq<char>, t: Option<crate::domain::Timestamp>, g: Option<Seq<char>>) -> Seq<QuadView> {
    match t {
        Some(ts) => seq![qv(s, p, xsd_literal_view(ts.text(), "dateTime"@), g)],
        None => Seq::empty(),
    }
}

/// One quad with an `xsd:integer` object when `n` is present, none otherwise.
pub open spec fn opt_integer(s: TermView, p: Seq<char>, n: Option<u64>, g: Option<Seq<char>>) -> Seq<QuadView> {
    match n {
        Some(v) => seq![qv(s, p, xsd_literal_view(decimal(v as nat), "integer"@), g)],
        None => Seq::empty(),
    }
}

/// One quad with a UUID IRI object when `id` is present, none otherwise.
pub open spec fn opt_uuid(s: TermView, p: Seq<char>, id: Option<u128>, g: Option<Seq<char>>) -> Seq<QuadView> {
    match id {
        Some(v) => seq![qv(s, p, uuid_node(v), g)],
        None => Seq::empty(),
    }
}

/// The normalized identifier of a context tag: without leading `+`,
/// trimmed, lower-cased, spaces replaced by `-`.
pub open spec fn context_clean(tag: Seq<char>) -> Seq<char> {
    replace_char(lowercase(trim_ws(strip_leading(tag, '+'))), ' ', '-')
}

/// The IRI of the context node of `tag`.
pub open spec fn context_node(tag: Seq<char>) -> TermView {
    TermView::Iri("urn:context:"@ + context_clean(tag))
}

/// The quads declaring the context node of `tag`: its type and identifier.
pub open spec fn context_node_quads(tag: Seq<char>, g: Option<Seq<char>>) -> Seq<QuadView> {
    seq![
        qv(context_node(tag), RDF_NS@ + "type"@, TermView::Iri(act("Context"@)), g),
        qv(context_node(tag), act("hasContextIdentifier"@), xsd_literal_view(context_clean(tag), "string"@), g),
    ]
}

/// For each context tag: its node quads, then the `requiresContext` link.
pub open spec fn requires_context_quads(s: TermView, tags: Seq<Seq<char>>, g: Option<Seq<char>>) -> Seq<QuadView>
    decreases tags.len(),
{
    if tags.len() == 0 {
        Seq::empty()
    } else {
        requires_context_quads(s, tags.drop_last(), g) + context_node_quads(tags.last(), g) + seq![
            qv(s, act("requiresContext"@), context_node(tags.last()), g),
        ]
    }
}

/// One `cco:is_successor_of` link per predecessor.
pub open spec fn successor_quads(s: TermView, ids: Seq<u128>, g: Option<Seq<char>>) -> Seq<QuadView>
    decreases ids.len(),
{
    if ids.len() == 0 {
        Seq::empty()
    } else {
        successor_quads(s, ids.drop_last(), g) + seq![
            qv(s, CCO_NS@ + CCO_IS_SUCCESSOR_OF@, uuid_node(ids.last()), g),
        ]
    }
}

/// The quads describing an action, in insertion order.
pub open spec fn action_quads(a: ActionView, g: Option<Seq<char>>) -> Seq<QuadView> {
    let s = uuid_node(a.id);
    seq![
        qv(s, RDF_NS@ + "type"@, TermView::Iri(act("Action"@)), g),
        qv(s, act("hasUUID"@), simple_literal_view(uuid_text(a.id)), g),
        qv(s, RDFS_NS@ + "label"@, simple_literal_view(a.name), g),
    ] + opt_literal(s, RDFS_NS@ + "comment"@, a.description, g)
        + opt_integer(s, act("hasPriority"@), a.priority, g)
        + requires_context_quads(s, match a.contexts { Some(c) => c, None => Seq::empty() }, g)
        + opt_uuid(s, BFO_NS@ + BFO_PART_OF@, a.parent_id, g)
        + successor_quads(s, depends_on(a), g)
        + opt_literal(s, act("hasAlias"@), a.alias, g)
        + (if a.is_sequential == Some(true) {
            seq![qv(s, act("hasSequentialChildren"@), xsd_literal_view("true"@, "boolean"@), g)]
        } else {
            Seq::empty()
        })
        + opt_uuid(s, CCO_NS@ + CCO_PRESCRIBED_BY@, a.plan_id, g)
        + opt_literal(s, act("hasExternalScheduleId"@), a.external_schedule_id, g)
        + opt_literal(s, act("hasExternalOccurrenceKey"@), a.external_occurrence_key, g)
        + seq![qv(s, CCO_NS@ + CCO_STATUS_PROP@, TermView::Iri(act(phase_name(a.state))), g)]
        + opt_time(s, act("hasScheduledDateTime"@), a.scheduled_at, g)
        + opt_time(s, act("hasDueDateTime"@), a.due_date, g)
        + opt_integer(s, act("hasDurationMinutes"@), a.duration, g)
        + opt_time(s, act("hasCompletedDateTime"@), a.completed_at, g)
        + opt_time(s, act("hasCreatedDateTime"@), a.created_at, g)
}

/// Mapping distributes over concatenation.
pub proof fn lemma_quads_view_add(a: Seq<Quad>, b: Seq<Quad>)
    ensures
        quads_view(a + b) == quads_view(a) + quads_view(b),
{
    assert(quads_view(a + b) =~= quads_view(a) + quads_view(b));
}

/// Mapping distributes over pushing a quad.
pub proof fn lemma_quads_view_push(a: Seq<Quad>, q: Quad)
    ensures
        quads_view(a.push(q)) == quads_view(a).push(q@),
{
    assert(quads_view(a.push(q)) =~= quads_view(a).push(q@));
}

impl RdfTerm {
    /// A copy of this term.
    pub fn copy(&self) -> (r: RdfTerm)
        ensures
            r@ == self@,
    {
        match self {
            RdfTerm::Iri(i) => RdfTerm::Iri(i.clone()),
            RdfTerm::Blank(b) => RdfTerm::Blank(b.clone()),
            RdfTerm::Literal(v, d, l) => RdfTerm::Literal(v.clone(), d.clone(), crate::domain::clone_opt_string(l)),
        }
    }
}

fn copy_graph(g: &Option<String>) -> (r: Option<String>)
    ensures
        opt_view(r) == opt_view(*g),
{
    match g {
        Some(x) => Some(x.clone()),
        None => None,
    }
}

/// Appends the quad `s p o` in graph `g`.
pub(crate) fn push_quad(out: &mut Vec<Quad>, s: &RdfTerm, p: String, o: RdfTerm, g: &Option<String>)
    ensures
        quads_view(final(out)@) == quads_view(old(out)@).push(qv(s@, p@, o@, opt_view(*g))),
{
    let ghost before = out@;
    let q = Quad { subject: s.copy(), predicate: p, object: o, graph: copy_graph(g) };
    out.push(q);
    proof {
        lemma_quads_view_push(before, q);
    }
}

/// Appends `more` to `out`.
fn append_quads(out: &mut Vec<Quad>, more: Vec<Quad>)
    ensures
        quads_view(final(out)@) == quads_view(old(out)@) + quads_view(more@),
{
    let ghost a = out@;
    let ghost b = more@;
    let mut m = more;
    out.append(&mut m);
    proof {
        lemma_quads_view_add(a, b);
    }
}

fn uuid_term(id: u128) -> (t: RdfTerm)
    ensures
        t@ == uuid_node(id),
{
    RdfTerm::Iri(uuid_iri_string(id))
}

fn actions_iri(name: &str) -> (r: String)
    ensures
        r@ == act(name@),
{
    crate::vocab::actions_pred(name)
}

fn literal(v: String) -> (t: RdfTerm)
    ensures
        t@ == simple_literal_view(v@),
{
    crate::rdf::simple_literal(v)
}

fn push_opt_literal(out: &mut Vec<Quad>, s: &RdfTerm, p: String, o: &Option<String>, g: &Option<String>)
    ensures
        quads_view(final(out)@) == quads_view(old(out)@) + opt_literal(s@, p@, opt_view(*o), opt_view(*g)),
{
    match o {
        Some(v) => {
            push_quad(out, s, p, literal(v.clone()), g);
            assert(quads_view(out@) =~= quads_view(old(out)@) + opt_literal(s@, p@, opt_view(*o), opt_view(*g)));
        },
        None => {
            assert(quads_view(out@) =~= quads_view(old(out)@) + opt_literal(s@, p@, opt_view(*o), opt_view(*g)));
        },
    }
}

fn push_opt_time(out: &mut Vec<Quad>, s: &RdfTerm, p: String, t: &Option<crate::domain::Timestamp>, g: &Option<String>)
    ensures
        quads_view(final(out)@) == quads_view(old(out)@) + opt_time(s@, p@, *t, opt_view(*g)),
{
    match t {
        Some(ts) => {
            let text = ts.to_rfc3339();
            push_quad(out, s, p, crate::rdf::xsd_literal(text, "dateTime"), g);
            assert(quads_view(out@) =~= quads_view(old(out)@) + opt_time(s@, p@, *t, opt_view(*g)));
        },
        None => {
            assert(quads_view(out@) =~= quads_view(old(out)@) + opt_time(s@, p@, *t, opt_view(*g)));
        },
    }
}

fn push_opt_integer(out: &mut Vec<Quad>, s: &RdfTerm, p: String, n: Option<u64>, g: &Option<String>)
    ensures
        quads_view(final(out)@) == quads_view(old(out)@) + opt_integer(s@, p@, n, opt_view(*g)),
{
    match n {
        Some(v) => {
            let text = decimal_string(v);
            push_quad(out, s, p, crate::rdf::xsd_literal(text, "integer"), g);
            assert(quads_view(out@) =~= quads_view(old(out)@) + opt_integer(s@, p@, n, opt_view(*g)));
        },
        None => {
            assert(quads_view(out@) =~= quads_view(old(out)@) + opt_integer(s@, p@, n, opt_view(*g)));
        },
    }
}

fn push_opt_uuid(out: &mut Vec<Quad>, s: &RdfTerm, p: String, id: Option<u128>, g: &Option<String>)
    ensures
        quads_view(final(out)@) == quads_view(old(out)@) + opt_uuid(s@, p@, id, opt_view(*g)),
{
    match id {
        Some(v) => {
            push_quad(out, s, p, uuid_term(v), g);
            assert(quads_view(out@) =~= quads_view(old(out)@) + opt_uuid(s@, p@, id, opt_view(*g)));
        },
        None => {
            assert(quads_view(out@) =~= quads_view(old(out)@) + opt_uuid(s@, p@, id, opt_view(*g)));
        },
    }
}

/// The normalized identifier of a context tag.
pub fn context_identifier(tag: &str) -> (r: String)
    ensures
        r@ == context_clean(tag@),
{
    let a = trim_start_char(tag, '+');
    let b = trim(a.as_str());
    let c = to_lowercase(b.as_str());
    replace_each(c.as_str(), ' ', '-')
}

/// Appends the quads declaring the context node of `tag` and returns its IRI.
fn push_context_node(out: &mut Vec<Quad>, tag: &str, g: &Option<String>) -> (node: RdfTerm)
    ensures
        quads_view(final(out)@) == quads_view(old(out)@) + context_node_quads(tag@, opt_view(*g)),
        node@ == context_node(tag@),
{
    let clean = context_identifier(tag);
    let node = RdfTerm::Iri(crate::vocab::ns("urn:context:", clean.as_str()));
    push_quad(out, &node, crate::vocab::rdf_type(), RdfTerm::Iri(actions_iri("Context")), g);
    push_quad(out, &node, actions_iri("hasContextIdentifier"), crate::rdf::xsd_literal(clean, "string"), g);
    assert(quads_view(out@) =~= quads_view(old(out)@) + context_node_quads(tag@, opt_view(*g)));
    node
}

fn push_requires_context(out: &mut Vec<Quad>, s: &RdfTerm, tags: &Vec<String>, g: &Option<String>)
    ensures
        quads_view(final(out)@) == quads_view(old(out)@) + requires_context_quads(s@, strs(tags@), opt_view(*g)),
{
    let ghost tv = strs(tags@);
    let ghost start = quads_view(out@);
    let mut i: usize = 0;
    while i < tags.len()
        invariant
            tv == strs(tags@),
            i <= tags@.len(),
            quads_view(out@) == start + requires_context_quads(s@, tv.subrange(0, i as int), opt_view(*g)),
        decreases tags@.len() - i,
    {
        assert(tv.subrange(0, i + 1).drop_last() == tv.subrange(0, i as int));
        assert(tv.subrange(0, i + 1).last() == tags@[i as int]@);
        let ghost mid = quads_view(out@);
        let node = push_context_node(out, tags[i].as_str(), g);
        push_quad(out, s, actions_iri("requiresContext"), node, g);
        assert(quads_view(out@) =~= start + requires_context_quads(s@, tv.subrange(0, i + 1), opt_view(*g)));
        i = i + 1;
    }
    assert(tv.subrange(0, tags@.len() as int) == tv);
}

fn push_successors(out: &mut Vec<Quad>, s: &RdfTerm, ids: &Vec<u128>, g: &Option<String>)
    ensures
        quads_view(final(out)@) == quads_view(old(out)@) + successor_quads(s@, ids@, opt_view(*g)),
{
    let ghost start = quads_view(out@);
    let mut i: usize = 0;
    while i < ids.len()
        invariant
            i <= ids@.len(),
            quads_view(out@) == start + successor_quads(s@, ids@.subrange(0, i as int), opt_view(*g)),
        decreases ids@.len() - i,
    {
        assert(ids@.subrange(0, i + 1).drop_last() == ids@.subrange(0, i as int));
        push_quad(out, s, crate::vocab::cco_node(CCO_IS_SUCCESSOR_OF), uuid_term(ids[i]), g);
        assert(quads_view(out@) =~= start + successor_quads(s@, ids@.subrange(0, i + 1), opt_view(*g)));
        i = i + 1;
    }
    assert(ids@.subrange(0, ids@.len() as int) == ids@);
}

/// The quads describing an action.
pub fn action_quads_vec(a: &Action, g: &Option<String>) -> (v: Vec<Quad>)
    ensures
        quads_view(v@) == action_quads(a@, opt_view(*g)),
{
    let s = uuid_term(a.id);
    let mut out: Vec<Quad> = Vec::new();
    push_quad(&mut out, &s, crate::vocab::rdf_type(), RdfTerm::Iri(actions_iri("Action")), g);
    push_quad(&mut out, &s, actions_iri("hasUUID"), literal(uuid_string(a.id)), g);
    push_quad(&mut out, &s, crate::vocab::rdfs_pred("label"), literal(a.name.clone()), g);
    assert(quads_view(out@) =~= seq![
        qv(s@, RDF_NS@ + "type"@, TermView::Iri(act("Action"@)), opt_view(*g)),
        qv(s@, act("hasUUID"@), simple_literal_view(uuid_text(a.id)), opt_view(*g)),
        qv(s@, RDFS_NS@ + "label"@, simple_literal_view(a@.name), opt_view(*g)),
    ]);
    push_opt_literal(&mut out, &s, crate::vocab::rdfs_pred("comment"), &a.description, g);
    push_opt_integer(&mut out, &s, actions_iri("hasPriority"), a.priority, g);
    match &a.contexts {
        Some(c) => push_requires_context(&mut out, &s, c, g),
        None => {
            let empty: Vec<String> = Vec::new();
            assert(strs(empty@) =~= Seq::<Seq<char>>::empty());
            push_requires_context(&mut out, &s, &empty, g);
        },
    }
    push_opt_uuid(&mut out, &s, crate::vocab::bfo_pred(BFO_PART_OF), a.parent_id, g);
    let deps = a.depends_on();
    push_successors(&mut out, &s, &deps, g);
    push_opt_literal(&mut out, &s, actions_iri("hasAlias"), &a.alias, g);
    let ghost before_seq = quads_view(out@);
    if a.is_sequential == Some(true) {
        push_quad(&mut out, &s, actions_iri("hasSequentialChildren"), crate::rdf::xsd_literal(String::from_str("true"), "boolean"), g);
    }
    assert(quads_view(out@) =~= before_seq + (if a@.is_sequential == Some(true) {
        seq![qv(s@, act("hasSequentialChildren"@), xsd_literal_view("true"@, "boolean"@), opt_view(*g))]
    } else {
        Seq::empty()
    }));
    push_opt_uuid(&mut out, &s, crate::vocab::cco_node(CCO_PRESCRIBED_BY), a.plan_id, g);
    push_opt_literal(&mut out, &s, actions_iri("hasExternalScheduleId"), &a.external_schedule_id, g);
    push_opt_literal(&mut out, &s, actions_iri("hasExternalOccurrenceKey"), &a.external_occurrence_key, g);
    let ghost before_status = quads_view(out@);
    push_quad(&mut out, &s, crate::vocab::cco_node(CCO_STATUS_PROP), RdfTerm::Iri(actions_iri(phase_term(a.state))), g);
    assert(quads_view(out@) =~= before_status + seq![qv(s@, CCO_NS@ + CCO_STATUS_PROP@, TermView::Iri(act(phase_name(a.state))), opt_view(*g))]);
    push_opt_time(&mut out, &s, actions_iri("hasScheduledDateTime"), &a.scheduled_at, g);
    push_opt_time(&mut out, &s, actions_iri("hasDueDateTime"), &a.due_date, g);
    push_opt_integer(&mut out, &s, actions_iri("hasDurationMinutes"), a.duration, g);
    push_opt_time(&mut out, &s, actions_iri("hasCompletedDateTime"), &a.completed_at, g);
    push_opt_time(&mut out, &s, actions_iri("hasCreatedDateTime"), &a.created_at, g);
    assert(quads_view(out@) == action_quads(a@, opt_view(*g)));
    out
}

/// The last charter whose lower-cased title is `key`.
pub open spec fn charter_by_title(cs: Seq<CharterView>, key: Seq<char>) -> Option<u128>
    decreases cs.len(),
{
    if cs.len() == 0 {
        None
    } else if lowercase(cs.last().title) == key {
        Some(cs.last().id)
    } else {
        charter_by_title(cs.drop_last(), key)
    }
}

/// The UUID of the parent charter referred to by `parent`: the charter with
/// that title (case-insensitively, the last such), or else the name-based
/// UUID of `parent` in the inbox charter namespace `ns`.
pub open spec fn parent_charter_id(cs: Seq<CharterView>, parent: Seq<char>, ns: u128) -> u128 {
    match charter_by_title(cs, lowercase(parent)) {
        Some(id) => id,
        None => uuid_v5(ns, parent),
    }
}

/// A recurrence rule's text without its `R:` prefix.
pub open spec fn recurrence_rule(r: Seq<char>) -> Seq<char> {
    if has_prefix(r, "R:"@) {
        r.subrange("R:"@.len() as int, r.len() as int)
    } else {
        r
    }
}

/// `recurrence_rule` of a present rule.
pub open spec fn opt_rule(o: Option<Seq<char>>) -> Option<Seq<char>> {
    match o {
        Some(r) => Some(recurrence_rule(r)),
        None => None,
    }
}

/// One `cco:prescribes` link from plan `p` (UUID `plan_id`) to each of `acts`
/// generated by it.
pub open spec fn prescribes_quads(p: TermView, plan_id: u128, acts: Seq<ActionView>, g: Option<Seq<char>>) -> Seq<QuadView>
    decreases acts.len(),
{
    if acts.len() == 0 {
        Seq::empty()
    } else {
        prescribes_quads(p, plan_id, acts.drop_last(), g) + (if acts.last().plan_id == Some(plan_id) {
            seq![qv(p, CCO_NS@ + CCO_PRESCRIBES@, uuid_node(acts.last().id), g)]
        } else {
            Seq::empty()
        })
    }
}

/// The quads describing a plan of a charter whose actions are `acts`.
pub open spec fn plan_quads(pl: PlanView, acts: Seq<ActionView>, g: Option<Seq<char>>) -> Seq<QuadView> {
    let s = uuid_node(pl.id);
    seq![
        qv(s, RDF_NS@ + "type"@, TermView::Iri(CCO_NS@ + CCO_PLAN@), g),
        qv(s, act("hasUUID"@), simple_literal_view(uuid_text(pl.id)), g),
        qv(s, RDFS_NS@ + "label"@, simple_literal_view(pl.name), g),
    ] + opt_literal(s, RDFS_NS@ + "comment"@, pl.description, g)
        + opt_literal(s, act("hasRecurrenceRule"@), opt_rule(pl.recurrence), g)
        + opt_literal(s, act("hasDueRecurrenceRule"@), opt_rule(pl.due_recurrence), g)
        + opt_literal(s, act("hasExternalScheduleId"@), pl.external_id, g)
        + opt_literal(s, act("hasTemplateName"@), pl.template_name, g)
        + prescribes_quads(s, pl.id, acts, g)
        + opt_time(s, act("hasScheduledDateTime"@), pl.dtstart, g)
}

/// For each plan: the charter's `has_part` link to it, then its quads.
pub open spec fn plan_parts_quads(c: TermView, plans: Seq<PlanView>, acts: Seq<ActionView>, g: Option<Seq<char>>) -> Seq<QuadView>
    decreases plans.len(),
{
    if plans.len() == 0 {
        Seq::empty()
    } else {
        plan_parts_quads(c, plans.drop_last(), acts, g) + seq![
            qv(c, BFO_NS@ + BFO_HAS_PART@, uuid_node(plans.last().id), g),
        ] + plan_quads(plans.last(), acts, g)
    }
}

/// The charter's `has_part` link to each of its actions that no plan
/// generated.
pub open spec fn loose_action_quads(c: TermView, acts: Seq<ActionView>, g: Option<Seq<char>>) -> Seq<QuadView>
    decreases acts.len(),
{
    if acts.len() == 0 {
        Seq::empty()
    } else {
        loose_action_quads(c, acts.drop_last(), g) + (if acts.last().plan_id is None {
            seq![qv(c, BFO_NS@ + BFO_HAS_PART@, uuid_node(acts.last().id), g)]
        } else {
            Seq::empty()
        })
    }
}

/// The quads describing a charter of the model whose charters are `all`.
pub open spec fn charter_quads(ch: CharterView, all: Seq<CharterView>, ns: u128, g: Option<Seq<char>>) -> Seq<QuadView> {
    let s = uuid_node(ch.id);
    seq![
        qv(s, RDF_NS@ + "type"@, TermView::Iri(act("Charter"@)), g),
        qv(s, RDFS_NS@ + "label"@, simple_literal_view(ch.title), g),
        qv(s, act("hasUUID"@), simple_literal_view(uuid_text(ch.id)), g),
    ] + opt_literal(s, RDFS_NS@ + "comment"@, ch.description, g)
        + opt_literal(s, act("hasAlias"@), ch.alias, g)
        + (match ch.state {
            Some(st) => seq![qv(s, act("hasCharterState"@), simple_literal_view(charter_state_name(st)), g)],
            None => Seq::empty(),
        })
        + (match ch.parent {
            Some(pt) => seq![qv(uuid_node(parent_charter_id(all, pt, ns)), act("hasSubCharter"@), s, g)],
            None => Seq::empty(),
        })
        + plan_parts_quads(s, ch.plans, ch.actions, g)
        + loose_action_quads(s, ch.actions, g)
}

/// The UUIDs of the actions among `acts` whose parent is `pid`, in order.
pub open spec fn children_ids(acts: Seq<ActionView>, pid: u128) -> Seq<u128>
    decreases acts.len(),
{
    if acts.len() == 0 {
        Seq::empty()
    } else {
        let rest = children_ids(acts.drop_last(), pid);
        if acts.last().parent_id == Some(pid) {
            rest.push(acts.last().id)
        } else {
            rest
        }
    }
}

/// Each child after the first is the successor of the child before it.
pub open spec fn chain_quads(ids: Seq<u128>, g: Option<Seq<char>>) -> Seq<QuadView>
    decreases ids.len(),
{
    if ids.len() < 2 {
        Seq::empty()
    } else {
        chain_quads(ids.drop_last(), g) + seq![
            qv(uuid_node(ids.last()), CCO_NS@ + CCO_IS_SUCCESSOR_OF@, uuid_node(ids[ids.len() - 2]), g),
        ]
    }
}

/// The implicit successor chains of the sequential parents among `parents`,
/// their children taken from `acts`.
pub open spec fn sequential_quads(parents: Seq<ActionView>, acts: Seq<ActionView>, g: Option<Seq<char>>) -> Seq<QuadView>
    decreases parents.len(),
{
    if parents.len() == 0 {
        Seq::empty()
    } else {
        sequential_quads(parents.drop_last(), acts, g) + (if parents.last().is_sequential == Some(true) {
            chain_quads(children_ids(acts, parents.last().id), g)
        } else {
            Seq::empty()
        })
    }
}

/// For each child tag: its node, then `contextBroader` (child to parent) and
/// `contextNarrower` (parent to child).
pub open spec fn child_context_quads(p: Seq<char>, children: Seq<Seq<char>>, g: Option<Seq<char>>) -> Seq<QuadView>
    decreases children.len(),
{
    if children.len() == 0 {
        Seq::empty()
    } else {
        let c = children.last();
        child_context_quads(p, children.drop_last(), g) + context_node_quads(c, g) + seq![
            qv(context_node(c), act("contextBroader"@), context_node(p), g),
            qv(context_node(p), act("contextNarrower"@), context_node(c), g),
        ]
    }
}

/// The quads materialising context tag hierarchies.
pub open spec fn hierarchy_quads(h: Seq<(Seq<char>, Seq<Seq<char>>)>, g: Option<Seq<char>>) -> Seq<QuadView>
    decreases h.len(),
{
    if h.len() == 0 {
        Seq::empty()
    } else {
        hierarchy_quads(h.drop_last(), g) + context_node_quads(h.last().0, g) + child_context_quads(
            h.last().0,
            h.last().1,
            g,
        )
    }
}

/// The quads of `cs`, charter by charter, in the model whose charters are `all`.
pub open spec fn charters_quads(cs: Seq<CharterView>, all: Seq<CharterView>, ns: u128, g: Option<Seq<char>>) -> Seq<QuadView>
    decreases cs.len(),
{
    if cs.len() == 0 {
        Seq::empty()
    } else {
        charters_quads(cs.drop_last(), all, ns, g) + charter_quads(cs.last(), all, ns, g)
    }
}

/// The quads of `acts`, action by action.
pub open spec fn actions_quads(acts: Seq<ActionView>, g: Option<Seq<char>>) -> Seq<QuadView>
    decreases acts.len(),
{
    if acts.len() == 0 {
        Seq::empty()
    } else {
        actions_quads(acts.drop_last(), g) + action_quads(acts.last(), g)
    }
}

/// The implicit successor chains of every charter.
pub open spec fn charters_chain_quads(cs: Seq<CharterView>, g: Option<Seq<char>>) -> Seq<QuadView>
    decreases cs.len(),
{
    if cs.len() == 0 {
        Seq::empty()
    } else {
        charters_chain_quads(cs.drop_last(), g) + sequential_quads(cs.last().actions, cs.last().actions, g)
    }
}

/// Every quad loading a model inserts, in insertion order: the charters (with
/// their plans), the actions, the implicit successor chains, and the context
/// hierarchies of the configuration when one is given.
pub open spec fn model_quads(
    m: Seq<CharterView>,
    h: Option<Seq<(Seq<char>, Seq<Seq<char>>)>>,
    ns: u128,
    g: Option<Seq<char>>,
) -> Seq<QuadView> {
    charters_quads(m, m, ns, g) + actions_quads(all_actions(m), g) + charters_chain_quads(m, g) + match h {
        Some(hs) => hierarchy_quads(hs, g),
        None => Seq::empty(),
    }
}

fn title_table(cs: &Vec<Charter>) -> (t: Vec<(String, u128)>)
    ensures
        t@.len() == cs@.len(),
        forall|i: int| 0 <= i < cs@.len() ==> (#[trigger] t@[i]).0@ == lowercase(cs@[i].title@) && t@[i].1 == cs@[i].id,
{
    let mut t: Vec<(String, u128)> = Vec::new();
    let mut i: usize = 0;
    while i < cs.len()
        invariant
            i <= cs@.len(),
            t@.len() == i,
            forall|k: int| 0 <= k < i ==> (#[trigger] t@[k]).0@ == lowercase(cs@[k].title@) && t@[k].1 == cs@[k].id,
        decreases cs@.len() - i,
    {
        t.push((to_lowercase(cs[i].title.as_str()), cs[i].id));
        i = i + 1;
    }
    t
}

fn parent_id_lookup(table: &Vec<(String, u128)>, cs: &Vec<Charter>, parent: &str, ns: u128) -> (r: u128)
    requires
        table@.len() == cs@.len(),
        forall|i: int| 0 <= i < cs@.len() ==> (#[trigger] table@[i]).0@ == lowercase(cs@[i].title@) && table@[i].1 == cs@[i].id,
    ensures
        r == parent_charter_id(crate::domain::charters_view(cs@), parent@, ns),
{
    let ghost cv = crate::domain::charters_view(cs@);
    let key = to_lowercase(parent);
    assert(cv.len() == cs@.len());
    assert(cv.subrange(0, cv.len() as int) =~= cv);
    let mut j: usize = table.len();
    while j > 0
        invariant
            cv == crate::domain::charters_view(cs@),
            table@.len() == cs@.len(),
            forall|i: int| 0 <= i < cs@.len() ==> (#[trigger] table@[i]).0@ == lowercase(cs@[i].title@) && table@[i].1 == cs@[i].id,
            key@ == lowercase(parent@),
            j <= cs@.len(),
            charter_by_title(cv, key@) == charter_by_title(cv.subrange(0, j as int), key@),
        decreases j,
    {
        let ghost sub = cv.subrange(0, j as int);
        assert(sub.last() == cv[j - 1]);
        assert(cv[j - 1].title == cs@[j - 1].title@);
        assert(sub.drop_last() == cv.subrange(0, j - 1));
        if str_eq(table[j - 1].0.as_str(), key.as_str()) {
            return table[j - 1].1;
        }
        j = j - 1;
    }
    uuid_new_v5(ns, parent)
}

fn push_prescribes(out: &mut Vec<Quad>, p: &RdfTerm, plan_id: u128, acts: &Vec<Action>, g: &Option<String>)
    ensures
        quads_view(final(out)@) == quads_view(old(out)@) + prescribes_quads(p@, plan_id, crate::domain::actions_view(acts@), opt_view(*g)),
{
    let ghost av = crate::domain::actions_view(acts@);
    let ghost start = quads_view(out@);
    let mut i: usize = 0;
    while i < acts.len()
        invariant
            av == crate::domain::actions_view(acts@),
            i <= acts@.len(),
            quads_view(out@) == start + prescribes_quads(p@, plan_id, av.subrange(0, i as int), opt_view(*g)),
        decreases acts@.len() - i,
    {
        assert(av.subrange(0, i + 1).drop_last() == av.subrange(0, i as int));
        assert(av.subrange(0, i + 1).last() == acts@[i as int]@);
        let ghost mid = quads_view(out@);
        if acts[i].plan_id == Some(plan_id) {
            push_quad(out, p, crate::vocab::cco_node(CCO_PRESCRIBES), uuid_term(acts[i].id), g);
        }
        assert(quads_view(out@) =~= start + prescribes_quads(p@, plan_id, av.subrange(0, i + 1), opt_view(*g)));
        i = i + 1;
    }
    assert(av.subrange(0, acts@.len() as int) == av);
}

fn rule_text(r: &Option<String>) -> (t: Option<String>)
    ensures
        opt_view(t) == opt_rule(opt_view(*r)),
{
    match r {
        Some(x) => Some(strip_prefix_or_self(x.as_str(), "R:")),
        None => None,
    }
}

/// The quads describing a plan of a charter whose actions are `acts`.
pub fn plan_quads_vec(pl: &Plan, acts: &Vec<Action>, g: &Option<String>) -> (v: Vec<Quad>)
    ensures
        quads_view(v@) == plan_quads(pl@, crate::domain::actions_view(acts@), opt_view(*g)),
{
    let s = uuid_term(pl.id);
    let mut out: Vec<Quad> = Vec::new();
    push_quad(&mut out, &s, crate::vocab::rdf_type(), RdfTerm::Iri(crate::vocab::cco_node(CCO_PLAN)), g);
    push_quad(&mut out, &s, actions_iri("hasUUID"), literal(uuid_string(pl.id)), g);
    push_quad(&mut out, &s, crate::vocab::rdfs_pred("label"), literal(pl.name.clone()), g);
    assert(quads_view(out@) =~= seq![
        qv(s@, RDF_NS@ + "type"@, TermView::Iri(CCO_NS@ + CCO_PLAN@), opt_view(*g)),
        qv(s@, act("hasUUID"@), simple_literal_view(uuid_text(pl.id)), opt_view(*g)),
        qv(s@, RDFS_NS@ + "label"@, simple_literal_view(pl@.name), opt_view(*g)),
    ]);
    push_opt_literal(&mut out, &s, crate::vocab::rdfs_pred("comment"), &pl.description, g);
    push_opt_literal(&mut out, &s, actions_iri("hasRecurrenceRule"), &rule_text(&pl.recurrence), g);
    push_opt_literal(&mut out, &s, actions_iri("hasDueRecurrenceRule"), &rule_text(&pl.due_recurrence), g);
    push_opt_literal(&mut out, &s, actions_iri("hasExternalScheduleId"), &pl.external_id, g);
    push_opt_literal(&mut out, &s, actions_iri("hasTemplateName"), &pl.template_name, g);
    push_prescribes(&mut out, &s, pl.id, acts, g);
    push_opt_time(&mut out, &s, actions_iri("hasScheduledDateTime"), &pl.dtstart, g);
    assert(quads_view(out@) == plan_quads(pl@, crate::domain::actions_view(acts@), opt_view(*g)));
    out
}

fn push_plan_parts(out: &mut Vec<Quad>, c: &RdfTerm, plans: &Vec<Plan>, acts: &Vec<Action>, g: &Option<String>)
    ensures
        quads_view(final(out)@) == quads_view(old(out)@) + plan_parts_quads(
            c@,
            crate::domain::plans_view(plans@),
            crate::domain::actions_view(acts@),
            opt_view(*g),
        ),
{
    let ghost pv = crate::domain::plans_view(plans@);
    let ghost av = crate::domain::actions_view(acts@);
    let ghost start = quads_view(out@);
    let mut i: usize = 0;
    while i < plans.len()
        invariant
            pv == crate::domain::plans_view(plans@),
            av == crate::domain::actions_view(acts@),
            i <= plans@.len(),
            quads_view(out@) == start + plan_parts_quads(c@, pv.subrange(0, i as int), av, opt_view(*g)),
        decreases plans@.len() - i,
    {
        assert(pv.subrange(0, i + 1).drop_last() == pv.subrange(0, i as int));
        assert(pv.subrange(0, i + 1).last() == plans@[i as int]@);
        push_quad(out, c, crate::vocab::bfo_pred(BFO_HAS_PART), uuid_term(plans[i].id), g);
        let more = plan_quads_vec(&plans[i], acts, g);
        append_quads(out, more);
        assert(quads_view(out@) == start + plan_parts_quads(c@, pv.subrange(0, i + 1), av, opt_view(*g)));
        i = i + 1;
    }
    assert(pv.subrange(0, plans@.len() as int) == pv);
}

fn push_loose_actions(out: &mut Vec<Quad>, c: &RdfTerm, acts: &Vec<Action>, g: &Option<String>)
    ensures
        quads_view(final(out)@) == quads_view(old(out)@) + loose_action_quads(c@, crate::domain::actions_view(acts@), opt_view(*g)),
{
    let ghost av = crate::domain::actions_view(acts@);
    let ghost start = quads_view(out@);
    let mut i: usize = 0;
    while i < acts.len()
        invariant
            av == crate::domain::actions_view(acts@),
            i <= acts@.len(),
            quads_view(out@) == start + loose_action_quads(c@, av.subrange(0, i as int), opt_view(*g)),
        decreases acts@.len() - i,
    {
        assert(av.subrange(0, i + 1).drop_last() == av.subrange(0, i as int));
        assert(av.subrange(0, i + 1).last() == acts@[i as int]@);
        if acts[i].plan_id.is_none() {
            push_quad(out, c, crate::vocab::bfo_pred(BFO_HAS_PART), uuid_term(acts[i].id), g);
        }
        assert(quads_view(out@) =~= start + loose_action_quads(c@, av.subrange(0, i + 1), opt_view(*g)));
        i = i + 1;
    }
    assert(av.subrange(0, acts@.len() as int) == av);
}

/// The quads describing charter `ch` of the model whose charters are `all`.
fn charter_quads_vec(ch: &Charter, all: &Vec<Charter>, table: &Vec<(String, u128)>, ns: u128, g: &Option<String>) -> (v: Vec<Quad>)
    requires
        table@.len() == all@.len(),
        forall|i: int| 0 <= i < all@.len() ==> (#[trigger] table@[i]).0@ == lowercase(all@[i].title@) && table@[i].1 == all@[i].id,
    ensures
        quads_view(v@) == charter_quads(ch@, crate::domain::charters_view(all@), ns, opt_view(*g)),
{
    let s = uuid_term(ch.id);
    let mut out: Vec<Quad> = Vec::new();
    push_quad(&mut out, &s, crate::vocab::rdf_type(), RdfTerm::Iri(actions_iri("Charter")), g);
    push_quad(&mut out, &s, crate::vocab::rdfs_pred("label"), literal(ch.title.clone()), g);
    push_quad(&mut out, &s, actions_iri("hasUUID"), literal(uuid_string(ch.id)), g);
    assert(quads_view(out@) =~= seq![
        qv(s@, RDF_NS@ + "type"@, TermView::Iri(act("Charter"@)), opt_view(*g)),
        qv(s@, RDFS_NS@ + "label"@, simple_literal_view(ch@.title), opt_view(*g)),
        qv(s@, act("hasUUID"@), simple_literal_view(uuid_text(ch.id)), opt_view(*g)),
    ]);
    push_opt_literal(&mut out, &s, crate::vocab::rdfs_pred("comment"), &ch.description, g);
    push_opt_literal(&mut out, &s, actions_iri("hasAlias"), &ch.alias, g);
    let ghost b1 = quads_view(out@);
    match ch.state {
        Some(st) => {
            push_quad(&mut out, &s, actions_iri("hasCharterState"), literal(String::from_str(charter_state_term(st))), g);
        },
        None => {},
    }
    assert(quads_view(out@) =~= b1 + match ch@.state {
        Some(st) => seq![qv(s@, act("hasCharterState"@), simple_literal_view(charter_state_name(st)), opt_view(*g))],
        None => Seq::empty(),
    });
    let ghost b2 = quads_view(out@);
    match &ch.parent {
        Some(pt) => {
            let pid = parent_id_lookup(table, all, pt.as_str(), ns);
            push_quad(&mut out, &uuid_term(pid), actions_iri("hasSubCharter"), s.copy(), g);
        },
        None => {},
    }
    assert(quads_view(out@) =~= b2 + match ch@.parent {
        Some(pt) => seq![qv(uuid_node(parent_charter_id(crate::domain::charters_view(all@), pt, ns)), act("hasSubCharter"@), s@, opt_view(*g))],
        None => Seq::empty(),
    });
    push_plan_parts(&mut out, &s, &ch.plans, &ch.actions, g);
    push_loose_actions(&mut out, &s, &ch.actions, g);
    assert(quads_view(out@) == charter_quads(ch@, crate::domain::charters_view(all@), ns, opt_view(*g)));
    out
}

fn children_ids_vec(acts: &Vec<Action>, pid: u128) -> (r: Vec<u128>)
    ensures
        r@ == children_ids(crate::domain::actions_view(acts@), pid),
{
    let ghost av = crate::domain::actions_view(acts@);
    let mut out: Vec<u128> = Vec::new();
    let mut i: usize = 0;
    while i < acts.len()
        invariant
            av == crate::domain::actions_view(acts@),
            i <= acts@.len(),
            out@ == children_ids(av.subrange(0, i as int), pid),
        decreases acts@.len() - i,
    {
        assert(av.subrange(0, i + 1).drop_last() == av.subrange(0, i as int));
        assert(av.subrange(0, i + 1).last() == acts@[i as int]@);
        if acts[i].parent_id == Some(pid) {
            out.push(acts[i].id);
        }
        i = i + 1;
    }
    assert(av.subrange(0, acts@.len() as int) == av);
    out
}

fn push_chain(out: &mut Vec<Quad>, ids: &Vec<u128>, g: &Option<String>)
    ensures
        quads_view(final(out)@) == quads_view(old(out)@) + chain_quads(ids@, opt_view(*g)),
{
    let ghost start = quads_view(out@);
    if ids.len() < 2 {
        assert(quads_view(out@) =~= start + chain_quads(ids@, opt_view(*g)));
        return;
    }
    assert(ids@.subrange(0, 1).len() == 1);
    assert(quads_view(out@) =~= start + chain_quads(ids@.subrange(0, 1), opt_view(*g)));
    let mut i: usize = 1;
    while i < ids.len()
        invariant
            1 <= i <= ids@.len(),
            quads_view(out@) == start + chain_quads(ids@.subrange(0, i as int), opt_view(*g)),
        decreases ids@.len() - i,
    {
        let ghost sub = ids@.subrange(0, i + 1);
        assert(sub.drop_last() == ids@.subrange(0, i as int));
        assert(sub.last() == ids@[i as int]);
        assert(sub[sub.len() - 2] == ids@[i - 1]);
        push_quad(out, &uuid_term(ids[i]), crate::vocab::cco_node(CCO_IS_SUCCESSOR_OF), uuid_term(ids[i - 1]), g);
        assert(quads_view(out@) =~= start + chain_quads(sub, opt_view(*g)));
        i = i + 1;
    }
    assert(ids@.subrange(0, ids@.len() as int) == ids@);
}

fn push_sequential(out: &mut Vec<Quad>, acts: &Vec<Action>, g: &Option<String>)
    ensures
        quads_view(final(out)@) == quads_view(old(out)@) + sequential_quads(
            crate::domain::actions_view(acts@),
            crate::domain::actions_view(acts@),
            opt_view(*g),
        ),
{
    let ghost av = crate::domain::actions_view(acts@);
    let ghost start = quads_view(out@);
    let mut i: usize = 0;
    while i < acts.len()
        invariant
            av == crate::domain::actions_view(acts@),
            i <= acts@.len(),
            quads_view(out@) == start + sequential_quads(av.subrange(0, i as int), av, opt_view(*g)),
        decreases acts@.len() - i,
    {
        assert(av.subrange(0, i + 1).drop_last() == av.subrange(0, i as int));
        assert(av.subrange(0, i + 1).last() == acts@[i as int]@);
        let ghost mid = quads_view(out@);
        if acts[i].is_sequential == Some(true) {
            let kids = children_ids_vec(acts, acts[i].id);
            push_chain(out, &kids, g);
        }
        assert(quads_view(out@) =~= start + sequential_quads(av.subrange(0, i + 1), av, opt_view(*g)));
        i = i + 1;
    }
    assert(av.subrange(0, acts@.len() as int) == av);
}

fn context_term(tag: &str) -> (node: RdfTerm)
    ensures
        node@ == context_node(tag@),
{
    let clean = context_identifier(tag);
    RdfTerm::Iri(crate::vocab::ns("urn:context:", clean.as_str()))
}

fn push_child_contexts(out: &mut Vec<Quad>, parent: &str, children: &Vec<String>, g: &Option<String>)
    ensures
        quads_view(final(out)@) == quads_view(old(out)@) + child_context_quads(parent@, strs(children@), opt_view(*g)),
{
    let ghost tv = strs(children@);
    let ghost start = quads_view(out@);
    let pnode = context_term(parent);
    let mut i: usize = 0;
    while i < children.len()
        invariant
            tv == strs(children@),
            pnode@ == context_node(parent@),
            i <= children@.len(),
            quads_view(out@) == start + child_context_quads(parent@, tv.subrange(0, i as int), opt_view(*g)),
        decreases children@.len() - i,
    {
        assert(tv.subrange(0, i + 1).drop_last() == tv.subrange(0, i as int));
        assert(tv.subrange(0, i + 1).last() == children@[i as int]@);
        let cnode = push_context_node(out, children[i].as_str(), g);
        push_quad(out, &cnode, actions_iri("contextBroader"), pnode.copy(), g);
        push_quad(out, &pnode, actions_iri("contextNarrower"), cnode, g);
        assert(quads_view(out@) =~= start + child_context_quads(parent@, tv.subrange(0, i + 1), opt_view(*g)));
        i = i + 1;
    }
    assert(tv.subrange(0, children@.len() as int) == tv);
}

fn push_hierarchy(out: &mut Vec<Quad>, config: &WorkspaceConfig, g: &Option<String>)
    ensures
        quads_view(final(out)@) == quads_view(old(out)@) + hierarchy_quads(hierarchies_view(*config), opt_view(*g)),
{
    let ghost hv = hierarchies_view(*config);
    let ghost start = quads_view(out@);
    let h = &config.tag_hierarchies;
    let mut i: usize = 0;
    while i < h.len()
        invariant
            hv == hierarchies_view(*config),
            h == &config.tag_hierarchies,
            i <= h@.len(),
            quads_view(out@) == start + hierarchy_quads(hv.subrange(0, i as int), opt_view(*g)),
        decreases h@.len() - i,
    {
        assert(hv.subrange(0, i + 1).drop_last() == hv.subrange(0, i as int));
        assert(hv.subrange(0, i + 1).last() == (h@[i as int].0@, strs(h@[i as int].1@)));
        let _ = push_context_node(out, h[i].0.as_str(), g);
        push_child_contexts(out, h[i].0.as_str(), &h[i].1, g);
        assert(quads_view(out@) =~= start + hierarchy_quads(hv.subrange(0, i + 1), opt_view(*g)));
        i = i + 1;
    }
    assert(hv.subrange(0, h@.len() as int) == hv);
}

fn push_charters(out: &mut Vec<Quad>, cs: &Vec<Charter>, table: &Vec<(String, u128)>, ns: u128, g: &Option<String>)
    requires
        table@.len() == cs@.len(),
        forall|i: int| 0 <= i < cs@.len() ==> (#[trigger] table@[i]).0@ == lowercase(cs@[i].title@) && table@[i].1 == cs@[i].id,
    ensures
        quads_view(final(out)@) == quads_view(old(out)@) + charters_quads(
            crate::domain::charters_view(cs@),
            crate::domain::charters_view(cs@),
            ns,
            opt_view(*g),
        ),
{
    let ghost cv = crate::domain::charters_view(cs@);
    let ghost start = quads_view(out@);
    let mut i: usize = 0;
    while i < cs.len()
        invariant
            cv == crate::domain::charters_view(cs@),
            table@.len() == cs@.len(),
            forall|k: int| 0 <= k < cs@.len() ==> (#[trigger] table@[k]).0@ == lowercase(cs@[k].title@) && table@[k].1 == cs@[k].id,
            i <= cs@.len(),
            quads_view(out@) == start + charters_quads(cv.subrange(0, i as int), cv, ns, opt_view(*g)),
        decreases cs@.len() - i,
    {
        assert(cv.subrange(0, i + 1).drop_last() == cv.subrange(0, i as int));
        assert(cv.subrange(0, i + 1).last() == cs@[i as int]@);
        let more = charter_quads_vec(&cs[i], cs, table, ns, g);
        append_quads(out, more);
        assert(quads_view(out@) =~= start + charters_quads(cv.subrange(0, i + 1), cv, ns, opt_view(*g)));
        i = i + 1;
    }
    assert(cv.subrange(0, cs@.len() as int) == cv);
}

fn push_actions(out: &mut Vec<Quad>, acts: &Vec<Action>, g: &Option<String>)
    ensures
        quads_view(final(out)@) == quads_view(old(out)@) + actions_quads(crate::domain::actions_view(acts@), opt_view(*g)),
{
    let ghost av = crate::domain::actions_view(acts@);
    let ghost start = quads_view(out@);
    let mut i: usize = 0;
    while i < acts.len()
        invariant
            av == crate::domain::actions_view(acts@),
            i <= acts@.len(),
            quads_view(out@) == start + actions_quads(av.subrange(0, i as int), opt_view(*g)),
        decreases acts@.len() - i,
    {
        assert(av.subrange(0, i + 1).drop_last() == av.subrange(0, i as int));
        assert(av.subrange(0, i + 1).last() == acts@[i as int]@);
        let more = action_quads_vec(&acts[i], g);
        append_quads(out, more);
        assert(quads_view(out@) =~= start + actions_quads(av.subrange(0, i + 1), opt_view(*g)));
        i = i + 1;
    }
    assert(av.subrange(0, acts@.len() as int) == av);
}

/// The quads of two runs of actions are those of each, one after the other.
pub proof fn lemma_actions_quads_add(a: Seq<ActionView>, b: Seq<ActionView>, g: Option<Seq<char>>)
    ensures
        actions_quads(a + b, g) == actions_quads(a, g) + actions_quads(b, g),
    decreases b.len(),
{
    if b.len() == 0 {
        assert(a + b =~= a);
        assert(actions_quads(a, g) + actions_quads(b, g) =~= actions_quads(a, g));
    } else {
        lemma_actions_quads_add(a, b.drop_last(), g);
        assert((a + b).drop_last() =~= a + b.drop_last());
        assert((a + b).last() == b.last());
        assert(actions_quads(a + b, g) =~= actions_quads(a, g) + actions_quads(b, g));
    }
}

/// The class term `actions:Action`.
pub open spec fn action_class_term() -> TermView {
    TermView::Iri(act("Action"@))
}

/// The objects other than `actions:Action` that the quads of a model use:
/// UUID nodes, context nodes, the other classes and the status terms.
proof fn lemma_not_action_class()
    ensures
        forall|id: u128| #[trigger] uuid_node(id) != action_class_term(),
        forall|t: Seq<char>| #[trigger] context_node(t) != action_class_term(),
        forall|s: crate::domain::ActionState| TermView::Iri(#[trigger] act(phase_name(s))) != action_class_term(),
        TermView::Iri(act("Charter"@)) != action_class_term(),
        TermView::Iri(act("Context"@)) != action_class_term(),
        TermView::Iri(CCO_NS@ + CCO_PLAN@) != action_class_term(),
{
    reveal_strlit("https://clearhead.us/vocab/actions/v4#");
    reveal_strlit("https://www.commoncoreontologies.org/");
    reveal_strlit("ont00000974");
    reveal_strlit("Action");
    reveal_strlit("Charter");
    reveal_strlit("Context");
    reveal_strlit("urn:uuid:");
    reveal_strlit("urn:context:");
    reveal_strlit("NotStarted");
    reveal_strlit("InProgress");
    reveal_strlit("Completed");
    reveal_strlit("Blocked");
    reveal_strlit("Cancelled");
    assert(act("Action"@).len() == 44);
    assert forall|id: u128| #[trigger] uuid_node(id) != action_class_term() by {
        assert(uuid_iri(id).len() == 45);
    }
    assert forall|t: Seq<char>| #[trigger] context_node(t) != action_class_term() by {
        let a = "urn:context:"@ + context_clean(t);
        assert(a[0] == 'u');
        assert(act("Action"@)[0] == 'h');
    }
    assert forall|s: crate::domain::ActionState| TermView::Iri(#[trigger] act(phase_name(s))) != action_class_term() by {
        assert(phase_name(s).len() >= 7);
    }
}

/// Whether no quad of `qs` has the class `actions:Action` as its object.
pub open spec fn no_class_object(qs: Seq<QuadView>) -> bool {
    forall|i: int| 0 <= i < qs.len() ==> (#[trigger] qs[i]).object != action_class_term()
}

proof fn lemma_no_class_object_add(a: Seq<QuadView>, b: Seq<QuadView>)
    requires
        no_class_object(a),
        no_class_object(b),
    ensures
        no_class_object(a + b),
{
    assert forall|i: int| 0 <= i < (a + b).len() implies (#[trigger] (a + b)[i]).object != action_class_term() by {
        if i >= a.len() {
            assert((a + b)[i] == b[i - a.len()]);
        }
    }
}

proof fn lemma_context_node_quads_nc(tag: Seq<char>, g: Option<Seq<char>>)
    ensures
        no_class_object(context_node_quads(tag, g)),
{
    lemma_not_action_class();
}

proof fn lemma_requires_context_nc(s: TermView, tags: Seq<Seq<char>>, g: Option<Seq<char>>)
    ensures
        no_class_object(requires_context_quads(s, tags, g)),
    decreases tags.len(),
{
    lemma_not_action_class();
    if tags.len() > 0 {
        let t = tags.last();
        lemma_requires_context_nc(s, tags.drop_last(), g);
        lemma_context_node_quads_nc(t, g);
        lemma_no_class_object_add(requires_context_quads(s, tags.drop_last(), g), context_node_quads(t, g));
        lemma_no_class_object_add(
            requires_context_quads(s, tags.drop_last(), g) + context_node_quads(t, g),
            seq![qv(s, act("requiresContext"@), context_node(t), g)],
        );
    }
}

proof fn lemma_successor_nc(s: TermView, ids: Seq<u128>, g: Option<Seq<char>>)
    ensures
        no_class_object(successor_quads(s, ids, g)),
    decreases ids.len(),
{
    lemma_not_action_class();
    if ids.len() > 0 {
        lemma_successor_nc(s, ids.drop_last(), g);
        lemma_no_class_object_add(
            successor_quads(s, ids.drop_last(), g),
            seq![qv(s, CCO_NS@ + CCO_IS_SUCCESSOR_OF@, uuid_node(ids.last()), g)],
        );
    }
}

proof fn lemma_prescribes_nc(p: TermView, plan_id: u128, acts: Seq<ActionView>, g: Option<Seq<char>>)
    ensures
        no_class_object(prescribes_quads(p, plan_id, acts, g)),
    decreases acts.len(),
{
    lemma_not_action_class();
    if acts.len() > 0 {
        lemma_prescribes_nc(p, plan_id, acts.drop_last(), g);
        lemma_no_class_object_add(
            prescribes_quads(p, plan_id, acts.drop_last(), g),
            if acts.last().plan_id == Some(plan_id) {
                seq![qv(p, CCO_NS@ + CCO_PRESCRIBES@, uuid_node(acts.last().id), g)]
            } else {
                Seq::empty()
            },
        );
    }
}

proof fn lemma_plan_quads_nc(pl: PlanView, acts: Seq<ActionView>, g: Option<Seq<char>>)
    ensures
        no_class_object(plan_quads(pl, acts, g)),
{
    lemma_not_action_class();
    lemma_prescribes_nc(uuid_node(pl.id), pl.id, acts, g);
    let p0 = seq![
        qv(uuid_node(pl.id), RDF_NS@ + "type"@, TermView::Iri(CCO_NS@ + CCO_PLAN@), g),
        qv(uuid_node(pl.id), act("hasUUID"@), simple_literal_view(uuid_text(pl.id)), g),
        qv(uuid_node(pl.id), RDFS_NS@ + "label"@, simple_literal_view(pl.name), g),
    ];
    assert(no_class_object(p0));
    let acc0 = p0;
    let p1 = opt_literal(uuid_node(pl.id), RDFS_NS@ + "comment"@, pl.description, g);
    assert(no_class_object(p1));
    lemma_no_class_object_add(acc0, p1);
    let acc1 = acc0 + p1;
    let p2 = opt_literal(uuid_node(pl.id), act("hasRecurrenceRule"@), opt_rule(pl.recurrence), g);
    assert(no_class_object(p2));
    lemma_no_class_object_add(acc1, p2);
    let acc2 = acc1 + p2;
    let p3 = opt_literal(uuid_node(pl.id), act("hasDueRecurrenceRule"@), opt_rule(pl.due_recurrence), g);
    assert(no_class_object(p3));
    lemma_no_class_object_add(acc2, p3);
    let acc3 = acc2 + p3;
    let p4 = opt_literal(uuid_node(pl.id), act("hasExternalScheduleId"@), pl.external_id, g);
    assert(no_class_object(p4));
    lemma_no_class_object_add(acc3, p4);
    let acc4 = acc3 + p4;
    let p5 = opt_literal(uuid_node(pl.id), act("hasTemplateName"@), pl.template_name, g);
    assert(no_class_object(p5));
    lemma_no_class_object_add(acc4, p5);
    let acc5 = acc4 + p5;
    let p6 = prescribes_quads(uuid_node(pl.id), pl.id, acts, g);
    assert(no_class_object(p6));
    lemma_no_class_object_add(acc5, p6);
    let acc6 = acc5 + p6;
    let p7 = opt_time(uuid_node(pl.id), act("hasScheduledDateTime"@), pl.dtstart, g);
    assert(no_class_object(p7));
    lemma_no_class_object_add(acc6, p7);
    let acc7 = acc6 + p7;
    assert(plan_quads(pl, acts, g) == acc7);
}

proof fn lemma_plan_parts_nc(c: TermView, plans: Seq<PlanView>, acts: Seq<ActionView>, g: Option<Seq<char>>)
    ensures
        no_class_object(plan_parts_quads(c, plans, acts, g)),
    decreases plans.len(),
{
    lemma_not_action_class();
    if plans.len() > 0 {
        lemma_plan_parts_nc(c, plans.drop_last(), acts, g);
        lemma_plan_quads_nc(plans.last(), acts, g);
        let a = plan_parts_quads(c, plans.drop_last(), acts, g);
        let b = seq![qv(c, BFO_NS@ + BFO_HAS_PART@, uuid_node(plans.last().id), g)];
        lemma_no_class_object_add(a, b);
        lemma_no_class_object_add(a + b, plan_quads(plans.last(), acts, g));
    }
}

proof fn lemma_loose_nc(c: TermView, acts: Seq<ActionView>, g: Option<Seq<char>>)
    ensures
        no_class_object(loose_action_quads(c, acts, g)),
    decreases acts.len(),
{
    lemma_not_action_class();
    if acts.len() > 0 {
        lemma_loose_nc(c, acts.drop_last(), g);
        lemma_no_class_object_add(
            loose_action_quads(c, acts.drop_last(), g),
            if acts.last().plan_id is None {
                seq![qv(c, BFO_NS@ + BFO_HAS_PART@, uuid_node(acts.last().id), g)]
            } else {
                Seq::empty()
            },
        );
    }
}

proof fn lemma_charter_quads_nc(ch: CharterView, all: Seq<CharterView>, ns: u128, g: Option<Seq<char>>)
    ensures
        no_class_object(charter_quads(ch, all, ns, g)),
{
    lemma_not_action_class();
    lemma_plan_parts_nc(uuid_node(ch.id), ch.plans, ch.actions, g);
    lemma_loose_nc(uuid_node(ch.id), ch.actions, g);
    let p0 = seq![
        qv(uuid_node(ch.id), RDF_NS@ + "type"@, TermView::Iri(act("Charter"@)), g),
        qv(uuid_node(ch.id), RDFS_NS@ + "label"@, simple_literal_view(ch.title), g),
        qv(uuid_node(ch.id), act("hasUUID"@), simple_literal_view(uuid_text(ch.id)), g),
    ];
    assert(no_class_object(p0));
    let acc0 = p0;
    let p1 = opt_literal(uuid_node(ch.id), RDFS_NS@ + "comment"@, ch.description, g);
    assert(no_class_object(p1));
    lemma_no_class_object_add(acc0, p1);
    let acc1 = acc0 + p1;
    let p2 = opt_literal(uuid_node(ch.id), act("hasAlias"@), ch.alias, g);
    assert(no_class_object(p2));
    lemma_no_class_object_add(acc1, p2);
    let acc2 = acc1 + p2;
    let p3 = (match ch.state {
        Some(st) => seq![qv(uuid_node(ch.id), act("hasCharterState"@), simple_literal_view(charter_state_name(st)), g)],
        None => Seq::empty(),
    });
    assert(no_class_object(p3));
    lemma_no_class_object_add(acc2, p3);
    let acc3 = acc2 + p3;
    let p4 = (match ch.parent {
        Some(pt) => seq![qv(uuid_node(parent_charter_id(all, pt, ns)), act("hasSubCharter"@), uuid_node(ch.id), g)],
        None => Seq::empty(),
    });
    assert(no_class_object(p4));
    lemma_no_class_object_add(acc3, p4);
    let acc4 = acc3 + p4;
    let p5 = plan_parts_quads(uuid_node(ch.id), ch.plans, ch.actions, g);
    assert(no_class_object(p5));
    lemma_no_class_object_add(acc4, p5);
    let acc5 = acc4 + p5;
    let p6 = loose_action_quads(uuid_node(ch.id), ch.actions, g);
    assert(no_class_object(p6));
    lemma_no_class_object_add(acc5, p6);
    let acc6 = acc5 + p6;
    assert(charter_quads(ch, all, ns, g) == acc6);
}

proof fn lemma_charters_quads_nc(cs: Seq<CharterView>, all: Seq<CharterView>, ns: u128, g: Option<Seq<char>>)
    ensures
        no_class_object(charters_quads(cs, all, ns, g)),
    decreases cs.len(),
{
    if cs.len() > 0 {
        lemma_charters_quads_nc(cs.drop_last(), all, ns, g);
        lemma_charter_quads_nc(cs.last(), all, ns, g);
        lemma_no_class_object_add(charters_quads(cs.drop_last(), all, ns, g), charter_quads(cs.last(), all, ns, g));
    }
}

proof fn lemma_chain_nc(ids: Seq<u128>, g: Option<Seq<char>>)
    ensures
        no_class_object(chain_quads(ids, g)),
    decreases ids.len(),
{
    lemma_not_action_class();
    if ids.len() >= 2 {
        lemma_chain_nc(ids.drop_last(), g);
        lemma_no_class_object_add(
            chain_quads(ids.drop_last(), g),
            seq![qv(uuid_node(ids.last()), CCO_NS@ + CCO_IS_SUCCESSOR_OF@, uuid_node(ids[ids.len() - 2]), g)],
        );
    }
}

proof fn lemma_sequential_nc(parents: Seq<ActionView>, acts: Seq<ActionView>, g: Option<Seq<char>>)
    ensures
        no_class_object(sequential_quads(parents, acts, g)),
    decreases parents.len(),
{
    if parents.len() > 0 {
        lemma_sequential_nc(parents.drop_last(), acts, g);
        lemma_chain_nc(children_ids(acts, parents.last().id), g);
        lemma_no_class_object_add(
            sequential_quads(parents.drop_last(), acts, g),
            if parents.last().is_sequential == Some(true) {
                chain_quads(children_ids(acts, parents.last().id), g)
            } else {
                Seq::empty()
            },
        );
    }
}

proof fn lemma_charters_chain_nc(cs: Seq<CharterView>, g: Option<Seq<char>>)
    ensures
        no_class_object(charters_chain_quads(cs, g)),
    decreases cs.len(),
{
    if cs.len() > 0 {
        lemma_charters_chain_nc(cs.drop_last(), g);
        lemma_sequential_nc(cs.last().actions, cs.last().actions, g);
        lemma_no_class_object_add(
            charters_chain_quads(cs.drop_last(), g),
            sequential_quads(cs.last().actions, cs.last().actions, g),
        );
    }
}

proof fn lemma_child_context_nc(p: Seq<char>, children: Seq<Seq<char>>, g: Option<Seq<char>>)
    ensures
        no_class_object(child_context_quads(p, children, g)),
    decreases children.len(),
{
    lemma_not_action_class();
    if children.len() > 0 {
        let c = children.last();
        lemma_child_context_nc(p, children.drop_last(), g);
        lemma_context_node_quads_nc(c, g);
        let a = child_context_quads(p, children.drop_last(), g);
        lemma_no_class_object_add(a, context_node_quads(c, g));
        lemma_no_class_object_add(
            a + context_node_quads(c, g),
            seq![
                qv(context_node(c), act("contextBroader"@), context_node(p), g),
                qv(context_node(p), act("contextNarrower"@), context_node(c), g),
            ],
        );
    }
}

proof fn lemma_hierarchy_nc(h: Seq<(Seq<char>, Seq<Seq<char>>)>, g: Option<Seq<char>>)
    ensures
        no_class_object(hierarchy_quads(h, g)),
    decreases h.len(),
{
    if h.len() > 0 {
        lemma_hierarchy_nc(h.drop_last(), g);
        lemma_context_node_quads_nc(h.last().0, g);
        lemma_child_context_nc(h.last().0, h.last().1, g);
        let a = hierarchy_quads(h.drop_last(), g);
        lemma_no_class_object_add(a, context_node_quads(h.last().0, g));
        lemma_no_class_object_add(a + context_node_quads(h.last().0, g), child_context_quads(h.last().0, h.last().1, g));
    }
}

/// The quad typing the action `a` as `actions:Action` in the graph `g`.
pub open spec fn action_type_quad(a: ActionView, g: Option<Seq<char>>) -> QuadView {
    qv(uuid_node(a.id), RDF_NS@ + "type"@, action_class_term(), g)
}

/// Whether every quad of `qs` whose object is the class `actions:Action` is
/// `q`.
pub open spec fn class_quads_are(qs: Seq<QuadView>, q: QuadView) -> bool {
    forall|i: int| 0 <= i < qs.len() && (#[trigger] qs[i]).object == action_class_term() ==> qs[i] == q
}

proof fn lemma_class_quads_add(a: Seq<QuadView>, b: Seq<QuadView>, q: QuadView)
    requires
        class_quads_are(a, q),
        class_quads_are(b, q),
    ensures
        class_quads_are(a + b, q),
{
    assert forall|i: int| 0 <= i < (a + b).len() && (#[trigger] (a + b)[i]).object == action_class_term() implies (a
        + b)[i] == q by {
        if i >= a.len() {
            assert((a + b)[i] == b[i - a.len()]);
        }
    }
}

/// The only quad describing an action whose object is the class
/// `actions:Action` is the one typing the action.
proof fn lemma_action_class_quads(a: ActionView, g: Option<Seq<char>>)
    ensures
        class_quads_are(action_quads(a, g), action_type_quad(a, g)),
{
    lemma_not_action_class();
    lemma_requires_context_nc(uuid_node(a.id), match a.contexts { Some(c) => c, None => Seq::empty() }, g);
    lemma_successor_nc(uuid_node(a.id), depends_on(a), g);
    let tq = action_type_quad(a, g);
    let p0 = seq![
        qv(uuid_node(a.id), RDF_NS@ + "type"@, TermView::Iri(act("Action"@)), g),
        qv(uuid_node(a.id), act("hasUUID"@), simple_literal_view(uuid_text(a.id)), g),
        qv(uuid_node(a.id), RDFS_NS@ + "label"@, simple_literal_view(a.name), g),
    ];
    assert(class_quads_are(p0, tq));
    let acc0 = p0;
    let p1 = opt_literal(uuid_node(a.id), RDFS_NS@ + "comment"@, a.description, g);
    assert(no_class_object(p1));
    lemma_class_quads_add(acc0, p1, tq);
    let acc1 = acc0 + p1;
    let p2 = opt_integer(uuid_node(a.id), act("hasPriority"@), a.priority, g);
    assert(no_class_object(p2));
    lemma_class_quads_add(acc1, p2, tq);
    let acc2 = acc1 + p2;
    let p3 = requires_context_quads(uuid_node(a.id), match a.contexts { Some(c) => c, None => Seq::empty() }, g);
    assert(no_class_object(p3));
    lemma_class_quads_add(acc2, p3, tq);
    let acc3 = acc2 + p3;
    let p4 = opt_uuid(uuid_node(a.id), BFO_NS@ + BFO_PART_OF@, a.parent_id, g);
    assert(no_class_object(p4));
    lemma_class_quads_add(acc3, p4, tq);
    let acc4 = acc3 + p4;
    let p5 = successor_quads(uuid_node(a.id), depends_on(a), g);
    assert(no_class_object(p5));
    lemma_class_quads_add(acc4, p5, tq);
    let acc5 = acc4 + p5;
    let p6 = opt_literal(uuid_node(a.id), act("hasAlias"@), a.alias, g);
    assert(no_class_object(p6));
    lemma_class_quads_add(acc5, p6, tq);
    let acc6 = acc5 + p6;
    let p7 = (if a.is_sequential == Some(true) {
        seq![qv(uuid_node(a.id), act("hasSequentialChildren"@), xsd_literal_view("true"@, "boolean"@), g)]
    } else {
        Seq::empty()
    });
    assert(no_class_object(p7));
    lemma_class_quads_add(acc6, p7, tq);
    let acc7 = acc6 + p7;
    let p8 = opt_uuid(uuid_node(a.id), CCO_NS@ + CCO_PRESCRIBED_BY@, a.plan_id, g);
    assert(no_class_object(p8));
    lemma_class_quads_add(acc7, p8, tq);
    let acc8 = acc7 + p8;
    let p9 = opt_literal(uuid_node(a.id), act("hasExternalScheduleId"@), a.external_schedule_id, g);
    assert(no_class_object(p9));
    lemma_class_quads_add(acc8, p9, tq);
    let acc9 = acc8 + p9;
    let p10 = opt_literal(uuid_node(a.id), act("hasExternalOccurrenceKey"@), a.external_occurrence_key, g);
    assert(no_class_object(p10));
    lemma_class_quads_add(acc9, p10, tq);
    let acc10 = acc9 + p10;
    let p11 = seq![qv(uuid_node(a.id), CCO_NS@ + CCO_STATUS_PROP@, TermView::Iri(act(phase_name(a.state))), g)];
    assert(no_class_object(p11));
    lemma_class_quads_add(acc10, p11, tq);
    let acc11 = acc10 + p11;
    let p12 = opt_time(uuid_node(a.id), act("hasScheduledDateTime"@), a.scheduled_at, g);
    assert(no_class_object(p12));
    lemma_class_quads_add(acc11, p12, tq);
    let acc12 = acc11 + p12;
    let p13 = opt_time(uuid_node(a.id), act("hasDueDateTime"@), a.due_date, g);
    assert(no_class_object(p13));
    lemma_class_quads_add(acc12, p13, tq);
    let acc13 = acc12 + p13;
    let p14 = opt_integer(uuid_node(a.id), act("hasDurationMinutes"@), a.duration, g);
    assert(no_class_object(p14));
    lemma_class_quads_add(acc13, p14, tq);
    let acc14 = acc13 + p14;
    let p15 = opt_time(uuid_node(a.id), act("hasCompletedDateTime"@), a.completed_at, g);
    assert(no_class_object(p15));
    lemma_class_quads_add(acc14, p15, tq);
    let acc15 = acc14 + p15;
    let p16 = opt_time(uuid_node(a.id), act("hasCreatedDateTime"@), a.created_at, g);
    assert(no_class_object(p16));
    lemma_class_quads_add(acc15, p16, tq);
    let acc16 = acc15 + p16;
    assert(action_quads(a, g) == acc16);
}

/// Every quad of a run of actions whose object is the class `actions:Action`
/// types one of the actions.
proof fn lemma_actions_class_quads(acts: Seq<ActionView>, g: Option<Seq<char>>)
    ensures
        forall|i: int|
            0 <= i < actions_quads(acts, g).len() && (#[trigger] actions_quads(acts, g)[i]).object
                == action_class_term() ==> exists|k: int| 0 <= k < acts.len() && actions_quads(acts, g)[i] == action_type_quad(#[trigger] acts[k], g),
    decreases acts.len(),
{
    if acts.len() > 0 {
        let rest = acts.drop_last();
        lemma_actions_class_quads(rest, g);
        lemma_action_class_quads(acts.last(), g);
        let a = actions_quads(rest, g);
        let b = action_quads(acts.last(), g);
        assert(actions_quads(acts, g) == a + b);
        assert forall|i: int|
            0 <= i < (a + b).len() && (#[trigger] (a + b)[i]).object == action_class_term() implies exists|k: int|
                0 <= k < acts.len() && (a + b)[i] == action_type_quad(#[trigger] acts[k], g) by {
            if i < a.len() {
                assert((a + b)[i] == a[i]);
                let k = choose|k: int| 0 <= k < rest.len() && a[i] == action_type_quad(#[trigger] rest[k], g);
                assert(acts[k] == rest[k]);
            } else {
                assert((a + b)[i] == b[i - a.len()]);
                assert(acts[acts.len() - 1] == acts.last());
            }
        }
    }
}

/// Every quad of a model whose object is the class `actions:Action` types one
/// of the model's actions.
pub proof fn lemma_model_class_quads_type_actions(
    m: Seq<CharterView>,
    h: Option<Seq<(Seq<char>, Seq<Seq<char>>)>>,
    ns: u128,
    g: Option<Seq<char>>,
)
    ensures
        forall|i: int|
            0 <= i < model_quads(m, h, ns, g).len() && (#[trigger] model_quads(m, h, ns, g)[i]).object
                == action_class_term() ==> exists|k: int|
                0 <= k < all_actions(m).len() && model_quads(m, h, ns, g)[i] == action_type_quad(#[trigger] all_actions(m)[k], g),
{
    let acts = all_actions(m);
    let a = charters_quads(m, m, ns, g);
    let b = actions_quads(acts, g);
    let c = charters_chain_quads(m, g);
    let d = match h {
        Some(hs) => hierarchy_quads(hs, g),
        None => Seq::empty(),
    };
    lemma_charters_quads_nc(m, m, ns, g);
    lemma_actions_class_quads(acts, g);
    lemma_charters_chain_nc(m, g);
    if let Some(hs) = h {
        lemma_hierarchy_nc(hs, g);
    }
    assert(no_class_object(d));
    let q = model_quads(m, h, ns, g);
    assert(q == a + b + c + d);
    assert forall|i: int| 0 <= i < q.len() && (#[trigger] q[i]).object == action_class_term() implies exists|k: int|
        0 <= k < acts.len() && q[i] == action_type_quad(#[trigger] acts[k], g) by {
        if i < a.len() {
            assert(q[i] == a[i]);
        } else if i < a.len() + b.len() {
            assert(q[i] == b[i - a.len()]);
        } else if i < a.len() + b.len() + c.len() {
            assert(q[i] == c[i - a.len() - b.len()]);
        } else {
            assert(q[i] == d[i - a.len() - b.len() - c.len()]);
        }
    }
}

/// A sequence holds what either part of a concatenation holds.
proof fn lemma_contains_add<A>(x: Seq<A>, y: Seq<A>, q: A)
    ensures
        x.contains(q) ==> (x + y).contains(q),
        y.contains(q) ==> (x + y).contains(q),
{
    if x.contains(q) {
        let i = choose|i: int| 0 <= i < x.len() && x[i] == q;
        assert((x + y)[i] == q);
    }
    if y.contains(q) {
        let i = choose|i: int| 0 <= i < y.len() && y[i] == q;
        assert((x + y)[x.len() + i] == q);
    }
}

/// The quad giving the due date `t` of the action `a` in the graph `g`.
pub open spec fn due_date_quad(a: ActionView, t: crate::domain::Timestamp, g: Option<Seq<char>>) -> QuadView {
    QuadView {
        subject: TermView::Iri(uuid_iri(a.id)),
        predicate: ACTIONS_NS@ + "hasDueDateTime"@,
        object: TermView::Literal(t.text(), XSD_NS@ + "dateTime"@, None),
        graph: g,
    }
}

/// The quads describing an action carry its due date.
proof fn lemma_action_quads_due_date(a: ActionView, g: Option<Seq<char>>)
    ensures
        a.due_date matches Some(t) ==> action_quads(a, g).contains(due_date_quad(a, t, g)),
{
    if let Some(t) = a.due_date {
        let q = due_date_quad(a, t, g);
        let p0 = seq![
            qv(uuid_node(a.id), RDF_NS@ + "type"@, TermView::Iri(act("Action"@)), g),
            qv(uuid_node(a.id), act("hasUUID"@), simple_literal_view(uuid_text(a.id)), g),
            qv(uuid_node(a.id), RDFS_NS@ + "label"@, simple_literal_view(a.name), g),
        ];
        let acc0 = p0;
        let p1 = opt_literal(uuid_node(a.id), RDFS_NS@ + "comment"@, a.description, g);
        let acc1 = acc0 + p1;
        let p2 = opt_integer(uuid_node(a.id), act("hasPriority"@), a.priority, g);
        let acc2 = acc1 + p2;
        let p3 = requires_context_quads(uuid_node(a.id), match a.contexts { Some(c) => c, None => Seq::empty() }, g);
        let acc3 = acc2 + p3;
        let p4 = opt_uuid(uuid_node(a.id), BFO_NS@ + BFO_PART_OF@, a.parent_id, g);
        let acc4 = acc3 + p4;
        let p5 = successor_quads(uuid_node(a.id), depends_on(a), g);
        let acc5 = acc4 + p5;
        let p6 = opt_literal(uuid_node(a.id), act("hasAlias"@), a.alias, g);
        let acc6 = acc5 + p6;
        let p7 = (if a.is_sequential == Some(true) {
            seq![qv(uuid_node(a.id), act("hasSequentialChildren"@), xsd_literal_view("true"@, "boolean"@), g)]
        } else {
            Seq::empty()
        });
        let acc7 = acc6 + p7;
        let p8 = opt_uuid(uuid_node(a.id), CCO_NS@ + CCO_PRESCRIBED_BY@, a.plan_id, g);
        let acc8 = acc7 + p8;
        let p9 = opt_literal(uuid_node(a.id), act("hasExternalScheduleId"@), a.external_schedule_id, g);
        let acc9 = acc8 + p9;
        let p10 = opt_literal(uuid_node(a.id), act("hasExternalOccurrenceKey"@), a.external_occurrence_key, g);
        let acc10 = acc9 + p10;
        let p11 = seq![qv(uuid_node(a.id), CCO_NS@ + CCO_STATUS_PROP@, TermView::Iri(act(phase_name(a.state))), g)];
        let acc11 = acc10 + p11;
        let p12 = opt_time(uuid_node(a.id), act("hasScheduledDateTime"@), a.scheduled_at, g);
        let acc12 = acc11 + p12;
        let p13 = opt_time(uuid_node(a.id), act("hasDueDateTime"@), a.due_date, g);
        assert(p13[0] == q);
        lemma_contains_add(acc12, p13, q);
        let acc13 = acc12 + p13;
        let p14 = opt_integer(uuid_node(a.id), act("hasDurationMinutes"@), a.duration, g);
        lemma_contains_add(acc13, p14, q);
        let acc14 = acc13 + p14;
        let p15 = opt_time(uuid_node(a.id), act("hasCompletedDateTime"@), a.completed_at, g);
        lemma_contains_add(acc14, p15, q);
        let acc15 = acc14 + p15;
        let p16 = opt_time(uuid_node(a.id), act("hasCreatedDateTime"@), a.created_at, g);
        lemma_contains_add(acc15, p16, q);
        let acc16 = acc15 + p16;
        assert(action_quads(a, g) == acc16);
    }
}

/// The quads of a run of actions hold those of each action.
proof fn lemma_actions_quads_hold(acts: Seq<ActionView>, g: Option<Seq<char>>, k: int, q: QuadView)
    requires
        0 <= k < acts.len(),
        action_quads(acts[k], g).contains(q),
    ensures
        actions_quads(acts, g).contains(q),
    decreases acts.len(),
{
    let rest = acts.drop_last();
    if k < acts.len() - 1 {
        assert(rest[k] == acts[k]);
        lemma_actions_quads_hold(rest, g, k, q);
        lemma_contains_add(actions_quads(rest, g), action_quads(acts.last(), g), q);
    } else {
        lemma_contains_add(actions_quads(rest, g), action_quads(acts.last(), g), q);
    }
}

/// Loading a model gives every action with a due date the quad
/// `<urn:uuid:id> actions:hasDueDateTime "t"^^xsd:dateTime` of that due date.
pub proof fn lemma_model_gives_due_dates(
    m: Seq<CharterView>,
    h: Option<Seq<(Seq<char>, Seq<Seq<char>>)>>,
    ns: u128,
    g: Option<Seq<char>>,
)
    ensures
        forall|k: int|
            0 <= k < all_actions(m).len() ==> ((#[trigger] all_actions(m)[k]).due_date matches Some(t)
                ==> model_quads(m, h, ns, g).contains(due_date_quad(all_actions(m)[k], t, g))),
{
    let acts = all_actions(m);
    assert forall|k: int|
        0 <= k < acts.len() && (#[trigger] acts[k]).due_date is Some implies model_quads(m, h, ns, g).contains(
            due_date_quad(acts[k], acts[k].due_date->Some_0, g),
        ) by {
        let t = acts[k].due_date->Some_0;
        let q = due_date_quad(acts[k], t, g);
        lemma_action_quads_due_date(acts[k], g);
        lemma_actions_quads_hold(acts, g, k, q);
        let a = charters_quads(m, m, ns, g);
        let b = actions_quads(acts, g);
        let c = charters_chain_quads(m, g);
        let d = match h {
            Some(hs) => hierarchy_quads(hs, g),
            None => Seq::empty(),
        };
        lemma_contains_add(a, b, q);
        lemma_contains_add(a + b, c, q);
        lemma_contains_add(a + b + c, d, q);
        assert(model_quads(m, h, ns, g) == a + b + c + d);
    }
}

/// The predicate `actions:hasDueDateTime`.
pub open spec fn due_pred() -> Seq<char> {
    act("hasDueDateTime"@)
}

/// The predicates a model's quads use other than `actions:hasDueDateTime`.
proof fn lemma_not_due_pred()
    ensures
        RDF_NS@ + "type"@ != due_pred(),
        RDFS_NS@ + "label"@ != due_pred(),
        RDFS_NS@ + "comment"@ != due_pred(),
        BFO_NS@ + BFO_PART_OF@ != due_pred(),
        BFO_NS@ + BFO_HAS_PART@ != due_pred(),
        CCO_NS@ + CCO_IS_SUCCESSOR_OF@ != due_pred(),
        CCO_NS@ + CCO_PRESCRIBED_BY@ != due_pred(),
        CCO_NS@ + CCO_PRESCRIBES@ != due_pred(),
        CCO_NS@ + CCO_STATUS_PROP@ != due_pred(),
        act("hasUUID"@) != due_pred(),
        act("hasPriority"@) != due_pred(),
        act("hasContextIdentifier"@) != due_pred(),
        act("requiresContext"@) != due_pred(),
        act("hasAlias"@) != due_pred(),
        act("hasSequentialChildren"@) != due_pred(),
        act("hasExternalScheduleId"@) != due_pred(),
        act("hasExternalOccurrenceKey"@) != due_pred(),
        act("hasScheduledDateTime"@) != due_pred(),
        act("hasDurationMinutes"@) != due_pred(),
        act("hasCompletedDateTime"@) != due_pred(),
        act("hasCreatedDateTime"@) != due_pred(),
        act("hasRecurrenceRule"@) != due_pred(),
        act("hasDueRecurrenceRule"@) != due_pred(),
        act("hasTemplateName"@) != due_pred(),
        act("hasCharterState"@) != due_pred(),
        act("hasSubCharter"@) != due_pred(),
        act("contextBroader"@) != due_pred(),
        act("contextNarrower"@) != due_pred(),
{
    reveal_strlit("BFO_0000050");
    reveal_strlit("BFO_0000051");
    reveal_strlit("comment");
    reveal_strlit("contextBroader");
    reveal_strlit("contextNarrower");
    reveal_strlit("hasAlias");
    reveal_strlit("hasCharterState");
    reveal_strlit("hasCompletedDateTime");
    reveal_strlit("hasContextIdentifier");
    reveal_strlit("hasCreatedDateTime");
    reveal_strlit("hasDueDateTime");
    reveal_strlit("hasDueRecurrenceRule");
    reveal_strlit("hasDurationMinutes");
    reveal_strlit("hasExternalOccurrenceKey");
    reveal_strlit("hasExternalScheduleId");
    reveal_strlit("hasPriority");
    reveal_strlit("hasRecurrenceRule");
    reveal_strlit("hasScheduledDateTime");
    reveal_strlit("hasSequentialChildren");
    reveal_strlit("hasSubCharter");
    reveal_strlit("hasTemplateName");
    reveal_strlit("hasUUID");
    reveal_strlit("http://purl.obolibrary.org/obo/");
    reveal_strlit("http://www.w3.org/1999/02/22-rdf-syntax-ns#");
    reveal_strlit("http://www.w3.org/2000/01/rdf-schema#");
    reveal_strlit("https://clearhead.us/vocab/actions/v4#");
    reveal_strlit("https://www.commoncoreontologies.org/");
    reveal_strlit("label");
    reveal_strlit("ont00001775");
    reveal_strlit("ont00001868");
    reveal_strlit("ont00001920");
    reveal_strlit("ont00001942");
    reveal_strlit("requiresContext");
    reveal_strlit("type");
    assert(due_pred().len() == 52);
    assert(act("contextBroader"@)[38] != due_pred()[38]);
}

/// Whether no quad of `qs` has the predicate `actions:hasDueDateTime`.
pub open spec fn no_due_pred(qs: Seq<QuadView>) -> bool {
    forall|i: int| 0 <= i < qs.len() ==> (#[trigger] qs[i]).predicate != due_pred()
}

proof fn lemma_no_due_pred_add(a: Seq<QuadView>, b: Seq<QuadView>)
    requires
        no_due_pred(a),
        no_due_pred(b),
    ensures
        no_due_pred(a + b),
{
    assert forall|i: int| 0 <= i < (a + b).len() implies (#[trigger] (a + b)[i]).predicate != due_pred() by {
        if i >= a.len() {
            assert((a + b)[i] == b[i - a.len()]);
        }
    }
}

proof fn lemma_context_node_quads_ndp(tag: Seq<char>, g: Option<Seq<char>>)
    ensures
        no_due_pred(context_node_quads(tag, g)),
{
    lemma_not_due_pred();
}

proof fn lemma_requires_context_ndp(s: TermView, tags: Seq<Seq<char>>, g: Option<Seq<char>>)
    ensures
        no_due_pred(requires_context_quads(s, tags, g)),
    decreases tags.len(),
{
    lemma_not_due_pred();
    if tags.len() > 0 {
        let t = tags.last();
        lemma_requires_context_ndp(s, tags.drop_last(), g);
        lemma_context_node_quads_ndp(t, g);
        lemma_no_due_pred_add(requires_context_quads(s, tags.drop_last(), g), context_node_quads(t, g));
        lemma_no_due_pred_add(
            requires_context_quads(s, tags.drop_last(), g) + context_node_quads(t, g),
            seq![qv(s, act("requiresContext"@), context_node(t), g)],
        );
    }
}

proof fn lemma_successor_ndp(s: TermView, ids: Seq<u128>, g: Option<Seq<char>>)
    ensures
        no_due_pred(successor_quads(s, ids, g)),
    decreases ids.len(),
{
    lemma_not_due_pred();
    if ids.len() > 0 {
        lemma_successor_ndp(s, ids.drop_last(), g);
        lemma_no_due_pred_add(
            successor_quads(s, ids.drop_last(), g),
            seq![qv(s, CCO_NS@ + CCO_IS_SUCCESSOR_OF@, uuid_node(ids.last()), g)],
        );
    }
}

proof fn lemma_prescribes_ndp(p: TermView, plan_id: u128, acts: Seq<ActionView>, g: Option<Seq<char>>)
    ensures
        no_due_pred(prescribes_quads(p, plan_id, acts, g)),
    decreases acts.len(),
{
    lemma_not_due_pred();
    if acts.len() > 0 {
        lemma_prescribes_ndp(p, plan_id, acts.drop_last(), g);
        lemma_no_due_pred_add(
            prescribes_quads(p, plan_id, acts.drop_last(), g),
            if acts.last().plan_id == Some(plan_id) {
                seq![qv(p, CCO_NS@ + CCO_PRESCRIBES@, uuid_node(acts.last().id), g)]
            } else {
                Seq::empty()
            },
        );
    }
}

proof fn lemma_plan_quads_ndp(pl: PlanView, acts: Seq<ActionView>, g: Option<Seq<char>>)
    ensures
        no_due_pred(plan_quads(pl, acts, g)),
{
    lemma_not_due_pred();
    lemma_prescribes_ndp(uuid_node(pl.id), pl.id, acts, g);
    let p0 = seq![
        qv(uuid_node(pl.id), RDF_NS@ + "type"@, TermView::Iri(CCO_NS@ + CCO_PLAN@), g),
        qv(uuid_node(pl.id), act("hasUUID"@), simple_literal_view(uuid_text(pl.id)), g),
        qv(uuid_node(pl.id), RDFS_NS@ + "label"@, simple_literal_view(pl.name), g),
    ];
    assert(no_due_pred(p0));
    let acc0 = p0;
    let p1 = opt_literal(uuid_node(pl.id), RDFS_NS@ + "comment"@, pl.description, g);
    assert(no_due_pred(p1));
    lemma_no_due_pred_add(acc0, p1);
    let acc1 = acc0 + p1;
    let p2 = opt_literal(uuid_node(pl.id), act("hasRecurrenceRule"@), opt_rule(pl.recurrence), g);
    assert(no_due_pred(p2));
    lemma_no_due_pred_add(acc1, p2);
    let acc2 = acc1 + p2;
    let p3 = opt_literal(uuid_node(pl.id), act("hasDueRecurrenceRule"@), opt_rule(pl.due_recurrence), g);
    assert(no_due_pred(p3));
    lemma_no_due_pred_add(acc2, p3);
    let acc3 = acc2 + p3;
    let p4 = opt_literal(uuid_node(pl.id), act("hasExternalScheduleId"@), pl.external_id, g);
    assert(no_due_pred(p4));
    lemma_no_due_pred_add(acc3, p4);
    let acc4 = acc3 + p4;
    let p5 = opt_literal(uuid_node(pl.id), act("hasTemplateName"@), pl.template_name, g);
    assert(no_due_pred(p5));
    lemma_no_due_pred_add(acc4, p5);
    let acc5 = acc4 + p5;
    let p6 = prescribes_quads(uuid_node(pl.id), pl.id, acts, g);
    assert(no_due_pred(p6));
    lemma_no_due_pred_add(acc5, p6);
    let acc6 = acc5 + p6;
    let p7 = opt_time(uuid_node(pl.id), act("hasScheduledDateTime"@), pl.dtstart, g);
    assert(no_due_pred(p7));
    lemma_no_due_pred_add(acc6, p7);
    let acc7 = acc6 + p7;
    assert(plan_quads(pl, acts, g) == acc7);
}

proof fn lemma_plan_parts_ndp(c: TermView, plans: Seq<PlanView>, acts: Seq<ActionView>, g: Option<Seq<char>>)
    ensures
        no_due_pred(plan_parts_quads(c, plans, acts, g)),
    decreases plans.len(),
{
    lemma_not_due_pred();
    if plans.len() > 0 {
        lemma_plan_parts_ndp(c, plans.drop_last(), acts, g);
        lemma_plan_quads_ndp(plans.last(), acts, g);
        let a = plan_parts_quads(c, plans.drop_last(), acts, g);
        let b = seq![qv(c, BFO_NS@ + BFO_HAS_PART@, uuid_node(plans.last().id), g)];
        lemma_no_due_pred_add(a, b);
        lemma_no_due_pred_add(a + b, plan_quads(plans.last(), acts, g));
    }
}

proof fn lemma_loose_ndp(c: TermView, acts: Seq<ActionView>, g: Option<Seq<char>>)
    ensures
        no_due_pred(loose_action_quads(c, acts, g)),
    decreases acts.len(),
{
    lemma_not_due_pred();
    if acts.len() > 0 {
        lemma_loose_ndp(c, acts.drop_last(), g);
        lemma_no_due_pred_add(
            loose_action_quads(c, acts.drop_last(), g),
            if acts.last().plan_id is None {
                seq![qv(c, BFO_NS@ + BFO_HAS_PART@, uuid_node(acts.last().id), g)]
            } else {
                Seq::empty()
            },
        );
    }
}

proof fn lemma_charter_quads_ndp(ch: CharterView, all: Seq<CharterView>, ns: u128, g: Option<Seq<char>>)
    ensures
        no_due_pred(charter_quads(ch, all, ns, g)),
{
    lemma_not_due_pred();
    lemma_plan_parts_ndp(uuid_node(ch.id), ch.plans, ch.actions, g);
    lemma_loose_ndp(uuid_node(ch.id), ch.actions, g);
    let p0 = seq![
        qv(uuid_node(ch.id), RDF_NS@ + "type"@, TermView::Iri(act("Charter"@)), g),
        qv(uuid_node(ch.id), RDFS_NS@ + "label"@, simple_literal_view(ch.title), g),
        qv(uuid_node(ch.id), act("hasUUID"@), simple_literal_view(uuid_text(ch.id)), g),
    ];
    assert(no_due_pred(p0));
    let acc0 = p0;
    let p1 = opt_literal(uuid_node(ch.id), RDFS_NS@ + "comment"@, ch.description, g);
    assert(no_due_pred(p1));
    lemma_no_due_pred_add(acc0, p1);
    let acc1 = acc0 + p1;
    let p2 = opt_literal(uuid_node(ch.id), act("hasAlias"@), ch.alias, g);
    assert(no_due_pred(p2));
    lemma_no_due_pred_add(acc1, p2);
    let acc2 = acc1 + p2;
    let p3 = (match ch.state {
        Some(st) => seq![qv(uuid_node(ch.id), act("hasCharterState"@), simple_literal_view(charter_state_name(st)), g)],
        None => Seq::empty(),
    });
    assert(no_due_pred(p3));
    lemma_no_due_pred_add(acc2, p3);
    let acc3 = acc2 + p3;
    let p4 = (match ch.parent {
        Some(pt) => seq![qv(uuid_node(parent_charter_id(all, pt, ns)), act("hasSubCharter"@), uuid_node(ch.id), g)],
        None => Seq::empty(),
    });
    assert(no_due_pred(p4));
    lemma_no_due_pred_add(acc3, p4);
    let acc4 = acc3 + p4;
    let p5 = plan_parts_quads(uuid_node(ch.id), ch.plans, ch.actions, g);
    assert(no_due_pred(p5));
    lemma_no_due_pred_add(acc4, p5);
    let acc5 = acc4 + p5;
    let p6 = loose_action_quads(uuid_node(ch.id), ch.actions, g);
    assert(no_due_pred(p6));
    lemma_no_due_pred_add(acc5, p6);
    let acc6 = acc5 + p6;
    assert(charter_quads(ch, all, ns, g) == acc6);
}

proof fn lemma_charters_quads_ndp(cs: Seq<CharterView>, all: Seq<CharterView>, ns: u128, g: Option<Seq<char>>)
    ensures
        no_due_pred(charters_quads(cs, all, ns, g)),
    decreases cs.len(),
{
    if cs.len() > 0 {
        lemma_charters_quads_ndp(cs.drop_last(), all, ns, g);
        lemma_charter_quads_ndp(cs.last(), all, ns, g);
        lemma_no_due_pred_add(charters_quads(cs.drop_last(), all, ns, g), charter_quads(cs.last(), all, ns, g));
    }
}

proof fn lemma_chain_ndp(ids: Seq<u128>, g: Option<Seq<char>>)
    ensures
        no_due_pred(chain_quads(ids, g)),
    decreases ids.len(),
{
    lemma_not_due_pred();
    if ids.len() >= 2 {
        lemma_chain_ndp(ids.drop_last(), g);
        lemma_no_due_pred_add(
            chain_quads(ids.drop_last(), g),
            seq![qv(uuid_node(ids.last()), CCO_NS@ + CCO_IS_SUCCESSOR_OF@, uuid_node(ids[ids.len() - 2]), g)],
        );
    }
}

proof fn lemma_sequential_ndp(parents: Seq<ActionView>, acts: Seq<ActionView>, g: Option<Seq<char>>)
    ensures
        no_due_pred(sequential_quads(parents, acts, g)),
    decreases parents.len(),
{
    if parents.len() > 0 {
        lemma_sequential_ndp(parents.drop_last(), acts, g);
        lemma_chain_ndp(children_ids(acts, parents.last().id), g);
        lemma_no_due_pred_add(
            sequential_quads(parents.drop_last(), acts, g),
            if parents.last().is_sequential == Some(true) {
                chain_quads(children_ids(acts, parents.last().id), g)
            } else {
                Seq::empty()
            },
        );
    }
}

proof fn lemma_charters_chain_ndp(cs: Seq<CharterView>, g: Option<Seq<char>>)
    ensures
        no_due_pred(charters_chain_quads(cs, g)),
    decreases cs.len(),
{
    if cs.len() > 0 {
        lemma_charters_chain_ndp(cs.drop_last(), g);
        lemma_sequential_ndp(cs.last().actions, cs.last().actions, g);
        lemma_no_due_pred_add(
            charters_chain_quads(cs.drop_last(), g),
            sequential_quads(cs.last().actions, cs.last().actions, g),
        );
    }
}

proof fn lemma_child_context_ndp(p: Seq<char>, children: Seq<Seq<char>>, g: Option<Seq<char>>)
    ensures
        no_due_pred(child_context_quads(p, children, g)),
    decreases children.len(),
{
    lemma_not_due_pred();
    if children.len() > 0 {
        let c = children.last();
        lemma_child_context_ndp(p, children.drop_last(), g);
        lemma_context_node_quads_ndp(c, g);
        let a = child_context_quads(p, children.drop_last(), g);
        lemma_no_due_pred_add(a, context_node_quads(c, g));
        lemma_no_due_pred_add(
            a + context_node_quads(c, g),
            seq![
                qv(context_node(c), act("contextBroader"@), context_node(p), g),
                qv(context_node(p), act("contextNarrower"@), context_node(c), g),
            ],
        );
    }
}

proof fn lemma_hierarchy_ndp(h: Seq<(Seq<char>, Seq<Seq<char>>)>, g: Option<Seq<char>>)
    ensures
        no_due_pred(hierarchy_quads(h, g)),
    decreases h.len(),
{
    if h.len() > 0 {
        lemma_hierarchy_ndp(h.drop_last(), g);
        lemma_context_node_quads_ndp(h.last().0, g);
        lemma_child_context_ndp(h.last().0, h.last().1, g);
        let a = hierarchy_quads(h.drop_last(), g);
        lemma_no_due_pred_add(a, context_node_quads(h.last().0, g));
        lemma_no_due_pred_add(a + context_node_quads(h.last().0, g), child_context_quads(h.last().0, h.last().1, g));
    }
}

/// Whether every quad of `qs` with the predicate `actions:hasDueDateTime` is
/// the due-date quad of the action `a`.
pub open spec fn due_quads_are(qs: Seq<QuadView>, a: ActionView, g: Option<Seq<char>>) -> bool {
    forall|i: int|
        0 <= i < qs.len() && (#[trigger] qs[i]).predicate == due_pred() ==> (a.due_date matches Some(t) && qs[i]
            == due_date_quad(a, t, g))
}

proof fn lemma_due_quads_add(x: Seq<QuadView>, y: Seq<QuadView>, a: ActionView, g: Option<Seq<char>>)
    requires
        due_quads_are(x, a, g),
        due_quads_are(y, a, g),
    ensures
        due_quads_are(x + y, a, g),
{
    assert forall|i: int| 0 <= i < (x + y).len() && (#[trigger] (x + y)[i]).predicate == due_pred() implies (a.due_date matches Some(t)
        && (x + y)[i] == due_date_quad(a, t, g)) by {
        if i >= x.len() {
            assert((x + y)[i] == y[i - x.len()]);
        } else {
            assert((x + y)[i] == x[i]);
        }
    }
}

proof fn lemma_no_due_quads(y: Seq<QuadView>, a: ActionView, g: Option<Seq<char>>)
    requires
        no_due_pred(y),
    ensures
        due_quads_are(y, a, g),
{
}

/// The only quad describing an action with the predicate
/// `actions:hasDueDateTime` is the one giving its due date.
#[verifier::rlimit(40)]
proof fn lemma_action_due_quads(a: ActionView, g: Option<Seq<char>>)
    ensures
        due_quads_are(action_quads(a, g), a, g),
{
    lemma_not_due_pred();
    lemma_requires_context_ndp(uuid_node(a.id), match a.contexts { Some(c) => c, None => Seq::empty() }, g);
    lemma_successor_ndp(uuid_node(a.id), depends_on(a), g);
    let p0 = seq![
        qv(uuid_node(a.id), RDF_NS@ + "type"@, TermView::Iri(act("Action"@)), g),
        qv(uuid_node(a.id), act("hasUUID"@), simple_literal_view(uuid_text(a.id)), g),
        qv(uuid_node(a.id), RDFS_NS@ + "label"@, simple_literal_view(a.name), g),
    ];
    assert(no_due_pred(p0));
    lemma_no_due_quads(p0, a, g);
    let acc0 = p0;
    let p1 = opt_literal(uuid_node(a.id), RDFS_NS@ + "comment"@, a.description, g);
    assert(no_due_pred(p1));
    lemma_no_due_quads(p1, a, g);
    lemma_due_quads_add(acc0, p1, a, g);
    let acc1 = acc0 + p1;
    let p2 = opt_integer(uuid_node(a.id), act("hasPriority"@), a.priority, g);
    assert(no_due_pred(p2));
    lemma_no_due_quads(p2, a, g);
    lemma_due_quads_add(acc1, p2, a, g);
    let acc2 = acc1 + p2;
    let p3 = requires_context_quads(uuid_node(a.id), match a.contexts { Some(c) => c, None => Seq::empty() }, g);
    assert(no_due_pred(p3));
    lemma_no_due_quads(p3, a, g);
    lemma_due_quads_add(acc2, p3, a, g);
    let acc3 = acc2 + p3;
    let p4 = opt_uuid(uuid_node(a.id), BFO_NS@ + BFO_PART_OF@, a.parent_id, g);
    assert(no_due_pred(p4));
    lemma_no_due_quads(p4, a, g);
    lemma_due_quads_add(acc3, p4, a, g);
    let acc4 = acc3 + p4;
    let p5 = successor_quads(uuid_node(a.id), depends_on(a), g);
    assert(no_due_pred(p5));
    lemma_no_due_quads(p5, a, g);
    lemma_due_quads_add(acc4, p5, a, g);
    let acc5 = acc4 + p5;
    let p6 = opt_literal(uuid_node(a.id), act("hasAlias"@), a.alias, g);
    assert(no_due_pred(p6));
    lemma_no_due_quads(p6, a, g);
    lemma_due_quads_add(acc5, p6, a, g);
    let acc6 = acc5 + p6;
    let p7 = (if a.is_sequential == Some(true) {
        seq![qv(uuid_node(a.id), act("hasSequentialChildren"@), xsd_literal_view("true"@, "boolean"@), g)]
    } else {
        Seq::empty()
    });
    assert(no_due_pred(p7));
    lemma_no_due_quads(p7, a, g);
    lemma_due_quads_add(acc6, p7, a, g);
    let acc7 = acc6 + p7;
    let p8 = opt_uuid(uuid_node(a.id), CCO_NS@ + CCO_PRESCRIBED_BY@, a.plan_id, g);
    assert(no_due_pred(p8));
    lemma_no_due_quads(p8, a, g);
    lemma_due_quads_add(acc7, p8, a, g);
    let acc8 = acc7 + p8;
    let p9 = opt_literal(uuid_node(a.id), act("hasExternalScheduleId"@), a.external_schedule_id, g);
    assert(no_due_pred(p9));
    lemma_no_due_quads(p9, a, g);
    lemma_due_quads_add(acc8, p9, a, g);
    let acc9 = acc8 + p9;
    let p10 = opt_literal(uuid_node(a.id), act("hasExternalOccurrenceKey"@), a.external_occurrence_key, g);
    assert(no_due_pred(p10));
    lemma_no_due_quads(p10, a, g);
    lemma_due_quads_add(acc9, p10, a, g);
    let acc10 = acc9 + p10;
    let p11 = seq![qv(uuid_node(a.id), CCO_NS@ + CCO_STATUS_PROP@, TermView::Iri(act(phase_name(a.state))), g)];
    assert(no_due_pred(p11));
    lemma_no_due_quads(p11, a, g);
    lemma_due_quads_add(acc10, p11, a, g);
    let acc11 = acc10 + p11;
    let p12 = opt_time(uuid_node(a.id), act("hasScheduledDateTime"@), a.scheduled_at, g);
    assert(no_due_pred(p12));
    lemma_no_due_quads(p12, a, g);
    lemma_due_quads_add(acc11, p12, a, g);
    let acc12 = acc11 + p12;
    let p13 = opt_time(uuid_node(a.id), act("hasDueDateTime"@), a.due_date, g);
    assert(due_quads_are(p13, a, g));
    lemma_due_quads_add(acc12, p13, a, g);
    let acc13 = acc12 + p13;
    let p14 = opt_integer(uuid_node(a.id), act("hasDurationMinutes"@), a.duration, g);
    assert(no_due_pred(p14));
    lemma_no_due_quads(p14, a, g);
    lemma_due_quads_add(acc13, p14, a, g);
    let acc14 = acc13 + p14;
    let p15 = opt_time(uuid_node(a.id), act("hasCompletedDateTime"@), a.completed_at, g);
    assert(no_due_pred(p15));
    lemma_no_due_quads(p15, a, g);
    lemma_due_quads_add(acc14, p15, a, g);
    let acc15 = acc14 + p15;
    let p16 = opt_time(uuid_node(a.id), act("hasCreatedDateTime"@), a.created_at, g);
    assert(no_due_pred(p16));
    lemma_no_due_quads(p16, a, g);
    lemma_due_quads_add(acc15, p16, a, g);
    let acc16 = acc15 + p16;
    assert(action_quads(a, g) == acc16);
}

/// Every quad of a loaded model with the predicate `actions:hasDueDateTime`
/// gives the due date of one of the model's actions: a due date is never
/// taken from another field, and an action without one gets none.
pub proof fn lemma_model_due_dates_are_due_dates(
    m: Seq<CharterView>,
    h: Option<Seq<(Seq<char>, Seq<Seq<char>>)>>,
    ns: u128,
    g: Option<Seq<char>>,
)
    ensures
        forall|i: int|
            0 <= i < model_quads(m, h, ns, g).len() && (#[trigger] model_quads(m, h, ns, g)[i]).predicate
                == ACTIONS_NS@ + "hasDueDateTime"@ ==> exists|k: int|
                0 <= k < all_actions(m).len() && (#[trigger] all_actions(m)[k]).due_date is Some
                    && model_quads(m, h, ns, g)[i] == due_date_quad(all_actions(m)[k], all_actions(m)[k].due_date->Some_0, g),
{
    let acts = all_actions(m);
    let a = charters_quads(m, m, ns, g);
    let b = actions_quads(acts, g);
    let c = charters_chain_quads(m, g);
    let d = match h {
        Some(hs) => hierarchy_quads(hs, g),
        None => Seq::empty(),
    };
    lemma_charters_quads_ndp(m, m, ns, g);
    lemma_actions_due_quads(acts, g);
    lemma_charters_chain_ndp(m, g);
    if let Some(hs) = h {
        lemma_hierarchy_ndp(hs, g);
    }
    assert(no_due_pred(d));
    let q = model_quads(m, h, ns, g);
    assert(q == a + b + c + d);
    assert forall|i: int| 0 <= i < q.len() && (#[trigger] q[i]).predicate == ACTIONS_NS@ + "hasDueDateTime"@ implies exists|k: int|
        0 <= k < acts.len() && (#[trigger] acts[k]).due_date is Some && q[i] == due_date_quad(acts[k], acts[k].due_date->Some_0, g) by {
        if i < a.len() {
            assert(q[i] == a[i]);
        } else if i < a.len() + b.len() {
            assert(q[i] == b[i - a.len()]);
        } else if i < a.len() + b.len() + c.len() {
            assert(q[i] == c[i - a.len() - b.len()]);
        } else {
            assert(q[i] == d[i - a.len() - b.len() - c.len()]);
        }
    }
}

/// Every due-date quad of a run of actions is the due-date quad of one of them.
proof fn lemma_actions_due_quads(acts: Seq<ActionView>, g: Option<Seq<char>>)
    ensures
        forall|i: int|
            0 <= i < actions_quads(acts, g).len() && (#[trigger] actions_quads(acts, g)[i]).predicate == due_pred()
                ==> exists|k: int|
                0 <= k < acts.len() && (#[trigger] acts[k]).due_date is Some && actions_quads(acts, g)[i]
                    == due_date_quad(acts[k], acts[k].due_date->Some_0, g),
    decreases acts.len(),
{
    if acts.len() > 0 {
        let rest = acts.drop_last();
        lemma_actions_due_quads(rest, g);
        lemma_action_due_quads(acts.last(), g);
        let x = actions_quads(rest, g);
        let y = action_quads(acts.last(), g);
        assert(actions_quads(acts, g) == x + y);
        assert forall|i: int| 0 <= i < (x + y).len() && (#[trigger] (x + y)[i]).predicate == due_pred() implies exists|k: int|
            0 <= k < acts.len() && (#[trigger] acts[k]).due_date is Some && (x + y)[i] == due_date_quad(acts[k], acts[k].due_date->Some_0, g) by {
            if i < x.len() {
                assert((x + y)[i] == x[i]);
                let k = choose|k: int|
                    0 <= k < rest.len() && (#[trigger] rest[k]).due_date is Some && x[i] == due_date_quad(rest[k], rest[k].due_date->Some_0, g);
                assert(acts[k] == rest[k]);
            } else {
                assert((x + y)[i] == y[i - x.len()]);
                assert(acts[acts.len() - 1] == acts.last());
            }
        }
    }
}

/// Whether every quad of `qs` is in the graph `g`.
pub open spec fn all_in_graph(qs: Seq<QuadView>, g: Option<Seq<char>>) -> bool {
    forall|i: int| 0 <= i < qs.len() ==> (#[trigger] qs[i]).graph == g
}

proof fn lemma_in_graph_add(a: Seq<QuadView>, b: Seq<QuadView>, g: Option<Seq<char>>)
    requires
        all_in_graph(a, g),
        all_in_graph(b, g),
    ensures
        all_in_graph(a + b, g),
{
    assert forall|i: int| 0 <= i < (a + b).len() implies (#[trigger] (a + b)[i]).graph == g by {
        if i >= a.len() {
            assert((a + b)[i] == b[i - a.len()]);
        }
    }
}

proof fn lemma_context_quads_in_graph(s: TermView, tags: Seq<Seq<char>>, g: Option<Seq<char>>)
    ensures
        all_in_graph(requires_context_quads(s, tags, g), g),
    decreases tags.len(),
{
    if tags.len() > 0 {
        lemma_context_quads_in_graph(s, tags.drop_last(), g);
        let t = tags.last();
        lemma_in_graph_add(requires_context_quads(s, tags.drop_last(), g), context_node_quads(t, g), g);
        lemma_in_graph_add(
            requires_context_quads(s, tags.drop_last(), g) + context_node_quads(t, g),
            seq![qv(s, act("requiresContext"@), context_node(t), g)],
            g,
        );
    }
}

proof fn lemma_successor_quads_in_graph(s: TermView, ids: Seq<u128>, g: Option<Seq<char>>)
    ensures
        all_in_graph(successor_quads(s, ids, g), g),
    decreases ids.len(),
{
    if ids.len() > 0 {
        lemma_successor_quads_in_graph(s, ids.drop_last(), g);
        lemma_in_graph_add(
            successor_quads(s, ids.drop_last(), g),
            seq![qv(s, CCO_NS@ + CCO_IS_SUCCESSOR_OF@, uuid_node(ids.last()), g)],
            g,
        );
    }
}

/// Every quad describing an action is in the graph it was built for.
pub proof fn lemma_action_quads_in_graph(a: ActionView, g: Option<Seq<char>>)
    ensures
        all_in_graph(action_quads(a, g), g),
{
    let s = uuid_node(a.id);
    lemma_context_quads_in_graph(s, match a.contexts { Some(c) => c, None => Seq::empty() }, g);
    lemma_successor_quads_in_graph(s, depends_on(a), g);
    let p0 = seq![
        qv(s, RDF_NS@ + "type"@, TermView::Iri(act("Action"@)), g),
        qv(s, act("hasUUID"@), simple_literal_view(uuid_text(a.id)), g),
        qv(s, RDFS_NS@ + "label"@, simple_literal_view(a.name), g),
    ];
    assert(all_in_graph(p0, g));
    let acc0 = p0;
    let p1 = opt_literal(s, RDFS_NS@ + "comment"@, a.description, g);
    assert(all_in_graph(p1, g));
    lemma_in_graph_add(acc0, p1, g);
    let acc1 = acc0 + p1;
    let p2 = opt_integer(s, act("hasPriority"@), a.priority, g);
    assert(all_in_graph(p2, g));
    lemma_in_graph_add(acc1, p2, g);
    let acc2 = acc1 + p2;
    let p3 = requires_context_quads(s, match a.contexts { Some(c) => c, None => Seq::empty() }, g);
    assert(all_in_graph(p3, g));
    lemma_in_graph_add(acc2, p3, g);
    let acc3 = acc2 + p3;
    let p4 = opt_uuid(s, BFO_NS@ + BFO_PART_OF@, a.parent_id, g);
    assert(all_in_graph(p4, g));
    lemma_in_graph_add(acc3, p4, g);
    let acc4 = acc3 + p4;
    let p5 = successor_quads(s, depends_on(a), g);
    assert(all_in_graph(p5, g));
    lemma_in_graph_add(acc4, p5, g);
    let acc5 = acc4 + p5;
    let p6 = opt_literal(s, act("hasAlias"@), a.alias, g);
    assert(all_in_graph(p6, g));
    lemma_in_graph_add(acc5, p6, g);
    let acc6 = acc5 + p6;
    let p7 = (if a.is_sequential == Some(true) {
        seq![qv(s, act("hasSequentialChildren"@), xsd_literal_view("true"@, "boolean"@), g)]
    } else {
        Seq::empty()
    });
    assert(all_in_graph(p7, g));
    lemma_in_graph_add(acc6, p7, g);
    let acc7 = acc6 + p7;
    let p8 = opt_uuid(s, CCO_NS@ + CCO_PRESCRIBED_BY@, a.plan_id, g);
    assert(all_in_graph(p8, g));
    lemma_in_graph_add(acc7, p8, g);
    let acc8 = acc7 + p8;
    let p9 = opt_literal(s, act("hasExternalScheduleId"@), a.external_schedule_id, g);
    assert(all_in_graph(p9, g));
    lemma_in_graph_add(acc8, p9, g);
    let acc9 = acc8 + p9;
    let p10 = opt_literal(s, act("hasExternalOccurrenceKey"@), a.external_occurrence_key, g);
    assert(all_in_graph(p10, g));
    lemma_in_graph_add(acc9, p10, g);
    let acc10 = acc9 + p10;
    let p11 = seq![qv(s, CCO_NS@ + CCO_STATUS_PROP@, TermView::Iri(act(phase_name(a.state))), g)];
    assert(all_in_graph(p11, g));
    lemma_in_graph_add(acc10, p11, g);
    let acc11 = acc10 + p11;
    let p12 = opt_time(s, act("hasScheduledDateTime"@), a.scheduled_at, g);
    assert(all_in_graph(p12, g));
    lemma_in_graph_add(acc11, p12, g);
    let acc12 = acc11 + p12;
    let p13 = opt_time(s, act("hasDueDateTime"@), a.due_date, g);
    assert(all_in_graph(p13, g));
    lemma_in_graph_add(acc12, p13, g);
    let acc13 = acc12 + p13;
    let p14 = opt_integer(s, act("hasDurationMinutes"@), a.duration, g);
    assert(all_in_graph(p14, g));
    lemma_in_graph_add(acc13, p14, g);
    let acc14 = acc13 + p14;
    let p15 = opt_time(s, act("hasCompletedDateTime"@), a.completed_at, g);
    assert(all_in_graph(p15, g));
    lemma_in_graph_add(acc14, p15, g);
    let acc15 = acc14 + p15;
    let p16 = opt_time(s, act("hasCreatedDateTime"@), a.created_at, g);
    assert(all_in_graph(p16, g));
    lemma_in_graph_add(acc15, p16, g);
    let acc16 = acc15 + p16;
    assert(action_quads(a, g) == acc16);
}

/// Every quad describing a run of actions is in the graph it was built for.
pub proof fn lemma_actions_quads_in_graph(acts: Seq<ActionView>, g: Option<Seq<char>>)
    ensures
        all_in_graph(actions_quads(acts, g), g),
    decreases acts.len(),
{
    if acts.len() > 0 {
        lemma_actions_quads_in_graph(acts.drop_last(), g);
        lemma_action_quads_in_graph(acts.last(), g);
        lemma_in_graph_add(actions_quads(acts.drop_last(), g), action_quads(acts.last(), g), g);
    }
}

fn push_all_actions(out: &mut Vec<Quad>, cs: &Vec<Charter>, g: &Option<String>)
    ensures
        quads_view(final(out)@) == quads_view(old(out)@) + actions_quads(
            all_actions(crate::domain::charters_view(cs@)),
            opt_view(*g),
        ),
{
    let ghost cv = crate::domain::charters_view(cs@);
    let ghost start = quads_view(out@);
    let mut i: usize = 0;
    while i < cs.len()
        invariant
            cv == crate::domain::charters_view(cs@),
            i <= cs@.len(),
            quads_view(out@) == start + actions_quads(all_actions(cv.subrange(0, i as int)), opt_view(*g)),
        decreases cs@.len() - i,
    {
        assert(cv.subrange(0, i + 1).drop_last() == cv.subrange(0, i as int));
        assert(cv.subrange(0, i + 1).last() == cs@[i as int]@);
        push_actions(out, &cs[i].actions, g);
        proof {
            lemma_actions_quads_add(all_actions(cv.subrange(0, i as int)), cs@[i as int]@.actions, opt_view(*g));
        }
        assert(quads_view(out@) =~= start + actions_quads(all_actions(cv.subrange(0, i + 1)), opt_view(*g)));
        i = i + 1;
    }
    assert(cv.subrange(0, cs@.len() as int) == cv);
}

fn push_charter_chains(out: &mut Vec<Quad>, cs: &Vec<Charter>, g: &Option<String>)
    ensures
        quads_view(final(out)@) == quads_view(old(out)@) + charters_chain_quads(crate::domain::charters_view(cs@), opt_view(*g)),
{
    let ghost cv = crate::domain::charters_view(cs@);
    let ghost start = quads_view(out@);
    let mut i: usize = 0;
    while i < cs.len()
        invariant
            cv == crate::domain::charters_view(cs@),
            i <= cs@.len(),
            quads_view(out@) == start + charters_chain_quads(cv.subrange(0, i as int), opt_view(*g)),
        decreases cs@.len() - i,
    {
        assert(cv.subrange(0, i + 1).drop_last() == cv.subrange(0, i as int));
        assert(cv.subrange(0, i + 1).last() == cs@[i as int]@);
        push_sequential(out, &cs[i].actions, g);
        assert(quads_view(out@) =~= start + charters_chain_quads(cv.subrange(0, i + 1), opt_view(*g)));
        i = i + 1;
    }
    assert(cv.subrange(0, cs@.len() as int) == cv);
}

/// Every quad loading `model` inserts, in insertion order: each charter (with
/// its plans), each action, the implicit successor chains of sequential
/// parents, and the context hierarchies of `config` when one is given. A
/// parent charter named by title that no charter of the model carries is
/// identified by the name-based UUID of the title in `inbox_ns`.
pub fn model_quads_vec(model: &DomainModel, config: Option<&WorkspaceConfig>, inbox_ns: u128, g: &Option<String>) -> (v: Vec<Quad>)
    ensures
        quads_view(v@) == model_quads(
            model@,
            match config {
                Some(c) => Some(hierarchies_view(*c)),
                None => None,
            },
            inbox_ns,
            opt_view(*g),
        ),
{
    let table = title_table(&model.charters);
    let mut out: Vec<Quad> = Vec::new();
    push_charters(&mut out, &model.charters, &table, inbox_ns, g);
    push_all_actions(&mut out, &model.charters, g);
    push_charter_chains(&mut out, &model.charters, g);
    let ghost before = quads_view(out@);
    match config {
        Some(c) => push_hierarchy(&mut out, c, g),
        None => {},
    }
    assert(quads_view(out@) =~= model_quads(
        model@,
        match config {
            Some(c) => Some(hierarchies_view(*c)),
            None => None,
        },
        inbox_ns,
        opt_view(*g),
    ));
    out
}

/// The quads describing `acts`, action by action.
pub fn actions_quads_vec(acts: &Vec<Action>, g: &Option<String>) -> (v: Vec<Quad>)
    ensures
        quads_view(v@) == actions_quads(crate::domain::actions_view(acts@), opt_view(*g)),
{
    let mut out: Vec<Quad> = Vec::new();
    push_actions(&mut out, acts, g);
    assert(quads_view(out@) =~= actions_quads(crate::domain::actions_view(acts@), opt_view(*g)));
    out
}

/// The implicit chain of a sequential parent's children links each child
/// after the first to the child just before it, and nothing else: one
/// `cco:is_successor_of` quad per consecutive pair, in document order.
pub proof fn lemma_chain_links(ids: Seq<u128>, g: Option<Seq<char>>)
    ensures
        chain_quads(ids, g).len() == if ids.len() < 2 { 0 } else { ids.len() - 1 },
        forall|k: int|
            1 <= k < ids.len() ==> #[trigger] chain_quads(ids, g)[k - 1] == qv(
                uuid_node(ids[k]),
                CCO_NS@ + CCO_IS_SUCCESSOR_OF@,
                uuid_node(ids[k - 1]),
                g,
            ),
    decreases ids.len(),
{
    if ids.len() >= 2 {
        let d = ids.drop_last();
        lemma_chain_links(d, g);
        assert forall|k: int| 1 <= k < ids.len() implies #[trigger] chain_quads(ids, g)[k - 1] == qv(
            uuid_node(ids[k]),
            CCO_NS@ + CCO_IS_SUCCESSOR_OF@,
            uuid_node(ids[k - 1]),
            g,
        ) by {
            if k < ids.len() - 1 {
                assert(d[k] == ids[k] && d[k - 1] == ids[k - 1]);
                assert(chain_quads(d, g)[k - 1] == chain_quads(ids, g)[k - 1]);
            }
        }
    }
}

/// Every action's quads begin with its `rdf:type actions:Action` quad.
pub proof fn lemma_action_typed(a: ActionView, g: Option<Seq<char>>)
    ensures
        action_quads(a, g).len() > 0,
        action_quads(a, g)[0] == qv(uuid_node(a.id), RDF_NS@ + "type"@, TermView::Iri(act("Action"@)), g),
{
}

/// The quads of a run of actions hold each action's type quad.
pub proof fn lemma_actions_typed(acts: Seq<ActionView>, g: Option<Seq<char>>)
    ensures
        forall|i: int|
            0 <= i < acts.len() ==> actions_quads(acts, g).contains(
                qv(uuid_node(#[trigger] acts[i].id), RDF_NS@ + "type"@, TermView::Iri(act("Action"@)), g),
            ),
    decreases acts.len(),
{
    if acts.len() > 0 {
        let d = acts.drop_last();
        lemma_actions_typed(d, g);
        let prev = actions_quads(d, g);
        let last = action_quads(acts.last(), g);
        assert(actions_quads(acts, g) == prev + last);
        assert forall|i: int| 0 <= i < acts.len() implies actions_quads(acts, g).contains(
            qv(uuid_node(#[trigger] acts[i].id), RDF_NS@ + "type"@, TermView::Iri(act("Action"@)), g),
        ) by {
            let q = qv(uuid_node(acts[i].id), RDF_NS@ + "type"@, TermView::Iri(act("Action"@)), g);
            if i < acts.len() - 1 {
                assert(d[i] == acts[i]);
                assert(prev.contains(q));
                let k = choose|k: int| 0 <= k < prev.len() && prev[k] == q;
                assert((prev + last)[k] == q);
            } else {
                lemma_action_typed(acts.last(), g);
                assert((prev + last)[prev.len() as int] == q);
            }
        }
    }
}

/// Loading a model types every one of its actions as `actions:Action` in the
/// target graph.
pub proof fn lemma_model_types_every_action(
    m: Seq<CharterView>,
    h: Option<Seq<(Seq<char>, Seq<Seq<char>>)>>,
    ns: u128,
    g: Option<Seq<char>>,
)
    ensures
        forall|i: int|
            0 <= i < all_actions(m).len() ==> model_quads(m, h, ns, g).contains(
                qv(uuid_node(#[trigger] all_actions(m)[i].id), RDF_NS@ + "type"@, TermView::Iri(act("Action"@)), g),
            ),
{
    let acts = all_actions(m);
    lemma_actions_typed(acts, g);
    let a = charters_quads(m, m, ns, g);
    let b = actions_quads(acts, g);
    let c = charters_chain_quads(m, g);
    let d = match h {
        Some(hs) => hierarchy_quads(hs, g),
        None => Seq::empty(),
    };
    assert(model_quads(m, h, ns, g) == a + b + c + d);
    assert forall|i: int| 0 <= i < acts.len() implies model_quads(m, h, ns, g).contains(
        qv(uuid_node(#[trigger] acts[i].id), RDF_NS@ + "type"@, TermView::Iri(act("Action"@)), g),
    ) by {
        let q = qv(uuid_node(acts[i].id), RDF_NS@ + "type"@, TermView::Iri(act("Action"@)), g);
        assert(b.contains(q));
        let k = choose|k: int| 0 <= k < b.len() && b[k] == q;
        assert((a + b + c + d)[a.len() + k] == q);
    }
}

/// Each child tag of a hierarchy entry is linked both ways: a
/// `contextBroader` quad from the child to the parent and a
/// `contextNarrower` quad from the parent to the child.
pub proof fn lemma_child_links_both_ways(p: Seq<char>, children: Seq<Seq<char>>, g: Option<Seq<char>>)
    ensures
        forall|j: int|
            0 <= j < children.len() ==> {
                &&& child_context_quads(p, children, g).contains(
                    qv(context_node(#[trigger] children[j]), act("contextBroader"@), context_node(p), g),
                )
                &&& child_context_quads(p, children, g).contains(
                    qv(context_node(p), act("contextNarrower"@), context_node(children[j]), g),
                )
            },
    decreases children.len(),
{
    if children.len() > 0 {
        let d = children.drop_last();
        lemma_child_links_both_ways(p, d, g);
        let prev = child_context_quads(p, d, g);
        let c = children.last();
        let tail = context_node_quads(c, g) + seq![
            qv(context_node(c), act("contextBroader"@), context_node(p), g),
            qv(context_node(p), act("contextNarrower"@), context_node(c), g),
        ];
        assert(child_context_quads(p, children, g) == prev + tail);
        assert forall|j: int| 0 <= j < children.len() implies {
            &&& child_context_quads(p, children, g).contains(
                qv(context_node(#[trigger] children[j]), act("contextBroader"@), context_node(p), g),
            )
            &&& child_context_quads(p, children, g).contains(
                qv(context_node(p), act("contextNarrower"@), context_node(children[j]), g),
            )
        } by {
            let b = qv(context_node(children[j]), act("contextBroader"@), context_node(p), g);
            let n = qv(context_node(p), act("contextNarrower"@), context_node(children[j]), g);
            if j < children.len() - 1 {
                assert(d[j] == children[j]);
                assert(prev.contains(b));
                assert(prev.contains(n));
                let kb = choose|k: int| 0 <= k < prev.len() && prev[k] == b;
                let kn = choose|k: int| 0 <= k < prev.len() && prev[k] == n;
                assert((prev + tail)[kb] == b);
                assert((prev + tail)[kn] == n);
            } else {
                assert((prev + tail)[prev.len() + 2int] == b);
                assert((prev + tail)[prev.len() + 3int] == n);
            }
        }
    }
}

} // verus!
