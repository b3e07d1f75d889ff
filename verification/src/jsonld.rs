//! Canonical compact JSON-LD export of the domain model.
//!
//! The document holds the actions `@context` it is given, a `_meta` block
//! and an `@graph` of context, charter, plan and action nodes sorted by type
//! rank and then by identifier. Context nodes use provisional
//! `urn:context:<name>` identifiers, which `_meta.context_nodes` records.

use crate::domain::{
    Action, ActionView, Charter, CharterView, DomainModel, Plan, PlanView, actions_view,
    all_actions, charters_view, depends_on, phase_name, phase_term, plans_view, strs,
};
use crate::error::GraphError;
use crate::load::{CharterSources, SourcedAction, file_text, row_ok, rows_bounded};
use crate::json::{
    Json, JsonView, empty_object, entries_get, entries_insert, entry_views, insert_entry,
    json_str, json_views, push_entry, push_item,
};
use crate::text::{
    chars_of, lowercase, replace_char, replace_each, strip_leading, to_lowercase, trim,
    trim_start_char, trim_ws,
};
use crate::vocab::{uuid_iri, uuid_iri_string, uuid_string, uuid_text};
use vstd::prelude::*;

verus! {

/// The identifier of a context tag: `urn:context:` and the tag trimmed,
/// without leading `@`, lower-cased, spaces replaced by `-`.
pub open spec fn context_urn(tag: Seq<char>) -> Seq<char> {
    "urn:context:"@ + replace_char(lowercase(strip_leading(trim_ws(tag), '@')), ' ', '-')
}

/// The identifier of a context tag.
pub fn context_id(context: &str) -> (r: String)
    ensures
        r@ == context_urn(context@),
{
    let a = trim(context);
    let b = trim_start_char(a.as_str(), '@');
    let c = to_lowercase(b.as_str());
    let d = replace_each(c.as_str(), ' ', '-');
    crate::vocab::ns("urn:context:", d.as_str())
}

/// Whether `a` sorts strictly before `b`, character by character (the order
/// of Rust strings).
pub open spec fn seq_lt(a: Seq<char>, b: Seq<char>) -> bool
    decreases a.len(),
{
    if a.len() == 0 {
        b.len() > 0
    } else if b.len() == 0 {
        false
    } else if a[0] != b[0] {
        a[0] < b[0]
    } else {
        seq_lt(a.drop_first(), b.drop_first())
    }
}

/// The string order is irreflexive.
pub proof fn lemma_seq_lt_irreflexive(a: Seq<char>)
    ensures
        !seq_lt(a, a),
    decreases a.len(),
{
    if a.len() > 0 {
        lemma_seq_lt_irreflexive(a.drop_first());
    }
}

/// The string order is transitive.
pub proof fn lemma_seq_lt_transitive(a: Seq<char>, b: Seq<char>, c: Seq<char>)
    requires
        seq_lt(a, b),
        seq_lt(b, c),
    ensures
        seq_lt(a, c),
    decreases a.len(),
{
    if a.len() > 0 && b.len() > 0 && c.len() > 0 {
        if a[0] == b[0] && b[0] == c[0] {
            lemma_seq_lt_transitive(a.drop_first(), b.drop_first(), c.drop_first());
        }
    }
}

/// The string order is total: of two different strings one sorts first.
pub proof fn lemma_seq_lt_total(a: Seq<char>, b: Seq<char>)
    ensures
        a != b ==> seq_lt(a, b) || seq_lt(b, a),
        !(seq_lt(a, b) && seq_lt(b, a)),
    decreases a.len(),
{
    if a.len() > 0 && b.len() > 0 {
        lemma_seq_lt_total(a.drop_first(), b.drop_first());
        if a[0] == b[0] && a.drop_first() == b.drop_first() {
            assert(a =~= seq![a[0]] + a.drop_first());
            assert(b =~= seq![b[0]] + b.drop_first());
        }
        if a[0] != b[0] {
        }
    } else if a.len() == 0 && b.len() == 0 {
        assert(a =~= b);
    }
}

/// Whether `a` sorts strictly before `b`.
pub fn str_lt(a: &str, b: &str) -> (r: bool)
    ensures
        r == seq_lt(a@, b@),
{
    let x = chars_of(a);
    let y = chars_of(b);
    assert(a@.subrange(0, a@.len() as int) =~= a@);
    assert(b@.subrange(0, b@.len() as int) =~= b@);
    let mut i: usize = 0;
    while i < x.len() && i < y.len()
        invariant
            x@ == a@,
            y@ == b@,
            i <= x@.len(),
            i <= y@.len(),
            seq_lt(a@, b@) == seq_lt(a@.subrange(i as int, a@.len() as int), b@.subrange(i as int, b@.len() as int)),
        decreases x@.len() - i,
    {
        let ghost sa = a@.subrange(i as int, a@.len() as int);
        let ghost sb = b@.subrange(i as int, b@.len() as int);
        assert(sa[0] == x@[i as int]);
        assert(sb[0] == y@[i as int]);
        if x[i] != y[i] {
            return x[i] < y[i];
        }
        assert(sa.drop_first() =~= a@.subrange(i + 1, a@.len() as int));
        assert(sb.drop_first() =~= b@.subrange(i + 1, b@.len() as int));
        i = i + 1;
    }
    i < y.len()
}

/// The context tags of the actions, in order.
pub open spec fn context_tags(acts: Seq<ActionView>) -> Seq<Seq<char>>
    decreases acts.len(),
{
    if acts.len() == 0 {
        Seq::empty()
    } else {
        context_tags(acts.drop_last()) + match acts.last().contexts {
            Some(tags) => tags,
            None => Seq::empty(),
        }
    }
}

/// Each context identifier with the last tag that has it.
pub open spec fn context_map(tags: Seq<Seq<char>>) -> Map<Seq<char>, Seq<char>>
    decreases tags.len(),
{
    if tags.len() == 0 {
        Map::empty()
    } else {
        context_map(tags.drop_last()).insert(context_urn(tags.last()), tags.last())
    }
}

/// Each key of the context map is the identifier of its tag.
pub proof fn lemma_context_map_keys(tags: Seq<Seq<char>>)
    ensures
        forall|k: Seq<char>| #[trigger] context_map(tags).dom().contains(k) ==> context_urn(context_map(tags)[k]) == k,
    decreases tags.len(),
{
    if tags.len() > 0 {
        lemma_context_map_keys(tags.drop_last());
        let m0 = context_map(tags.drop_last());
        assert forall|k: Seq<char>| #[trigger] context_map(tags).dom().contains(k) implies context_urn(
            context_map(tags)[k],
        ) == k by {
            if k != context_urn(tags.last()) {
                assert(m0.dom().contains(k));
            }
        }
    }
}

/// The context tags of two runs of actions are those of each in turn.
pub proof fn lemma_context_tags_add(a: Seq<ActionView>, b: Seq<ActionView>)
    ensures
        context_tags(a + b) == context_tags(a) + context_tags(b),
    decreases b.len(),
{
    if b.len() == 0 {
        assert(a + b =~= a);
        assert(context_tags(a) + context_tags(b) =~= context_tags(a));
    } else {
        lemma_context_tags_add(a, b.drop_last());
        assert((a + b).drop_last() =~= a + b.drop_last());
        assert((a + b).last() == b.last());
        assert(context_tags(a + b) =~= context_tags(a) + context_tags(b));
    }
}

/// Whether `t` lists the entries of `m` by strictly increasing key.
pub open spec fn sorted_table(t: Seq<(Seq<char>, Seq<char>)>, m: Map<Seq<char>, Seq<char>>) -> bool {
    &&& forall|i: int, j: int| 0 <= i < j < t.len() ==> seq_lt(#[trigger] t[i].0, #[trigger] t[j].0)
    &&& forall|i: int| 0 <= i < t.len() ==> m.dom().contains(#[trigger] t[i].0) && m[t[i].0] == t[i].1
    &&& forall|k: Seq<char>| #[trigger] m.dom().contains(k) ==> exists|i: int| 0 <= i < t.len() && t[i].0 == k
}

/// An export holds one context node per identifier: the identifiers of a
/// sorted context table are pairwise distinct.
pub proof fn lemma_context_ids_distinct(t: Seq<(Seq<char>, Seq<char>)>, m: Map<Seq<char>, Seq<char>>)
    requires
        sorted_table(t, m),
    ensures
        forall|i: int, j: int| 0 <= i < j < t.len() ==> #[trigger] t[i].0 != #[trigger] t[j].0,
{
    assert forall|i: int, j: int| 0 <= i < j < t.len() implies #[trigger] t[i].0 != #[trigger] t[j].0 by {
        assert(seq_lt(t[i].0, t[j].0));
        lemma_seq_lt_irreflexive(t[i].0);
    }
}

/// The views of a table of string pairs.
pub open spec fn pairs_view(v: Seq<(String, String)>) -> Seq<(Seq<char>, Seq<char>)> {
    v.map_values(|p: (String, String)| (p.0@, p.1@))
}

fn table_insert(t: &mut Vec<(String, String)>, key: String, value: String, Ghost(m): Ghost<Map<Seq<char>, Seq<char>>>)
    requires
        sorted_table(pairs_view(old(t)@), m),
    ensures
        sorted_table(pairs_view(final(t)@), m.insert(key@, value@)),
{
    let ghost tv = pairs_view(t@);
    let mut i: usize = 0;
    while i < t.len() && str_lt(t[i].0.as_str(), key.as_str())
        invariant
            tv == pairs_view(t@),
            t@ == old(t)@,
            i <= t@.len(),
            forall|j: int| 0 <= j < i ==> seq_lt(#[trigger] tv[j].0, key@),
        decreases t@.len() - i,
    {
        i = i + 1;
    }
    let ghost m2 = m.insert(key@, value@);
    if i < t.len() && crate::text::str_eq(t[i].0.as_str(), key.as_str()) {
        let ghost kv = key@;
        let ghost vv = value@;
        t.set(i, (key, value));
        proof {
            let nt = pairs_view(t@);
            assert(nt =~= tv.update(i as int, (kv, vv)));
            assert forall|a: int, b: int| 0 <= a < b < nt.len() implies seq_lt(#[trigger] nt[a].0, #[trigger] nt[b].0) by {
                assert(nt[a].0 == tv[a].0);
                assert(nt[b].0 == tv[b].0);
            }
            assert forall|a: int| 0 <= a < nt.len() implies m2.dom().contains(#[trigger] nt[a].0) && m2[nt[a].0] == nt[a].1 by {
                if a != i {
                    assert(nt[a] == tv[a]);
                    if tv[a].0 == kv {
                        if a < i {
                            lemma_seq_lt_irreflexive(kv);
                        } else {
                            assert(seq_lt(tv[i as int].0, tv[a].0));
                            lemma_seq_lt_irreflexive(kv);
                        }
                    }
                }
            }
            assert forall|k: Seq<char>| #[trigger] m2.dom().contains(k) implies exists|a: int| 0 <= a < nt.len() && nt[a].0 == k by {
                if k == kv {
                    assert(nt[i as int].0 == k);
                } else {
                    assert(m.dom().contains(k));
                    let a = choose|a: int| 0 <= a < tv.len() && tv[a].0 == k;
                    assert(nt[a].0 == k);
                }
            }
        }
    } else {
        let ghost kv = key@;
        let ghost vv = value@;
        proof {
            if i < tv.len() {
                lemma_seq_lt_total(tv[i as int].0, kv);
                assert(seq_lt(kv, tv[i as int].0));
            }
        }
        t.insert(i, (key, value));
        proof {
            let nt = pairs_view(t@);
            assert(nt =~= tv.insert(i as int, (kv, vv)));
            assert forall|a: int, b: int| 0 <= a < b < nt.len() implies seq_lt(#[trigger] nt[a].0, #[trigger] nt[b].0) by {
                if b < i {
                    assert(nt[a] == tv[a] && nt[b] == tv[b]);
                } else if b == i {
                    assert(nt[a] == tv[a]);
                } else if a == i {
                    assert(nt[b] == tv[b - 1]);
                    if b - 1 > i {
                        assert(seq_lt(tv[i as int].0, tv[b - 1].0));
                        lemma_seq_lt_transitive(kv, tv[i as int].0, tv[b - 1].0);
                    }
                } else if a < i {
                    assert(nt[a] == tv[a] && nt[b] == tv[b - 1]);
                    if a < b - 1 {
                    } else {
                    }
                } else {
                    assert(nt[a] == tv[a - 1] && nt[b] == tv[b - 1]);
                }
            }
            assert forall|a: int| 0 <= a < nt.len() implies m2.dom().contains(#[trigger] nt[a].0) && m2[nt[a].0] == nt[a].1 by {
                if a < i {
                    assert(nt[a] == tv[a]);
                    assert(seq_lt(tv[a].0, kv));
                    lemma_seq_lt_irreflexive(kv);
                } else if a > i {
                    assert(nt[a] == tv[a - 1]);
                    if tv[a - 1].0 == kv {
                        if a - 1 > i {
                            assert(seq_lt(tv[i as int].0, tv[a - 1].0));
                            lemma_seq_lt_transitive(kv, tv[i as int].0, kv);
                        }
                        lemma_seq_lt_irreflexive(kv);
                    }
                }
            }
            assert forall|k: Seq<char>| #[trigger] m2.dom().contains(k) implies exists|a: int| 0 <= a < nt.len() && nt[a].0 == k by {
                if k == kv {
                    assert(nt[i as int].0 == k);
                } else {
                    assert(m.dom().contains(k));
                    let a = choose|a: int| 0 <= a < tv.len() && tv[a].0 == k;
                    if a < i {
                        assert(nt[a].0 == k);
                    } else {
                        assert(nt[a + 1].0 == k);
                    }
                }
            }
        }
    }
}

/// The context tags of the model, one per identifier (the last tag with
/// that identifier), ordered by identifier.
pub fn collect_contexts(model: &DomainModel) -> (r: Vec<String>)
    ensures
        exists|t: Seq<(Seq<char>, Seq<char>)>|
            sorted_table(t, context_map(context_tags(all_actions(model@))))
                && strs(r@) == t.map_values(|p: (Seq<char>, Seq<char>)| p.1),
{
    let ghost cv = model@;
    let cs = &model.charters;
    let mut table: Vec<(String, String)> = Vec::new();
    let mut i: usize = 0;
    while i < cs.len()
        invariant
            cs == &model.charters,
            cv == charters_view(cs@),
            i <= cs@.len(),
            sorted_table(pairs_view(table@), context_map(context_tags(all_actions(cv.subrange(0, i as int))))),
        decreases cs@.len() - i,
    {
        assert(cv.subrange(0, i + 1).drop_last() == cv.subrange(0, i as int));
        assert(cv.subrange(0, i + 1).last() == cs@[i as int]@);
        let ghost before = all_actions(cv.subrange(0, i as int));
        let acts = &cs[i].actions;
        let ghost av = actions_view(acts@);
        let mut j: usize = 0;
        while j < acts.len()
            invariant
                av == actions_view(acts@),
                j <= acts@.len(),
                sorted_table(pairs_view(table@), context_map(context_tags(before + av.subrange(0, j as int)))),
            decreases acts@.len() - j,
        {
            let ghost pre = context_tags(before + av.subrange(0, j as int));
            proof {
                assert(av.subrange(0, j + 1) == av.subrange(0, j as int).push(acts@[j as int]@));
                assert(before + av.subrange(0, j + 1) =~= (before + av.subrange(0, j as int)).push(acts@[j as int]@));
                assert((before + av.subrange(0, j + 1)).drop_last() =~= before + av.subrange(0, j as int));
            }
            match &acts[j].contexts {
                Some(tags) => {
                    let ghost tv = strs(tags@);
                    let mut k: usize = 0;
                    while k < tags.len()
                        invariant
                            tv == strs(tags@),
                            k <= tags@.len(),
                            sorted_table(pairs_view(table@), context_map(pre + tv.subrange(0, k as int))),
                        decreases tags@.len() - k,
                    {
                        let ghost m = context_map(pre + tv.subrange(0, k as int));
                        let id = context_id(tags[k].as_str());
                        table_insert(&mut table, id, tags[k].clone(), Ghost(m));
                        proof {
                            assert(pre + tv.subrange(0, k + 1) =~= (pre + tv.subrange(0, k as int)).push(tags@[k as int]@));
                            assert((pre + tv.subrange(0, k + 1)).drop_last() =~= pre + tv.subrange(0, k as int));
                        }
                        k = k + 1;
                    }
                    assert(tv.subrange(0, tags@.len() as int) =~= tv);
                },
                None => {
                    assert(pre + Seq::<Seq<char>>::empty() =~= pre);
                },
            }
            j = j + 1;
        }
        assert(av.subrange(0, acts@.len() as int) =~= av);
        i = i + 1;
    }
    assert(cv.subrange(0, cs@.len() as int) =~= cv);
    let ghost t = pairs_view(table@);
    let mut out: Vec<String> = Vec::new();
    let mut n: usize = 0;
    while n < table.len()
        invariant
            t == pairs_view(table@),
            n <= table@.len(),
            strs(out@) == t.subrange(0, n as int).map_values(|p: (Seq<char>, Seq<char>)| p.1),
        decreases table@.len() - n,
    {
        let ghost before = out@;
        let v = table[n].1.clone();
        out.push(v);
        proof {
            crate::domain::lemma_map_push(before, v, |s: String| s@);
            assert(t.subrange(0, n + 1) =~= t.subrange(0, n as int).push(t[n as int]));
            crate::domain::lemma_map_push(t.subrange(0, n as int), t[n as int], |p: (Seq<char>, Seq<char>)| p.1);
        }
        n = n + 1;
    }
    assert(t.subrange(0, table@.len() as int) =~= t);
    out
}

/// An object entry.
pub type Entry = (Seq<char>, JsonView);

/// A string value.
pub open spec fn jstr(s: Seq<char>) -> JsonView {
    JsonView::Str(s)
}

/// The identifier and type entries every node starts with.
pub open spec fn base_node(id: Seq<char>, ty: Seq<char>) -> Seq<Entry> {
    seq![("id"@, jstr(id)), ("type"@, jstr(ty))]
}

/// The entry `k: v` when `v` is present.
pub open spec fn opt_str_entry(k: Seq<char>, v: Option<Seq<char>>) -> Seq<Entry> {
    match v {
        Some(x) => seq![(k, jstr(x))],
        None => Seq::empty(),
    }
}

/// The entry `k: n` (a JSON number) when `n` is present.
pub open spec fn opt_number_entry(k: Seq<char>, n: Option<u64>) -> Seq<Entry> {
    match n {
        Some(x) => seq![(k, JsonView::Number(crate::text::decimal(x as nat)))],
        None => Seq::empty(),
    }
}

/// The entry `k: t` with the RFC 3339 text of `t` when it is present.
pub open spec fn opt_time_entry(k: Seq<char>, t: Option<crate::domain::Timestamp>) -> Seq<Entry> {
    match t {
        Some(x) => seq![(k, jstr(x.text()))],
        None => Seq::empty(),
    }
}

/// No entry for no identifiers, a string for one, an array for several.
pub open spec fn ids_entry(k: Seq<char>, ids: Seq<Seq<char>>) -> Seq<Entry> {
    if ids.len() == 0 {
        Seq::empty()
    } else if ids.len() == 1 {
        seq![(k, jstr(ids[0]))]
    } else {
        seq![(k, JsonView::Array(ids.map_values(|x: Seq<char>| jstr(x))))]
    }
}

/// The node of a context tag.
pub open spec fn context_node(tag: Seq<char>) -> Seq<Entry> {
    base_node(context_urn(tag), "Context"@) + seq![("name"@, jstr(tag)), ("contextIdentifier"@, jstr(tag))]
}

/// The last charter among `cs` whose alias, lower-cased, is `key`.
pub open spec fn charter_by_alias(cs: Seq<CharterView>, key: Seq<char>) -> Option<Seq<char>>
    decreases cs.len(),
{
    if cs.len() == 0 {
        None
    } else if cs.last().alias matches Some(a) && lowercase(a) == key {
        Some(uuid_iri(cs.last().id))
    } else {
        charter_by_alias(cs.drop_last(), key)
    }
}

/// The last charter among `cs` whose title, lower-cased, is `key`.
pub open spec fn charter_by_title(cs: Seq<CharterView>, key: Seq<char>) -> Option<Seq<char>>
    decreases cs.len(),
{
    if cs.len() == 0 {
        None
    } else if lowercase(cs.last().title) == key {
        Some(uuid_iri(cs.last().id))
    } else {
        charter_by_title(cs.drop_last(), key)
    }
}

/// The identifier of the charter a parent reference names: by alias first,
/// then by title, both case-insensitively.
pub open spec fn resolve_parent(all: Seq<CharterView>, parent: Seq<char>) -> Option<Seq<char>> {
    match charter_by_alias(all, lowercase(parent)) {
        Some(u) => Some(u),
        None => charter_by_title(all, lowercase(parent)),
    }
}

/// The identifiers of the charters among `cs` whose parent resolves to
/// `target`, in order.
pub open spec fn sub_charters(cs: Seq<CharterView>, all: Seq<CharterView>, target: Seq<char>) -> Seq<Seq<char>>
    decreases cs.len(),
{
    if cs.len() == 0 {
        Seq::empty()
    } else {
        let rest = sub_charters(cs.drop_last(), all, target);
        if cs.last().parent matches Some(p) && resolve_parent(all, p) == Some(target) {
            rest.push(uuid_iri(cs.last().id))
        } else {
            rest
        }
    }
}

/// The node of a charter of the model whose charters are `all`.
pub open spec fn charter_node(c: CharterView, all: Seq<CharterView>) -> Seq<Entry> {
    base_node(uuid_iri(c.id), "Charter"@) + seq![("name"@, jstr(c.title))] + opt_str_entry(
        "description"@,
        c.description,
    ) + ids_entry("subCharters"@, sub_charters(all, all, uuid_iri(c.id)))
}

/// Whether one of `plans` has the identifier `target`.
pub open spec fn has_plan(plans: Seq<PlanView>, target: Seq<char>) -> bool {
    exists|i: int| 0 <= i < plans.len() && uuid_iri(#[trigger] plans[i].id) == target
}

/// The charter the plan with identifier `target` belongs to: the last
/// charter listing such a plan.
pub open spec fn plan_owner(cs: Seq<CharterView>, target: Seq<char>) -> Option<Seq<char>>
    decreases cs.len(),
{
    if cs.len() == 0 {
        None
    } else if has_plan(cs.last().plans, target) {
        Some(uuid_iri(cs.last().id))
    } else {
        plan_owner(cs.drop_last(), target)
    }
}

/// The identifiers of the actions generated by the plan with identifier
/// `target`, in order.
pub open spec fn plan_actions(acts: Seq<ActionView>, target: Seq<char>) -> Seq<Seq<char>>
    decreases acts.len(),
{
    if acts.len() == 0 {
        Seq::empty()
    } else {
        let rest = plan_actions(acts.drop_last(), target);
        if acts.last().plan_id matches Some(pid) && uuid_iri(pid) == target {
            rest.push(uuid_iri(acts.last().id))
        } else {
            rest
        }
    }
}

/// The node of a plan of the model whose charters are `all`.
pub open spec fn plan_node(p: PlanView, all: Seq<CharterView>) -> Seq<Entry> {
    base_node(uuid_iri(p.id), "Plan"@) + seq![("name"@, jstr(p.name))] + opt_str_entry(
        "description"@,
        p.description,
    ) + opt_str_entry("partOf"@, plan_owner(all, uuid_iri(p.id))) + ids_entry(
        "actions"@,
        plan_actions(all_actions(all), uuid_iri(p.id)),
    ) + seq![("uuid"@, jstr(uuid_text(p.id)))] + opt_str_entry("recurrence"@, p.recurrence)
        + opt_str_entry("dueRecurrence"@, p.due_recurrence)
}

/// Where an action's source was found: its file and one-based line.
pub type SourceInfo = Option<(Seq<char>, nat)>;

/// The source entries of an action.
pub open spec fn source_entries(info: SourceInfo) -> Seq<Entry> {
    match info {
        Some((file, line)) => seq![
            ("sourceFile"@, jstr(file)),
            ("sourceLine"@, JsonView::Number(crate::text::decimal(line))),
        ],
        None => Seq::empty(),
    }
}

/// The identity, naming and link entries of an action's node.
pub open spec fn action_head(a: ActionView) -> Seq<Entry> {
    base_node(uuid_iri(a.id), "Action"@) + seq![("name"@, jstr(a.name))] + opt_str_entry(
        "description"@,
        a.description,
    ) + opt_str_entry("alias"@, a.alias) + opt_number_entry("priority"@, a.priority) + match a.contexts {
        Some(tags) => ids_entry("requiresContext"@, tags.map_values(|t: Seq<char>| context_urn(t))),
        None => Seq::empty(),
    } + match a.parent_id {
        Some(pid) => seq![("partOf"@, jstr(uuid_iri(pid)))],
        None => Seq::empty(),
    } + ids_entry("isSuccessorOf"@, depends_on(a).map_values(|id: u128| uuid_iri(id)))
}

/// The state, schedule and source entries of an action's node.
pub open spec fn action_tail(a: ActionView, info: SourceInfo) -> Seq<Entry> {
    seq![("uuid"@, jstr(uuid_text(a.id))), ("status"@, jstr(phase_name(a.state)))]
        + opt_time_entry("scheduledAt"@, a.scheduled_at) + opt_time_entry("dueDate"@, a.due_date)
        + opt_time_entry("completedDate"@, a.completed_at) + opt_number_entry(
        "durationMinutes"@,
        a.duration,
    ) + opt_str_entry("externalScheduleId"@, a.external_schedule_id) + opt_str_entry(
        "externalOccurrenceKey"@,
        a.external_occurrence_key,
    ) + source_entries(info)
}

/// The node of an action, with its source entries.
pub open spec fn action_node(a: ActionView, info: SourceInfo) -> Seq<Entry> {
    action_head(a) + action_tail(a, info)
}

fn push_opt_str(e: &mut Vec<(String, Json)>, key: &str, v: &Option<String>)
    ensures
        entry_views(final(e)@) == entry_views(old(e)@) + opt_str_entry(key@, crate::rdf::opt_view(*v)),
{
    match v {
        Some(x) => {
            push_entry(e, key, Json::Str(x.clone()));
        },
        None => {},
    }
    assert(entry_views(e@) =~= entry_views(old(e)@) + opt_str_entry(key@, crate::rdf::opt_view(*v)));
}

fn push_opt_number(e: &mut Vec<(String, Json)>, key: &str, n: Option<u64>)
    ensures
        entry_views(final(e)@) == entry_views(old(e)@) + opt_number_entry(key@, n),
{
    match n {
        Some(x) => {
            push_entry(e, key, Json::Number(crate::text::decimal_string(x)));
        },
        None => {},
    }
    assert(entry_views(e@) =~= entry_views(old(e)@) + opt_number_entry(key@, n));
}

fn push_opt_time(e: &mut Vec<(String, Json)>, key: &str, t: Option<crate::domain::Timestamp>)
    ensures
        entry_views(final(e)@) == entry_views(old(e)@) + opt_time_entry(key@, t),
{
    match t {
        Some(x) => {
            push_entry(e, key, Json::Str(x.to_rfc3339()));
        },
        None => {},
    }
    assert(entry_views(e@) =~= entry_views(old(e)@) + opt_time_entry(key@, t));
}

fn push_ids(e: &mut Vec<(String, Json)>, key: &str, ids: Vec<String>)
    ensures
        entry_views(final(e)@) == entry_views(old(e)@) + ids_entry(key@, strs(ids@)),
{
    let ghost iv = strs(ids@);
    if ids.len() == 0 {
    } else if ids.len() == 1 {
        push_entry(e, key, Json::Str(ids[0].clone()));
    } else {
        let mut items: Vec<Json> = Vec::new();
        let mut i: usize = 0;
        while i < ids.len()
            invariant
                iv == strs(ids@),
                i <= ids@.len(),
                json_views(items@) == iv.subrange(0, i as int).map_values(|x: Seq<char>| jstr(x)),
            decreases ids@.len() - i,
        {
            push_item(&mut items, Json::Str(ids[i].clone()));
            proof {
                assert(iv.subrange(0, i + 1) =~= iv.subrange(0, i as int).push(iv[i as int]));
                crate::domain::lemma_map_push(iv.subrange(0, i as int), iv[i as int], |x: Seq<char>| jstr(x));
            }
            i = i + 1;
        }
        assert(iv.subrange(0, ids@.len() as int) =~= iv);
        push_entry(e, key, Json::Array(items));
    }
    assert(entry_views(e@) =~= entry_views(old(e)@) + ids_entry(key@, strs(ids@)));
}

fn base_entries(id: String, ty: &str) -> (e: Vec<(String, Json)>)
    ensures
        entry_views(e@) == base_node(id@, ty@),
{
    let mut e: Vec<(String, Json)> = Vec::new();
    push_entry(&mut e, "id", Json::Str(id));
    push_entry(&mut e, "type", json_str(ty));
    assert(entry_views(e@) =~= base_node(id@, ty@));
    e
}

/// The node of a context tag.
pub fn context_to_jsonld(tag: &String) -> (j: Json)
    ensures
        j@ == JsonView::Object(context_node(tag@)),
{
    let mut e = base_entries(context_id(tag.as_str()), "Context");
    push_entry(&mut e, "name", Json::Str(tag.clone()));
    push_entry(&mut e, "contextIdentifier", Json::Str(tag.clone()));
    assert(entry_views(e@) =~= context_node(tag@));
    Json::Object(e)
}

fn lookup_alias(cs: &Vec<Charter>, key: &str) -> (r: Option<String>)
    ensures
        crate::rdf::opt_view(r) == charter_by_alias(charters_view(cs@), key@),
{
    let ghost cv = charters_view(cs@);
    assert(cv.subrange(0, cv.len() as int) =~= cv);
    let mut j: usize = cs.len();
    while j > 0
        invariant
            cv == charters_view(cs@),
            j <= cs@.len(),
            charter_by_alias(cv, key@) == charter_by_alias(cv.subrange(0, j as int), key@),
        decreases j,
    {
        let ghost sub = cv.subrange(0, j as int);
        assert(sub.last() == cs@[j - 1]@);
        assert(sub.drop_last() =~= cv.subrange(0, j - 1));
        match &cs[j - 1].alias {
            Some(a) => {
                let low = to_lowercase(a.as_str());
                if crate::text::str_eq(low.as_str(), key) {
                    return Some(uuid_iri_string(cs[j - 1].id));
                }
            },
            None => {},
        }
        j = j - 1;
    }
    None
}

fn lookup_title(cs: &Vec<Charter>, key: &str) -> (r: Option<String>)
    ensures
        crate::rdf::opt_view(r) == charter_by_title(charters_view(cs@), key@),
{
    let ghost cv = charters_view(cs@);
    assert(cv.subrange(0, cv.len() as int) =~= cv);
    let mut j: usize = cs.len();
    while j > 0
        invariant
            cv == charters_view(cs@),
            j <= cs@.len(),
            charter_by_title(cv, key@) == charter_by_title(cv.subrange(0, j as int), key@),
        decreases j,
    {
        let ghost sub = cv.subrange(0, j as int);
        assert(sub.last() == cs@[j - 1]@);
        assert(sub.drop_last() =~= cv.subrange(0, j - 1));
        let low = to_lowercase(cs[j - 1].title.as_str());
        if crate::text::str_eq(low.as_str(), key) {
            return Some(uuid_iri_string(cs[j - 1].id));
        }
        j = j - 1;
    }
    None
}

fn resolve_parent_id(all: &Vec<Charter>, parent: &str) -> (r: Option<String>)
    ensures
        crate::rdf::opt_view(r) == resolve_parent(charters_view(all@), parent@),
{
    let key = to_lowercase(parent);
    match lookup_alias(all, key.as_str()) {
        Some(u) => Some(u),
        None => lookup_title(all, key.as_str()),
    }
}

fn sub_charter_ids(all: &Vec<Charter>, target: &str) -> (r: Vec<String>)
    ensures
        strs(r@) == sub_charters(charters_view(all@), charters_view(all@), target@),
{
    let ghost cv = charters_view(all@);
    let mut out: Vec<String> = Vec::new();
    let mut i: usize = 0;
    while i < all.len()
        invariant
            cv == charters_view(all@),
            i <= all@.len(),
            strs(out@) == sub_charters(cv.subrange(0, i as int), cv, target@),
        decreases all@.len() - i,
    {
        assert(cv.subrange(0, i + 1).drop_last() =~= cv.subrange(0, i as int));
        assert(cv.subrange(0, i + 1).last() == all@[i as int]@);
        match &all[i].parent {
            Some(p) => {
                match resolve_parent_id(all, p.as_str()) {
                    Some(u) => {
                        if crate::text::str_eq(u.as_str(), target) {
                            let ghost before = out@;
                            let x = uuid_iri_string(all[i].id);
                            out.push(x);
                            proof {
                                crate::domain::lemma_map_push(before, x, |s: String| s@);
                            }
                        }
                    },
                    None => {},
                }
            },
            None => {},
        }
        i = i + 1;
    }
    assert(cv.subrange(0, all@.len() as int) =~= cv);
    out
}

fn lists_plan(plans: &Vec<Plan>, target: &str) -> (b: bool)
    ensures
        b == has_plan(plans_view(plans@), target@),
{
    let ghost pv = plans_view(plans@);
    let mut i: usize = 0;
    while i < plans.len()
        invariant
            pv == plans_view(plans@),
            i <= plans@.len(),
            forall|k: int| 0 <= k < i ==> uuid_iri(#[trigger] pv[k].id) != target@,
        decreases plans@.len() - i,
    {
        let u = uuid_iri_string(plans[i].id);
        if crate::text::str_eq(u.as_str(), target) {
            assert(uuid_iri(pv[i as int].id) == target@);
            return true;
        }
        i = i + 1;
    }
    false
}

fn plan_owner_id(cs: &Vec<Charter>, target: &str) -> (r: Option<String>)
    ensures
        crate::rdf::opt_view(r) == plan_owner(charters_view(cs@), target@),
{
    let ghost cv = charters_view(cs@);
    assert(cv.subrange(0, cv.len() as int) =~= cv);
    let mut j: usize = cs.len();
    while j > 0
        invariant
            cv == charters_view(cs@),
            j <= cs@.len(),
            plan_owner(cv, target@) == plan_owner(cv.subrange(0, j as int), target@),
        decreases j,
    {
        let ghost sub = cv.subrange(0, j as int);
        assert(sub.last() == cs@[j - 1]@);
        assert(sub.drop_last() =~= cv.subrange(0, j - 1));
        if lists_plan(&cs[j - 1].plans, target) {
            return Some(uuid_iri_string(cs[j - 1].id));
        }
        j = j - 1;
    }
    None
}

/// The actions a plan generates, over two runs of actions, are those of each
/// in turn.
pub proof fn lemma_plan_actions_add(a: Seq<ActionView>, b: Seq<ActionView>, target: Seq<char>)
    ensures
        plan_actions(a + b, target) == plan_actions(a, target) + plan_actions(b, target),
    decreases b.len(),
{
    if b.len() == 0 {
        assert(a + b =~= a);
        assert(plan_actions(a, target) + plan_actions(b, target) =~= plan_actions(a, target));
    } else {
        lemma_plan_actions_add(a, b.drop_last(), target);
        assert((a + b).drop_last() =~= a + b.drop_last());
        assert((a + b).last() == b.last());
        assert(plan_actions(a + b, target) =~= plan_actions(a, target) + plan_actions(b, target));
    }
}

fn plan_action_ids(cs: &Vec<Charter>, target: &str) -> (r: Vec<String>)
    ensures
        strs(r@) == plan_actions(all_actions(charters_view(cs@)), target@),
{
    let ghost cv = charters_view(cs@);
    let mut out: Vec<String> = Vec::new();
    let mut i: usize = 0;
    while i < cs.len()
        invariant
            cv == charters_view(cs@),
            i <= cs@.len(),
            strs(out@) == plan_actions(all_actions(cv.subrange(0, i as int)), target@),
        decreases cs@.len() - i,
    {
        assert(cv.subrange(0, i + 1).drop_last() =~= cv.subrange(0, i as int));
        assert(cv.subrange(0, i + 1).last() == cs@[i as int]@);
        let ghost before_all = all_actions(cv.subrange(0, i as int));
        let acts = &cs[i].actions;
        let ghost av = actions_view(acts@);
        let mut j: usize = 0;
        while j < acts.len()
            invariant
                av == actions_view(acts@),
                j <= acts@.len(),
                strs(out@) == plan_actions(before_all, target@) + plan_actions(av.subrange(0, j as int), target@),
            decreases acts@.len() - j,
        {
            assert(av.subrange(0, j + 1).drop_last() =~= av.subrange(0, j as int));
            assert(av.subrange(0, j + 1).last() == acts@[j as int]@);
            match acts[j].plan_id {
                Some(pid) => {
                    let u = uuid_iri_string(pid);
                    if crate::text::str_eq(u.as_str(), target) {
                        let ghost before = out@;
                        let x = uuid_iri_string(acts[j].id);
                        out.push(x);
                        proof {
                            crate::domain::lemma_map_push(before, x, |s: String| s@);
                        }
                    }
                },
                None => {},
            }
            assert(strs(out@) =~= plan_actions(before_all, target@) + plan_actions(av.subrange(0, j + 1), target@));
            j = j + 1;
        }
        assert(av.subrange(0, acts@.len() as int) =~= av);
        proof {
            lemma_plan_actions_add(before_all, av, target@);
        }
        i = i + 1;
    }
    assert(cv.subrange(0, cs@.len() as int) =~= cv);
    out
}

/// The node of a charter of the model whose charters are `all`.
pub fn charter_to_jsonld(c: &Charter, all: &Vec<Charter>) -> (j: Json)
    ensures
        j@ == JsonView::Object(charter_node(c@, charters_view(all@))),
{
    let id = uuid_iri_string(c.id);
    let kids = sub_charter_ids(all, id.as_str());
    let mut e = base_entries(id, "Charter");
    push_entry(&mut e, "name", Json::Str(c.title.clone()));
    push_opt_str(&mut e, "description", &c.description);
    push_ids(&mut e, "subCharters", kids);
    assert(entry_views(e@) =~= charter_node(c@, charters_view(all@)));
    Json::Object(e)
}

/// The node of a plan of the model whose charters are `all`.
pub fn plan_to_jsonld(p: &Plan, all: &Vec<Charter>) -> (j: Json)
    ensures
        j@ == JsonView::Object(plan_node(p@, charters_view(all@))),
{
    let id = uuid_iri_string(p.id);
    let owner = plan_owner_id(all, id.as_str());
    let acts = plan_action_ids(all, id.as_str());
    let mut e = base_entries(id, "Plan");
    push_entry(&mut e, "name", Json::Str(p.name.clone()));
    push_opt_str(&mut e, "description", &p.description);
    push_opt_str(&mut e, "partOf", &owner);
    push_ids(&mut e, "actions", acts);
    push_entry(&mut e, "uuid", Json::Str(uuid_string(p.id)));
    push_opt_str(&mut e, "recurrence", &p.recurrence);
    push_opt_str(&mut e, "dueRecurrence", &p.due_recurrence);
    assert(entry_views(e@) =~= plan_node(p@, charters_view(all@)));
    Json::Object(e)
}

fn context_ids(tags: &Vec<String>) -> (r: Vec<String>)
    ensures
        strs(r@) == strs(tags@).map_values(|t: Seq<char>| context_urn(t)),
{
    let ghost tv = strs(tags@);
    let mut out: Vec<String> = Vec::new();
    let mut i: usize = 0;
    while i < tags.len()
        invariant
            tv == strs(tags@),
            i <= tags@.len(),
            strs(out@) == tv.subrange(0, i as int).map_values(|t: Seq<char>| context_urn(t)),
        decreases tags@.len() - i,
    {
        let ghost before = out@;
        let x = context_id(tags[i].as_str());
        out.push(x);
        proof {
            crate::domain::lemma_map_push(before, x, |s: String| s@);
            assert(tv.subrange(0, i + 1) =~= tv.subrange(0, i as int).push(tv[i as int]));
            crate::domain::lemma_map_push(tv.subrange(0, i as int), tv[i as int], |t: Seq<char>| context_urn(t));
        }
        i = i + 1;
    }
    assert(tv.subrange(0, tags@.len() as int) =~= tv);
    out
}

fn uuid_iris(ids: &Vec<u128>) -> (r: Vec<String>)
    ensures
        strs(r@) == ids@.map_values(|id: u128| uuid_iri(id)),
{
    let mut out: Vec<String> = Vec::new();
    let mut i: usize = 0;
    while i < ids.len()
        invariant
            i <= ids@.len(),
            strs(out@) == ids@.subrange(0, i as int).map_values(|id: u128| uuid_iri(id)),
        decreases ids@.len() - i,
    {
        let ghost before = out@;
        let x = uuid_iri_string(ids[i]);
        out.push(x);
        proof {
            crate::domain::lemma_map_push(before, x, |s: String| s@);
            assert(ids@.subrange(0, i + 1) =~= ids@.subrange(0, i as int).push(ids@[i as int]));
            crate::domain::lemma_map_push(ids@.subrange(0, i as int), ids@[i as int], |id: u128| uuid_iri(id));
        }
        i = i + 1;
    }
    assert(ids@.subrange(0, ids@.len() as int) =~= ids@);
    out
}

/// The view of an action's source information.
pub open spec fn info_view(info: Option<(String, u64)>) -> SourceInfo {
    match info {
        Some((f, line)) => Some((f@, line as nat)),
        None => None,
    }
}

#[verifier::spinoff_prover]
#[verifier::rlimit(40)]
fn action_head_entries(a: &Action) -> (e: Vec<(String, Json)>)
    ensures
        entry_views(e@) == action_head(a@),
{
    let mut e = base_entries(uuid_iri_string(a.id), "Action");
    push_entry(&mut e, "name", Json::Str(a.name.clone()));
    push_opt_str(&mut e, "description", &a.description);
    push_opt_str(&mut e, "alias", &a.alias);
    push_opt_number(&mut e, "priority", a.priority);
    let ghost b1 = entry_views(e@);
    match &a.contexts {
        Some(tags) => {
            let ids = context_ids(tags);
            push_ids(&mut e, "requiresContext", ids);
        },
        None => {},
    }
    assert(entry_views(e@) =~= b1 + match a@.contexts {
        Some(tags) => ids_entry("requiresContext"@, tags.map_values(|t: Seq<char>| context_urn(t))),
        None => Seq::empty(),
    });
    let ghost b2 = entry_views(e@);
    match a.parent_id {
        Some(pid) => {
            push_entry(&mut e, "partOf", Json::Str(uuid_iri_string(pid)));
        },
        None => {},
    }
    assert(entry_views(e@) =~= b2 + match a@.parent_id {
        Some(pid) => seq![("partOf"@, jstr(uuid_iri(pid)))],
        None => Seq::<Entry>::empty(),
    });
    let deps = a.depends_on();
    let dep_ids = uuid_iris(&deps);
    push_ids(&mut e, "isSuccessorOf", dep_ids);
    assert(entry_views(e@) =~= action_head(a@));
    e
}

/// `entry_views` distributes over concatenation.
pub proof fn lemma_entry_views_add(a: Seq<(String, Json)>, b: Seq<(String, Json)>)
    ensures
        entry_views(a + b) == entry_views(a) + entry_views(b),
    decreases b.len(),
{
    if b.len() == 0 {
        assert(a + b =~= a);
        assert(entry_views(a) + entry_views(b) =~= entry_views(a));
    } else {
        lemma_entry_views_add(a, b.drop_last());
        assert((a + b).drop_last() =~= a + b.drop_last());
        assert((a + b).last() == b.last());
        assert(entry_views(a + b) =~= entry_views(a) + entry_views(b));
    }
}

fn append_entries(e: &mut Vec<(String, Json)>, more: Vec<(String, Json)>)
    ensures
        entry_views(final(e)@) == entry_views(old(e)@) + entry_views(more@),
{
    let ghost a = e@;
    let ghost b = more@;
    let mut m = more;
    e.append(&mut m);
    proof {
        lemma_entry_views_add(a, b);
    }
}

#[verifier::spinoff_prover]
#[verifier::rlimit(40)]
fn action_schedule_entries(a: &Action) -> (e: Vec<(String, Json)>)
    ensures
        entry_views(e@) == opt_time_entry("scheduledAt"@, a@.scheduled_at) + opt_time_entry("dueDate"@, a@.due_date)
            + opt_time_entry("completedDate"@, a@.completed_at) + opt_number_entry("durationMinutes"@, a@.duration),
{
    let mut e: Vec<(String, Json)> = Vec::new();
    push_opt_time(&mut e, "scheduledAt", a.scheduled_at);
    push_opt_time(&mut e, "dueDate", a.due_date);
    push_opt_time(&mut e, "completedDate", a.completed_at);
    push_opt_number(&mut e, "durationMinutes", a.duration);
    assert(entry_views(e@) =~= opt_time_entry("scheduledAt"@, a@.scheduled_at) + opt_time_entry("dueDate"@, a@.due_date)
        + opt_time_entry("completedDate"@, a@.completed_at) + opt_number_entry("durationMinutes"@, a@.duration));
    e
}

#[verifier::spinoff_prover]
#[verifier::rlimit(40)]
fn action_tail_entries(a: &Action, info: &Option<(String, u64)>) -> (e: Vec<(String, Json)>)
    ensures
        entry_views(e@) == action_tail(a@, info_view(*info)),
{
    let mut e: Vec<(String, Json)> = Vec::new();
    push_entry(&mut e, "uuid", Json::Str(uuid_string(a.id)));
    push_entry(&mut e, "status", json_str(phase_term(a.state)));
    let ghost b1 = entry_views(e@);
    let sched = action_schedule_entries(a);
    append_entries(&mut e, sched);
    let ghost b2 = entry_views(e@);
    push_opt_str(&mut e, "externalScheduleId", &a.external_schedule_id);
    push_opt_str(&mut e, "externalOccurrenceKey", &a.external_occurrence_key);
    let ghost b3 = entry_views(e@);
    match info {
        Some((f, line)) => {
            push_entry(&mut e, "sourceFile", Json::Str(f.clone()));
            push_entry(&mut e, "sourceLine", Json::Number(crate::text::decimal_string(*line)));
        },
        None => {},
    }
    assert(entry_views(e@) =~= b3 + source_entries(info_view(*info)));
    assert(entry_views(e@) =~= action_tail(a@, info_view(*info)));
    e
}

/// The node of an action, with its source file and line when given.
pub fn action_to_jsonld(a: &Action, info: &Option<(String, u64)>) -> (j: Json)
    ensures
        j@ == JsonView::Object(action_node(a@, info_view(*info))),
{
    let mut e = action_head_entries(a);
    let tail = action_tail_entries(a, info);
    append_entries(&mut e, tail);
    Json::Object(e)
}

/// A node with its sort key: type rank and identifier.
pub type Keyed = (u8, Seq<char>, JsonView);

/// The views of keyed nodes.
pub open spec fn keyed_view(v: Seq<(u8, String, Json)>) -> Seq<Keyed> {
    v.map_values(|k: (u8, String, Json)| (k.0, k.1@, k.2@))
}

/// Whether `a` sorts strictly before `b`: by type rank, then identifier.
pub open spec fn key_lt(a: Keyed, b: Keyed) -> bool {
    a.0 < b.0 || (a.0 == b.0 && seq_lt(a.1, b.1))
}

/// `x` inserted into `s` after every node that does not sort after it.
pub open spec fn insert_sorted(s: Seq<Keyed>, x: Keyed) -> Seq<Keyed>
    decreases s.len(),
{
    if s.len() == 0 {
        seq![x]
    } else if key_lt(x, s.last()) {
        insert_sorted(s.drop_last(), x).push(s.last())
    } else {
        s.push(x)
    }
}

/// The nodes stably sorted by key.
pub open spec fn sort_nodes(s: Seq<Keyed>) -> Seq<Keyed>
    decreases s.len(),
{
    if s.len() == 0 {
        Seq::empty()
    } else {
        insert_sorted(sort_nodes(s.drop_last()), s.last())
    }
}

proof fn lemma_insert_at(t: Seq<Keyed>, x: Keyed, j: int)
    requires
        0 <= j <= t.len(),
        forall|k: int| j <= k < t.len() ==> key_lt(x, #[trigger] t[k]),
        j > 0 ==> !key_lt(x, t[j - 1]),
    ensures
        insert_sorted(t, x) == t.insert(j, x),
    decreases t.len(),
{
    if t.len() == 0 {
        assert(t.insert(j, x) =~= seq![x]);
    } else if j == t.len() {
        assert(t.push(x) =~= t.insert(j, x));
    } else {
        assert(key_lt(x, t[t.len() - 1]));
        lemma_insert_at(t.drop_last(), x, j);
        assert(t.drop_last().insert(j, x).push(t.last()) =~= t.insert(j, x));
    }
}

fn node_lt(x: &(u8, String, Json), y: &(u8, String, Json)) -> (b: bool)
    ensures
        b == key_lt((x.0, x.1@, x.2@), (y.0, y.1@, y.2@)),
{
    x.0 < y.0 || (x.0 == y.0 && str_lt(x.1.as_str(), y.1.as_str()))
}

fn insert_node(t: &mut Vec<(u8, String, Json)>, x: (u8, String, Json))
    ensures
        keyed_view(final(t)@) == insert_sorted(keyed_view(old(t)@), (x.0, x.1@, x.2@)),
{
    let ghost tv = keyed_view(t@);
    let ghost xv = (x.0, x.1@, x.2@);
    let mut j: usize = t.len();
    while j > 0 && node_lt(&x, &t[j - 1])
        invariant
            tv == keyed_view(t@),
            t@ == old(t)@,
            xv == (x.0, x.1@, x.2@),
            j <= t@.len(),
            forall|k: int| j <= k < tv.len() ==> key_lt(xv, #[trigger] tv[k]),
        decreases j,
    {
        j = j - 1;
    }
    proof {
        lemma_insert_at(tv, xv, j as int);
    }
    let ghost before = t@;
    t.insert(j, x);
    assert(keyed_view(t@) =~= tv.insert(j as int, xv));
}

/// The context nodes of `tags`, keyed (rank 2).
pub open spec fn context_keyed(tags: Seq<Seq<char>>) -> Seq<Keyed> {
    tags.map_values(|t: Seq<char>| (2u8, context_urn(t), JsonView::Object(context_node(t))))
}

/// The charter nodes of `cs`, keyed (rank 0).
pub open spec fn charter_keyed(cs: Seq<CharterView>, all: Seq<CharterView>) -> Seq<Keyed> {
    cs.map_values(|c: CharterView| (0u8, uuid_iri(c.id), JsonView::Object(charter_node(c, all))))
}

/// The plan nodes of `cs`, charter by charter, keyed (rank 3).
pub open spec fn plan_keyed(cs: Seq<CharterView>, all: Seq<CharterView>) -> Seq<Keyed>
    decreases cs.len(),
{
    if cs.len() == 0 {
        Seq::empty()
    } else {
        plan_keyed(cs.drop_last(), all) + cs.last().plans.map_values(
            |p: PlanView| (3u8, uuid_iri(p.id), JsonView::Object(plan_node(p, all))),
        )
    }
}

/// A source record: action UUID, file and one-based line.
pub type SourceRecord = (u128, Seq<char>, nat);

/// The source of the action `id`: the last record for it.
pub open spec fn source_of(records: Seq<SourceRecord>, id: u128) -> SourceInfo
    decreases records.len(),
{
    if records.len() == 0 {
        None
    } else if records.last().0 == id {
        Some((records.last().1, records.last().2))
    } else {
        source_of(records.drop_last(), id)
    }
}

/// The action nodes of `acts`, keyed (rank 4), with their sources.
pub open spec fn action_keyed(acts: Seq<ActionView>, records: Seq<SourceRecord>) -> Seq<Keyed> {
    acts.map_values(|a: ActionView| (4u8, uuid_iri(a.id), JsonView::Object(action_node(a, source_of(records, a.id)))))
}

/// The text of `_meta.context_nodes.note`.
pub open spec fn context_note() -> Seq<char> {
    "Context nodes use urn:context:<name> provisional URNs. Full ontology support (SKOS scheme, real IRIs) is deferred."@
}

/// The `_meta` block: a provisional-context notice with the number of
/// context nodes.
pub open spec fn meta_block(count: nat) -> JsonView {
    JsonView::Object(seq![(
        "context_nodes"@,
        JsonView::Object(seq![
            ("status"@, jstr("provisional"@)),
            ("count"@, JsonView::Number(crate::text::decimal(count))),
            ("note"@, jstr(context_note())),
        ]),
    )])
}

/// The export document of the charters `cs`, with the `@context` value
/// `ctx`, the context tags `tags` (one per identifier, in identifier order)
/// and the action sources `records`: the context, the `_meta` block when
/// there are context nodes, and the sorted graph.
pub open spec fn document(ctx: JsonView, tags: Seq<Seq<char>>, cs: Seq<CharterView>, records: Seq<SourceRecord>) -> JsonView {
    let nodes = context_keyed(tags) + charter_keyed(cs, cs) + plan_keyed(cs, cs) + action_keyed(all_actions(cs), records);
    JsonView::Object(seq![("@context"@, ctx)] + (if tags.len() > 0 {
        seq![("_meta"@, meta_block(tags.len()))]
    } else {
        Seq::empty()
    }) + seq![("@graph"@, JsonView::Array(sort_nodes(nodes).map_values(|k: Keyed| k.2)))])
}

/// The source records of a sourced action run: each action with source
/// metadata, with `file` and its one-based line.
pub open spec fn action_records(file: Seq<char>, acts: Seq<SourcedAction>) -> Seq<SourceRecord>
    decreases acts.len(),
{
    if acts.len() == 0 {
        Seq::empty()
    } else {
        action_records(file, acts.drop_last()) + match acts.last().start_row {
            Some(row) => seq![(acts.last().id, file, (row + 1) as nat)],
            None => Seq::empty(),
        }
    }
}

/// The source records of the charters, charter by charter.
pub open spec fn source_table(cs: Seq<CharterSources>) -> Seq<SourceRecord>
    decreases cs.len(),
{
    if cs.len() == 0 {
        Seq::empty()
    } else {
        source_table(cs.drop_last()) + action_records(file_text(cs.last().actions_file), cs.last().actions@)
    }
}

/// The views of source records.
pub open spec fn records_view(v: Seq<(u128, String, u64)>) -> Seq<SourceRecord> {
    v.map_values(|r: (u128, String, u64)| (r.0, r.1@, r.2 as nat))
}

fn source_records(cs: &Vec<CharterSources>) -> (r: Vec<(u128, String, u64)>)
    requires
        rows_bounded(cs@),
    ensures
        records_view(r@) == source_table(cs@),
{
    let mut out: Vec<(u128, String, u64)> = Vec::new();
    let mut i: usize = 0;
    while i < cs.len()
        invariant
            rows_bounded(cs@),
            i <= cs@.len(),
            records_view(out@) == source_table(cs@.subrange(0, i as int)),
        decreases cs@.len() - i,
    {
        assert(cs@.subrange(0, i + 1).drop_last() =~= cs@.subrange(0, i as int));
        assert(cs@.subrange(0, i + 1).last() == cs@[i as int]);
        let file = match &cs[i].actions_file {
            Some(f) => f.clone(),
            None => String::new(),
        };
        let acts = &cs[i].actions;
        let ghost start = records_view(out@);
        let mut j: usize = 0;
        while j < acts.len()
            invariant
                rows_bounded(cs@),
                acts == &cs@[i as int].actions,
                i < cs@.len(),
                file@ == file_text(cs@[i as int].actions_file),
                j <= acts@.len(),
                records_view(out@) == start + action_records(file@, acts@.subrange(0, j as int)),
            decreases acts@.len() - j,
        {
            assert(acts@.subrange(0, j + 1).drop_last() =~= acts@.subrange(0, j as int));
            assert(acts@.subrange(0, j + 1).last() == acts@[j as int]);
            assert(row_ok(cs@[i as int].actions@[j as int]));
            match acts[j].start_row {
                Some(row) => {
                    let ghost before = out@;
                    let item = (acts[j].id, file.clone(), row + 1);
                    out.push(item);
                    proof {
                        crate::domain::lemma_map_push(before, item, |r: (u128, String, u64)| (r.0, r.1@, r.2 as nat));
                    }
                },
                None => {},
            }
            assert(records_view(out@) =~= start + action_records(file@, acts@.subrange(0, j + 1)));
            j = j + 1;
        }
        assert(acts@.subrange(0, acts@.len() as int) =~= acts@);
        assert(records_view(out@) =~= source_table(cs@.subrange(0, i + 1)));
        i = i + 1;
    }
    assert(cs@.subrange(0, cs@.len() as int) =~= cs@);
    out
}

fn lookup_source(records: &Vec<(u128, String, u64)>, id: u128) -> (r: Option<(String, u64)>)
    ensures
        info_view(r) == source_of(records_view(records@), id),
{
    let ghost rv = records_view(records@);
    assert(rv.subrange(0, rv.len() as int) =~= rv);
    let mut j: usize = records.len();
    while j > 0
        invariant
            rv == records_view(records@),
            j <= records@.len(),
            source_of(rv, id) == source_of(rv.subrange(0, j as int), id),
        decreases j,
    {
        let ghost sub = rv.subrange(0, j as int);
        assert(sub.drop_last() =~= rv.subrange(0, j - 1));
        if records[j - 1].0 == id {
            return Some((records[j - 1].1.clone(), records[j - 1].2));
        }
        j = j - 1;
    }
    None
}

fn push_keyed(v: &mut Vec<(u8, String, Json)>, x: (u8, String, Json))
    ensures
        keyed_view(final(v)@) == keyed_view(old(v)@).push((x.0, x.1@, x.2@)),
{
    let ghost before = v@;
    let ghost xx = x;
    v.push(x);
    proof {
        crate::domain::lemma_map_push(before, xx, |k: (u8, String, Json)| (k.0, k.1@, k.2@));
    }
}

fn context_nodes(tags: &Vec<String>) -> (r: Vec<(u8, String, Json)>)
    ensures
        keyed_view(r@) == context_keyed(strs(tags@)),
{
    let ghost tv = strs(tags@);
    let mut out: Vec<(u8, String, Json)> = Vec::new();
    let mut i: usize = 0;
    while i < tags.len()
        invariant
            tv == strs(tags@),
            i <= tags@.len(),
            keyed_view(out@) == context_keyed(tv.subrange(0, i as int)),
        decreases tags@.len() - i,
    {
        push_keyed(&mut out, (2u8, context_id(tags[i].as_str()), context_to_jsonld(&tags[i])));
        assert(tv.subrange(0, i + 1) =~= tv.subrange(0, i as int).push(tv[i as int]));
        assert(keyed_view(out@) =~= context_keyed(tv.subrange(0, i + 1)));
        i = i + 1;
    }
    assert(tv.subrange(0, tags@.len() as int) =~= tv);
    out
}

fn charter_nodes(all: &Vec<Charter>) -> (r: Vec<(u8, String, Json)>)
    ensures
        keyed_view(r@) == charter_keyed(charters_view(all@), charters_view(all@)),
{
    let ghost cv = charters_view(all@);
    let mut out: Vec<(u8, String, Json)> = Vec::new();
    let mut i: usize = 0;
    while i < all.len()
        invariant
            cv == charters_view(all@),
            i <= all@.len(),
            keyed_view(out@) == charter_keyed(cv.subrange(0, i as int), cv),
        decreases all@.len() - i,
    {
        push_keyed(&mut out, (0u8, uuid_iri_string(all[i].id), charter_to_jsonld(&all[i], all)));
        assert(cv.subrange(0, i + 1) =~= cv.subrange(0, i as int).push(all@[i as int]@));
        assert(keyed_view(out@) =~= charter_keyed(cv.subrange(0, i + 1), cv));
        i = i + 1;
    }
    assert(cv.subrange(0, all@.len() as int) =~= cv);
    out
}

fn plan_nodes(all: &Vec<Charter>) -> (r: Vec<(u8, String, Json)>)
    ensures
        keyed_view(r@) == plan_keyed(charters_view(all@), charters_view(all@)),
{
    let ghost cv = charters_view(all@);
    let mut out: Vec<(u8, String, Json)> = Vec::new();
    let mut i: usize = 0;
    while i < all.len()
        invariant
            cv == charters_view(all@),
            i <= all@.len(),
            keyed_view(out@) == plan_keyed(cv.subrange(0, i as int), cv),
        decreases all@.len() - i,
    {
        assert(cv.subrange(0, i + 1).drop_last() =~= cv.subrange(0, i as int));
        assert(cv.subrange(0, i + 1).last() == all@[i as int]@);
        let plans = &all[i].plans;
        let ghost pv = plans_view(plans@);
        let ghost start = keyed_view(out@);
        let mut j: usize = 0;
        while j < plans.len()
            invariant
                pv == plans_view(plans@),
                j <= plans@.len(),
                keyed_view(out@) == start + pv.subrange(0, j as int).map_values(
                    |p: PlanView| (3u8, uuid_iri(p.id), JsonView::Object(plan_node(p, cv))),
                ),
                cv == charters_view(all@),
            decreases plans@.len() - j,
        {
            push_keyed(&mut out, (3u8, uuid_iri_string(plans[j].id), plan_to_jsonld(&plans[j], all)));
            assert(pv.subrange(0, j + 1) =~= pv.subrange(0, j as int).push(pv[j as int]));
            assert(keyed_view(out@) =~= start + pv.subrange(0, j + 1).map_values(
                |p: PlanView| (3u8, uuid_iri(p.id), JsonView::Object(plan_node(p, cv))),
            ));
            j = j + 1;
        }
        assert(pv.subrange(0, plans@.len() as int) =~= pv);
        i = i + 1;
    }
    assert(cv.subrange(0, all@.len() as int) =~= cv);
    out
}

/// The keyed action nodes over two runs of actions are those of each in turn.
pub proof fn lemma_action_keyed_add(a: Seq<ActionView>, b: Seq<ActionView>, records: Seq<SourceRecord>)
    ensures
        action_keyed(a + b, records) == action_keyed(a, records) + action_keyed(b, records),
{
    assert(action_keyed(a + b, records) =~= action_keyed(a, records) + action_keyed(b, records));
}

fn action_nodes(all: &Vec<Charter>, records: &Vec<(u128, String, u64)>, enrich: bool) -> (r: Vec<(u8, String, Json)>)
    ensures
        keyed_view(r@) == action_keyed(
            all_actions(charters_view(all@)),
            if enrich { records_view(records@) } else { Seq::empty() },
        ),
{
    let ghost cv = charters_view(all@);
    let ghost rv = if enrich { records_view(records@) } else { Seq::<SourceRecord>::empty() };
    let mut out: Vec<(u8, String, Json)> = Vec::new();
    let mut i: usize = 0;
    while i < all.len()
        invariant
            cv == charters_view(all@),
            rv == (if enrich { records_view(records@) } else { Seq::<SourceRecord>::empty() }),
            i <= all@.len(),
            keyed_view(out@) == action_keyed(all_actions(cv.subrange(0, i as int)), rv),
        decreases all@.len() - i,
    {
        assert(cv.subrange(0, i + 1).drop_last() =~= cv.subrange(0, i as int));
        assert(cv.subrange(0, i + 1).last() == all@[i as int]@);
        let acts = &all[i].actions;
        let ghost av = actions_view(acts@);
        let ghost start = keyed_view(out@);
        let mut j: usize = 0;
        while j < acts.len()
            invariant
                av == actions_view(acts@),
                rv == (if enrich { records_view(records@) } else { Seq::<SourceRecord>::empty() }),
                j <= acts@.len(),
                keyed_view(out@) == start + action_keyed(av.subrange(0, j as int), rv),
            decreases acts@.len() - j,
        {
            let a = &acts[j];
            let info = if enrich {
                let text = uuid_string(a.id);
                match crate::vocab::uuid_parse(text.as_str()) {
                    Some(id) => lookup_source(records, id),
                    None => None,
                }
            } else {
                None
            };
            assert(info_view(info) == source_of(rv, a.id));
            push_keyed(&mut out, (4u8, uuid_iri_string(a.id), action_to_jsonld(a, &info)));
            assert(av.subrange(0, j + 1) =~= av.subrange(0, j as int).push(av[j as int]));
            assert(keyed_view(out@) =~= start + action_keyed(av.subrange(0, j + 1), rv));
            j = j + 1;
        }
        assert(av.subrange(0, acts@.len() as int) =~= av);
        proof {
            lemma_action_keyed_add(all_actions(cv.subrange(0, i as int)), av, rv);
        }
        i = i + 1;
    }
    assert(cv.subrange(0, all@.len() as int) =~= cv);
    out
}

fn sort_keyed(v: Vec<(u8, String, Json)>) -> (r: Vec<(u8, String, Json)>)
    ensures
        keyed_view(r@) == sort_nodes(keyed_view(v@)),
{
    let ghost orig = keyed_view(v@);
    let mut rest = v;
    let mut out: Vec<(u8, String, Json)> = Vec::new();
    let mut i: usize = 0;
    let n = rest.len();
    while 0 < rest.len()
        invariant
            orig.len() == n,
            i + rest@.len() == n,
            keyed_view(rest@) == orig.subrange(i as int, n as int),
            keyed_view(out@) == sort_nodes(orig.subrange(0, i as int)),
        decreases rest@.len(),
    {
        let ghost before = rest@;
        let x = rest.remove(0);
        proof {
            assert(keyed_view(before)[0] == (x.0, x.1@, x.2@));
            assert(keyed_view(rest@) =~= keyed_view(before).drop_first());
            assert(orig.subrange(0, i + 1).drop_last() =~= orig.subrange(0, i as int));
            assert(orig.subrange(0, i + 1).last() == orig[i as int]);
        }
        insert_node(&mut out, x);
        i = i + 1;
    }
    assert(orig.subrange(0, n as int) =~= orig);
    out
}

/// Keyed views distribute over concatenation.
pub proof fn lemma_keyed_view_add(a: Seq<(u8, String, Json)>, b: Seq<(u8, String, Json)>)
    ensures
        keyed_view(a + b) == keyed_view(a) + keyed_view(b),
{
    assert(keyed_view(a + b) =~= keyed_view(a) + keyed_view(b));
}

fn append_keyed(v: &mut Vec<(u8, String, Json)>, more: Vec<(u8, String, Json)>)
    ensures
        keyed_view(final(v)@) == keyed_view(old(v)@) + keyed_view(more@),
{
    let ghost a = v@;
    let ghost b = more@;
    let mut m = more;
    v.append(&mut m);
    proof {
        lemma_keyed_view_add(a, b);
    }
}

/// The `@context` value of a context document, if it is an object with one.
pub open spec fn context_of(doc: JsonView) -> Option<JsonView> {
    match doc {
        JsonView::Object(e) => entries_get(e, "@context"@),
        _ => None,
    }
}

proof fn lemma_entries_get_front(s: Seq<Entry>, k: Seq<char>)
    requires
        s.len() > 0,
    ensures
        s[0].0 == k ==> entries_get(s, k) == Some(s[0].1),
        s[0].0 != k ==> entries_get(s, k) == entries_get(s.drop_first(), k),
{
    let t = s.drop_first();
    crate::json::lemma_key_index_spec(s, k);
    crate::json::lemma_key_index_spec(t, k);
    if s[0].0 != k {
        match crate::json::key_index(s, k) {
            Some(i) => {
                assert(t[i - 1] == s[i]);
                match crate::json::key_index(t, k) {
                    Some(i2) => {
                        assert(s[i2 + 1] == t[i2]);
                        if i2 < i - 1 {
                            assert(s[i2 + 1].0 == k);
                        }
                    },
                    None => {},
                }
            },
            None => {
                match crate::json::key_index(t, k) {
                    Some(i2) => {
                        assert(s[i2 + 1] == t[i2]);
                    },
                    None => {},
                }
            },
        }
    } else {
        match crate::json::key_index(s, k) {
            Some(i) => {
                if i > 0 {
                    assert(s[0].0 == k);
                }
            },
            None => {},
        }
    }
}

fn take_value(entries: Vec<(String, Json)>, key: &str) -> (r: Option<Json>)
    ensures
        match r {
            Some(v) => entries_get(entry_views(entries@), key@) == Some(v@),
            None => entries_get(entry_views(entries@), key@) is None,
        },
{
    let ghost ev = entry_views(entries@);
    proof {
        crate::json::lemma_entry_views_len(entries@);
    }
    let n = entries.len();
    let mut rest = entries;
    let mut found: Option<Json> = None;
    assert(ev.subrange(n as int, n as int) =~= Seq::<Entry>::empty());
    assert(ev.subrange(0, n as int) =~= ev);
    while rest.len() > 0
        invariant
            ev.len() == n,
            rest@.len() <= n,
            entry_views(rest@) == ev.subrange(0, rest@.len() as int),
            match found {
                Some(v) => entries_get(ev.subrange(rest@.len() as int, n as int), key@) == Some(v@),
                None => entries_get(ev.subrange(rest@.len() as int, n as int), key@) is None,
            },
        decreases rest@.len(),
    {
        let ghost m = rest@.len() as int;
        let ghost before = rest@;
        let item = rest.pop().unwrap();
        proof {
            assert(before.drop_last() =~= rest@);
            assert(entry_views(before) == entry_views(before.drop_last()).push((item.0@, item.1@)));
            assert(ev.subrange(0, m).last() == (item.0@, item.1@));
            assert(entry_views(rest@) =~= ev.subrange(0, m - 1));
            let s = ev.subrange(m - 1, n as int);
            assert(s[0] == (item.0@, item.1@));
            assert(s.drop_first() =~= ev.subrange(m, n as int));
            lemma_entries_get_front(s, key@);
        }
        if crate::text::str_eq(item.0.as_str(), key) {
            found = Some(item.1);
        }
    }
    found
}

fn extract_context(doc: Json) -> (r: Result<Json, GraphError>)
    ensures
        match r {
            Ok(v) => context_of(doc@) == Some(v@),
            Err(e) => context_of(doc@) is None && e is Syntax,
        },
{
    match doc {
        Json::Object(entries) => {
            match take_value(entries, "@context") {
                Some(v) => Ok(v),
                None => Err(GraphError::Syntax(String::from_str("Vendored context missing @context"))),
            }
        },
        _ => Err(GraphError::Syntax(String::from_str("Vendored context missing @context"))),
    }
}

fn node_values(v: Vec<(u8, String, Json)>) -> (r: Vec<Json>)
    ensures
        json_views(r@) == keyed_view(v@).map_values(|k: Keyed| k.2),
{
    let ghost orig = keyed_view(v@);
    let n = v.len();
    let mut rest = v;
    let mut out: Vec<Json> = Vec::new();
    let mut i: usize = 0;
    while 0 < rest.len()
        invariant
            orig.len() == n,
            i + rest@.len() == n,
            keyed_view(rest@) == orig.subrange(i as int, n as int),
            json_views(out@) == orig.subrange(0, i as int).map_values(|k: Keyed| k.2),
        decreases rest@.len(),
    {
        let ghost before = rest@;
        let x = rest.remove(0);
        proof {
            assert(keyed_view(before)[0] == (x.0, x.1@, x.2@));
            assert(keyed_view(rest@) =~= keyed_view(before).drop_first());
            assert(orig.subrange(0, i + 1) =~= orig.subrange(0, i as int).push(orig[i as int]));
            crate::domain::lemma_map_push(orig.subrange(0, i as int), orig[i as int], |k: Keyed| k.2);
        }
        push_item(&mut out, x.2);
        i = i + 1;
    }
    assert(orig.subrange(0, n as int) =~= orig);
    out
}

fn meta_value(count: usize) -> (j: Json)
    ensures
        j@ == meta_block(count as nat),
{
    let mut inner: Vec<(String, Json)> = Vec::new();
    push_entry(&mut inner, "status", json_str("provisional"));
    push_entry(&mut inner, "count", Json::Number(crate::text::decimal_string(count as u64)));
    push_entry(
        &mut inner,
        "note",
        json_str("Context nodes use urn:context:<name> provisional URNs. Full ontology support (SKOS scheme, real IRIs) is deferred."),
    );
    assert(entry_views(inner@) =~= seq![
        ("status"@, jstr("provisional"@)),
        ("count"@, JsonView::Number(crate::text::decimal(count as nat))),
        ("note"@, jstr(context_note())),
    ]);
    let mut outer: Vec<(String, Json)> = Vec::new();
    push_entry(&mut outer, "context_nodes", Json::Object(inner));
    assert(entry_views(outer@) =~= seq![(
        "context_nodes"@,
        JsonView::Object(seq![
            ("status"@, jstr("provisional"@)),
            ("count"@, JsonView::Number(crate::text::decimal(count as nat))),
            ("note"@, jstr(context_note())),
        ]),
    )]);
    Json::Object(outer)
}

fn build_document(model: &DomainModel, ctx: Json, records: &Vec<(u128, String, u64)>, enrich: bool) -> (j: Json)
    ensures
        exists|t: Seq<(Seq<char>, Seq<char>)>|
            #![trigger sorted_table(t, context_map(context_tags(all_actions(model@))))]
            sorted_table(t, context_map(context_tags(all_actions(model@)))) && j@ == document(
                ctx@,
                t.map_values(|p: (Seq<char>, Seq<char>)| p.1),
                model@,
                if enrich { records_view(records@) } else { Seq::empty() },
            ),
{
    let tags = collect_contexts(model);
    let ghost t = choose|t: Seq<(Seq<char>, Seq<char>)>|
        sorted_table(t, context_map(context_tags(all_actions(model@))))
            && strs(tags@) == t.map_values(|p: (Seq<char>, Seq<char>)| p.1);
    let ghost rv = if enrich { records_view(records@) } else { Seq::<SourceRecord>::empty() };
    let ghost tagv = t.map_values(|p: (Seq<char>, Seq<char>)| p.1);
    let ghost unsorted = context_keyed(tagv) + charter_keyed(model@, model@) + plan_keyed(model@, model@)
        + action_keyed(all_actions(model@), rv);
    let mut nodes = context_nodes(&tags);
    append_keyed(&mut nodes, charter_nodes(&model.charters));
    append_keyed(&mut nodes, plan_nodes(&model.charters));
    append_keyed(&mut nodes, action_nodes(&model.charters, records, enrich));
    assert(keyed_view(nodes@) == unsorted);
    let sorted = sort_keyed(nodes);
    let graph = node_values(sorted);
    assert(json_views(graph@) == sort_nodes(unsorted).map_values(|k: Keyed| k.2));
    proof {
        assert(strs(tags@).len() == tagv.len());
        assert(tags@.len() == strs(tags@).len());
    }
    let ghost ctxv = ctx@;
    let ghost graphv = JsonView::Array(json_views(graph@));
    let mut e: Vec<(String, Json)> = Vec::new();
    push_entry(&mut e, "@context", ctx);
    let ghost head = entry_views(e@);
    if tags.len() > 0 {
        let meta = meta_value(tags.len());
        push_entry(&mut e, "_meta", meta);
    }
    push_entry(&mut e, "@graph", Json::Array(graph));
    assert(entry_views(e@) =~= seq![("@context"@, ctxv)] + (if tagv.len() > 0 {
        seq![("_meta"@, meta_block(tagv.len()))]
    } else {
        Seq::empty()
    }) + seq![("@graph"@, graphv)]);
    let j = Json::Object(e);
    assert(j@ == document(
        ctx@,
        t.map_values(|p: (Seq<char>, Seq<char>)| p.1),
        model@,
        if enrich { records_view(records@) } else { Seq::empty() },
    ));
    j
}

/// The compact JSON-LD export of the model, with the `@context` of
/// `context_document` (the vendored actions context). A context document
/// without `@context` gives a syntax error.
pub fn serialize_domain_to_jsonld(model: &DomainModel, context_document: Json) -> (r: Result<Json, GraphError>)
    ensures
        match r {
            Ok(j) => context_of(context_document@) matches Some(ctx) && exists|t: Seq<(Seq<char>, Seq<char>)>|
                #![trigger sorted_table(t, context_map(context_tags(all_actions(model@))))]
                sorted_table(t, context_map(context_tags(all_actions(model@)))) && j@ == document(
                    ctx,
                    t.map_values(|p: (Seq<char>, Seq<char>)| p.1),
                    model@,
                    Seq::empty(),
                ),
            Err(e) => context_of(context_document@) is None && e is Syntax,
        },
{
    let ghost cd = context_document@;
    let ctx = extract_context(context_document)?;
    let none: Vec<(u128, String, u64)> = Vec::new();
    Ok(build_document(model, ctx, &none, false))
}

/// The workspace vocabulary's additions to an object `@context`: the `ws`
/// prefix and the `sourceFile` and `sourceLine` terms.
pub open spec fn workspace_context(ctx: JsonView) -> JsonView {
    match ctx {
        JsonView::Object(e) => JsonView::Object(entries_insert(
            entries_insert(
                entries_insert(e, "ws"@, jstr(crate::vocab::WORKSPACE_NS@)),
                "sourceFile"@,
                jstr("ws:hasSourceFile"@),
            ),
            "sourceLine"@,
            JsonView::Object(seq![("@id"@, jstr("ws:hasSourceLine"@)), ("@type"@, jstr("xsd:integer"@))]),
        )),
        _ => ctx,
    }
}

/// The document `doc` with the value of its leading `@context` entry set to
/// `ctx`.
pub open spec fn with_context(doc: JsonView, ctx: JsonView) -> JsonView {
    match doc {
        JsonView::Object(e) => if e.len() > 0 {
            JsonView::Object(e.update(0, ("@context"@, ctx)))
        } else {
            doc
        },
        _ => doc,
    }
}

/// The workspace export has the structure of the domain export: for the same
/// model, context names and source records, the two documents differ only in
/// the value of `@context`. Without source records, the workspace export is
/// the domain export with the workspace vocabulary added to its context.
pub proof fn lemma_workspace_export_is_domain_export_with_context(
    ctx: JsonView,
    tags: Seq<Seq<char>>,
    cs: Seq<CharterView>,
    records: Seq<SourceRecord>,
)
    ensures
        document(workspace_context(ctx), tags, cs, records) == with_context(
            document(ctx, tags, cs, records),
            workspace_context(ctx),
        ),
        document(workspace_context(ctx), tags, cs, Seq::empty()) == with_context(
            document(ctx, tags, cs, Seq::empty()),
            workspace_context(ctx),
        ),
{
    let w = workspace_context(ctx);
    let meta = if tags.len() > 0 {
        seq![("_meta"@, meta_block(tags.len()))]
    } else {
        Seq::empty()
    };
    let nodes = context_keyed(tags) + charter_keyed(cs, cs) + plan_keyed(cs, cs) + action_keyed(all_actions(cs), records);
    let g = seq![("@graph"@, JsonView::Array(sort_nodes(nodes).map_values(|k: Keyed| k.2)))];
    assert((seq![("@context"@, ctx)] + meta + g).update(0, ("@context"@, w)) =~= seq![("@context"@, w)] + meta + g);
    let nodes0 = context_keyed(tags) + charter_keyed(cs, cs) + plan_keyed(cs, cs) + action_keyed(all_actions(cs), Seq::empty());
    let g0 = seq![("@graph"@, JsonView::Array(sort_nodes(nodes0).map_values(|k: Keyed| k.2)))];
    assert((seq![("@context"@, ctx)] + meta + g0).update(0, ("@context"@, w)) =~= seq![("@context"@, w)] + meta + g0);
}

/// The nodes of the export of a model, before sorting: its context nodes,
/// charters, plans and actions.
pub open spec fn graph_nodes(tags: Seq<Seq<char>>, cs: Seq<CharterView>, records: Seq<SourceRecord>) -> Seq<Keyed> {
    context_keyed(tags) + charter_keyed(cs, cs) + plan_keyed(cs, cs) + action_keyed(all_actions(cs), records)
}

/// Whether the node `x` of a workspace export is the node `y` of the domain
/// export: the same type rank and identifier, and the same node or, for an
/// action, the domain node followed by the action's source entries.
pub open spec fn node_with_sources(x: Keyed, y: Keyed) -> bool {
    &&& x.0 == y.0
    &&& x.1 == y.1
    &&& (x.2 == y.2 || exists|a: ActionView, info: SourceInfo|
        #![trigger action_node(a, info)]
        x.2 == JsonView::Object(action_node(a, info)) && y.2 == JsonView::Object(action_node(a, None)) && action_node(
            a,
            info,
        ) == action_node(a, None) + source_entries(info))
}

/// An action's node with source information is its node without, followed by
/// the source entries.
pub proof fn lemma_action_node_sources(a: ActionView, info: SourceInfo)
    ensures
        action_node(a, info) == action_node(a, None) + source_entries(info),
{
    let x = seq![("uuid"@, jstr(uuid_text(a.id))), ("status"@, jstr(phase_name(a.state)))]
        + opt_time_entry("scheduledAt"@, a.scheduled_at) + opt_time_entry("dueDate"@, a.due_date)
        + opt_time_entry("completedDate"@, a.completed_at) + opt_number_entry("durationMinutes"@, a.duration)
        + opt_str_entry("externalScheduleId"@, a.external_schedule_id) + opt_str_entry(
        "externalOccurrenceKey"@,
        a.external_occurrence_key,
    );
    assert(action_tail(a, None) =~= x);
    assert(action_tail(a, info) == x + source_entries(info));
    assert(action_node(a, info) =~= action_node(a, None) + source_entries(info));
}

proof fn lemma_insert_with_sources(t1: Seq<Keyed>, t2: Seq<Keyed>, x1: Keyed, x2: Keyed)
    requires
        t1.len() == t2.len(),
        forall|i: int| 0 <= i < t1.len() ==> node_with_sources(#[trigger] t1[i], t2[i]),
        node_with_sources(x1, x2),
    ensures
        insert_sorted(t1, x1).len() == insert_sorted(t2, x2).len(),
        forall|i: int|
            0 <= i < insert_sorted(t1, x1).len() ==> node_with_sources(
                #[trigger] insert_sorted(t1, x1)[i],
                insert_sorted(t2, x2)[i],
            ),
    decreases t1.len(),
{
    if t1.len() > 0 {
        assert(node_with_sources(t1[t1.len() - 1], t2[t2.len() - 1]));
        if key_lt(x1, t1.last()) {
            lemma_insert_with_sources(t1.drop_last(), t2.drop_last(), x1, x2);
            let r1 = insert_sorted(t1.drop_last(), x1);
            let r2 = insert_sorted(t2.drop_last(), x2);
            assert forall|i: int| 0 <= i < r1.push(t1.last()).len() implies node_with_sources(
                #[trigger] r1.push(t1.last())[i],
                r2.push(t2.last())[i],
            ) by {
                if i < r1.len() {
                    assert(node_with_sources(r1[i], r2[i]));
                }
            }
        } else {
            assert forall|i: int| 0 <= i < t1.push(x1).len() implies node_with_sources(
                #[trigger] t1.push(x1)[i],
                t2.push(x2)[i],
            ) by {
                if i < t1.len() {
                    assert(node_with_sources(t1[i], t2[i]));
                }
            }
        }
    }
}

proof fn lemma_sort_with_sources(s1: Seq<Keyed>, s2: Seq<Keyed>)
    requires
        s1.len() == s2.len(),
        forall|i: int| 0 <= i < s1.len() ==> node_with_sources(#[trigger] s1[i], s2[i]),
    ensures
        sort_nodes(s1).len() == sort_nodes(s2).len(),
        forall|i: int| 0 <= i < sort_nodes(s1).len() ==> node_with_sources(#[trigger] sort_nodes(s1)[i], sort_nodes(s2)[i]),
    decreases s1.len(),
{
    if s1.len() > 0 {
        assert forall|i: int| 0 <= i < s1.drop_last().len() implies node_with_sources(
            #[trigger] s1.drop_last()[i],
            s2.drop_last()[i],
        ) by {
            assert(node_with_sources(s1[i], s2[i]));
        }
        lemma_sort_with_sources(s1.drop_last(), s2.drop_last());
        assert(node_with_sources(s1[s1.len() - 1], s2[s2.len() - 1]));
        lemma_insert_with_sources(sort_nodes(s1.drop_last()), sort_nodes(s2.drop_last()), s1.last(), s2.last());
    }
}

/// The workspace export's graph is the domain export's graph, node for node
/// in the same order: each node is the same, except that an action with a
/// source record also carries its `sourceFile` and `sourceLine` entries.
/// Removing those entries gives the domain export's nodes back.
pub proof fn lemma_workspace_graph_adds_only_sources(tags: Seq<Seq<char>>, cs: Seq<CharterView>, records: Seq<SourceRecord>)
    ensures
        sort_nodes(graph_nodes(tags, cs, records)).len() == sort_nodes(graph_nodes(tags, cs, Seq::empty())).len(),
        forall|i: int|
            0 <= i < sort_nodes(graph_nodes(tags, cs, records)).len() ==> node_with_sources(
                #[trigger] sort_nodes(graph_nodes(tags, cs, records))[i],
                sort_nodes(graph_nodes(tags, cs, Seq::empty()))[i],
            ),
        forall|ctx: JsonView, rs: Seq<SourceRecord>|
            #[trigger] document(ctx, tags, cs, rs) == JsonView::Object(seq![("@context"@, ctx)] + (if tags.len() > 0 {
                seq![("_meta"@, meta_block(tags.len()))]
            } else {
                Seq::empty()
            }) + seq![("@graph"@, JsonView::Array(sort_nodes(graph_nodes(tags, cs, rs)).map_values(|k: Keyed| k.2)))]),
{
    let n1 = graph_nodes(tags, cs, records);
    let n0 = graph_nodes(tags, cs, Seq::empty());
    let pre = context_keyed(tags) + charter_keyed(cs, cs) + plan_keyed(cs, cs);
    let acts = all_actions(cs);
    assert forall|i: int| 0 <= i < n1.len() implies node_with_sources(#[trigger] n1[i], n0[i]) by {
        if i < pre.len() {
            assert(n1[i] == pre[i]);
            assert(n0[i] == pre[i]);
        } else {
            let k = i - pre.len();
            assert(n1[i] == action_keyed(acts, records)[k]);
            assert(n0[i] == action_keyed(acts, Seq::empty())[k]);
            let a = acts[k];
            let info = source_of(records, a.id);
            lemma_action_node_sources(a, info);
            assert(source_of(Seq::empty(), a.id) is None);
            assert(n1[i].2 == JsonView::Object(action_node(a, info)));
        }
    }
    lemma_sort_with_sources(n1, n0);
}

/// A sequence holds what either part of a concatenation holds.
proof fn lemma_holds_in_add<A>(x: Seq<A>, y: Seq<A>, q: A)
    ensures
        x.contains(q) ==> (x + y).contains(q),
        y.contains(q) ==> (x + y).contains(q),
{
    if x.contains(q) {
        let i = choose|i: int| 0 <= i < x.len() && x[i] == q;
        assert((x + y)[i] == q);
    }
    if y.contains(q) {
        let i = choose|i: int| 0 <= i < y.len() && y[i] == q;
        assert((x + y)[x.len() + i] == q);
    }
}

/// Whether the last entry of the document `doc` is its `@graph` array and
/// one node of it holds both entries `e1` and `e2`.
pub open spec fn graph_holds_node(doc: JsonView, e1: Entry, e2: Entry) -> bool {
    &&& doc is Object
    &&& doc->Object_0.len() > 0
    &&& doc->Object_0.last().0 == "@graph"@
    &&& doc->Object_0.last().1 is Array
    &&& exists|n: Seq<Entry>|
        #[trigger] doc->Object_0.last().1->Array_0.contains(JsonView::Object(n)) && n.contains(e1) && n.contains(e2)
}

/// The node of an action holds its identifier and, where it has a parent,
/// the parent's IRI as `partOf`.
proof fn lemma_action_node_part_of(a: ActionView, info: SourceInfo)
    ensures
        action_node(a, info).contains(("id"@, jstr(uuid_iri(a.id)))),
        a.parent_id matches Some(p) ==> action_node(a, info).contains(("partOf"@, jstr(uuid_iri(p)))),
{
    let id = ("id"@, jstr(uuid_iri(a.id)));
    let b = base_node(uuid_iri(a.id), "Action"@);
    assert(b[0] == id);
    let x1 = b + seq![("name"@, jstr(a.name))];
    let x2 = x1 + opt_str_entry("description"@, a.description);
    let x3 = x2 + opt_str_entry("alias"@, a.alias);
    let x4 = x3 + opt_number_entry("priority"@, a.priority);
    let x5 = x4 + match a.contexts {
        Some(tags) => ids_entry("requiresContext"@, tags.map_values(|t: Seq<char>| context_urn(t))),
        None => Seq::empty(),
    };
    let po = match a.parent_id {
        Some(pid) => seq![("partOf"@, jstr(uuid_iri(pid)))],
        None => Seq::<Entry>::empty(),
    };
    let x6 = x5 + po;
    let x7 = x6 + ids_entry("isSuccessorOf"@, depends_on(a).map_values(|id: u128| uuid_iri(id)));
    assert(action_head(a) == x7);
    let t = action_tail(a, info);
    assert(action_node(a, info) == x7 + t);
    lemma_holds_in_add(b, seq![("name"@, jstr(a.name))], id);
    lemma_holds_in_add(x1, opt_str_entry("description"@, a.description), id);
    lemma_holds_in_add(x2, opt_str_entry("alias"@, a.alias), id);
    lemma_holds_in_add(x3, opt_number_entry("priority"@, a.priority), id);
    lemma_holds_in_add(x4, x5.subrange(x4.len() as int, x5.len() as int), id);
    assert(x4 + x5.subrange(x4.len() as int, x5.len() as int) == x5);
    lemma_holds_in_add(x5, po, id);
    lemma_holds_in_add(x6, ids_entry("isSuccessorOf"@, depends_on(a).map_values(|id: u128| uuid_iri(id))), id);
    lemma_holds_in_add(x7, t, id);
    if let Some(p) = a.parent_id {
        let q = ("partOf"@, jstr(uuid_iri(p)));
        assert(po[0] == q);
        lemma_holds_in_add(x5, po, q);
        lemma_holds_in_add(x6, ids_entry("isSuccessorOf"@, depends_on(a).map_values(|id: u128| uuid_iri(id))), q);
        lemma_holds_in_add(x7, t, q);
    }
}

/// The JSON-LD export keeps the parent links of actions: for every action of
/// the model with a parent, the `@graph` holds a node with the action's
/// identifier and a `partOf` entry naming the parent's IRI.
pub proof fn lemma_export_keeps_parent_links(
    ctx: JsonView,
    tags: Seq<Seq<char>>,
    cs: Seq<CharterView>,
    records: Seq<SourceRecord>,
)
    ensures
        forall|k: int|
            0 <= k < all_actions(cs).len() && (#[trigger] all_actions(cs)[k]).parent_id is Some ==> graph_holds_node(
                document(ctx, tags, cs, records),
                ("id"@, jstr(uuid_iri(all_actions(cs)[k].id))),
                ("partOf"@, jstr(uuid_iri(all_actions(cs)[k].parent_id->Some_0))),
            ),
{
    broadcast use vstd::seq_lib::group_to_multiset_ensures;
    let acts = all_actions(cs);
    let nodes = graph_nodes(tags, cs, records);
    let pre = context_keyed(tags) + charter_keyed(cs, cs) + plan_keyed(cs, cs);
    lemma_sort_nodes(nodes);
    let sorted = sort_nodes(nodes);
    let arr = sorted.map_values(|k: Keyed| k.2);
    let meta = if tags.len() > 0 {
        seq![("_meta"@, meta_block(tags.len()))]
    } else {
        Seq::empty()
    };
    let e = seq![("@context"@, ctx)] + meta + seq![("@graph"@, JsonView::Array(arr))];
    assert(document(ctx, tags, cs, records) == JsonView::Object(e));
    assert(e.last() == ("@graph"@, JsonView::Array(arr)));
    assert forall|k: int| 0 <= k < acts.len() && (#[trigger] acts[k]).parent_id is Some implies graph_holds_node(
        document(ctx, tags, cs, records),
        ("id"@, jstr(uuid_iri(acts[k].id))),
        ("partOf"@, jstr(uuid_iri(acts[k].parent_id->Some_0))),
    ) by {
        let a = acts[k];
        let n = action_node(a, source_of(records, a.id));
        let x = (4u8, uuid_iri(a.id), JsonView::Object(n));
        assert(action_keyed(acts, records)[k] == x);
        lemma_holds_in_add(pre, action_keyed(acts, records), x);
        assert(nodes.contains(x));
        assert(sorted.to_multiset().count(x) > 0);
        assert(sorted.contains(x));
        let j = choose|j: int| 0 <= j < sorted.len() && sorted[j] == x;
        assert(arr[j] == JsonView::Object(n));
        assert(arr.contains(JsonView::Object(n)));
        lemma_action_node_part_of(a, source_of(records, a.id));
        let e1 = ("id"@, jstr(uuid_iri(a.id)));
        let e2 = ("partOf"@, jstr(uuid_iri(a.parent_id->Some_0)));
        assert(n.contains(e1) && n.contains(e2));
        assert(e.len() > 0 && e.last().0 == "@graph"@);
        assert(e.last().1 == JsonView::Array(arr));
        assert(arr.contains(JsonView::Object(n)) && n.contains(e1) && n.contains(e2));
        assert(JsonView::Object(e)->Object_0.last().1->Array_0 == arr);
        assert(graph_holds_node(JsonView::Object(e), e1, e2));
    }
}

/// The compact JSON-LD export of a workspace's model, enriched with the
/// workspace vocabulary: each action with source metadata gets its
/// `sourceFile` and one-based `sourceLine` (the last record for its UUID).
pub fn serialize_workspace_to_jsonld(model: &DomainModel, sources: &Vec<CharterSources>, context_document: Json) -> (r:
    Result<Json, GraphError>)
    requires
        rows_bounded(sources@),
    ensures
        match r {
            Ok(j) => context_of(context_document@) matches Some(ctx) && exists|t: Seq<(Seq<char>, Seq<char>)>|
                #![trigger sorted_table(t, context_map(context_tags(all_actions(model@))))]
                sorted_table(t, context_map(context_tags(all_actions(model@)))) && j@ == document(
                    workspace_context(ctx),
                    t.map_values(|p: (Seq<char>, Seq<char>)| p.1),
                    model@,
                    source_table(sources@),
                ),
            Err(e) => context_of(context_document@) is None && e is Syntax,
        },
{
    let ctx = extract_context(context_document)?;
    let ghost cv = ctx@;
    let ctx2 = match ctx {
        Json::Object(mut e) => {
            insert_entry(&mut e, "ws", json_str(crate::vocab::WORKSPACE_NS));
            insert_entry(&mut e, "sourceFile", json_str("ws:hasSourceFile"));
            let mut line: Vec<(String, Json)> = Vec::new();
            push_entry(&mut line, "@id", json_str("ws:hasSourceLine"));
            push_entry(&mut line, "@type", json_str("xsd:integer"));
            assert(entry_views(line@) =~= seq![("@id"@, jstr("ws:hasSourceLine"@)), ("@type"@, jstr("xsd:integer"@))]);
            insert_entry(&mut e, "sourceLine", Json::Object(line));
            Json::Object(e)
        },
        other => other,
    };
    assert(ctx2@ == workspace_context(cv));
    let records = source_records(sources);
    Ok(build_document(model, ctx2, &records, true))
}

/// Whether the keyed nodes are in key order: no node sorts before one
/// that precedes it.
pub open spec fn keys_sorted(s: Seq<Keyed>) -> bool {
    forall|i: int, j: int| 0 <= i < j < s.len() ==> !key_lt(#[trigger] s[j], #[trigger] s[i])
}

proof fn lemma_seq_le_chain(a: Seq<char>, b: Seq<char>, c: Seq<char>)
    requires
        !seq_lt(b, a),
        !seq_lt(c, b),
    ensures
        !seq_lt(c, a),
{
    lemma_seq_lt_total(a, b);
    lemma_seq_lt_total(b, c);
    lemma_seq_lt_total(a, c);
    if seq_lt(c, a) {
        if a != b && b != c {
            lemma_seq_lt_transitive(a, b, c);
        }
    }
}

proof fn lemma_key_order(a: Keyed, b: Keyed, c: Keyed)
    ensures
        !(key_lt(a, b) && key_lt(b, a)),
        !key_lt(b, a) && !key_lt(c, b) ==> !key_lt(c, a),
{
    lemma_seq_lt_total(a.1, b.1);
    if !key_lt(b, a) && !key_lt(c, b) && a.0 == b.0 && b.0 == c.0 {
        lemma_seq_le_chain(a.1, b.1, c.1);
    }
}

proof fn lemma_insert_sorted(s: Seq<Keyed>, x: Keyed)
    ensures
        forall|e: Keyed| #[trigger] insert_sorted(s, x).contains(e) <==> (e == x || s.contains(e)),
        insert_sorted(s, x).to_multiset() =~= s.to_multiset().insert(x),
        keys_sorted(s) ==> keys_sorted(insert_sorted(s, x)),
    decreases s.len(),
{
    broadcast use vstd::seq_lib::group_to_multiset_ensures;
    let r = insert_sorted(s, x);
    if s.len() == 0 {
        assert(r =~= s.push(x));
        assert forall|e: Keyed| #[trigger] r.contains(e) <==> (e == x || s.contains(e)) by {
            if e == x {
                assert(r[0] == e);
            }
        }
    } else if key_lt(x, s.last()) {
        let d = s.drop_last();
        let l = s.last();
        lemma_insert_sorted(d, x);
        let r0 = insert_sorted(d, x);
        assert(s =~= d.push(l));
        assert(r == r0.push(l));
        assert forall|e: Keyed| #[trigger] r.contains(e) <==> (e == x || s.contains(e)) by {
            if r.contains(e) {
                let k = choose|k: int| 0 <= k < r.len() && r[k] == e;
                if k < r0.len() {
                    assert(r0[k] == e);
                    assert(r0.contains(e));
                }
            }
            if e == x || s.contains(e) {
                if e == l {
                    assert(r[r.len() - 1] == e);
                } else if e == x {
                    assert(r0.contains(e));
                    let k = choose|k: int| 0 <= k < r0.len() && r0[k] == e;
                    assert(r[k] == e);
                } else {
                    let k = choose|k: int| 0 <= k < s.len() && s[k] == e;
                    assert(d[k] == e);
                    assert(d.contains(e));
                    assert(r0.contains(e));
                    let k2 = choose|k2: int| 0 <= k2 < r0.len() && r0[k2] == e;
                    assert(r[k2] == e);
                }
            }
        }
        if keys_sorted(s) {
            assert(keys_sorted(d));
            assert(keys_sorted(r0));
            assert forall|i: int, j: int| 0 <= i < j < r.len() implies !key_lt(#[trigger] r[j], #[trigger] r[i]) by {
                if j < r0.len() {
                    assert(r[i] == r0[i] && r[j] == r0[j]);
                } else {
                    assert(r[j] == l);
                    assert(r[i] == r0[i]);
                    assert(r0.contains(r0[i]));
                    if r0[i] == x {
                        lemma_key_order(x, l, l);
                    } else {
                        assert(d.contains(r0[i]));
                        let k = choose|k: int| 0 <= k < d.len() && d[k] == r0[i];
                        assert(s[k] == d[k]);
                        assert(!key_lt(s[s.len() - 1], s[k]));
                    }
                }
            }
        }
    } else {
        assert(r == s.push(x));
        assert forall|e: Keyed| #[trigger] r.contains(e) <==> (e == x || s.contains(e)) by {
            if r.contains(e) {
                let k = choose|k: int| 0 <= k < r.len() && r[k] == e;
                if k < s.len() {
                    assert(s[k] == e);
                }
            }
            if s.contains(e) {
                let k = choose|k: int| 0 <= k < s.len() && s[k] == e;
                assert(r[k] == e);
            }
            if e == x {
                assert(r[r.len() - 1] == e);
            }
        }
        if keys_sorted(s) {
            assert forall|i: int, j: int| 0 <= i < j < r.len() implies !key_lt(#[trigger] r[j], #[trigger] r[i]) by {
                if j < s.len() {
                    assert(r[i] == s[i] && r[j] == s[j]);
                } else {
                    assert(r[j] == x);
                    assert(r[i] == s[i]);
                    if i < s.len() - 1 {
                        assert(!key_lt(s[s.len() - 1], s[i]));
                    }
                    lemma_key_order(s[i], s[s.len() - 1], x);
                }
            }
        }
    }
}

/// The nodes of an export graph are sorted by type rank and identifier, and
/// are exactly the nodes that were built, each as often as it was built.
pub proof fn lemma_sort_nodes(s: Seq<Keyed>)
    ensures
        keys_sorted(sort_nodes(s)),
        sort_nodes(s).to_multiset() =~= s.to_multiset(),
    decreases s.len(),
{
    broadcast use vstd::seq_lib::group_to_multiset_ensures;
    if s.len() > 0 {
        lemma_sort_nodes(s.drop_last());
        lemma_insert_sorted(sort_nodes(s.drop_last()), s.last());
        assert(s =~= s.drop_last().push(s.last()));
    }
}

} // verus!
