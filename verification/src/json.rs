//! JSON documents as plain values.
//!
//! A number is carried as its JSON lexeme (e.g. `42`, `1.1`). An object is a
//! sequence of entries with distinct keys; inserting a key that is present
//! replaces its value in place, as a JSON object map does.

use vstd::prelude::*;

verus! {

/// A JSON value.
#[derive(Debug)]
pub enum Json {
    Null,
    Bool(bool),
    Number(String),
    Str(String),
    Array(Vec<Json>),
    Object(Vec<(String, Json)>),
}

/// The mathematical value of a [`Json`].
pub enum JsonView {
    Null,
    Bool(bool),
    Number(Seq<char>),
    Str(Seq<char>),
    Array(Seq<JsonView>),
    Object(Seq<(Seq<char>, JsonView)>),
}

/// The value of a JSON document.
pub open spec fn json_view(j: Json) -> JsonView
    decreases j,
{
    match j {
        Json::Null => JsonView::Null,
        Json::Bool(b) => JsonView::Bool(b),
        Json::Number(n) => JsonView::Number(n@),
        Json::Str(s) => JsonView::Str(s@),
        Json::Array(items) => JsonView::Array(json_views(items@)),
        Json::Object(entries) => JsonView::Object(entry_views(entries@)),
    }
}

/// The values of a sequence of JSON documents.
pub open spec fn json_views(s: Seq<Json>) -> Seq<JsonView>
    decreases s,
{
    if s.len() == 0 {
        Seq::empty()
    } else {
        json_views(s.drop_last()).push(json_view(s.last()))
    }
}

/// The values of a sequence of object entries.
pub open spec fn entry_views(s: Seq<(String, Json)>) -> Seq<(Seq<char>, JsonView)>
    decreases s,
{
    if s.len() == 0 {
        Seq::empty()
    } else {
        entry_views(s.drop_last()).push((s.last().0@, json_view(s.last().1)))
    }
}

impl View for Json {
    type V = JsonView;

    open spec fn view(&self) -> JsonView {
        json_view(*self)
    }
}

/// The index of the first entry with key `k`, if any.
pub open spec fn key_index(e: Seq<(Seq<char>, JsonView)>, k: Seq<char>) -> Option<int>
    decreases e.len(),
{
    if e.len() == 0 {
        None
    } else {
        match key_index(e.drop_last(), k) {
            Some(i) => Some(i),
            None => if e.last().0 == k { Some(e.len() - 1) } else { None },
        }
    }
}

/// `e` with key `k` set to `v`: replaced in place where present, appended
/// otherwise.
pub open spec fn entries_insert(e: Seq<(Seq<char>, JsonView)>, k: Seq<char>, v: JsonView) -> Seq<
    (Seq<char>, JsonView),
> {
    match key_index(e, k) {
        Some(i) => e.update(i, (k, v)),
        None => e.push((k, v)),
    }
}

/// The value of key `k` in `e`, if any.
pub open spec fn entries_get(e: Seq<(Seq<char>, JsonView)>, k: Seq<char>) -> Option<JsonView> {
    match key_index(e, k) {
        Some(i) => Some(e[i].1),
        None => None,
    }
}

pub proof fn lemma_json_views_len(s: Seq<Json>)
    ensures
        json_views(s).len() == s.len(),
    decreases s,
{
    if s.len() > 0 {
        lemma_json_views_len(s.drop_last());
    }
}

pub proof fn lemma_entry_views_len(s: Seq<(String, Json)>)
    ensures
        entry_views(s).len() == s.len(),
    decreases s,
{
    if s.len() > 0 {
        lemma_entry_views_len(s.drop_last());
    }
}

/// Each element of `json_views(s)` is the view of the element of `s`.
pub proof fn lemma_json_views_index(s: Seq<Json>, i: int)
    requires
        0 <= i < s.len(),
    ensures
        json_views(s).len() == s.len(),
        json_views(s)[i] == json_view(s[i]),
    decreases s,
{
    lemma_json_views_len(s);
    if i < s.len() - 1 {
        lemma_json_views_index(s.drop_last(), i);
    }
}

/// Each element of `entry_views(s)` is the view of the entry of `s`.
pub proof fn lemma_entry_views_index(s: Seq<(String, Json)>, i: int)
    requires
        0 <= i < s.len(),
    ensures
        entry_views(s).len() == s.len(),
        entry_views(s)[i] == (s[i].0@, json_view(s[i].1)),
    decreases s,
{
    lemma_entry_views_len(s);
    if i < s.len() - 1 {
        lemma_entry_views_index(s.drop_last(), i);
    }
}

/// `json_views` distributes over pushing an element.
pub proof fn lemma_json_views_push(s: Seq<Json>, x: Json)
    ensures
        json_views(s.push(x)) == json_views(s).push(json_view(x)),
{
    assert(s.push(x).drop_last() == s);
}

/// `entry_views` distributes over pushing an entry.
pub proof fn lemma_entry_views_push(s: Seq<(String, Json)>, x: (String, Json))
    ensures
        entry_views(s.push(x)) == entry_views(s).push((x.0@, json_view(x.1))),
{
    assert(s.push(x).drop_last() == s);
}

pub proof fn lemma_key_index_spec(e: Seq<(Seq<char>, JsonView)>, k: Seq<char>)
    ensures
        key_index(e, k) matches Some(i) ==> 0 <= i < e.len() && e[i].0 == k && (forall|j: int|
            0 <= j < i ==> e[j].0 != k),
        key_index(e, k) is None ==> forall|j: int| 0 <= j < e.len() ==> e[j].0 != k,
    decreases e.len(),
{
    if e.len() > 0 {
        let d = e.drop_last();
        lemma_key_index_spec(d, k);
        assert forall|j: int| 0 <= j < d.len() implies d[j] == e[j] by {}
    }
}

/// An empty object.
pub fn empty_object() -> (j: Json)
    ensures
        j@ == JsonView::Object(Seq::empty()),
{
    Json::Object(Vec::new())
}

/// A string value.
pub fn json_str(s: &str) -> (j: Json)
    ensures
        j@ == JsonView::Str(s@),
{
    Json::Str(String::from_str(s))
}

/// Sets `key` to `value` in `entries`: in place where the key is present,
/// appended otherwise.
pub fn insert_entry(entries: &mut Vec<(String, Json)>, key: &str, value: Json)
    ensures
        entry_views(final(entries)@) == entries_insert(entry_views(old(entries)@), key@, value@),
{
    let ghost ev = entry_views(entries@);
    proof {
        lemma_entry_views_len(entries@);
        lemma_key_index_spec(ev, key@);
    }
    let mut i: usize = 0;
    while i < entries.len()
        invariant
            ev == entry_views(entries@),
            entries@ == old(entries)@,
            ev.len() == entries@.len(),
            i <= entries@.len(),
            forall|j: int| 0 <= j < i ==> ev[j].0 != key@,
        decreases entries@.len() - i,
    {
        proof {
            lemma_entry_views_index(entries@, i as int);
        }
        if crate::text::str_eq(entries[i].0.as_str(), key) {
            proof {
                lemma_key_index_spec(ev, key@);
                assert(ev[i as int].0 == key@);
                assert(key_index(ev, key@) == Some(i as int));
            }
            let ghost old_entries = entries@;
            let k = String::from_str(key);
            let ghost item = (k, value);
            entries.set(i, (k, value));
            proof {
                assert(entries@ == old_entries.update(i as int, item));
                assert(item.0@ == key@);
                lemma_entry_views_len(entries@);
                assert forall|j: int| 0 <= j < entries@.len() implies #[trigger] entry_views(entries@)[j]
                    == ev.update(i as int, (key@, value@))[j] by {
                    lemma_entry_views_index(entries@, j);
                    lemma_entry_views_index(old_entries, j);
                }
                assert(entry_views(entries@) =~= ev.update(i as int, (key@, value@)));
                assert(key_index(ev, key@) == Some(i as int));
                assert(entries_insert(ev, key@, value@) == ev.update(i as int, (key@, value@)));
                assert(ev == entry_views(old(entries)@));
                assert(entry_views(entries@) == entries_insert(entry_views(old(entries)@), key@, value@));
            }
            return;
        }
        i = i + 1;
    }
    proof {
        lemma_key_index_spec(ev, key@);
        if key_index(ev, key@) is Some {
            let w = key_index(ev, key@)->Some_0;
            assert(ev[w].0 == key@);
        }
    }
    let ghost old_entries = entries@;
    let k = String::from_str(key);
    let ghost item = (k, value);
    entries.push((k, value));
    proof {
        lemma_entry_views_push(old_entries, item);
    }
}

/// Appends the entry `key: value` (for keys known to be new).
pub fn push_entry(entries: &mut Vec<(String, Json)>, key: &str, value: Json)
    ensures
        entry_views(final(entries)@) == entry_views(old(entries)@).push((key@, value@)),
{
    let ghost before = entries@;
    let k = String::from_str(key);
    let ghost item = (k, value);
    entries.push((k, value));
    proof {
        lemma_entry_views_push(before, item);
    }
}

/// Appends `value` to `items`.
pub fn push_item(items: &mut Vec<Json>, value: Json)
    ensures
        json_views(final(items)@) == json_views(old(items)@).push(value@),
{
    let ghost before = items@;
    let ghost v = value;
    items.push(value);
    proof {
        lemma_json_views_push(before, v);
    }
}

} // verus!
