//! The library's own structural JSON document type.
//!
//! A redaction config is manipulated purely structurally — find a top-level
//! member, append to a list, insert a keyed entry — without understanding
//! rule semantics. Objects are insertion-ordered lists of keyed entries;
//! numbers are carried as their literal text, so a document round-trips
//! through the external serializer without a floating-point representation.

use vstd::prelude::*;

verus! {

broadcast use {vstd::seq::axiom_seq_index_decreases, vstd::std_specs::vec::axiom_vec_index_decreases};

/// A structural JSON value.
#[derive(Debug)]
pub enum Json {
    Null,
    Bool(bool),
    Num(String),
    Str(String),
    Arr(Vec<Json>),
    Obj(Vec<(String, Json)>),
}

/// Mathematical model of `Json`.
#[verifier::ext_equal]
pub enum JsonModel {
    Null,
    Bool(bool),
    Num(Seq<char>),
    Str(Seq<char>),
    Arr(Seq<JsonModel>),
    Obj(Seq<(Seq<char>, JsonModel)>),
}

impl View for Json {
    type V = JsonModel;

    open spec fn view(&self) -> JsonModel {
        json_model(*self)
    }
}

/// Model of a structural value, recursively.
pub open spec fn json_model(d: Json) -> JsonModel
    decreases d,
{
    match d {
        Json::Null => JsonModel::Null,
        Json::Bool(b) => JsonModel::Bool(b),
        Json::Num(s) => JsonModel::Num(s@),
        Json::Str(s) => JsonModel::Str(s@),
        Json::Arr(items) => JsonModel::Arr(jsons_model(items@)),
        Json::Obj(entries) => JsonModel::Obj(jentries_model(entries@)),
    }
}

/// Model of a sequence of structural values.
pub open spec fn jsons_model(items: Seq<Json>) -> Seq<JsonModel>
    decreases items,
{
    if items.len() == 0 {
        Seq::empty()
    } else {
        jsons_model(items.subrange(0, items.len() - 1)).push(json_model(items[items.len() - 1]))
    }
}

/// Model of an ordered list of keyed structural values.
pub open spec fn jentries_model(entries: Seq<(String, Json)>) -> Seq<(Seq<char>, JsonModel)>
    decreases entries,
{
    if entries.len() == 0 {
        Seq::empty()
    } else {
        jentries_model(entries.subrange(0, entries.len() - 1)).push(
            (entries[entries.len() - 1].0@, json_model(entries[entries.len() - 1].1)),
        )
    }
}

/// The model of a value sequence is the sequence of the values' models.
pub proof fn lemma_jsons_model(items: Seq<Json>)
    ensures
        jsons_model(items).len() == items.len(),
        forall|i: int| 0 <= i < items.len() ==> jsons_model(items)[i] == json_model(items[i]),
    decreases items.len(),
{
    if items.len() > 0 {
        lemma_jsons_model(items.subrange(0, items.len() - 1));
    }
}

/// The model of a keyed entry list is the entrywise model.
pub proof fn lemma_jentries_model(entries: Seq<(String, Json)>)
    ensures
        jentries_model(entries).len() == entries.len(),
        forall|i: int| 0 <= i < entries.len() ==> jentries_model(entries)[i] == (
            entries[i].0@,
            json_model(entries[i].1),
        ),
    decreases entries.len(),
{
    if entries.len() > 0 {
        lemma_jentries_model(entries.subrange(0, entries.len() - 1));
    }
}

/// Position of the first entry named `key`, or the length if there is none.
pub open spec fn key_index(es: Seq<(Seq<char>, JsonModel)>, key: Seq<char>) -> int
    decreases es.len(),
{
    if es.len() == 0 {
        0
    } else if es[0].0 == key {
        0
    } else {
        1 + key_index(es.subrange(1, es.len() as int), key)
    }
}

/// Whether some entry is named `key`.
pub open spec fn has_key(es: Seq<(Seq<char>, JsonModel)>, key: Seq<char>) -> bool {
    key_index(es, key) < es.len()
}

/// The value of the first entry named `key`.
pub open spec fn jlookup(es: Seq<(Seq<char>, JsonModel)>, key: Seq<char>) -> Option<JsonModel> {
    if has_key(es, key) {
        Some(es[key_index(es, key)].1)
    } else {
        None
    }
}

/// Replaces the first entry named `key`, or appends one.
pub open spec fn assoc_set(
    es: Seq<(Seq<char>, JsonModel)>,
    key: Seq<char>,
    v: JsonModel,
) -> Seq<(Seq<char>, JsonModel)> {
    if has_key(es, key) {
        es.update(key_index(es, key), (key, v))
    } else {
        es.push((key, v))
    }
}

/// `key_index` is the first position whose entry is named `key`.
pub proof fn lemma_key_index(es: Seq<(Seq<char>, JsonModel)>, key: Seq<char>)
    ensures
        0 <= key_index(es, key) <= es.len(),
        forall|j: int| 0 <= j < key_index(es, key) ==> es[j].0 != key,
        key_index(es, key) < es.len() ==> es[key_index(es, key)].0 == key,
    decreases es.len(),
{
    if es.len() > 0 && es[0].0 != key {
        let t = es.subrange(1, es.len() as int);
        lemma_key_index(t, key);
        assert forall|j: int| 0 <= j < key_index(es, key) implies es[j].0 != key by {
            if j > 0 {
                assert(es[j] == t[j - 1]);
            }
        }
    }
}

/// Any position preceded only by other names, and itself named `key` (or the
/// end, with no entry named `key` at all), is `key_index`.
pub proof fn lemma_key_index_unique(es: Seq<(Seq<char>, JsonModel)>, key: Seq<char>, i: int)
    requires
        0 <= i <= es.len(),
        forall|j: int| 0 <= j < i ==> es[j].0 != key,
        i < es.len() ==> es[i].0 == key,
    ensures
        key_index(es, key) == i,
{
    lemma_key_index(es, key);
    let k = key_index(es, key);
    if k < i {
        assert(es[k].0 == key);
        assert(false);
    }
    if k > i {
        assert(i < es.len());
        assert(es[i].0 != key);
        assert(false);
    }
}

/// Looking up the key just set yields the value just set.
pub proof fn lemma_assoc_set_get(es: Seq<(Seq<char>, JsonModel)>, key: Seq<char>, v: JsonModel)
    ensures
        jlookup(assoc_set(es, key, v), key) == Some(v),
{
    lemma_key_index(es, key);
    let es2 = assoc_set(es, key, v);
    if has_key(es, key) {
        let i = key_index(es, key);
        assert forall|j: int| 0 <= j < i implies es2[j].0 != key by {
            assert(es2[j] == es[j]);
        }
        lemma_key_index_unique(es2, key, i);
    } else {
        lemma_key_index_unique(es2, key, es.len() as int);
    }
}

/// A deep copy, equal at the model.
pub fn jdup(d: &Json) -> (r: Json)
    ensures
        r@ == d@,
    decreases *d,
{
    match d {
        Json::Null => Json::Null,
        Json::Bool(b) => Json::Bool(*b),
        Json::Num(s) => Json::Num(s.clone()),
        Json::Str(s) => Json::Str(s.clone()),
        Json::Arr(items) => Json::Arr(dup_jsons(items)),
        Json::Obj(entries) => Json::Obj(dup_entries(entries)),
    }
}

/// A deep copy of a value sequence, equal at the model.
#[verifier::loop_isolation(false)]
pub fn dup_jsons(items: &Vec<Json>) -> (r: Vec<Json>)
    ensures
        r@.len() == items@.len(),
        forall|j: int| 0 <= j < items@.len() ==> json_model(r@[j]) == json_model(items@[j]),
        jsons_model(r@) == jsons_model(items@),
    decreases *items,
{
    let mut out: Vec<Json> = Vec::new();
    let n = items.len();
    let mut i: usize = 0;
    while i < n
        invariant
            0 <= i <= n,
            out@.len() == i,
            forall|j: int| 0 <= j < i ==> json_model(out@[j]) == json_model(items@[j]),
        decreases n - i,
    {
        let c = jdup(&items[i]);
        out.push(c);
        i = i + 1;
    }
    proof {
        lemma_jsons_model(out@);
        lemma_jsons_model(items@);
        assert(jsons_model(out@) =~= jsons_model(items@));
    }
    out
}

/// A deep copy of a keyed entry list, equal at the model.
#[verifier::loop_isolation(false)]
pub fn dup_entries(entries: &Vec<(String, Json)>) -> (r: Vec<(String, Json)>)
    ensures
        r@.len() == entries@.len(),
        forall|j: int| 0 <= j < entries@.len() ==> r@[j].0@ == entries@[j].0@ && json_model(
            r@[j].1,
        ) == json_model(entries@[j].1),
        jentries_model(r@) == jentries_model(entries@),
    decreases *entries,
{
    let mut out: Vec<(String, Json)> = Vec::new();
    let n = entries.len();
    let mut i: usize = 0;
    while i < n
        invariant
            0 <= i <= n,
            out@.len() == i,
            forall|j: int| 0 <= j < i ==> out@[j].0@ == entries@[j].0@ && json_model(out@[j].1)
                == json_model(entries@[j].1),
        decreases n - i,
    {
        let k = entries[i].0.clone();
        let c = jdup(&entries[i].1);
        out.push((k, c));
        i = i + 1;
    }
    proof {
        lemma_jentries_model(out@);
        lemma_jentries_model(entries@);
        assert(jentries_model(out@) =~= jentries_model(entries@));
    }
    out
}

} // verus!
