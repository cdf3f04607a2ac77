//! Redaction configs as structural JSON documents.
//!
//! A config is a JSON object with two optional top-level members: `rules`
//! (rule name to rule definition) and `applications` (category label to an
//! ordered list of rule references). The helpers here recognize that shape,
//! append rule references and insert rule definitions; they are agnostic to
//! rule semantics. Parsing and rendering of the text itself is done by
//! serde_json behind trusted wrappers. Every mutation acts on a fresh
//! document: a candidate config always supersedes, never updates in place.

use vstd::prelude::*;

use crate::json::{
    assoc_set, dup_entries, dup_jsons, has_key, jentries_model, jlookup, json_model, jsons_model,
    key_index, lemma_jentries_model, lemma_jsons_model, lemma_key_index, lemma_key_index_unique,
    lemma_assoc_set_get, Json, JsonModel,
};
use crate::path::str_eq;

verus! {

/// A structural error: a top-level member does not have the shape the config
/// grammar gives it.
#[derive(Clone, Copy, Debug, PartialEq, Eq, Structural)]
pub enum StructError {
    /// `applications` exists but is not an object.
    BadApplications,
    /// An `applications` entry exists for the category but is not a list.
    BadKindEntry,
    /// `rules` exists but is not an object.
    BadRules,
}

/// A parsed config document: the entries of its top-level JSON object.
#[derive(Debug)]
pub struct ConfigDoc {
    pub entries: Vec<(String, Json)>,
}

impl View for ConfigDoc {
    type V = Seq<(Seq<char>, JsonModel)>;

    open spec fn view(&self) -> Seq<(Seq<char>, JsonModel)> {
        jentries_model(self.entries@)
    }
}

#[verifier::external_type_specification]
#[verifier::external_body]
pub struct ExValue(serde_json::Value);

/// What serde_json parses the given text to, converted to the library's own
/// document model; `None` on malformed input.
pub uninterp spec fn json_parse(s: Seq<char>) -> Option<JsonModel>;

/// How serde_json renders a document whose top level is an object with the
/// given entries.
pub uninterp spec fn json_text(entries: Seq<(Seq<char>, JsonModel)>) -> Seq<char>;

/// Relies on structural recursion over serde_json::Value: each JSON node is
/// converted, one for one, to the library's own document type; a number
/// becomes its rendered literal text.
#[verifier::external_body]
fn json_in(v: &serde_json::Value) -> Json {
    match v {
        serde_json::Value::Null => Json::Null,
        serde_json::Value::Bool(b) => Json::Bool(*b),
        serde_json::Value::Number(n) => Json::Num(n.to_string()),
        serde_json::Value::String(s) => Json::Str(s.clone()),
        serde_json::Value::Array(items) => Json::Arr(items.iter().map(json_in).collect()),
        serde_json::Value::Object(entries) => Json::Obj(
            entries.iter().map(|(k, w)| (k.clone(), json_in(w))).collect(),
        ),
    }
}

/// Relies on serde_json's value constructors: rebuilds a serde_json value from
/// the library's own document type, one for one; a number literal is re-read
/// by serde_json.
#[verifier::external_body]
fn json_out(d: &Json) -> serde_json::Value {
    match d {
        Json::Null => serde_json::Value::Null,
        Json::Bool(b) => serde_json::Value::Bool(*b),
        Json::Num(s) => serde_json::from_str::<serde_json::Number>(s.as_str()).map_or(
            serde_json::Value::Null,
            serde_json::Value::Number,
        ),
        Json::Str(s) => serde_json::Value::String(s.clone()),
        Json::Arr(items) => serde_json::Value::Array(items.iter().map(json_out).collect()),
        Json::Obj(entries) => serde_json::Value::Object(
            entries.iter().map(|(k, w)| (k.clone(), json_out(w))).collect(),
        ),
    }
}

/// Relies on serde_json::from_str: parses JSON text; fails exactly on
/// malformed input, and the parsed document is a function of the text alone.
#[verifier::external_body]
fn parse_json_raw(text: &str) -> (r: Option<Json>)
    ensures
        r is Some <==> json_parse(text@) is Some,
        r matches Some(d) ==> json_parse(text@) == Some(d@),
{
    match serde_json::from_str::<serde_json::Value>(text) {
        Ok(v) => Some(json_in(&v)),
        Err(_) => None,
    }
}

/// Relies on serde_json::to_string_pretty: renders the document as JSON text,
/// a function of the document alone.
#[verifier::external_body]
pub fn serialize_config(doc: &ConfigDoc) -> (r: String)
    ensures
        r@ == json_text(doc@),
{
    let object: serde_json::Map<String, serde_json::Value> =
        doc.entries.iter().map(|(k, v)| (k.clone(), json_out(v))).collect();
    match serde_json::to_string_pretty(&serde_json::Value::Object(object)) {
        Ok(s) => s,
        Err(_) => String::new(),
    }
}

/// Recognizes config text structurally: the text must parse as a JSON value
/// whose top level is an object. `None` is the malformed-config case.
pub fn parse_config(text: &str) -> (r: Option<ConfigDoc>)
    ensures
        match json_parse(text@) {
            Some(JsonModel::Obj(es)) => r matches Some(d) && d@ == es,
            _ => r is None,
        },
{
    match parse_json_raw(text) {
        Some(Json::Obj(entries)) => Some(ConfigDoc { entries }),
        _ => None,
    }
}

/// Position of the first entry named `key`, or `None`.
pub fn find_key(entries: &Vec<(String, Json)>, key: &str) -> (r: Option<usize>)
    ensures
        match r {
            Some(i) => i as int == key_index(jentries_model(entries@), key@) && has_key(
                jentries_model(entries@),
                key@,
            ),
            None => !has_key(jentries_model(entries@), key@),
        },
{
    proof {
        lemma_jentries_model(entries@);
    }
    let ghost ms = jentries_model(entries@);
    let n = entries.len();
    let mut i: usize = 0;
    while i < n
        invariant
            0 <= i <= n,
            n == entries@.len(),
            ms == jentries_model(entries@),
            ms.len() == n,
            forall|j: int| 0 <= j < n ==> ms[j] == (entries@[j].0@, json_model(entries@[j].1)),
            forall|j: int| 0 <= j < i ==> ms[j].0 != key@,
        decreases n - i,
    {
        if str_eq(entries[i].0.as_str(), key) {
            proof {
                lemma_key_index_unique(ms, key@, i as int);
            }
            return Some(i);
        }
        i = i + 1;
    }
    proof {
        lemma_key_index_unique(ms, key@, n as int);
    }
    None
}

/// A fresh copy of the reference list with `rule_ref` appended.
fn appended_refs(refs: &Vec<Json>, rule_ref: &str) -> (r: Vec<Json>)
    ensures
        jsons_model(r@) == jsons_model(refs@).push(JsonModel::Str(rule_ref@)),
{
    let mut out = dup_jsons(refs);
    out.push(Json::Str(rule_ref.to_owned()));
    proof {
        lemma_jsons_model(out@);
        lemma_jsons_model(refs@);
        assert(jsons_model(out@) =~= jsons_model(refs@).push(JsonModel::Str(rule_ref@)));
    }
    out
}

/// A fresh copy of the entry list with `(key, v)` appended.
fn entries_pushed(entries: &Vec<(String, Json)>, key: &str, v: Json) -> (r: Vec<(String, Json)>)
    ensures
        jentries_model(r@) == jentries_model(entries@).push((key@, v@)),
{
    let ghost gv = v@;
    let mut out = dup_entries(entries);
    out.push((key.to_owned(), v));
    proof {
        lemma_jentries_model(out@);
        lemma_jentries_model(entries@);
        assert(jentries_model(out@) =~= jentries_model(entries@).push((key@, gv)));
    }
    out
}

/// A fresh copy of the entry list with the value at `i` replaced by `v`.
fn entries_updated(entries: &Vec<(String, Json)>, i: usize, v: Json) -> (r: Vec<(String, Json)>)
    requires
        i < entries@.len(),
    ensures
        jentries_model(r@) == jentries_model(entries@).update(
            i as int,
            (entries@[i as int].0@, v@),
        ),
{
    let ghost gv = v@;
    let mut out = dup_entries(entries);
    let name = entries[i].0.clone();
    out[i] = (name, v);
    proof {
        lemma_jentries_model(out@);
        lemma_jentries_model(entries@);
        assert(jentries_model(out@) =~= jentries_model(entries@).update(
            i as int,
            (entries@[i as int].0@, gv),
        ));
    }
    out
}

/// A one-element rule-reference list.
pub open spec fn one_ref_list(rule: Seq<char>) -> JsonModel {
    JsonModel::Arr(Seq::empty().push(JsonModel::Str(rule)))
}

/// What appending `rule` to the category's reference list does to the
/// document: `applications` is created if absent, the category's list is
/// created if absent, and the reference is appended at its end — never
/// deduplicated.
pub open spec fn apply_rule_spec(
    es: Seq<(Seq<char>, JsonModel)>,
    kind: Seq<char>,
    rule: Seq<char>,
) -> Result<Seq<(Seq<char>, JsonModel)>, StructError> {
    let apps = match jlookup(es, "applications"@) {
        None => JsonModel::Obj(Seq::empty()),
        Some(a) => a,
    };
    match apps {
        JsonModel::Obj(aes) => {
            let refs = match jlookup(aes, kind) {
                None => JsonModel::Arr(Seq::empty()),
                Some(r) => r,
            };
            match refs {
                JsonModel::Arr(rs) => Ok(
                    assoc_set(
                        es,
                        "applications"@,
                        JsonModel::Obj(
                            assoc_set(aes, kind, JsonModel::Arr(rs.push(JsonModel::Str(rule)))),
                        ),
                    ),
                ),
                _ => Err(StructError::BadKindEntry),
            }
        },
        _ => Err(StructError::BadApplications),
    }
}

/// Appends `rule_ref` to the end of the category's rule-reference list,
/// creating `applications` and the list as needed, on a fresh document.
pub fn apply_rule_to_kind(doc: &ConfigDoc, pii_kind: &str, rule_ref: &str) -> (r: Result<
    ConfigDoc,
    StructError,
>)
    ensures
        match apply_rule_spec(doc@, pii_kind@, rule_ref@) {
            Ok(m) => r matches Ok(d2) && d2@ == m,
            Err(e) => r matches Err(e2) && e2 == e,
        },
{
    proof {
        lemma_jentries_model(doc.entries@);
        lemma_key_index(doc@, "applications"@);
    }
    match find_key(&doc.entries, "applications") {
        None => {
            let empty_refs: Vec<Json> = Vec::new();
            let refs = appended_refs(&empty_refs, rule_ref);
            let ghost grefs = jsons_model(refs@);
            let empty_entries: Vec<(String, Json)> = Vec::new();
            let aes = entries_pushed(&empty_entries, pii_kind, Json::Arr(refs));
            let es2 = entries_pushed(&doc.entries, "applications", Json::Obj(aes));
            proof {
                assert(grefs =~= Seq::<JsonModel>::empty().push(JsonModel::Str(rule_ref@)));
                assert(jentries_model(es2@) =~~= apply_rule_spec(
                    doc@,
                    pii_kind@,
                    rule_ref@,
                )->Ok_0);
            }
            Ok(ConfigDoc { entries: es2 })
        },
        Some(i) => {
            match &doc.entries[i].1 {
                Json::Obj(aentries) => {
                    proof {
                        lemma_jentries_model(aentries@);
                        lemma_key_index(jentries_model(aentries@), pii_kind@);
                    }
                    let ghost aes_m = jentries_model(aentries@);
                    let new_apps: Json = match find_key(aentries, pii_kind) {
                        None => {
                            let empty_refs: Vec<Json> = Vec::new();
                            let refs = appended_refs(&empty_refs, rule_ref);
                            let ghost grefs = jsons_model(refs@);
                            let aes2 = entries_pushed(aentries, pii_kind, Json::Arr(refs));
                            proof {
                                assert(grefs =~= Seq::<JsonModel>::empty().push(
                                    JsonModel::Str(rule_ref@),
                                ));
                                assert(jentries_model(aes2@) =~~= assoc_set(
                                    aes_m,
                                    pii_kind@,
                                    JsonModel::Arr(
                                        Seq::empty().push(JsonModel::Str(rule_ref@)),
                                    ),
                                ));
                            }
                            Json::Obj(aes2)
                        },
                        Some(j) => {
                            match &aentries[j].1 {
                                Json::Arr(refs) => {
                                    let refs2 = appended_refs(refs, rule_ref);
                                    let aes2 = entries_updated(
                                        aentries,
                                        j,
                                        Json::Arr(refs2),
                                    );
                                    proof {
                                        assert(jentries_model(aes2@) =~~= assoc_set(
                                            aes_m,
                                            pii_kind@,
                                            JsonModel::Arr(
                                                jsons_model(refs@).push(
                                                    JsonModel::Str(rule_ref@),
                                                ),
                                            ),
                                        ));
                                    }
                                    Json::Obj(aes2)
                                },
                                _ => {
                                    return Err(StructError::BadKindEntry);
                                },
                            }
                        },
                    };
                    let ghost gapps = json_model(new_apps);
                    let es2 = entries_updated(&doc.entries, i, new_apps);
                    proof {
                        assert(jentries_model(es2@) =~~= apply_rule_spec(
                            doc@,
                            pii_kind@,
                            rule_ref@,
                        )->Ok_0);
                    }
                    Ok(ConfigDoc { entries: es2 })
                },
                _ => Err(StructError::BadApplications),
            }
        },
    }
}

/// The definition object of a key-removal rule: `redactPair` with the given
/// key pattern.
pub open spec fn rule_body(key_pattern: Seq<char>) -> JsonModel {
    JsonModel::Obj(
        Seq::empty().push(("type"@, JsonModel::Str("redactPair"@))).push(
            ("keyPattern"@, JsonModel::Str(key_pattern)),
        ),
    )
}

/// What defining a `redactPair` rule does to the document: `rules` is created
/// if absent, and the named definition is inserted or overwritten.
pub open spec fn define_rule_spec(
    es: Seq<(Seq<char>, JsonModel)>,
    name: Seq<char>,
    key_pattern: Seq<char>,
) -> Result<Seq<(Seq<char>, JsonModel)>, StructError> {
    let rules = match jlookup(es, "rules"@) {
        None => JsonModel::Obj(Seq::empty()),
        Some(v) => v,
    };
    match rules {
        JsonModel::Obj(res) => Ok(
            assoc_set(es, "rules"@, JsonModel::Obj(assoc_set(res, name, rule_body(key_pattern)))),
        ),
        _ => Err(StructError::BadRules),
    }
}

/// Builds the definition object of a key-removal rule.
fn make_rule_body(key_pattern: &str) -> (r: Json)
    ensures
        r@ == rule_body(key_pattern@),
{
    let mut entries: Vec<(String, Json)> = Vec::new();
    entries.push(("type".to_owned(), Json::Str("redactPair".to_owned())));
    entries.push(("keyPattern".to_owned(), Json::Str(key_pattern.to_owned())));
    proof {
        lemma_jentries_model(entries@);
        assert(jentries_model(entries@) =~~= rule_body(key_pattern@)->Obj_0);
    }
    Json::Obj(entries)
}

/// Inserts or overwrites the named `redactPair` rule definition, creating
/// `rules` as needed, on a fresh document.
pub fn define_redact_pair_rule(doc: &ConfigDoc, rule_name: &str, key_pattern: &str) -> (r: Result<
    ConfigDoc,
    StructError,
>)
    ensures
        match define_rule_spec(doc@, rule_name@, key_pattern@) {
            Ok(m) => r matches Ok(d2) && d2@ == m,
            Err(e) => r matches Err(e2) && e2 == e,
        },
{
    proof {
        lemma_jentries_model(doc.entries@);
        lemma_key_index(doc@, "rules"@);
    }
    let body = make_rule_body(key_pattern);
    let ghost gbody = body@;
    match find_key(&doc.entries, "rules") {
        None => {
            let empty_entries: Vec<(String, Json)> = Vec::new();
            let res2 = entries_pushed(&empty_entries, rule_name, body);
            let es2 = entries_pushed(&doc.entries, "rules", Json::Obj(res2));
            proof {
                assert(jentries_model(es2@) =~~= define_rule_spec(
                    doc@,
                    rule_name@,
                    key_pattern@,
                )->Ok_0);
            }
            Ok(ConfigDoc { entries: es2 })
        },
        Some(i) => {
            match &doc.entries[i].1 {
                Json::Obj(rentries) => {
                    proof {
                        lemma_jentries_model(rentries@);
                        lemma_key_index(jentries_model(rentries@), rule_name@);
                    }
                    let res2 = match find_key(rentries, rule_name) {
                        None => entries_pushed(rentries, rule_name, body),
                        Some(j) => entries_updated(rentries, j, body),
                    };
                    proof {
                        assert(jentries_model(res2@) =~~= assoc_set(
                            jentries_model(rentries@),
                            rule_name@,
                            gbody,
                        ));
                    }
                    let es2 = entries_updated(&doc.entries, i, Json::Obj(res2));
                    proof {
                        assert(jentries_model(es2@) =~~= define_rule_spec(
                            doc@,
                            rule_name@,
                            key_pattern@,
                        )->Ok_0);
                    }
                    Ok(ConfigDoc { entries: es2 })
                },
                _ => Err(StructError::BadRules),
            }
        },
    }
}

/// The names of the entries of a keyed list, in order.
pub open spec fn keys_of(res: Seq<(Seq<char>, JsonModel)>) -> Seq<Seq<char>> {
    res.map_values(|e: (Seq<char>, JsonModel)| e.0)
}

/// The names of the rules a document defines, in document order; empty when
/// `rules` is absent or not an object.
pub open spec fn rule_keys(es: Seq<(Seq<char>, JsonModel)>) -> Seq<Seq<char>> {
    match jlookup(es, "rules"@) {
        Some(JsonModel::Obj(res)) => keys_of(res),
        _ => Seq::empty(),
    }
}

/// Collects the names of the rules the document defines, in document order.
pub fn rule_names(doc: &ConfigDoc) -> (r: Vec<String>)
    ensures
        r.deep_view() == rule_keys(doc@),
{
    proof {
        lemma_jentries_model(doc.entries@);
        lemma_key_index(doc@, "rules"@);
    }
    match find_key(&doc.entries, "rules") {
        Some(i) => {
            match &doc.entries[i].1 {
                Json::Obj(rentries) => {
                    proof {
                        lemma_jentries_model(rentries@);
                    }
                    let ghost res_m = jentries_model(rentries@);
                    let n = rentries.len();
                    let mut out: Vec<String> = Vec::new();
                    let mut k: usize = 0;
                    while k < n
                        invariant
                            0 <= k <= n,
                            n == rentries@.len(),
                            res_m == jentries_model(rentries@),
                            res_m.len() == n,
                            forall|j: int| 0 <= j < n ==> res_m[j] == (
                                rentries@[j].0@,
                                json_model(rentries@[j].1),
                            ),
                            out@.len() == k,
                            forall|j: int| 0 <= j < k ==> out@[j]@ == res_m[j].0,
                        decreases n - k,
                    {
                        out.push(rentries[k].0.clone());
                        k = k + 1;
                    }
                    proof {
                        assert(out.deep_view() =~= keys_of(res_m));
                    }
                    out
                },
                _ => {
                    let out: Vec<String> = Vec::new();
                    proof {
                        assert(out.deep_view() =~= Seq::<Seq<char>>::empty());
                    }
                    out
                },
            }
        },
        None => {
            let out: Vec<String> = Vec::new();
            proof {
                assert(out.deep_view() =~= Seq::<Seq<char>>::empty());
            }
            out
        },
    }
}

/// The category's rule-reference list, or empty where the document does not
/// hold one.
pub open spec fn app_refs(es: Seq<(Seq<char>, JsonModel)>, kind: Seq<char>) -> Seq<JsonModel> {
    match jlookup(es, "applications"@) {
        Some(JsonModel::Obj(aes)) => match jlookup(aes, kind) {
            Some(JsonModel::Arr(rs)) => rs,
            _ => Seq::empty(),
        },
        _ => Seq::empty(),
    }
}

/// One successful application appends exactly one reference at the end of the
/// category's list, and a further application still succeeds.
pub proof fn lemma_apply_rule_appends(
    es: Seq<(Seq<char>, JsonModel)>,
    kind: Seq<char>,
    rule: Seq<char>,
)
    ensures
        apply_rule_spec(es, kind, rule) matches Ok(es1) ==> {
            &&& app_refs(es1, kind) == app_refs(es, kind).push(JsonModel::Str(rule))
            &&& apply_rule_spec(es1, kind, rule) is Ok
        },
{
    if apply_rule_spec(es, kind, rule) is Ok {
        let aes = match jlookup(es, "applications"@) {
            None => Seq::empty(),
            Some(a) => a->Obj_0,
        };
        let rs = match jlookup(aes, kind) {
            None => Seq::<JsonModel>::empty(),
            Some(r) => r->Arr_0,
        };
        let new_list = JsonModel::Arr(rs.push(JsonModel::Str(rule)));
        lemma_assoc_set_get(aes, kind, new_list);
        lemma_assoc_set_get(es, "applications"@, JsonModel::Obj(assoc_set(aes, kind, new_list)));
        assert(app_refs(es, kind) =~= rs);
    }
}

/// Append-only: two applications with identical arguments append the
/// reference twice — the resulting list holds it at both ends, never
/// deduplicated.
pub proof fn lemma_apply_rule_append_only(
    es: Seq<(Seq<char>, JsonModel)>,
    kind: Seq<char>,
    rule: Seq<char>,
)
    ensures
        apply_rule_spec(es, kind, rule) matches Ok(es1) ==> {
            &&& apply_rule_spec(es1, kind, rule) matches Ok(es2) && app_refs(es2, kind)
                == app_refs(es, kind).push(JsonModel::Str(rule)).push(JsonModel::Str(rule))
        },
{
    if apply_rule_spec(es, kind, rule) is Ok {
        let es1 = apply_rule_spec(es, kind, rule)->Ok_0;
        lemma_apply_rule_appends(es, kind, rule);
        lemma_apply_rule_appends(es1, kind, rule);
    }
}

} // verus!
