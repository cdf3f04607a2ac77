//! The suggestion engine.
//!
//! Given a baseline config and a target path, the engine plans every
//! candidate config mutation: each rule (built-in or defined by the baseline)
//! applied to each category, rule-major; then, if the path ends in a
//! non-empty key, a synthetic key-removal rule applied to each category. The
//! external redaction processor strips the event once per candidate; a
//! `Search` records each outcome in order and keeps exactly the candidates
//! whose observed value at the path differs from the baseline.

use vstd::prelude::*;

use crate::config::{
    apply_rule_spec, apply_rule_to_kind, define_redact_pair_rule, define_rule_spec, json_parse,
    json_text, parse_config, rule_keys, rule_names, serialize_config, ConfigDoc, StructError,
};
use crate::json::JsonModel;
use crate::path::{key_of, last_key};
use crate::resolve::{resolve_checked, resolve_model, Lookup, Resolution};
use crate::value::{opt_like, values_equal, AnnotatedValue, NodeModel, ValueModel};

verus! {

/// The fixed list of category labels a rule can be applied to.
pub open spec fn pii_kinds() -> Seq<Seq<char>> {
    seq![
        "freeform"@,
        "ip"@,
        "id"@,
        "username"@,
        "hostname"@,
        "sensitive"@,
        "name"@,
        "email"@,
        "databag"@,
    ]
}

/// The fixed list of category labels, as fresh text.
pub fn pii_kind_list() -> (r: Vec<String>)
    ensures
        r.deep_view() == pii_kinds(),
{
    let mut out: Vec<String> = Vec::new();
    out.push("freeform".to_owned());
    out.push("ip".to_owned());
    out.push("id".to_owned());
    out.push("username".to_owned());
    out.push("hostname".to_owned());
    out.push("sensitive".to_owned());
    out.push("name".to_owned());
    out.push("email".to_owned());
    out.push("databag".to_owned());
    proof {
        assert(out.deep_view() =~= pii_kinds());
    }
    out
}

/// The fixed list of built-in rule references.
pub open spec fn builtin_rules() -> Seq<Seq<char>> {
    seq![
        "@ip:replace"@,
        "@ip:hash"@,
        "@imei:replace"@,
        "@imei:hash"@,
        "@mac:replace"@,
        "@mac:mask"@,
        "@mac:hash"@,
        "@email:mask"@,
        "@email:replace"@,
        "@email:hash"@,
        "@creditcard:mask"@,
        "@creditcard:replace"@,
        "@creditcard:hash"@,
        "@userpath:replace"@,
        "@userpath:hash"@,
        "@password:remove"@,
    ]
}

/// The fixed list of built-in rule references, as fresh text.
pub fn builtin_rule_list() -> (r: Vec<String>)
    ensures
        r.deep_view() == builtin_rules(),
{
    let mut out: Vec<String> = Vec::new();
    out.push("@ip:replace".to_owned());
    out.push("@ip:hash".to_owned());
    out.push("@imei:replace".to_owned());
    out.push("@imei:hash".to_owned());
    out.push("@mac:replace".to_owned());
    out.push("@mac:mask".to_owned());
    out.push("@mac:hash".to_owned());
    out.push("@email:mask".to_owned());
    out.push("@email:replace".to_owned());
    out.push("@email:hash".to_owned());
    out.push("@creditcard:mask".to_owned());
    out.push("@creditcard:replace".to_owned());
    out.push("@creditcard:hash".to_owned());
    out.push("@userpath:replace".to_owned());
    out.push("@userpath:hash".to_owned());
    out.push("@password:remove".to_owned());
    proof {
        assert(out.deep_view() =~= builtin_rules());
    }
    out
}

/// The rules a search considers: the built-in references, then every rule the
/// baseline document defines, in document order.
pub open spec fn candidate_rules(es: Seq<(Seq<char>, JsonModel)>) -> Seq<Seq<char>> {
    builtin_rules() + rule_keys(es)
}

/// One accepted candidate: the mutation that changed the observed value, the
/// reason it was surfaced, and the ready-to-use resulting config text.
pub enum Suggestion {
    /// Applying an existing rule to a category changed the value.
    Value { pii_kind: String, rule: String, config: String },
    /// Removing keys of the path's final name under a category changed the
    /// value.
    Key { pii_kind: String, key: String, config: String },
}

/// Mathematical model of `Suggestion`.
#[verifier::ext_equal]
pub enum SuggestionModel {
    Value { pii_kind: Seq<char>, rule: Seq<char>, config: Seq<char> },
    Key { pii_kind: Seq<char>, key: Seq<char>, config: Seq<char> },
}

impl View for Suggestion {
    type V = SuggestionModel;

    open spec fn view(&self) -> SuggestionModel {
        match *self {
            Suggestion::Value { pii_kind, rule, config } => SuggestionModel::Value {
                pii_kind: pii_kind@,
                rule: rule@,
                config: config@,
            },
            Suggestion::Key { pii_kind, key, config } => SuggestionModel::Key {
                pii_kind: pii_kind@,
                key: key@,
                config: config@,
            },
        }
    }
}

impl DeepView for Suggestion {
    type V = SuggestionModel;

    open spec fn deep_view(&self) -> SuggestionModel {
        self.view()
    }
}

/// A fresh copy of a suggestion, equal at the model.
pub fn suggestion_dup(s: &Suggestion) -> (r: Suggestion)
    ensures
        r@ == s@,
{
    match s {
        Suggestion::Value { pii_kind, rule, config } => Suggestion::Value {
            pii_kind: pii_kind.clone(),
            rule: rule.clone(),
            config: config.clone(),
        },
        Suggestion::Key { pii_kind, key, config } => Suggestion::Key {
            pii_kind: pii_kind.clone(),
            key: key.clone(),
            config: config.clone(),
        },
    }
}

/// A failure while planning: the baseline config text is not a JSON object,
/// or a member does not have the shape the config grammar gives it. Failures
/// while evaluating one candidate are absorbed, never surfaced.
#[derive(Clone, Copy, Debug, PartialEq, Eq, Structural)]
pub enum SuggestError {
    MalformedConfig,
    Structure(StructError),
}

/// The value-phase candidates of one rule, across the categories from
/// position `i` on: the rule applied to each category, in order.
pub open spec fn value_row_from(
    es: Seq<(Seq<char>, JsonModel)>,
    rule: Seq<char>,
    kinds: Seq<Seq<char>>,
    i: int,
) -> Result<Seq<SuggestionModel>, StructError>
    decreases kinds.len() - i,
{
    if i < 0 || i >= kinds.len() {
        Ok(Seq::empty())
    } else {
        match apply_rule_spec(es, kinds[i], rule) {
            Err(e) => Err(e),
            Ok(es2) => match value_row_from(es, rule, kinds, i + 1) {
                Err(e) => Err(e),
                Ok(tail) => Ok(
                    Seq::empty().push(
                        SuggestionModel::Value {
                            pii_kind: kinds[i],
                            rule: rule,
                            config: json_text(es2),
                        },
                    ) + tail,
                ),
            },
        }
    }
}

/// The value-phase candidates of the rules from position `ri` on, rule-major.
pub open spec fn value_rows_from(
    es: Seq<(Seq<char>, JsonModel)>,
    rules: Seq<Seq<char>>,
    ri: int,
    kinds: Seq<Seq<char>>,
) -> Result<Seq<SuggestionModel>, StructError>
    decreases rules.len() - ri,
{
    if ri < 0 || ri >= rules.len() {
        Ok(Seq::empty())
    } else {
        match value_row_from(es, rules[ri], kinds, 0) {
            Err(e) => Err(e),
            Ok(row) => match value_rows_from(es, rules, ri + 1, kinds) {
                Err(e) => Err(e),
                Ok(rest) => Ok(row + rest),
            },
        }
    }
}

/// The key-phase candidates: the synthetic key-removal rule applied to each
/// category from position `i` on.
pub open spec fn key_row_from(
    es2: Seq<(Seq<char>, JsonModel)>,
    name: Seq<char>,
    key: Seq<char>,
    kinds: Seq<Seq<char>>,
    i: int,
) -> Result<Seq<SuggestionModel>, StructError>
    decreases kinds.len() - i,
{
    if i < 0 || i >= kinds.len() {
        Ok(Seq::empty())
    } else {
        match apply_rule_spec(es2, kinds[i], name) {
            Err(e) => Err(e),
            Ok(es3) => match key_row_from(es2, name, key, kinds, i + 1) {
                Err(e) => Err(e),
                Ok(tail) => Ok(
                    Seq::empty().push(
                        SuggestionModel::Key { pii_kind: kinds[i], key: key, config: json_text(es3) },
                    ) + tail,
                ),
            },
        }
    }
}

/// The synthetic rule name for removing keys named `key`.
pub open spec fn removal_rule_name(key: Seq<char>) -> Seq<char> {
    "remove_all_"@ + key + "_keys"@
}

/// The key-phase candidates of a path: none at all when the path's final key
/// is empty; otherwise a `redactPair` rule on that key, defined on the
/// baseline document and applied to each category.
pub open spec fn key_phase(
    es: Seq<(Seq<char>, JsonModel)>,
    path: Seq<char>,
) -> Result<Seq<SuggestionModel>, StructError> {
    let key = key_of(path);
    if key.len() == 0 {
        Ok(Seq::empty())
    } else {
        match define_rule_spec(es, removal_rule_name(key), key) {
            Err(e) => Err(e),
            Ok(es2) => key_row_from(es2, removal_rule_name(key), key, pii_kinds(), 0),
        }
    }
}

/// Every candidate of a search, in enumeration order: the value phase,
/// rule-major then category, followed by the key phase.
pub open spec fn plan_spec(
    es: Seq<(Seq<char>, JsonModel)>,
    path: Seq<char>,
) -> Result<Seq<SuggestionModel>, StructError> {
    match value_rows_from(es, candidate_rules(es), 0, pii_kinds()) {
        Err(e) => Err(e),
        Ok(vs) => match key_phase(es, path) {
            Err(e) => Err(e),
            Ok(ks) => Ok(vs + ks),
        },
    }
}

/// Builds the value-phase candidates of one rule.
#[verifier::loop_isolation(false)]
fn value_row(doc: &ConfigDoc, rule: &String, kinds: &Vec<String>) -> (r: Result<
    Vec<Suggestion>,
    StructError,
>)
    ensures
        match value_row_from(doc@, rule@, kinds.deep_view(), 0) {
            Ok(row) => r matches Ok(v) && v.deep_view() == row,
            Err(e) => r matches Err(e2) && e2 == e,
        },
{
    let ghost km = kinds.deep_view();
    let n = kinds.len();
    let mut out: Vec<Suggestion> = Vec::new();
    let mut i: usize = 0;
    while i < n
        invariant
            0 <= i <= n,
            match value_row_from(doc@, rule@, km, i as int) {
                Ok(rest) => value_row_from(doc@, rule@, km, 0) matches Ok(whole) && whole
                    == out.deep_view() + rest,
                Err(e) => value_row_from(doc@, rule@, km, 0) == Err::<Seq<SuggestionModel>,
                    StructError,
                >(e),
            },
        decreases n - i,
    {
        match apply_rule_to_kind(doc, kinds[i].as_str(), rule.as_str()) {
            Err(e) => {
                return Err(e);
            },
            Ok(d2) => {
                let text = serialize_config(&d2);
                let ghost before = out.deep_view();
                out.push(
                    Suggestion::Value {
                        pii_kind: kinds[i].clone(),
                        rule: rule.clone(),
                        config: text,
                    },
                );
                proof {
                    assert(out.deep_view() =~= before.push(
                        SuggestionModel::Value {
                            pii_kind: km[i as int],
                            rule: rule@,
                            config: json_text(apply_rule_spec(doc@, km[i as int], rule@)->Ok_0),
                        },
                    ));
                    if value_row_from(doc@, rule@, km, i + 1) is Ok {
                        assert(before.push(
                            SuggestionModel::Value {
                                pii_kind: km[i as int],
                                rule: rule@,
                                config: json_text(
                                    apply_rule_spec(doc@, km[i as int], rule@)->Ok_0,
                                ),
                            },
                        ) + value_row_from(doc@, rule@, km, i + 1)->Ok_0 =~= before
                            + value_row_from(doc@, rule@, km, i as int)->Ok_0);
                    }
                }
            },
        }
        i = i + 1;
    }
    proof {
        assert(out.deep_view() + Seq::<SuggestionModel>::empty() =~= out.deep_view());
    }
    Ok(out)
}

/// Builds the key-phase candidates of the synthetic rule.
#[verifier::loop_isolation(false)]
fn key_row(doc2: &ConfigDoc, name: &String, key: &String, kinds: &Vec<String>) -> (r: Result<
    Vec<Suggestion>,
    StructError,
>)
    ensures
        match key_row_from(doc2@, name@, key@, kinds.deep_view(), 0) {
            Ok(row) => r matches Ok(v) && v.deep_view() == row,
            Err(e) => r matches Err(e2) && e2 == e,
        },
{
    let ghost km = kinds.deep_view();
    let n = kinds.len();
    let mut out: Vec<Suggestion> = Vec::new();
    let mut i: usize = 0;
    while i < n
        invariant
            0 <= i <= n,
            match key_row_from(doc2@, name@, key@, km, i as int) {
                Ok(rest) => key_row_from(doc2@, name@, key@, km, 0) matches Ok(whole) && whole
                    == out.deep_view() + rest,
                Err(e) => key_row_from(doc2@, name@, key@, km, 0) == Err::<Seq<SuggestionModel>,
                    StructError,
                >(e),
            },
        decreases n - i,
    {
        match apply_rule_to_kind(doc2, kinds[i].as_str(), name.as_str()) {
            Err(e) => {
                return Err(e);
            },
            Ok(d2) => {
                let text = serialize_config(&d2);
                let ghost before = out.deep_view();
                out.push(
                    Suggestion::Key {
                        pii_kind: kinds[i].clone(),
                        key: key.clone(),
                        config: text,
                    },
                );
                proof {
                    assert(out.deep_view() =~= before.push(
                        SuggestionModel::Key {
                            pii_kind: km[i as int],
                            key: key@,
                            config: json_text(apply_rule_spec(doc2@, km[i as int], name@)->Ok_0),
                        },
                    ));
                    if key_row_from(doc2@, name@, key@, km, i + 1) is Ok {
                        assert(before.push(
                            SuggestionModel::Key {
                                pii_kind: km[i as int],
                                key: key@,
                                config: json_text(
                                    apply_rule_spec(doc2@, km[i as int], name@)->Ok_0,
                                ),
                            },
                        ) + key_row_from(doc2@, name@, key@, km, i + 1)->Ok_0 =~= before
                            + key_row_from(doc2@, name@, key@, km, i as int)->Ok_0);
                    }
                }
            },
        }
        i = i + 1;
    }
    proof {
        assert(out.deep_view() + Seq::<SuggestionModel>::empty() =~= out.deep_view());
    }
    Ok(out)
}

/// Builds every candidate of a search over the parsed baseline document, in
/// enumeration order.
#[verifier::loop_isolation(false)]
fn build_plan(doc: &ConfigDoc, path: &str) -> (r: Result<Vec<Suggestion>, StructError>)
    ensures
        match plan_spec(doc@, path@) {
            Ok(cs) => r matches Ok(v) && v.deep_view() == cs,
            Err(e) => r matches Err(e2) && e2 == e,
        },
{
    let kinds = pii_kind_list();
    let mut rules = builtin_rule_list();
    let mut own = rule_names(doc);
    let ghost rm = rules.deep_view() + own.deep_view();
    rules.append(&mut own);
    proof {
        assert(rules.deep_view() =~= rm);
        assert(rm == candidate_rules(doc@));
    }
    let nr = rules.len();
    let mut out: Vec<Suggestion> = Vec::new();
    let mut ri: usize = 0;
    while ri < nr
        invariant
            0 <= ri <= nr,
            match value_rows_from(doc@, rm, ri as int, kinds.deep_view()) {
                Ok(rest) => value_rows_from(doc@, rm, 0, kinds.deep_view()) matches Ok(whole)
                    && whole == out.deep_view() + rest,
                Err(e) => value_rows_from(doc@, rm, 0, kinds.deep_view()) == Err::<
                    Seq<SuggestionModel>,
                    StructError,
                >(e),
            },
        decreases nr - ri,
    {
        match value_row(doc, &rules[ri], &kinds) {
            Err(e) => {
                return Err(e);
            },
            Ok(mut row) => {
                let ghost before = out.deep_view();
                let ghost row_m = row.deep_view();
                out.append(&mut row);
                proof {
                    assert(out.deep_view() =~= before + row_m);
                    if value_rows_from(doc@, rm, ri + 1, kinds.deep_view()) is Ok {
                        assert((before + row_m) + value_rows_from(
                            doc@,
                            rm,
                            ri + 1,
                            kinds.deep_view(),
                        )->Ok_0 =~= before + value_rows_from(
                            doc@,
                            rm,
                            ri as int,
                            kinds.deep_view(),
                        )->Ok_0);
                    }
                }
            },
        }
        ri = ri + 1;
    }
    proof {
        assert(out.deep_view() + Seq::<SuggestionModel>::empty() =~= out.deep_view());
    }
    let key = last_key(path);
    if key.as_str().unicode_len() == 0 {
        proof {
            assert(out.deep_view() + Seq::<SuggestionModel>::empty() =~= out.deep_view());
        }
        return Ok(out);
    }
    let name = "remove_all_".to_owned().concat(key.as_str()).concat("_keys");
    proof {
        assert(name@ == removal_rule_name(key@));
    }
    match define_redact_pair_rule(doc, name.as_str(), key.as_str()) {
        Err(e) => Err(e),
        Ok(doc2) => {
            match key_row(&doc2, &name, &key, &kinds) {
                Err(e) => Err(e),
                Ok(mut krow) => {
                    let ghost before = out.deep_view();
                    let ghost krow_m = krow.deep_view();
                    out.append(&mut krow);
                    proof {
                        assert(out.deep_view() =~= before + krow_m);
                    }
                    Ok(out)
                },
            }
        },
    }
}

/// The observable value at `path` in a stripped tree: `Some` of the node's
/// optional value where the path names a node, `None` where it names nothing.
pub open spec fn observed_at(tree: NodeModel, path: Seq<char>) -> Option<Option<ValueModel>> {
    match resolve_model(tree, path) {
        Resolution::Found(nm) => Some(nm.value),
        _ => None,
    }
}

/// Structural equality of observations; metadata and annotations are ignored
/// when deciding that a candidate has no effect.
pub open spec fn obs_like(a: Option<Option<ValueModel>>, b: Option<Option<ValueModel>>) -> bool {
    match (a, b) {
        (None, None) => true,
        (Some(x), Some(y)) => opt_like(x, y),
        _ => false,
    }
}

/// Whether one candidate is kept: its strip succeeded, and the observed value
/// at the path differs from the baseline observation. A failed candidate is
/// absorbed — no suggestion, no error.
pub open spec fn candidate_passes(
    base: Option<Option<ValueModel>>,
    outcome: Option<NodeModel>,
    path: Seq<char>,
) -> bool {
    match outcome {
        None => false,
        Some(t) => !obs_like(observed_at(t, path), base),
    }
}

/// The suggestions kept after recording the given history of candidate
/// outcomes, in enumeration order: exactly the candidates that pass, each one
/// its own entry.
pub open spec fn decided(
    cands: Seq<SuggestionModel>,
    base: Option<Option<ValueModel>>,
    path: Seq<char>,
    hist: Seq<Option<NodeModel>>,
) -> Seq<SuggestionModel>
    decreases hist.len(),
{
    if hist.len() == 0 {
        Seq::empty()
    } else {
        let prefix = decided(cands, base, path, hist.drop_last());
        if hist.len() - 1 < cands.len() && candidate_passes(base, hist.last(), path) {
            prefix.push(cands[hist.len() - 1])
        } else {
            prefix
        }
    }
}

/// A search in progress: the baseline observation, the planned candidates,
/// and the suggestions kept so far. The driver strips the event once per
/// candidate config and records each outcome in order; the search never
/// consults anything but the recorded outcomes, so its result is a pure
/// function of them.
pub struct Search {
    baseline_tree: AnnotatedValue,
    path: String,
    candidates: Vec<Suggestion>,
    next: usize,
    found: Vec<Suggestion>,
    history: Ghost<Seq<Option<NodeModel>>>,
}

impl Search {
    /// The target path.
    pub closed spec fn path_spec(self) -> Seq<char> {
        self.path@
    }

    /// The stripped baseline tree.
    pub closed spec fn baseline_spec(self) -> NodeModel {
        self.baseline_tree@
    }

    /// The baseline observation at the target path.
    pub open spec fn observed_spec(self) -> Option<Option<ValueModel>> {
        observed_at(self.baseline_spec(), self.path_spec())
    }

    /// The planned candidates, in enumeration order.
    pub closed spec fn candidates_spec(self) -> Seq<SuggestionModel> {
        self.candidates.deep_view()
    }

    /// The outcomes recorded so far, in order.
    pub closed spec fn history_spec(self) -> Seq<Option<NodeModel>> {
        self.history@
    }

    /// The suggestions kept so far.
    pub closed spec fn found_spec(self) -> Seq<SuggestionModel> {
        self.found.deep_view()
    }

    /// The search invariant: one outcome per candidate recorded so far, a
    /// fault-free baseline resolution, and the kept suggestions determined by
    /// the recorded outcomes alone.
    pub closed spec fn wf(self) -> bool {
        &&& self.next as int == self.history@.len()
        &&& self.history@.len() <= self.candidates@.len()
        &&& !(resolve_model(self.baseline_spec(), self.path_spec()) is Fault)
        &&& self.found.deep_view() == decided(
            self.candidates_spec(),
            self.observed_spec(),
            self.path_spec(),
            self.history@,
        )
    }

    /// Starts a search: records the baseline observation and plans every
    /// candidate. Fails with `MalformedConfig` where the baseline text is not
    /// a JSON object, and with the exact structural error where a top-level
    /// member has the wrong shape.
    pub fn begin(baseline_tree: AnnotatedValue, config_text: &str, path: &str) -> (r: Result<
        Search,
        SuggestError,
    >)
        requires
            !(resolve_model(baseline_tree@, path@) is Fault),
        ensures
            match r {
                Ok(s) => {
                    &&& s.wf()
                    &&& s.history_spec().len() == 0
                    &&& s.found_spec().len() == 0
                    &&& s.path_spec() == path@
                    &&& s.baseline_spec() == baseline_tree@
                    &&& json_parse(config_text@) matches Some(JsonModel::Obj(es)) && plan_spec(
                        es,
                        path@,
                    ) matches Ok(cs) && s.candidates_spec() == cs
                },
                Err(SuggestError::MalformedConfig) => !(json_parse(config_text@) matches Some(
                    JsonModel::Obj(es),
                )),
                Err(SuggestError::Structure(e)) => json_parse(config_text@) matches Some(
                    JsonModel::Obj(es),
                ) && plan_spec(es, path@) == Err::<Seq<SuggestionModel>, StructError>(e),
            },
    {
        let doc = match parse_config(config_text) {
            Some(d) => d,
            None => {
                return Err(SuggestError::MalformedConfig);
            },
        };
        match build_plan(&doc, path) {
            Err(e) => Err(SuggestError::Structure(e)),
            Ok(cands) => {
                let s = Search {
                    baseline_tree,
                    path: path.to_owned(),
                    candidates: cands,
                    next: 0,
                    found: Vec::new(),
                    history: Ghost(Seq::empty()),
                };
                proof {
                    assert(s.found.deep_view() =~= Seq::<SuggestionModel>::empty());
                }
                Ok(s)
            },
        }
    }

    /// How many candidates the search will try.
    pub fn candidate_count(&self) -> (r: usize)
        ensures
            r as int == self.candidates_spec().len(),
    {
        self.candidates.len()
    }

    /// The config text of the next candidate awaiting an outcome, or `None`
    /// when every outcome has been recorded.
    pub fn next_candidate_config(&self) -> (r: Option<String>)
        requires
            self.wf(),
        ensures
            match r {
                Some(t) => self.history_spec().len() < self.candidates_spec().len() && t@
                    == suggestion_config(
                    self.candidates_spec()[self.history_spec().len() as int],
                ),
                None => self.history_spec().len() == self.candidates_spec().len(),
            },
    {
        if self.next < self.candidates.len() {
            match &self.candidates[self.next] {
                Suggestion::Value { config, .. } => Some(config.clone()),
                Suggestion::Key { config, .. } => Some(config.clone()),
            }
        } else {
            None
        }
    }

    /// Records that stripping the next candidate failed. The failure is
    /// absorbed: no suggestion is kept, no error surfaces.
    pub fn record_failure(&mut self)
        requires
            old(self).wf(),
            old(self).history_spec().len() < old(self).candidates_spec().len(),
        ensures
            final(self).wf(),
            final(self).history_spec() == old(self).history_spec().push(
                None::<NodeModel>,
            ),
            final(self).candidates_spec() == old(self).candidates_spec(),
            final(self).path_spec() == old(self).path_spec(),
            final(self).baseline_spec() == old(self).baseline_spec(),
            final(self).found_spec() == old(self).found_spec(),
    {
        let cap = self.candidates.len();
        self.next = self.next + 1;
        proof {
            self.history@ = self.history@.push(None);
            assert(self.history@.drop_last() =~= old(self).history@);
        }
    }

    /// Records the stripped tree of the next candidate: resolves the target
    /// path in it and keeps the candidate exactly where the observed value
    /// differs from the baseline observation.
    pub fn record_outcome(&mut self, tree: &AnnotatedValue)
        requires
            old(self).wf(),
            old(self).history_spec().len() < old(self).candidates_spec().len(),
            !(resolve_model(tree@, old(self).path_spec()) is Fault),
        ensures
            final(self).wf(),
            final(self).history_spec() == old(self).history_spec().push(Some(tree@)),
            final(self).candidates_spec() == old(self).candidates_spec(),
            final(self).path_spec() == old(self).path_spec(),
            final(self).baseline_spec() == old(self).baseline_spec(),
            final(self).found_spec() == (if candidate_passes(
                old(self).observed_spec(),
                Some(tree@),
                old(self).path_spec(),
            ) {
                old(self).found_spec().push(
                    old(self).candidates_spec()[old(self).history_spec().len() as int],
                )
            } else {
                old(self).found_spec()
            }),
    {
        let differs: bool = {
            let base = match resolve_checked(&self.baseline_tree, self.path.as_str()) {
                Lookup::Found(x) => Some(&x.value),
                Lookup::Missing => None,
                Lookup::Fault => vstd::pervasive::unreached(),
            };
            let cand = match resolve_checked(tree, self.path.as_str()) {
                Lookup::Found(x) => Some(&x.value),
                Lookup::Missing => None,
                Lookup::Fault => vstd::pervasive::unreached(),
            };
            match (cand, base) {
                (None, None) => false,
                (Some(y), Some(x)) => !values_equal(y, x),
                _ => true,
            }
        };
        if differs {
            let kept = suggestion_dup(&self.candidates[self.next]);
            self.found.push(kept);
        }
        let cap = self.candidates.len();
        self.next = self.next + 1;
        proof {
            self.history@ = self.history@.push(Some(tree@));
            assert(self.history@.drop_last() =~= old(self).history@);
            if differs {
                assert(self.found.deep_view() =~= old(self).found.deep_view().push(
                    old(self).candidates_spec()[old(self).history_spec().len() as int],
                ));
            }
        }
    }

    /// Whether every candidate's outcome has been recorded.
    pub fn is_done(&self) -> (r: bool)
        requires
            self.wf(),
        ensures
            r == (self.history_spec().len() == self.candidates_spec().len()),
    {
        self.next == self.candidates.len()
    }

    /// The suggestions kept, in enumeration order: value suggestions first,
    /// then key suggestions, exactly the recorded candidates whose observed
    /// value differs from the baseline.
    pub fn into_suggestions(self) -> (r: Vec<Suggestion>)
        requires
            self.wf(),
        ensures
            r.deep_view() == decided(
                self.candidates_spec(),
                self.observed_spec(),
                self.path_spec(),
                self.history_spec(),
            ),
    {
        self.found
    }
}

/// The resulting config text a suggestion carries.
pub open spec fn suggestion_config(s: SuggestionModel) -> Seq<char> {
    match s {
        SuggestionModel::Value { config, .. } => config,
        SuggestionModel::Key { config, .. } => config,
    }
}

/// A candidate whose stripped tree observes exactly the baseline tree's value
/// at the path is never kept: in particular, recording the baseline tree
/// itself yields no suggestion.
pub proof fn lemma_same_tree_not_kept(t: NodeModel, path: Seq<char>)
    ensures
        !candidate_passes(observed_at(t, path), Some(t), path),
{
    match observed_at(t, path) {
        Some(v) => crate::value::lemma_opt_like_reflexive(v),
        None => {},
    }
}

/// A path that names nothing in the baseline and nothing in a candidate's
/// tree produces no suggestion from that candidate: nothing-versus-nothing is
/// no difference.
pub proof fn lemma_missing_everywhere_not_kept(base: NodeModel, t: NodeModel, path: Seq<char>)
    requires
        !(resolve_model(base, path) is Found),
        !(resolve_model(t, path) is Found),
    ensures
        !candidate_passes(observed_at(base, path), Some(t), path),
{
}

/// Every value-phase candidate of one rule is a value suggestion.
proof fn lemma_value_row_all_value(
    es: Seq<(Seq<char>, JsonModel)>,
    rule: Seq<char>,
    kinds: Seq<Seq<char>>,
    i: int,
)
    ensures
        value_row_from(es, rule, kinds, i) matches Ok(row) ==> forall|j: int|
            0 <= j < row.len() ==> row[j] is Value,
    decreases kinds.len() - i,
{
    if 0 <= i < kinds.len() {
        lemma_value_row_all_value(es, rule, kinds, i + 1);
    }
}

/// Every value-phase candidate is a value suggestion.
proof fn lemma_value_rows_all_value(
    es: Seq<(Seq<char>, JsonModel)>,
    rules: Seq<Seq<char>>,
    ri: int,
    kinds: Seq<Seq<char>>,
)
    ensures
        value_rows_from(es, rules, ri, kinds) matches Ok(rows) ==> forall|j: int|
            0 <= j < rows.len() ==> rows[j] is Value,
    decreases rules.len() - ri,
{
    if 0 <= ri < rules.len() {
        lemma_value_row_all_value(es, rules[ri], kinds, 0);
        lemma_value_rows_all_value(es, rules, ri + 1, kinds);
    }
}

/// Where every candidate is a value suggestion, so is everything decided.
proof fn lemma_decided_variant(
    cands: Seq<SuggestionModel>,
    base: Option<Option<ValueModel>>,
    path: Seq<char>,
    hist: Seq<Option<NodeModel>>,
)
    requires
        forall|j: int| 0 <= j < cands.len() ==> cands[j] is Value,
    ensures
        forall|i: int|
            0 <= i < decided(cands, base, path, hist).len() ==> decided(
                cands,
                base,
                path,
                hist,
            )[i] is Value,
    decreases hist.len(),
{
    if hist.len() > 0 {
        lemma_decided_variant(cands, base, path, hist.drop_last());
    }
}

/// A path whose final segment is empty — the empty path, or one ending in a
/// dot — plans no key-removal candidates at all, so no key suggestion is ever
/// kept, whatever outcomes the processor reports.
pub proof fn lemma_trailing_empty_key_no_key_suggestions(
    es: Seq<(Seq<char>, JsonModel)>,
    path: Seq<char>,
    base: Option<Option<ValueModel>>,
    hist: Seq<Option<NodeModel>>,
)
    requires
        path.len() == 0 || path[path.len() - 1] == '.',
    ensures
        plan_spec(es, path) matches Ok(cs) ==> forall|i: int|
            0 <= i < decided(cs, base, path, hist).len() ==> decided(
                cs,
                base,
                path,
                hist,
            )[i] is Value,
{
    assert(key_of(path).len() == 0);
    if plan_spec(es, path) is Ok {
        let cs = plan_spec(es, path)->Ok_0;
        lemma_value_rows_all_value(es, candidate_rules(es), 0, pii_kinds());
        let vs = value_rows_from(es, candidate_rules(es), 0, pii_kinds())->Ok_0;
        assert(cs =~= vs);
        lemma_decided_variant(cs, base, path, hist);
    }
}

/// A passing outcome leaves its own candidate in what is decided.
proof fn lemma_passes_kept(
    cands: Seq<SuggestionModel>,
    base: Option<Option<ValueModel>>,
    path: Seq<char>,
    hist: Seq<Option<NodeModel>>,
    i: int,
)
    requires
        0 <= i < hist.len(),
        hist.len() <= cands.len(),
        candidate_passes(base, hist[i], path),
    ensures
        exists|k: int|
            0 <= k < decided(cands, base, path, hist).len() && decided(cands, base, path, hist)[k]
                == cands[i],
    decreases hist.len(),
{
    let d = decided(cands, base, path, hist);
    let dprev = decided(cands, base, path, hist.drop_last());
    if i == hist.len() - 1 {
        assert(d[d.len() - 1] == cands[i]);
    } else {
        assert(hist.drop_last()[i] == hist[i]);
        lemma_passes_kept(cands, base, path, hist.drop_last(), i);
        let k = choose|k: int| 0 <= k < dprev.len() && dprev[k] == cands[i];
        assert(d[k] == cands[i]);
    }
}

/// No deduplication: where two distinct candidates both pass — even two whose
/// resulting config text is identical — each yields its own entry, in
/// enumeration order.
pub proof fn lemma_no_dedup(
    cands: Seq<SuggestionModel>,
    base: Option<Option<ValueModel>>,
    path: Seq<char>,
    hist: Seq<Option<NodeModel>>,
    i: int,
    j: int,
)
    requires
        0 <= i < j < hist.len(),
        hist.len() <= cands.len(),
        candidate_passes(base, hist[i], path),
        candidate_passes(base, hist[j], path),
    ensures
        exists|k: int, l: int|
            0 <= k < l < decided(cands, base, path, hist).len() && decided(
                cands,
                base,
                path,
                hist,
            )[k] == cands[i] && decided(cands, base, path, hist)[l] == cands[j],
    decreases hist.len(),
{
    let d = decided(cands, base, path, hist);
    let dprev = decided(cands, base, path, hist.drop_last());
    if j == hist.len() - 1 {
        assert(hist.drop_last()[i] == hist[i]);
        lemma_passes_kept(cands, base, path, hist.drop_last(), i);
        let k = choose|k: int| 0 <= k < dprev.len() && dprev[k] == cands[i];
        assert(d[k] == cands[i] && d[dprev.len() as int] == cands[j]);
    } else {
        assert(hist.drop_last()[i] == hist[i]);
        assert(hist.drop_last()[j] == hist[j]);
        lemma_no_dedup(cands, base, path, hist.drop_last(), i, j);
        let (k, l) = choose|k: int, l: int|
            0 <= k < l < dprev.len() && dprev[k] == cands[i] && dprev[l] == cands[j];
        assert(d[k] == cands[i] && d[l] == cands[j]);
    }
}

} // verus!
