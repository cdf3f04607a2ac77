//! The structured value model: a tagged-union document type plus an
//! annotation wrapper pairing an optional value with processing metadata.
//!
//! Instances of this model are produced by the external redaction processor
//! (one tree per processor run) and consumed by the path resolver and the
//! suggestion engine. Floating-point leaves are carried as their IEEE 754
//! bit patterns so that the model stays within verifiable ground types;
//! the driver that talks to the processor converts in both directions.

use vstd::prelude::*;

verus! {

broadcast use {vstd::seq::axiom_seq_index_decreases, vstd::std_specs::vec::axiom_vec_decreases_to_view};

/// Metadata attached to every node of a processed event tree: the address the
/// processor assigned to the node, the applied-transform descriptors, and the
/// processing-error descriptors.
pub struct Meta {
    pub path: Option<String>,
    pub remarks: Vec<String>,
    pub errors: Vec<String>,
}

/// A value paired with its metadata. The value is absent when the processor
/// removed it (for example, a redacted leaf).
pub struct AnnotatedValue {
    pub value: Option<EventValue>,
    pub meta: Meta,
}

/// The tagged union of document values. Arrays are ordered sequences of
/// annotated children; maps are insertion-ordered lists of unique string keys
/// with annotated children. `F64Bits` holds the bit pattern of a
/// double-precision leaf.
pub enum EventValue {
    Null,
    Bool(bool),
    I64(i64),
    U64(u64),
    F64Bits(u64),
    Str(String),
    Arr(Vec<AnnotatedValue>),
    Obj(Vec<(String, AnnotatedValue)>),
}

/// Mathematical model of `Meta`.
#[verifier::ext_equal]
pub struct MetaModel {
    pub path: Option<Seq<char>>,
    pub remarks: Seq<Seq<char>>,
    pub errors: Seq<Seq<char>>,
}

/// Mathematical model of `AnnotatedValue`.
#[verifier::ext_equal]
pub struct NodeModel {
    pub value: Option<ValueModel>,
    pub meta: MetaModel,
}

/// Mathematical model of `EventValue`.
#[verifier::ext_equal]
pub enum ValueModel {
    Null,
    Bool(bool),
    I64(i64),
    U64(u64),
    F64Bits(u64),
    Str(Seq<char>),
    Arr(Seq<NodeModel>),
    Obj(Seq<(Seq<char>, NodeModel)>),
}

impl View for Meta {
    type V = MetaModel;

    open spec fn view(&self) -> MetaModel {
        MetaModel {
            path: match self.path {
                Some(p) => Some(p@),
                None => None,
            },
            remarks: self.remarks.deep_view(),
            errors: self.errors.deep_view(),
        }
    }
}

impl View for AnnotatedValue {
    type V = NodeModel;

    open spec fn view(&self) -> NodeModel {
        node_model(*self)
    }
}

impl View for EventValue {
    type V = ValueModel;

    open spec fn view(&self) -> ValueModel {
        value_model(*self)
    }
}

/// Model of an annotated node, recursively over the whole tree.
pub open spec fn node_model(n: AnnotatedValue) -> NodeModel
    decreases n,
{
    NodeModel {
        value: match n.value {
            Some(v) => Some(value_model(v)),
            None => None,
        },
        meta: n.meta@,
    }
}

/// Model of a bare value, recursively over the whole tree.
pub open spec fn value_model(v: EventValue) -> ValueModel
    decreases v,
{
    match v {
        EventValue::Null => ValueModel::Null,
        EventValue::Bool(b) => ValueModel::Bool(b),
        EventValue::I64(n) => ValueModel::I64(n),
        EventValue::U64(n) => ValueModel::U64(n),
        EventValue::F64Bits(n) => ValueModel::F64Bits(n),
        EventValue::Str(s) => ValueModel::Str(s@),
        EventValue::Arr(items) => ValueModel::Arr(nodes_model(items@)),
        EventValue::Obj(entries) => ValueModel::Obj(entries_model(entries@)),
    }
}

/// Model of an ordered sequence of annotated children.
pub open spec fn nodes_model(items: Seq<AnnotatedValue>) -> Seq<NodeModel>
    decreases items,
{
    if items.len() == 0 {
        Seq::empty()
    } else {
        nodes_model(items.subrange(0, items.len() - 1)).push(node_model(items[items.len() - 1]))
    }
}

/// Model of an insertion-ordered list of keyed annotated children.
pub open spec fn entries_model(entries: Seq<(String, AnnotatedValue)>) -> Seq<(Seq<char>, NodeModel)>
    decreases entries,
{
    if entries.len() == 0 {
        Seq::empty()
    } else {
        entries_model(entries.subrange(0, entries.len() - 1)).push(
            (entries[entries.len() - 1].0@, node_model(entries[entries.len() - 1].1)),
        )
    }
}

/// The model of a child sequence is the sequence of the children's models.
pub proof fn lemma_nodes_model(items: Seq<AnnotatedValue>)
    ensures
        nodes_model(items).len() == items.len(),
        forall|i: int| 0 <= i < items.len() ==> nodes_model(items)[i] == node_model(items[i]),
    decreases items.len(),
{
    if items.len() > 0 {
        lemma_nodes_model(items.subrange(0, items.len() - 1));
    }
}

/// The model of a keyed entry list is the entrywise model.
pub proof fn lemma_entries_model(entries: Seq<(String, AnnotatedValue)>)
    ensures
        entries_model(entries).len() == entries.len(),
        forall|i: int| 0 <= i < entries.len() ==> entries_model(entries)[i] == (
            entries[i].0@,
            node_model(entries[i].1),
        ),
    decreases entries.len(),
{
    if entries.len() > 0 {
        lemma_entries_model(entries.subrange(0, entries.len() - 1));
    }
}

/// Model of an optional value.
pub open spec fn opt_model(v: Option<EventValue>) -> Option<ValueModel> {
    match v {
        Some(x) => Some(value_model(x)),
        None => None,
    }
}

/// Structural equality of optional values, metadata ignored throughout.
pub open spec fn opt_like(a: Option<ValueModel>, b: Option<ValueModel>) -> bool
    decreases a,
{
    match (a, b) {
        (None, None) => true,
        (Some(x), Some(y)) => value_like(x, y),
        _ => false,
    }
}

/// Structural equality of values, metadata ignored throughout.
pub open spec fn value_like(a: ValueModel, b: ValueModel) -> bool
    decreases a,
{
    match (a, b) {
        (ValueModel::Null, ValueModel::Null) => true,
        (ValueModel::Bool(x), ValueModel::Bool(y)) => x == y,
        (ValueModel::I64(x), ValueModel::I64(y)) => x == y,
        (ValueModel::U64(x), ValueModel::U64(y)) => x == y,
        (ValueModel::F64Bits(x), ValueModel::F64Bits(y)) => x == y,
        (ValueModel::Str(x), ValueModel::Str(y)) => x == y,
        (ValueModel::Arr(xs), ValueModel::Arr(ys)) => nodes_like(xs, ys),
        (ValueModel::Obj(xs), ValueModel::Obj(ys)) => entries_like(xs, ys),
        _ => false,
    }
}

/// Elementwise value equality of child sequences, metadata ignored.
pub open spec fn nodes_like(xs: Seq<NodeModel>, ys: Seq<NodeModel>) -> bool
    decreases xs,
{
    if xs.len() != ys.len() {
        false
    } else if xs.len() == 0 {
        true
    } else {
        opt_like(xs[0].value, ys[0].value) && nodes_like(
            xs.subrange(1, xs.len() as int),
            ys.subrange(1, ys.len() as int),
        )
    }
}

/// Entrywise key and value equality of keyed entry lists, metadata ignored.
pub open spec fn entries_like(
    xs: Seq<(Seq<char>, NodeModel)>,
    ys: Seq<(Seq<char>, NodeModel)>,
) -> bool
    decreases xs,
{
    if xs.len() != ys.len() {
        false
    } else if xs.len() == 0 {
        true
    } else {
        xs[0].0 == ys[0].0 && opt_like(xs[0].1.value, ys[0].1.value) && entries_like(
            xs.subrange(1, xs.len() as int),
            ys.subrange(1, ys.len() as int),
        )
    }
}

/// `nodes_like` holds exactly of equal-length sequences whose children agree
/// pairwise.
pub proof fn lemma_nodes_like(xs: Seq<NodeModel>, ys: Seq<NodeModel>)
    ensures
        nodes_like(xs, ys) <==> (xs.len() == ys.len() && forall|i: int|
            0 <= i < xs.len() ==> opt_like(xs[i].value, ys[i].value)),
    decreases xs.len(),
{
    if xs.len() == ys.len() && xs.len() > 0 {
        let xt = xs.subrange(1, xs.len() as int);
        let yt = ys.subrange(1, ys.len() as int);
        lemma_nodes_like(xt, yt);
        assert forall|i: int| 1 <= i < xs.len() implies xs[i] == xt[i - 1] && ys[i] == yt[i
            - 1] by {}
        if nodes_like(xs, ys) {
            assert forall|i: int| 0 <= i < xs.len() implies opt_like(
                xs[i].value,
                ys[i].value,
            ) by {
                if i > 0 {
                    assert(opt_like(xt[i - 1].value, yt[i - 1].value));
                }
            }
        }
    }
}

/// `entries_like` holds exactly of equal-length lists whose keys and children
/// agree pairwise.
pub proof fn lemma_entries_like(xs: Seq<(Seq<char>, NodeModel)>, ys: Seq<(Seq<char>, NodeModel)>)
    ensures
        entries_like(xs, ys) <==> (xs.len() == ys.len() && forall|i: int|
            0 <= i < xs.len() ==> xs[i].0 == ys[i].0 && opt_like(xs[i].1.value, ys[i].1.value)),
    decreases xs.len(),
{
    if xs.len() == ys.len() && xs.len() > 0 {
        let xt = xs.subrange(1, xs.len() as int);
        let yt = ys.subrange(1, ys.len() as int);
        lemma_entries_like(xt, yt);
        assert forall|i: int| 1 <= i < xs.len() implies xs[i] == xt[i - 1] && ys[i] == yt[i
            - 1] by {}
        if entries_like(xs, ys) {
            assert forall|i: int| 0 <= i < xs.len() implies xs[i].0 == ys[i].0 && opt_like(
                xs[i].1.value,
                ys[i].1.value,
            ) by {
                if i > 0 {
                    assert(xt[i - 1].0 == yt[i - 1].0 && opt_like(
                        xt[i - 1].1.value,
                        yt[i - 1].1.value,
                    ));
                }
            }
        }
    }
}

/// Every value is structurally equal to itself.
pub proof fn lemma_value_like_reflexive(a: ValueModel)
    ensures
        value_like(a, a),
    decreases a,
{
    match a {
        ValueModel::Arr(xs) => lemma_nodes_like_reflexive(xs),
        ValueModel::Obj(xs) => lemma_entries_like_reflexive(xs),
        _ => {},
    }
}

/// Every optional value is structurally equal to itself.
pub proof fn lemma_opt_like_reflexive(a: Option<ValueModel>)
    ensures
        opt_like(a, a),
    decreases a,
{
    match a {
        Some(v) => lemma_value_like_reflexive(v),
        None => {},
    }
}

proof fn lemma_nodes_like_reflexive(xs: Seq<NodeModel>)
    ensures
        nodes_like(xs, xs),
    decreases xs,
{
    if xs.len() > 0 {
        lemma_opt_like_reflexive(xs[0].value);
        assert(opt_like(xs[0].value, xs[0].value));
        lemma_nodes_like_reflexive(xs.subrange(1, xs.len() as int));
    }
}

proof fn lemma_entries_like_reflexive(xs: Seq<(Seq<char>, NodeModel)>)
    ensures
        entries_like(xs, xs),
    decreases xs,
{
    if xs.len() > 0 {
        lemma_opt_like_reflexive(xs[0].1.value);
        assert(opt_like(xs[0].1.value, xs[0].1.value));
        lemma_entries_like_reflexive(xs.subrange(1, xs.len() as int));
    }
}

/// Decides structural equality of two optional values, ignoring metadata
/// everywhere.
pub fn values_equal(a: &Option<EventValue>, b: &Option<EventValue>) -> (r: bool)
    ensures
        r == opt_like(opt_model(*a), opt_model(*b)),
    decreases *a,
{
    match (a, b) {
        (None, None) => true,
        (Some(x), Some(y)) => value_eq(x, y),
        _ => false,
    }
}

/// Decides structural equality of two values, ignoring metadata everywhere.
#[verifier::loop_isolation(false)]
pub fn value_eq(a: &EventValue, b: &EventValue) -> (r: bool)
    ensures
        r == value_like(value_model(*a), value_model(*b)),
    decreases *a,
{
    match (a, b) {
        (EventValue::Null, EventValue::Null) => true,
        (EventValue::Bool(x), EventValue::Bool(y)) => *x == *y,
        (EventValue::I64(x), EventValue::I64(y)) => *x == *y,
        (EventValue::U64(x), EventValue::U64(y)) => *x == *y,
        (EventValue::F64Bits(x), EventValue::F64Bits(y)) => *x == *y,
        (EventValue::Str(x), EventValue::Str(y)) => crate::path::str_eq(x.as_str(), y.as_str()),
        (EventValue::Arr(xs), EventValue::Arr(ys)) => {
            proof {
                lemma_nodes_model(xs@);
                lemma_nodes_model(ys@);
                lemma_nodes_like(nodes_model(xs@), nodes_model(ys@));
            }
            if xs.len() != ys.len() {
                return false;
            }
            let n = xs.len();
            let mut i: usize = 0;
            while i < n
                invariant
                    0 <= i <= n,
                    forall|j: int| 0 <= j < i ==> opt_like(
                        node_model(xs@[j]).value,
                        node_model(ys@[j]).value,
                    ),
                decreases n - i,
            {
                if !values_equal(&xs[i].value, &ys[i].value) {
                    proof {
                        assert(!opt_like(
                            nodes_model(xs@)[i as int].value,
                            nodes_model(ys@)[i as int].value,
                        ));
                    }
                    return false;
                }
                i = i + 1;
            }
            true
        },
        (EventValue::Obj(xs), EventValue::Obj(ys)) => {
            proof {
                lemma_entries_model(xs@);
                lemma_entries_model(ys@);
                lemma_entries_like(entries_model(xs@), entries_model(ys@));
            }
            if xs.len() != ys.len() {
                return false;
            }
            let n = xs.len();
            let mut i: usize = 0;
            while i < n
                invariant
                    0 <= i <= n,
                    forall|j: int| 0 <= j < i ==> xs@[j].0@ == ys@[j].0@ && opt_like(
                        node_model(xs@[j].1).value,
                        node_model(ys@[j].1).value,
                    ),
                decreases n - i,
            {
                if !crate::path::str_eq(xs[i].0.as_str(), ys[i].0.as_str()) {
                    proof {
                        assert(entries_model(xs@)[i as int].0 != entries_model(ys@)[i as int].0);
                    }
                    return false;
                }
                if !values_equal(&xs[i].1.value, &ys[i].1.value) {
                    proof {
                        assert(!opt_like(
                            entries_model(xs@)[i as int].1.value,
                            entries_model(ys@)[i as int].1.value,
                        ));
                    }
                    return false;
                }
                i = i + 1;
            }
            true
        },
        _ => false,
    }
}

} // verus!
