//! The path resolver: follows a dot-delimited address through an annotated
//! value tree.
//!
//! The empty path and the literal path `"."` name the root. Otherwise the
//! path splits into its first segment and the remainder. Against an array the
//! segment must be a decimal index (a malformed one is an internal fault; a
//! well-formed but out-of-range one merely resolves to nothing); against an
//! object it is a literal key; against any other value nothing resolves.

use vstd::prelude::*;

use crate::path::{
    dec_val, dot_pos, find_dot, is_index, lemma_dot_pos, lemma_dot_pos_unique, parse_index,
    str_eq, strict_path,
};
use crate::value::{
    entries_model, lemma_entries_model, lemma_nodes_model, node_model, AnnotatedValue,
    EventValue, NodeModel, ValueModel,
};

verus! {

/// Outcome of resolving a path, at the model level. A `Fault` is a malformed
/// path — a programmer error, since paths are machine-generated — and is kept
/// distinct from an address that merely names nothing.
pub enum Resolution {
    Fault,
    Missing,
    Found(NodeModel),
}

/// First match for `key` in an ordered entry list.
pub open spec fn entry_lookup(
    entries: Seq<(Seq<char>, NodeModel)>,
    key: Seq<char>,
) -> Option<NodeModel>
    decreases entries.len(),
{
    if entries.len() == 0 {
        None
    } else if entries[0].0 == key {
        Some(entries[0].1)
    } else {
        entry_lookup(entries.subrange(1, entries.len() as int), key)
    }
}

/// What resolving `path` against `n` yields.
pub open spec fn resolve_model(n: NodeModel, path: Seq<char>) -> Resolution
    decreases path.len(),
    via resolve_model_decreases
{
    if path.len() == 0 || (path.len() == 1 && path[0] == '.') {
        Resolution::Found(n)
    } else {
        let d = dot_pos(path);
        if d == 0 {
            Resolution::Fault
        } else {
            let seg = path.subrange(0, d);
            let rest = if d == path.len() {
                Seq::<char>::empty()
            } else {
                path.subrange(d + 1, path.len() as int)
            };
            match n.value {
                Some(ValueModel::Arr(items)) => {
                    if !is_index(seg) {
                        Resolution::Fault
                    } else if dec_val(seg) >= items.len() {
                        Resolution::Missing
                    } else {
                        resolve_model(items[dec_val(seg) as int], rest)
                    }
                },
                Some(ValueModel::Obj(entries)) => match entry_lookup(entries, seg) {
                    Some(child) => resolve_model(child, rest),
                    None => Resolution::Missing,
                },
                _ => Resolution::Missing,
            }
        }
    }
}

#[via_fn]
proof fn resolve_model_decreases(n: NodeModel, path: Seq<char>) {
    lemma_dot_pos(path);
}

/// Outcome of resolving a path against a tree held by reference.
pub enum Lookup<'a> {
    Fault,
    Missing,
    Found(&'a AnnotatedValue),
}

/// The executable outcome agrees with the model outcome.
pub open spec fn lookup_matches<'a>(r: Lookup<'a>, m: Resolution) -> bool {
    match m {
        Resolution::Fault => r is Fault,
        Resolution::Missing => r is Missing,
        Resolution::Found(nm) => r matches Lookup::Found(x) && node_model(*x) == nm,
    }
}

/// Skipping entries that do not match leaves the lookup unchanged.
proof fn lemma_entry_lookup_skip(entries: Seq<(Seq<char>, NodeModel)>, key: Seq<char>, i: int)
    requires
        0 <= i <= entries.len(),
        forall|j: int| 0 <= j < i ==> entries[j].0 != key,
    ensures
        entry_lookup(entries, key) == entry_lookup(
            entries.subrange(i, entries.len() as int),
            key,
        ),
    decreases i,
{
    if i > 0 {
        let t = entries.subrange(1, entries.len() as int);
        lemma_entry_lookup_skip(t, key, i - 1);
        assert(t.subrange(i - 1, t.len() as int) =~= entries.subrange(i, entries.len() as int));
    } else {
        assert(entries.subrange(0, entries.len() as int) =~= entries);
    }
}

/// First entry named `key`, scanning in order.
fn lookup_entry<'a>(entries: &'a Vec<(String, AnnotatedValue)>, key: &str) -> (r: Option<
    &'a AnnotatedValue,
>)
    ensures
        match entry_lookup(entries_model(entries@), key@) {
            Some(m) => r matches Some(x) && node_model(*x) == m,
            None => r is None,
        },
{
    proof {
        lemma_entries_model(entries@);
    }
    let ghost ms = entries_model(entries@);
    let n = entries.len();
    let mut i: usize = 0;
    while i < n
        invariant
            0 <= i <= n,
            n == entries@.len(),
            ms == entries_model(entries@),
            ms.len() == n,
            forall|j: int| 0 <= j < n ==> ms[j] == (entries@[j].0@, node_model(entries@[j].1)),
            forall|j: int| 0 <= j < i ==> ms[j].0 != key@,
        decreases n - i,
    {
        if str_eq(entries[i].0.as_str(), key) {
            proof {
                lemma_entry_lookup_skip(ms, key@, i as int);
                let t = ms.subrange(i as int, ms.len() as int);
                assert(t[0] == ms[i as int]);
            }
            return Some(&entries[i].1);
        }
        i = i + 1;
    }
    proof {
        lemma_entry_lookup_skip(ms, key@, n as int);
        assert(ms.subrange(n as int, ms.len() as int) =~= Seq::<(Seq<char>, NodeModel)>::empty());
    }
    None
}

/// Resolves `path` against `root`, reporting a malformed path as a `Fault`.
pub fn resolve_checked<'a>(root: &'a AnnotatedValue, path: &str) -> (r: Lookup<'a>)
    ensures
        lookup_matches(r, resolve_model(root@, path@)),
    decreases path@.len(),
{
    let n = path.unicode_len();
    if n == 0 {
        return Lookup::Found(root);
    }
    if n == 1 && path.get_char(0) == '.' {
        return Lookup::Found(root);
    }
    let d = find_dot(path);
    proof {
        lemma_dot_pos(path@);
    }
    if d == 0 {
        return Lookup::Fault;
    }
    let seg = path.substring_char(0, d);
    let rest = if d == n {
        ""
    } else {
        path.substring_char(d + 1, n)
    };
    proof {
        reveal_strlit("");
        if d == n {
            assert(rest@ =~= Seq::<char>::empty());
        }
    }
    let child: &'a AnnotatedValue = match &root.value {
        Some(EventValue::Arr(items)) => {
            proof {
                lemma_nodes_model(items@);
            }
            match parse_index(seg) {
                None => {
                    return Lookup::Fault;
                },
                Some(idx) => {
                    if idx < items.len() {
                        &items[idx]
                    } else {
                        return Lookup::Missing;
                    }
                },
            }
        },
        Some(EventValue::Obj(entries)) => {
            match lookup_entry(entries, seg) {
                Some(child) => child,
                None => {
                    return Lookup::Missing;
                },
            }
        },
        _ => {
            return Lookup::Missing;
        },
    };
    resolve_checked(child, rest)
}

/// Resolves `path` against `root`. The empty path and `"."` name the root;
/// an address that runs off the tree yields `None`. Malformed paths are
/// excluded by contract: paths are generated by the system, never taken from
/// untrusted input.
pub fn resolve<'a>(root: &'a AnnotatedValue, path: &str) -> (r: Option<&'a AnnotatedValue>)
    requires
        !(resolve_model(root@, path@) is Fault),
    ensures
        match resolve_model(root@, path@) {
            Resolution::Found(m) => r matches Some(x) && node_model(*x) == m,
            Resolution::Missing => r is None,
            Resolution::Fault => false,
        },
{
    match resolve_checked(root, path) {
        Lookup::Found(x) => Some(x),
        Lookup::Missing => None,
        Lookup::Fault => vstd::pervasive::unreached(),
    }
}

/// Composition law: resolving the joined path `p.q` equals resolving `q`
/// against what `p` resolves to, whenever `p` is a plain dot-separated path
/// that resolves to a node.
pub proof fn lemma_resolve_compose(n: NodeModel, p: Seq<char>, q: Seq<char>)
    requires
        strict_path(p),
    ensures
        resolve_model(n, p) matches Resolution::Found(m) ==> resolve_model(
            n,
            p + seq!['.'] + q,
        ) == resolve_model(m, q),
    decreases p.len(),
{
    lemma_dot_pos(p);
    let c = p + seq!['.'] + q;
    let d = dot_pos(p);
    if resolve_model(n, p) is Found {
        let m = resolve_model(n, p)->Found_0;
        assert(d > 0);
        assert(p[0] != '.');
        assert(c.len() == p.len() + 1 + q.len());
        assert forall|j: int| 0 <= j < d implies c[j] != '.' by {
            assert(c[j] == p[j]);
        }
        if d < p.len() {
            assert(c[d] == p[d]);
            lemma_dot_pos_unique(c, d);
            let seg = p.subrange(0, d);
            assert(c.subrange(0, d) =~= seg);
            let rest_p = p.subrange(d + 1, p.len() as int);
            let rest_c = c.subrange(d + 1, c.len() as int);
            assert(rest_c =~= rest_p + seq!['.'] + q);
            match n.value {
                Some(ValueModel::Arr(items)) => {
                    let child = items[dec_val(seg) as int];
                    assert(resolve_model(n, p) == resolve_model(child, rest_p));
                    lemma_resolve_compose(child, rest_p, q);
                },
                Some(ValueModel::Obj(entries)) => {
                    match entry_lookup(entries, seg) {
                        Some(child) => {
                            assert(resolve_model(n, p) == resolve_model(child, rest_p));
                            lemma_resolve_compose(child, rest_p, q);
                        },
                        None => {
                            assert(false);
                        },
                    }
                },
                _ => {
                    assert(false);
                },
            }
        } else {
            assert(c[p.len() as int] == '.');
            lemma_dot_pos_unique(c, p.len() as int);
            assert(p.subrange(0, d) =~= p);
            assert(c.subrange(0, p.len() as int) =~= p);
            assert(c.subrange(p.len() + 1 as int, c.len() as int) =~= q);
            match n.value {
                Some(ValueModel::Arr(items)) => {
                    let child = items[dec_val(p) as int];
                    assert(resolve_model(n, p) == resolve_model(child, Seq::<char>::empty()));
                    assert(m == child);
                    assert(resolve_model(n, c) == resolve_model(child, q));
                },
                Some(ValueModel::Obj(entries)) => {
                    match entry_lookup(entries, p) {
                        Some(child) => {
                            assert(resolve_model(n, p) == resolve_model(
                                child,
                                Seq::<char>::empty(),
                            ));
                            assert(m == child);
                            assert(resolve_model(n, c) == resolve_model(child, q));
                        },
                        None => {
                            assert(false);
                        },
                    }
                },
                _ => {
                    assert(false);
                },
            }
            assert(resolve_model(n, c) == resolve_model(m, q));
        }
    }
}

/// The empty path and the literal path `"."` resolve to the root, for every
/// root.
pub proof fn lemma_resolve_root(n: NodeModel)
    ensures
        resolve_model(n, ""@) == Resolution::Found(n),
        resolve_model(n, "."@) == Resolution::Found(n),
{
    reveal_strlit("");
    reveal_strlit(".");
}

} // verus!
