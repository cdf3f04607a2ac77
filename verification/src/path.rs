//! Dot-delimited path syntax: splitting a path into its first segment and
//! remainder, parsing array-index segments, and extracting the final key.
//!
//! Paths are machine-generated addresses. A malformed path (an empty interior
//! segment, or a non-numeric segment used as an array index) is a programmer
//! fault, not a recoverable data error; the resolver reports it as a distinct
//! `Fault` outcome.

use vstd::prelude::*;

verus! {

/// Position of the first `'.'` in `s`, or `s.len()` if there is none.
pub open spec fn dot_pos(s: Seq<char>) -> int
    decreases s.len(),
{
    if s.len() == 0 {
        0
    } else if s[0] == '.' {
        0
    } else {
        1 + dot_pos(s.subrange(1, s.len() as int))
    }
}

/// `dot_pos` is the first position holding a dot.
pub proof fn lemma_dot_pos(s: Seq<char>)
    ensures
        0 <= dot_pos(s) <= s.len(),
        forall|j: int| 0 <= j < dot_pos(s) ==> s[j] != '.',
        dot_pos(s) < s.len() ==> s[dot_pos(s)] == '.',
    decreases s.len(),
{
    if s.len() > 0 && s[0] != '.' {
        let t = s.subrange(1, s.len() as int);
        lemma_dot_pos(t);
        assert forall|j: int| 0 <= j < dot_pos(s) implies s[j] != '.' by {
            if j > 0 {
                assert(s[j] == t[j - 1]);
            }
        }
    }
}

/// Any position that is preceded only by non-dots and holds a dot (or is the
/// end of the string, with no dot anywhere) is `dot_pos`.
pub proof fn lemma_dot_pos_unique(s: Seq<char>, i: int)
    requires
        0 <= i <= s.len(),
        forall|j: int| 0 <= j < i ==> s[j] != '.',
        i < s.len() ==> s[i] == '.',
    ensures
        dot_pos(s) == i,
{
    lemma_dot_pos(s);
    let d = dot_pos(s);
    if d < i {
        assert(s[d] == '.');
        assert(false);
    }
    if d > i {
        assert(i < s.len());
        assert(s[i] != '.');
        assert(false);
    }
}

/// Position of the first `'.'` in `s`, or the length of `s` if there is none.
pub fn find_dot(s: &str) -> (r: usize)
    ensures
        r as int == dot_pos(s@),
{
    let n = s.unicode_len();
    let mut i: usize = 0;
    while i < n
        invariant
            0 <= i <= n,
            n == s@.len(),
            forall|j: int| 0 <= j < i ==> s@[j] != '.',
        decreases n - i,
    {
        if s.get_char(i) == '.' {
            proof {
                lemma_dot_pos_unique(s@, i as int);
            }
            return i;
        }
        i = i + 1;
    }
    proof {
        lemma_dot_pos_unique(s@, n as int);
    }
    n
}

/// A decimal digit.
pub open spec fn is_digit(c: char) -> bool {
    ('0' as u32) <= (c as u32) && (c as u32) <= ('9' as u32)
}

/// The numeric value of a digit.
pub open spec fn digit_val(c: char) -> nat {
    ((c as int) - ('0' as int)) as nat
}

/// Every character of `s` is a decimal digit.
pub open spec fn all_digits(s: Seq<char>) -> bool {
    forall|i: int| 0 <= i < s.len() ==> is_digit(s[i])
}

/// The value of `s` read as a decimal numeral.
pub open spec fn dec_val(s: Seq<char>) -> nat
    decreases s.len(),
{
    if s.len() == 0 {
        0
    } else {
        dec_val(s.subrange(0, s.len() - 1)) * 10 + digit_val(s[s.len() - 1])
    }
}

/// A segment that names an array index: a non-empty run of digits whose value
/// is machine-representable.
pub open spec fn is_index(s: Seq<char>) -> bool {
    s.len() > 0 && all_digits(s) && dec_val(s) <= usize::MAX as nat
}

/// Reading more digits never shrinks the numeral's value.
pub proof fn lemma_dec_val_prefix_le(s: Seq<char>, j: int, k: int)
    requires
        0 <= j <= k <= s.len(),
    ensures
        dec_val(s.subrange(0, j)) <= dec_val(s.subrange(0, k)),
    decreases k - j,
{
    if j < k {
        lemma_dec_val_prefix_le(s, j, k - 1);
        let p = s.subrange(0, k);
        assert(p.subrange(0, k - 1) =~= s.subrange(0, k - 1));
        assert(dec_val(p) == dec_val(s.subrange(0, k - 1)) * 10 + digit_val(s[k - 1]));
        assert(dec_val(s.subrange(0, k - 1)) * 10 >= dec_val(s.subrange(0, k - 1)))
            by (nonlinear_arith);
    }
}

/// Parses a segment as a non-negative array index. Returns `None` exactly when
/// the segment is not a representable decimal numeral.
pub fn parse_index(s: &str) -> (r: Option<usize>)
    ensures
        r is Some <==> is_index(s@),
        r matches Some(v) ==> v as nat == dec_val(s@),
{
    let n = s.unicode_len();
    if n == 0 {
        return None;
    }
    let mut acc: usize = 0;
    let mut i: usize = 0;
    while i < n
        invariant
            0 <= i <= n,
            n == s@.len(),
            all_digits(s@.subrange(0, i as int)),
            acc as nat == dec_val(s@.subrange(0, i as int)),
        decreases n - i,
    {
        let c = s.get_char(i);
        let cv = c as u32;
        if cv < ('0' as u32) || cv > ('9' as u32) {
            assert(!is_digit(s@[i as int]));
            return None;
        }
        let d = (cv - ('0' as u32)) as usize;
        let stretched = match acc.checked_mul(10) {
            Some(m) => m.checked_add(d),
            None => None,
        };
        proof {
            assert(s@.subrange(0, i + 1).subrange(0, i as int) =~= s@.subrange(0, i as int));
            assert(dec_val(s@.subrange(0, i + 1)) == acc as nat * 10 + digit_val(s@[i as int]));
        }
        match stretched {
            Some(next) => {
                acc = next;
            },
            None => {
                proof {
                    lemma_dec_val_prefix_le(s@, i + 1, n as int);
                    assert(s@.subrange(0, n as int) =~= s@);
                }
                return None;
            },
        }
        i = i + 1;
    }
    proof {
        assert(s@.subrange(0, n as int) =~= s@);
    }
    Some(acc)
}

/// Start of the final key of a path: the position just after the last `'.'`,
/// or zero if the path holds no dot.
pub open spec fn key_start(s: Seq<char>) -> int
    decreases s.len(),
{
    if s.len() == 0 {
        0
    } else if s[s.len() - 1] == '.' {
        s.len() as int
    } else {
        key_start(s.subrange(0, s.len() - 1))
    }
}

/// The text after the last `'.'` of a path, or the whole path if it has none.
pub open spec fn key_of(s: Seq<char>) -> Seq<char> {
    s.subrange(key_start(s), s.len() as int)
}

/// `key_start` points just past the last dot.
pub proof fn lemma_key_start(s: Seq<char>)
    ensures
        0 <= key_start(s) <= s.len(),
        key_start(s) > 0 ==> s[key_start(s) - 1] == '.',
        forall|j: int| key_start(s) <= j < s.len() ==> s[j] != '.',
    decreases s.len(),
{
    if s.len() > 0 && s[s.len() - 1] != '.' {
        let t = s.subrange(0, s.len() - 1);
        lemma_key_start(t);
        assert forall|j: int| key_start(s) <= j < s.len() implies s[j] != '.' by {
            if j < s.len() - 1 {
                assert(s[j] == t[j]);
            }
        }
    }
}

/// Any position just past a dot, with no dot after it (or zero, with no dot at
/// all), is `key_start`.
pub proof fn lemma_key_start_unique(s: Seq<char>, i: int)
    requires
        0 <= i <= s.len(),
        i > 0 ==> s[i - 1] == '.',
        forall|j: int| i <= j < s.len() ==> s[j] != '.',
    ensures
        key_start(s) == i,
{
    lemma_key_start(s);
    let k = key_start(s);
    if k < i {
        assert(s[i - 1] == '.');
        assert(false);
    }
    if k > i {
        assert(s[k - 1] != '.');
        assert(false);
    }
}

/// The final key of a path, as fresh text.
pub fn last_key(s: &str) -> (r: String)
    ensures
        r@ == key_of(s@),
{
    let n = s.unicode_len();
    let mut i: usize = n;
    while i > 0
        invariant
            0 <= i <= n,
            n == s@.len(),
            forall|j: int| i <= j < n ==> s@[j] != '.',
        decreases i,
    {
        if s.get_char(i - 1) == '.' {
            proof {
                lemma_key_start_unique(s@, i as int);
            }
            let tail = s.substring_char(i, n);
            return tail.to_owned();
        }
        i = i - 1;
    }
    proof {
        lemma_key_start_unique(s@, 0);
    }
    let tail = s.substring_char(0, n);
    tail.to_owned()
}

/// A path made of one or more non-empty dot-separated segments, with no
/// leading, trailing or doubled dot.
pub open spec fn strict_path(p: Seq<char>) -> bool
    decreases p.len(),
    via strict_path_decreases
{
    let d = dot_pos(p);
    d > 0 && (d >= p.len() || strict_path(p.subrange(d + 1, p.len() as int)))
}

#[via_fn]
proof fn strict_path_decreases(p: Seq<char>) {
    lemma_dot_pos(p);
}

/// Character-wise string equality.
pub fn str_eq(a: &str, b: &str) -> (r: bool)
    ensures
        r == (a@ == b@),
{
    let na = a.unicode_len();
    let nb = b.unicode_len();
    if na != nb {
        return false;
    }
    let mut i: usize = 0;
    while i < na
        invariant
            0 <= i <= na,
            na == a@.len(),
            na == b@.len(),
            forall|j: int| 0 <= j < i ==> a@[j] == b@[j],
        decreases na - i,
    {
        if a.get_char(i) != b.get_char(i) {
            return false;
        }
        i = i + 1;
    }
    proof {
        assert(a@ =~= b@);
    }
    true
}

} // verus!
