//! The order in which filenames are sorted: byte by byte, a shorter name
//! before any longer one that starts with it.

use vstd::prelude::*;

verus! {

/// The first place at or after `i` where `a` and `b` differ, or where one
/// of them ends.
pub open spec fn first_diff_from(a: Seq<u8>, b: Seq<u8>, i: nat) -> nat
    decreases a.len() - i,
{
    if i >= a.len() || i >= b.len() || a[i as int] != b[i as int] {
        i
    } else {
        first_diff_from(a, b, i + 1)
    }
}

/// `d` is the first place where `a` and `b` differ or one of them ends.
pub open spec fn is_first_diff(a: Seq<u8>, b: Seq<u8>, d: int) -> bool {
    &&& 0 <= d <= a.len()
    &&& d <= b.len()
    &&& forall|j: int| 0 <= j < d ==> a[j] == b[j]
    &&& (d == a.len() || d == b.len() || a[d] != b[d])
}

/// `a` comes strictly before `b`: at the first place where they differ, `a`
/// has ended and `b` has not, or `a` has the smaller byte.
pub open spec fn lex_lt(a: Seq<u8>, b: Seq<u8>) -> bool {
    let d = first_diff_from(a, b, 0) as int;
    d < b.len() && (d == a.len() || a[d] < b[d])
}

proof fn lemma_first_diff_from(a: Seq<u8>, b: Seq<u8>, i: nat)
    requires
        i <= a.len(),
        i <= b.len(),
    ensures
        i <= first_diff_from(a, b, i) <= a.len(),
        first_diff_from(a, b, i) <= b.len(),
        forall|j: int| i <= j < first_diff_from(a, b, i) ==> a[j] == b[j],
        ({
            let d = first_diff_from(a, b, i) as int;
            d == a.len() || d == b.len() || a[d] != b[d]
        }),
    decreases a.len() - i,
{
    if i >= a.len() || i >= b.len() || a[i as int] != b[i as int] {
    } else {
        lemma_first_diff_from(a, b, i + 1);
    }
}

/// The place that `lex_lt` looks at is the first difference.
proof fn lemma_first_diff(a: Seq<u8>, b: Seq<u8>)
    ensures
        is_first_diff(a, b, first_diff_from(a, b, 0) as int),
{
    lemma_first_diff_from(a, b, 0);
}

/// There is only one first difference.
proof fn lemma_first_diff_unique(a: Seq<u8>, b: Seq<u8>, d: int)
    requires
        is_first_diff(a, b, d),
    ensures
        first_diff_from(a, b, 0) == d,
{
    lemma_first_diff(a, b);
    let e = first_diff_from(a, b, 0) as int;
    if e < d {
        assert(a[e] == b[e]);
    }
    if d < e {
        assert(a[d] == b[d]);
    }
}

/// Of two names, one is not before the other; and a name is not before
/// itself.
pub proof fn lemma_lex_lt_asymmetric(a: Seq<u8>, b: Seq<u8>)
    requires
        lex_lt(a, b),
    ensures
        !lex_lt(b, a),
        a != b,
{
    lemma_first_diff(a, b);
    let d = first_diff_from(a, b, 0) as int;
    assert(is_first_diff(b, a, d));
    lemma_first_diff_unique(b, a, d);
}

/// What is before a name is before every name that does not come before
/// that one.
pub proof fn lemma_lex_lt_then_not_after(x: Seq<u8>, p: Seq<u8>, q: Seq<u8>)
    requires
        lex_lt(x, p),
        !lex_lt(q, p),
    ensures
        lex_lt(x, q),
{
    lemma_first_diff(x, p);
    lemma_first_diff(q, p);
    let d1 = first_diff_from(x, p, 0) as int;
    let d2 = first_diff_from(q, p, 0) as int;
    if d1 < d2 {
        assert(is_first_diff(x, q, d1)) by {
            assert(q[d1] == p[d1]);
        }
        lemma_first_diff_unique(x, q, d1);
    } else if d2 < d1 {
        assert(is_first_diff(x, q, d2)) by {
            assert(x[d2] == p[d2]);
        }
        lemma_first_diff_unique(x, q, d2);
    } else {
        assert(is_first_diff(x, q, d1));
        lemma_first_diff_unique(x, q, d1);
    }
}

/// Tells whether the bytes `a` come strictly before the bytes `b`.
pub fn bytes_before(a: &[u8], b: &[u8]) -> (r: bool)
    ensures
        r == lex_lt(a@, b@),
{
    let mut i: usize = 0;
    while i < a.len() && i < b.len() && a[i] == b[i]
        invariant
            i <= a@.len(),
            i <= b@.len(),
            forall|j: int| 0 <= j < i ==> a@[j] == b@[j],
        decreases a@.len() - i,
    {
        i += 1;
    }
    proof {
        lemma_first_diff_unique(a@, b@, i as int);
    }
    i < b.len() && (i == a.len() || a[i] < b[i])
}

} // verus!
