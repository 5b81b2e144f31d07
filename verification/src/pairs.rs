//! The pair pass: the canonical enumeration of every unordered pair of
//! distinct body indices, visited exactly once in lexicographic order.
//! Both the gravity pass and the collision pass fold over exactly this
//! sequence.

use vstd::prelude::*;

verus! {

/// The pairs `(i, j)` for `j` in `i+1 .. n`, in increasing `j`.
pub open spec fn row(i: int, n: int) -> Seq<(int, int)> {
    Seq::new(if n - i - 1 >= 0 { (n - i - 1) as nat } else { 0 }, |t: int| (i, i + 1 + t))
}

/// The rows for first components `0 .. i`, concatenated.
pub open spec fn rows_upto(n: int, i: int) -> Seq<(int, int)>
    decreases i,
{
    if i <= 0 {
        Seq::empty()
    } else {
        rows_upto(n, i - 1) + row(i - 1, n)
    }
}

/// Every unordered pair of distinct indices below `n`, each exactly
/// once, in lexicographic order.
pub open spec fn all_pairs(n: int) -> Seq<(int, int)> {
    rows_upto(n, n)
}

/// Length of a partial enumeration: the first `i` rows hold
/// `i*(2n - 1 - i) / 2` pairs.
proof fn lemma_rows_upto_len(n: int, i: int)
    requires
        0 <= i <= n,
    ensures
        2 * rows_upto(n, i).len() == i * (2 * n - 1 - i),
    decreases i,
{
    if i > 0 {
        lemma_rows_upto_len(n, i - 1);
        assert(rows_upto(n, i) == rows_upto(n, i - 1) + row(i - 1, n));
        assert(row(i - 1, n).len() == n - i);
        assert(rows_upto(n, i).len() == rows_upto(n, i - 1).len() + (n - i));
        assert((i - 1) * (2 * n - 1 - (i - 1)) + 2 * (n - i) == i * (2 * n - 1 - i))
            by (nonlinear_arith);
    } else {
        assert(rows_upto(n, 0) == Seq::<(int, int)>::empty());
    }
}

/// Pair uniqueness, the count: a pass over `n` bodies touches exactly
/// `n*(n-1)/2` unordered pairs.
pub proof fn lemma_all_pairs_count(n: int)
    requires
        0 <= n,
    ensures
        2 * all_pairs(n).len() == n * (n - 1),
{
    lemma_rows_upto_len(n, n);
}

/// Every enumerated pair `(a, b)` in the first `i` rows has
/// `0 <= a < i` and `a < b < n`: no body is paired with itself.
proof fn lemma_rows_upto_elems(n: int, i: int)
    requires
        0 <= i <= n,
    ensures
        forall|k: int| 0 <= k < rows_upto(n, i).len()
            ==> 0 <= (#[trigger] rows_upto(n, i)[k]).0 < i
                && rows_upto(n, i)[k].0 < rows_upto(n, i)[k].1 < n,
    decreases i,
{
    if i > 0 {
        lemma_rows_upto_elems(n, i - 1);
        let s = rows_upto(n, i);
        let s0 = rows_upto(n, i - 1);
        let r = row(i - 1, n);
        assert forall|k: int| 0 <= k < s.len()
            implies 0 <= (#[trigger] s[k]).0 < i && s[k].0 < s[k].1 < n by {
            if k < s0.len() {
                assert(s[k] == s0[k]);
            } else {
                assert(s[k] == r[k - s0.len()]);
            }
        }
    }
}

/// Pair uniqueness, the bound: every pair of `all_pairs(n)` is a pair
/// of distinct indices below `n`, ordered low-high.
pub proof fn lemma_all_pairs_in_range(n: int)
    requires
        0 <= n,
    ensures
        forall|k: int| 0 <= k < all_pairs(n).len()
            ==> 0 <= (#[trigger] all_pairs(n)[k]).0 < all_pairs(n)[k].1 < n,
{
    lemma_rows_upto_elems(n, n);
    assert forall|k: int| 0 <= k < all_pairs(n).len()
        implies 0 <= (#[trigger] all_pairs(n)[k]).0 < all_pairs(n)[k].1 < n by {
        assert(all_pairs(n)[k] == rows_upto(n, n)[k]);
    }
}

/// The partial enumeration is strictly increasing in lexicographic
/// order, so no pair ever appears twice.
proof fn lemma_rows_upto_ordered(n: int, i: int)
    requires
        0 <= i <= n,
    ensures
        forall|k1: int, k2: int|
            0 <= k1 < k2 < rows_upto(n, i).len()
                ==> ((#[trigger] rows_upto(n, i)[k1]).0 < (#[trigger] rows_upto(n, i)[k2]).0
                    || (rows_upto(n, i)[k1].0 == rows_upto(n, i)[k2].0
                        && rows_upto(n, i)[k1].1 < rows_upto(n, i)[k2].1)),
    decreases i,
{
    if i > 0 {
        lemma_rows_upto_ordered(n, i - 1);
        lemma_rows_upto_elems(n, i - 1);
        let s = rows_upto(n, i);
        let s0 = rows_upto(n, i - 1);
        let r = row(i - 1, n);
        assert forall|k1: int, k2: int|
            0 <= k1 < k2 < s.len()
                implies ((#[trigger] s[k1]).0 < (#[trigger] s[k2]).0
                    || (s[k1].0 == s[k2].0 && s[k1].1 < s[k2].1)) by {
            if k2 < s0.len() {
                assert(s[k1] == s0[k1]);
                assert(s[k2] == s0[k2]);
            } else if k1 < s0.len() {
                assert(s[k1] == s0[k1]);
                assert(s[k2] == r[k2 - s0.len()]);
            } else {
                assert(s[k1] == r[k1 - s0.len()]);
                assert(s[k2] == r[k2 - s0.len()]);
            }
        }
    }
}

/// Pair uniqueness, no repetition: distinct positions of the
/// enumeration hold distinct pairs.
pub proof fn lemma_all_pairs_distinct(n: int)
    requires
        0 <= n,
    ensures
        forall|k1: int, k2: int|
            0 <= k1 < k2 < all_pairs(n).len()
                ==> (#[trigger] all_pairs(n)[k1]) != (#[trigger] all_pairs(n)[k2]),
{
    lemma_rows_upto_ordered(n, n);
    assert forall|k1: int, k2: int|
        0 <= k1 < k2 < all_pairs(n).len()
            implies (#[trigger] all_pairs(n)[k1]) != (#[trigger] all_pairs(n)[k2]) by {
        assert(rows_upto(n, n)[k1].0 < rows_upto(n, n)[k2].0
            || (rows_upto(n, n)[k1].0 == rows_upto(n, n)[k2].0
                && rows_upto(n, n)[k1].1 < rows_upto(n, n)[k2].1));
    }
}

/// Every ordered pair `a < b` of the first `i` first-components stands
/// somewhere in the partial enumeration.
proof fn lemma_rows_upto_complete(n: int, i: int, a: int, b: int)
    requires
        0 <= i <= n,
        0 <= a < i,
        a < b < n,
    ensures
        exists|k: int| 0 <= k < rows_upto(n, i).len()
            && (#[trigger] rows_upto(n, i)[k]) == (a, b),
    decreases i,
{
    let s = rows_upto(n, i);
    let s0 = rows_upto(n, i - 1);
    let r = row(i - 1, n);
    if a == i - 1 {
        let k = s0.len() + b - a - 1;
        assert(r[b - a - 1] == (a, b));
        assert(s[k as int] == (a, b));
    } else {
        lemma_rows_upto_complete(n, i - 1, a, b);
        let k0 = choose|k: int| 0 <= k < s0.len() && (#[trigger] s0[k]) == (a, b);
        assert(s[k0] == (a, b));
    }
}

/// Pair uniqueness, coverage: every unordered pair of distinct indices
/// below `n` is visited.
pub proof fn lemma_all_pairs_complete(n: int, a: int, b: int)
    requires
        0 <= a < b < n,
    ensures
        exists|k: int| 0 <= k < all_pairs(n).len()
            && (#[trigger] all_pairs(n)[k]) == (a, b),
{
    lemma_rows_upto_complete(n, n, a, b);
    let k0 = choose|k: int| 0 <= k < rows_upto(n, n).len()
        && (#[trigger] rows_upto(n, n)[k]) == (a, b);
    assert(all_pairs(n)[k0] == (a, b));
}

} // verus!
