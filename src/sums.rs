use vstd::prelude::*;

verus! {

/// `f(0) + f(1) + ... + f(n - 1)`.
pub open spec fn sum_to(f: spec_fn(int) -> int, n: int) -> int
    decreases n,
{
    if n <= 0 {
        0
    } else {
        sum_to(f, n - 1) + f(n - 1)
    }
}

/// `f(l[0]) + f(l[1]) + ...` over the entries of `l`.
pub open spec fn sum_over(l: Seq<usize>, f: spec_fn(int) -> int) -> int
    decreases l.len(),
{
    if l.len() == 0 {
        0
    } else {
        sum_over(l.drop_last(), f) + f(l.last() as int)
    }
}

/// Entries strictly increasing and below `n`.
pub open spec fn increasing_below(l: Seq<usize>, n: int) -> bool {
    &&& forall|i: int, j: int| 0 <= i < j < l.len() ==> l[i] < l[j]
    &&& forall|i: int| 0 <= i < l.len() ==> l[i] < n
}

pub proof fn lemma_sum_ext(f: spec_fn(int) -> int, g: spec_fn(int) -> int, n: int)
    requires
        forall|i: int| 0 <= i < n ==> #[trigger] f(i) == g(i),
    ensures
        sum_to(f, n) == sum_to(g, n),
    decreases n,
{
    if n > 0 {
        lemma_sum_ext(f, g, n - 1);
    }
}

pub proof fn lemma_sum_add(
    f: spec_fn(int) -> int,
    g: spec_fn(int) -> int,
    h: spec_fn(int) -> int,
    n: int,
)
    requires
        forall|i: int| 0 <= i < n ==> #[trigger] h(i) == f(i) + g(i),
    ensures
        sum_to(h, n) == sum_to(f, n) + sum_to(g, n),
    decreases n,
{
    if n > 0 {
        lemma_sum_add(f, g, h, n - 1);
    }
}

/// Changing one term changes the sum by the difference.
pub proof fn lemma_sum_point(f: spec_fn(int) -> int, g: spec_fn(int) -> int, n: int, k: int)
    requires
        0 <= k < n,
        forall|i: int| 0 <= i < n && i != k ==> #[trigger] f(i) == g(i),
    ensures
        sum_to(g, n) == sum_to(f, n) - f(k) + g(k),
    decreases n,
{
    if n - 1 == k {
        lemma_sum_ext(f, g, n - 1);
    } else {
        lemma_sum_point(f, g, n - 1, k);
    }
}

/// Changing two terms changes the sum by both differences.
pub proof fn lemma_sum_two_points(
    f: spec_fn(int) -> int,
    g: spec_fn(int) -> int,
    n: int,
    k0: int,
    k1: int,
)
    requires
        0 <= k0 < n,
        0 <= k1 < n,
        k0 != k1,
        forall|i: int| 0 <= i < n && i != k0 && i != k1 ==> #[trigger] f(i) == g(i),
    ensures
        sum_to(g, n) == sum_to(f, n) - f(k0) - f(k1) + g(k0) + g(k1),
{
    let m = |i: int|
        if i == k0 {
            g(i)
        } else {
            f(i)
        };
    lemma_sum_point(f, m, n, k0);
    lemma_sum_point(m, g, n, k1);
}

pub proof fn lemma_sum_bound(f: spec_fn(int) -> int, n: int, b: int)
    requires
        0 <= n,
        0 <= b,
        forall|i: int| 0 <= i < n ==> -b <= #[trigger] f(i) <= b,
    ensures
        -(n * b) <= sum_to(f, n) <= n * b,
    decreases n,
{
    if n > 0 {
        lemma_sum_bound(f, n - 1, b);
        assert(n * b == (n - 1) * b + b) by (nonlinear_arith);
    }
}

pub proof fn lemma_sum_nonneg_bound(f: spec_fn(int) -> int, n: int, b: int)
    requires
        0 <= n,
        0 <= b,
        forall|i: int| 0 <= i < n ==> 0 <= #[trigger] f(i) <= b,
    ensures
        0 <= sum_to(f, n) <= n * b,
    decreases n,
{
    if n > 0 {
        lemma_sum_nonneg_bound(f, n - 1, b);
        assert(n * b == (n - 1) * b + b) by (nonlinear_arith);
    }
}

/// A sum of terms that are not negative is at least each of them.
pub proof fn lemma_sum_ge_term(f: spec_fn(int) -> int, n: int, k: int)
    requires
        0 <= k < n,
        forall|i: int| 0 <= i < n ==> 0 <= #[trigger] f(i),
    ensures
        sum_to(f, n) >= f(k),
    decreases n,
{
    if k < n - 1 {
        lemma_sum_ge_term(f, n - 1, k);
    } else {
        lemma_sum_nonneg(f, n - 1);
    }
}

/// A sum of terms that are not negative is not negative.
pub proof fn lemma_sum_nonneg(f: spec_fn(int) -> int, n: int)
    requires
        forall|i: int| 0 <= i < n ==> 0 <= #[trigger] f(i),
    ensures
        sum_to(f, n) >= 0,
    decreases n,
{
    if n > 0 {
        lemma_sum_nonneg(f, n - 1);
    }
}

/// Index `i` appears in `l`.
pub open spec fn listed(l: Seq<usize>, i: int) -> bool {
    exists|k: int| 0 <= k < l.len() && l[k] as int == i
}

/// A sum over a sorted list of indices equals the sum over all indices
/// below `n`, where every index left out of the list has a zero term.
pub proof fn lemma_sum_over_sorted(l: Seq<usize>, f: spec_fn(int) -> int, n: int)
    requires
        0 <= n,
        increasing_below(l, n),
        forall|i: int| 0 <= i < n && #[trigger] f(i) != 0 ==> listed(l, i),
    ensures
        sum_over(l, f) == sum_to(f, n),
    decreases n,
{
    if n > 0 {
        if l.len() > 0 && l.last() as int == n - 1 {
            let d = l.drop_last();
            assert forall|i: int| 0 <= i < n - 1 && #[trigger] f(i) != 0 implies listed(d, i) by {
                let k = choose|k: int| 0 <= k < l.len() && l[k] as int == i;
                assert(k != l.len() - 1);
                assert(d[k] == l[k]);
            }
            assert forall|i: int| 0 <= i < d.len() implies d[i] < n - 1 by {
                assert(l[i] < l[l.len() - 1]);
            }
            lemma_sum_over_sorted(d, f, n - 1);
        } else {
            assert forall|i: int| 0 <= i < l.len() implies l[i] < n - 1 by {
                if l[i] as int == n - 1 && i != l.len() - 1 {
                    assert(l[i] < l[l.len() - 1]);
                }
            }
            if f(n - 1) != 0 {
                let k = choose|k: int| 0 <= k < l.len() && l[k] as int == n - 1;
                assert(false);
            }
            lemma_sum_over_sorted(l, f, n - 1);
        }
    }
}

/// A strictly increasing list of indices below `n` has at most `n` entries.
pub proof fn lemma_increasing_len(l: Seq<usize>, n: int)
    requires
        0 <= n,
        increasing_below(l, n),
    ensures
        l.len() <= n,
{
    assert forall|i: int| 0 <= i < l.len() implies l[i] >= i by {
        lemma_increasing_at(l, n, i);
    }
    if l.len() > n {
        assert(l[n] >= n);
    }
}

proof fn lemma_increasing_at(l: Seq<usize>, n: int, i: int)
    requires
        increasing_below(l, n),
        0 <= i < l.len(),
    ensures
        l[i] >= i,
    decreases i,
{
    if i > 0 {
        lemma_increasing_at(l, n, i - 1);
        assert(l[i - 1] < l[i]);
    }
}

} // verus!
