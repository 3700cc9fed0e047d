//! Mathematical model of the statistics.
//!
//! A sample vector of length `n` with integer entries has a mean `sum/n`,
//! deviations `s[i] - sum/n` and pairwise covariance
//! `(1/n) * sum_i (x[i] - mean(x)) * (y[i] - mean(y))`.  To keep every
//! quantity an integer, a deviation is scaled by `n` (`dev_num`) and a
//! covariance by `n^3` (`cov_num`); the executable layer pairs these
//! numerators with the matching denominators.

use vstd::prelude::*;

verus! {

/// Largest number of observations one sample vector may hold, so that every
/// intermediate numerator provably fits in an `i128`.
pub const MAX_LEN: usize = 65536;

/// Largest magnitude of a single observation, so that every intermediate
/// numerator provably fits in an `i128`.
pub const MAX_ABS: i64 = 2_000_000_000;

/// Bound on a scaled deviation: `2 * MAX_LEN * MAX_ABS`.
pub const DEV_BOUND: i128 = 262_144_000_000_000;

/// Bound on a product of two scaled deviations: `DEV_BOUND * DEV_BOUND`.
pub const PROD_BOUND: i128 = 68_719_476_736_000_000_000_000_000_000;

/// The samples of a vector as unbounded integers.
pub open spec fn ints(s: Seq<i64>) -> Seq<int> {
    s.map_values(|x: i64| x as int)
}

/// Sum of a sequence of integers.
pub open spec fn sum(s: Seq<int>) -> int
    decreases s.len(),
{
    if s.len() == 0 {
        0
    } else {
        sum(s.drop_last()) + s.last()
    }
}

/// The `i`-th deviation from the mean, scaled by the length `n`:
/// `n * s[i] - sum(s)`, that is `n * (s[i] - mean(s))`.
pub open spec fn dev_num(s: Seq<int>, i: int) -> int {
    s.len() * s[i] - sum(s)
}

/// All scaled deviations of `s`.
pub open spec fn dev_nums(s: Seq<int>) -> Seq<int> {
    Seq::new(s.len(), |i: int| dev_num(s, i))
}

/// Element-wise products of the scaled deviations of `x` and `y`.
pub open spec fn dev_prods(x: Seq<int>, y: Seq<int>) -> Seq<int> {
    Seq::new(x.len(), |i: int| dev_num(x, i) * dev_num(y, i))
}

/// The covariance of `x` and `y`, scaled by `n^3`: the exact covariance is
/// `cov_num(x, y) / n^3`, since each deviation carries a factor `n` and the
/// mean of the products divides by `n` once more.
pub open spec fn cov_num(x: Seq<int>, y: Seq<int>) -> int {
    sum(dev_prods(x, y))
}

/// The vector with one constant added to every sample.
pub open spec fn shift(s: Seq<int>, c: int) -> Seq<int> {
    s.map_values(|v: int| v + c)
}

/// Every element of `s` lies in `[-b, b]`.
pub open spec fn bounded(s: Seq<int>, b: int) -> bool {
    forall|i: int| 0 <= i < s.len() ==> -b <= #[trigger] s[i] <= b
}

/// A sample vector the executable layer accepts: short enough and with small
/// enough entries that all exact arithmetic fits in an `i128`.
pub open spec fn fits(s: Seq<i64>) -> bool {
    s.len() <= MAX_LEN && bounded(ints(s), MAX_ABS as int)
}

/// All vectors of the collection share the length of the first one.
pub open spec fn uniform_len(vs: Seq<Vec<i64>>) -> bool {
    forall|i: int| 0 <= i < vs.len() ==> #[trigger] vs[i]@.len() == vs[0]@.len()
}

/// Extending a prefix sum by one element.
pub proof fn lemma_sum_take_succ(s: Seq<int>, i: int)
    requires
        0 <= i < s.len(),
    ensures
        sum(s.take(i + 1)) == sum(s.take(i)) + s[i],
{
    let t = s.take(i + 1);
    assert(t.drop_last() =~= s.take(i));
    assert(t.last() == s[i]);
}

/// A sum of elements from `[-b, b]` lies in `[-len * b, len * b]`.
pub proof fn lemma_sum_bound(s: Seq<int>, b: int)
    requires
        b >= 0,
        bounded(s, b),
    ensures
        -(s.len() * b) <= sum(s) <= s.len() * b,
    decreases s.len(),
{
    if s.len() == 0 {
    } else {
        assert forall|i: int| 0 <= i < s.drop_last().len() implies
            -b <= #[trigger] s.drop_last()[i] <= b by {
            assert(s.drop_last()[i] == s[i]);
        }
        lemma_sum_bound(s.drop_last(), b);
        assert(-b <= s.last() <= b);
        assert((s.len() - 1) * b + b == s.len() * b) by (nonlinear_arith);
    }
}

/// A sum of non-negative elements is non-negative.
pub proof fn lemma_sum_nonneg(s: Seq<int>)
    requires
        forall|i: int| 0 <= i < s.len() ==> #[trigger] s[i] >= 0,
    ensures
        sum(s) >= 0,
    decreases s.len(),
{
    if s.len() == 0 {
    } else {
        assert forall|i: int| 0 <= i < s.drop_last().len() implies
            #[trigger] s.drop_last()[i] >= 0 by {
            assert(s.drop_last()[i] == s[i]);
        }
        lemma_sum_nonneg(s.drop_last());
        assert(s.last() >= 0);
    }
}

/// A prefix of a bounded sequence is bounded.
pub proof fn lemma_bounded_take(s: Seq<int>, b: int, i: int)
    requires
        bounded(s, b),
        0 <= i <= s.len(),
    ensures
        bounded(s.take(i), b),
{
    assert forall|k: int| 0 <= k < s.take(i).len() implies
        -b <= #[trigger] s.take(i)[k] <= b by {
        assert(s.take(i)[k] == s[k]);
    }
}

/// The sum of any prefix of a bounded sequence of machine length lies within
/// `MAX_LEN` times the element bound.
pub proof fn lemma_sum_prefix_bound(s: Seq<int>, b: int, i: int)
    requires
        b >= 0,
        bounded(s, b),
        s.len() <= MAX_LEN,
        0 <= i <= s.len(),
    ensures
        -(65536 * b) <= sum(s.take(i)) <= 65536 * b,
{
    lemma_bounded_take(s, b, i);
    lemma_sum_bound(s.take(i), b);
    assert(s.take(i).len() == i);
    assert(i * b <= 65536 * b && -(65536 * b) <= -(i * b)) by (nonlinear_arith)
        requires
            0 <= i <= 65536,
            b >= 0,
    ;
}

/// A scaled deviation of a vector within the machine bounds lies within
/// `DEV_BOUND`.
pub proof fn lemma_dev_num_bound(s: Seq<int>, i: int)
    requires
        0 <= i < s.len(),
        s.len() <= MAX_LEN,
        bounded(s, MAX_ABS as int),
    ensures
        -(DEV_BOUND as int) <= dev_num(s, i) <= DEV_BOUND as int,
{
    lemma_sum_bound(s, MAX_ABS as int);
    let n: int = s.len() as int;
    let v: int = s[i];
    let sm: int = sum(s);
    assert(-262_144_000_000_000 <= n * v - sm <= 262_144_000_000_000) by (nonlinear_arith)
        requires
            0 <= n <= 65536,
            -2_000_000_000 <= v <= 2_000_000_000,
            -(n * 2_000_000_000) <= sm <= n * 2_000_000_000,
    ;
}

/// Every product of scaled deviations of two vectors within the machine
/// bounds lies within `PROD_BOUND`.
pub proof fn lemma_dev_prods_bounded(x: Seq<int>, y: Seq<int>)
    requires
        x.len() == y.len(),
        x.len() <= MAX_LEN,
        bounded(x, MAX_ABS as int),
        bounded(y, MAX_ABS as int),
    ensures
        bounded(dev_prods(x, y), PROD_BOUND as int),
{
    assert forall|k: int| 0 <= k < dev_prods(x, y).len() implies
        -(PROD_BOUND as int) <= #[trigger] dev_prods(x, y)[k] <= PROD_BOUND as int by {
        lemma_dev_num_bound(x, k);
        lemma_dev_num_bound(y, k);
        let a: int = dev_num(x, k);
        let b: int = dev_num(y, k);
        assert(-68_719_476_736_000_000_000_000_000_000 <= a * b
            <= 68_719_476_736_000_000_000_000_000_000) by (nonlinear_arith)
            requires
                -262_144_000_000_000 <= a <= 262_144_000_000_000,
                -262_144_000_000_000 <= b <= 262_144_000_000_000,
        ;
        assert(dev_prods(x, y)[k] == a * b);
    }
}

} // verus!
