//! The library's general guarantees, stated and proved once over the model.

use vstd::prelude::*;

use crate::model::{cov_num, dev_num, dev_nums, dev_prods, shift, sum, lemma_sum_nonneg};
use crate::stats::{is_cov_frac, Frac};

verus! {

/// Sum of an affine image of a sequence: `sum_i (a * s[i] - b)` equals
/// `a * sum(s) - len * b`.
proof fn lemma_sum_affine(s: Seq<int>, a: int, b: int)
    ensures
        sum(Seq::new(s.len(), |i: int| a * s[i] - b)) == a * sum(s) - s.len() * b,
    decreases s.len(),
{
    let t = Seq::new(s.len(), |i: int| a * s[i] - b);
    if s.len() == 0 {
        assert(t.len() == 0);
    } else {
        let sp = s.drop_last();
        lemma_sum_affine(sp, a, b);
        let tp = Seq::new(sp.len(), |i: int| a * sp[i] - b);
        assert(t.drop_last() =~= tp);
        assert(t.last() == a * s.last() - b);
        assert(sum(s) == sum(sp) + s.last());
        assert(a * sum(sp) - (s.len() - 1) * b + (a * s.last() - b)
            == a * (sum(sp) + s.last()) - s.len() * b) by (nonlinear_arith);
        assert(a * sum(s) == a * (sum(sp) + s.last()));
    }
}

/// Sum of a sequence shifted by a constant: `sum(shift(s, c))` equals
/// `sum(s) + len * c`.
proof fn lemma_sum_shift(s: Seq<int>, c: int)
    ensures
        sum(shift(s, c)) == sum(s) + s.len() * c,
    decreases s.len(),
{
    if s.len() == 0 {
        assert(shift(s, c).len() == 0);
    } else {
        let sp = s.drop_last();
        lemma_sum_shift(sp, c);
        assert(shift(s, c).drop_last() =~= shift(sp, c));
        assert(shift(s, c).last() == s.last() + c);
        assert(sum(shift(s, c)) == sum(shift(sp, c)) + (s.last() + c));
        assert((s.len() - 1) * c + c == s.len() * c) by (nonlinear_arith);
    }
}

/// Symmetry: the covariance of `x` and `y` does not depend on the order of
/// the two vectors.
pub proof fn lemma_covariance_symmetric(x: Seq<int>, y: Seq<int>)
    requires
        x.len() == y.len(),
    ensures
        cov_num(x, y) == cov_num(y, x),
{
    assert forall|k: int| 0 <= k < x.len() implies
        dev_prods(x, y)[k] == dev_prods(y, x)[k] by {
        let a: int = dev_num(x, k);
        let b: int = dev_num(y, k);
        assert(a * b == b * a) by (nonlinear_arith);
    }
    assert(dev_prods(x, y) =~= dev_prods(y, x));
}

/// Non-negativity of variance: the covariance of a vector with itself is a
/// sum of squares, so its numerator is never negative.
pub proof fn lemma_variance_nonneg(s: Seq<int>)
    ensures
        cov_num(s, s) >= 0,
{
    assert forall|k: int| 0 <= k < dev_prods(s, s).len() implies
        #[trigger] dev_prods(s, s)[k] >= 0 by {
        let a: int = dev_num(s, k);
        assert(a * a >= 0) by (nonlinear_arith);
        assert(dev_prods(s, s)[k] == a * a);
    }
    lemma_sum_nonneg(dev_prods(s, s));
}

/// The deviations of a vector sum to zero; their mean is therefore zero for
/// every vector, since deviations are taken relative to the vector's mean.
pub proof fn lemma_deviations_mean_zero(s: Seq<int>)
    ensures
        sum(dev_nums(s)) == 0,
{
    let n: int = s.len() as int;
    let b: int = sum(s);
    lemma_sum_affine(s, n, b);
    assert(dev_nums(s) =~= Seq::new(s.len(), |i: int| n * s[i] - b));
    assert(n * sum(s) == s.len() * b);
}

/// Diagonal consistency: a diagonal entry of the covariance matrix and an
/// independently computed variance of the same vector are the same
/// fraction, since both are pinned to the numerator `cov_num(s, s)` over
/// the denominator `n^3`.  With a single input vector the entry is the
/// whole 1x1 matrix, so that degenerate matrix holds exactly the vector's
/// variance.
pub proof fn lemma_diagonal_consistency(entry: Frac, variance: Frac, s: Seq<int>)
    requires
        is_cov_frac(entry, s, s),
        is_cov_frac(variance, s, s),
    ensures
        entry == variance,
{
    assert(entry =~= variance);
}

/// Additive shift invariance: adding one constant to every sample of the
/// first vector leaves the covariance of the two vectors unchanged.
pub proof fn lemma_covariance_shift_invariant(x: Seq<int>, y: Seq<int>, c: int)
    requires
        x.len() == y.len(),
    ensures
        cov_num(shift(x, c), y) == cov_num(x, y),
{
    let sx = shift(x, c);
    assert(sx.len() == x.len());
    lemma_sum_shift(x, c);
    assert forall|k: int| 0 <= k < x.len() implies
        dev_num(sx, k) == dev_num(x, k) by {
        let n: int = x.len() as int;
        assert(sx[k] == x[k] + c);
        assert(sum(sx) == sum(x) + n * c);
        assert(n * (x[k] + c) - (sum(x) + n * c) == n * x[k] - sum(x)) by (nonlinear_arith);
        assert(sx.len() * sx[k] == n * (x[k] + c));
    }
    assert forall|k: int| 0 <= k < x.len() implies
        dev_prods(sx, y)[k] == dev_prods(x, y)[k] by {
        assert(dev_num(sx, k) == dev_num(x, k));
    }
    assert(dev_prods(sx, y) =~= dev_prods(x, y));
}

} // verus!
