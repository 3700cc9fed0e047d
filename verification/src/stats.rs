//! Executable statistics: mean, deviations, variance, covariance and the
//! full covariance matrix, all over integer samples and exact fractions.
//!
//! Every vector handed in must satisfy [`fits`](crate::model::fits): at most
//! [`MAX_LEN`](crate::model::MAX_LEN) observations, each of magnitude at most
//! [`MAX_ABS`](crate::model::MAX_ABS).  Within those machine bounds every
//! computation here is exact; empty and mismatched inputs are rejected with
//! an explicit error before any arithmetic.

use vstd::prelude::*;

use crate::model::{
    cov_num, dev_num, dev_prods, fits, ints, sum, uniform_len, lemma_dev_num_bound,
    lemma_dev_prods_bounded, lemma_sum_prefix_bound, lemma_sum_take_succ, MAX_ABS, PROD_BOUND,
};

verus! {

/// An exact rational number `num / den`.  Every fraction this library
/// returns has a positive denominator; fractions are not reduced, so two
/// results are equal as numbers exactly when cross-multiplication agrees.
#[derive(Clone, Copy, Debug, PartialEq, Eq, Structural)]
#[verifier::ext_equal]
pub struct Frac {
    /// Numerator.
    pub num: i128,
    /// Denominator.
    pub den: i128,
}

/// Why a computation was rejected, before any arithmetic was done.
#[derive(Clone, Copy, Debug, PartialEq, Eq, Structural)]
pub enum CovError {
    /// A sample vector, or the collection of vectors, was empty: mean,
    /// variance and covariance are undefined without observations.
    EmptyInput,
    /// Two sample vectors did not share the same length, so their
    /// observations cannot be paired.
    LengthMismatch,
}

/// `f` is the exact covariance of `x` and `y`: the numerator scaled by
/// `n^3` over the denominator `n^3`, where `n` is the common length.
pub open spec fn is_cov_frac(f: Frac, x: Seq<int>, y: Seq<int>) -> bool {
    f.num == cov_num(x, y) && f.den == x.len() * x.len() * x.len()
}

/// Exact sum of the samples of one vector.
fn sum_samples(v: &Vec<i64>) -> (r: i128)
    requires
        fits(v@),
    ensures
        r == sum(ints(v@)),
{
    let ghost s = ints(v@);
    let n: usize = v.len();
    let mut acc: i128 = 0;
    let mut i: usize = 0;
    while i < n
        invariant
            n == v@.len(),
            fits(v@),
            s == ints(v@),
            0 <= i <= n,
            acc == sum(s.take(i as int)),
        decreases n - i,
    {
        proof {
            lemma_sum_prefix_bound(s, MAX_ABS as int, i as int);
            lemma_sum_take_succ(s, i as int);
            assert(s[i as int] == v@[i as int] as int);
        }
        acc = acc + (v[i] as i128);
        i = i + 1;
    }
    proof {
        assert(s.take(n as int) =~= s);
    }
    acc
}

/// Arithmetic mean of a sample vector, as the exact fraction `sum / n`.
/// An empty vector is rejected: its mean is undefined.
pub fn mean(v: &Vec<i64>) -> (r: Result<Frac, CovError>)
    requires
        fits(v@),
    ensures
        match r {
            Ok(f) => v@.len() > 0 && f.num == sum(ints(v@)) && f.den == v@.len(),
            Err(e) => v@.len() == 0 && e == CovError::EmptyInput,
        },
{
    if v.len() == 0 {
        return Err(CovError::EmptyInput);
    }
    let total: i128 = sum_samples(v);
    Ok(Frac { num: total, den: v.len() as i128 })
}

/// Deviation of every sample from the mean of its vector, as exact
/// fractions: element `i` is `v[i] - mean(v)`, carried as the numerator
/// `n * v[i] - sum` over the common denominator `n`.  An empty vector is
/// rejected: deviations are taken relative to a mean that would be
/// undefined.
pub fn deviations(v: &Vec<i64>) -> (r: Result<Vec<Frac>, CovError>)
    requires
        fits(v@),
    ensures
        match r {
            Ok(d) => {
                &&& v@.len() > 0
                &&& d@.len() == v@.len()
                &&& forall|i: int|
                    0 <= i < d@.len() ==> (#[trigger] d@[i]).num == dev_num(ints(v@), i)
                        && d@[i].den == v@.len()
            },
            Err(e) => v@.len() == 0 && e == CovError::EmptyInput,
        },
{
    if v.len() == 0 {
        return Err(CovError::EmptyInput);
    }
    let ghost s = ints(v@);
    let total: i128 = sum_samples(v);
    let n: usize = v.len();
    let mut d: Vec<Frac> = Vec::new();
    let mut i: usize = 0;
    while i < n
        invariant
            n == v@.len(),
            fits(v@),
            s == ints(v@),
            total == sum(s),
            0 <= i <= n,
            d@.len() == i,
            forall|k: int|
                0 <= k < i ==> (#[trigger] d@[k]).num == dev_num(s, k) && d@[k].den == n,
        decreases n - i,
    {
        let x: i64 = v[i];
        proof {
            assert(s[i as int] == x as int);
            assert(-131_072_000_000_000 <= (n as int) * (x as int) <= 131_072_000_000_000)
                by (nonlinear_arith)
                requires
                    0 <= n <= 65536,
                    -2_000_000_000 <= x as int <= 2_000_000_000,
            ;
            lemma_sum_prefix_bound(s, MAX_ABS as int, s.len() as int);
            assert(s.take(s.len() as int) =~= s);
        }
        let dnum: i128 = (n as i128) * (x as i128) - total;
        d.push(Frac { num: dnum, den: n as i128 });
        i = i + 1;
    }
    Ok(d)
}

/// Population variance of a sample vector: the mean of the squared
/// deviations, as the exact fraction `cov_num(s, s) / n^3`.  The numerator
/// is a sum of squares and therefore never negative.  An empty vector is
/// rejected.
pub fn variance(v: &Vec<i64>) -> (r: Result<Frac, CovError>)
    requires
        fits(v@),
    ensures
        match r {
            Ok(f) => {
                &&& v@.len() > 0
                &&& is_cov_frac(f, ints(v@), ints(v@))
                &&& f.num >= 0
                &&& f.den > 0
            },
            Err(e) => v@.len() == 0 && e == CovError::EmptyInput,
        },
{
    let d: Vec<Frac> = match deviations(v) {
        Ok(d) => d,
        Err(e) => {
            return Err(e);
        },
    };
    let ghost s = ints(v@);
    let ghost p = dev_prods(s, s);
    let n: usize = v.len();
    let mut acc: i128 = 0;
    let mut i: usize = 0;
    while i < n
        invariant
            n == v@.len(),
            fits(v@),
            s == ints(v@),
            p == dev_prods(s, s),
            d@.len() == n,
            forall|k: int| 0 <= k < n ==> (#[trigger] d@[k]).num == dev_num(s, k),
            0 <= i <= n,
            acc == sum(p.take(i as int)),
            acc >= 0,
        decreases n - i,
    {
        proof {
            lemma_dev_prods_bounded(s, s);
            lemma_sum_prefix_bound(p, PROD_BOUND as int, i as int);
            lemma_dev_num_bound(s, i as int);
            let a: int = dev_num(s, i as int);
            assert(0 <= a * a <= 68_719_476_736_000_000_000_000_000_000) by (nonlinear_arith)
                requires
                    -262_144_000_000_000 <= a <= 262_144_000_000_000,
            ;
            lemma_sum_take_succ(p, i as int);
            assert(p[i as int] == a * a);
        }
        let dev: i128 = d[i].num;
        acc = acc + dev * dev;
        i = i + 1;
    }
    proof {
        assert(p.take(n as int) =~= p);
        let m: int = n as int;
        assert(1 <= m * m <= 4_294_967_296 && 1 <= m * m * m <= 281_474_976_710_656)
            by (nonlinear_arith)
            requires
                1 <= m <= 65536,
        ;
    }
    let den: i128 = (n as i128) * (n as i128) * (n as i128);
    Ok(Frac { num: acc, den })
}

/// Covariance of two sample vectors of equal, non-zero length: the mean of
/// the element-wise products of their deviations, as the exact fraction
/// `cov_num(x, y) / n^3`.  Vectors of different lengths are rejected with
/// `LengthMismatch`; a pair of empty vectors with `EmptyInput`.
pub fn covariance(x: &Vec<i64>, y: &Vec<i64>) -> (r: Result<Frac, CovError>)
    requires
        fits(x@),
        fits(y@),
    ensures
        match r {
            Ok(f) => x@.len() == y@.len() && x@.len() > 0 && is_cov_frac(
                f,
                ints(x@),
                ints(y@),
            ),
            Err(CovError::LengthMismatch) => x@.len() != y@.len(),
            Err(CovError::EmptyInput) => x@.len() == y@.len() && x@.len() == 0,
        },
{
    if x.len() != y.len() {
        return Err(CovError::LengthMismatch);
    }
    if x.len() == 0 {
        return Err(CovError::EmptyInput);
    }
    let ghost sx = ints(x@);
    let ghost sy = ints(y@);
    let dx: Vec<Frac> = match deviations(x) {
        Ok(d) => d,
        Err(_) => Vec::new(),
    };
    let dy: Vec<Frac> = match deviations(y) {
        Ok(d) => d,
        Err(_) => Vec::new(),
    };
    let ghost p = dev_prods(sx, sy);
    let n: usize = x.len();
    let mut acc: i128 = 0;
    let mut i: usize = 0;
    while i < n
        invariant
            n == x@.len(),
            n == y@.len(),
            fits(x@),
            fits(y@),
            sx == ints(x@),
            sy == ints(y@),
            p == dev_prods(sx, sy),
            dx@.len() == n,
            dy@.len() == n,
            forall|k: int| 0 <= k < n ==> (#[trigger] dx@[k]).num == dev_num(sx, k),
            forall|k: int| 0 <= k < n ==> (#[trigger] dy@[k]).num == dev_num(sy, k),
            0 <= i <= n,
            acc == sum(p.take(i as int)),
        decreases n - i,
    {
        proof {
            lemma_dev_prods_bounded(sx, sy);
            lemma_sum_prefix_bound(p, PROD_BOUND as int, i as int);
            lemma_dev_num_bound(sx, i as int);
            lemma_dev_num_bound(sy, i as int);
            let a: int = dev_num(sx, i as int);
            let b: int = dev_num(sy, i as int);
            assert(-68_719_476_736_000_000_000_000_000_000 <= a * b
                <= 68_719_476_736_000_000_000_000_000_000) by (nonlinear_arith)
                requires
                    -262_144_000_000_000 <= a <= 262_144_000_000_000,
                    -262_144_000_000_000 <= b <= 262_144_000_000_000,
            ;
            lemma_sum_take_succ(p, i as int);
            assert(p[i as int] == a * b);
        }
        acc = acc + dx[i].num * dy[i].num;
        i = i + 1;
    }
    proof {
        assert(p.take(n as int) =~= p);
        let m: int = n as int;
        assert(1 <= m * m <= 4_294_967_296 && 1 <= m * m * m <= 281_474_976_710_656)
            by (nonlinear_arith)
            requires
                1 <= m <= 65536,
        ;
    }
    let den: i128 = (n as i128) * (n as i128) * (n as i128);
    Ok(Frac { num: acc, den })
}

/// Variance-covariance matrix of a collection of jointly observed sample
/// vectors.  Cell `(i, j)` of the result is the exact covariance of
/// `vectors[i]` and `vectors[j]`; the diagonal therefore holds each
/// vector's variance, and the matrix is symmetric.  An empty collection or
/// empty vectors are rejected with `EmptyInput`; vectors of unequal lengths
/// with `LengthMismatch`.
#[verifier::loop_isolation(false)]
pub fn covariance_matrix(vectors: &Vec<Vec<i64>>) -> (r: Result<Vec<Vec<Frac>>, CovError>)
    requires
        forall|k: int| 0 <= k < vectors@.len() ==> fits(#[trigger] vectors@[k]@),
    ensures
        match r {
            Ok(m) => {
                &&& vectors@.len() > 0
                &&& uniform_len(vectors@)
                &&& vectors@[0]@.len() > 0
                &&& m@.len() == vectors@.len()
                &&& forall|i: int| 0 <= i < m@.len() ==> (#[trigger] m@[i])@.len() == vectors@.len()
                &&& forall|i: int, j: int|
                    0 <= i < m@.len() && 0 <= j < m@.len() ==> is_cov_frac(
                        #[trigger] m@[i]@[j],
                        ints(vectors@[i]@),
                        ints(vectors@[j]@),
                    )
                &&& forall|i: int, j: int|
                    0 <= i < m@.len() && 0 <= j < m@.len() ==> #[trigger] m@[i]@[j] == m@[j]@[i]
            },
            Err(CovError::EmptyInput) => vectors@.len() == 0 || (uniform_len(vectors@)
                && vectors@[0]@.len() == 0),
            Err(CovError::LengthMismatch) => vectors@.len() > 0 && !uniform_len(vectors@),
        },
{
    let n: usize = vectors.len();
    if n == 0 {
        return Err(CovError::EmptyInput);
    }
    let first_len: usize = vectors[0].len();
    let mut k: usize = 1;
    while k < n
        invariant
            1 <= k <= n,
            forall|i: int| 0 <= i < k ==> #[trigger] vectors@[i]@.len() == first_len,
        decreases n - k,
    {
        if vectors[k].len() != first_len {
            return Err(CovError::LengthMismatch);
        }
        k = k + 1;
    }
    assert(uniform_len(vectors@));
    if first_len == 0 {
        return Err(CovError::EmptyInput);
    }
    let mut m: Vec<Vec<Frac>> = Vec::new();
    let mut i: usize = 0;
    while i < n
        invariant
            0 <= i <= n,
            m@.len() == i,
            forall|a: int| 0 <= a < i ==> (#[trigger] m@[a])@.len() == n,
            forall|a: int, b: int|
                0 <= a < i && 0 <= b < n ==> is_cov_frac(
                    #[trigger] m@[a]@[b],
                    ints(vectors@[a]@),
                    ints(vectors@[b]@),
                ),
        decreases n - i,
    {
        let mut row: Vec<Frac> = Vec::new();
        let mut j: usize = 0;
        while j < n
            invariant
                0 <= i < n,
                0 <= j <= n,
                row@.len() == j,
                forall|b: int|
                    0 <= b < j ==> is_cov_frac(
                        #[trigger] row@[b],
                        ints(vectors@[i as int]@),
                        ints(vectors@[b]@),
                    ),
            decreases n - j,
        {
            let c: Frac = match covariance(&vectors[i], &vectors[j]) {
                Ok(f) => f,
                Err(_) => Frac { num: 0, den: 1 },
            };
            row.push(c);
            j = j + 1;
        }
        m.push(row);
        i = i + 1;
    }
    proof {
        assert forall|a: int, b: int| 0 <= a < m@.len() && 0 <= b < m@.len() implies
            #[trigger] m@[a]@[b] == m@[b]@[a] by {
            crate::laws::lemma_covariance_symmetric(ints(vectors@[a]@), ints(vectors@[b]@));
            assert(m@[a]@[b] =~= m@[b]@[a]);
        }
    }
    Ok(m)
}

/// Covariance matrix of exactly three variables, assembled cell by cell:
/// variances on the diagonal, the three pairwise covariances mirrored off
/// it.  Mathematically the same as `covariance_matrix` on the three
/// vectors.  Lengths must agree (`LengthMismatch` otherwise) and be
/// non-zero (`EmptyInput` otherwise).
pub fn calc_3x3(x: &Vec<i64>, y: &Vec<i64>, z: &Vec<i64>) -> (r: Result<
    Vec<Vec<Frac>>,
    CovError,
>)
    requires
        fits(x@),
        fits(y@),
        fits(z@),
    ensures
        match r {
            Ok(m) => {
                &&& x@.len() == y@.len() && y@.len() == z@.len() && x@.len() > 0
                &&& m@.len() == 3
                &&& forall|i: int| 0 <= i < 3 ==> (#[trigger] m@[i])@.len() == 3
                &&& is_cov_frac(m@[0]@[0], ints(x@), ints(x@))
                &&& is_cov_frac(m@[0]@[1], ints(x@), ints(y@))
                &&& is_cov_frac(m@[0]@[2], ints(x@), ints(z@))
                &&& is_cov_frac(m@[1]@[0], ints(y@), ints(x@))
                &&& is_cov_frac(m@[1]@[1], ints(y@), ints(y@))
                &&& is_cov_frac(m@[1]@[2], ints(y@), ints(z@))
                &&& is_cov_frac(m@[2]@[0], ints(z@), ints(x@))
                &&& is_cov_frac(m@[2]@[1], ints(z@), ints(y@))
                &&& is_cov_frac(m@[2]@[2], ints(z@), ints(z@))
            },
            Err(CovError::LengthMismatch) => !(x@.len() == y@.len() && y@.len() == z@.len()),
            Err(CovError::EmptyInput) => x@.len() == y@.len() && y@.len() == z@.len()
                && x@.len() == 0,
        },
{
    if !(x.len() == y.len() && y.len() == z.len()) {
        return Err(CovError::LengthMismatch);
    }
    if x.len() == 0 {
        return Err(CovError::EmptyInput);
    }
    let vx: Frac = match variance(x) {
        Ok(f) => f,
        Err(_) => Frac { num: 0, den: 1 },
    };
    let vy: Frac = match variance(y) {
        Ok(f) => f,
        Err(_) => Frac { num: 0, den: 1 },
    };
    let vz: Frac = match variance(z) {
        Ok(f) => f,
        Err(_) => Frac { num: 0, den: 1 },
    };
    let cov_xy: Frac = match covariance(x, y) {
        Ok(f) => f,
        Err(_) => Frac { num: 0, den: 1 },
    };
    let cov_yz: Frac = match covariance(y, z) {
        Ok(f) => f,
        Err(_) => Frac { num: 0, den: 1 },
    };
    let cov_xz: Frac = match covariance(x, z) {
        Ok(f) => f,
        Err(_) => Frac { num: 0, den: 1 },
    };
    proof {
        crate::laws::lemma_covariance_symmetric(ints(x@), ints(y@));
        crate::laws::lemma_covariance_symmetric(ints(y@), ints(z@));
        crate::laws::lemma_covariance_symmetric(ints(x@), ints(z@));
    }
    let mut row0: Vec<Frac> = Vec::new();
    row0.push(vx);
    row0.push(cov_xy);
    row0.push(cov_xz);
    let mut row1: Vec<Frac> = Vec::new();
    row1.push(cov_xy);
    row1.push(vy);
    row1.push(cov_yz);
    let mut row2: Vec<Frac> = Vec::new();
    row2.push(cov_xz);
    row2.push(cov_yz);
    row2.push(vz);
    let mut m: Vec<Vec<Frac>> = Vec::new();
    m.push(row0);
    m.push(row1);
    m.push(row2);
    Ok(m)
}

} // verus!
