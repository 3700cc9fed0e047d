use covariance::stats::{
    calc_3x3, covariance, covariance_matrix, deviations, mean, variance, CovError, Frac,
};

/// The fraction `f` equals `num / den` as a number.
fn frac_is(f: Frac, num: i128, den: i128) -> bool {
    f.num * den == num * f.den
}

#[test]
fn test1() {
    let x: Vec<i64> = vec![40, 80, 90];
    let y: Vec<i64> = vec![80, 90, 100];

    let sigma = covariance_matrix(&vec![x, y]).unwrap();

    let mat_true = [[(1400i128, 3i128), (500, 3)], [(500, 3), (200, 3)]];

    for i in 0..sigma.len() {
        for j in 0..sigma.len() {
            let (num, den) = mat_true[i][j];
            assert!(frac_is(sigma[i][j], num, den));
        }
    }
}

#[test]
fn mean_exact() {
    let v: Vec<i64> = vec![40, 80, 90];
    let m = mean(&v).unwrap();
    assert_eq!(m.num, 210);
    assert_eq!(m.den, 3);
    assert!(frac_is(m, 70, 1));
}

#[test]
fn mean_empty() {
    let v: Vec<i64> = vec![];
    assert_eq!(mean(&v), Err(CovError::EmptyInput));
}

#[test]
fn deviations_values() {
    let v: Vec<i64> = vec![1, 2, 3];
    let d = deviations(&v).unwrap();
    assert_eq!(d.len(), 3);
    assert!(frac_is(d[0], -1, 1));
    assert!(frac_is(d[1], 0, 1));
    assert!(frac_is(d[2], 1, 1));
}

#[test]
fn deviations_mean_zero() {
    let v: Vec<i64> = vec![5, -7, 12, 0];
    let d = deviations(&v).unwrap();
    let total: i128 = d.iter().map(|f| f.num).sum();
    assert_eq!(total, 0);
}

#[test]
fn deviations_empty() {
    let v: Vec<i64> = vec![];
    assert_eq!(deviations(&v), Err(CovError::EmptyInput));
}

#[test]
fn variance_exact() {
    let x: Vec<i64> = vec![40, 80, 90];
    let y: Vec<i64> = vec![80, 90, 100];
    assert!(frac_is(variance(&x).unwrap(), 1400, 3));
    assert!(frac_is(variance(&y).unwrap(), 200, 3));
}

#[test]
fn variance_nonneg() {
    let samples: Vec<Vec<i64>> = vec![
        vec![0],
        vec![-5, -5, -5],
        vec![-1_000_000, 1_000_000],
        vec![3, -8, 12, 0, -2],
    ];
    for v in &samples {
        let f = variance(v).unwrap();
        assert!(f.num >= 0);
        assert!(f.den > 0);
    }
}

#[test]
fn variance_empty() {
    let v: Vec<i64> = vec![];
    assert_eq!(variance(&v), Err(CovError::EmptyInput));
}

#[test]
fn covariance_exact() {
    let x: Vec<i64> = vec![40, 80, 90];
    let y: Vec<i64> = vec![80, 90, 100];
    assert!(frac_is(covariance(&x, &y).unwrap(), 500, 3));
}

#[test]
fn covariance_symmetric() {
    let x: Vec<i64> = vec![12, -3, 7, 0];
    let y: Vec<i64> = vec![-9, 4, 4, 1];
    assert_eq!(covariance(&x, &y).unwrap(), covariance(&y, &x).unwrap());
}

#[test]
fn covariance_shift_invariant() {
    let x: Vec<i64> = vec![12, -3, 7, 0];
    let y: Vec<i64> = vec![-9, 4, 4, 1];
    let c: i64 = 1000;
    let shifted: Vec<i64> = x.iter().map(|v| v + c).collect();
    assert_eq!(covariance(&shifted, &y).unwrap(), covariance(&x, &y).unwrap());
}

#[test]
fn covariance_mismatch() {
    let x: Vec<i64> = vec![1, 2, 3];
    let y: Vec<i64> = vec![1, 2];
    assert_eq!(covariance(&x, &y), Err(CovError::LengthMismatch));
}

#[test]
fn covariance_empty() {
    let x: Vec<i64> = vec![];
    let y: Vec<i64> = vec![];
    assert_eq!(covariance(&x, &y), Err(CovError::EmptyInput));
}

#[test]
fn matrix_diagonal_is_variance() {
    let vs: Vec<Vec<i64>> = vec![vec![40, 80, 90], vec![80, 90, 100], vec![1, -1, 5]];
    let m = covariance_matrix(&vs).unwrap();
    for i in 0..vs.len() {
        assert_eq!(m[i][i], variance(&vs[i]).unwrap());
    }
}

#[test]
fn matrix_symmetric() {
    let vs: Vec<Vec<i64>> = vec![vec![4, 8, 15], vec![16, 23, 42], vec![-7, 0, 7]];
    let m = covariance_matrix(&vs).unwrap();
    for i in 0..3 {
        for j in 0..3 {
            assert_eq!(m[i][j], m[j][i]);
        }
    }
}

#[test]
fn matrix_single_variable() {
    let x: Vec<i64> = vec![40, 80, 90];
    let m = covariance_matrix(&vec![x.clone()]).unwrap();
    assert_eq!(m.len(), 1);
    assert_eq!(m[0].len(), 1);
    assert_eq!(m[0][0], variance(&x).unwrap());
}

#[test]
fn matrix_empty_collection() {
    let vs: Vec<Vec<i64>> = vec![];
    assert_eq!(covariance_matrix(&vs), Err(CovError::EmptyInput));
}

#[test]
fn matrix_empty_vectors() {
    let vs: Vec<Vec<i64>> = vec![vec![], vec![]];
    assert_eq!(covariance_matrix(&vs), Err(CovError::EmptyInput));
}

#[test]
fn matrix_mismatched_lengths() {
    let vs: Vec<Vec<i64>> = vec![vec![1, 2, 3], vec![1, 2]];
    assert_eq!(covariance_matrix(&vs), Err(CovError::LengthMismatch));
}

#[test]
fn calc_3x3_matches_general() {
    let x: Vec<i64> = vec![40, 80, 90];
    let y: Vec<i64> = vec![80, 90, 100];
    let z: Vec<i64> = vec![10, 0, -10];
    let small = calc_3x3(&x, &y, &z).unwrap();
    let general = covariance_matrix(&vec![x, y, z]).unwrap();
    for i in 0..3 {
        for j in 0..3 {
            assert_eq!(small[i][j], general[i][j]);
        }
    }
}

#[test]
fn calc_3x3_mismatch() {
    let x: Vec<i64> = vec![1, 2, 3];
    let y: Vec<i64> = vec![1, 2, 3];
    let z: Vec<i64> = vec![1, 2];
    assert_eq!(calc_3x3(&x, &y, &z), Err(CovError::LengthMismatch));
}

#[test]
fn calc_3x3_empty() {
    let x: Vec<i64> = vec![];
    let y: Vec<i64> = vec![];
    let z: Vec<i64> = vec![];
    assert_eq!(calc_3x3(&x, &y, &z), Err(CovError::EmptyInput));
}
