use portfolio_optimizer::{
    calculate_returns, covariance_matrix, mean_per_column, normalize_weights, optimize_portfolio,
    portfolio_performance, run_optimization, sharpe_exceeds, Matrix, NUM_TRIALS, SCALE,
};
use rand::SeedableRng;

const S: i64 = SCALE;

fn mat(rows: Vec<Vec<i64>>) -> Matrix {
    Matrix::from_rows(rows).unwrap()
}

fn rng(seed: u64) -> rand::rngs::StdRng {
    rand::rngs::StdRng::seed_from_u64(seed)
}

#[test]
fn returns_single_pair() {
    let prices = mat(vec![vec![100 * S], vec![110 * S]]);
    let ret = calculate_returns(&prices);
    assert_eq!(ret.nrows(), 1);
    assert_eq!(ret.ncols(), 1);
    assert_eq!(ret.get(0, 0), S / 10);
    let as_real = ret.get(0, 0) as f64 / S as f64;
    assert!((as_real - 0.10).abs() < 1e-9);
}

#[test]
fn returns_shape() {
    let prices = mat(vec![
        vec![100 * S, 50 * S, 20 * S],
        vec![101 * S, 50 * S, 21 * S],
        vec![102 * S, 50 * S, 19 * S],
        vec![103 * S, 50 * S, 22 * S],
        vec![104 * S, 50 * S, 20 * S],
    ]);
    let ret = calculate_returns(&prices);
    assert_eq!(ret.nrows(), 4);
    assert_eq!(ret.ncols(), 3);
    // flat column: zero return everywhere
    for i in 0..4 {
        assert_eq!(ret.get(i, 1), 0);
    }
}

#[test]
fn returns_exact_half() {
    let prices = mat(vec![vec![200 * S], vec![300 * S]]);
    let ret = calculate_returns(&prices);
    assert_eq!(ret.get(0, 0), S / 2);
}

#[test]
fn mean_exact_truncation() {
    let rets = mat(vec![vec![10], vec![20], vec![31]]);
    let mean = mean_per_column(&rets);
    assert_eq!(mean, vec![20]);
    let rets_neg = mat(vec![vec![-10], vec![-21]]);
    let mean_neg = mean_per_column(&rets_neg);
    // truncating division rounds toward zero
    assert_eq!(mean_neg, vec![-15]);
}

#[test]
fn covariance_identical_columns() {
    let rets = mat(vec![
        vec![100_000_000, 100_000_000],
        vec![-50_000_000, -50_000_000],
        vec![20_000_000, 20_000_000],
    ]);
    let cov = covariance_matrix(&rets);
    let d = cov.get(0, 0);
    assert!(d > 0);
    assert_eq!(cov.get(0, 1), d);
    assert_eq!(cov.get(1, 0), d);
    assert_eq!(cov.get(1, 1), d);
}

#[test]
fn covariance_exact_two_rows() {
    let rets = mat(vec![vec![200_000_000], vec![100_000_000]]);
    let cov = covariance_matrix(&rets);
    // mean 0.15; deviations +-0.05; sample variance 0.005
    assert_eq!(cov.get(0, 0), 5_000_000);
}

#[test]
fn covariance_symmetric() {
    let rets = mat(vec![
        vec![100_000_000, -20_000_000, 5_000_000],
        vec![-30_000_000, 40_000_000, -1_000_000],
        vec![10_000_000, 10_000_000, 2_000_000],
        vec![70_000_000, -60_000_000, 0],
    ]);
    let cov = covariance_matrix(&rets);
    for i in 0..3 {
        for j in 0..3 {
            assert_eq!(cov.get(i, j), cov.get(j, i));
        }
    }
}

#[test]
fn performance_exact_single_asset() {
    let weights = vec![S];
    let mean = vec![2_000_000];
    let cov = mat(vec![vec![4_000_000]]);
    let (ret, vol) = portfolio_performance(&weights, &mean, &cov);
    assert_eq!(ret, 2_000_000);
    // volatility = sqrt(0.004) = 0.063245553... in fixed point
    assert_eq!(vol, 63_245_553);
    let as_real = vol as f64 / S as f64;
    assert!((as_real - 0.004f64.sqrt()).abs() < 1e-8);
}

#[test]
fn weight_normalization() {
    let draws = vec![1u64, 2, 3, S as u64];
    let w = normalize_weights(&draws);
    assert_eq!(w.len(), 4);
    let total: u64 = draws.iter().sum();
    for (i, &wi) in w.iter().enumerate() {
        assert!(wi >= 0);
        if i + 1 < w.len() {
            assert_eq!(wi, ((draws[i] as u128 * S as u128) / total as u128) as i64);
        }
    }
    let sum: i64 = w.iter().sum();
    assert_eq!(sum, S);
    let as_real: f64 = w.iter().map(|&x| x as f64 / S as f64).sum();
    assert!((as_real - 1.0).abs() < 1e-9);
}

#[test]
fn weight_normalization_single() {
    let w = normalize_weights(&vec![5u64]);
    assert_eq!(w, vec![S]);
}

#[test]
fn sample_count() {
    let prices = mat(vec![
        vec![100 * S, 30 * S],
        vec![105 * S, 29 * S],
        vec![103 * S, 31 * S],
        vec![110 * S, 30 * S],
    ]);
    let rets = calculate_returns(&prices);
    let mut g = rng(7);
    let (_, samples) = optimize_portfolio(&rets, &mut g);
    assert_eq!(samples.len(), NUM_TRIALS);
    assert_eq!(samples.len(), 10_000);
}

#[test]
fn best_weights_consistency() {
    let prices = mat(vec![
        vec![100 * S, 30 * S, 70 * S],
        vec![104 * S, 29 * S, 72 * S],
        vec![103 * S, 31 * S, 69 * S],
        vec![110 * S, 30 * S, 75 * S],
        vec![112 * S, 32 * S, 74 * S],
    ]);
    let rets = calculate_returns(&prices);
    let mut g = rng(42);
    let (best, samples) = optimize_portfolio(&rets, &mut g);
    let sum: i64 = best.iter().sum();
    assert_eq!(sum, S, "a trial with positive Sharpe ratio must have won");
    let mean = mean_per_column(&rets);
    let cov = covariance_matrix(&rets);
    let (best_ret, best_vol) = portfolio_performance(&best, &mean, &cov);
    for &(vol, ret) in &samples {
        assert!(!sharpe_exceeds(ret, vol, best_ret, best_vol));
    }
}

#[test]
fn single_asset_deterministic() {
    let prices = mat(vec![vec![100 * S], vec![110 * S], vec![121 * S]]);
    let rets = calculate_returns(&prices);
    let mut g = rng(1);
    let (best, samples) = optimize_portfolio(&rets, &mut g);
    assert_eq!(best, vec![S]);
    assert_eq!(samples.len(), 10_000);
    let first = samples[0];
    for &s in &samples {
        assert_eq!(s, first);
    }
}

#[test]
fn end_to_end_scenario() {
    // asset A: monotonically increasing; asset B: flat (zero variance,
    // zero mean return); asset C: noisy
    let prices = mat(vec![
        vec![100 * S, 50 * S, 20 * S],
        vec![105 * S, 50 * S, 22 * S],
        vec![110 * S, 50 * S, 19 * S],
        vec![115 * S, 50 * S, 21 * S],
        vec![120 * S, 50 * S, 20 * S],
        vec![125 * S, 50 * S, 23 * S],
    ]);
    let mut g = rng(99);
    let (best, samples) = run_optimization(&prices, &mut g);
    assert_eq!(samples.len(), 10_000);
    assert_eq!(best.len(), 3);
    let sum: i64 = best.iter().sum();
    assert_eq!(sum, S);
    for &w in &best {
        assert!(w >= 0);
    }
    // recompute the best portfolio's performance: a winner was only ever
    // accepted with a strictly positive Sharpe ratio
    let rets = calculate_returns(&prices);
    let mean = mean_per_column(&rets);
    let cov = covariance_matrix(&rets);
    let (best_ret, best_vol) = portfolio_performance(&best, &mean, &cov);
    assert!(best_vol >= 0);
    if best_vol > 0 {
        assert!(best_ret > 0);
    }
    for &(vol, ret) in &samples {
        assert!(vol >= 0);
        assert!(!sharpe_exceeds(ret, vol, best_ret, best_vol));
    }
}

#[test]
fn from_rows_rejects_bad_shapes() {
    assert!(Matrix::from_rows(vec![]).is_none());
    assert!(Matrix::from_rows(vec![vec![]]).is_none());
    assert!(Matrix::from_rows(vec![vec![1, 2], vec![3]]).is_none());
    assert!(Matrix::from_rows(vec![vec![1, 2], vec![3, 4]]).is_some());
}

#[test]
fn matrix_accessors() {
    let m = mat(vec![vec![1, 2, 3], vec![4, 5, 6]]);
    assert_eq!(m.nrows(), 2);
    assert_eq!(m.ncols(), 3);
    assert_eq!(m.get(1, 2), 6);
}

#[test]
fn sharpe_comparison_cases() {
    // finite ratios compare by cross multiplication: 2/4 > 1/3
    assert!(sharpe_exceeds(2, 4, 1, 3));
    assert!(!sharpe_exceeds(1, 3, 2, 4));
    // equal ratios: strict comparison fails both ways
    assert!(!sharpe_exceeds(1, 2, 2, 4));
    assert!(!sharpe_exceeds(2, 4, 1, 2));
    // zero volatility with positive return exceeds every finite ratio
    assert!(sharpe_exceeds(1, 0, 100, 1));
    assert!(!sharpe_exceeds(100, 1, 1, 0));
    // zero volatility with zero return is undefined: no comparison holds
    assert!(!sharpe_exceeds(0, 0, -5, 1));
    assert!(!sharpe_exceeds(5, 1, 0, 0));
}
