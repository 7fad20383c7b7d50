use vstd::prelude::*;

use crate::num::{dot_to, sum_to, SCALE};
use crate::matrix::Matrix;
use crate::stats::{
    calculate_returns, cov_mat_of, covariance_matrix, entries_bounded, mean_per_column, COV_LIMIT, ENTRY_LIMIT,
    means_of, price_step_ok, returns_of, ROW_LIMIT,
};
use crate::perf::{
    expected_ret, lemma_sharpe_gt_not_above, portfolio_performance, qsum_to, row_mix, sharpe_exceeds,
    sharpe_gt, variance_of, volatility_of, weights_ok,
};
use crate::sampling::{draw_unit, normalize_weights};

verus! {

/// The fixed budget of independent random trials.
pub const NUM_TRIALS: usize = 10_000;

/// A (volatility, expected return) pair that some admissible weight vector
/// attains over the given mean vector and covariance matrix.
pub open spec fn sample_ok(s: (i64, i64), m: Seq<i64>, c: Seq<Seq<i64>>, n: int) -> bool {
    exists|w: Seq<i64>|
        weights_ok(w, n) && s.1 == expected_ret(w, m) && s.0 == volatility_of(c, w) && s.0 >= 0
}

/// A weighted dot product over an all-zero prefix vanishes.
proof fn lemma_dot_to_zero(w: Seq<i64>, m: Seq<i64>, k: int)
    requires
        0 <= k <= w.len(),
        k <= m.len(),
        forall|i: int| 0 <= i < k ==> w[i] == 0,
    ensures
        dot_to(w, m, k) == 0,
    decreases k,
{
    if k > 0 {
        lemma_dot_to_zero(w, m, k - 1);
    }
}

/// The quadratic form over an all-zero weight vector vanishes.
proof fn lemma_qsum_to_zero(c: Seq<Seq<i64>>, w: Seq<i64>, k: int)
    requires
        0 <= k <= w.len(),
        forall|i: int| 0 <= i < w.len() ==> w[i] == 0,
    ensures
        qsum_to(c, w, k) == 0,
    decreases k,
{
    if k > 0 {
        lemma_qsum_to_zero(c, w, k - 1);
        assert(w[k - 1] * row_mix(c[k - 1], w) == 0) by (nonlinear_arith)
            requires
                w[k - 1] == 0,
        ;
    }
}

/// An all-zero weight vector has expected return 0 and volatility 0,
/// so its Sharpe ratio is undefined and nothing compares below it.
proof fn lemma_zero_weights_performance(m: Seq<i64>, c: Seq<Seq<i64>>, w: Seq<i64>)
    requires
        w.len() == m.len(),
        forall|i: int| 0 <= i < w.len() ==> w[i] == 0,
    ensures
        expected_ret(w, m) == 0,
        volatility_of(c, w) == 0,
{
    lemma_dot_to_zero(w, m, w.len() as int);
    lemma_qsum_to_zero(c, w, w.len() as int);
    assert(expected_ret(w, m) == 0);
    assert(variance_of(c, w) == 0);
}

/// Monte-Carlo search for the maximum-Sharpe-ratio portfolio: NUM_TRIALS
/// independent draws of a normalized weight vector, each scored by its
/// expected return over its volatility; the strictly best-scoring vector is
/// kept (ties keep the earlier trial) while every (volatility, return) pair
/// is collected in trial order for the efficient-frontier cloud.
///
/// The returned best weights are either a normalized vector whose Sharpe
/// ratio no sample exceeds, or the initial all-zero vector if no trial
/// scored above zero.  In both cases no sample's Sharpe ratio exceeds the
/// one recomputed from the returned weights.
pub fn optimize_portfolio(rets: &Matrix, rng: &mut rand::rngs::StdRng) -> (r: (Vec<i64>, Vec<(i64, i64)>))
    requires
        rets.wf(),
        2 <= rets.rows@.len() <= ROW_LIMIT,
        rets.cols >= 1,
        entries_bounded(rets.entries(), rets.cols as int),
    ensures
        r.1@.len() == NUM_TRIALS,
        r.0@.len() == rets.cols,
        forall|k: int|
            0 <= k < NUM_TRIALS ==> sample_ok(
                #[trigger] r.1@[k],
                means_of(rets.entries(), rets.cols as int),
                cov_mat_of(rets.entries(), rets.cols as int),
                rets.cols as int,
            ),
        forall|k: int|
            0 <= k < NUM_TRIALS ==> !sharpe_gt(
                (#[trigger] r.1@[k]).1 as int,
                r.1@[k].0 as int,
                expected_ret(r.0@, means_of(rets.entries(), rets.cols as int)),
                volatility_of(cov_mat_of(rets.entries(), rets.cols as int), r.0@),
            ),
        weights_ok(r.0@, rets.cols as int) || ((forall|i: int| 0 <= i < rets.cols ==> r.0@[i] == 0)
            && (forall|k: int|
            0 <= k < NUM_TRIALS ==> !sharpe_gt(
                (#[trigger] r.1@[k]).1 as int,
                r.1@[k].0 as int,
                0,
                SCALE as int,
            ))),
{
    let n = rets.ncols();
    let mean = mean_per_column(rets);
    let cov = covariance_matrix(rets);
    let ghost m = means_of(rets.entries(), n as int);
    let ghost c = cov_mat_of(rets.entries(), n as int);
    proof {
        assert(mean@ == m);
        assert(cov.entries() == c);
    }

    let mut best_w: Vec<i64> = Vec::new();
    let mut i: usize = 0;
    while i < n
        invariant
            0 <= i <= n,
            best_w@.len() == i,
            forall|k: int| 0 <= k < i ==> best_w@[k] == 0,
        decreases n - i,
    {
        best_w.push(0);
        i += 1;
    }
    let mut best_r: i64 = 0;
    let mut best_v: i64 = SCALE;
    let mut samples: Vec<(i64, i64)> = Vec::new();

    let mut t: usize = 0;
    while t < NUM_TRIALS
        invariant
            rets.wf(),
            2 <= rets.rows@.len() <= ROW_LIMIT,
            1 <= n == rets.cols,
            entries_bounded(rets.entries(), n as int),
            m == means_of(rets.entries(), n as int),
            c == cov_mat_of(rets.entries(), n as int),
            mean@ == m,
            cov.entries() == c,
            cov.wf(),
            cov.rows@.len() == cov.cols,
            cov.cols == n,
            mean@.len() == n,
            forall|k: int|
                0 <= k < n ==> -ENTRY_LIMIT <= #[trigger] mean@[k]
                    <= ENTRY_LIMIT,
            forall|k: int, l: int|
                0 <= k < n && 0 <= l < n ==> -COV_LIMIT <= #[trigger] cov.entry(k, l)
                    <= COV_LIMIT,
            0 <= t <= NUM_TRIALS,
            samples@.len() == t,
            best_w@.len() == n,
            0 <= best_v,
            forall|k: int| 0 <= k < t ==> sample_ok(#[trigger] samples@[k], m, c, n as int),
            forall|k: int| 0 <= k < t ==> (#[trigger] samples@[k]).0 >= 0,
            forall|k: int|
                0 <= k < t ==> !sharpe_gt(
                    (#[trigger] samples@[k]).1 as int,
                    samples@[k].0 as int,
                    best_r as int,
                    best_v as int,
                ),
            (best_r == 0 && best_v == SCALE && forall|k: int| 0 <= k < n ==> best_w@[k] == 0)
                || (weights_ok(best_w@, n as int) && best_r == expected_ret(best_w@, m) && best_v
                == volatility_of(c, best_w@)),
        decreases NUM_TRIALS - t,
    {
        let mut draws: Vec<u64> = Vec::new();
        let mut j: usize = 0;
        while j < n
            invariant
                0 <= j <= n,
                draws@.len() == j,
                forall|k: int| 0 <= k < j ==> 1 <= #[trigger] draws@[k] <= SCALE,
            decreases n - j,
        {
            let d = draw_unit(rng);
            draws.push(d);
            j += 1;
        }
        let wv = normalize_weights(&draws);
        let (ret, vol) = portfolio_performance(&wv, &mean, &cov);
        let better = sharpe_exceeds(ret, vol, best_r, best_v);
        let ghost old_samples = samples@;
        let ghost old_best_r = best_r;
        let ghost old_best_v = best_v;
        samples.push((vol, ret));
        proof {
            let ghost wt = wv@;
            assert(weights_ok(wt, n as int) && (vol, ret).1 == expected_ret(wt, m) && (vol,
            ret).0 == volatility_of(c, wt) && (vol, ret).0 >= 0);
            assert(sample_ok((vol, ret), m, c, n as int));
        }
        if better {
            best_r = ret;
            best_v = vol;
            best_w = wv;
            proof {
                assert forall|k: int| 0 <= k < samples@.len() implies !sharpe_gt(
                    (#[trigger] samples@[k]).1 as int,
                    samples@[k].0 as int,
                    best_r as int,
                    best_v as int,
                ) by {
                    if k < samples@.len() - 1 {
                        assert(samples@[k] == old_samples[k]);
                        lemma_sharpe_gt_not_above(
                            old_samples[k].1 as int,
                            old_samples[k].0 as int,
                            old_best_r as int,
                            old_best_v as int,
                            ret as int,
                            vol as int,
                        );
                    } else {
                        assert(samples@[k] == (vol, ret));
                        assert(!sharpe_gt(ret as int, vol as int, ret as int, vol as int));
                    }
                }
            }
        } else {
            proof {
                assert(samples@[samples@.len() - 1] == (vol, ret));
            }
        }
        t += 1;
    }
    proof {
        if forall|k: int| 0 <= k < n ==> best_w@[k] == 0 {
            lemma_zero_weights_performance(m, c, best_w@);
            assert forall|k: int| 0 <= k < NUM_TRIALS implies !sharpe_gt(
                (#[trigger] samples@[k]).1 as int,
                samples@[k].0 as int,
                expected_ret(best_w@, m),
                volatility_of(c, best_w@),
            ) by {
                assert(expected_ret(best_w@, m) == 0 && volatility_of(c, best_w@) == 0);
            }
        }
    }
    (best_w, samples)
}

/// Runs the whole pipeline on an in-memory price matrix: derive the return
/// matrix, then search for the maximum-Sharpe portfolio.  Returns the best
/// weight vector and the full (volatility, return) cloud, one entry per
/// trial.
pub fn run_optimization(prices: &Matrix, rng: &mut rand::rngs::StdRng) -> (r: (Vec<i64>, Vec<(i64, i64)>))
    requires
        prices.wf(),
        3 <= prices.rows@.len(),
        prices.rows@.len() - 1 <= ROW_LIMIT,
        prices.cols >= 1,
        forall|i: int, j: int|
            0 <= i < prices.rows@.len() && 0 <= j < prices.cols ==> 0 < #[trigger] prices.entry(
                i,
                j,
            ),
        forall|i: int, j: int|
            0 <= i < prices.rows@.len() - 1 && 0 <= j < prices.cols ==> #[trigger] price_step_ok(
                prices.entries(),
                i,
                j,
            ),
    ensures
        ({
            let re = returns_of(prices.entries(), prices.cols as int);
            let m = means_of(re, prices.cols as int);
            let c = cov_mat_of(re, prices.cols as int);
            &&& r.1@.len() == NUM_TRIALS
            &&& r.0@.len() == prices.cols
            &&& forall|k: int|
                0 <= k < NUM_TRIALS ==> sample_ok(#[trigger] r.1@[k], m, c, prices.cols as int)
            &&& forall|k: int|
                0 <= k < NUM_TRIALS ==> !sharpe_gt(
                    (#[trigger] r.1@[k]).1 as int,
                    r.1@[k].0 as int,
                    expected_ret(r.0@, m),
                    volatility_of(c, r.0@),
                )
            &&& (weights_ok(r.0@, prices.cols as int) || ((forall|i: int|
                0 <= i < prices.cols ==> r.0@[i] == 0) && (forall|k: int|
                0 <= k < NUM_TRIALS ==> !sharpe_gt(
                    (#[trigger] r.1@[k]).1 as int,
                    r.1@[k].0 as int,
                    0,
                    SCALE as int,
                ))))
        }),
{
    let rets = calculate_returns(prices);
    optimize_portfolio(&rets, rng)
}

} // verus!
