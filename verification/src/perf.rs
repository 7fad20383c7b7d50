use vstd::prelude::*;

use crate::num::{
    div_trunc, div_trunc_i128, dot_to, isqrt_u128, lemma_div_trunc_bound, lemma_sum_to_mono,
    lemma_sum_to_nonneg, sqrt_floor, sum_to, SCALE,
};
use crate::matrix::Matrix;
use crate::stats::{COV_LIMIT, ENTRY_LIMIT};

verus! {

/// Bound that the fixed-point volatility is proved to respect.
pub const VOL_LIMIT: i64 = 30_000_000_000_000;

/// A weight vector of n assets: entries in [0, SCALE], summing to SCALE
/// (the fixed-point image of 1.0), i.e. a long-only full-investment
/// portfolio.
pub open spec fn weights_ok(w: Seq<i64>, n: int) -> bool {
    &&& w.len() == n
    &&& forall|i: int| 0 <= i < n ==> 0 <= #[trigger] w[i] <= SCALE
    &&& sum_to(w, n) == SCALE
}

/// Dot product of weights and mean returns, rescaled to fixed point.
pub open spec fn expected_ret(w: Seq<i64>, m: Seq<i64>) -> int
    recommends
        w.len() == m.len(),
{
    div_trunc(dot_to(w, m, w.len() as int), SCALE as int)
}

/// One row of the covariance matrix contracted with the weights,
/// rescaled to fixed point.
pub open spec fn row_mix(c: Seq<i64>, w: Seq<i64>) -> int
    recommends
        c.len() == w.len(),
{
    div_trunc(dot_to(c, w, w.len() as int), SCALE as int)
}

/// Partial quadratic form: the first k weights contracted with their rows.
pub open spec fn qsum_to(c: Seq<Seq<i64>>, w: Seq<i64>, k: int) -> int
    recommends
        0 <= k <= w.len(),
        k <= c.len(),
    decreases k,
{
    if k <= 0 {
        0
    } else {
        qsum_to(c, w, k - 1) + w[k - 1] * row_mix(c[k - 1], w)
    }
}

/// Portfolio variance w^T C w in fixed point.
pub open spec fn variance_of(c: Seq<Seq<i64>>, w: Seq<i64>) -> int
    recommends
        c.len() == w.len(),
{
    div_trunc(qsum_to(c, w, w.len() as int), SCALE as int)
}

/// Portfolio volatility: the fixed-point square root of the variance.
/// A variance that rounding has driven below zero yields volatility zero.
pub open spec fn volatility_of(c: Seq<Seq<i64>>, w: Seq<i64>) -> int
    recommends
        c.len() == w.len(),
{
    let t = variance_of(c, w);
    if t <= 0 {
        0
    } else {
        sqrt_floor((t * SCALE) as nat) as int
    }
}

/// Whether the Sharpe ratio r1/v1 is strictly greater than r2/v2, without
/// dividing.  Zero volatility mirrors the behaviour of a real-number ratio
/// at the boundary: with a positive return the ratio is unboundedly large
/// and exceeds every other; with a zero return it is undefined and no
/// comparison with it holds; with a negative return it is unboundedly small
/// and exceeds nothing.
pub open spec fn sharpe_gt(r1: int, v1: int, r2: int, v2: int) -> bool
    recommends
        v1 >= 0,
        v2 >= 0,
{
    if v1 == 0 && r1 == 0 {
        false
    } else if v2 == 0 && r2 == 0 {
        false
    } else if v1 == 0 {
        r1 > 0 && !(v2 == 0 && r2 > 0)
    } else if v2 == 0 {
        r2 < 0
    } else {
        r1 * v2 > r2 * v1
    }
}

/// Executable Sharpe comparison; cross-multiplies in 128 bits.
pub fn sharpe_exceeds(r1: i64, v1: i64, r2: i64, v2: i64) -> (b: bool)
    requires
        v1 >= 0,
        v2 >= 0,
    ensures
        b == sharpe_gt(r1 as int, v1 as int, r2 as int, v2 as int),
{
    if v1 == 0 && r1 == 0 {
        false
    } else if v2 == 0 && r2 == 0 {
        false
    } else if v1 == 0 {
        r1 > 0 && !(v2 == 0 && r2 > 0)
    } else if v2 == 0 {
        r2 < 0
    } else {
        proof {
            assert(i128::MIN <= (r1 as int) * (v2 as int) <= i128::MAX && i128::MIN <= (r2 as int)
                * (v1 as int) <= i128::MAX) by (nonlinear_arith)
                requires
                    i64::MIN <= r1 <= i64::MAX,
                    i64::MIN <= v1 <= i64::MAX,
                    i64::MIN <= r2 <= i64::MAX,
                    i64::MIN <= v2 <= i64::MAX,
            ;
        }
        (r1 as i128) * (v2 as i128) > (r2 as i128) * (v1 as i128)
    }
}

/// "Not above" is preserved when the benchmark moves up: if a is not above
/// b, and n is above b, then a is not above n.  This is what lets the
/// running best of a search stay maximal.
pub proof fn lemma_sharpe_gt_not_above(ra: int, va: int, rb: int, vb: int, rn: int, vn: int)
    requires
        va >= 0,
        vb >= 0,
        vn >= 0,
        !sharpe_gt(ra, va, rb, vb),
        sharpe_gt(rn, vn, rb, vb),
    ensures
        !sharpe_gt(ra, va, rn, vn),
{
    if va == 0 && ra == 0 {
        // a is undefined and compares greater to nothing
    } else if vn == 0 {
        // n exceeded b, so n must be the unboundedly large ratio,
        // which nothing exceeds
        assert(rn > 0);
    } else if vb == 0 {
        // n is finite and exceeded b, so b is the unboundedly small ratio;
        // a does not exceed it, so a is undefined or unboundedly small
        assert(rb < 0);
        assert(va == 0 && ra < 0);
    } else if va == 0 {
        // a is defined and not finite; it does not exceed the finite b,
        // so it is the unboundedly small ratio
        assert(ra < 0);
    } else {
        assert(ra * vb <= rb * va);
        assert(rn * vb > rb * vn);
        assert(ra * vn <= rn * va) by (nonlinear_arith)
            requires
                ra * vb <= rb * va,
                rn * vb > rb * vn,
                va > 0,
                vb > 0,
                vn > 0,
        ;
    }
}

/// Expected return and volatility of a weighted portfolio over the given
/// mean-return vector and covariance matrix: the dot product w . mean and
/// sqrt(w^T C w), in fixed point.
pub fn portfolio_performance(weights: &Vec<i64>, mean_returns: &Vec<i64>, cov_matrix: &Matrix) -> (r: (
    i64,
    i64,
))
    requires
        cov_matrix.wf(),
        cov_matrix.rows@.len() == cov_matrix.cols,
        weights@.len() == cov_matrix.cols,
        mean_returns@.len() == cov_matrix.cols,
        weights@.len() >= 1,
        forall|i: int| 0 <= i < weights@.len() ==> 0 <= #[trigger] weights@[i] <= SCALE,
        sum_to(weights@, weights@.len() as int) <= SCALE,
        forall|i: int|
            0 <= i < mean_returns@.len() ==> -ENTRY_LIMIT <= #[trigger] mean_returns@[i]
                <= ENTRY_LIMIT,
        forall|i: int, j: int|
            0 <= i < cov_matrix.cols && 0 <= j < cov_matrix.cols ==> -COV_LIMIT
                <= #[trigger] cov_matrix.entry(i, j) <= COV_LIMIT,
    ensures
        r.0 == expected_ret(weights@, mean_returns@),
        r.1 == volatility_of(cov_matrix.entries(), weights@),
        -ENTRY_LIMIT <= r.0 <= ENTRY_LIMIT,
        0 <= r.1 <= VOL_LIMIT,
{
    let ghost w = weights@;
    let ghost c = cov_matrix.entries();
    let n = weights.len();
    proof {
        lemma_sum_to_nonneg(w, n as int);
    }

    let mut acc: i128 = 0;
    let mut i: usize = 0;
    while i < n
        invariant
            n == w.len(),
            w == weights@,
            mean_returns@.len() == n,
            forall|k: int| 0 <= k < n ==> 0 <= #[trigger] w[k] <= SCALE,
            sum_to(w, n as int) <= SCALE,
            forall|k: int|
                0 <= k < n ==> -ENTRY_LIMIT <= #[trigger] mean_returns@[k] <= ENTRY_LIMIT,
            0 <= i <= n,
            acc == dot_to(w, mean_returns@, i as int),
            -(ENTRY_LIMIT * sum_to(w, i as int)) <= acc <= ENTRY_LIMIT * sum_to(w, i as int),
            0 <= sum_to(w, i as int) <= SCALE,
        decreases n - i,
    {
        let wi = weights[i];
        let mi = mean_returns[i];
        proof {
            assert(-(wi * ENTRY_LIMIT) <= wi * mi <= wi * ENTRY_LIMIT) by (nonlinear_arith)
                requires
                    0 <= wi,
                    -ENTRY_LIMIT <= mi <= ENTRY_LIMIT,
            ;
            lemma_sum_to_nonneg(w, i as int);
            lemma_sum_to_mono(w, i + 1, n as int);
            lemma_sum_to_nonneg(w, i + 1);
        }
        acc = acc + (wi as i128) * (mi as i128);
        i += 1;
    }
    let ret128 = div_trunc_i128(acc, SCALE as i128);
    proof {
        lemma_div_trunc_bound(acc as int, SCALE as int, ENTRY_LIMIT as int);
    }
    let ret: i64 = ret128 as i64;

    let mut qacc: i128 = 0;
    let mut i: usize = 0;
    while i < n
        invariant
            n == w.len(),
            w == weights@,
            c == cov_matrix.entries(),
            cov_matrix.wf(),
            cov_matrix.rows@.len() == cov_matrix.cols,
            cov_matrix.cols == n,
            forall|k: int| 0 <= k < n ==> 0 <= #[trigger] w[k] <= SCALE,
            sum_to(w, n as int) <= SCALE,
            forall|k: int, l: int|
                0 <= k < n && 0 <= l < n ==> -COV_LIMIT <= #[trigger] cov_matrix.entry(k, l)
                    <= COV_LIMIT,
            0 <= i <= n,
            qacc == qsum_to(c, w, i as int),
            -(COV_LIMIT * sum_to(w, i as int)) <= qacc <= COV_LIMIT * sum_to(w, i as int),
            0 <= sum_to(w, i as int) <= SCALE,
        decreases n - i,
    {
        let mut racc: i128 = 0;
        let mut j: usize = 0;
        while j < n
            invariant
                n == w.len(),
                w == weights@,
                c == cov_matrix.entries(),
                cov_matrix.wf(),
                cov_matrix.rows@.len() == cov_matrix.cols,
                cov_matrix.cols == n,
                0 <= i < n,
                forall|k: int| 0 <= k < n ==> 0 <= #[trigger] w[k] <= SCALE,
                sum_to(w, n as int) <= SCALE,
                forall|k: int, l: int|
                    0 <= k < n && 0 <= l < n ==> -COV_LIMIT <= #[trigger] cov_matrix.entry(k, l)
                        <= COV_LIMIT,
                0 <= j <= n,
                racc == dot_to(c[i as int], w, j as int),
                -(COV_LIMIT * sum_to(w, j as int)) <= racc <= COV_LIMIT * sum_to(w, j as int),
                0 <= sum_to(w, j as int) <= SCALE,
            decreases n - j,
        {
            let cij = cov_matrix.get(i, j);
            let wj = weights[j];
            proof {
                assert(c[i as int][j as int] == cov_matrix.entry(i as int, j as int));
                assert(-(wj * COV_LIMIT) <= cij * wj <= wj * COV_LIMIT) by (nonlinear_arith)
                    requires
                        0 <= wj,
                        -COV_LIMIT <= cij <= COV_LIMIT,
                ;
                lemma_sum_to_nonneg(w, j as int);
                lemma_sum_to_mono(w, j + 1, n as int);
                lemma_sum_to_nonneg(w, j + 1);
            }
            racc = racc + (cij as i128) * (wj as i128);
            j += 1;
        }
        let row128 = div_trunc_i128(racc, SCALE as i128);
        proof {
            lemma_div_trunc_bound(racc as int, SCALE as int, COV_LIMIT as int);
            assert(row128 == row_mix(c[i as int], w));
        }
        let wi = weights[i];
        proof {
            assert(-(wi * COV_LIMIT) <= wi * row128 <= wi * COV_LIMIT) by (nonlinear_arith)
                requires
                    0 <= wi,
                    -COV_LIMIT <= row128 <= COV_LIMIT,
            ;
            lemma_sum_to_nonneg(w, i as int);
            lemma_sum_to_mono(w, i + 1, n as int);
            lemma_sum_to_nonneg(w, i + 1);
        }
        qacc = qacc + (wi as i128) * row128;
        i += 1;
    }
    let t = div_trunc_i128(qacc, SCALE as i128);
    proof {
        lemma_div_trunc_bound(qacc as int, SCALE as int, COV_LIMIT as int);
        assert(t == variance_of(c, w));
    }
    let vol: i64 = if t <= 0 {
        0
    } else {
        let x: u128 = (t as u128) * (SCALE as u128);
        assert(x == t * SCALE);
        let rt = isqrt_u128(x);
        proof {
            assert(rt < 30_000_000_000_000) by (nonlinear_arith)
                requires
                    rt * rt <= x,
                    x <= 800_000_000_000_000_000_000_000_000,
                    rt >= 0,
            ;
        }
        rt as i64
    };
    (ret, vol)
}

} // verus!
