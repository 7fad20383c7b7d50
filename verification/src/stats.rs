use vstd::prelude::*;

use crate::num::{div_trunc, div_trunc_i128, sum_to, lemma_div_trunc_bound, SCALE};
use crate::matrix::Matrix;

verus! {

/// Largest admitted magnitude of a fixed-point return entry
/// (RATIO_LIMIT * SCALE), chosen so that every intermediate product in the
/// statistics below fits the machine integers it is computed in.
pub const ENTRY_LIMIT: i64 = 10_000_000_000_000;

/// Largest admitted one-period price ratio.
pub const RATIO_LIMIT: i64 = 10_000;

/// Bound that the covariance entries are proved to respect.
pub const COV_LIMIT: i64 = 800_000_000_000_000_000;

/// Largest admitted number of matrix rows.
pub const ROW_LIMIT: usize = 1_000_000_000;

/// Column j of a row-major matrix.
pub open spec fn col_of(m: Seq<Seq<i64>>, j: int) -> Seq<i64> {
    Seq::new(m.len(), |i: int| m[i][j])
}

/// Arithmetic mean of a column, rounded toward zero.
pub open spec fn mean_of(s: Seq<i64>) -> int
    recommends
        s.len() >= 1,
{
    div_trunc(sum_to(s, s.len() as int), s.len() as int)
}

/// Sum of the first k centered cross products of two columns.
pub open spec fn cross_to(a: Seq<i64>, b: Seq<i64>, ma: int, mb: int, k: int) -> int
    recommends
        0 <= k <= a.len(),
        k <= b.len(),
    decreases k,
{
    if k <= 0 {
        0
    } else {
        cross_to(a, b, ma, mb, k - 1) + (a[k - 1] - ma) * (b[k - 1] - mb)
    }
}

/// Bessel-corrected sample covariance of two equally long columns, in
/// fixed-point scale (the raw cross sum carries scale SCALE^2, so the
/// divisor carries one factor of SCALE).
pub open spec fn cov_of(a: Seq<i64>, b: Seq<i64>) -> int
    recommends
        a.len() == b.len(),
        a.len() >= 2,
{
    div_trunc(
        cross_to(a, b, mean_of(a), mean_of(b), a.len() as int),
        (a.len() - 1) * SCALE,
    )
}

/// The mean-return vector of a return matrix.
pub open spec fn means_of(m: Seq<Seq<i64>>, cols: int) -> Seq<i64> {
    Seq::new(cols as nat, |j: int| mean_of(col_of(m, j)) as i64)
}

/// The covariance matrix of a return matrix.
pub open spec fn cov_mat_of(m: Seq<Seq<i64>>, cols: int) -> Seq<Seq<i64>> {
    Seq::new(cols as nat, |i: int| Seq::new(cols as nat, |j: int| cov_of(col_of(m, i), col_of(m, j)) as i64))
}

/// Simple one-period return of a price pair, in fixed point:
/// price(t) / price(t-1) - 1.
pub open spec fn return_of(p1: i64, p0: i64) -> int
    recommends
        p0 > 0,
        p1 > 0,
{
    (p1 * SCALE) / (p0 as int) - SCALE
}

/// The full return matrix of a price matrix.
pub open spec fn returns_of(p: Seq<Seq<i64>>, cols: int) -> Seq<Seq<i64>>
    recommends
        p.len() >= 2,
{
    Seq::new((p.len() - 1) as nat, |i: int| Seq::new(cols as nat, |j: int| return_of(p[i + 1][j], p[i][j]) as i64))
}

/// The one-period price ratio at row i, column j is within RATIO_LIMIT.
pub open spec fn price_step_ok(p: Seq<Seq<i64>>, i: int, j: int) -> bool {
    p[i + 1][j] <= RATIO_LIMIT * p[i][j]
}

/// Every entry has magnitude at most ENTRY_LIMIT.
pub open spec fn entries_bounded(m: Seq<Seq<i64>>, cols: int) -> bool {
    forall|i: int, j: int|
        0 <= i < m.len() && 0 <= j < cols ==> -ENTRY_LIMIT <= #[trigger] m[i][j] <= ENTRY_LIMIT
}

/// Converts a price matrix into the period-over-period simple-return matrix:
/// entry (i, j) is price(i+1, j) / price(i, j) - 1 in fixed point, rounded
/// toward zero.  Prices must be positive and each one-period ratio at most
/// RATIO_LIMIT, so that every return fits the entry bound.
pub fn calculate_returns(prices: &Matrix) -> (ret: Matrix)
    requires
        prices.wf(),
        prices.rows@.len() >= 2,
        prices.cols >= 1,
        forall|i: int, j: int|
            0 <= i < prices.rows@.len() && 0 <= j < prices.cols ==> 0 < #[trigger] prices.entry(i, j),
        forall|i: int, j: int|
            0 <= i < prices.rows@.len() - 1 && 0 <= j < prices.cols ==> #[trigger] price_step_ok(
                prices.entries(),
                i,
                j,
            ),
    ensures
        ret.wf(),
        ret.cols == prices.cols,
        ret.rows@.len() == prices.rows@.len() - 1,
        forall|i: int, j: int|
            0 <= i < ret.rows@.len() && 0 <= j < ret.cols ==> #[trigger] ret.entry(i, j)
                == return_of(prices.entry(i + 1, j), prices.entry(i, j)),
        ret.entries() =~~= returns_of(prices.entries(), prices.cols as int),
        entries_bounded(ret.entries(), ret.cols as int),
{
    let ghost p = prices.entries();
    let n = prices.nrows();
    let cols = prices.ncols();
    let mut out: Vec<Vec<i64>> = Vec::new();
    let mut i: usize = 0;
    while i < n - 1
        invariant
            prices.wf(),
            n == prices.rows@.len(),
            cols == prices.cols,
            p == prices.entries(),
            2 <= n,
            1 <= cols,
            forall|r: int, j: int|
                0 <= r < n && 0 <= j < cols ==> 0 < #[trigger] prices.entry(r, j),
            forall|r: int, j: int|
                0 <= r < n - 1 && 0 <= j < cols ==> #[trigger] price_step_ok(p, r, j),
            0 <= i <= n - 1,
            out@.len() == i,
            forall|r: int| 0 <= r < i ==> (#[trigger] out@[r])@.len() == cols,
            forall|r: int, j: int|
                0 <= r < i && 0 <= j < cols ==> #[trigger] out@[r]@[j]
                    == return_of(prices.entry(r + 1, j), prices.entry(r, j)),
            forall|r: int, j: int|
                0 <= r < i && 0 <= j < cols ==> -ENTRY_LIMIT <= #[trigger] out@[r]@[j] <= ENTRY_LIMIT,
        decreases n - 1 - i,
    {
        let mut row: Vec<i64> = Vec::new();
        let mut j: usize = 0;
        while j < cols
            invariant
                prices.wf(),
                n == prices.rows@.len(),
                cols == prices.cols,
                p == prices.entries(),
                2 <= n,
                0 <= i < n - 1,
                forall|r: int, jj: int|
                    0 <= r < n && 0 <= jj < cols ==> 0 < #[trigger] prices.entry(r, jj),
                forall|r: int, jj: int|
                    0 <= r < n - 1 && 0 <= jj < cols ==> #[trigger] price_step_ok(p, r, jj),
                0 <= j <= cols,
                row@.len() == j,
                forall|jj: int|
                    0 <= jj < j ==> #[trigger] row@[jj]
                        == return_of(prices.entry(i + 1, jj), prices.entry(i as int, jj)),
                forall|jj: int| 0 <= jj < j ==> -ENTRY_LIMIT <= #[trigger] row@[jj] <= ENTRY_LIMIT,
            decreases cols - j,
        {
            let p0 = prices.get(i, j);
            let p1 = prices.get(i + 1, j);
            assert(price_step_ok(p, i as int, j as int));
            assert(p1 <= RATIO_LIMIT * p0);
            let num: u128 = (p1 as u128) * (SCALE as u128);
            let q: u128 = num / (p0 as u128);
            proof {
                let ub: int = RATIO_LIMIT * SCALE;
                assert(p1 * SCALE <= (ub * p0)) by (nonlinear_arith)
                    requires
                        p1 <= RATIO_LIMIT * p0,
                        p0 >= 1,
                        ub == RATIO_LIMIT * SCALE,
                        SCALE >= 1,
                        RATIO_LIMIT >= 1,
                ;
                vstd::arithmetic::div_mod::lemma_div_is_ordered(p1 * SCALE, ub * p0, p0 as int);
                vstd::arithmetic::div_mod::lemma_div_multiples_vanish(ub, p0 as int);
                assert(ub * p0 == p0 * ub) by (nonlinear_arith);
                assert((p1 * SCALE) / (p0 as int) <= ub);
                vstd::arithmetic::div_mod::lemma_div_pos_is_pos(p1 * SCALE, p0 as int);
            }
            let v: i64 = (q as i64) - SCALE;
            assert(v == return_of(p1, p0));
            row.push(v);
            j += 1;
        }
        out.push(row);
        i += 1;
    }
    let ret = Matrix { rows: out, cols };
    proof {
        assert(ret.entries() =~~= returns_of(p, cols as int));
    }
    ret
}

/// Arithmetic mean of each column of the return matrix, one pass per column,
/// rounded toward zero.
pub fn mean_per_column(rets: &Matrix) -> (mean: Vec<i64>)
    requires
        rets.wf(),
        1 <= rets.rows@.len() <= ROW_LIMIT,
        rets.cols >= 1,
        entries_bounded(rets.entries(), rets.cols as int),
    ensures
        mean@.len() == rets.cols,
        forall|j: int|
            0 <= j < rets.cols ==> #[trigger] mean@[j] == mean_of(
                col_of(rets.entries(), j),
            ),
        forall|j: int| 0 <= j < rets.cols ==> -ENTRY_LIMIT <= #[trigger] mean@[j] <= ENTRY_LIMIT,
        mean@ =~= means_of(rets.entries(), rets.cols as int),
{
    let ghost m = rets.entries();
    let n = rets.nrows();
    let cols = rets.ncols();
    let mut mean: Vec<i64> = Vec::new();
    let mut j: usize = 0;
    while j < cols
        invariant
            rets.wf(),
            m == rets.entries(),
            n == rets.rows@.len(),
            cols == rets.cols,
            1 <= n <= ROW_LIMIT,
            entries_bounded(m, cols as int),
            0 <= j <= cols,
            mean@.len() == j,
            forall|jj: int| 0 <= jj < j ==> #[trigger] mean@[jj] == mean_of(col_of(m, jj)),
            forall|jj: int| 0 <= jj < j ==> -ENTRY_LIMIT <= #[trigger] mean@[jj] <= ENTRY_LIMIT,
        decreases cols - j,
    {
        let ghost c = col_of(m, j as int);
        let mut acc: i128 = 0;
        let mut i: usize = 0;
        while i < n
            invariant
                rets.wf(),
                m == rets.entries(),
                n == rets.rows@.len(),
                cols == rets.cols,
                1 <= n <= ROW_LIMIT,
                entries_bounded(m, cols as int),
                0 <= j < cols,
                c == col_of(m, j as int),
                0 <= i <= n,
                acc == sum_to(c, i as int),
                -(i * ENTRY_LIMIT) <= acc <= i * ENTRY_LIMIT,
            decreases n - i,
        {
            let x = rets.get(i, j);
            assert(x == c[i as int]);
            acc = acc + (x as i128);
            i += 1;
        }
        let v = div_trunc_i128(acc, n as i128);
        proof {
            lemma_div_trunc_bound(acc as int, n as int, ENTRY_LIMIT as int);
        }
        mean.push(v as i64);
        j += 1;
    }
    mean
}

/// Sample covariance matrix of the return matrix: two-pass (means first,
/// then centered cross products), divisor rows - 1, both triangles computed
/// independently.
pub fn covariance_matrix(rets: &Matrix) -> (cov: Matrix)
    requires
        rets.wf(),
        2 <= rets.rows@.len() <= ROW_LIMIT,
        rets.cols >= 1,
        entries_bounded(rets.entries(), rets.cols as int),
    ensures
        cov.wf(),
        cov.cols == rets.cols,
        cov.rows@.len() == rets.cols,
        forall|i: int, j: int|
            0 <= i < rets.cols && 0 <= j < rets.cols ==> #[trigger] cov.entry(i, j)
                == cov_of(col_of(rets.entries(), i), col_of(rets.entries(), j)),
        cov.entries() =~~= cov_mat_of(rets.entries(), rets.cols as int),
        forall|i: int, j: int|
            0 <= i < rets.cols && 0 <= j < rets.cols ==> -COV_LIMIT <= #[trigger] cov.entry(
                i,
                j,
            ) <= COV_LIMIT,
        forall|i: int, j: int|
            0 <= i < rets.cols && 0 <= j < rets.cols ==> #[trigger] cov.entry(i, j)
                == cov.entry(j, i),
{
    let ghost m = rets.entries();
    let n = rets.nrows();
    let cols = rets.ncols();
    let mean = mean_per_column(rets);
    let mut out: Vec<Vec<i64>> = Vec::new();
    let mut i: usize = 0;
    while i < cols
        invariant
            rets.wf(),
            m == rets.entries(),
            n == rets.rows@.len(),
            cols == rets.cols,
            2 <= n <= ROW_LIMIT,
            1 <= cols,
            entries_bounded(m, cols as int),
            mean@.len() == cols,
            forall|jj: int| 0 <= jj < cols ==> #[trigger] mean@[jj] == mean_of(col_of(m, jj)),
            forall|jj: int| 0 <= jj < cols ==> -ENTRY_LIMIT <= #[trigger] mean@[jj] <= ENTRY_LIMIT,
            0 <= i <= cols,
            out@.len() == i,
            forall|r: int| 0 <= r < i ==> (#[trigger] out@[r])@.len() == cols,
            forall|r: int, jj: int|
                0 <= r < i && 0 <= jj < cols ==> #[trigger] out@[r]@[jj] == cov_of(
                    col_of(m, r),
                    col_of(m, jj),
                ),
            forall|r: int, jj: int|
                0 <= r < i && 0 <= jj < cols ==> -COV_LIMIT <= #[trigger] out@[r]@[jj] <= COV_LIMIT,
        decreases cols - i,
    {
        let mut row: Vec<i64> = Vec::new();
        let mut j: usize = 0;
        while j < cols
            invariant
                rets.wf(),
                m == rets.entries(),
                n == rets.rows@.len(),
                cols == rets.cols,
                2 <= n <= ROW_LIMIT,
                1 <= cols,
                entries_bounded(m, cols as int),
                mean@.len() == cols,
                forall|jj: int| 0 <= jj < cols ==> #[trigger] mean@[jj] == mean_of(col_of(m, jj)),
                forall|jj: int|
                    0 <= jj < cols ==> -ENTRY_LIMIT <= #[trigger] mean@[jj] <= ENTRY_LIMIT,
                0 <= i < cols,
                0 <= j <= cols,
                row@.len() == j,
                forall|jj: int|
                    0 <= jj < j ==> #[trigger] row@[jj] == cov_of(
                        col_of(m, i as int),
                        col_of(m, jj),
                    ),
                forall|jj: int| 0 <= jj < j ==> -COV_LIMIT <= #[trigger] row@[jj] <= COV_LIMIT,
            decreases cols - j,
        {
            let ghost a = col_of(m, i as int);
            let ghost b = col_of(m, j as int);
            let ghost ma = mean_of(a);
            let ghost mb = mean_of(b);
            let mi = mean[i];
            let mj = mean[j];
            let mut acc: i128 = 0;
            let mut r: usize = 0;
            while r < n
                invariant
                    rets.wf(),
                    m == rets.entries(),
                    n == rets.rows@.len(),
                    cols == rets.cols,
                    2 <= n <= ROW_LIMIT,
                    entries_bounded(m, cols as int),
                    0 <= i < cols,
                    0 <= j < cols,
                    a == col_of(m, i as int),
                    b == col_of(m, j as int),
                    mi == ma,
                    mj == mb,
                    -ENTRY_LIMIT <= mi <= ENTRY_LIMIT,
                    -ENTRY_LIMIT <= mj <= ENTRY_LIMIT,
                    0 <= r <= n,
                    acc == cross_to(a, b, ma, mb, r as int),
                    -(r * 400_000_000_000_000_000_000_000_000) <= acc <= r
                        * 400_000_000_000_000_000_000_000_000,
                decreases n - r,
            {
                let xi = rets.get(r, i);
                let xj = rets.get(r, j);
                assert(xi == a[r as int]);
                assert(xj == b[r as int]);
                assert(-ENTRY_LIMIT <= xi <= ENTRY_LIMIT && -ENTRY_LIMIT <= xj <= ENTRY_LIMIT);
                let di: i64 = xi - mi;
                let dj: i64 = xj - mj;
                proof {
                    assert(-400_000_000_000_000_000_000_000_000 <= (di as int) * (dj as int)
                        <= 400_000_000_000_000_000_000_000_000) by (nonlinear_arith)
                        requires
                            -20_000_000_000_000 <= di <= 20_000_000_000_000,
                            -20_000_000_000_000 <= dj <= 20_000_000_000_000,
                    ;
                }
                let prod: i128 = (di as i128) * (dj as i128);
                acc = acc + prod;
                r += 1;
            }
            let d: i128 = (n as i128 - 1) * (SCALE as i128);
            let v = div_trunc_i128(acc, d);
            proof {
                assert(n * 400_000_000_000_000_000_000_000_000 <= (n - 1)
                    * 800_000_000_000_000_000_000_000_000);
                assert(COV_LIMIT * ((n - 1) * SCALE) == (n - 1)
                    * 800_000_000_000_000_000_000_000_000) by (nonlinear_arith)
                    requires
                        n >= 2,
                ;
                lemma_div_trunc_bound(acc as int, d as int, COV_LIMIT as int);
            }
            row.push(v as i64);
            j += 1;
        }
        out.push(row);
        i += 1;
    }
    let cov = Matrix { rows: out, cols };
    proof {
        assert(cov.entries() =~~= cov_mat_of(m, cols as int));
        assert forall|i2: int, j2: int|
            0 <= i2 < cols && 0 <= j2 < cols implies #[trigger] cov.entry(i2, j2) == cov.entry(
            j2,
            i2,
        ) by {
            lemma_cov_of_symm(col_of(m, i2), col_of(m, j2));
        }
    }
    cov
}

/// The centered cross-product sum is symmetric in its two columns.
pub proof fn lemma_cross_to_symm(a: Seq<i64>, b: Seq<i64>, ma: int, mb: int, k: int)
    requires
        0 <= k <= a.len(),
        k <= b.len(),
    ensures
        cross_to(a, b, ma, mb, k) == cross_to(b, a, mb, ma, k),
    decreases k,
{
    if k > 0 {
        lemma_cross_to_symm(a, b, ma, mb, k - 1);
        assert((a[k - 1] - ma) * (b[k - 1] - mb) == (b[k - 1] - mb) * (a[k - 1] - ma))
            by (nonlinear_arith);
    }
}

/// Sample covariance is symmetric.
pub proof fn lemma_cov_of_symm(a: Seq<i64>, b: Seq<i64>)
    requires
        a.len() == b.len(),
    ensures
        cov_of(a, b) == cov_of(b, a),
{
    lemma_cross_to_symm(a, b, mean_of(a), mean_of(b), a.len() as int);
}

/// Two identical columns are perfectly correlated: the two diagonal entries
/// of the covariance matrix agree and both off-diagonal entries equal them.
pub proof fn lemma_identical_columns_covariance(m: Seq<Seq<i64>>, cols: int, i: int, j: int)
    requires
        0 <= i < cols,
        0 <= j < cols,
        col_of(m, i) == col_of(m, j),
    ensures
        cov_mat_of(m, cols)[i][j] == cov_mat_of(m, cols)[i][i],
        cov_mat_of(m, cols)[j][i] == cov_mat_of(m, cols)[i][i],
        cov_mat_of(m, cols)[j][j] == cov_mat_of(m, cols)[i][i],
{
    assert(cov_mat_of(m, cols)[i][j] == cov_of(col_of(m, i), col_of(m, j)) as i64);
    assert(cov_mat_of(m, cols)[i][i] == cov_of(col_of(m, i), col_of(m, i)) as i64);
    assert(cov_mat_of(m, cols)[j][i] == cov_of(col_of(m, j), col_of(m, i)) as i64);
    assert(cov_mat_of(m, cols)[j][j] == cov_of(col_of(m, j), col_of(m, j)) as i64);
}

} // verus!
