//! Efficient-frontier estimation by Monte-Carlo sampling of portfolio
//! weights, carried out in fixed-point arithmetic: prices, returns and
//! statistics are integers scaled by [`SCALE`].

mod num;
mod matrix;
mod stats;
mod perf;
mod sampling;
mod optimizer;

pub use num::{div_trunc, dot_to, sqrt_floor, sum_to, usum_to, SCALE};

pub use matrix::Matrix;

pub use stats::{calculate_returns, covariance_matrix, mean_per_column};
pub use stats::{col_of, cov_mat_of, cov_of, entries_bounded, mean_of, means_of, price_step_ok,
    return_of, returns_of};
pub use stats::{lemma_cov_of_symm, lemma_identical_columns_covariance};
pub use stats::{COV_LIMIT, ENTRY_LIMIT, RATIO_LIMIT, ROW_LIMIT};

pub use perf::{portfolio_performance, sharpe_exceeds};
pub use perf::{expected_ret, sharpe_gt, variance_of, volatility_of, weights_ok};
pub use perf::lemma_sharpe_gt_not_above;
pub use perf::VOL_LIMIT;

pub use sampling::{lemma_single_asset_weights, normalize_weights};

pub use optimizer::{optimize_portfolio, run_optimization};
pub use optimizer::sample_ok;
pub use optimizer::NUM_TRIALS;
