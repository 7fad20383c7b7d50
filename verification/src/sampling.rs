use vstd::prelude::*;

use crate::num::{
    lemma_usum_to_element, lemma_usum_to_mono, sum_to, usum_to, SCALE,
};
use crate::perf::weights_ok;

verus! {

/// Declares rand::rngs::StdRng so that a generator handle can cross the
/// library's signatures; the library never looks inside it.
#[verifier::external_type_specification]
#[verifier::external_body]
pub struct ExStdRng(rand::rngs::StdRng);

/// Relies on rand::RngExt::random_range over the inclusive range
/// 1..=SCALE: the drawn value lies inside the given bounds.  The draw
/// stands for a uniform sample of (0, 1] in fixed point; keeping it
/// positive keeps the normalizing sum positive.
#[verifier::external_body]
pub(crate) fn draw_unit(rng: &mut rand::rngs::StdRng) -> (r: u64)
    ensures
        1 <= r <= SCALE,
{
    rand::RngExt::random_range(rng, 1u64..=(SCALE as u64))
}

/// Divides each positive draw by the sum of all of them, rounding toward
/// zero, and gives the last asset the remainder, so that the weights sum
/// to exactly SCALE (i.e. 1.0) and each lies in [0, SCALE].
pub fn normalize_weights(draws: &Vec<u64>) -> (w: Vec<i64>)
    requires
        draws@.len() >= 1,
        forall|i: int| 0 <= i < draws@.len() ==> 1 <= #[trigger] draws@[i] <= SCALE,
    ensures
        weights_ok(w@, draws@.len() as int),
        forall|i: int|
            0 <= i < draws@.len() - 1 ==> #[trigger] w@[i] == (draws@[i] * SCALE) / usum_to(
                draws@,
                draws@.len() as int,
            ),
        w@[draws@.len() - 1] == SCALE - sum_to(w@, draws@.len() - 1),
{
    let ghost d = draws@;
    let n = draws.len();
    let mut total: u128 = 0;
    let mut i: usize = 0;
    while i < n
        invariant
            d == draws@,
            n == d.len(),
            forall|k: int| 0 <= k < n ==> 1 <= #[trigger] d[k] <= SCALE,
            0 <= i <= n,
            total == usum_to(d, i as int),
            i <= total <= i * SCALE,
        decreases n - i,
    {
        total = total + (draws[i] as u128);
        i += 1;
    }
    assert(total == usum_to(d, n as int));
    assert(total >= n >= 1);

    let mut w: Vec<i64> = Vec::new();
    let mut psum: i64 = 0;
    let mut i: usize = 0;
    while i < n - 1
        invariant
            d == draws@,
            n == d.len(),
            1 <= n,
            forall|k: int| 0 <= k < n ==> 1 <= #[trigger] d[k] <= SCALE,
            n <= total == usum_to(d, n as int),
            0 <= i <= n - 1,
            w@.len() == i,
            forall|k: int| 0 <= k < i ==> #[trigger] w@[k] == (d[k] * SCALE) / (total as int),
            forall|k: int| 0 <= k < i ==> 0 <= #[trigger] w@[k] <= SCALE,
            psum == sum_to(w@, i as int),
            psum * total <= usum_to(d, i as int) * SCALE,
            0 <= psum <= SCALE,
        decreases n - 1 - i,
    {
        let di = draws[i];
        let num: u128 = (di as u128) * (SCALE as u128);
        let q: u128 = num / total;
        proof {
            lemma_usum_to_element(d, i as int, n as int);
            assert(di * SCALE <= total * SCALE);
            vstd::arithmetic::div_mod::lemma_div_is_ordered(
                di * SCALE,
                (total as int) * SCALE,
                total as int,
            );
            vstd::arithmetic::div_mod::lemma_div_multiples_vanish(SCALE as int, total as int);
            assert((total as int) * SCALE == (total as int) * (SCALE as int));
            assert(q <= SCALE);
            vstd::arithmetic::div_mod::lemma_div_pos_is_pos(di * SCALE, total as int);
        }
        let wi: i64 = q as i64;
        proof {
            vstd::arithmetic::div_mod::lemma_fundamental_div_mod(di * SCALE, total as int);
            assert(wi * total <= di * SCALE) by (nonlinear_arith)
                requires
                    di * SCALE == (total as int) * ((di * SCALE) / (total as int)) + (di * SCALE)
                        % (total as int),
                    0 <= (di * SCALE) % (total as int),
                    wi == (di * SCALE) / (total as int),
            ;
            assert((psum + wi) * total == psum * total + wi * total) by (nonlinear_arith);
            assert(usum_to(d, i + 1) * SCALE == usum_to(d, i as int) * SCALE + d[i as int]
                * SCALE);
            lemma_usum_to_mono(d, i + 1, n as int);
            assert((psum + wi) * total <= usum_to(d, i + 1) * SCALE);
            assert(usum_to(d, i + 1) <= total);
            assert(usum_to(d, i + 1) * SCALE <= (total as int) * SCALE);
            assert(psum + wi <= SCALE) by (nonlinear_arith)
                requires
                    (psum + wi) * total <= (total as int) * SCALE,
                    total >= 1,
                    SCALE >= 1,
            ;
        }
        let ghost w_old = w@;
        w.push(wi);
        proof {
            lemma_sum_to_agree(w_old, w@, i as int);
        }
        psum = psum + wi;
        i += 1;
    }
    proof {
        assert(usum_to(d, n as int) == usum_to(d, (n - 1) as int) + d[n - 1]);
        assert(psum * total <= (total - d[n - 1]) * SCALE);
        assert((total - d[n - 1]) * SCALE <= (total - 1) * SCALE);
        assert(psum < SCALE) by (nonlinear_arith)
            requires
                psum * total <= ((total as int) - 1) * SCALE,
                total >= 1,
                SCALE >= 1,
                psum <= SCALE,
        ;
    }
    let last: i64 = SCALE - psum;
    let ghost w_old = w@;
    w.push(last);
    proof {
        lemma_sum_to_agree(w_old, w@, (n - 1) as int);
        assert(sum_to(w@, n as int) == sum_to(w@, (n - 1) as int) + last);
        assert(sum_to(w@, n as int) == SCALE);
    }
    w
}

/// Prefix sums read only the first k entries, so two sequences that agree
/// there have the same prefix sum.
proof fn lemma_sum_to_agree(a: Seq<i64>, b: Seq<i64>, k: int)
    requires
        0 <= k <= a.len(),
        k <= b.len(),
        forall|i: int| 0 <= i < k ==> a[i] == b[i],
    ensures
        sum_to(a, k) == sum_to(b, k),
    decreases k,
{
    if k > 0 {
        lemma_sum_to_agree(a, b, k - 1);
    }
}

/// With a single asset every normalized weight vector is the unit vector:
/// a lone uniform draw divided by its own sum is always the whole
/// investment, so the weight is exactly SCALE.
pub proof fn lemma_single_asset_weights(w: Seq<i64>)
    requires
        weights_ok(w, 1),
    ensures
        w =~= seq![SCALE as i64],
{
    assert(sum_to(w, 0) == 0);
    assert(sum_to(w, 1) == w[0]);
}

} // verus!
