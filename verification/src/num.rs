use vstd::prelude::*;

verus! {

/// Fixed-point scale: a real quantity x is represented by the integer
/// round(x * SCALE), so SCALE itself stands for 1.0.
pub const SCALE: i64 = 1_000_000_000;

/// Truncating (round-toward-zero) division over mathematical integers,
/// the semantics of Rust's `/` on signed operands with a positive divisor.
pub open spec fn div_trunc(a: int, b: int) -> int
    recommends
        b > 0,
{
    if a >= 0 {
        a / b
    } else {
        -((-a) / b)
    }
}

/// Truncating division of a signed 128-bit value by a positive divisor.
pub fn div_trunc_i128(a: i128, b: i128) -> (r: i128)
    requires
        b > 0,
        a > i128::MIN,
    ensures
        r == div_trunc(a as int, b as int),
{
    if a >= 0 {
        let q: u128 = (a as u128) / (b as u128);
        assert(q == (a as int) / (b as int));
        assert(q <= a as int) by {
            vstd::arithmetic::div_mod::lemma_div_basics_5(a as int, b as int);
        }
        q as i128
    } else {
        let m: i128 = -a;
        let q: u128 = (m as u128) / (b as u128);
        assert(q == (m as int) / (b as int));
        assert(q <= m as int) by {
            vstd::arithmetic::div_mod::lemma_div_basics_5(m as int, b as int);
        }
        -(q as i128)
    }
}

/// Magnitude bound for truncating division: if |a| <= c * b then
/// |div_trunc(a, b)| <= c.
pub proof fn lemma_div_trunc_bound(a: int, b: int, c: int)
    requires
        b > 0,
        0 <= c,
        -(c * b) <= a <= c * b,
    ensures
        -c <= div_trunc(a, b) <= c,
{
    if a >= 0 {
        vstd::arithmetic::div_mod::lemma_div_is_ordered(a, c * b, b);
        vstd::arithmetic::div_mod::lemma_div_multiples_vanish(c, b);
        vstd::arithmetic::div_mod::lemma_div_pos_is_pos(a, b);
    } else {
        vstd::arithmetic::div_mod::lemma_div_is_ordered(-a, c * b, b);
        vstd::arithmetic::div_mod::lemma_div_multiples_vanish(c, b);
        vstd::arithmetic::div_mod::lemma_div_pos_is_pos(-a, b);
    }
}

/// Floor of the square root, defined by primitive recursion.
pub open spec fn sqrt_floor(x: nat) -> nat
    decreases x,
{
    if x == 0 {
        0
    } else {
        let p = sqrt_floor((x - 1) as nat);
        if (p + 1) * (p + 1) <= x {
            p + 1
        } else {
            p
        }
    }
}

/// sqrt_floor(x) is the unique r with r * r <= x < (r + 1) * (r + 1).
pub proof fn lemma_sqrt_floor_bounds(x: nat)
    ensures
        sqrt_floor(x) * sqrt_floor(x) <= x,
        x < (sqrt_floor(x) + 1) * (sqrt_floor(x) + 1),
    decreases x,
{
    let s = sqrt_floor(x);
    if x == 0 {
        assert(s == 0);
        assert(x < (s + 1) * (s + 1)) by (nonlinear_arith)
            requires
                x == 0,
                s == 0,
        ;
    } else {
        lemma_sqrt_floor_bounds((x - 1) as nat);
        let p = sqrt_floor((x - 1) as nat);
        assert(p * p <= x - 1);
        assert(x - 1 < (p + 1) * (p + 1));
        if (p + 1) * (p + 1) <= x {
            assert(s == p + 1);
            assert(s * s <= x && x < (s + 1) * (s + 1)) by (nonlinear_arith)
                requires
                    s == p + 1,
                    (p + 1) * (p + 1) <= x,
                    x <= (p + 1) * (p + 1),
                    p >= 0,
            ;
        } else {
            assert(s == p);
            assert(s * s <= x && x < (s + 1) * (s + 1)) by (nonlinear_arith)
                requires
                    s == p,
                    p * p <= x - 1,
                    x < (p + 1) * (p + 1),
                    p >= 0,
            ;
        }
    }
}

pub proof fn lemma_sqrt_floor_unique(x: nat, r: nat)
    requires
        r * r <= x,
        x < (r + 1) * (r + 1),
    ensures
        r == sqrt_floor(x),
{
    lemma_sqrt_floor_bounds(x);
    let s = sqrt_floor(x);
    assert(r == s) by (nonlinear_arith)
        requires
            r * r <= x,
            x < (r + 1) * (r + 1),
            s * s <= x,
            x < (s + 1) * (s + 1),
            r >= 0,
            s >= 0,
    ;
}

/// 2^60, and its square 2^120: the admitted input range of isqrt_u128.
pub const SQRT_IN_LIMIT: u128 = 1329227995784915872903807060280344576;

pub const SQRT_OUT_LIMIT: u64 = 1152921504606846976;

proof fn lemma_sqrt_limits() by (nonlinear_arith)
    ensures
        (SQRT_OUT_LIMIT as int) * (SQRT_OUT_LIMIT as int) == SQRT_IN_LIMIT as int,
{
}

/// Binary search for the floor of the square root.
pub fn isqrt_u128(x: u128) -> (r: u64)
    requires
        x < SQRT_IN_LIMIT,
    ensures
        r == sqrt_floor(x as nat),
        r * r <= x < (r + 1) * (r + 1),
        r < SQRT_OUT_LIMIT,
{
    proof {
        lemma_sqrt_limits();
    }
    let mut lo: u128 = 0;
    let mut hi: u128 = SQRT_OUT_LIMIT as u128;
    while lo + 1 < hi
        invariant
            0 <= lo < hi <= SQRT_OUT_LIMIT,
            lo * lo <= x,
            x < hi * hi,
        decreases hi - lo,
    {
        let mid: u128 = lo + (hi - lo) / 2;
        assert(lo < mid < hi);
        assert(mid * mid <= hi * hi) by (nonlinear_arith)
            requires
                0 <= mid < hi,
        ;
        assert(hi * hi <= SQRT_IN_LIMIT) by (nonlinear_arith)
            requires
                0 <= hi <= SQRT_OUT_LIMIT,
                (SQRT_OUT_LIMIT as int) * (SQRT_OUT_LIMIT as int) == SQRT_IN_LIMIT as int,
        ;
        if mid * mid <= x {
            lo = mid;
        } else {
            hi = mid;
        }
    }
    assert(hi == lo + 1);
    proof {
        lemma_sqrt_floor_unique(x as nat, lo as nat);
    }
    lo as u64
}

/// Sum of the first k elements of a sequence of machine integers.
pub open spec fn sum_to(s: Seq<i64>, k: int) -> int
    recommends
        0 <= k <= s.len(),
    decreases k,
{
    if k <= 0 {
        0
    } else {
        sum_to(s, k - 1) + s[k - 1]
    }
}

/// Sum of the first k elements of a sequence of unsigned draws.
pub open spec fn usum_to(s: Seq<u64>, k: int) -> int
    recommends
        0 <= k <= s.len(),
    decreases k,
{
    if k <= 0 {
        0
    } else {
        usum_to(s, k - 1) + s[k - 1]
    }
}

/// Dot product of the first k coordinate pairs.
pub open spec fn dot_to(a: Seq<i64>, b: Seq<i64>, k: int) -> int
    recommends
        0 <= k <= a.len(),
        k <= b.len(),
    decreases k,
{
    if k <= 0 {
        0
    } else {
        dot_to(a, b, k - 1) + a[k - 1] * b[k - 1]
    }
}

/// A prefix sum of a nonnegative sequence is at most the full sum.
pub proof fn lemma_sum_to_mono(s: Seq<i64>, j: int, k: int)
    requires
        0 <= j <= k <= s.len(),
        forall|i: int| 0 <= i < s.len() ==> s[i] >= 0,
    ensures
        sum_to(s, j) <= sum_to(s, k),
    decreases k - j,
{
    if j < k {
        lemma_sum_to_mono(s, j, k - 1);
    }
}

/// A prefix sum of a nonnegative sequence is itself nonnegative.
pub proof fn lemma_sum_to_nonneg(s: Seq<i64>, k: int)
    requires
        0 <= k <= s.len(),
        forall|i: int| 0 <= i < s.len() ==> s[i] >= 0,
    ensures
        sum_to(s, k) >= 0,
    decreases k,
{
    if k > 0 {
        lemma_sum_to_nonneg(s, k - 1);
    }
}

/// A prefix sum of draws is at most a longer prefix sum.
pub proof fn lemma_usum_to_mono(s: Seq<u64>, j: int, k: int)
    requires
        0 <= j <= k <= s.len(),
    ensures
        usum_to(s, j) <= usum_to(s, k),
    decreases k - j,
{
    if j < k {
        lemma_usum_to_mono(s, j, k - 1);
    }
}

pub proof fn lemma_usum_to_nonneg(s: Seq<u64>, k: int)
    requires
        0 <= k <= s.len(),
    ensures
        usum_to(s, k) >= 0,
    decreases k,
{
    if k > 0 {
        lemma_usum_to_nonneg(s, k - 1);
    }
}

/// Each draw is at most the sum of a prefix that contains it.
pub proof fn lemma_usum_to_element(s: Seq<u64>, i: int, k: int)
    requires
        0 <= i < k <= s.len(),
    ensures
        s[i] <= usum_to(s, k),
    decreases k,
{
    if i < k - 1 {
        lemma_usum_to_element(s, i, k - 1);
    } else {
        lemma_usum_to_nonneg(s, k - 1);
    }
}

} // verus!
