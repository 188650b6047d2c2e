use vstd::prelude::*;
use crate::samples::{SAMPLE_LIMIT, valid_samples};

verus! {

/// Sum of the squared amplitudes of a frame.
pub open spec fn sum_squares(s: Seq<i64>) -> int
    decreases s.len(),
{
    if s.len() == 0 {
        0
    } else {
        sum_squares(s.drop_last()) + s.last() * s.last()
    }
}

/// Mean of the squared amplitudes, rounded down; 0 for an empty frame.
pub open spec fn mean_square(s: Seq<i64>) -> int {
    if s.len() == 0 {
        0
    } else {
        sum_squares(s) / (s.len() as int)
    }
}

/// `r` is the integer square root of `x`, rounded down.
pub open spec fn is_floor_sqrt(x: int, r: int) -> bool {
    0 <= r && r * r <= x && x < (r + 1) * (r + 1)
}

/// The integer square root, rounded down.
pub closed spec fn floor_sqrt(x: int) -> int {
    choose|r: int| is_floor_sqrt(x, r)
}

/// Every non-negative integer has a floor square root, and `floor_sqrt`
/// denotes it.
pub proof fn lemma_floor_sqrt(x: int)
    requires
        x >= 0,
    ensures
        is_floor_sqrt(x, floor_sqrt(x)),
    decreases x,
{
    if x == 0 {
        assert(is_floor_sqrt(0, 0));
    } else {
        lemma_floor_sqrt(x - 1);
        let r = floor_sqrt(x - 1);
        if x < (r + 1) * (r + 1) {
            assert(is_floor_sqrt(x, r));
        } else {
            assert((r + 1) * (r + 1) < (r + 2) * (r + 2)) by (nonlinear_arith)
                requires r >= 0;
            assert(is_floor_sqrt(x, r + 1));
        }
    }
}

/// The floor square root is unique.
pub proof fn lemma_floor_sqrt_unique(x: int, r: int)
    requires
        is_floor_sqrt(x, r),
    ensures
        r == floor_sqrt(x),
{
    lemma_floor_sqrt(x);
    let q = floor_sqrt(x);
    if r < q {
        assert((r + 1) * (r + 1) <= q * q) by (nonlinear_arith)
            requires 0 <= r, r < q;
    }
    if q < r {
        assert((q + 1) * (q + 1) <= r * r) by (nonlinear_arith)
            requires 0 <= q, q < r;
    }
}

/// RMS energy of a frame: the floor square root of the mean square
/// amplitude; 0 for an empty frame.
pub open spec fn rms_of(s: Seq<i64>) -> int {
    floor_sqrt(mean_square(s))
}

/// The sum of squares is never negative.
pub proof fn lemma_sum_squares_nonneg(s: Seq<i64>)
    ensures
        sum_squares(s) >= 0,
    decreases s.len(),
{
    if s.len() > 0 {
        lemma_sum_squares_nonneg(s.drop_last());
        let a = s.last();
        assert(a * a >= 0) by (nonlinear_arith);
    }
}

/// Over valid samples the sum of squares is bounded by the frame length
/// times the largest admissible square.
pub proof fn lemma_sum_squares_bound(s: Seq<i64>)
    requires
        valid_samples(s),
    ensures
        sum_squares(s) <= s.len() * (SAMPLE_LIMIT * SAMPLE_LIMIT),
    decreases s.len(),
{
    if s.len() > 0 {
        assert(valid_samples(s.drop_last()));
        lemma_sum_squares_bound(s.drop_last());
        let a = s.last();
        assert(a * a <= SAMPLE_LIMIT * SAMPLE_LIMIT) by (nonlinear_arith)
            requires -SAMPLE_LIMIT <= a && a <= SAMPLE_LIMIT;
        assert(s.len() * (SAMPLE_LIMIT * SAMPLE_LIMIT) == (s.len() - 1)
            * (SAMPLE_LIMIT * SAMPLE_LIMIT) + SAMPLE_LIMIT * SAMPLE_LIMIT)
            by (nonlinear_arith);
    }
}

/// The mean square of a frame of valid samples stays within the largest
/// admissible square.
pub proof fn lemma_mean_square_bound(s: Seq<i64>)
    requires
        valid_samples(s),
    ensures
        0 <= mean_square(s) <= SAMPLE_LIMIT * SAMPLE_LIMIT,
{
    if s.len() > 0 {
        lemma_sum_squares_nonneg(s);
        lemma_sum_squares_bound(s);
        let n = s.len() as int;
        let m = SAMPLE_LIMIT * SAMPLE_LIMIT;
        vstd::arithmetic::div_mod::lemma_div_pos_is_pos(sum_squares(s), n);
        vstd::arithmetic::div_mod::lemma_div_is_ordered(sum_squares(s), n * m, n);
        vstd::arithmetic::div_mod::lemma_div_multiples_vanish(m, n);
    }
}

/// Integer square root by bisection.
fn isqrt(x: u64) -> (r: u64)
    requires
        x as int <= SAMPLE_LIMIT * SAMPLE_LIMIT,
    ensures
        is_floor_sqrt(x as int, r as int),
{
    let mut lo: u64 = 0;
    let mut hi: u64 = (SAMPLE_LIMIT as u64) + 1;
    assert((SAMPLE_LIMIT as u64 + 1) * (SAMPLE_LIMIT as u64 + 1) > SAMPLE_LIMIT * SAMPLE_LIMIT)
        by (nonlinear_arith);
    while lo + 1 < hi
        invariant
            lo < hi,
            hi <= (SAMPLE_LIMIT as u64) + 1,
            (lo * lo) as int <= x as int,
            (x as int) < (hi * hi) as int,
        decreases hi - lo,
    {
        let mid: u64 = lo + (hi - lo) / 2;
        assert(mid * mid <= 0x1000_0000_0000_0000) by (nonlinear_arith)
            requires mid <= 16_000_001u64;
        if mid * mid <= x {
            lo = mid;
        } else {
            hi = mid;
        }
    }
    lo
}

/// RMS energy of the frame `samples[start..end]`, in the same fixed-point
/// units as the samples themselves.
pub fn rms_range(samples: &Vec<i64>, start: usize, end: usize) -> (r: i64)
    requires
        start <= end <= samples@.len(),
        valid_samples(samples@),
    ensures
        r as int == rms_of(samples@.subrange(start as int, end as int)),
        0 <= r <= SAMPLE_LIMIT,
{
    let ghost whole = samples@.subrange(start as int, end as int);
    if start == end {
        proof {
            assert(whole.len() == 0);
            lemma_floor_sqrt_unique(0, 0);
        }
        return 0;
    }
    let mut acc: u128 = 0;
    let mut i: usize = start;
    while i < end
        invariant
            start <= i <= end <= samples@.len(),
            valid_samples(samples@),
            acc as int == sum_squares(samples@.subrange(start as int, i as int)),
            acc as int <= (i - start) * (SAMPLE_LIMIT * SAMPLE_LIMIT),
        decreases end - i,
    {
        let s: i64 = samples[i];
        assert(s * s <= SAMPLE_LIMIT * SAMPLE_LIMIT && s * s >= 0) by (nonlinear_arith)
            requires -SAMPLE_LIMIT <= s && s <= SAMPLE_LIMIT;
        let sq: i64 = s * s;
        proof {
            let pre = samples@.subrange(start as int, i as int);
            let post = samples@.subrange(start as int, i + 1 as int);
            assert(post.drop_last() =~= pre);
            assert(post.last() == samples@[i as int]);
            assert((i + 1 - start) * (SAMPLE_LIMIT * SAMPLE_LIMIT) == (i - start)
                * (SAMPLE_LIMIT * SAMPLE_LIMIT) + SAMPLE_LIMIT * SAMPLE_LIMIT)
                by (nonlinear_arith);
            assert((i - start) * (SAMPLE_LIMIT * SAMPLE_LIMIT) <= (end - start)
                * (SAMPLE_LIMIT * SAMPLE_LIMIT)) by (nonlinear_arith)
                requires 0 <= i - start <= end - start;
        }
        acc = acc + (sq as u128);
        i = i + 1;
    }
    proof {
        assert(samples@.subrange(start as int, end as int) =~= whole);
        lemma_mean_square_bound(whole);
        let n = (end - start) as int;
        vstd::arithmetic::div_mod::lemma_div_pos_is_pos(sum_squares(whole), n);
    }
    let n: u128 = (end - start) as u128;
    let mean: u128 = acc / n;
    proof {
        assert(mean as int == mean_square(whole));
    }
    let r: u64 = isqrt(mean as u64);
    proof {
        lemma_floor_sqrt_unique(mean_square(whole), r as int);
        assert(r as int * r as int <= SAMPLE_LIMIT * SAMPLE_LIMIT);
        assert(r as int <= SAMPLE_LIMIT) by (nonlinear_arith)
            requires 0 <= r as int, r as int * r as int <= SAMPLE_LIMIT * SAMPLE_LIMIT;
    }
    r as i64
}

/// RMS of an all-zero frame is exactly zero.
pub proof fn lemma_rms_all_zero(s: Seq<i64>)
    requires
        forall|i: int| 0 <= i < s.len() ==> s[i] == 0,
    ensures
        rms_of(s) == 0,
    decreases s.len(),
{
    if s.len() == 0 {
        lemma_floor_sqrt_unique(0, 0);
    } else {
        lemma_rms_all_zero(s.drop_last());
        assert(sum_squares(s) == sum_squares(s.drop_last()));
        assert(sum_squares(s.drop_last()) == 0) by {
            lemma_sum_squares_zero(s.drop_last());
        }
        vstd::arithmetic::div_mod::lemma_div_of0(s.len() as int);
        lemma_floor_sqrt_unique(0, 0);
    }
}

/// The sum of squares of an all-zero frame is zero.
pub proof fn lemma_sum_squares_zero(s: Seq<i64>)
    requires
        forall|i: int| 0 <= i < s.len() ==> s[i] == 0,
    ensures
        sum_squares(s) == 0,
    decreases s.len(),
{
    if s.len() > 0 {
        lemma_sum_squares_zero(s.drop_last());
    }
}

/// RMS of a frame holding one constant amplitude `a` throughout is
/// exactly the magnitude of `a`.
pub proof fn lemma_rms_constant(s: Seq<i64>, a: i64)
    requires
        s.len() > 0,
        forall|i: int| 0 <= i < s.len() ==> s[i] == a,
    ensures
        rms_of(s) == vstd::math::abs(a as int),
{
    let n = s.len() as int;
    let m = vstd::math::abs(a as int) as int;
    lemma_sum_squares_constant(s, a);
    assert(a as int * a as int == m * m) by (nonlinear_arith)
        requires m == vstd::math::abs(a as int);
    vstd::arithmetic::div_mod::lemma_div_multiples_vanish(m * m, n);
    assert(mean_square(s) == m * m);
    assert(m * m < (m + 1) * (m + 1)) by (nonlinear_arith)
        requires m >= 0;
    lemma_floor_sqrt_unique(m * m, m);
}

/// The sum of squares of a constant frame is the length times the square.
pub proof fn lemma_sum_squares_constant(s: Seq<i64>, a: i64)
    requires
        forall|i: int| 0 <= i < s.len() ==> s[i] == a,
    ensures
        sum_squares(s) == s.len() * (a as int * a as int),
    decreases s.len(),
{
    if s.len() == 0 {
        assert(s.len() * (a as int * a as int) == 0) by (nonlinear_arith)
            requires s.len() == 0;
    } else {
        lemma_sum_squares_constant(s.drop_last(), a);
        assert(s.len() * (a as int * a as int) == (s.len() - 1) * (a as int * a as int)
            + a as int * a as int) by (nonlinear_arith);
    }
}

} // verus!
