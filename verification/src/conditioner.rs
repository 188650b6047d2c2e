use vstd::prelude::*;
use vstd::arithmetic::div_mod::{
    lemma_div_pos_is_pos, lemma_fundamental_div_mod, lemma_hoist_over_denominator,
};
use crate::samples::{SAMPLE_LIMIT, valid_sample, valid_samples};

verus! {

/// Amplitude below which the noise gate silences a sample: 0.02 in
/// fixed-point units of `crate::samples::SCALE`.
pub const NOISE_GATE_THRESHOLD: i64 = 20_000;

/// What the noise gate leaves of one sample: silence below the threshold,
/// the sample itself at or above it.
pub open spec fn gated(s: i64) -> i64 {
    if -NOISE_GATE_THRESHOLD < s && s < NOISE_GATE_THRESHOLD {
        0
    } else {
        s
    }
}

/// The noise gate applied to every sample of a buffer.
pub open spec fn gated_seq(s: Seq<i64>) -> Seq<i64> {
    Seq::new(s.len(), |i: int| gated(s[i]))
}

/// Hard noise gate on one sample. A sample whose magnitude lies below the
/// threshold becomes exactly zero; any other passes through unchanged.
pub fn apply_noise_gate(sample: i64) -> (r: i64)
    ensures
        r == gated(sample),
{
    if -NOISE_GATE_THRESHOLD < sample && sample < NOISE_GATE_THRESHOLD {
        0
    } else {
        sample
    }
}

/// The noise gate over a whole buffer, sample by sample, order preserved.
pub fn noise_gate(samples: &Vec<i64>) -> (r: Vec<i64>)
    ensures
        r@ == gated_seq(samples@),
        valid_samples(samples@) ==> valid_samples(r@),
{
    let mut out: Vec<i64> = Vec::new();
    let mut i: usize = 0;
    while i < samples.len()
        invariant
            i <= samples@.len(),
            out@.len() == i,
            forall|k: int| 0 <= k < i ==> out@[k] == gated(#[trigger] samples@[k]),
        decreases samples@.len() - i,
    {
        out.push(apply_noise_gate(samples[i]));
        i = i + 1;
    }
    proof {
        assert(out@ =~= gated_seq(samples@));
    }
    out
}

/// Number of samples the resampler emits: `floor(n * tgt / src)` capped by
/// the edge truncation, which stops once the interpolation window would
/// reach past the final sample.
pub open spec fn resample_len(n: int, src: int, tgt: int) -> int {
    if n == 0 {
        0
    } else if src == tgt {
        n
    } else {
        vstd::math::min(n * tgt / src, ((n - 1) * tgt + src - 1) / src)
    }
}

/// The linearly interpolated output sample at index `i`: the fractional
/// source position is `i * src / tgt`, and the two neighbouring samples
/// are blended by the remainder, rounded down.
pub open spec fn lerp_at(s: Seq<i64>, i: int, src: int, tgt: int) -> int {
    let p = i * src;
    let pf = p / tgt;
    let rem = p % tgt;
    (s[pf] * (tgt - rem) + s[pf + 1] * rem) / tgt
}

/// The whole resampled buffer: unchanged at equal rates, otherwise the
/// interpolated samples up to the truncated length.
pub open spec fn resampled(s: Seq<i64>, src: int, tgt: int) -> Seq<i64> {
    if src == tgt {
        s
    } else {
        Seq::new(resample_len(s.len() as int, src, tgt) as nat, |i: int| lerp_at(s, i, src, tgt) as i64)
    }
}

/// Below the ceiling `(a + b - 1) / b` of `a / b`, multiplying back stays
/// under `a`.
proof fn lemma_below_ceil(i: int, a: int, b: int)
    requires
        b > 0,
        0 <= i,
        i < (a + b - 1) / b,
    ensures
        i * b < a,
{
    let q = (a + b - 1) / b;
    let r = (a + b - 1) % b;
    lemma_fundamental_div_mod(a + b - 1, b);
    assert(a + b - 1 == b * q + r);
    assert(i <= q - 1);
    assert(i * b <= (q - 1) * b) by (nonlinear_arith)
        requires i <= q - 1, b > 0;
    assert((q - 1) * b == b * q - b) by (nonlinear_arith);
}

/// A value below `k * d` divides to below `k`.
proof fn lemma_div_below(x: int, k: int, d: int)
    requires
        d > 0,
        0 <= x,
        x < k * d,
    ensures
        x / d < k,
{
    let q = x / d;
    let r = x % d;
    lemma_fundamental_div_mod(x, d);
    if q >= k {
        assert(d * q >= d * k) by (nonlinear_arith)
            requires d > 0, q >= k;
        assert(d * k == k * d) by (nonlinear_arith);
    }
}

/// Interpolation between two bounded samples stays bounded.
proof fn lemma_lerp_bounded(s1: int, s2: int, rem: int, tgt: int)
    requires
        tgt > 0,
        0 <= rem < tgt,
        -SAMPLE_LIMIT <= s1 <= SAMPLE_LIMIT,
        -SAMPLE_LIMIT <= s2 <= SAMPLE_LIMIT,
    ensures
        -SAMPLE_LIMIT <= (s1 * (tgt - rem) + s2 * rem) / tgt <= SAMPLE_LIMIT,
{
    let num = s1 * (tgt - rem) + s2 * rem;
    assert(-SAMPLE_LIMIT * tgt <= num && num <= SAMPLE_LIMIT * tgt) by (nonlinear_arith)
        requires
            tgt > 0,
            0 <= rem < tgt,
            -SAMPLE_LIMIT <= s1 <= SAMPLE_LIMIT,
            -SAMPLE_LIMIT <= s2 <= SAMPLE_LIMIT,
            num == s1 * (tgt - rem) + s2 * rem;
    assert(num / tgt <= SAMPLE_LIMIT) by {
        assert((-SAMPLE_LIMIT as int) * tgt == -(SAMPLE_LIMIT as int * tgt)) by (nonlinear_arith);
        assert(num + SAMPLE_LIMIT * tgt >= 0);
        assert(num + SAMPLE_LIMIT * tgt < (2 * SAMPLE_LIMIT + 1) * tgt) by (nonlinear_arith)
            requires num <= SAMPLE_LIMIT as int * tgt, tgt > 0;
        lemma_div_below(num + SAMPLE_LIMIT * tgt, 2 * SAMPLE_LIMIT + 1, tgt);
        lemma_hoist_over_denominator(num, SAMPLE_LIMIT as int, tgt as nat);
    }
    assert(num / tgt >= -SAMPLE_LIMIT) by {
        assert((-SAMPLE_LIMIT as int) * tgt == -(SAMPLE_LIMIT as int * tgt)) by (nonlinear_arith);
        assert(num + SAMPLE_LIMIT * tgt >= 0);
        lemma_div_pos_is_pos(num + SAMPLE_LIMIT * tgt, tgt);
        lemma_hoist_over_denominator(num, SAMPLE_LIMIT as int, tgt as nat);
    }
}

/// Linear resampling from `source_rate` to `target_rate`. At equal rates
/// the buffer passes through unchanged; otherwise each output sample is
/// the linear blend of the two source samples around its fractional
/// position, and emission stops early once that position would reach past
/// the final sample.
pub fn resample(samples: &Vec<i64>, source_rate: u32, target_rate: u32) -> (r: Vec<i64>)
    requires
        source_rate >= 1,
        target_rate >= 1,
        valid_samples(samples@),
        samples@.len() * (target_rate as int) + (source_rate as int) <= usize::MAX as int,
    ensures
        r@ == resampled(samples@, source_rate as int, target_rate as int),
        valid_samples(r@),
{
    let n: usize = samples.len();
    if source_rate == target_rate {
        let mut out: Vec<i64> = Vec::new();
        let mut i: usize = 0;
        while i < n
            invariant
                i <= n == samples@.len(),
                out@.len() == i,
                forall|k: int| 0 <= k < i ==> out@[k] == #[trigger] samples@[k],
            decreases n - i,
        {
            out.push(samples[i]);
            i = i + 1;
        }
        proof {
            assert(out@ =~= samples@);
        }
        return out;
    }
    let mut out: Vec<i64> = Vec::new();
    if n == 0 {
        proof {
            assert(out@ =~= resampled(samples@, source_rate as int, target_rate as int));
        }
        return out;
    }
    let src: u64 = source_rate as u64;
    let tgt: u64 = target_rate as u64;
    let out_len: u64 = (n as u64) * tgt / src;
    proof {
        assert((n as int - 1) * (tgt as int) == n as int * (tgt as int) - tgt as int)
            by (nonlinear_arith);
    }
    let ceil_edge: u64 = ((n as u64 - 1) * tgt + src - 1) / src;
    let stop: u64 = if ceil_edge < out_len {
        ceil_edge
    } else {
        out_len
    };
    proof {
        assert(stop == resample_len(n as int, src as int, tgt as int));
    }
    let mut i: u64 = 0;
    while i < stop
        invariant
            0 <= i <= stop,
            n == samples@.len(),
            1 <= src <= u32::MAX,
            1 <= tgt <= u32::MAX,
            src != tgt,
            n >= 1,
            n * tgt + src <= usize::MAX,
            stop as int <= ((n as int - 1) * (tgt as int) + src as int - 1) / (src as int),
            valid_samples(samples@),
            out@.len() == i,
            forall|k: int|
                0 <= k < i ==> out@[k] == lerp_at(samples@, k, src as int, tgt as int) as i64
                    && valid_sample(#[trigger] out@[k]),
        decreases stop - i,
    {
        proof {
            lemma_below_ceil(i as int, (n - 1) * (tgt as int), src as int);
            assert(i * src < (n - 1) * tgt);
            assert((n - 1) * tgt <= n * tgt) by (nonlinear_arith)
                requires tgt >= 1, n >= 1;
        }
        let p: u64 = i * src;
        let pf: u64 = p / tgt;
        let rem: u64 = p % tgt;
        proof {
            lemma_div_below(p as int, (n - 1) as int, tgt as int);
            assert(pf < n - 1);
        }
        let s1: i64 = samples[pf as usize];
        let s2: i64 = samples[pf as usize + 1];
        let a: u64 = (s1 + SAMPLE_LIMIT) as u64;
        let b: u64 = (s2 + SAMPLE_LIMIT) as u64;
        proof {
            assert(a * (tgt - rem) + b * rem <= (2 * SAMPLE_LIMIT) * tgt) by (nonlinear_arith)
                requires
                    0 <= a <= 2 * SAMPLE_LIMIT,
                    0 <= b <= 2 * SAMPLE_LIMIT,
                    0 <= rem < tgt;
        }
        let num: u64 = a * (tgt - rem) + b * rem;
        let val: u64 = num / tgt;
        proof {
            lemma_div_below(num as int, 2 * SAMPLE_LIMIT + 1, tgt as int);
            assert(num < (2 * SAMPLE_LIMIT + 1) * tgt) by (nonlinear_arith)
                requires num <= (2 * SAMPLE_LIMIT) * tgt, tgt >= 1;
        }
        let res: i64 = (val as i64) - SAMPLE_LIMIT;
        proof {
            let s1i = s1 as int;
            let s2i = s2 as int;
            let ti = tgt as int;
            let remi = rem as int;
            let inner = s1i * (ti - remi) + s2i * remi;
            assert(num as int == inner + SAMPLE_LIMIT * ti) by (nonlinear_arith)
                requires
                    num == a * (tgt - rem) + b * rem,
                    a == s1i + SAMPLE_LIMIT,
                    b == s2i + SAMPLE_LIMIT,
                    inner == s1i * (ti - remi) + s2i * remi,
                    ti == tgt,
                    remi == rem;
            lemma_hoist_over_denominator(inner, SAMPLE_LIMIT as int, ti as nat);
            assert(num as int / ti == inner / ti + SAMPLE_LIMIT);
            lemma_lerp_bounded(s1i, s2i, remi, ti);
            assert(res == lerp_at(samples@, i as int, src as int, tgt as int));
            assert(valid_sample(res));
        }
        out.push(res);
        i = i + 1;
    }
    proof {
        assert(out@ =~= resampled(samples@, source_rate as int, target_rate as int));
    }
    out
}

/// The full sample conditioner: noise gate, then linear resampling to the
/// target rate, in capture order.
pub fn condition(samples: &Vec<i64>, source_rate: u32, target_rate: u32) -> (r: Vec<i64>)
    requires
        source_rate >= 1,
        target_rate >= 1,
        valid_samples(samples@),
        samples@.len() * (target_rate as int) + (source_rate as int) <= usize::MAX as int,
    ensures
        r@ == resampled(gated_seq(samples@), source_rate as int, target_rate as int),
        valid_samples(r@),
{
    let g = noise_gate(samples);
    resample(&g, source_rate, target_rate)
}

/// Resampling at equal rates is the identity on the buffer.
pub proof fn lemma_resample_identity(s: Seq<i64>, rate: int)
    ensures
        resampled(s, rate, rate) == s,
{
}

/// Downsampling (or keeping the rate) preserves the rate-derived length
/// exactly: the output holds `floor(n * tgt / src)` samples.
pub proof fn lemma_resample_rate_preserving(s: Seq<i64>, src: int, tgt: int)
    requires
        1 <= tgt <= src,
    ensures
        resampled(s, src, tgt).len() == s.len() * tgt / src,
{
    let n = s.len() as int;
    if n == 0 {
        assert(0 * tgt == 0) by (nonlinear_arith);
        vstd::arithmetic::div_mod::lemma_div_of0(src);
    } else if src == tgt {
        vstd::arithmetic::div_mod::lemma_div_multiples_vanish(n, src);
        assert(n * src == src * n) by (nonlinear_arith);
    } else {
        let q = n * tgt / src;
        let r = n * tgt % src;
        lemma_fundamental_div_mod(n * tgt, src);
        assert(r >= 0 && q >= 0) by {
            assert(n * tgt >= 0) by (nonlinear_arith)
                requires n >= 0, tgt >= 0;
            vstd::arithmetic::div_mod::lemma_div_pos_is_pos(n * tgt, src);
            vstd::arithmetic::div_mod::lemma_mod_bound(n * tgt, src);
        }
        assert(q * src <= n * tgt) by (nonlinear_arith)
            requires n * tgt == src * q + r, r >= 0;
        assert((n - 1) * tgt + src - 1 >= q * src) by (nonlinear_arith)
            requires q * src <= n * tgt, tgt <= src - 1, n >= 1;
        let ceil_edge = ((n - 1) * tgt + src - 1) / src;
        assert(ceil_edge >= q) by {
            lemma_hoist_over_denominator((n - 1) * tgt + src - 1 - q * src, q, src as nat);
            assert((n - 1) * tgt + src - 1 - q * src + q * src == (n - 1) * tgt + src - 1);
            vstd::arithmetic::div_mod::lemma_div_pos_is_pos(
                (n - 1) * tgt + src - 1 - q * src,
                src,
            );
        }
    }
}

} // verus!
