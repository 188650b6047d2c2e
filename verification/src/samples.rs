use vstd::prelude::*;

verus! {

/// Fixed-point scale: this value stands for an amplitude of 1.0.
pub const SCALE: i64 = 1_000_000;

/// Largest magnitude a sample may carry. Hardware delivers amplitudes in
/// roughly [-1.0, 1.0]; this grants generous headroom above that while
/// keeping every energy computation inside machine integers.
pub const SAMPLE_LIMIT: i64 = 16_000_000;

/// A single amplitude within the accepted range.
pub open spec fn valid_sample(s: i64) -> bool {
    -SAMPLE_LIMIT <= s && s <= SAMPLE_LIMIT
}

/// Every amplitude of the buffer is within the accepted range.
pub open spec fn valid_samples(s: Seq<i64>) -> bool {
    forall|i: int| 0 <= i < s.len() ==> valid_sample(#[trigger] s[i])
}

} // verus!
