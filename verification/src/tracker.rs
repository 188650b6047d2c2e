use vstd::prelude::*;
use vstd::seq_lib::lemma_sorted_unique;
use vstd::relations::{sorted_by, total_ordering};
use vstd::multiset::Multiset;
use crate::samples::SAMPLE_LIMIT;

verus! {

/// Number of recent frame energies the tracker keeps.
pub const HISTORY_CAPACITY: usize = 50;

/// Noise floor assumed before any energy has been observed: 0.01 in
/// fixed-point units of `crate::samples::SCALE`.
pub const INITIAL_NOISE_FLOOR: i64 = 10_000;

/// The ascending order on frame energies.
pub open spec fn energy_order() -> spec_fn(i64, i64) -> bool {
    |a: i64, b: i64| a <= b
}

/// The energy history after one observation: the new value is appended and
/// the oldest value is evicted once the capacity is exceeded.
pub open spec fn observed(h: Seq<i64>, rms: i64, cap: int) -> Seq<i64> {
    let pushed = h.push(rms);
    if pushed.len() > cap {
        pushed.drop_first()
    } else {
        pushed
    }
}

/// Index of the 10th-percentile entry of a sorted history of `len` values.
pub open spec fn percentile_index(len: int) -> int {
    vstd::math::max(len / 10, 1) - 1
}

/// The noise floor a non-empty history yields: its 10th-percentile energy.
pub open spec fn floor_of(h: Seq<i64>) -> i64 {
    h.sort_by(energy_order())[percentile_index(h.len() as int)]
}

/// Ascending selection sort of a buffer of energies.
fn sort_energies(input: &Vec<i64>) -> (out: Vec<i64>)
    ensures
        sorted_by(out@, energy_order()),
        out@.to_multiset() == input@.to_multiset(),
        out@.len() == input@.len(),
{
    broadcast use vstd::seq_lib::group_to_multiset_ensures;
    broadcast use vstd::multiset::group_multiset_axioms;

    let mut work: Vec<i64> = Vec::new();
    let mut i: usize = 0;
    while i < input.len()
        invariant
            i <= input@.len(),
            work@ == input@.subrange(0, i as int),
        decreases input@.len() - i,
    {
        work.push(input[i]);
        proof {
            assert(work@ =~= input@.subrange(0, i + 1));
        }
        i = i + 1;
    }
    proof {
        assert(work@ =~= input@);
    }
    let mut out: Vec<i64> = Vec::new();
    proof {
        assert(out@.to_multiset().add(work@.to_multiset()) =~= input@.to_multiset());
    }
    while work.len() > 0
        invariant
            out@.to_multiset().add(work@.to_multiset()) == input@.to_multiset(),
            out@.len() + work@.len() == input@.len(),
            sorted_by(out@, energy_order()),
            forall|a: int, b: int|
                0 <= a < out@.len() && 0 <= b < work@.len() ==> out@[a] <= work@[b],
        decreases work@.len(),
    {
        let mut m: usize = 0;
        let mut j: usize = 1;
        while j < work.len()
            invariant
                work@.len() > 0,
                m < j <= work@.len(),
                forall|k: int| 0 <= k < j ==> work@[m as int] <= #[trigger] work@[k],
            decreases work@.len() - j,
        {
            if work[j] < work[m] {
                m = j;
            }
            j = j + 1;
        }
        let ghost old_work = work@;
        let ghost old_out = out@;
        let val: i64 = work.remove(m);
        out.push(val);
        proof {
            assert(old_work.contains(val));
            old_work.to_multiset_ensures();
            vstd::seq_lib::to_multiset_remove(old_work, m as int);
            vstd::seq_lib::to_multiset_build(old_out, val);
            assert(work@.to_multiset() =~= old_work.to_multiset().remove(val));
            assert(out@.to_multiset() =~= old_out.to_multiset().insert(val));
            assert(old_work.to_multiset().count(val) >= 1);
            assert(out@.to_multiset().add(work@.to_multiset()) =~= input@.to_multiset());
            assert forall|a: int, b: int|
                0 <= a < b < out@.len() implies (energy_order())(out@[a], out@[b]) by {
                if b < old_out.len() {
                    assert((energy_order())(old_out[a], old_out[b]));
                } else {
                    assert(out@[b] == val);
                }
            }
            assert(sorted_by(out@, energy_order()));
            assert forall|a: int, b: int|
                0 <= a < out@.len() && 0 <= b < work@.len() implies out@[a] <= work@[b] by {
                if b < m {
                    assert(work@[b] == old_work[b]);
                } else {
                    assert(work@[b] == old_work[b + 1]);
                }
            }
        }
    }
    proof {
        assert(work@.to_multiset().len() == 0);
        assert(work@.to_multiset() =~= Multiset::<i64>::empty());
        assert(out@.to_multiset() =~= input@.to_multiset());
    }
    out
}

/// Rolling estimator of the ambient noise floor: keeps the most recent
/// frame energies and reads off their 10th percentile.
pub struct NoiseFloorTracker {
    history: Vec<i64>,
    noise_floor: i64,
    capacity: usize,
}

impl NoiseFloorTracker {
    /// The recent energies, oldest first.
    pub closed spec fn history_view(&self) -> Seq<i64> {
        self.history@
    }

    /// The current noise floor estimate.
    pub closed spec fn floor_view(&self) -> i64 {
        self.noise_floor
    }

    /// Internal consistency: bounded history of bounded energies, and a
    /// floor that is the percentile of the history (or the initial value
    /// while no history exists).
    pub closed spec fn wf(&self) -> bool {
        &&& self.capacity == HISTORY_CAPACITY
        &&& self.history@.len() <= HISTORY_CAPACITY
        &&& forall|i: int|
            0 <= i < self.history@.len() ==> 0 <= #[trigger] self.history@[i] <= SAMPLE_LIMIT
        &&& self.noise_floor == if self.history@.len() == 0 {
            INITIAL_NOISE_FLOOR
        } else {
            floor_of(self.history@)
        }
        &&& 0 <= self.noise_floor <= SAMPLE_LIMIT
    }

    /// A fresh tracker with no history and the initial floor.
    pub fn new() -> (r: Self)
        ensures
            r.wf(),
            r.history_view().len() == 0,
            r.floor_view() == INITIAL_NOISE_FLOOR,
    {
        NoiseFloorTracker {
            history: Vec::new(),
            noise_floor: INITIAL_NOISE_FLOOR,
            capacity: HISTORY_CAPACITY,
        }
    }

    /// Record one frame energy and return the updated noise floor: the new
    /// value joins the history (evicting the oldest past capacity) and the
    /// floor becomes the 10th percentile of the retained energies.
    pub fn observe(&mut self, rms: i64) -> (r: i64)
        requires
            old(self).wf(),
            0 <= rms <= SAMPLE_LIMIT,
        ensures
            final(self).wf(),
            final(self).history_view() == observed(
                old(self).history_view(),
                rms,
                HISTORY_CAPACITY as int,
            ),
            final(self).floor_view() == r,
            r == floor_of(final(self).history_view()),
            0 <= r <= SAMPLE_LIMIT,
    {
        broadcast use vstd::seq_lib::group_to_multiset_ensures;

        let ghost old_hist = self.history@;
        self.history.push(rms);
        if self.history.len() > self.capacity {
            self.history.remove(0);
            proof {
                assert(self.history@ =~= observed(old_hist, rms, HISTORY_CAPACITY as int));
            }
        }
        proof {
            assert(self.history@ =~= observed(old_hist, rms, HISTORY_CAPACITY as int));
        }
        let h = &self.history;
        let sorted = sort_energies(h);
        proof {
            assert(total_ordering(energy_order())) by {
                let leq = energy_order();
                assert forall|a: i64, b: i64| #[trigger] leq(a, b) || #[trigger] leq(b, a) by {}
            }
            self.history@.lemma_sort_by_ensures(energy_order());
            lemma_sorted_unique(sorted@, self.history@.sort_by(energy_order()), energy_order());
            assert(sorted@ == self.history@.sort_by(energy_order()));
        }
        let len: usize = sorted.len();
        let tenth: usize = len / 10;
        let idx: usize = if tenth >= 1 {
            tenth - 1
        } else {
            0
        };
        proof {
            vstd::arithmetic::div_mod::lemma_div_nonincreasing(len as int, 10);
            assert(idx as int == percentile_index(self.history@.len() as int));
        }
        let nf: i64 = sorted[idx];
        proof {
            assert(sorted@.contains(nf));
            assert(self.history@.to_multiset().count(nf) > 0);
            assert(self.history@.contains(nf));
            let k = choose|k: int| 0 <= k < self.history@.len() && self.history@[k] == nf;
            assert(0 <= nf <= SAMPLE_LIMIT);
        }
        self.noise_floor = nf;
        nf
    }
}

} // verus!
