use vstd::prelude::*;
use vstd::relations::total_ordering;
use crate::energy::{rms_of, rms_range, lemma_rms_all_zero};
use crate::matcher::{matches_in_chars, wake_match};
use crate::samples::{SAMPLE_LIMIT, valid_samples};
use crate::strings::{chars_of, lower_of, lowercase};
use crate::tracker::{
    HISTORY_CAPACITY, INITIAL_NOISE_FLOOR, NoiseFloorTracker, energy_order, floor_of, observed,
};

verus! {

/// Number of consecutive frames that must exceed the dynamic threshold
/// before a buffer counts as active.
pub const CONSECUTIVE_REQUIREMENT: usize = 3;

/// Longest silence duration the detector accepts, in milliseconds: an
/// hour, far beyond any sensible pause, yet small enough that every
/// derived frame size fits machine integers.
pub const MAX_SILENCE_MS: u32 = 3_600_000;

/// A configuration the detector refuses at construction.
#[derive(Clone, Copy, Debug, PartialEq, Eq, Structural)]
pub enum ConfigError {
    /// The activation phrase lowercases to nothing.
    EmptyActivationWord,
    /// The activation phrase is too long for edit-distance arithmetic on
    /// machine integers.
    ActivationWordTooLong,
    /// A zero silence window could never be examined frame by frame, and
    /// one beyond an hour overflows the derived frame sizes.
    InvalidSilenceDuration,
}

/// The activity threshold a frame must exceed: the configured energy
/// threshold or two and a half times the noise floor, whichever is higher.
pub open spec fn dynamic_threshold(eth: i64, floor: i64) -> int {
    vstd::math::max(eth as int, (floor as int * 5) / 2)
}

/// One walk of the voice-activity detector over a buffer, frame by frame:
/// the verdict and the energy history it leaves behind. Each frame's RMS
/// joins the history, the threshold adapts to the refreshed noise floor,
/// and the walk stops early once enough consecutive frames ran hot.
pub open spec fn vad_run(
    h: Seq<i64>,
    s: Seq<i64>,
    w: nat,
    consec: nat,
    need: nat,
    eth: i64,
) -> (bool, Seq<i64>)
    decreases s.len(),
{
    if s.len() == 0 || w == 0 {
        (false, h)
    } else {
        let flen = vstd::math::min(w as int, s.len() as int);
        let frame = s.take(flen);
        let rest = s.skip(flen);
        let r = rms_of(frame);
        let h2 = observed(h, r as i64, HISTORY_CAPACITY as int);
        let thr = dynamic_threshold(eth, floor_of(h2));
        if r > thr {
            if consec + 1 >= need {
                (true, h2)
            } else {
                vad_run(h2, rest, w, consec + 1, need, eth)
            }
        } else {
            vad_run(h2, rest, w, 0, need, eth)
        }
    }
}

/// Detector of speech activity: adaptive noise floor, dynamic threshold,
/// and hysteresis over consecutive frames, plus the wake-word matcher for
/// transcribed text.
pub struct VoiceDetector {
    energy_threshold: i64,
    silence_duration_ms: u32,
    activation_word: Vec<char>,
    tracker: NoiseFloorTracker,
    consecutive_threshold: usize,
}

impl VoiceDetector {
    /// The configured energy threshold.
    pub closed spec fn energy_threshold(&self) -> i64 {
        self.energy_threshold
    }

    /// The configured silence window duration, in milliseconds.
    pub closed spec fn silence_ms(&self) -> u32 {
        self.silence_duration_ms
    }

    /// The lowercased activation phrase.
    pub closed spec fn activation(&self) -> Seq<char> {
        self.activation_word@
    }

    /// How many consecutive hot frames activity requires.
    pub closed spec fn consecutive_requirement(&self) -> nat {
        self.consecutive_threshold as nat
    }

    /// The energy history the detector has accumulated, oldest first.
    pub closed spec fn history(&self) -> Seq<i64> {
        self.tracker.history_view()
    }

    /// The current noise floor estimate.
    pub closed spec fn noise_floor(&self) -> i64 {
        self.tracker.floor_view()
    }

    /// Internal consistency: a sound tracker, a usable activation phrase
    /// and positive hysteresis and silence windows.
    pub closed spec fn wf(&self) -> bool {
        &&& self.tracker.wf()
        &&& 1 <= self.activation_word@.len() <= usize::MAX - 2
        &&& self.consecutive_threshold == CONSECUTIVE_REQUIREMENT
        &&& 1 <= self.silence_duration_ms <= MAX_SILENCE_MS
    }

    /// Build a detector, or refuse the configuration: the activation
    /// phrase must lowercase to something non-empty (and fit machine
    /// arithmetic), and the silence duration must be positive.
    pub fn new(energy_threshold: i64, silence_duration_ms: u32, activation_word: &str) -> (r:
        Result<VoiceDetector, ConfigError>)
        ensures
            r matches Ok(d) ==> {
                &&& d.wf()
                &&& d.energy_threshold() == energy_threshold
                &&& d.silence_ms() == silence_duration_ms
                &&& d.activation() == lower_of(activation_word@)
                &&& d.consecutive_requirement() == CONSECUTIVE_REQUIREMENT
                &&& d.history().len() == 0
                &&& d.noise_floor() == INITIAL_NOISE_FLOOR
            },
            r matches Ok(d) <==> (1 <= lower_of(activation_word@).len() <= usize::MAX - 2
                && 1 <= silence_duration_ms <= MAX_SILENCE_MS),
            r matches Err(e) ==> {
                &&& (e == ConfigError::EmptyActivationWord <==> lower_of(
                    activation_word@,
                ).len() == 0)
                &&& (e == ConfigError::ActivationWordTooLong <==> lower_of(
                    activation_word@,
                ).len() > usize::MAX - 2)
                &&& (e == ConfigError::InvalidSilenceDuration <==> (1 <= lower_of(
                    activation_word@,
                ).len() <= usize::MAX - 2 && (silence_duration_ms == 0 || silence_duration_ms
                    > MAX_SILENCE_MS)))
            },
    {
        let lowered = lowercase(activation_word);
        let word = chars_of(lowered.as_str());
        if word.len() == 0 {
            return Err(ConfigError::EmptyActivationWord);
        }
        if word.len() > usize::MAX - 2 {
            return Err(ConfigError::ActivationWordTooLong);
        }
        if silence_duration_ms == 0 || silence_duration_ms > MAX_SILENCE_MS {
            return Err(ConfigError::InvalidSilenceDuration);
        }
        Ok(
            VoiceDetector {
                energy_threshold,
                silence_duration_ms,
                activation_word: word,
                tracker: NoiseFloorTracker::new(),
                consecutive_threshold: CONSECUTIVE_REQUIREMENT,
            },
        )
    }

    /// What well-formedness guarantees of the configuration, for callers
    /// that cannot see into it.
    pub proof fn lemma_wf_bounds(&self)
        requires
            self.wf(),
        ensures
            1 <= self.silence_ms() <= MAX_SILENCE_MS,
            self.consecutive_requirement() == CONSECUTIVE_REQUIREMENT as nat,
            1 <= self.activation().len() <= usize::MAX - 2,
    {
    }

    /// RMS energy of a whole buffer, in fixed-point sample units.
    pub fn calculate_rms(samples: &Vec<i64>) -> (r: i64)
        requires
            valid_samples(samples@),
        ensures
            r as int == rms_of(samples@),
            0 <= r <= SAMPLE_LIMIT,
    {
        let r = rms_range(samples, 0, samples.len());
        proof {
            assert(samples@.subrange(0, samples@.len() as int) =~= samples@);
        }
        r
    }

    /// Walk the buffer in frames of `window_size` samples (the last frame
    /// may be short), adapting the noise floor with each frame, and report
    /// whether enough consecutive frames exceeded the dynamic threshold.
    /// The energy history keeps whatever the walk observed.
    pub fn is_voice_active(&mut self, samples: &Vec<i64>, window_size: usize) -> (r: bool)
        requires
            old(self).wf(),
            window_size >= 1,
            valid_samples(samples@),
        ensures
            final(self).wf(),
            r == vad_run(
                old(self).history(),
                samples@,
                window_size as nat,
                0,
                old(self).consecutive_requirement(),
                old(self).energy_threshold(),
            ).0,
            final(self).history() == vad_run(
                old(self).history(),
                samples@,
                window_size as nat,
                0,
                old(self).consecutive_requirement(),
                old(self).energy_threshold(),
            ).1,
            final(self).energy_threshold() == old(self).energy_threshold(),
            final(self).silence_ms() == old(self).silence_ms(),
            final(self).activation() == old(self).activation(),
            final(self).consecutive_requirement() == old(self).consecutive_requirement(),
    {
        let ghost target = vad_run(
            old(self).history(),
            samples@,
            window_size as nat,
            0,
            old(self).consecutive_requirement(),
            old(self).energy_threshold(),
        );
        let n: usize = samples.len();
        let need: usize = self.consecutive_threshold;
        let mut pos: usize = 0;
        let mut consec: usize = 0;
        proof {
            assert(samples@.skip(0) =~= samples@);
        }
        while pos < n
            invariant
                self.wf(),
                pos <= n == samples@.len(),
                window_size >= 1,
                valid_samples(samples@),
                consec < need == self.consecutive_threshold,
                need as nat == old(self).consecutive_requirement(),
                target == vad_run(
                    old(self).history(),
                    samples@,
                    window_size as nat,
                    0,
                    old(self).consecutive_requirement(),
                    old(self).energy_threshold(),
                ),
                self.energy_threshold == old(self).energy_threshold(),
                self.silence_duration_ms == old(self).silence_ms(),
                self.activation_word@ == old(self).activation(),
                vad_run(
                    self.history(),
                    samples@.skip(pos as int),
                    window_size as nat,
                    consec as nat,
                    need as nat,
                    self.energy_threshold,
                ) == target,
            decreases n - pos,
        {
            let end: usize = if n - pos < window_size {
                n
            } else {
                pos + window_size
            };
            let ghost remaining = samples@.skip(pos as int);
            let ghost flen = vstd::math::min(window_size as int, remaining.len() as int);
            let ghost c0 = consec as nat;
            let ghost h0 = self.tracker.history_view();
            proof {
                assert(end == pos + flen);
                assert(remaining.take(flen) =~= samples@.subrange(pos as int, end as int));
                assert(remaining.skip(flen) =~= samples@.skip(end as int));
            }
            let r: i64 = rms_range(samples, pos, end);
            let floor: i64 = self.tracker.observe(r);
            proof {
                assert((floor as u64) * 5 <= 0x1000_0000_0000_0000) by (nonlinear_arith)
                    requires 0 <= floor <= 16_000_000;
            }
            let dyn_part: u64 = (floor as u64) * 5 / 2;
            let threshold: i64 = if self.energy_threshold > (dyn_part as i64) {
                self.energy_threshold
            } else {
                dyn_part as i64
            };
            proof {
                assert(threshold as int == dynamic_threshold(self.energy_threshold, floor));
            }
            let ghost frame_rms = rms_of(remaining.take(flen));
            proof {
                assert(frame_rms == r as int);
                assert(frame_rms as i64 == r);
            }
            if r > threshold {
                consec = consec + 1;
                if consec >= need {
                    proof {
                        assert(vad_run(
                            h0,
                            remaining,
                            window_size as nat,
                            c0,
                            need as nat,
                            self.energy_threshold,
                        ) == (true, self.tracker.history_view()));
                    }
                    return true;
                }
            } else {
                consec = 0;
            }
            pos = end;
            proof {
                assert(vad_run(
                    h0,
                    remaining,
                    window_size as nat,
                    c0,
                    need as nat,
                    self.energy_threshold,
                ) == vad_run(
                    self.tracker.history_view(),
                    samples@.skip(pos as int),
                    window_size as nat,
                    consec as nat,
                    need as nat,
                    self.energy_threshold,
                ));
            }
        }
        proof {
            assert(samples@.skip(n as int) =~= Seq::<i64>::empty());
        }
        false
    }

    /// Whether the buffer is silent over the configured silence window:
    /// the negation of voice activity at that frame size, sharing (and
    /// advancing) the same adaptation state.
    pub fn detect_silence(&mut self, samples: &Vec<i64>, sample_rate: u32) -> (r: bool)
        requires
            old(self).wf(),
            valid_samples(samples@),
            (sample_rate as int * old(self).silence_ms() as int) / 1000 >= 1,
            (sample_rate as int * old(self).silence_ms() as int) / 1000 <= usize::MAX as int,
        ensures
            final(self).wf(),
            r == !vad_run(
                old(self).history(),
                samples@,
                ((sample_rate as int * old(self).silence_ms() as int) / 1000) as nat,
                0,
                old(self).consecutive_requirement(),
                old(self).energy_threshold(),
            ).0,
            final(self).history() == vad_run(
                old(self).history(),
                samples@,
                ((sample_rate as int * old(self).silence_ms() as int) / 1000) as nat,
                0,
                old(self).consecutive_requirement(),
                old(self).energy_threshold(),
            ).1,
            final(self).energy_threshold() == old(self).energy_threshold(),
            final(self).silence_ms() == old(self).silence_ms(),
            final(self).activation() == old(self).activation(),
            final(self).consecutive_requirement() == old(self).consecutive_requirement(),
    {
        proof {
            assert((sample_rate as u64) * (self.silence_duration_ms as u64)
                <= 0xFFFF_FFFE_0000_0001) by (nonlinear_arith)
                requires
                    sample_rate <= 0xFFFF_FFFFu64,
                    self.silence_duration_ms <= 0xFFFF_FFFFu64;
            vstd::arithmetic::div_mod::lemma_div_pos_is_pos(
                sample_rate as int * self.silence_duration_ms as int,
                1000,
            );
        }
        let window: usize = ((sample_rate as u64) * (self.silence_duration_ms as u64) / 1000)
            as usize;
        !self.is_voice_active(samples, window)
    }

    /// Whether transcribed text invokes the activation phrase: the text is
    /// lowercased and run through the three-tier wake-word decision.
    pub fn matches_wake_word(&self, text: &str) -> (r: bool)
        requires
            self.wf(),
        ensures
            r == wake_match(lower_of(text@), self.activation()),
    {
        let lowered = lowercase(text);
        let t = chars_of(lowered.as_str());
        matches_in_chars(&t, &self.activation_word)
    }
}

/// The percentile of a non-empty history of bounded energies is itself
/// bounded.
pub proof fn lemma_floor_of_bounds(h: Seq<i64>)
    requires
        h.len() >= 1,
        forall|i: int| 0 <= i < h.len() ==> 0 <= #[trigger] h[i] <= SAMPLE_LIMIT,
    ensures
        0 <= floor_of(h) <= SAMPLE_LIMIT,
{
    broadcast use vstd::seq_lib::group_to_multiset_ensures;

    assert(total_ordering(energy_order())) by {
        let leq = energy_order();
        assert forall|a: i64, b: i64| #[trigger] leq(a, b) || #[trigger] leq(b, a) by {}
    }
    h.lemma_sort_by_ensures(energy_order());
    let sorted = h.sort_by(energy_order());
    h.to_multiset_ensures();
    sorted.to_multiset_ensures();
    assert(sorted.len() == h.len());
    let idx = crate::tracker::percentile_index(h.len() as int);
    vstd::arithmetic::div_mod::lemma_div_nonincreasing(h.len() as int, 10);
    assert(0 <= idx < sorted.len());
    let e = sorted[idx];
    assert(sorted.contains(e));
    assert(h.to_multiset().count(e) > 0);
    assert(h.contains(e));
    let k = choose|k: int| 0 <= k < h.len() && h[k] == e;
    assert(0 <= e <= SAMPLE_LIMIT);
}

/// A silent buffer never reads as active, whatever history the detector
/// carries and however long the buffer is: every frame's RMS is zero,
/// which cannot exceed the non-negative dynamic threshold.
pub proof fn lemma_vad_silent(
    h: Seq<i64>,
    s: Seq<i64>,
    w: nat,
    consec: nat,
    need: nat,
    eth: i64,
)
    requires
        forall|i: int| 0 <= i < s.len() ==> s[i] == 0,
        forall|i: int| 0 <= i < h.len() ==> 0 <= #[trigger] h[i] <= SAMPLE_LIMIT,
        h.len() <= HISTORY_CAPACITY,
    ensures
        !vad_run(h, s, w, consec, need, eth).0,
    decreases s.len(),
{
    if s.len() == 0 || w == 0 {
    } else {
        let flen = vstd::math::min(w as int, s.len() as int);
        let frame = s.take(flen);
        let rest = s.skip(flen);
        assert(forall|i: int| 0 <= i < frame.len() ==> frame[i] == 0);
        lemma_rms_all_zero(frame);
        let h2 = observed(h, 0, HISTORY_CAPACITY as int);
        assert(forall|i: int| 0 <= i < h2.len() ==> 0 <= #[trigger] h2[i] <= SAMPLE_LIMIT);
        lemma_floor_of_bounds(h2);
        assert(dynamic_threshold(eth, floor_of(h2)) >= 0) by {
            vstd::arithmetic::div_mod::lemma_div_pos_is_pos(floor_of(h2) as int * 5, 2);
            assert(floor_of(h2) as int * 5 >= 0) by (nonlinear_arith)
                requires floor_of(h2) >= 0;
        }
        assert(forall|i: int| 0 <= i < rest.len() ==> rest[i] == 0);
        lemma_vad_silent(h2, rest, w, 0, need, eth);
    }
}

/// The first `m` frames of the walk all run hot: each frame's RMS exceeds
/// the dynamic threshold in force when it is examined.
pub open spec fn leading_frames_hot(
    h: Seq<i64>,
    s: Seq<i64>,
    w: nat,
    eth: i64,
    m: nat,
) -> bool
    decreases m,
{
    if m == 0 {
        true
    } else if s.len() == 0 || w == 0 {
        false
    } else {
        let flen = vstd::math::min(w as int, s.len() as int);
        let frame = s.take(flen);
        let rest = s.skip(flen);
        let r = rms_of(frame);
        let h2 = observed(h, r as i64, HISTORY_CAPACITY as int);
        r > dynamic_threshold(eth, floor_of(h2)) && leading_frames_hot(
            h2,
            rest,
            w,
            eth,
            (m - 1) as nat,
        )
    }
}

/// A buffer whose next `need - consec` frames all exceed the dynamic
/// threshold reads as active: the hysteresis counter reaches the
/// requirement before any frame can reset it.
pub proof fn lemma_vad_sustained(
    h: Seq<i64>,
    s: Seq<i64>,
    w: nat,
    consec: nat,
    need: nat,
    eth: i64,
)
    requires
        need > consec,
        leading_frames_hot(h, s, w, eth, (need - consec) as nat),
    ensures
        vad_run(h, s, w, consec, need, eth).0,
    decreases s.len(),
{
    let m = (need - consec) as nat;
    assert(m > 0);
    assert(s.len() > 0 && w > 0);
    let flen = vstd::math::min(w as int, s.len() as int);
    let frame = s.take(flen);
    let rest = s.skip(flen);
    let r = rms_of(frame);
    let h2 = observed(h, r as i64, HISTORY_CAPACITY as int);
    assert(r > dynamic_threshold(eth, floor_of(h2)));
    if consec + 1 >= need {
    } else {
        assert(rest.len() < s.len());
        lemma_vad_sustained(h2, rest, w, (consec + 1) as nat, need, eth);
    }
}

} // verus!
