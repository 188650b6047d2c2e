use vstd::prelude::*;
use crate::detector::{VoiceDetector, vad_run};
use crate::matcher::wake_match;
use crate::samples::valid_samples;
use crate::strings::lower_of;

verus! {

/// Sample rate the pipeline normalizes captures to, in hertz.
pub const TARGET_SAMPLE_RATE: u32 = 16_000;

/// Frame size, in samples, used for activity checks on captured windows.
pub const ACTIVITY_WINDOW: usize = 1024;

/// How many command/response pairs the assistant remembers.
pub const MAX_HISTORY: usize = 10;

/// Seconds of capture per window while awaiting the wake word.
pub const WAKE_WINDOW_SECONDS: u64 = 2;

/// Seconds of capture per window while listening for a command.
pub const COMMAND_WINDOW_SECONDS: u64 = 5;

/// Milliseconds to pause after a failed cycle before retrying.
pub const RETRY_PAUSE_MS: u64 = 1000;

/// Where the conversation stands.
#[derive(Clone, Copy, Debug, PartialEq, Eq, Structural)]
pub enum ConversationState {
    /// Before startup; never revisited afterwards.
    Idle,
    /// Passively watching short windows for the activation phrase.
    AwaitingWakeWord,
    /// Actively capturing a command window.
    Listening,
    /// A command is being answered.
    Processing,
}

/// What a listening window calls for next.
#[derive(Clone, Copy, Debug, PartialEq, Eq, Structural)]
pub enum ListeningVerdict {
    /// Speech was detected: the window should be transcribed.
    NeedTranscription,
    /// Silence: fall back to waiting for the wake word.
    ReturnToWakeWord,
    /// Ambiguous (energy without sustained voice): try another window.
    Retry,
}

/// What a listening window decides, and the energy history it leaves: an
/// empty buffer goes straight to the silence check; otherwise activity is
/// checked at the activity frame size and, when absent, silence at the
/// silence frame size, sharing the adapting history throughout.
pub open spec fn listening_outcome(
    h: Seq<i64>,
    s: Seq<i64>,
    w_act: nat,
    w_sil: nat,
    need: nat,
    eth: i64,
) -> (ListeningVerdict, Seq<i64>) {
    if s.len() == 0 {
        let run = vad_run(h, s, w_sil, 0, need, eth);
        if !run.0 {
            (ListeningVerdict::ReturnToWakeWord, run.1)
        } else {
            (ListeningVerdict::Retry, run.1)
        }
    } else {
        let run1 = vad_run(h, s, w_act, 0, need, eth);
        if run1.0 {
            (ListeningVerdict::NeedTranscription, run1.1)
        } else {
            let run2 = vad_run(run1.1, s, w_sil, 0, need, eth);
            if !run2.0 {
                (ListeningVerdict::ReturnToWakeWord, run2.1)
            } else {
                (ListeningVerdict::Retry, run2.1)
            }
        }
    }
}

/// The orchestrator's decision core: owns the detector and the
/// conversation state, and takes every transition; capture, transcription,
/// reasoning and speech output happen outside and hand their results in.
pub struct Assistant {
    detector: VoiceDetector,
    state: ConversationState,
    is_active: bool,
    command_history: Vec<(String, String)>,
}

impl Assistant {
    /// The current conversation state.
    pub closed spec fn state(&self) -> ConversationState {
        self.state
    }

    /// Whether a conversation is in progress.
    pub closed spec fn active(&self) -> bool {
        self.is_active
    }

    /// The remembered command/response pairs, oldest first.
    pub closed spec fn history(&self) -> Seq<(Seq<char>, Seq<char>)> {
        self.command_history@.map_values(|p: (String, String)| (p.0@, p.1@))
    }

    /// The detector's accumulated energy history.
    pub closed spec fn energy_history(&self) -> Seq<i64> {
        self.detector.history()
    }

    /// The lowercased activation phrase in force.
    pub closed spec fn activation(&self) -> Seq<char> {
        self.detector.activation()
    }

    /// The detector's configured energy threshold.
    pub closed spec fn energy_threshold(&self) -> i64 {
        self.detector.energy_threshold()
    }

    /// The detector's configured silence window, in milliseconds.
    pub closed spec fn silence_ms(&self) -> u32 {
        self.detector.silence_ms()
    }

    /// The detector's hysteresis requirement.
    pub closed spec fn consecutive_requirement(&self) -> nat {
        self.detector.consecutive_requirement()
    }

    /// Internal consistency: a sound detector and a bounded history.
    pub closed spec fn wf(&self) -> bool {
        &&& self.detector.wf()
        &&& self.command_history@.len() <= MAX_HISTORY
    }

    /// A fresh assistant around a configured detector, idle until started.
    pub fn new(detector: VoiceDetector) -> (r: Assistant)
        requires
            detector.wf(),
        ensures
            r.wf(),
            r.state() == ConversationState::Idle,
            !r.active(),
            r.history().len() == 0,
            r.energy_history() == detector.history(),
            r.activation() == detector.activation(),
            r.energy_threshold() == detector.energy_threshold(),
            r.silence_ms() == detector.silence_ms(),
            r.consecutive_requirement() == detector.consecutive_requirement(),
    {
        let a = Assistant {
            detector,
            state: ConversationState::Idle,
            is_active: false,
            command_history: Vec::new(),
        };
        proof {
            assert(a.command_history@.map_values(|p: (String, String)| (p.0@, p.1@)).len() == 0);
        }
        a
    }

    /// Startup: the machine begins awaiting the wake word.
    pub fn start(&mut self)
        requires
            old(self).wf(),
        ensures
            final(self).wf(),
            final(self).state() == ConversationState::AwaitingWakeWord,
            !final(self).active(),
            final(self).history() == old(self).history(),
            final(self).energy_history() == old(self).energy_history(),
            final(self).activation() == old(self).activation(),
    {
        self.state = ConversationState::AwaitingWakeWord;
        self.is_active = false;
    }

    /// The wake-word arm of one cycle, once a captured window has been
    /// transcribed: on a match the machine turns to listening, otherwise
    /// it keeps awaiting.
    pub fn on_wake_text(&mut self, text: &str) -> (matched: bool)
        requires
            old(self).wf(),
            old(self).state() == ConversationState::Idle || old(self).state()
                == ConversationState::AwaitingWakeWord,
        ensures
            final(self).wf(),
            matched == wake_match(lower_of(text@), old(self).activation()),
            final(self).state() == if matched {
                ConversationState::Listening
            } else {
                old(self).state()
            },
            final(self).active() == (matched || old(self).active()),
            final(self).history() == old(self).history(),
            final(self).energy_history() == old(self).energy_history(),
            final(self).activation() == old(self).activation(),
    {
        let matched = self.detector.matches_wake_word(text);
        if matched {
            self.state = ConversationState::Listening;
            self.is_active = true;
        }
        matched
    }

    /// The listening arm of one cycle: judge a captured window. Speech
    /// means the window should be transcribed; silence sends the machine
    /// back to awaiting the wake word; anything else is retried.
    pub fn assess_listening(&mut self, samples: &Vec<i64>) -> (v: ListeningVerdict)
        requires
            old(self).wf(),
            old(self).state() == ConversationState::Listening,
            valid_samples(samples@),
        ensures
            final(self).wf(),
            ({
                let outcome = listening_outcome(
                    old(self).energy_history(),
                    samples@,
                    ACTIVITY_WINDOW as nat,
                    ((TARGET_SAMPLE_RATE as int * old(self).silence_ms() as int) / 1000) as nat,
                    old(self).consecutive_requirement(),
                    old(self).energy_threshold(),
                );
                v == outcome.0 && final(self).energy_history() == outcome.1
            }),
            final(self).state() == if v == ListeningVerdict::ReturnToWakeWord {
                ConversationState::AwaitingWakeWord
            } else {
                ConversationState::Listening
            },
            final(self).active() == if v == ListeningVerdict::ReturnToWakeWord {
                false
            } else {
                old(self).active()
            },
            final(self).history() == old(self).history(),
            final(self).activation() == old(self).activation(),
            final(self).energy_threshold() == old(self).energy_threshold(),
            final(self).silence_ms() == old(self).silence_ms(),
            final(self).consecutive_requirement() == old(self).consecutive_requirement(),
    {
        proof {
            self.detector.lemma_wf_bounds();
            let prod = TARGET_SAMPLE_RATE as int * self.detector.silence_ms() as int;
            vstd::arithmetic::div_mod::lemma_div_is_ordered(prod, 57_600_000_000int, 1000);
            vstd::arithmetic::div_mod::lemma_div_is_ordered(16_000int, prod, 1000);
        }
        let inactive = samples.len() == 0 || !self.detector.is_voice_active(
            samples,
            ACTIVITY_WINDOW,
        );
        if inactive {
            if self.detector.detect_silence(samples, TARGET_SAMPLE_RATE) {
                self.state = ConversationState::AwaitingWakeWord;
                self.is_active = false;
                ListeningVerdict::ReturnToWakeWord
            } else {
                ListeningVerdict::Retry
            }
        } else {
            ListeningVerdict::NeedTranscription
        }
    }

    /// A transcribed command arrives: a non-empty command moves the
    /// machine to processing (the reply is produced outside); an empty one
    /// abandons the window and returns to awaiting the wake word.
    pub fn on_command_text(&mut self, text: &str) -> (dispatch: bool)
        requires
            old(self).wf(),
            old(self).state() == ConversationState::Listening,
        ensures
            final(self).wf(),
            dispatch == (text@.len() > 0),
            final(self).state() == if dispatch {
                ConversationState::Processing
            } else {
                ConversationState::AwaitingWakeWord
            },
            final(self).active() == if dispatch {
                old(self).active()
            } else {
                false
            },
            final(self).history() == old(self).history(),
            final(self).energy_history() == old(self).energy_history(),
            final(self).activation() == old(self).activation(),
    {
        if text.unicode_len() > 0 {
            self.state = ConversationState::Processing;
            true
        } else {
            self.state = ConversationState::AwaitingWakeWord;
            self.is_active = false;
            false
        }
    }

    /// A reply has been produced and spoken: the exchange is recorded
    /// (evicting the oldest past the cap) and the machine returns to
    /// awaiting the wake word.
    pub fn on_response(&mut self, command: String, response: String)
        requires
            old(self).wf(),
            old(self).state() == ConversationState::Processing,
        ensures
            final(self).wf(),
            ({
                let pushed = old(self).history().push((command@, response@));
                final(self).history() == if pushed.len() > MAX_HISTORY {
                    pushed.drop_first()
                } else {
                    pushed
                }
            }),
            final(self).state() == ConversationState::AwaitingWakeWord,
            !final(self).active(),
            final(self).energy_history() == old(self).energy_history(),
            final(self).activation() == old(self).activation(),
    {
        self.add_to_history(command, response);
        self.state = ConversationState::AwaitingWakeWord;
        self.is_active = false;
    }

    /// Record one command/response pair, evicting the oldest entry once
    /// the history outgrows its cap.
    pub fn add_to_history(&mut self, command: String, response: String)
        requires
            old(self).wf(),
        ensures
            final(self).wf(),
            ({
                let pushed = old(self).history().push((command@, response@));
                final(self).history() == if pushed.len() > MAX_HISTORY {
                    pushed.drop_first()
                } else {
                    pushed
                }
            }),
            final(self).state() == old(self).state(),
            final(self).active() == old(self).active(),
            final(self).energy_history() == old(self).energy_history(),
            final(self).activation() == old(self).activation(),
    {
        let ghost old_hist = self.command_history@;
        self.command_history.push((command, response));
        if self.command_history.len() > MAX_HISTORY {
            self.command_history.remove(0);
        }
        proof {
            let f = |p: (String, String)| (p.0@, p.1@);
            if old_hist.len() + 1 > MAX_HISTORY {
                assert(self.command_history@ =~= old_hist.push(
                    (command, response),
                ).drop_first());
                assert(self.command_history@.map_values(f) =~= old_hist.map_values(f).push(
                    (command@, response@),
                ).drop_first());
            } else {
                assert(self.command_history@.map_values(f) =~= old_hist.map_values(f).push(
                    (command@, response@),
                ));
            }
        }
    }

    /// A cycle that started in the transient processing state simply
    /// resumes listening.
    pub fn step_processing(&mut self)
        requires
            old(self).wf(),
            old(self).state() == ConversationState::Processing,
        ensures
            final(self).wf(),
            final(self).state() == ConversationState::Listening,
            final(self).active() == old(self).active(),
            final(self).history() == old(self).history(),
            final(self).energy_history() == old(self).energy_history(),
            final(self).activation() == old(self).activation(),
    {
        self.state = ConversationState::Listening;
    }

    /// Recovery from any per-cycle failure: the state is forced back to
    /// awaiting the wake word; nothing else is touched.
    pub fn on_error(&mut self)
        requires
            old(self).wf(),
        ensures
            final(self).wf(),
            final(self).state() == ConversationState::AwaitingWakeWord,
            !final(self).active(),
            final(self).history() == old(self).history(),
            final(self).energy_history() == old(self).energy_history(),
            final(self).activation() == old(self).activation(),
    {
        self.state = ConversationState::AwaitingWakeWord;
        self.is_active = false;
    }

    /// The current state, for the orchestrating loop.
    pub fn current_state(&self) -> (r: ConversationState)
        ensures
            r == self.state(),
    {
        self.state
    }

    /// Whether a conversation is in progress.
    pub fn is_active(&self) -> (r: bool)
        ensures
            r == self.active(),
    {
        self.is_active
    }

    /// How many exchanges the history holds.
    pub fn history_len(&self) -> (r: usize)
        ensures
            r == self.history().len(),
    {
        self.command_history.len()
    }

    /// One remembered exchange.
    pub fn history_entry(&self, i: usize) -> (r: &(String, String))
        requires
            i < self.history().len(),
        ensures
            r.0@ == self.history()[i as int].0,
            r.1@ == self.history()[i as int].1,
    {
        &self.command_history[i]
    }
}

} // verus!
