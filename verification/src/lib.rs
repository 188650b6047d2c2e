//! Signal-processing and decision core of a voice-controlled assistant.
//!
//! Samples are fixed-point amplitudes: the value `samples::SCALE` stands for
//! an amplitude of one. The crate conditions raw capture buffers (noise gate,
//! linear resampling), detects voice activity against an adaptive noise
//! floor, recognizes an activation phrase in transcribed text, and drives the
//! conversation state machine that sequences capture windows. Audio capture,
//! transcription, speech synthesis and the reasoning backend are external
//! collaborators; they hand buffers and text in and take decisions out.

pub mod assistant;
pub mod conditioner;
pub mod detector;
pub mod energy;
pub mod levenshtein;
pub mod matcher;
pub mod samples;
pub mod strings;
pub mod text;
pub mod tracker;
pub mod transcript;
