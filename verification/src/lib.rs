//! Core of a dual-channel meeting transcription engine: text post-processing
//! (hallucination rejection, filler and stutter cleanup, custom-vocabulary
//! correction, overlap trimming, cross-channel duplicate detection), VAD
//! segmentation, chunking decisions and segment bookkeeping.

pub mod chars;
pub mod words;
pub mod editdist;
pub mod dedup;
pub mod overlap;
pub mod textmatch;
pub mod hallucination;
pub mod filter;
pub mod correction;
pub mod vad;
pub mod chunking;
pub mod segments;
pub mod engine;
pub mod formatting;
pub mod platform;
pub mod chat;
pub mod pipeline;
