//! Timing and voicing rules of a note-level voice resampler.
//!
//! `timeline` lays a requested note over an analysed source sample: which
//! source position each output frame reads, and which frames are voiced.
//! `pitch` holds the rule that unvoiced frames carry no pitch.

pub mod pitch;
pub mod timeline;
