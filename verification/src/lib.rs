//! Verified core of a real-time speech-to-text server.

pub mod audio;
pub mod vad;
pub mod text;
pub mod asr;
pub mod pipeline;
