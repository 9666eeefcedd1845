//! Verified core of `para`, a local audio/video transcription tool.

pub mod audio;
pub mod cli;
pub mod inference;
pub mod model;
pub mod output;
pub mod progress;
pub mod strings;
