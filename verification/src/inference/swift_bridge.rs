//! The values exchanged with the native speech-recognition backend: which
//! model to load, and the word timings it hands back.

use vstd::prelude::*;

verus! {

/// Which model version the backend loads.
#[derive(Debug, Clone, Copy, PartialEq, Eq, Structural)]
pub enum ModelVersion {
    V3,
    V2,
}

impl ModelVersion {
    /// The integer the backend's interface uses for this version.
    pub open spec fn spec_code(self) -> i32 {
        match self {
            ModelVersion::V3 => 0,
            ModelVersion::V2 => 1,
        }
    }

    /// The integer the backend's interface uses for this version.
    pub fn code(self) -> (r: i32)
        ensures
            r == self.spec_code(),
    {
        match self {
            ModelVersion::V3 => 0,
            ModelVersion::V2 => 1,
        }
    }
}

/// One recognized word and when it was spoken, in milliseconds.
#[derive(Debug, Clone)]
pub struct WordTiming {
    pub word: String,
    pub start_ms: u64,
    pub end_ms: u64,
}

/// What a [`WordTiming`] holds, as plain values.
pub struct WordTimingView {
    pub word: Seq<char>,
    pub start_ms: u64,
    pub end_ms: u64,
}

impl View for WordTiming {
    type V = WordTimingView;

    open spec fn view(&self) -> WordTimingView {
        WordTimingView { word: self.word@, start_ms: self.start_ms, end_ms: self.end_ms }
    }
}

/// The views of a list of word timings.
pub open spec fn word_views(words: Seq<WordTiming>) -> Seq<WordTimingView> {
    words.map_values(|w: WordTiming| w@)
}

/// The result of one file transcribed by the backend: its words, in order.
#[derive(Debug, Clone)]
pub struct SwiftTranscript {
    pub words: Vec<WordTiming>,
}

} // verus!
