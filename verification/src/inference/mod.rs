//! Turning recognizer output into para's own transcript shapes.
//!
//! Times are whole milliseconds throughout the library: the recognizer's
//! fractional seconds are rounded to the millisecond at the edge of the
//! program, which is also the finest unit any output format shows.

pub mod decoder;
pub mod engine;
pub mod numbers;
pub mod segments;
pub mod swift_bridge;

use vstd::prelude::*;

verus! {

/// One timed unit of a transcript. `start_ms`/`end_ms` are milliseconds from
/// the start of the input.
#[derive(Debug, Clone)]
pub struct Segment {
    pub start_ms: u64,
    pub end_ms: u64,
    pub text: String,
}

/// What a [`Segment`] holds, as plain values.
pub struct SegmentView {
    pub start_ms: u64,
    pub end_ms: u64,
    pub text: Seq<char>,
}

impl View for Segment {
    type V = SegmentView;

    open spec fn view(&self) -> SegmentView {
        SegmentView { start_ms: self.start_ms, end_ms: self.end_ms, text: self.text@ }
    }
}

/// The result of transcribing one input file.
#[derive(Debug, Clone)]
pub struct Transcript {
    pub text: String,
    pub segments: Vec<Segment>,
    pub model: String,
    pub duration_ms: u64,
}

/// The views of a list of segments.
pub open spec fn segment_views(segments: Seq<Segment>) -> Seq<SegmentView> {
    segments.map_values(|s: Segment| s@)
}

} // verus!
