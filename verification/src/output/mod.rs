//! The output forms a run can produce, rendered as text.

pub mod srt;
pub mod text;

use vstd::prelude::*;

verus! {

/// The three output forms a run can produce.
#[derive(Debug, Clone, Copy, PartialEq, Eq, Structural)]
pub enum OutputFormat {
    Text,
    Json,
    Srt,
}

impl OutputFormat {
    /// The form used when none is asked for: plain text.
    pub fn default_format() -> (r: OutputFormat)
        ensures
            r == OutputFormat::Text,
    {
        OutputFormat::Text
    }
}

} // verus!
