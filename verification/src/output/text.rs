//! The plain-text output form: the transcript text and nothing else.

use vstd::prelude::*;
use crate::inference::Transcript;

verus! {

/// The transcript text plus a trailing newline, and nothing else.
pub fn render(transcript: &Transcript) -> (r: String)
    ensures
        r@ == transcript.text@ + "\n"@,
{
    let mut out = transcript.text.clone();
    out.append("\n");
    out
}

} // verus!
