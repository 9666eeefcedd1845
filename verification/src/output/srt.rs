//! The SRT subtitle output form: numbered blocks with comma-separated
//! millisecond timestamps.

use vstd::prelude::*;
use crate::inference::{segment_views, SegmentView, Transcript};
use crate::strings::{decimal, decimal_string, digit_char, padded_decimal_string, zero_padded};

verus! {

/// `HH:MM:SS,mmm` for a time of `ms` milliseconds: hours are not wrapped and
/// take at least two digits, and the millisecond separator is a comma.
pub open spec fn srt_timestamp(ms: u64) -> Seq<char> {
    zero_padded(decimal((ms / 3_600_000) as nat), 2) + ":"@
        + zero_padded(decimal(((ms / 60_000) % 60) as nat), 2) + ":"@
        + zero_padded(decimal(((ms / 1000) % 60) as nat), 2) + ","@
        + zero_padded(decimal((ms % 1000) as nat), 3)
}

/// Formats a time in milliseconds as an SRT timestamp.
pub fn fmt_srt_time(ms: u64) -> (r: String)
    ensures
        r@ == srt_timestamp(ms),
{
    let mut out = padded_decimal_string(ms / 3_600_000, 2);
    out.append(":");
    let m = padded_decimal_string((ms / 60_000) % 60, 2);
    out.append(m.as_str());
    out.append(":");
    let s = padded_decimal_string((ms / 1000) % 60, 2);
    out.append(s.as_str());
    out.append(",");
    let milli = padded_decimal_string(ms % 1000, 3);
    out.append(milli.as_str());
    out
}

/// The SRT block of segment `seg`, numbered `number`: its number, its time
/// range, its text, and a blank line.
pub open spec fn srt_block(number: nat, seg: SegmentView) -> Seq<char> {
    decimal(number) + "\n"@ + srt_timestamp(seg.start_ms) + " --> "@ + srt_timestamp(seg.end_ms) + "\n"@
        + seg.text + "\n"@ + "\n"@
}

/// The SRT document of a list of segments: their blocks in order, numbered from 1.
pub open spec fn srt_document(segs: Seq<SegmentView>) -> Seq<char>
    decreases segs.len(),
{
    if segs.len() == 0 {
        Seq::empty()
    } else {
        srt_document(segs.drop_last()) + srt_block(segs.len(), segs.last())
    }
}

fn render_block(number: u64, seg: &crate::inference::Segment) -> (r: String)
    ensures
        r@ == srt_block(number as nat, seg@),
{
    let mut out = decimal_string(number);
    out.append("\n");
    let start = fmt_srt_time(seg.start_ms);
    out.append(start.as_str());
    out.append(" --> ");
    let end = fmt_srt_time(seg.end_ms);
    out.append(end.as_str());
    out.append("\n");
    out.append(seg.text.as_str());
    out.append("\n");
    out.append("\n");
    out
}

/// Renders `transcript` as numbered, comma-timestamped SRT blocks, one per segment.
pub fn render(transcript: &Transcript) -> (r: String)
    ensures
        r@ == srt_document(segment_views(transcript.segments@)),
{
    let ghost segs = segment_views(transcript.segments@);
    let mut out = String::new();
    let n = transcript.segments.len();
    let mut i: usize = 0;
    while i < n
        invariant
            n == transcript.segments@.len(),
            segs == segment_views(transcript.segments@),
            i <= n,
            out@ == srt_document(segs.take(i as int)),
        decreases n - i,
    {
        let seg = &transcript.segments[i];
        assert(segs.take(i + 1).drop_last() =~= segs.take(i as int));
        assert(segs.take(i + 1).last() == seg@);
        let block = render_block((i as u64) + 1, seg);
        out.append(block.as_str());
        i = i + 1;
    }
    assert(segs.take(n as int) =~= segs);
    out
}

proof fn lemma_two_digits(x: nat)
    requires
        x < 100,
    ensures
        zero_padded(decimal(x), 2).len() == 2,
{
    if x >= 10 {
        assert(x / 10 < 10);
        assert(decimal((x / 10) as nat).len() == 1);
        assert(decimal(x) == decimal((x / 10) as nat).push(digit_char((x % 10) as nat)));
    } else {
        assert(decimal(x).len() == 1);
    }
}

proof fn lemma_three_digits(x: nat)
    requires
        x < 1000,
    ensures
        zero_padded(decimal(x), 3).len() == 3,
{
    lemma_decimal_len_bound(x);
}

proof fn lemma_decimal_len_bound(x: nat)
    requires
        x < 1000,
    ensures
        decimal(x).len() <= 3,
{
    if x >= 10 {
        let y = (x / 10) as nat;
        assert(decimal(x) == decimal(y).push(digit_char((x % 10) as nat)));
        if y >= 10 {
            let z = (y / 10) as nat;
            assert(z < 10);
            assert(decimal(z).len() == 1);
            assert(decimal(y) == decimal(z).push(digit_char((y % 10) as nat)));
        } else {
            assert(decimal(y).len() == 1);
        }
    } else {
        assert(decimal(x).len() == 1);
    }
}

/// Under 100 hours, an SRT timestamp is twelve characters, `HH:MM:SS,mmm`:
/// colons after the hours and the minutes, and a comma, not a dot, before
/// the milliseconds.
pub proof fn law_srt_timestamp_layout(ms: u64)
    requires
        ms < 360_000_000,
    ensures
        srt_timestamp(ms).len() == 12,
        srt_timestamp(ms)[2] == ':',
        srt_timestamp(ms)[5] == ':',
        srt_timestamp(ms)[8] == ',',
{
    reveal_strlit(":");
    reveal_strlit(",");
    lemma_two_digits((ms / 3_600_000) as nat);
    lemma_two_digits(((ms / 60_000) % 60) as nat);
    lemma_two_digits(((ms / 1000) % 60) as nat);
    lemma_three_digits((ms % 1000) as nat);
}

} // verus!
