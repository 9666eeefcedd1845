//! Chunking long inputs for the encoder, and the frame bookkeeping around
//! it: which sample ranges to encode, how much encoder context to add on
//! both sides of a chunk, and which encoder frames to keep afterwards.

use vstd::prelude::*;
use std::ops::Range;

verus! {

/// Audio sample rate throughout the pipeline (16 kHz mono).
pub const SAMPLE_RATE: usize = 16_000;

/// Inputs up to this many seconds are encoded in a single pass, never chunked.
pub const SINGLE_PASS_THRESHOLD_SECONDS: usize = 300;

/// Length of each chunk, in seconds, once an input exceeds the single-pass threshold.
pub const CHUNK_SECONDS: usize = 30;

/// Extra audio, in seconds, fed to the encoder on each side of a chunk for
/// acoustic context; the frames it produces are trimmed before decoding.
pub const CHUNK_OVERLAP_SECONDS: usize = 5;

/// Input samples per encoder output frame: the encoder emits 12.5 frames per second.
pub const SAMPLES_PER_ENCODER_FRAME: usize = 1280;

/// Number of samples in the single-pass threshold.
pub open spec fn single_pass_len() -> int {
    4_800_000
}

/// Number of samples in one chunk.
pub open spec fn chunk_len() -> int {
    480_000
}

/// The chunk ranges of an input of `total` samples: the whole input when it
/// fits the single-pass threshold, else consecutive chunk-length windows, the
/// last one cut at the end of the input.
pub open spec fn spec_chunk_ranges(total: usize) -> Seq<(int, int)> {
    if total <= single_pass_len() {
        seq![(0int, total as int)]
    } else {
        Seq::new(
            ((total + chunk_len() - 1) / chunk_len()) as nat,
            |k: int| (k * chunk_len(), if (k + 1) * chunk_len() < total { (k + 1) * chunk_len() } else { total as int }),
        )
    }
}

/// The bounds of a list of ranges.
pub open spec fn range_bounds(rs: Seq<Range<usize>>) -> Seq<(int, int)> {
    rs.map_values(|r: Range<usize>| (r.start as int, r.end as int))
}

/// Splits `total_samples` into sequential, non-overlapping ranges of at most
/// a chunk each, once the input exceeds the single-pass threshold; a single
/// range spanning the whole input otherwise.
pub fn chunk_ranges(total_samples: usize) -> (r: Vec<Range<usize>>)
    ensures
        range_bounds(r@) == spec_chunk_ranges(total_samples),
{
    let single_pass: usize = SINGLE_PASS_THRESHOLD_SECONDS * SAMPLE_RATE;
    let mut ranges: Vec<Range<usize>> = Vec::new();
    if total_samples <= single_pass {
        ranges.push(0..total_samples);
        assert(range_bounds(ranges@) =~= seq![(0int, total_samples as int)]);
        return ranges;
    }
    let chunk: usize = CHUNK_SECONDS * SAMPLE_RATE;
    let ghost count = ((total_samples + chunk_len() - 1) / chunk_len()) as nat;
    assert(count >= 1) by (nonlinear_arith)
        requires
            count == ((total_samples + chunk_len() - 1) / chunk_len()) as nat,
            total_samples >= 1,
            chunk_len() == 480_000;
    let mut start: usize = 0;
    while start < total_samples
        invariant
            chunk == chunk_len(),
            total_samples > single_pass_len(),
            count == ((total_samples + chunk_len() - 1) / chunk_len()) as nat,
            start == (if ranges@.len() * chunk_len() < total_samples { ranges@.len() * chunk_len() } else { total_samples as int }),
            start <= total_samples,
            ranges@.len() <= count,
            start < total_samples ==> ranges@.len() < count,
            range_bounds(ranges@) == Seq::new(
                ranges@.len() as nat,
                |k: int| (k * chunk_len(), if (k + 1) * chunk_len() < total_samples { (k + 1) * chunk_len() } else { total_samples as int }),
            ),
        decreases total_samples - start,
    {
        let end = if total_samples - start > chunk { start + chunk } else { total_samples };
        let ghost k = ranges@.len() as int;
        let ghost before = range_bounds(ranges@);
        ranges.push(start..end);
        assert(range_bounds(ranges@) =~= before.push((start as int, end as int)));
        assert(range_bounds(ranges@) =~= Seq::new(
            ranges@.len() as nat,
            |k: int| (k * chunk_len(), if (k + 1) * chunk_len() < total_samples { (k + 1) * chunk_len() } else { total_samples as int }),
        ));
        start = end;
        assert(start < total_samples ==> ranges@.len() < count) by {
            if start < total_samples {
                assert((k + 1) * chunk_len() < total_samples);
                assert(ranges@.len() * chunk_len() + chunk_len() <= total_samples + chunk_len() - 1);
                assert((ranges@.len() + 1) * chunk_len() <= total_samples + chunk_len() - 1);
                assert(ranges@.len() + 1 <= (total_samples + chunk_len() - 1) / chunk_len()) by (nonlinear_arith)
                    requires
                        (ranges@.len() + 1) * chunk_len() <= total_samples + chunk_len() - 1,
                        chunk_len() > 0;
            }
        }
    }
    assert(ranges@.len() == count) by {
        assert(ranges@.len() * chunk_len() >= total_samples);
        assert((total_samples + chunk_len() - 1) / chunk_len() <= ranges@.len()) by (nonlinear_arith)
            requires
                ranges@.len() * chunk_len() >= total_samples,
                chunk_len() > 0;
    }
    ranges
}

proof fn lemma_chunk_count(total: int)
    requires
        total > single_pass_len(),
    ensures
        ((total + chunk_len() - 1) / chunk_len()) * chunk_len() >= total,
        (((total + chunk_len() - 1) / chunk_len()) - 1) * chunk_len() < total,
        (total + chunk_len() - 1) / chunk_len() >= 1,
{
    let c = chunk_len();
    let n = (total + c - 1) / c;
    assert(n * c >= total && (n - 1) * c < total && n >= 1) by (nonlinear_arith)
        requires
            n == (total + c - 1) / c,
            c == 480_000,
            total > 0;
}

/// Chunking covers the input exactly: the ranges start at 0, end at the end
/// of the input, each starts where the previous one ended, none is empty
/// unless the input is, and once chunking kicks in none is longer than a
/// chunk. Inputs within the single-pass threshold are never split.
pub proof fn law_chunk_ranges_partition(total: usize)
    ensures
        ({
            let rs = spec_chunk_ranges(total);
            &&& rs.len() >= 1
            &&& rs[0].0 == 0
            &&& rs[rs.len() - 1].1 == total
            &&& forall|k: int| 0 <= k < rs.len() - 1 ==> (#[trigger] rs[k]).1 == rs[k + 1].0
            &&& total > 0 ==> forall|k: int| 0 <= k < rs.len() ==> (#[trigger] rs[k]).0 < rs[k].1
            &&& total <= single_pass_len() ==> rs.len() == 1
            &&& total > single_pass_len() ==> forall|k: int| 0 <= k < rs.len() ==> (#[trigger] rs[k]).1 - rs[k].0 <= chunk_len()
        }),
{
    if total > single_pass_len() {
        lemma_chunk_count(total as int);
        let rs = spec_chunk_ranges(total);
        let n = rs.len() as int;
        assert(rs[n - 1].1 == total);
        assert forall|k: int| 0 <= k < rs.len() implies (#[trigger] rs[k]).0 < rs[k].1 by {
            assert(k <= n - 1);
            assert(k * chunk_len() <= (n - 1) * chunk_len()) by (nonlinear_arith)
                requires k <= n - 1, chunk_len() == 480_000;
        }
    }
}

/// One chunk's encoder output, a `[1, hidden_size, frames]` tensor flattened
/// row-major (hidden-major: one frame's values are `frames` apart).
pub struct EncoderOutput<T> {
    pub data: Vec<T>,
    pub hidden_size: usize,
    pub frames: usize,
}

/// `data` is a `hidden` by `frames` matrix, flattened row-major.
pub open spec fn is_matrix<T>(data: Seq<T>, hidden: int, frames: int) -> bool {
    hidden >= 0 && frames >= 0 && data.len() == hidden * frames
}

proof fn lemma_matrix_index(hidden: int, frames: int, h: int, t: int)
    requires
        0 <= h < hidden,
        0 <= t < frames,
    ensures
        0 <= h * frames + t < hidden * frames,
        h * frames + frames <= hidden * frames,
{
    assert(h * frames <= (hidden - 1) * frames) by (nonlinear_arith)
        requires 0 <= h <= hidden - 1, frames >= 0;
    assert((hidden - 1) * frames == hidden * frames - frames) by (nonlinear_arith);
    assert(0 <= h * frames) by (nonlinear_arith)
        requires 0 <= h, 0 <= frames;
}

/// Gathers encoder frame `t`'s `hidden_size` values into a contiguous buffer:
/// a fixed time step is strided in the hidden-major layout, one value every
/// `frames` elements.
pub fn frame_slice<T: Copy>(output: &EncoderOutput<T>, t: usize) -> (r: Vec<T>)
    requires
        is_matrix(output.data@, output.hidden_size as int, output.frames as int),
        t < output.frames,
    ensures
        r@.len() == output.hidden_size,
        forall|h: int| 0 <= h < output.hidden_size ==> #[trigger] r@[h] == output.data@[h * output.frames + t],
{
    let mut r: Vec<T> = Vec::new();
    let len = output.data.len();
    let mut h: usize = 0;
    while h < output.hidden_size
        invariant
            len == output.data@.len(),
            is_matrix(output.data@, output.hidden_size as int, output.frames as int),
            t < output.frames,
            h <= output.hidden_size,
            r@.len() == h,
            forall|k: int| 0 <= k < h ==> #[trigger] r@[k] == output.data@[k * output.frames + t],
        decreases output.hidden_size - h,
    {
        proof { lemma_matrix_index(output.hidden_size as int, output.frames as int, h as int, t as int); }
        r.push(output.data[h * output.frames + t]);
        h = h + 1;
    }
    r
}

/// Drops `lead` frames from the start and `tail` frames from the end of an
/// encoder output: the frames that only gave the encoder context across a
/// chunk boundary, so that nothing is decoded twice.
pub fn trim_frames<T: Copy>(output: &mut EncoderOutput<T>, lead: usize, tail: usize)
    requires
        is_matrix(old(output).data@, old(output).hidden_size as int, old(output).frames as int),
        lead + tail <= old(output).frames,
    ensures
        final(output).hidden_size == old(output).hidden_size,
        final(output).frames == old(output).frames - lead - tail,
        is_matrix(final(output).data@, final(output).hidden_size as int, final(output).frames as int),
        forall|h: int, t: int| 0 <= h < final(output).hidden_size && 0 <= t < final(output).frames
            ==> #[trigger] final(output).data@[h * final(output).frames + t]
                == old(output).data@[h * old(output).frames + lead + t],
{
    if lead == 0 && tail == 0 {
        assert forall|h: int, t: int| 0 <= h < output.hidden_size && 0 <= t < output.frames
            implies #[trigger] output.data@[h * output.frames + t] == output.data@[h * output.frames + lead + t] by {}
        return;
    }
    let hidden = output.hidden_size;
    let frames = output.frames;
    let new_frames = frames - lead - tail;
    let ghost old_data = output.data@;
    let len = output.data.len();
    let mut new_data: Vec<T> = Vec::new();
    let mut h: usize = 0;
    while h < hidden
        invariant
            len == old_data.len(),
            hidden == output.hidden_size,
            frames == output.frames,
            old_data == output.data@,
            is_matrix(old_data, hidden as int, frames as int),
            new_frames == frames - lead - tail,
            h <= hidden,
            new_data@.len() == h * new_frames,
            forall|a: int, t: int| 0 <= a < h && 0 <= t < new_frames
                ==> #[trigger] new_data@[a * new_frames + t] == old_data[a * frames + lead + t],
        decreases hidden - h,
    {
        let mut t: usize = 0;
        proof {
            if new_frames > 0 {
                lemma_matrix_index(hidden as int, frames as int, h as int, lead as int);
            }
        }
        while t < new_frames
            invariant
                len == old_data.len(),
                hidden == output.hidden_size,
                frames == output.frames,
                old_data == output.data@,
                is_matrix(old_data, hidden as int, frames as int),
                new_frames == frames - lead - tail,
                h < hidden,
                t <= new_frames,
                new_data@.len() == h * new_frames + t,
                forall|a: int, u: int| 0 <= a < h && 0 <= u < new_frames
                    ==> #[trigger] new_data@[a * new_frames + u] == old_data[a * frames + lead + u],
                forall|u: int| 0 <= u < t ==> #[trigger] new_data@[h * new_frames + u] == old_data[h * frames + lead + u],
            decreases new_frames - t,
        {
            proof { lemma_matrix_index(hidden as int, frames as int, h as int, (lead + t) as int); }
            let ghost before = new_data@;
            new_data.push(output.data[h * frames + lead + t]);
            assert forall|a: int, u: int| 0 <= a < h && 0 <= u < new_frames
                implies #[trigger] new_data@[a * new_frames + u] == old_data[a * frames + lead + u] by {
                lemma_matrix_index(h as int, new_frames as int, a, u);
                assert(before[a * new_frames + u] == new_data@[a * new_frames + u]);
            }
            t = t + 1;
        }
        assert((h + 1) * new_frames == h * new_frames + new_frames) by (nonlinear_arith);
        assert forall|a: int, u: int| 0 <= a < h + 1 && 0 <= u < new_frames
            implies #[trigger] new_data@[a * new_frames + u] == old_data[a * frames + lead + u] by {
            if a == h {
            }
        }
        h = h + 1;
    }
    output.data = new_data;
    output.frames = new_frames;
}

/// The samples actually fed to the encoder for a chunk `[start, end)` of a
/// `total`-sample input: the chunk plus up to the overlap on each side, and
/// how many of those samples lie before and after the chunk itself.
pub struct EncodeWindow {
    pub encode_start: usize,
    pub encode_end: usize,
    pub lead_samples: usize,
    pub tail_samples: usize,
}

/// Number of samples in the context overlap.
pub open spec fn overlap_len() -> int {
    80_000
}

/// The encode window of the chunk `[start, end)` of a `total`-sample input.
pub fn encode_window(start: usize, end: usize, total: usize) -> (w: EncodeWindow)
    requires
        start <= end <= total,
    ensures
        w.encode_start == if start >= overlap_len() { start - overlap_len() } else { 0 },
        w.encode_end == if total - end >= overlap_len() { end + overlap_len() } else { total as int },
        w.lead_samples == start - w.encode_start,
        w.tail_samples == w.encode_end - end,
        w.encode_start <= start <= end <= w.encode_end <= total,
{
    let overlap: usize = CHUNK_OVERLAP_SECONDS * SAMPLE_RATE;
    let encode_start = if start >= overlap { start - overlap } else { 0 };
    let encode_end = if total - end >= overlap { end + overlap } else { total };
    EncodeWindow {
        encode_start,
        encode_end,
        lead_samples: start - encode_start,
        tail_samples: encode_end - end,
    }
}

/// The encoder frames to trim before and after a chunk whose window has
/// `lead_samples` and `tail_samples` of context, given that the encoder
/// produced `frames` frames: each overlap's length in whole frames, cut back
/// so that at least one frame always stays.
pub open spec fn spec_overlap_trims(lead_samples: usize, tail_samples: usize, frames: usize) -> (usize, usize) {
    let lead = lead_samples / SAMPLES_PER_ENCODER_FRAME;
    let tail = tail_samples / SAMPLES_PER_ENCODER_FRAME;
    let max_trim: int = if frames >= 1 { frames - 1 } else { 0 };
    if lead + tail > max_trim {
        let l = if lead < max_trim { lead as int } else { max_trim };
        let rest = max_trim - l;
        (l as usize, (if tail < rest { tail as int } else { rest }) as usize)
    } else {
        (lead as usize, tail as usize)
    }
}

/// The encoder frames to trim before and after a chunk.
pub fn overlap_trims(lead_samples: usize, tail_samples: usize, frames: usize) -> (r: (usize, usize))
    ensures
        r == spec_overlap_trims(lead_samples, tail_samples, frames),
        r.0 + r.1 <= frames,
        frames >= 1 ==> r.0 + r.1 < frames,
{
    let lead = lead_samples / SAMPLES_PER_ENCODER_FRAME;
    let tail = tail_samples / SAMPLES_PER_ENCODER_FRAME;
    let max_trim = if frames >= 1 { frames - 1 } else { 0 };
    if lead > max_trim || tail > max_trim - lead {
        let l = if lead < max_trim { lead } else { max_trim };
        let rest = max_trim - l;
        (l, if tail < rest { tail } else { rest })
    } else {
        (lead, tail)
    }
}

} // verus!
