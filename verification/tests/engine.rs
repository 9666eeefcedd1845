use para::inference::engine::{
    chunk_ranges, encode_window, frame_slice, overlap_trims, trim_frames, EncoderOutput, CHUNK_SECONDS,
    SAMPLE_RATE, SINGLE_PASS_THRESHOLD_SECONDS,
};

#[test]
fn single_chunk_for_input_under_single_pass_threshold() {
    let ranges = chunk_ranges(100 * SAMPLE_RATE);
    assert_eq!(ranges, vec![0..100 * SAMPLE_RATE]);
}

#[test]
fn single_chunk_when_over_chunk_seconds_but_under_single_pass_threshold() {
    let total = 200 * SAMPLE_RATE;
    let ranges = chunk_ranges(total);
    assert_eq!(ranges, vec![0..total]);
}

#[test]
fn splits_into_chunk_seconds_windows_once_over_single_pass_threshold() {
    let total = (SINGLE_PASS_THRESHOLD_SECONDS as usize + 60) * SAMPLE_RATE;
    let ranges = chunk_ranges(total);
    let chunk_len = CHUNK_SECONDS as usize * SAMPLE_RATE;
    let expected_chunks = total.div_ceil(chunk_len);
    assert_eq!(ranges.len(), expected_chunks);
    assert_eq!(ranges[0], 0..chunk_len);
    assert!(
        ranges
            .iter()
            .take(ranges.len() - 1)
            .all(|r| r.len() == chunk_len)
    );
}

#[test]
fn chunk_ranges_cover_input_with_no_gaps_or_overlap() {
    let total = (SINGLE_PASS_THRESHOLD_SECONDS as usize + 2 * CHUNK_SECONDS as usize)
        * SAMPLE_RATE
        + 12345;
    let ranges = chunk_ranges(total);
    assert_eq!(ranges[0].start, 0);
    assert_eq!(ranges.last().unwrap().end, total);
    for pair in ranges.windows(2) {
        assert_eq!(pair[0].end, pair[1].start);
    }
}

#[test]
fn exact_multiple_of_chunk_length_does_not_add_empty_trailing_chunk() {
    let chunk_len = CHUNK_SECONDS as usize * SAMPLE_RATE;
    let total = (SINGLE_PASS_THRESHOLD_SECONDS as usize + CHUNK_SECONDS as usize) * SAMPLE_RATE;
    assert_eq!(
        total % chunk_len,
        0,
        "test fixture must be an exact multiple"
    );
    let ranges = chunk_ranges(total);
    assert!(ranges.iter().all(|r| !r.is_empty()));
    assert_eq!(ranges.last().unwrap().end, total);
}

#[test]
fn empty_input_is_one_empty_range() {
    assert_eq!(chunk_ranges(0), vec![0..0]);
}

#[test]
fn frame_slice_gathers_one_time_step() {
    // hidden 2, frames 3: rows [1,2,3] and [4,5,6]
    let out = EncoderOutput { data: vec![1, 2, 3, 4, 5, 6], hidden_size: 2, frames: 3 };
    assert_eq!(frame_slice(&out, 1), vec![2, 5]);
}

#[test]
fn trim_frames_drops_lead_and_tail_frames_of_every_row() {
    let mut out = EncoderOutput { data: vec![1, 2, 3, 4, 5, 6, 7, 8], hidden_size: 2, frames: 4 };
    trim_frames(&mut out, 1, 1);
    assert_eq!(out.frames, 2);
    assert_eq!(out.data, vec![2, 3, 6, 7]);
}

#[test]
fn encode_window_adds_five_seconds_of_context_on_each_side() {
    let chunk = CHUNK_SECONDS * SAMPLE_RATE;
    let w = encode_window(chunk, 2 * chunk, 10 * chunk);
    assert_eq!(w.encode_start, chunk - 5 * SAMPLE_RATE);
    assert_eq!(w.encode_end, 2 * chunk + 5 * SAMPLE_RATE);
    assert_eq!(w.lead_samples, 5 * SAMPLE_RATE);
    let first = encode_window(0, chunk, 10 * chunk);
    assert_eq!(first.lead_samples, 0);
    let last = encode_window(9 * chunk, 10 * chunk, 10 * chunk);
    assert_eq!(last.tail_samples, 0);
}

#[test]
fn overlap_trims_convert_samples_to_frames_and_keep_one_frame() {
    assert_eq!(overlap_trims(80_000, 80_000, 500), (62, 62));
    assert_eq!(overlap_trims(80_000, 80_000, 100), (62, 37));
    assert_eq!(overlap_trims(80_000, 0, 1), (0, 0));
}
