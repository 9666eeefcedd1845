use para::inference::{Segment, Transcript};
use para::output::srt::{fmt_srt_time, render as render_srt};
use para::output::text::render as render_text;

#[test]
fn formats_timestamp_with_comma_separator() {
    assert_eq!(fmt_srt_time(3_661_500), "01:01:01,500");
}

#[test]
fn formats_zero() {
    assert_eq!(fmt_srt_time(0), "00:00:00,000");
}

#[test]
fn hours_beyond_two_digits_are_not_wrapped() {
    assert_eq!(fmt_srt_time(360_000_007), "100:00:00,007");
}

#[test]
fn writes_numbered_blocks_with_blank_line_separator() {
    let transcript = Transcript {
        text: "hello world".to_string(),
        segments: vec![
            Segment {
                start_ms: 0,
                end_ms: 2400,
                text: "First segment text".to_string(),
            },
            Segment {
                start_ms: 2400,
                end_ms: 4100,
                text: "Second segment text".to_string(),
            },
        ],
        model: "parakeet-tdt-0.6b-v3".to_string(),
        duration_ms: 4100,
    };
    let text = render_srt(&transcript);
    assert_eq!(
        text,
        "1\n00:00:00,000 --> 00:00:02,400\nFirst segment text\n\n\
         2\n00:00:02,400 --> 00:00:04,100\nSecond segment text\n\n"
    );
}

#[test]
fn single_segment_transcript_produces_one_block() {
    let transcript = Transcript {
        text: "whole file text".to_string(),
        segments: vec![Segment {
            start_ms: 0,
            end_ms: 5000,
            text: "whole file text".to_string(),
        }],
        model: "parakeet-tdt-0.6b-v3".to_string(),
        duration_ms: 5000,
    };
    let text = render_srt(&transcript);
    assert_eq!(text.matches("-->").count(), 1);
    assert!(text.starts_with('1'));
}

#[test]
fn writes_text_and_trailing_newline_only() {
    let transcript = Transcript {
        text: "hello world".to_string(),
        segments: vec![],
        model: "test-model".to_string(),
        duration_ms: 1000,
    };
    let out = render_text(&transcript);
    assert_eq!(out.as_bytes(), b"hello world\n");
}
