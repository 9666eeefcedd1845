use para::inference::segments::{build_segments, is_filler, join_as_paragraphs};
use para::inference::swift_bridge::WordTiming;
use para::inference::Segment;

fn w(word: &str, start_ms: u64, end_ms: u64) -> WordTiming {
    WordTiming {
        word: word.to_string(),
        start_ms,
        end_ms,
    }
}

#[test]
fn single_segment_when_no_large_gaps() {
    let words = vec![w("hello", 0, 500), w("world", 600, 1000)];
    let segs = build_segments(&words);
    assert_eq!(segs.len(), 1);
    assert_eq!(segs[0].text, "hello world");
    assert_eq!(segs[0].start_ms, 0);
    assert_eq!(segs[0].end_ms, 1000);
}

#[test]
fn large_gap_starts_a_new_segment() {
    let words = vec![w("hello", 0, 500), w("world", 5000, 5500)];
    let segs = build_segments(&words);
    assert_eq!(segs.len(), 2);
    assert_eq!(segs[0].text, "hello");
    assert_eq!(segs[1].text, "world");
}

#[test]
fn filler_words_are_removed_from_segment_text() {
    let words = vec![
        w("um", 0, 200),
        w("hello", 300, 600),
        w("uh", 700, 800),
        w("world", 900, 1200),
    ];
    let segs = build_segments(&words);
    assert_eq!(segs.len(), 1);
    assert_eq!(segs[0].text, "hello world");
}

#[test]
fn ordinary_word_resembling_a_filler_is_not_removed() {
    let words = vec![w("Hummus", 0, 500)];
    let segs = build_segments(&words);
    assert_eq!(segs.len(), 1);
    assert_eq!(segs[0].text, "Hummus");
}

#[test]
fn segment_of_only_filler_words_is_dropped_entirely() {
    let words = vec![w("um", 0, 200), w("uh", 5000, 5200)];
    let segs = build_segments(&words);
    assert!(segs.is_empty());
}

#[test]
fn join_as_paragraphs_separates_with_blank_line() {
    let segs = vec![
        Segment {
            start_ms: 0,
            end_ms: 1000,
            text: "first".to_string(),
        },
        Segment {
            start_ms: 5000,
            end_ms: 6000,
            text: "second".to_string(),
        },
    ];
    assert_eq!(join_as_paragraphs(&segs), "first\n\nsecond");
}

#[test]
fn gap_of_exactly_the_threshold_does_not_split() {
    let words = vec![w("a", 0, 1000), w("b", 2500, 3000), w("c", 4501, 5000)];
    let segs = build_segments(&words);
    assert_eq!(segs.len(), 2);
    assert_eq!(segs[0].text, "a b");
    assert_eq!(segs[1].text, "c");
}

#[test]
fn segment_spans_its_first_to_last_spoken_word() {
    let words = vec![w("Um,", 0, 200), w("yes", 300, 600), w("hmm", 700, 900)];
    let segs = build_segments(&words);
    assert_eq!(segs.len(), 1);
    assert_eq!((segs[0].start_ms, segs[0].end_ms), (300, 600));
}

#[test]
fn fillers_match_whole_words_in_any_case_with_punctuation() {
    assert!(is_filler("UM"));
    assert!(is_filler("Mhm,"));
    assert!(is_filler("mmm..."));
    assert!(!is_filler("umbrella"));
    assert!(!is_filler("ummm"));
    assert!(build_segments(&[]).is_empty());
    assert_eq!(join_as_paragraphs(&[]), "");
}
