use para::inference::decoder::{
    collapse_ctc_tokens, text_lines, group_into_segments, transcript_from_ctc_tokens, transcript_from_tdt_tokens,
    TdtCursor, TokenTiming, Vocab, VocabError, SEGMENT_GAP_FRAMES,
};

fn write_vocab(lines: &[&str]) -> String {
    let mut text = String::new();
    for line in lines {
        text.push_str(line);
        text.push('\n');
    }
    text
}

fn load(lines: &[&str]) -> Result<Vocab, VocabError> {
    Vocab::from_text(&write_vocab(lines))
}

#[test]
fn decodes_pieces_and_replaces_word_boundary() {
    let vocab = load(&["▁hello 0", "▁world 1", "<blk> 2"]).unwrap();
    assert_eq!(vocab.decode(&[0, 1]), "hello world");
}

#[test]
fn locates_blank_token_by_name() {
    let vocab = load(&["▁a 0", "▁b 1", "<blk> 2"]).unwrap();
    assert_eq!(vocab.blank_id(), Some(2));
}

#[test]
fn no_blank_token_returns_none() {
    let vocab = load(&["▁a 0", "▁b 1"]).unwrap();
    assert_eq!(vocab.blank_id(), None);
}

#[test]
fn rejects_mismatched_line_and_id() {
    assert!(load(&["▁a 0", "▁b 5"]).is_err());
}

#[test]
fn rejects_line_without_id_field() {
    assert!(load(&["justapiece"]).is_err());
}

#[test]
fn unknown_token_id_is_skipped_not_panicking() {
    let vocab = load(&["▁a 0"]).unwrap();
    assert_eq!(vocab.decode(&[0, 99]), "a");
}

#[test]
fn collapses_double_spaces_from_adjacent_word_boundary_pieces() {
    let vocab = load(&["▁ 0", "▁hi 1"]).unwrap();
    assert_eq!(vocab.decode(&[0, 1]), "hi");
}

#[test]
fn vocab_errors_name_the_line() {
    assert_eq!(load(&["▁a 0", "nospace"]).err(), Some(VocabError::MissingId { line: 2 }));
    assert_eq!(load(&["▁a x"]).err(), Some(VocabError::NonNumericId { line: 1 }));
    assert_eq!(load(&["▁a 0", "▁b 5"]).err(), Some(VocabError::IdMismatch { line: 2, id: 5 }));
    assert_eq!(load(&["▁a 99999999999999999999999"]).err(), Some(VocabError::NonNumericId { line: 1 }));
}

#[test]
fn vocab_reads_crlf_plus_signs_and_a_missing_final_newline() {
    let vocab = Vocab::from_text("▁a 0\r\n▁b +1\r\nc d 2").unwrap();
    assert_eq!(vocab.len(), 3);
    assert!(!vocab.is_empty());
    assert_eq!(vocab.decode(&[0, 1, 2]), "a bc d");
    let empty = Vocab::from_text("").unwrap();
    assert!(empty.is_empty());
    assert_eq!(empty.decode(&[0, -1]), "");
}

#[test]
fn decode_skips_negative_ids_and_collapses_other_whitespace() {
    let vocab = load(&["▁a\t 0", "b 1"]).unwrap();
    assert_eq!(vocab.decode(&[-1, 0, 1, 0]), "a b a");
}

fn word_vocab() -> Vocab {
    load(&["▁one 0", "▁two 1", "▁three 2", "<blk> 3"]).unwrap()
}

#[test]
fn empty_tokens_produce_no_segments() {
    let vocab = word_vocab();
    assert!(group_into_segments(&[], &vocab, 10_000).is_empty());
}

#[test]
fn contiguous_tokens_form_a_single_segment() {
    let vocab = word_vocab();
    let tokens = vec![
        TokenTiming {
            token_id: 0,
            frame: 0,
        },
        TokenTiming {
            token_id: 1,
            frame: 5,
        },
    ];
    let segments = group_into_segments(&tokens, &vocab, 10_000);
    assert_eq!(segments.len(), 1);
    assert_eq!(segments[0].text, "one two");
    assert_eq!(segments[0].start_ms, 0);
    assert_eq!(segments[0].end_ms, 10_000);
}

#[test]
fn large_gap_starts_a_new_ordered_non_overlapping_segment() {
    let vocab = word_vocab();
    let gap_frames = SEGMENT_GAP_FRAMES + 1;
    let tokens = vec![
        TokenTiming {
            token_id: 0,
            frame: 0,
        },
        TokenTiming {
            token_id: 1,
            frame: gap_frames,
        },
        TokenTiming {
            token_id: 2,
            frame: gap_frames + 1,
        },
    ];
    let segments = group_into_segments(&tokens, &vocab, 20_000);
    assert_eq!(segments.len(), 2);
    assert_eq!(segments[0].text, "one");
    assert_eq!(segments[1].text, "two three");
    for s in &segments {
        assert!(s.end_ms > s.start_ms);
    }
    assert_eq!(segments[0].end_ms, segments[1].start_ms);
    assert_eq!(segments[1].end_ms, 20_000);
}

#[test]
fn last_segment_lasts_at_least_one_frame() {
    let vocab = word_vocab();
    let tokens = vec![TokenTiming { token_id: 0, frame: 100 }];
    let segments = group_into_segments(&tokens, &vocab, 1_000);
    assert_eq!((segments[0].start_ms, segments[0].end_ms), (8_000, 8_080));
}

#[test]
fn ctc_collapse_merges_repeats_and_drops_blanks() {
    // frames: one, one (repeat), blank, two, two, blank, one
    let tokens = collapse_ctc_tokens(&[0, 0, 2, 1, 1, 2, 0], 2, 10);
    let got: Vec<(usize, usize)> = tokens.iter().map(|t| (t.token_id, t.frame)).collect();
    assert_eq!(got, vec![(0, 10), (1, 13), (0, 16)]);
    assert!(collapse_ctc_tokens(&[2, 2], 2, 0).is_empty());
}

#[test]
fn ctc_transcript_is_one_whole_file_segment_or_none() {
    let vocab = word_vocab();
    let t = transcript_from_ctc_tokens(&[TokenTiming { token_id: 0, frame: 3 }], &vocab, "m", 4_000);
    assert_eq!(t.text, "one");
    assert_eq!(t.segments.len(), 1);
    assert_eq!((t.segments[0].start_ms, t.segments[0].end_ms), (0, 4_000));
    assert_eq!(t.model, "m");
    let silent = transcript_from_ctc_tokens(&[], &vocab, "m", 4_000);
    assert_eq!(silent.text, "");
    assert!(silent.segments.is_empty());
}

#[test]
fn tdt_transcript_joins_all_text_and_groups_segments() {
    let vocab = word_vocab();
    let tokens = vec![
        TokenTiming { token_id: 0, frame: 0 },
        TokenTiming { token_id: 1, frame: 40 },
    ];
    let t = transcript_from_tdt_tokens(&tokens, &vocab, "tdt", 5_000);
    assert_eq!(t.text, "one two");
    assert_eq!(t.segments.len(), 2);
    assert_eq!(t.duration_ms, 5_000);
}

#[test]
fn tdt_cursor_moves_on_blank_duration_or_after_ten_emissions() {
    let blank = 3;
    let mut c = TdtCursor::new();
    assert!(!c.step(blank, 0, blank));
    assert_eq!(c, TdtCursor { frame: 1, emitted_at_frame: 0 });
    assert!(c.step(0, 2, blank));
    assert_eq!(c, TdtCursor { frame: 3, emitted_at_frame: 0 });
    for k in 1..10 {
        assert!(c.step(1, 0, blank));
        assert_eq!(c, TdtCursor { frame: 3, emitted_at_frame: k });
    }
    assert!(c.step(1, 0, blank));
    assert_eq!(c, TdtCursor { frame: 4, emitted_at_frame: 0 });
}

#[test]
fn text_lines_split_like_str_lines() {
    assert_eq!(text_lines("a 0\r\nb 1\nc 2"), vec!["a 0", "b 1", "c 2"]);
    assert_eq!(text_lines("x\n\ny\n"), vec!["x", "", "y"]);
    assert_eq!(text_lines(""), Vec::<String>::new());
    assert_eq!(text_lines("tail\r"), vec!["tail\r"]);
    for t in ["a\nb\r\n\nc\r", "\n", "\r\n", "one"] {
        assert_eq!(text_lines(t), t.lines().collect::<Vec<_>>());
    }
}
