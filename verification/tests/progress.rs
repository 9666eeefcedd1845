use para::progress::{ProgressAction, TranscriptionProgress};

fn suppressed() -> TranscriptionProgress {
    TranscriptionProgress::new(true, true)
}

fn interactive() -> TranscriptionProgress {
    TranscriptionProgress::new(false, true)
}

fn non_interactive() -> TranscriptionProgress {
    TranscriptionProgress::new(false, false)
}

#[test]
fn suppressed_never_creates_a_bar() {
    let mut p = suppressed();
    p.start_reading_stdin();
    assert!(!p.has_bar());
    p.start_model_loading();
    assert!(!p.has_bar());
    p.start_transcription();
    assert!(!p.has_bar());
}

#[test]
fn interactive_mode_builds_a_real_bar_for_every_phase() {
    let mut p = interactive();
    p.start_model_loading();
    assert!(p.has_bar());
    p.finish_model_loading();
    assert!(!p.has_bar());

    p.start_reading_stdin();
    assert!(p.has_bar());
    p.finish_reading_stdin();
    assert!(!p.has_bar());

    p.start_transcription();
    assert!(p.has_bar());
    p.finish_transcription();
    assert!(!p.has_bar());
}

#[test]
fn non_interactive_mode_never_builds_a_bar() {
    let mut p = non_interactive();
    p.start_reading_stdin();
    assert!(!p.has_bar());
    p.start_model_loading();
    assert!(!p.has_bar());
    p.start_transcription();
    assert!(!p.has_bar());
}

#[test]
fn each_mode_chooses_spinner_line_or_nothing() {
    assert_eq!(interactive().start_model_loading(), ProgressAction::ShowSpinner("loading model..."));
    assert_eq!(non_interactive().start_transcription(), ProgressAction::PrintLine("transcribing..."));
    assert_eq!(suppressed().start_reading_stdin(), ProgressAction::Nothing);
    let mut p = interactive();
    p.start_reading_stdin();
    assert_eq!(p.update_bytes_read(42), ProgressAction::ShowBytesRead(42));
    assert_eq!(p.finish_reading_stdin(), ProgressAction::ClearSpinner);
    assert_eq!(p.finish_reading_stdin(), ProgressAction::Nothing);
    assert_eq!(non_interactive().update_bytes_read(42), ProgressAction::Nothing);
}
