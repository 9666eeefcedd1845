//! Stderr-only progress reporting across a run's three phases: reading
//! stdin, loading the model, and transcribing.
//!
//! This module decides what to show; the program shows it. On an
//! interactive terminal each phase is an animated spinner; otherwise it is a
//! single plain line; with progress suppressed it is nothing at all.

use vstd::prelude::*;

verus! {

/// What the program does on stderr for one progress event.
#[derive(Debug, Clone, Copy, PartialEq, Eq)]
pub enum ProgressAction {
    /// Show nothing.
    Nothing,
    /// Start an animated spinner with this message.
    ShowSpinner(&'static str),
    /// Print this message as one plain line.
    PrintLine(&'static str),
    /// Show the byte count read from stdin so far on the running spinner.
    ShowBytesRead(u64),
    /// Clear the running spinner.
    ClearSpinner,
}

/// One progress-reporting state per run.
pub struct TranscriptionProgress {
    suppressed: bool,
    interactive: bool,
    bar: bool,
}

impl TranscriptionProgress {
    /// Progress is suppressed (`--no-progress`).
    pub closed spec fn is_suppressed(&self) -> bool {
        self.suppressed
    }

    /// Stderr is an interactive terminal.
    pub closed spec fn is_interactive(&self) -> bool {
        self.interactive
    }

    /// A spinner is running.
    pub closed spec fn bar_running(&self) -> bool {
        self.bar
    }

    /// A spinner only ever runs when progress is shown on an interactive terminal.
    #[verifier::type_invariant]
    closed spec fn only_interactive_spinners(&self) -> bool {
        self.bar ==> !self.suppressed && self.interactive
    }

    /// A fresh state; `suppressed` is `--no-progress`/`PARA_NO_PROGRESS`, and
    /// `interactive` whether stderr can show an animated indicator.
    pub fn new(suppressed: bool, interactive: bool) -> (r: TranscriptionProgress)
        ensures
            r.is_suppressed() == suppressed,
            r.is_interactive() == interactive,
            !r.bar_running(),
    {
        TranscriptionProgress { suppressed, interactive, bar: false }
    }

    /// Whether a spinner is running. In every state a spinner runs only if
    /// progress is shown on an interactive terminal: a suppressed or
    /// non-interactive run never builds one, whatever events it goes through.
    pub fn has_bar(&self) -> (r: bool)
        ensures
            r == self.bar_running(),
            r ==> !self.is_suppressed() && self.is_interactive(),
    {
        proof { use_type_invariant(self); }
        self.bar
    }

    /// The action that starts a phase announced by `message`.
    pub open spec fn start_action(&self, message: &'static str) -> ProgressAction {
        if self.is_suppressed() {
            ProgressAction::Nothing
        } else if self.is_interactive() {
            ProgressAction::ShowSpinner(message)
        } else {
            ProgressAction::PrintLine(message)
        }
    }

    fn start(&mut self, message: &'static str) -> (r: ProgressAction)
        ensures
            r == old(self).start_action(message),
            final(self).is_suppressed() == old(self).is_suppressed(),
            final(self).is_interactive() == old(self).is_interactive(),
            final(self).bar_running() == (!old(self).is_suppressed() && old(self).is_interactive()) || (old(self).is_suppressed() && old(self).bar_running()),
    {
        proof { use_type_invariant(&*self); }
        if self.suppressed {
            return ProgressAction::Nothing;
        }
        if self.interactive {
            self.bar = true;
            ProgressAction::ShowSpinner(message)
        } else {
            ProgressAction::PrintLine(message)
        }
    }

    fn finish(&mut self) -> (r: ProgressAction)
        ensures
            r == if old(self).bar_running() { ProgressAction::ClearSpinner } else { ProgressAction::Nothing },
            final(self).is_suppressed() == old(self).is_suppressed(),
            final(self).is_interactive() == old(self).is_interactive(),
            !final(self).bar_running(),
    {
        if self.bar {
            self.bar = false;
            ProgressAction::ClearSpinner
        } else {
            ProgressAction::Nothing
        }
    }

    /// Reading stdin: its size is not known upfront, so this is always an
    /// indeterminate indicator, never a percentage.
    pub fn start_reading_stdin(&mut self) -> (r: ProgressAction)
        ensures
            r == old(self).start_action("reading stdin..."),
            final(self).is_suppressed() == old(self).is_suppressed(),
            final(self).is_interactive() == old(self).is_interactive(),
            final(self).bar_running() == (!old(self).is_suppressed() && old(self).is_interactive()) || (old(self).is_suppressed() && old(self).bar_running()),
    {
        self.start("reading stdin...")
    }

    /// `bytes` read from stdin so far: shown on a running spinner; a
    /// non-interactive run prints no periodic milestones.
    pub fn update_bytes_read(&mut self, bytes: u64) -> (r: ProgressAction)
        ensures
            r == if !old(self).is_suppressed() && old(self).bar_running() { ProgressAction::ShowBytesRead(bytes) } else { ProgressAction::Nothing },
            *final(self) == *old(self),
    {
        if self.suppressed {
            return ProgressAction::Nothing;
        }
        if self.bar {
            ProgressAction::ShowBytesRead(bytes)
        } else {
            ProgressAction::Nothing
        }
    }

    /// Stdin has been read in full: the spinner, if any, is cleared.
    pub fn finish_reading_stdin(&mut self) -> (r: ProgressAction)
        ensures
            r == if old(self).bar_running() { ProgressAction::ClearSpinner } else { ProgressAction::Nothing },
            final(self).is_suppressed() == old(self).is_suppressed(),
            final(self).is_interactive() == old(self).is_interactive(),
            !final(self).bar_running(),
    {
        self.finish()
    }

    /// Loading the model, shown on every run whatever the input's length.
    pub fn start_model_loading(&mut self) -> (r: ProgressAction)
        ensures
            r == old(self).start_action("loading model..."),
            final(self).is_suppressed() == old(self).is_suppressed(),
            final(self).is_interactive() == old(self).is_interactive(),
            final(self).bar_running() == (!old(self).is_suppressed() && old(self).is_interactive()) || (old(self).is_suppressed() && old(self).bar_running()),
    {
        self.start("loading model...")
    }

    /// The model is loaded: the spinner, if any, is cleared.
    pub fn finish_model_loading(&mut self) -> (r: ProgressAction)
        ensures
            r == if old(self).bar_running() { ProgressAction::ClearSpinner } else { ProgressAction::Nothing },
            final(self).is_suppressed() == old(self).is_suppressed(),
            final(self).is_interactive() == old(self).is_interactive(),
            !final(self).bar_running(),
    {
        self.finish()
    }

    /// Transcribing: the backend gives no per-chunk callback, so this is an
    /// indeterminate indicator whatever the input's length.
    pub fn start_transcription(&mut self) -> (r: ProgressAction)
        ensures
            r == old(self).start_action("transcribing..."),
            final(self).is_suppressed() == old(self).is_suppressed(),
            final(self).is_interactive() == old(self).is_interactive(),
            final(self).bar_running() == (!old(self).is_suppressed() && old(self).is_interactive()) || (old(self).is_suppressed() && old(self).bar_running()),
    {
        self.start("transcribing...")
    }

    /// Transcription is done: the spinner, if any, is cleared.
    pub fn finish_transcription(&mut self) -> (r: ProgressAction)
        ensures
            r == if old(self).bar_running() { ProgressAction::ClearSpinner } else { ProgressAction::Nothing },
            final(self).is_suppressed() == old(self).is_suppressed(),
            final(self).is_interactive() == old(self).is_interactive(),
            !final(self).bar_running(),
    {
        self.finish()
    }

}

} // verus!
