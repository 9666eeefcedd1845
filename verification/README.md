# para

A verified core for `para`, a command-line tool that transcribes audio and
video files offline with Parakeet speech models.

- `src/` is the library, written in Verus: every function there carries a
  contract that Verus proves. It holds what the program decides and computes:
  container sniffing and WAV framing, reading ffprobe's report, the model
  registry and `--list-models` report, model-cache checks and download
  retries, vocabulary parsing and token decoding, pause-based segments and
  filler removal, number-word normalization, chunking arithmetic, SRT and
  plain-text rendering, and the progress display's state.
- `app/` is the program around it: argument parsing, files, processes,
  the network, the native recognizer bridge, JSON output and progress
  spinners, and the few steps that need floating point.
- `tests/` runs the library on concrete inputs.

Times inside the library are whole milliseconds; the program converts the
recognizer's seconds at its edge.
