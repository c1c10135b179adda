# typr

A terminal typing test (text or code; time, word-count or snippet limits;
live WPM; syntax-highlighted code), with its logic verified by Verus.

- `src/` is the verified library: the test configuration and `--limit`
  parser (`cli`), the session state machine with scoring counters and time
  limits (`app`), key dispatch (`event_loop`), word lists and code samples
  (`words`, `code`, `corpus`), syntect's syntaxes, themes and line
  highlighter behind trusted wrappers (`syntax`; the corpus loads the sets
  once) with the per-character colors built from them (`code`), random choice (`rng`), the clock (`clock`), character utilities
  (`text`), and the layout helpers of the screen (`ui`: line wrapping, the
  visible window, per-character display and style, the mode-bar chips and
  hints, the big result digits).
- `app/` is the program around it: command-line parsing with clap, loading
  the data files, the terminal loop with crossterm, drawing with ratatui, and
  the floating-point figures (elapsed seconds, WPM, accuracy).
- `tests/` exercises the library.

The program reads its word lists (`english.json`, `english_1k.json`,
`english_5k.json`, `english_10k.json`, each `{"words": [...]}`) and code
samples (`samples/rust.txt`, `python.txt`, `js.txt`, `go.txt`, samples
separated by lines holding only `---`) from the directory named by
`TYPR_DATA`, or `data`. A missing or empty word list falls back to twenty
common words; a missing sample file leaves that language without samples.
