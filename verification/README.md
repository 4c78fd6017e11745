# cuetter

Splits a CD image described by a CUE sheet into one audio file per track, with
`ffmpeg` doing the cutting.

`src/` is the verified library:

- `text.rs` — characters, whitespace, splitting, joining, trimming, decimal
  numbers and their parsing, each with a specification.
- `cue.rs` — the sheet model (`CueSheet`, `File`, `Track`, `Index`, `Time`)
  and its summary.
- `builder.rs` — the parser state and what one line does to it.
- `parser.rs` — times, quoted arguments, `FILE` lines and whole sheets.
- `invariants.rs` — what every successful parse keeps, how a parsed sheet
  follows its lines, and why an unknown line changes nothing.
- `config.rs` — sorting the command line (and what `--` does to it), turning
  it into a `Config`, and the notices for unknown flags and options.
- `splitter.rs` — which tracks are cut, where they start and end, their file
  names and tags, and the `ffmpeg` arguments for each.
- `pipe.rs` — text piped to standard input.
- `errors.rs` — the error types and their texts.

`app/main.rs` is the program: it reads the environment, the file system and the
CUE file, prints, and runs `ffmpeg` with the plan the library makes.
