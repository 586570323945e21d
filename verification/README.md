# rank-wav

Scans a directory for WAV files, extracts acoustic features (RMS, zero-crossing
rate, spectral centroid and bandwidth, and optionally rolloff, flatness and
crest factor) and ranks the files by a "pleasing" or a "best" score.

## Layout

- `src/` — the verified library (Verus). The decisions of the pipeline that
  work on integers, booleans and text are stated in contracts and proved;
  the WAV decoding itself is hound's, named in the contracts and trusted:
  - `cli` — the command-line grammar (`rank-wav [OPTIONS] <DIR>`), with laws
    on defaults, help/version and short/long spellings;
  - `config` — metric toggles, `--extended`, validation, blank config files;
  - `scan` — which directory entries are WAV files, walk depth;
  - `wav` — reading a WAV file's bytes through hound (header and integer
    samples), supported sample formats, full-scale divisors, number of mono
    frames;
  - `features` — minimum sample count, FFT analysis window, zero crossings;
  - `output` — file names as shown in the table;
  - `rank` — score keys in IEEE 754 total order and the stable,
    highest-first ranking order.
- `app/` — the program: argument and file I/O, float WAV samples (hound), the
  floating-point feature computations (rustfft), normalization and scoring,
  TOML configuration (toml/serde), and table/JSON output (tabled/serde_json).
- `tests/` — tests of the library.

The command line is read by the library's own verified parser
(`src/cli.rs`), which follows the conventions of clap 4.6.7 (short-option
clusters, `--name=value`, `--`, values checked when the next recognised
argument arrives, refusal of repeated or empty arguments). clap itself is not
a dependency: its derive cannot stand on the verified types, and the grammar
is stated and proved as the project's own logic instead.
