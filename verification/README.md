# bluray

A library for Blu-ray discs, verified with [Verus](https://github.com/verus-lang/verus).

It reads and writes the files below `BDMV`, runs navigation commands, decodes
and draws presentation graphics, lists titles, tracks, chapters and angles,
turns the clips of a title into one transport stream, and finds the keys of
protected discs. Every function states what it returns in its contract, and
the contracts are proved.

## Layout

- `src/bdmv` holds the on-disc formats: the index, movie objects, playlists and
  clip information, each with a reader, a writer and a proof that what was
  written reads back. It also holds the navigation machine (`vm`, `mobj_runner`,
  `nav_driver`) and presentation graphics (`pgs`).
- `src/disc` holds the disc as a whole. `TitleSource` keeps the place in a
  title's stream; it says which unit of which file to read next, and takes the
  bytes.
- `src/aacs_adapter` looks for the keys of protected discs and decrypts with
  them. The cryptography is that of the `oxideav-aacs` crate; the functions that
  call it say in their doc comments what is taken on trust.
- `src/decrypt.rs`, `src/drive.rs`, `src/error.rs`, `src/m2ts.rs`, `src/date.rs`,
  `src/order.rs`, `src/scan.rs`, `src/sorting.rs` and `src/text.rs` are shared.
- `tests` runs the library on concrete values.
- `app` is ordinary Rust around the library: files, the environment, the clock.

## How it is stated

Each format has a model (`PlayListModel`, `IndexModel` and so on), a spec
function that says which model a byte sequence spells (`playlist_of`), and one
that says how a model is written (`enc_playlist`). `parse` succeeds exactly on
the sequences that spell a model; on all others a further spec function
(`playlist_refusal`) gives the text of the error.

The laws that span functions are public proof functions whose names begin with
`lemma_`: round trips, what navigation commands may not change, that segments of
a title lie end to end, that a seek lands at or before the time that was asked
for, and that reading a title to its end gives the transport packets of its
clips in order.
