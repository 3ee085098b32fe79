# ufrume

A tool that scans music files, tags them from MusicBrainz and computes their ReplayGain. Its rules
are a library verified with Verus; the program around it does the input and output.

No organizer is built in: there is nothing that moves files, and no configuration for it. The steps
of the `organize` command are there, but the command ends with an error at the loading of the
configuration.

- `src/text.rs`, `src/number.rs`, `src/order.rs`: text, numerals and stable ordering.
- `src/lofty_tag.rs`, `src/lofty_file.rs`: tags and tagged files as `lofty` holds them, and what
  is relied on of `lofty`.
- `src/scan.rs`: which files are music, and what a scan reads from their tags.
- `src/tag.rs`: the lookup of a file at MusicBrainz, the choice of a candidate, and writing it.
- `src/album.rs`, `src/replaygain.rs`, `src/gain_run.rs`: albums, the measuring of tracks, what is
  written to them, and a run over them.
- `src/second_run.rs`: that a run after a run has nothing to do.
- `src/command.rs`, `src/logging.rs`: the steps of the commands, and the log.
- `app/`: the program.
- `tests/`: tests of the library.
