# summer_player

The logic of a music player, verified with Verus: LRC lyrics, audio-file
metadata and embedded lyrics, playlists and the moves through them in each
play mode, M3U files, the set of loaded playlists, settings, and the rules
the interface follows (lyrics window, playlist page order, play-mode and
theme cycles).

- `src/` is the verified library. Each public function states in its
  contract what it returns or changes; the laws that relate several
  functions are public proof functions (`lemma_*`).
- `app/` is a small command-line program around the library: it opens
  audio files with the decoder, reads and writes files, reads the
  configuration, and prints what the library computes.
- `tests/` runs the library on concrete values.

Times are kept in whole milliseconds in the library; the application
converts to and from seconds.
