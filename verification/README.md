# valser

The logic of a desktop music player, verified with Verus.

- `src/` — the library. `track` (tracks, file formats, text filtering),
  `playlist` (navigation, removal, shuffling, genre white/blacklists,
  merging freshly loaded tracks), `genres` (sorted genre statistics),
  `control` (playback state, remote and keyboard commands, loading
  progress), `state` (saved state, restoring the playlist, library ids),
  `text` (character-level text operations), `laws` (properties that span
  operations).
- `app/` — the bevy/egui application around the library: audio output
  (rodio, symphonia), the redb library and JSON state file, tag reading
  (lofty), the MPRIS server and the user interface.
- `tests/` — tests of the library on concrete values.
