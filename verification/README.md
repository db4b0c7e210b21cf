# shmd

A small music server: it walks a music folder for audio files, reads the
ID3 tags of those it can (mp3, wav, aiff), keeps one record per file in
PostgreSQL (dropping the records of files that are gone), and serves listings, counts and album thumbnails over HTTP.

- `src/` is the library, with its proofs: how records are built from a
  file's tag and path (`models`, `record`), the depth-first search for audio
  files (`scanner`), the conditions of a media query (`db`), the queries and
  answers (`queryobjects`, `responses`), and the text operations they use
  (`text`). The `id3` crate reads tags (`tags`); paths are joined and
  their extensions taken as `std::path` does on Unix (`paths`).
- `app/` is the server around it: configuration, the database through
  `diesel` (and `tokio_postgres`), the `warp` routes, and the filesystem.
- `tests/` exercise the library on concrete files and queries.
