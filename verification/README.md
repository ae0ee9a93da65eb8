# minute

The rules of Minute, a local meeting-notes app, as a library verified with
Verus: summary and question prompts, reading a model's answer, the note
library's files and sweeps, speaker renames and merges, search, settings,
and the live-transcription chunker.

- `src/` — the verified library. Every function carries a contract; the
  laws the library keeps across calls are public `law_*` proof functions.
  Calls into `sha2` and `time` sit behind small trusted wrappers whose
  contracts say what those crates document. Reading a candidate object of
  a model's answer as the summary record is serde's work, done in `app/`
  and handed to the library as a reader function.
- `tests/` — ordinary tests, run against the compiled library.
- `app/` — the app around it: files on disk, locks, worker threads, the
  serde shapes of the library's types, and the parts that compute on
  floating-point values (transcript times, voice embeddings, sampling
  settings).
