# app_core

The core of a karaoke player, written in Verus: every function in `src/`
carries a contract that the verifier proves.

- `src/` — the verified library:
  - `text` — character-sequence helpers (trimming, splitting, decimal numbers);
  - `usdx` — UltraStar song files: tags, notes, text decoding, segments;
  - `lyrics` — sidecar `.lrc` files, edited lyrics and the plans of the lyrics operations, the LRCLIB search and ranking;
  - `song`, `scanner` — song origins, content hashes, probe output, cache reconcile;
  - `analyzer`, `player_analyzer` — the analysis queues, bulk actions, their protocol and retries;
  - `analysis_job` — one song's analysis as a step function: the analyze command, LRCLIB first, retries, queue status, finalizing;
  - `media_server` — the session token drawn once, request routing, byte ranges, content types, proxy headers;
  - `recording` — safe file names and the encoder command line for recordings;
  - `vendor` — the setup run under its lock, the step plan, downloads and install commands;
  - `config` — library sources, their credentials, and the settings analysis reads;
  - `startup` — the order of the start-up tasks.
- `app/` — ordinary Rust around the library: files, processes, HTTP, serde.
- `tests/` — tests of the library's public functions.
