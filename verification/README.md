# adventure

The verified core of a small point-and-click adventure engine, written in
Verus. Every executable function under `src/` carries a contract that
Verus proves; the few calls into outside crates go
through trusted wrappers whose contracts restate what those crates document.

## Layout

- `src/` — the library:
  - `graph`, `locomotion`: ring-arc route planning, breadth-first hop
    planning, walk-ring keys and sprite paths.
  - `inventory`, `combine`: stacking inventory and combine recipes.
  - `save`: save-file framing (length-prefixed sections, SHA-1 footer),
    header checks and custom-version migration.
  - `story`, `story_compile`, `story_runner`: scenario scripts, their
    compilation and a runner stepped by the host.
  - `dialogue`: dialog trees, validation and the dialog runner.
  - `assets`, `probe`, `movie`, `audio`: asset resolution over host probes,
    ffprobe/ffmpeg output parsing, bus and curve vocabularies.
  - `input`, `pick`, `render2d`, `batch`, `atlas`: input vocabulary, hotspot
    picking and pointer dispatch, draw-call batching, texture-atlas
    bookkeeping over `guillotiere`.
  - `interner`, `str_map`, `text`, `asset_id`: shared building blocks.
- `tests/` — ordinary Rust tests of the library.
- `app/` — the host side: file and process I/O, floating-point geometry and
  timing, GPU-facing vertex data, serde formats and the ECS systems. It
  hands the library plain values and acts on what comes back.

Laws that span several functions are stated as public lemmas next to the
code they describe.
