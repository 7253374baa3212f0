# forge

A software quality control plane: it runs configured analysis tools,
normalizes their findings, merges them deterministically, and judges them
against quality policies, with layered configuration and fixed exit codes.

## Layout

- `src/` — the library, verified with Verus. Every public function states
  what it returns in its contract; the laws of the library (layer
  precedence, read-after-write of keyed tables, determinism of merging and of
  gate decisions, isolation of failing analyzers, exit-code precedence, rule
  independence) are public proof functions.
  - `finding`, `analysis`, `analyzer`, `engine`, `order` — the finding model,
    analyzer outcomes, reading tool output, polling a tool process within
    its timeout, scheduling analyzers at most `concurrency` at a time, and
    merging results.
  - `gate`, `rule`, `tool` — quality gates and policies, rule resolution,
    tool availability and version ranges.
  - `config`, `config_error`, `resolver`, `keyed` — configuration, its layers
    and provenance, and the insertion-ordered table it is stored in.
  - `cli`, `analyze`, `report`, `context`, `store`, `error`, `exit_code` —
    the command-line model and what each command computes and reports.
  - `text`, `seqs` — text and sequence helpers shared by the contracts.
- `tests/` — tests of the library on concrete values.
- `app/` — the `forge` program: argument parsing, file and process I/O,
  threads, and serialization, around the library.
