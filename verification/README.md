# cce-engine

A verified library for indexing a repository and answering questions about
it: which files to scan, how to cut them into units, chunks and descriptors,
how to derive relations between them (imports, calls, type references,
tests, co-change, routes, packages, dataflow), which structural records a
snapshot stores, when an index run reuses, activates, repairs or writes a
snapshot, how to plan a query and pack the results into a context window
under a token budget.

## Layout

- `src/` — the library, written in Verus. Every public function carries a
  `requires`/`ensures` contract over spec functions, and Verus proves each
  body against it. Calls into outside crates (`regex`, `blake3`,
  `imara-diff`, `toml`, `serde_json`) and a few std functions sit behind
  small trusted wrappers whose contracts say what those crates document.
- `tests/` — ordinary Rust tests that run the compiled library.
- `app/` — plain Rust around the library: walking the file system, reading
  Git objects and artifacts, JSON records with serde derives, and the
  float-valued confidences.

