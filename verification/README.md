# bitvec

A bit-vector packed into storage elements of 8, 16, 32 or 64 bits, numbered
least- or most-significant bit first, with its operations proved against a
view of the bits as a sequence of booleans.

- `src/layout.rs` — storage element, bit order, reading and writing one bit of a word.
- `src/vec.rs` — `BitVec`: creation, `push`, `get`, `set`, `insert`.
- `src/slice.rs` — `BitSlice` windows: `split_at`, runs of equal bits at either end,
  lexicographic comparison, `clone_from_bitslice`.
- `src/compare.rs` — `partial_cmp` between vectors and windows.
- `src/octal.rs` — octal rendering, cut at storage-element boundaries.
- `src/etna.rs` — the properties the library is held to, each proved to pass.
- `src/runner.rs`, `src/report.rs`, `src/json.rs`, `src/text.rs` — what the property
  runner decides: names, witness inputs, metrics, generator mutations, the JSON
  result line and error texts.
- `app/` — the runner program that drives the properties with proptest,
  quickcheck, crabcheck and hegel.
