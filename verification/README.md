# kglite

Embedding stores over a property graph: vectors on nodes and on relationships,
the indexes over them, relationship text indexes, and what writes, reads,
carries, vacuums, snapshots and rolls them back. The library is written in
Verus; every function states what it does, and is proved to do it.

- `src/` is the library. Vectors and scores are kept as the bits of their
  floating-point numbers, so that everything the library decides is a decision on
  integers, texts and sequences. Modules whose names end in `_laws` state what
  holds across functions: what a read gives back of a write, what rolling back
  gives back, what a vacuum or a carry keeps.
- `app/` is what stands round it: scores, ratios, serialised forms, error traits.
- `tests/` runs the library on concrete graphs.

`fx.rs` and `text.rs` hold what is taken on trust: the hash sets and maps of
`rustc_hash`, string equality, and appending a character to a string.
