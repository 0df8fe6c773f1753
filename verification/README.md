# chirograph

Chirograph discovers the logical contracts that software exposes: the
representations of a value (source code, JSON Schema, documentation), how they
align, where they disagree, and which evidence supports each conclusion. It
also ships a benchmark that scores its analysis against pinned, hand-written
expectations.

The library in `src/` is written in Verus. Its functions carry contracts that
Verus proves, except the few `#[verifier::external_body]` wrappers around
outside code (Tree-sitter parsing, SHA-256, `serde_json` parsing, strict and
lossy UTF-8 decoding, string quoting, pushing a character onto a string): their
contracts are assumed, and each one's doc comment says what it claims of the
code it calls.

- `analysis/` — discovery of a source tree, candidates from JSON Schema
  documents and Rust sources, their alignment, and the assembly of a contract
  graph (with the law that assembly does not depend on input order).
- `adapters/` — contract-relevant facts of Java and Python sources from their
  Tree-sitter syntax trees.
- `registry.rs`, `acquisition.rs` — which adapter reads which file, JSON facts,
  and the order and cap of an acquisition report.
- `benchmark/` — the corpus checks, case selection, scoring by exact counts,
  aggregation, baselines and pinned upstream sources.
- `cli.rs`, `render.rs` — the command lines and the text of the query commands.
- `order.rs`, `text.rs`, `json.rs` — stable sorting by keys, text helpers and a
  JSON value model.

`app/` holds the two programs, `chirograph` and `chirograph-benchmark`: file and
process I/O, serde documents, the floating-point ratios of benchmark reports,
and the calls into the contract-graph core. `tests/` exercises the library.
