# treease_core

The document engine of a structured-text workspace, verified with Verus:
the job runtime that takes sources in chunks and commits snapshots, the
snapshot and analysis records, the streaming source document, and the
planning of value edits as text edits of a document's source.

## Layout

- `src/` — the verified library.
  - `document/runtime.rs`, `document/engine.rs` — jobs, their lifecycle and
    the snapshots they commit; the laws of closing and committing are the
    `law_*` proof functions of `runtime.rs`.
  - `document/stream_state.rs` — the source document that streamed chunks
    build, with its line and byte accounting.
  - `document/snapshot.rs`, `document/protocol.rs` — snapshots, analyses and
    the records exchanged with callers.
  - `document/value_edit/` — edit values (`json.rs`, `edit_value.rs`), the
    per-language rules for keys and values, the scalar edit planner
    (`scalar.rs`) and the TOML source scanner (`toml.rs`).
  - `document/projection.rs` — snapshot paths and hover projections.
  - `evaluator/` — the expression evaluator on whole values: values and
    their rendering (`mod.rs`), literals, arithmetic, the one-value and
    two-value operations, traversal, assignment paths and containment, and
    the evaluation of an expression tree (`owned.rs`). Floats are held by
    their bits; their arithmetic and text come from a float service that
    the caller hands in.
  - `errors.rs`, `value_edit.rs`, `evaluation.rs` — error kinds and their
    messages.
  - `text.rs`, `line_index.rs` — characters, UTF-8 lengths, numbers and
    line positions.
- `tests/` — tests of the library on concrete values.
- `app/` — the thread's global runtime and metrics, the float service of
  the evaluator, and the conversions that need `std` or `serde_json` at the
  library's edge.

The tree-backed evaluation and the expression pipeline, the tree store,
whole-document value edits and the decoding and materializing of sources
are not part of this crate: they rest on a decoded tree store, an
expression parser and format encoders that it does not include. The runtime takes the
materializer, the snapshot reader and the hover graph builder as closures
from its caller.
