# familiar

Schema-first primitives, drift checking between Rust structs and JSON
Schemas, and analysis of the schema dependency graph, written in Verus.

- `src/` is the verified library. Every public function states what it
  returns in its `ensures`; the laws that relate several functions are
  public proof functions named `law_*`.
  - `primitives`, `ids`, `wrappers`: validated values and identifiers.
  - `json`, `settings`: a JSON document model and user settings with a deep
    merge.
  - `drift`: schema and struct models read from JSON and from Rust source
    (parsed by `syn`, `serde` attributes read from their tokens), the
    comparison and the report.
  - `schemas`: the schema dependency graph (typed edges, closures, orphans,
    DOT output) and its construction from parsed files.
  - `mcp`: the schema registry (nodes by `$id`, reference cycles, artifacts,
    search) and the queries agents put to it (`tools`), with inline shape
    normalization (`shapes`).
  - `analysis`, `reports`: schema analysis reports.
  - `legacy`, `simulation`, `runtime`: tool types, entity spawning, thread
    resolution (with edit distance and its laws) and runtime configuration.
  - `validation`: contract enforcement: schemas compiled by `jsonschema`,
    payloads parsed by `simd-json` and checked against their contract.
- `app/` reads files and embedded directories, parses JSON, deserializes
  checked payloads into Rust types, runs the thread resolver against a store,
  renders answers as JSON text, and holds the float-valued types.
- `tests/` exercise the library on concrete values.
