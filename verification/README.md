# zerx

Schema validation for data that is not JSON-clean — buffers, Lua values, PostgreSQL
JSON Schemas — with every step of parsing, delta updates, Lua conversion, JSON Schema
export and the `sql` import rewrites proved in Verus against a mathematical model.

## Layout

- `src/` — the verified library.
  - `value.rs`, `float.rs`: dynamic values (`ZerxValue`, ordered `ObjectMap`) and IEEE-754
    semantics on bit patterns.
  - `schema.rs`, `types.rs`: schemas as values, and their builders (`string()`, `object(..)`, …).
  - `semantics.rs`: the parse semantics (`sem_present`) that `parse.rs` implements.
  - `checks.rs`, `strings.rs`, `pointer.rs`: validators, URI/URL/e-mail/UUID rules, JSON Pointers.
  - `delta.rs`: `parse_delta` and `replace` by JSON Pointer.
  - `lua.rs`: schema-directed conversion of Lua values.
  - `export.rs`: JSON Schema export and errors as JSON; `naming.rs`: how export names
    lazy schemas in `$defs`.
  - `lazy.rs`: the host-side state machine of a lazy schema (built once, re-entry refused).
  - `policy.rs`: the `sql` policy's document rewrites, applied to every schema node, and
    the merge step of external `$ref` resolution; `deref.rs`: the walk that resolves every
    external `$ref` of a document through the host's `RefResolver`.
  - `laws.rs`: what the object modes, defaults, unions, Lua reading and buffers promise.
  - `copies.rs`: a copy of a schema validates exactly as the schema does.
  - `error.rs`, `text.rs`: structured errors and string helpers.
- `tests/` — tests against the compiled library.
- `app/` — host glue: serde in and out, closures behind refinements and lazy schemas,
  host Lua values with `f64`, `serde_json` documents, the policy registry and the
  deref transform built on `deref_document`.
