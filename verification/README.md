# config_manager

A configuration manager whose core is verified with Verus.

Configuration documents (JSON, YAML, TOML) are flattened into entries keyed
by dotted paths (`server.port`). Each entry holds a JSON value, its type,
whether it is required, and validation rules (bounds, lengths, regular
expressions). The manager answers lookups, updates, exports and validation
of the whole configuration, and decides which part of an application a
changed key concerns.

Layout:

- `src/` — the verified library: the JSON model (`json`), decimal text of
  integers (`text`), validation rules (`rules`), entries (`value`), the
  entry table and manager (`table`), reading configuration text and
  flattening documents, with format detection (`parsers`), the sample
  configuration of the example program (`example`), change reactions
  (`reload`) and properties that span operations (`laws`). The text readers
  of `serde_json`, `serde_yaml` and `toml`, and the `regex` crate, are
  called from `src/` through trusted wrappers whose contracts name their
  results.
- `tests/` — tests of the library.
- `app/` — the command-line program: reading files from disk, typed lookups
  through serde, writing the JSON export text (values may be floating-point
  numbers), logging, file watching.

The entries are held in `ConfigTable`, a vector of key/entry pairs whose
keys are kept distinct by a type invariant, in place of a `HashMap` keyed by
`String`: Verus specifies `HashMap` operations precisely only for keys
whose hashing and equality it knows, and proves little about a map keyed by
`String`, while the vector's view as a `Map` lets every operation of the
manager be stated and proved exactly. The order in which keys are listed is
not part of any contract.
