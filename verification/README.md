# storage

Alias table and temporary-directory layout of a storage node, verified with Verus.

- `src/alias_mapping.rs`: the alias table (`AliasMapping`, a vector of
  `(alias, collection)` pairs with distinct aliases, viewed as a map) and
  `AliasPersistence`, whose operations report when the table must be saved.
- `src/temp_directories.rs`: the temporary directories derived from the
  storage configuration, the choice between them, and what start-up cleanup removes.
- `src/paths.rs`: joining textual paths as `Path::join` does on Unix.
- `src/errors.rs`: `StorageError`.
- `src/laws.rs`: properties that span several operations.
- `app/`: loading and saving the table as JSON, and creating and removing
  directories on disk.
