# vix

A small document database: collections with typed fields, documents stored in an
LSM engine of write buffers and immutable segment files, and an identifier index.

The library under `src/` carries machine-checked contracts and proofs. Its parts:

- `catalog`, `catalog_adapter`: the collection catalog, kept as numbered commit files
  and schema files in a write-once storage, each framed with a magic and a CRC-32.
- `collection`, `collection_manager`, `collection_service`: collection schemas, name and
  field checks, and the conversion of raw payloads against a collection's fields.
- `lsm`, `lsm_store`, `engine`, `lsm_adapter`, `segment`, `segment_law`, `lookup`: the
  engine's buffers, levels and segments; the byte layout of segment files (blocks,
  metadata record, footer) with its round-trip laws; the search of a sorted block.
- `document`, `document_service`, `document_lookup`: documents stored in the engine
  under an id key and a sequence key.
- `index`, `index_manager`, `identifier`, `index_segment`, `layered`: the index managers
  and the identifier index's segment files.
- `query`, `query_service`, `translog`, `orchestrator`: inserts checked, logged and
  stored; the validation of collection creation requests.
- `checksum`, `msgpack`, `collections`, `fresh` and the key filter of `lookup`: the
  calls into `crc32fast`, `rmp-serde`, `dashmap`, `rpds`, `uuid` and `fastbloom`, each
  behind a trusted item whose contract says what the crate's source promises.

`app/` holds what is not verified: the program's entry point, configuration, files on
disk, serde forms of the library's types, and the vector index, which computes with
floating point. `tests/` runs the library on concrete values.
