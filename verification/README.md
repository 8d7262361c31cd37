# mdsearch

The verified core of `mdsearch`, a local, offline markdown knowledge search
engine: collections of markdown files, a lexical (FTS5) index, a semantic
(vector) index and an entity graph of files, tags and aliases.

`src/` is a Verus library. Every function with a body in it is verified
against its contract; the few calls into outside crates (SHA-256 hashing, YAML parsing, path
and string helpers of `std`) sit behind small trusted wrappers whose doc
comments say what they claim.

- Domain values: collection names, file IDs, timestamps, content hashes,
  embedding and re-ranker model names, passage kinds and keys.
- Markdown processing: passage segmentation with frontmatter fields and byte
  offsets, entity-graph extraction, the FTS5 query mapping.
- Ports: each port trait describes what its implementation answers and how
  a call changes it through spec functions (a filesystem's expansions and
  contents, a store's listings and the store after a write, a sink's events);
  the use cases are proved against those descriptions, which an adapter
  outside Verus is trusted to meet.
- Use cases behind ports: creating, listing and destroying collections,
  adding and updating files, index status, lexical search, file retrieval,
  semantic indexing, and the decision steps of hybrid search.
- Graph queries: node lookup and bounded breadth-first traversal.
- Evaluation: fixture integrity checks, relevance grading, ideal grade orders,
  baseline rankings and the report order of modalities.

`app/` is the `xtask` automation program: process spawning, file reading,
JSON loading, operating-system adapters for the ports, and the
floating-point stages (rank fusion, result ordering, IR metrics and report
formatting) that run on the library's verified outputs.

`tests/` exercises the library on concrete values.
