# proxyia

A code-indexing memory served over the Model Context Protocol: it scans a
project once, stores structural summaries, embeddings, positions and the
dependency graph in SQLite, and answers search and exploration requests.

## Layout

- `src/` — the verified library (Verus). Every function carries a contract
  that Verus proves:
  - `paths`, `text`: path normalisation, file names and stems, UTF-8 and
    line handling;
  - `scanner`: language detection, structural skeletons, entry plans and
    function extraction from tree-sitter matches;
  - `syntax`: the tree-sitter grammars and the one trusted query runner;
  - `dependencies`: which files and functions a file refers to;
  - `digest`: content hashes (SHA-256, hex) and the refresh rule;
  - `local_embed`, `embeddings`: tokenisation and feature plans of the local
    embedder, settings of remote services;
  - `positional`, `db`, `exporter`, `search`, `cache`: position and vector
    encodings, neighbour lists, project lookup, graph degrees and labels,
    neighbourhood tiers, the project and query caches;
  - `mcp`, `llm`, `watcher`: request routing, tool names, reports, summary
    prompts and re-indexing decisions.
- `tests/` — ordinary Rust tests of the library.
- `app/` — the server itself: stdin/stdout, SQLite, HTTP, file watching and
  the floating-point parts (embedding vectors, cosine scores, layout, SVG
  coordinates).
