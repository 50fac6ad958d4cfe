# mnem_global

The cross-repository search behind `mnem global retrieve` and the
`mnem_global_retrieve` MCP tool, and the NER provider configuration layer,
written in Verus.

- `src/` is the verified library: which repositories a search visits
  (`targets`), what a request asks for (`request`), how results are merged,
  deduplicated by node UUID, ranked by score and cut to the limit (`hits`),
  the report text (`report`), a whole search from per-repository results
  to the printed or replied text (`reply`), the `global` subcommand dispatch (`command`),
  NER provider selection (`ner`) and small text helpers (`text`).
- `app/` is the ordinary Rust around it: clap and serde types, the registry
  file, file-system probes, the repository store, float scores and printing.
- `tests/` exercises the library on concrete values.
