# llmwiki

The core of a desktop knowledge-base application that turns documents into
a wiki with the help of a language model, written in Verus and proved
against its contracts.

## Layout

- `src/` — the verified library. Each module states its behaviour in
  `requires`/`ensures` over spec functions, and proves its laws as public
  proof functions:
  - text handling and JSON: `text`, `json_repair`, `validator`, `plan_merge`
  - documents: `documents`, `extractors`, `office`, `pdf`, `chunking`
  - the wiki: `graph`, `topology`, `crossings`, `diff_engine`, `dedup`,
    `candidates`, `review`, `search`
  - previews and files: `source_preview`, `file_preview`, `files`,
    `local_fs`, `workspace`
  - the model side: `prompts`, `provider`, `gateway`, `tokens`
  - tasks and upkeep: `tasks`, `recovery`, `health`, `vdb`, `sandbox`,
    `secrets`, `config`, `web_search`
- Calls into outside crates (`serde_json`, `zip`, `lopdf`, `petgraph`,
  `strsim`, `sha2`, `base64`, `encoding_rs`, `num_cpus`, `scraper`) stand behind small
  trusted wrappers whose contracts are stated from the crates' sources.
- `tests/` — tests of the library on concrete values.
- `app/` — ordinary Rust around the library: files and folders on disk,
  child processes, floating-point layout and similarity scores, and the
  serde forms of the library's records.
