# zhiyuan

致远 (Zhiyuan) is a deep-research pipeline: it plans a research question into
sub-tasks, searches a SearXNG instance, extracts the pages, has a language model
synthesise findings, cross-checks and merges them over several iterations, writes a
report in Typst and compiles it to PDF, all followed in a terminal interface.

This crate is the pipeline's logic, verified with Verus:

- `src/` — the library. The pipeline's decisions and computations stand here with
  their contracts: model output cleaning (`util`), URL normalisation, deduplication,
  keyword filtering and the merging of engine answers (`search`), page text
  extraction (`extract`, `fragments`), the agents' requests and the reading of their
  replies (`agents`), quality scores (`quality`), the argument skeleton (`argument`),
  the research loop, finding merging and cross-checking (`orchestrator`), citation
  keys (`citation`), the Typst source, its line map and paragraph repairs (`pdf`),
  the terminal interface's state machine (`tui`), memory keys (`memory`) and the
  chat client's decisions (`llm`). Loops that wait on the network (the engine
  fallback, retries, the chat client's attempts, the research iterations) run in
  `app/`; each of their steps is a verified function here, and what a whole run of
  steps gives is stated as a law. Properties that span functions are stated and proved
  as public proof functions named `law_*`.
- `tests/` — tests of the library on concrete values.
- `app/` — the program around the library: command line, configuration file, HTTP
  (model, SearXNG, pages), RocksDB memory, the vector index, the terminal drawing,
  and Typst compilation.

Configuration is read from `~/.config/zhiyuan.toml` or `./zhiyuan.toml`:

```toml
[search]
max_results = 10
searxng_url = "http://localhost:8888"
blocked_domains = []

[llm]
api_key = ""
base_url = "https://api.deepseek.com/v1"
main_model = "deepseek-v4-flash"

[research]
concurrency = 4

[pdf]
font_paths = []
```

The Typst template is read from `template/lib.typ` and the cover icon from
`template/icon.svg` in the working directory.
