# agentcorp

The verified core of an agent orchestration toolkit, written in Verus.

- `src/` is the library. Every function is verified against its contract:
  the BM25 tokenizer and term statistics (`memory::bm25`), markdown memory
  files (`memory::markdown`), the session log (`session`), the team and
  memory tools (`tool`), the tool registry, log tails, command rules, the
  chat view's reading of JSON message payloads (`chat`), `$ref` resolution
  in the configuration schema (`schema`), the grouped agent and tool lists
  (`grouping`) and a few text and number routines
  they rest on. Calls into `std`, `serde_json`,
  `chrono`, `pulldown_cmark` and `reqwest` go through small trusted wrappers
  whose contracts name or state what the call returns.
- `app/` is the plumbing around it: file and network I/O, command-line
  parsing with clap, serde copies of the data types, and BM25 scoring in
  floating point.
- `tests/` runs the library on concrete inputs.
