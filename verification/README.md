# agents_rust

An agent toolkit: an MCP tool server, an interactive tool-using agent, an
orchestrator that splits a task among workers, WebAssembly plugins and a
small dashboard. Its logic is a library verified with Verus; the program
around it does the I/O.

## Layout

- `src/` — the verified library. Its functions state what they do in
  `requires` / `ensures` contracts over mathematical models (`Seq`, `Map`,
  views); only the wrappers around the clock and random ids claim nothing
  of their result. The properties that span several functions are public
  proof functions (`lemma_*`).
  - text and data: `text`, `rank`, `tool`, `schemas`, `conversation`
  - tools: `filesystem`, `edit`, `fuzzy`, `command`, `security`, `browser`,
    `web_search`, `research`, `mcp_client`, `cowsay`
  - protocol and routing: `mcp`, `tools`, `plugin`, `router`, `llm`, `config`
  - agents: `agent` (the tool loop as a state machine), `orchestrator`,
    `memory`, `skills`, `sandbox`, `dashboard`
- `tests/` — tests of the library on concrete values.
- `app/` — the program: argument handling, files, processes, HTTP,
  WebSocket and CDP sessions, the wasmtime runtime, and the serde shapes of
  the wire formats. It hands plain values to the library and acts on what
  comes back.

## Trusted calls

Calls into outside crates from the library go through a few wrappers marked
`#[verifier::external_body]`, each documented with what its contract claims:
`strsim::levenshtein`, `serde_json` (validity of a text, quoting a string),
`scraper` (texts of `body` and `title`), `base64` decoding, `uuid` v4,
`chrono` (RFC 3339 text of a UTC instant), the clock, and a handful of
`std` conversions between `str` and `char` sequences.
