# nova_agent

An autonomous agent for a local Linux machine, built on ADK-Rust and served as
one binary with a web page (127.0.0.1:8899 by default). Five system
capabilities — read, write, edit, delete, execute — each have a switch, and the
risky ones wait for a person's approval on the page. Commands are judged for
their real intent before they run.

## Layout

- `src/` — the verified library: the guard (switches, approval policy and the
  approval records), the steps a shell command must pass, deleting-command
  detection, exact-text edits, output clipping, the sentence buffer and event
  shaping of the chat stream, chat-history replay, the system instruction,
  provider selection, skill front matter, index and ordering, memory recall
  candidates and the memory file's line format, task plans, MCP status lines,
  and audit queries. Every function there carries a contract that Verus proves.
- `tests/` — tests of the library on concrete values.
- `app/` — the program around it: `main`, the axum web service and its SSE
  streams, the SQLite audit log, file persistence, the ADK-Rust agent, model
  clients, tools and MCP connections, and the floating-point recall scores.

The page's files (`index.html`, `style.css`, `app.js`) are read at run time
from an `assets/` directory beside the binary.
