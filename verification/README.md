# cromulent

A headless coding-agent daemon: an LLM coding loop behind a JSONL protocol on
stdin and stdout. This crate holds its logic as a library verified with Verus,
and the daemon around it.

## Layout

- `src/` — the verified library.
  - `json`, `text`, `util` — JSON values as plain data, text helpers, paths and ids.
  - `protocol` — messages, content blocks, provider events, commands.
  - `agent` — the system prompt, the transcript sent to providers, compaction,
    how a turn's event stream is collected and how turns and runs end.
  - `control` — which commands a running agent refuses, the model cycle, run
    bookkeeping.
  - `session` — session headers, where sessions live, forking, listing.
  - `auth` — provider keys, the configuration file, cached credentials.
  - `providers` — retry policy, the fake and DeepSeek providers, custom
    provider registration, the Responses API event stream and request body.
  - `tools` — the tools' argument readers and reports; the hash-anchored
    editor (`tools::hashline`: line hashes, anchors, spans, guards, diffs,
    previews), exact-text edits (`tools::replace`), grep and find
    (`tools::search`), bash and ask-user.
- `tests/` — tests of the library.
- `app/` — the daemon: command line, stdin/stdout transport, session files,
  HTTP providers, processes and file system access for the tools.

Public proof functions named `law_*` state properties that hold across the
library's operations.
