# meowbox

A local mail aggregator: IMAP accounts are synchronised into a SQLite
database, grouped by project tag, and exposed read-only to AI assistants
through an MCP server and to a command-line tool.

## Layout

- `src/` — the library, verified with Verus. Every function carries a
  contract over mathematical models (`Seq`, `Set`, `int`), and the
  properties that span several calls are stated as `law_*` proof functions.
  - `domain` — accounts, addresses, subjects (`normalize_subject`), errors.
  - `parse`, `mime` — RFC822 parsing on top of `mail-parser`: thread keys,
    snippets, HTML to text, stripping quotes and signatures, attachments.
  - `fsname`, `paths` — safe path segments and the data directory layout.
  - `imap`, `engine` — IMAP configuration, folder roles, search and fetch
    commands, and the decisions of a synchronisation pass.
  - `store` — the SQL statements and the values they read and write.
  - `grouping` — grouping accounts and threads by project tag.
  - `mcp` — argument checks and result shaping of the MCP tools.
  - `desktop`, `cli` — the rules of the desktop commands and the CLI.
  - `json` — JSON values the library writes, pretty-printed by `serde_json`.
  - `text`, `time` — character-level helpers and RFC 3339 via `chrono`.
- `tests/` — ordinary Rust tests of the library.
- `app/` — the program: the CLI (`meowbox`), the MCP server on stdio (the
  same binary started as `meowbox-mcp`), the SQLite store, the IMAP client
  and the synchronisation loop. It does the I/O and calls the library for
  every decision.
