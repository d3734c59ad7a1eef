# humboldti_note

The library behind `pen`, a minimal daily markdown note-taking tool for the
terminal, written in Verus. The functions of `src/` carry contracts that
Verus proves, except a handful of small trusted wrappers around outside
crates and std, each marked `#[verifier::external_body]`, whose contracts
are assumed and say in their doc comments what they claim.

- `src/` — the verified library: display widths (`width`), key specs and key
  maps (`keys`, `action`), settings (`config`, `cli`), calendar dates
  (`date`), notes — paths, time headings, appends, carried-over items,
  search, the `pen context` budget and the editor hand-off (`notes`), the
  screens of `pen cal` (`ui`) and the MCP answers (`mcp`). Calls into
  `unicode-segmentation`, `unicode-width`, `chrono`, `regex`, `toml` and
  `shellexpand` go through those wrappers.
- `app/` — the `pen` program around it: argument parsing (clap), config
  files (figment, etcetera, toml), file I/O and locking, the terminal
  (crossterm, ratatui) and the MCP server (rmcp, tokio).
- `tests/` — tests of the library on concrete values.
