# pty_core

The core of a terminal session manager, written in Verus. Sessions run behind
daemons; clients attach to them, look at them, type into them and list them.

- `src/` is the verified library. It decides: how packets are framed and read,
  what a client prints and when it ends, which sessions are alive, which files
  may be removed, how records change and what is reported of it, what an event
  log keeps, what a manifest means, which bytes a key sends.
- `app/` is ordinary Rust around it: sockets, files, terminals, threads and
  clocks, and the types that are read and written with serde.
- `tests/` runs the library on concrete values.

## Layout of the library

| Module | What it holds |
| --- | --- |
| `protocol` | packets, their encoding, and the reader that cuts a stream into them |
| `client` | attach, peek, follow, send, statistics, readiness, remote sessions, summaries |
| `registry` | names, roots, records, locks, listings, evidence, changes, cleanup |
| `events` | events, their logs, retention, and following a log as it grows |
| `keys`, `input` | key names to bytes, and bytes to key and mouse events |
| `ptyfile`, `manifest`, `spawn`, `paths` | manifests, commands and paths |
| `proctable`, `stats` | the process table and statistics |
| `unix_connect`, `unix_peer`, `wait`, `paste` | connecting and waiting under a deadline, who the peer is, bracketed paste |
| `json`, `maps`, `pairs`, `text` | the values that the rest is stated over |

Contracts are stated over sequences of characters and bytes. Public proof
functions whose names begin with `law_` state what holds across functions.

Three outside crates take part in the logic, each behind a small set of
declarations whose contracts are believed rather than proved: `serde_json`
(reading and writing JSON), `indexmap` (maps that keep their order) and `toml`
(reading documents).
