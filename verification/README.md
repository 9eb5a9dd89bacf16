# inferlab

The control plane of an inference laboratory. It composes the configuration of a
server, plans its topology, allocates devices and ports, launches its processes
here and over SSH, waits until they are ready, profiles and measures them, stops
them, and records all of it.

`src/` is the library: everything that is decided or computed, written in Verus
with contracts that are proved. Where an operation alternates between deciding
and acting (waiting for an endpoint, starting a server, running a recipe), the
library holds the decisions as a state machine: it takes an event, updates its
state and says what to do next.

`app/` acts: it runs commands, opens sockets, reads and writes files, holds locks
and threads, and hands what came of it back to the library. It also holds the
stored form of the records.

| Where | What |
| --- | --- |
| `src/text.rs`, `dict.rs`, `search.rs`, `paths.rs`, `shell.rs`, `ssh.rs` | texts, ordered tables, paths and command lines |
| `src/toml_value.rs`, `json_value.rs`, `digest.rs` | documents and digests |
| `src/toml_override.rs` | overrides of declared settings |
| `src/time_bound.rs`, `calendar.rs`, `process_group.rs`, `progress.rs`, `record.rs` | deadlines, moments, process groups, progress lines, record identities |
| `src/resolve/` | from a declared server to the processes that serve it |
| `src/server/` | probing machines, launching, readiness, cleanup |
| `src/profiler/` | captures on a running server |
| `src/recipe.rs`, `src/scratchpad.rs` | measured runs and the operator's journal |
| `app/` | the machine around the library |
| `tests/` | tests of the library |

What the library has from outside it (SHA-256, TOML and JSON parsing, the UTC
calendar, a few functions of the standard library) stands behind small functions
whose contracts are believed; each of them says what it claims.
