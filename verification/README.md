# Servant

A per-user, always-running static file server: `servant serve file.html` registers a
local file or folder and prints its URL. The daemon serves what is registered in
place, over HTTP, until its lifetime has passed without a hit. Registrations are made
over a Unix socket only.

The logic is a library that is proved with Verus; the program around it does the
input and output.

| Path | What it holds |
| --- | --- |
| `src/db.rs`, `src/laws.rs` | the registry in SQLite, and what holds of it |
| `src/ttl.rs` | lifetimes, and when a hit is written |
| `src/url_alloc.rs` | choosing URL paths |
| `src/control.rs` | the requests of the control socket |
| `src/serve.rs`, `src/guards.rs`, `src/listing.rs` | answering HTTP requests |
| `src/daemon.rs` | hits, stopping and starting again |
| `src/client.rs`, `src/cli.rs`, `src/output.rs` | the command line |
| `src/install.rs`, `src/lifecycle.rs` | the systemd service |
| `src/config.rs`, `src/host.rs`, `src/paths.rs`, `src/text.rs` | configuration, names, paths, text |
| `app/` | the program: arguments, files, sockets, processes |
| `tests/` | tests against SQLite and the standard library |

What the file system, the clock or a process says enters the library as an argument;
what is to be asked next leaves it as a value (`serve::Step`, `guards::GuardStep`,
`install::Action`). The contracts of the registry speak of the table's rows
(`db::rows`). What is taken from `rusqlite`, `humantime`, `serde_json`, `hyper` and the
standard library without proof is marked `external_body` or `assume_specification`,
with a comment on what it claims.
