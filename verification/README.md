# nekos

The decision and text-processing logic of the nekos proxy client (a desktop
front end for a sing-box based control process), written in Verus with
machine-checked contracts.

- `src/` — the verified library: IPv6 literal detection and node filtering,
  subscription metadata and header checks, the core log ring and daemon
  supervision state, JSON-RPC reply handling, session planning, latency
  bookkeeping, system-proxy and autostart plans per platform, the tray
  click state machine, and settings updates. `src/laws.rs` states the
  properties that span several operations.
- `tests/` — tests of the library on concrete values.
- `app/` — the shell: SQLite storage, spawning and talking to the control
  process, HTTP fetches and running the platform plans.
