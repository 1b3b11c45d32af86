# Fluxor download core

The logic of the Fluxor desktop download manager, written in Verus: each
rule that decides what happens to a download is an executable function with
a `requires` / `ensures` contract, and Verus proves every body against it.

## Layout

- `src/` — the verified library.
  - `queue.rs`: every change of the download queue (pause, resume, restart,
    remove, speed limits, new sources, proxies, scheduling, transfer
    outcomes, progress reports, partial files found on disk) as a function
    from a state and an event to the next state, with the laws that tie
    these operations together.
  - `engine.rs`, `transfer.rs`, `segments.rs`, `http.rs`, `rate.rs`,
    `storage.rs`: what a transfer decides from what a server answers — range
    and validator checks, the split into segments, when partial work may be
    resumed, the shared bandwidth budget, and where work is kept on disk.
  - `validation.rs`, `names.rs`, `browser.rs`: what a download, setting or
    proxy must satisfy, how file names are made safe, and how a download sent
    by the browser extension becomes a queue request.
  - `bridge.rs`: the loopback HTTP bridge the extension talks to — token,
    origin and route checks, request-head parsing and exact responses.
  - `diagnostics.rs`: the bounded diagnostic log.
  - `model.rs`, `error.rs`, `text.rs`: the shared data, errors and text
    operations over `Seq<char>`.
  - `outside.rs`: the trusted calls into std, `reqwest`, `serde_json` and
    `uuid`, each with the contract that the called code shows.
- `tests/` — tests of the library on concrete values.
- `app/` — the desktop shell around the library: the Tauri commands, file
  and network I/O, the asynchronous task loop, and serde copies of the data
  types.
