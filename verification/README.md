# tokio_electrum

An Electrum client with automatic reconnection, and wallet synchronisation on top of it, whose logic is
verified with [Verus](https://github.com/verus-lang/verus).

The library does no I/O. It decides: each operation that needs a server is a machine that is asked what is
needed next and told what the server answered. The contracts say exactly what is asked for, how each answer
changes the machine, and what comes out at the end.

- `src/` is the verified library.
  - `electrum/` is the client: server addresses, connection status and tasks, reconnect delays, requests and
    what becomes of their responses.
  - `bdk/` is the synchronisation of wallets: full scans and syncs with caches (`run`, built from `tip`,
    `scan`, `spk_run`, `populate` and `anchors`), scans that subscribe to scripts and the updates that
    notifications lead to (`subscribing_scan`, `stream_run`, `script_update`, `history`, `lookup`), and the
    engine that begins with a scan, follows a wallet in batches of notifications and leaves checkpoints to
    resume from (`live_scan`, `accumulator`, `live_sync_engine`, `batch_run`, `scripts_run`, `activity`,
    `subscription`, `checkpoint`). Laws on whole fetches and scans stand in `anchor_laws` and `batch_laws`;
    others stand beside the functions that they are about.
  - `ordered`, `hash`, `chain`, `tx`, `ip`, `text` and `time` hold the data types.
- `app/` is an asynchronous client around the library: connections over TCP, TLS and SOCKS5, channels and
  timers, and the conversion to and from the types of `bitcoin` and `bdk_core`.
- `tests/` runs the library against simulated servers.

Hashes, script hashes, transaction ids and chains of checkpoints come from the crates `bitcoin`,
`electrum_streaming_client` and `bdk_core`. The functions that call them are marked
`#[verifier::external_body]`; their doc comments say what is taken from those crates without proof.
