# Pocket Radio core

The decisions of a small internet radio, as a Verus library: what it plays and when, what it
says to its listeners and to the Worker, and how it recovers. The library touches no hardware,
network or clock. Callers hand it elapsed time and what came back from outside, and perform what
it asks for.

- `src/music*`, `src/storage.rs`: music packs and catalogs in bounded random-access storage.
- `src/playback*`, `src/now_playing.rs`: the playback clock, and what is announced of it.
- `src/spectrum*`, `src/analysis.rs`: the sample ring, freshness, and the analysis task.
- `src/protocol.rs`, `src/signaling.rs`, `src/session.rs`: messages and the way on air.
- `src/radio.rs`, `src/station.rs`, `src/metrics.rs`, `src/console.rs`, `src/platform.rs`,
  `src/recovery.rs`, `src/error.rs`: the other tasks of the firmware.
- `src/crypto.rs`, `src/checksum.rs`, `src/text.rs`: keys, portable fallbacks, CRC-32 and text.
- `src/probe.rs`: the decisions of the WebRTC probe.
- `src/benchmark*`: the archived radio with a single song.

Contracts speak of mathematical views. Properties that span several functions are public proof
functions, in `laws.rs` where a module has many. What the library takes from other crates stands
behind a few trusted items, each with a comment that says what is taken on trust.

`app/` holds the probe's `main` and the firmware's tasks around the library: native calls,
sockets, JSON, and floating point.
