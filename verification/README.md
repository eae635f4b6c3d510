# ironfleet

Decoders for the IronFleet fleet-telemetry exchange format, verified with
Verus: binary and line frame streams, stateful session tapes, route
manifests, alert programs, and the `IFTL/1` archives that bundle them.

Each decoder's contract equates its result with a spec function that says,
line by line, what the input means; `src/laws.rs` proves the properties that
hold across calls (round trips of endpoints, numbers, hex fields and binary
frames, the session tracker's invariant, what a replay reports of its
flows, the decoders' size limits).

Layout:

- `src/` — the verified library (`text`, `reader`, `checksum`, `frame`,
  `session`, `route`, `alert`, `archive`, and the shared `error`, `model`,
  `fields`, `strings`, `catalog` modules).
- `tests/` — tests of the library on concrete inputs.
- `app/` — the floating-point side: readings, thresholds and coordinates
  are held by the library as checked decimal text and compared here, and
  the decoders are offered again with the waypoint coordinate check.
