# argus_mesh

The core of an offline alert mesh: nodes seal alerts (ChaCha20-Poly1305
payloads, Ed25519 signatures), route them critical-first and otherwise by a
weighted priority schedule,
drop duplicates, replays, forgeries and expired or over-travelled envelopes,
fragment and reassemble them for BLE, and keep a local alert index.

- `src/` is the verified library (Verus). Each public function states what
  it returns or changes; the laws that relate several operations are public
  proof functions next to the code they are about (priority schedule, the
  receive pipeline, deduplication, replay defence, fragmentation and
  reassembly, acknowledgements, key and record round trips).
- `app/` is the device shell around it: sled persistence, bincode and JSON
  wire formats, the async node loop, the BLE radio, the process-wide state
  behind the user-interface API, and the C interface.
- `tests/` exercises the library on concrete values.
