# solana_validator

A Solana-like validator core written in Verus: every function in `src/` is
verified against its `requires`/`ensures` contract.

- `poh` — the Proof of History hash chain, entries, the recorder and the
  chain verifier.
- `accounts` — accounts, their byte encoding, the append-only accounts
  database and Merkle state roots with inclusion proofs.
- `program_executor` — instruction encodings, the compute budget and the
  system and token programs.
- `tx_processor` — transactions, the conflict-free batch scheduler and the
  executor.
- `consensus` — votes and lockouts, the Tower BFT vote tree, fork choice and
  the stake-weighted leader schedule.
- `turbine` — shreds, erasure coding and the stake-ordered propagation tree.
- `gossip` — gossip messages, the CRDS store and the push/pull protocol.
- `rpc` — JSON-RPC answers and locating the JSON body of a request.

Calls into `sha2`, `hex`, `rand` and `dashmap` go through small trusted
wrappers whose contracts say what those crates do. Functions that would send
messages return them instead; `app/` holds the program around the library
(command line, timers, sockets, channels, JSON parsing, and the
floating-point stake shares of the leader schedule).
