# brongnal

An end-to-end encrypted messenger's core, verified with Verus: the X3DH key
agreement and its message envelope, signed prekey bundles, the Gossamer
key-transparency ledger, the mailbox service, the client's key stores and the
wire formats between them.

## Layout

- `src/` — the verified library.
  - `crypto.rs` — the only place that calls the cryptographic crates (dalek,
    RustCrypto, base64, hex, chrono); each call has a stated contract.
  - `keys.rs`, `aead.rs`, `bundle.rs`, `x3dh.rs`, `ratchet.rs` — the protocol.
  - `proto.rs`, `proto/` — wire messages, their protobuf encoding (with the
    proof that decoding undoes encoding) and their conversion to protocol values.
  - `gossamer.rs`, `gossamer_persistence.rs`, `gossamer_service.rs`,
    `memory_gossamer.rs` — the ledger, its store and its authorization rules.
  - `mailbox.rs`, `brongnal.rs`, `memory_storage.rs`, `memory_server.rs`,
    `mock_backend.rs` — the mailbox service and its stores.
  - `client.rs`, `key_table.rs`, `session.rs`, `history.rs`, `command.rs` —
    the client side.
  - `attestation.rs`, `vtpm.rs` — attestation checks and the measured boot.
- `tests/` — scenarios run against the library.
- `app/` — what talks to the outside world: files, the terminal, live
  channels, the client's message stream, JSON, the attestation token's
  signature check against the signer's published keys, and push
  notifications over HTTP.
