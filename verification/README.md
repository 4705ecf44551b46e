# rootpermit

Protocol primitives of RootPermit, the broker that authorizes one frozen
Debian `package.install` transition, written in Verus with their contracts
proved.

## Layout

- `src/cbor.rs`: the bounded deterministic-CBOR profile: decoder, encoder and
  their mathematical model.
- `src/cbor_laws.rs`, `src/map_laws.rs`, `src/order_laws.rs`,
  `src/field_laws.rs`: what decoding and encoding promise together: decoding
  then encoding gives the input back, encoding then decoding gives the
  value's canonical form, map entry order does not matter.
- `src/fields.rs`, `src/schema.rs`, `src/schema_laws.rs`: the message schemas,
  their field rules and round-trip laws.
- `src/digest.rs`, `src/ids.rs`: domain-separated SHA-256 digests and typed
  identifiers.
- `src/cose.rs`, `src/webauthn.rs`: COSE_Sign1 envelopes with Ed25519 and the
  WebAuthn decision submission check.
- `src/broker_api.rs`, `src/peercred.rs`: local broker RPC framing, error
  codes and the peer-credential checks.
- `src/lifecycle.rs`: the per-request lifecycle authority: state graph,
  race winners, hash-chained events, receipt drafts, the store's submission
  decision and the broker's signing identity.
- `src/cli.rs`: requester and administrator command parsing.
- `src/journal.rs`, `src/sealed_plan.rs`: the execution journal's record
  format and restart classification, and the sealed-plan store's naming and
  file checks.
- `src/testkit.rs`: deterministic fixture helpers.
- `app/`: the programs and everything that touches sockets or files.
- `tests/`: executable tests of the library.

The cryptographic and base64 computations are delegated to `sha2`,
`ed25519-dalek` and `base64`; their contracts in `src/` name the results
rather than restate the algorithms.
