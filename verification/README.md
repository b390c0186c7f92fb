# rgb_assignments

Assignments of state to single-use seals for client-side validated
contracts, verified with Verus.

- `src/assignment.rs`: an assignment of one kind of state (void, amounts
  under Pedersen commitments, hashed data) to a seal, each side revealed or
  concealed; its queries, concealment and strict encoding.
- `src/assignments.rs`: sets of assignments of one kind, kept in ascending
  order with no assignment twice; their queries, selective concealment and
  strict encoding.
- `src/order.rs`: the order of the values that sets hold.
- `src/balancing.rs`: building amount assignments whose blinding factors are
  corrected against the inputs'.
- `src/laws.rs`: what holds across these operations, proved.
- `src/seal.rs`, `src/amount.rs`, `src/data.rs`, `src/schema.rs`: the seal
  definitions and state values that assignments carry.
- `src/encoding.rs`, `src/bytes32.rs`: the strict encoding format.
- `src/crypto.rs`: trusted wrappers around `bitcoin_hashes` and
  `secp256k1zkp`.
- `app/`: `std::io` adapters for the encoding.
