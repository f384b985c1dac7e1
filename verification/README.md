# dcp_node

A node of DCP (Distanced Connect Protocol), a small decentralised network
protocol: a 24-byte wire header with a BLAKE3 checksum, an X25519 handshake
that derives ChaCha20-Poly1305 session keys, a per-session sliding window,
tunnels with failover, a Kademlia routing table with a two-thirds consensus
check, rotating camouflage addresses with decoy traffic, a content-addressed
block store, and application services (sites, files, messages) on top.

The library in `src/` is written in Verus: its functions carry
`requires`/`ensures` contracts proved by the verifier (a bare clock reading,
of which nothing can be promised, has none), and the protocol's laws
(header round trip, checksum soundness, in-order delivery, key agreement,
closest-node lookup, consensus, storage accounting, one site per domain, ...)
are stated as proof functions next to the code they govern.

Cryptography, randomness, the clock and the `dashmap` tables come from their
crates through small trusted wrappers (`blake.rs`, `aead.rs`, `x25519.rs`,
`entropy.rs`, `clock.rs`, `concurrent.rs`); each wrapper's contract says what
it claims of the crate.

`app/` is the executable node: it binds a UDP socket, publishes a demo site,
and runs the event loop whose decisions are the library's `node` module.
`tests/` exercises the library with the crates linked.
