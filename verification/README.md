# abysses

A node of the Abysses anonymity network, with its core logic verified by
Verus.

- `src/` is the verified library: content addressing (Merkle roots over
  BLAKE3 digests), Reed-Solomon fragmentation and reconstruction of sites,
  the fragment cache, DHT keys, the name chain and its proof of work, onion
  packet framing and sealing, circuit bookkeeping and health, the whole-number
  part of the pheromone routing table, the keyword index of the search
  engine, the route of simulated messages, the checking of bootstrap
  addresses, the decisions of the cover-traffic loop, and the routing of
  proxy and WebSocket requests. Calls into cryptographic and coding crates go through
  the trusted items of `src/primitives.rs`, each with the contract that the
  crate's source shows.
- `app/` is the program around it: the libp2p network, the HTTP proxy and
  WebSocket servers, the background tasks (cover traffic, crawler), and the
  parts whose logic is floating point (relay weighting, search ranking, trust
  propagation, simulated failures).
- `tests/` exercise the library on concrete values.
