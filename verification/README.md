# zinknet

Verified core of the ZinKNet node and clients, written in Verus.

ZinKNet pairs competitions opened on a contract with the programs their
issuers publish on a gossip topic; nodes join a ready competition and prove
its program.

- `src/uint.rs`: 256-bit chain words and their wrapping arithmetic.
- `src/word_map.rs`: insertion-ordered tables keyed by words.
- `src/competition.rs`: addresses, ready and pending competitions, competitor counts.
- `src/chain.rs`: the contract handle, the opening deposit, how contract events
  move the node's tables, and the log poller.
- `src/p2p.rs`: signed programs from the gossip topic, and the peer search.
- `src/node.rs`: the node's interactive state machine (keys, task results, footer).
- `src/layout.rs`: the popup's centred geometry.
- `app/`: the programs around the library (terminal interface, chain and
  network I/O, serialisation, proving).
- `tests/`: tests of the library.
