# consensus_node

A node of a HotStuff-style consensus protocol, as a Verus library: leader
rotation and view management, recovery from durable storage, block building,
commits, changes of the committee and of signing keys, snapshots, and the
routing of everything that comes in. The safety rules themselves (when to
vote, lock and commit) and signatures stay outside; their verdicts come in as
values.

## Layout

- `src/pacemaker/`: leader selection, view timers and the view state machine,
  with what rotation promises over many views.
- `src/validator_set.rs`, `src/validator_history.rs`, `src/key_history.rs`:
  committees, the views from which they rule, and the keys of validators over
  time.
- `src/codec.rs`, `src/history_codec.rs`, `src/wire.rs`, `src/bls_partial.rs`:
  stored and transmitted forms, each with a proof that it reads back.
- `src/storage.rs`, `src/replication.rs`, `src/counter.rs`, `src/digests.rs`:
  what the node needs of a store, of the replicated application and of the hash
  functions of its chain, with one verified implementation of each.
- `src/node/`: the node. `recovery`, `persist` and `commit` deal with durable
  state, `membership` and `rebuild` with committee and key changes, `audit`
  with the check of loaded histories at startup, `snapshot` with taking and
  adopting snapshots, `driving`, `dispatch`, `actions` and `admission` with the
  event loop, and `status` and `listing` with what operators get to see
  (numbers are written by `src/decimal.rs`).
- `src/trusted.rs`: the calls into other crates, with the contracts that are
  taken on trust.
- `app/`: the asynchronous driver around the library.
- `tests/`: tests that run the library.
