# sawtooth_raft

A Raft consensus engine for the Sawtooth validator, with its decision logic
verified by Verus.

- `src/` is the verified library: the block queue, the leader and follower
  state machine of a node (as functions from state and event to next state
  and actions), the file-backed Raft log storage (its state, and the file
  writes each operation records), the files of a data directory (where each
  write goes, in which encoding, and the storage a directory's files hold),
  the entry and term cache in front of a storage, the tick schedule, and the
  parsing of on-chain settings and of the command line.
- `app/` is the program around it: it talks to the validator through the
  Sawtooth SDK, drives `raft::RawNode`, reads and writes the files the
  library names, carries out the node's actions, and sets up logging.
- `tests/` runs the library, including a comparison of the storages against
  Raft's in-memory storage.
