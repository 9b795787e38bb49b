//! Decision logic of a Raft consensus engine for a Sawtooth validator.
//!
//! The crate holds what the engine decides and computes: the queue of blocks
//! waiting to be committed, the leader and follower state machine of a node,
//! the storage of the Raft log (as the state of its data directory and the
//! file writes each operation performs), an entry and term cache in front of
//! any storage, the parsing of on-chain settings into the engine
//! configuration, and the byte formats it reads and writes.
//!
//! Talking to the validator, driving the Raft state machine, reading and
//! writing files and parsing the command line happen outside this crate.

pub mod types;
pub mod block_queue;

pub mod storage;
pub mod fs_storage;
pub mod data_dir;
pub mod cached_storage;
pub mod config;
pub mod node;
pub mod engine;
pub mod path;
pub mod cli;
