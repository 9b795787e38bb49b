use raft::storage::MemStorage;
use raft::Storage;

use sawtooth_raft::cached_storage::CachedStorage;
use sawtooth_raft::fs_storage::{u64_from_bytes, u64_to_bytes, FileOp, FsStorage, U64File};
use sawtooth_raft::storage::StorageExt;
use sawtooth_raft::types::{
    ConfState, Entry, EntryType, HardState, IoErrorKind, RaftState, Snapshot, SnapshotMetadata,
    StorageError,
};

const MAX: u64 = u64::MAX;

// The reads and writes the storage tests make, for both storages.
trait LogStorage {
    fn initial_state(&mut self) -> Result<RaftState, StorageError>;
    fn entries(&mut self, low: u64, high: u64, max_size: u64) -> Result<Vec<Entry>, StorageError>;
    fn term(&mut self, idx: u64) -> Result<u64, StorageError>;
    fn first_index(&mut self) -> Result<u64, StorageError>;
    fn last_index(&mut self) -> Result<u64, StorageError>;
    fn snapshot(&mut self) -> Result<Snapshot, StorageError>;
    fn applied(&mut self) -> Result<u64, StorageError>;
    fn set_applied(&mut self, applied: u64) -> Result<(), StorageError>;
    fn create_snapshot(&mut self, index: u64, cs: Option<&ConfState>, data: Vec<u8>) -> Result<Snapshot, StorageError>;
    fn apply_snapshot(&mut self, snapshot: &Snapshot) -> Result<(), StorageError>;
    fn compact(&mut self, compact_index: u64) -> Result<(), StorageError>;
    fn append(&mut self, ents: &[Entry]) -> Result<(), StorageError>;
}

impl LogStorage for FsStorage {
    fn initial_state(&mut self) -> Result<RaftState, StorageError> {
        StorageExt::initial_state(self)
    }
    fn entries(&mut self, low: u64, high: u64, max_size: u64) -> Result<Vec<Entry>, StorageError> {
        StorageExt::entries(self, low, high, max_size)
    }
    fn term(&mut self, idx: u64) -> Result<u64, StorageError> {
        StorageExt::term(self, idx)
    }
    fn first_index(&mut self) -> Result<u64, StorageError> {
        StorageExt::first_index(self)
    }
    fn last_index(&mut self) -> Result<u64, StorageError> {
        StorageExt::last_index(self)
    }
    fn snapshot(&mut self) -> Result<Snapshot, StorageError> {
        StorageExt::snapshot(self)
    }
    fn applied(&mut self) -> Result<u64, StorageError> {
        StorageExt::applied(self)
    }
    fn set_applied(&mut self, applied: u64) -> Result<(), StorageError> {
        StorageExt::set_applied(self, applied)
    }
    fn create_snapshot(&mut self, index: u64, cs: Option<&ConfState>, data: Vec<u8>) -> Result<Snapshot, StorageError> {
        StorageExt::create_snapshot(self, index, cs, data)
    }
    fn apply_snapshot(&mut self, snapshot: &Snapshot) -> Result<(), StorageError> {
        StorageExt::apply_snapshot(self, snapshot)
    }
    fn compact(&mut self, compact_index: u64) -> Result<(), StorageError> {
        StorageExt::compact(self, compact_index)
    }
    fn append(&mut self, ents: &[Entry]) -> Result<(), StorageError> {
        StorageExt::append(self, ents)
    }
}

impl LogStorage for CachedStorage<FsStorage> {
    fn initial_state(&mut self) -> Result<RaftState, StorageError> {
        CachedStorage::initial_state(self)
    }
    fn entries(&mut self, low: u64, high: u64, max_size: u64) -> Result<Vec<Entry>, StorageError> {
        CachedStorage::entries(self, low, high, max_size)
    }
    fn term(&mut self, idx: u64) -> Result<u64, StorageError> {
        CachedStorage::term(self, idx)
    }
    fn first_index(&mut self) -> Result<u64, StorageError> {
        CachedStorage::first_index(self)
    }
    fn last_index(&mut self) -> Result<u64, StorageError> {
        CachedStorage::last_index(self)
    }
    fn snapshot(&mut self) -> Result<Snapshot, StorageError> {
        CachedStorage::snapshot(self)
    }
    fn applied(&mut self) -> Result<u64, StorageError> {
        CachedStorage::applied(self)
    }
    fn set_applied(&mut self, applied: u64) -> Result<(), StorageError> {
        CachedStorage::set_applied(self, applied)
    }
    fn create_snapshot(&mut self, index: u64, cs: Option<&ConfState>, data: Vec<u8>) -> Result<Snapshot, StorageError> {
        CachedStorage::create_snapshot(self, index, cs, data)
    }
    fn apply_snapshot(&mut self, snapshot: &Snapshot) -> Result<(), StorageError> {
        CachedStorage::apply_snapshot(self, snapshot)
    }
    fn compact(&mut self, compact_index: u64) -> Result<(), StorageError> {
        CachedStorage::compact(self, compact_index)
    }
    fn append(&mut self, ents: &[Entry]) -> Result<(), StorageError> {
        CachedStorage::append(self, ents)
    }
}

fn create_entry(index: u64, term: u64) -> Entry {
    Entry::with_term_and_index(term, index)
}

fn create_entries(ids: Vec<u64>) -> Vec<Entry> {
    ids.into_iter().map(|i| create_entry(i, i)).collect()
}

fn populate_storage<S: LogStorage>(storage: &mut S, ids: Vec<u64>) -> Vec<Entry> {
    let entries = create_entries(ids);
    storage.append(&entries).unwrap();
    entries
}

fn fs_storage() -> FsStorage {
    FsStorage::new()
}

fn cached_storage() -> CachedStorage<FsStorage> {
    CachedStorage::new(FsStorage::new())
}

// The fields of an entry, for comparisons.
fn entry_fields(e: &Entry) -> (EntryType, u64, u64, Vec<u8>, Vec<u8>, bool) {
    (e.entry_type, e.term, e.index, e.data.clone(), e.context.clone(), e.sync_log)
}

fn entries_fields(r: &Result<Vec<Entry>, StorageError>) -> Result<Vec<(EntryType, u64, u64, Vec<u8>, Vec<u8>, bool)>, StorageError> {
    match r {
        Ok(v) => Ok(v.iter().map(entry_fields).collect()),
        Err(e) => Err(*e),
    }
}

// The values of a snapshot, for comparisons.
fn snapshot_fields(s: &Snapshot) -> (Vec<u8>, Option<(Option<(Vec<u64>, Vec<u64>)>, u64, u64)>) {
    (
        s.data.clone(),
        s.metadata.as_ref().map(|m| {
            (m.conf_state.as_ref().map(|c| (c.nodes.clone(), c.learners.clone())), m.index, m.term)
        }),
    )
}

// Storage trait tests

fn check_storage_initial_state<S: LogStorage>(mut storage: S) {
    let RaftState { hard_state, conf_state } = storage.initial_state().unwrap();
    assert_eq!(HardState { term: 0, vote: 0, commit: 0 }, hard_state);
    assert!(conf_state.nodes.is_empty());
    assert!(conf_state.learners.is_empty());
}

fn check_storage_entries<S: LogStorage>(mut storage: S) {
    // Assert that we get an error no matter what when there are no entries
    for i in 0..4 {
        for j in 0..4 {
            assert_eq!(Err(StorageError::Compacted), entries_fields(&storage.entries(i, j, MAX)));
        }
    }

    // Write entries 1-3
    let entries = populate_storage(&mut storage, (1..4).collect());

    // Verify we get the entries we wrote
    for i in 1..4 {
        for j in i..4 {
            assert_eq!(
                Ok(entries[i - 1..j - 1].iter().map(entry_fields).collect::<Vec<_>>()),
                entries_fields(&storage.entries(i as u64, j as u64, MAX))
            );
        }
    }
}

fn check_storage_term<S: LogStorage>(mut storage: S) {
    // Test that even when there are no entries, we get a term for 0
    assert_eq!(Ok(0), storage.term(0));

    // Write some entries
    let entries = populate_storage(&mut storage, (1..6).collect());

    // Assert we get the right terms
    for entry in entries {
        assert_eq!(Ok(entry.term), storage.term(entry.index));
    }

    // Delete some entries
    storage.compact(3).unwrap();

    // Test that we can still get the term of the last compacted entry
    assert_eq!(Err(StorageError::Compacted), storage.term(1));
    assert_eq!(Err(StorageError::Compacted), storage.term(2));
    assert_eq!(Ok(3), storage.term(3));
    assert_eq!(Ok(4), storage.term(4));
}

fn check_first_and_last_index<S: LogStorage>(mut storage: S) {
    // With nothing stored, the first index is 1 and the last is 0.
    assert_eq!(Ok(1), storage.first_index());
    assert_eq!(Ok(0), storage.last_index());

    populate_storage(&mut storage, (1..6).collect());

    assert_eq!(Ok(1), storage.first_index());
    assert_eq!(Ok(5), storage.last_index());

    storage.compact(3).unwrap();

    assert_eq!(Ok(4), storage.first_index());
    assert_eq!(Ok(5), storage.last_index());
}

fn check_storage_ext_compact<S: LogStorage>(mut storage: S) {
    // Compacting fails when there is nothing to compact
    assert_eq!(Err(StorageError::Compacted), storage.compact(0));

    let entries = populate_storage(&mut storage, (1..11).collect());

    assert_eq!(Err(StorageError::Compacted), storage.compact(0));

    assert_eq!(Ok(()), storage.compact(2));
    assert_eq!(Err(StorageError::Compacted), entries_fields(&storage.entries(1, 3, MAX)));
    assert_eq!(
        Ok(entries[2..9].iter().map(entry_fields).collect::<Vec<_>>()),
        entries_fields(&storage.entries(3, 10, MAX))
    );

    assert_eq!(Ok(()), storage.compact(4));
    assert_eq!(Err(StorageError::Compacted), entries_fields(&storage.entries(2, 5, MAX)));
    assert_eq!(
        Ok(entries[4..9].iter().map(entry_fields).collect::<Vec<_>>()),
        entries_fields(&storage.entries(5, 10, MAX))
    );
}

fn check_applied<S: LogStorage>(mut storage: S) {
    // Applied is initially 0
    assert_eq!(Ok(0), storage.applied());

    // Applied gets set
    storage.set_applied(1).unwrap();
    assert_eq!(Ok(1), storage.applied());
    storage.set_applied(2).unwrap();
    assert_eq!(Ok(2), storage.applied());
}

// Conversions to Raft's types, to compare with Raft's in-memory storage.

fn to_raft_entry(e: &Entry) -> raft::eraftpb::Entry {
    let mut r = raft::eraftpb::Entry::new();
    r.set_entry_type(match e.entry_type {
        EntryType::EntryNormal => raft::eraftpb::EntryType::EntryNormal,
        EntryType::EntryConfChange => raft::eraftpb::EntryType::EntryConfChange,
    });
    r.set_term(e.term);
    r.set_index(e.index);
    r.set_data(e.data.clone());
    r.set_context(e.context.clone());
    r.set_sync_log(e.sync_log);
    r
}

fn to_raft_error(e: StorageError) -> raft::Error {
    match e {
        StorageError::Compacted => raft::Error::Store(raft::StorageError::Compacted),
        StorageError::Unavailable => raft::Error::Store(raft::StorageError::Unavailable),
        StorageError::SnapshotOutOfDate => raft::Error::Store(raft::StorageError::SnapshotOutOfDate),
        StorageError::SnapshotTemporarilyUnavailable => {
            raft::Error::Store(raft::StorageError::SnapshotTemporarilyUnavailable)
        }
        StorageError::Io(kind) => raft::Error::Io(std::io::Error::new(
            match kind {
                IoErrorKind::NotFound => std::io::ErrorKind::NotFound,
                IoErrorKind::InvalidData => std::io::ErrorKind::InvalidData,
                IoErrorKind::Other => std::io::ErrorKind::Other,
            },
            "storage error",
        )),
    }
}

fn to_raft_snapshot(s: &Snapshot) -> raft::eraftpb::Snapshot {
    let mut r = raft::eraftpb::Snapshot::new();
    r.set_data(s.data.clone());
    if let Some(m) = &s.metadata {
        let meta = r.mut_metadata();
        meta.set_index(m.index);
        meta.set_term(m.term);
        if let Some(c) = &m.conf_state {
            let mut cs = raft::eraftpb::ConfState::new();
            cs.set_nodes(c.nodes.clone());
            cs.set_learners(c.learners.clone());
            meta.set_conf_state(cs);
        }
    }
    r
}

fn raft_entries(r: Result<Vec<Entry>, StorageError>) -> Result<Vec<raft::eraftpb::Entry>, raft::Error> {
    r.map(|v| v.iter().map(to_raft_entry).collect()).map_err(to_raft_error)
}

fn raft_u64(r: Result<u64, StorageError>) -> Result<u64, raft::Error> {
    r.map_err(to_raft_error)
}

fn raft_unit(r: Result<(), StorageError>) -> Result<(), raft::Error> {
    r.map_err(to_raft_error)
}

fn raft_snapshot(r: Result<Snapshot, StorageError>) -> Result<raft::eraftpb::Snapshot, raft::Error> {
    r.map(|s| to_raft_snapshot(&s)).map_err(to_raft_error)
}

fn populate_mem(storage: &MemStorage, ids: Vec<u64>) {
    let entries: Vec<raft::eraftpb::Entry> = create_entries(ids).iter().map(to_raft_entry).collect();
    storage.wl().append(&entries).unwrap();
}

// Test that the storage produces the same results as Raft's in-memory storage
fn check_parity<S: LogStorage>(mut storage: S) {
    let mem_storage = MemStorage::new();

    assert_eq!(mem_storage.term(0), raft_u64(storage.term(0)));
    assert_eq!(mem_storage.term(1), raft_u64(storage.term(1)));
    assert_eq!(mem_storage.term(2), raft_u64(storage.term(2)));
    assert_eq!(mem_storage.last_index(), raft_u64(storage.last_index()));
    assert_eq!(mem_storage.first_index(), raft_u64(storage.first_index()));

    for i in 0..3 {
        assert_eq!(mem_storage.entries(0, i, MAX), raft_entries(storage.entries(0, i, MAX)));
    }

    populate_mem(&mem_storage, (1..6).collect());
    populate_storage(&mut storage, (1..6).collect());

    assert_eq!(mem_storage.first_index(), raft_u64(storage.first_index()));
    assert_eq!(mem_storage.last_index(), raft_u64(storage.last_index()));

    // This starts at i=1 because Raft's in-memory storage treats (0, 0) differently
    for i in 1..6 {
        for j in i..6 {
            assert_eq!(mem_storage.entries(i, j, MAX), raft_entries(storage.entries(i, j, MAX)));
        }
        assert_eq!(mem_storage.term(i), raft_u64(storage.term(i)));
    }

    assert_eq!(mem_storage.snapshot(), raft_snapshot(storage.snapshot()));

    let mem_snapshot = mem_storage
        .wl()
        .create_snapshot(3, None, Vec::new())
        .map(|s| s.clone())
        .expect("MemStorage: Create snapshot failed");
    let fs_snapshot = storage.create_snapshot(3, None, Vec::new()).expect("FsStorage: Create snapshot failed");
    assert_eq!(mem_snapshot, to_raft_snapshot(&fs_snapshot));

    assert_eq!(
        mem_storage.wl().apply_snapshot(mem_snapshot.clone()),
        raft_unit(storage.apply_snapshot(&fs_snapshot)),
    );

    for i in 2..5 {
        assert_eq!(mem_storage.wl().compact(i), raft_unit(storage.compact(i)));

        assert_eq!(mem_storage.first_index(), raft_u64(storage.first_index()));
        assert_eq!(mem_storage.last_index(), raft_u64(storage.last_index()));
    }

    assert_eq!(mem_storage.snapshot(), raft_snapshot(storage.snapshot()));
}

// The storage of a data directory

#[test]
fn fs_storage_test_storage_initial_state() {
    check_storage_initial_state(fs_storage());
}

#[test]
fn fs_storage_test_storage_entries() {
    check_storage_entries(fs_storage());
}

#[test]
fn fs_storage_test_storage_term() {
    check_storage_term(fs_storage());
}

#[test]
fn fs_storage_test_first_and_last_index() {
    check_first_and_last_index(fs_storage());
}

#[test]
fn fs_storage_test_storage_ext_compact() {
    check_storage_ext_compact(fs_storage());
}

#[test]
fn fs_storage_test_parity() {
    check_parity(fs_storage());
}

// The cached storage

#[test]
fn cached_storage_test_storage_initial_state() {
    check_storage_initial_state(cached_storage());
}

#[test]
fn cached_storage_test_storage_entries() {
    check_storage_entries(cached_storage());
}

#[test]
fn cached_storage_test_storage_term() {
    check_storage_term(cached_storage());
}

#[test]
fn cached_storage_test_first_and_last_index() {
    check_first_and_last_index(cached_storage());
}

#[test]
fn cached_storage_test_storage_ext_compact() {
    check_storage_ext_compact(cached_storage());
}

#[test]
fn test_applied() {
    check_applied(cached_storage());
}

#[test]
fn cached_storage_test_parity() {
    check_parity(cached_storage());
}

// Further tests of the storage

#[test]
fn fs_storage_applied_is_kept() {
    check_applied(fs_storage());
}

#[test]
fn u64_file_roundtrip() {
    for x in [0u64, 1, 255, 256, 0x0102030405060708, u64::MAX] {
        let bytes = u64_to_bytes(x);
        assert_eq!(8, bytes.len());
        assert_eq!(Ok(x), u64_from_bytes(&bytes));
    }
    assert_eq!(vec![8, 7, 6, 5, 4, 3, 2, 1], u64_to_bytes(0x0102030405060708));
}

#[test]
fn u64_file_of_wrong_length_is_invalid() {
    assert_eq!(Err(StorageError::Io(IoErrorKind::InvalidData)), u64_from_bytes(&[1, 2, 3]));
    assert_eq!(Err(StorageError::Io(IoErrorKind::InvalidData)), u64_from_bytes(&[0; 9]));
    assert_eq!(Err(StorageError::Io(IoErrorKind::InvalidData)), u64_from_bytes(&[]));
}

fn op_summary(op: &FileOp) -> String {
    match op {
        FileOp::WriteU64(U64File::Term, v) => format!("term={}", v),
        FileOp::WriteU64(U64File::First, v) => format!("first={}", v),
        FileOp::WriteU64(U64File::Last, v) => format!("last={}", v),
        FileOp::WriteU64(U64File::Applied, v) => format!("applied={}", v),
        FileOp::WriteHardState(h) => format!("hardstate={}/{}/{}", h.term, h.vote, h.commit),
        FileOp::WriteSnapshot(s) => format!("snapshot@{}", s.index()),
        FileOp::WriteEntry(e) => format!("entry{}", e.index),
        FileOp::RemoveEntry(i) => format!("rm{}", i),
        FileOp::ClearEntries => "clear".to_string(),
    }
}

#[test]
fn fs_storage_records_file_writes() {
    let mut storage = FsStorage::new();
    let init: Vec<String> = storage.take_file_ops().iter().map(op_summary).collect();
    assert_eq!(vec!["term=0", "first=1", "last=0", "hardstate=0/0/0", "snapshot@0"], init);
    assert!(storage.take_file_ops().is_empty());

    StorageExt::append(&mut storage, &create_entries((1..4).collect())).unwrap();
    let ops: Vec<String> = storage.take_file_ops().iter().map(op_summary).collect();
    assert_eq!(vec!["entry1", "entry2", "entry3", "last=3"], ops);

    StorageExt::compact(&mut storage, 2).unwrap();
    let ops: Vec<String> = storage.take_file_ops().iter().map(op_summary).collect();
    assert_eq!(vec!["term=2", "first=3", "rm1", "rm2"], ops);

    StorageExt::set_hardstate(&mut storage, &HardState { term: 4, vote: 2, commit: 3 });
    StorageExt::set_applied(&mut storage, 3).unwrap();
    let ops: Vec<String> = storage.take_file_ops().iter().map(op_summary).collect();
    assert_eq!(vec!["hardstate=4/2/3", "applied=3"], ops);

    // A failed compaction writes nothing
    assert_eq!(Err(StorageError::Compacted), StorageExt::compact(&mut storage, 1));
    assert!(storage.take_file_ops().is_empty());
}

#[test]
fn fs_storage_from_parts_reads_back() {
    let mut snapshot = Snapshot::new();
    snapshot.metadata = Some(SnapshotMetadata {
        conf_state: Some(ConfState { nodes: vec![1, 2], learners: vec![] }),
        index: 2,
        term: 1,
    });
    let mut storage = FsStorage::from_parts(
        1,
        3,
        4,
        3,
        HardState { term: 2, vote: 1, commit: 4 },
        snapshot,
        create_entries(vec![3, 4]),
    );
    assert_eq!(Ok(3), StorageExt::first_index(&storage));
    assert_eq!(Ok(4), StorageExt::last_index(&storage));
    assert_eq!(Ok(3), StorageExt::applied(&storage));
    // The term of the entry just before the first one is the compacted term
    assert_eq!(Ok(1), StorageExt::term(&storage, 2));
    assert_eq!(Ok(4), StorageExt::term(&storage, 4));
    let state = StorageExt::initial_state(&storage).unwrap();
    assert_eq!(HardState { term: 2, vote: 1, commit: 4 }, state.hard_state);
    assert_eq!(vec![1, 2], state.conf_state.nodes);
    assert!(storage.take_file_ops().is_empty());
}

#[test]
fn fs_storage_term_is_unavailable_before_anything_is_compacted() {
    let mut storage = FsStorage::new();
    populate_storage(&mut storage, vec![1, 2, 3]);
    assert_eq!(Err(StorageError::Unavailable), StorageExt::term(&storage, 7));
    assert_eq!(Err(StorageError::Unavailable), StorageExt::entries(&storage, 2, 6, MAX).map(|_| ()));
}

#[test]
fn fs_storage_reversed_range_is_compacted() {
    let mut storage = FsStorage::new();
    populate_storage(&mut storage, vec![1, 2, 3]);
    assert_eq!(Err(StorageError::Compacted), StorageExt::entries(&storage, 3, 2, MAX).map(|_| ()));
}

#[test]
fn fs_storage_snapshot_at_or_below_current_is_out_of_date() {
    let mut storage = FsStorage::new();
    populate_storage(&mut storage, vec![1, 2, 3, 4]);
    let cs = ConfState { nodes: vec![7], learners: vec![] };
    let snap = StorageExt::create_snapshot(&mut storage, 2, Some(&cs), vec![9]).unwrap();
    assert_eq!((vec![9], Some((Some((vec![7], vec![])), 2, 2))), snapshot_fields(&snap));
    assert_eq!(
        Err(StorageError::SnapshotOutOfDate),
        StorageExt::create_snapshot(&mut storage, 2, None, vec![]).map(|_| ())
    );
    assert_eq!(Err(StorageError::SnapshotOutOfDate), StorageExt::apply_snapshot(&mut storage, &snap));
    // The membership of the snapshot is the one the node restarts with
    assert_eq!(vec![7], StorageExt::initial_state(&storage).unwrap().conf_state.nodes);
}

#[test]
fn fs_storage_apply_snapshot_replaces_the_log() {
    let mut storage = FsStorage::new();
    populate_storage(&mut storage, vec![1, 2, 3, 4, 5]);
    storage.take_file_ops();
    let mut snap = Snapshot::new();
    snap.metadata = Some(SnapshotMetadata { conf_state: None, index: 3, term: 3 });
    assert_eq!(Ok(()), StorageExt::apply_snapshot(&mut storage, &snap));
    assert_eq!(Ok(4), StorageExt::first_index(&storage));
    assert_eq!(Ok(3), StorageExt::last_index(&storage));
    assert_eq!(Ok(3), StorageExt::term(&storage, 3));
    assert_eq!(Err(StorageError::Compacted), StorageExt::term(&storage, 4));
    assert_eq!(3, StorageExt::snapshot(&storage).unwrap().index());
    let ops: Vec<String> = storage.take_file_ops().iter().map(op_summary).collect();
    assert_eq!(vec!["term=3", "first=4", "last=3", "clear", "snapshot@3"], ops);
}

#[test]
fn fs_storage_apply_snapshot_past_the_log() {
    let mut storage = FsStorage::new();
    let cs = ConfState { nodes: vec![1, 2], learners: vec![] };
    let mut snap = Snapshot::new();
    snap.data = vec![5];
    snap.metadata = Some(SnapshotMetadata { conf_state: Some(cs), index: 10, term: 2 });
    assert_eq!(Ok(()), StorageExt::apply_snapshot(&mut storage, &snap));
    assert_eq!(snapshot_fields(&snap), snapshot_fields(&StorageExt::snapshot(&storage).unwrap()));
    assert_eq!(Ok(11), StorageExt::first_index(&storage));
    assert_eq!(Ok(10), StorageExt::last_index(&storage));
    assert_eq!(Ok(2), StorageExt::term(&storage, 10));
    assert_eq!(vec![1, 2], StorageExt::initial_state(&storage).unwrap().conf_state.nodes);
    // The same through the cache.
    let mut cached = cached_storage();
    assert_eq!(Ok(()), cached.apply_snapshot(&snap));
    assert_eq!(Ok(11), cached.first_index());
    assert_eq!(Ok(2), cached.term(10));
}

#[test]
fn fs_storage_compact_over_missing_entry_is_not_found() {
    let mut storage = FsStorage::new();
    populate_storage(&mut storage, vec![1, 2]);
    assert_eq!(Err(StorageError::Io(IoErrorKind::NotFound)), StorageExt::compact(&mut storage, 4));
    assert_eq!(Ok(1), StorageExt::first_index(&storage));
}

#[test]
fn cached_storage_empty_range_after_warm_up() {
    let mut storage = cached_storage();
    populate_storage(&mut storage, vec![1, 2, 3]);
    assert_eq!(3, storage.entries(1, 4, MAX).unwrap().len());
    // Once a read has succeeded, an empty or reversed range gives no entries
    // without asking the storage.
    assert_eq!(0, storage.entries(3, 2, MAX).unwrap().len());
    // A read after a write sees the write.
    populate_storage(&mut storage, vec![4]);
    assert_eq!(Ok(4), storage.last_index());
    assert_eq!(Ok(4), storage.term(4));
    assert_eq!(4, storage.entries(1, 5, MAX).unwrap().len());
}

#[test]
fn cached_storage_empty_range_after_reset_asks_storage() {
    let mut storage = cached_storage();
    populate_storage(&mut storage, vec![1, 2, 3]);
    let first = storage.entries(1, 2, MAX).unwrap();
    assert_eq!(1, first.len());
    assert_eq!(1, first[0].index);
    assert_eq!(Ok(()), storage.compact(3));
    // The write cleared the cache, so the empty range goes to the storage,
    // whose log is now empty.
    assert_eq!(Err(StorageError::Compacted), storage.entries(4, 4, MAX).map(|v| v.len()));
    let mut plain = fs_storage();
    populate_storage(&mut plain, vec![1, 2, 3]);
    assert_eq!(Ok(()), StorageExt::compact(&mut plain, 3));
    assert_eq!(Err(StorageError::Compacted), StorageExt::entries(&plain, 4, 4, MAX).map(|v| v.len()));
}

#[test]
fn cached_storage_serves_more_entries_than_it_holds() {
    let mut storage = cached_storage();
    populate_storage(&mut storage, (1..41).collect());
    let all = storage.entries(1, 41, MAX).unwrap();
    assert_eq!(40, all.len());
    for (k, e) in all.iter().enumerate() {
        assert_eq!(k as u64 + 1, e.index);
    }
    // Reading again, partly from the cache and partly from the storage.
    let again = storage.entries(20, 41, MAX).unwrap();
    assert_eq!(21, again.len());
    assert_eq!(20, again[0].index);
    assert_eq!(Ok(17), storage.term(17));
    assert_eq!(Ok(17), storage.term(17));
}

#[test]
fn cached_storage_describes_its_storage() {
    assert_eq!(
        "cached storage: file-system backed persistent storage",
        CachedStorage::<FsStorage>::describe()
    );
    assert_eq!("file-system backed persistent storage", <FsStorage as StorageExt>::describe());
}

#[test]
fn cached_storage_passes_file_writes_through() {
    let mut storage = cached_storage();
    storage.take_file_ops();
    populate_storage(&mut storage, vec![1]);
    let ops: Vec<String> = storage.take_file_ops().iter().map(op_summary).collect();
    assert_eq!(vec!["entry1", "last=1"], ops);
}
