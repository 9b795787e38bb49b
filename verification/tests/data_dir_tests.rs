use std::collections::HashMap;

use sawtooth_raft::data_dir::{entry_path_string, file_write, load_fs_storage, needs_init, FileWrite};
use sawtooth_raft::fs_storage::{u64_to_bytes, FileOp, FsStorage, U64File};
use sawtooth_raft::storage::StorageExt;
use sawtooth_raft::types::{
    ConfState, Entry, EntryType, HardState, IoErrorKind, Snapshot, SnapshotMetadata, StorageError,
};

// The files a list of writes leaves, by path.
fn apply_writes(files: &mut HashMap<String, Vec<u8>>, ops: Vec<FileOp>) {
    for op in ops {
        match file_write(&op).expect("encodes") {
            FileWrite::Write(path, bytes) => {
                files.insert(path, bytes);
            }
            FileWrite::Remove(path) => {
                files.remove(&path);
            }
            FileWrite::RemoveAll(dir) => {
                let prefix = format!("{}/", dir);
                files.retain(|k, _| !k.starts_with(&prefix));
            }
        }
    }
}

fn load(files: &HashMap<String, Vec<u8>>) -> Result<FsStorage, StorageError> {
    let mut entries: Vec<Vec<u8>> = Vec::new();
    for (path, bytes) in files {
        if path.starts_with("entries/") {
            entries.push(bytes.clone());
        }
    }
    load_fs_storage(
        &files["term"],
        &files["first"],
        &files["last"],
        files.get("applied"),
        &files["hardstate"],
        &files["snapshot"],
        &entries,
    )
}

fn entry(index: u64, term: u64, data: Vec<u8>) -> Entry {
    Entry { entry_type: EntryType::EntryNormal, term, index, data, context: vec![], sync_log: false }
}

#[test]
fn number_files_hold_little_endian_numbers() {
    match file_write(&FileOp::WriteU64(U64File::First, 258)).unwrap() {
        FileWrite::Write(path, bytes) => {
            assert_eq!("first", path);
            assert_eq!(vec![2, 1, 0, 0, 0, 0, 0, 0], bytes);
        }
        other => panic!("unexpected {:?}", other),
    }
    match file_write(&FileOp::WriteU64(U64File::Applied, 7)).unwrap() {
        FileWrite::Write(path, _) => assert_eq!("applied", path),
        other => panic!("unexpected {:?}", other),
    }
}

#[test]
fn entry_files_are_named_by_index() {
    assert_eq!("entries/0", entry_path_string(0));
    assert_eq!("entries/1234", entry_path_string(1234));
    match file_write(&FileOp::RemoveEntry(42)).unwrap() {
        FileWrite::Remove(path) => assert_eq!("entries/42", path),
        other => panic!("unexpected {:?}", other),
    }
    match file_write(&FileOp::ClearEntries).unwrap() {
        FileWrite::RemoveAll(path) => assert_eq!("entries", path),
        other => panic!("unexpected {:?}", other),
    }
    match file_write(&FileOp::WriteEntry(entry(9, 2, vec![1, 2]))).unwrap() {
        FileWrite::Write(path, bytes) => {
            assert_eq!("entries/9", path);
            let decoded: raft::eraftpb::Entry = protobuf::parse_from_bytes(&bytes).unwrap();
            assert_eq!(9, decoded.index);
            assert_eq!(2, decoded.term);
            assert_eq!(vec![1, 2], decoded.data);
        }
        other => panic!("unexpected {:?}", other),
    }
}

#[test]
fn a_directory_is_initialized_where_its_raft_state_is_missing() {
    let hs = match file_write(&FileOp::WriteHardState(HardState::new())).unwrap() {
        FileWrite::Write(_, bytes) => bytes,
        other => panic!("unexpected {:?}", other),
    };
    assert!(needs_init(None, false));
    assert!(needs_init(None, true));
    assert!(needs_init(Some(&hs), true));
    assert!(!needs_init(Some(&hs), false));
    // A hard state file that does not decode stops the reading first.
    assert!(!needs_init(Some(&vec![0xff, 0xff, 0xff]), true));
}

#[test]
fn a_directory_reads_back_what_was_written() {
    let mut files = HashMap::new();
    let mut storage = FsStorage::new();
    apply_writes(&mut files, storage.take_file_ops());
    let fresh = load(&files).unwrap();
    assert_eq!(Ok(1), StorageExt::first_index(&fresh));
    assert_eq!(Ok(0), StorageExt::last_index(&fresh));
    assert_eq!(Ok(0), StorageExt::applied(&fresh));

    StorageExt::append(&mut storage, &[entry(1, 1, vec![5]), entry(2, 1, vec![6]), entry(3, 2, vec![7])]).unwrap();
    StorageExt::set_hardstate(&mut storage, &HardState { term: 2, vote: 1, commit: 3 });
    StorageExt::set_applied(&mut storage, 2).unwrap();
    StorageExt::compact(&mut storage, 1).unwrap();
    StorageExt::create_snapshot(&mut storage, 2, Some(&ConfState { nodes: vec![1, 2], learners: vec![] }), vec![8]).unwrap();
    apply_writes(&mut files, storage.take_file_ops());

    let mut loaded = load(&files).unwrap();
    assert_eq!(StorageExt::first_index(&storage), StorageExt::first_index(&loaded));
    assert_eq!(StorageExt::last_index(&storage), StorageExt::last_index(&loaded));
    assert_eq!(StorageExt::applied(&storage), StorageExt::applied(&loaded));
    assert_eq!(Ok(1), StorageExt::term(&loaded, 1));
    assert_eq!(Ok(2), StorageExt::term(&loaded, 3));
    let state = StorageExt::initial_state(&loaded).unwrap();
    assert_eq!(HardState { term: 2, vote: 1, commit: 3 }, state.hard_state);
    assert_eq!(vec![1, 2], state.conf_state.nodes);
    let read: Vec<u64> = StorageExt::entries(&loaded, 2, 4, u64::MAX).unwrap().iter().map(|e| e.index).collect();
    assert_eq!(vec![2, 3], read);
    assert_eq!(2, StorageExt::snapshot(&loaded).unwrap().index());
    assert!(loaded.take_file_ops().is_empty());

    // After a snapshot replaces the log, no entry file is left.
    let mut snap = Snapshot::new();
    snap.metadata = Some(SnapshotMetadata { conf_state: None, index: 10, term: 4 });
    StorageExt::apply_snapshot(&mut storage, &snap).unwrap();
    apply_writes(&mut files, storage.take_file_ops());
    assert!(!files.keys().any(|k| k.starts_with("entries/")));
    let loaded = load(&files).unwrap();
    assert_eq!(Ok(11), StorageExt::first_index(&loaded));
    assert_eq!(Ok(4), StorageExt::term(&loaded, 10));
}

#[test]
fn a_directory_with_a_bad_file_is_invalid_data() {
    let mut files = HashMap::new();
    let mut storage = FsStorage::new();
    apply_writes(&mut files, storage.take_file_ops());
    let invalid = Err(StorageError::Io(IoErrorKind::InvalidData));

    let mut short = files.clone();
    short.insert("last".to_string(), vec![1, 2, 3]);
    assert_eq!(invalid, load(&short).map(|_| ()));

    let mut bad_applied = files.clone();
    bad_applied.insert("applied".to_string(), vec![0; 9]);
    assert_eq!(invalid, load(&bad_applied).map(|_| ()));

    let mut good_applied = files.clone();
    good_applied.insert("applied".to_string(), u64_to_bytes(5));
    assert_eq!(Ok(5), load(&good_applied).map(|s| StorageExt::applied(&s).unwrap()));

    let mut bad_snapshot = files.clone();
    bad_snapshot.insert("snapshot".to_string(), vec![0xff, 0xff]);
    assert_eq!(invalid, load(&bad_snapshot).map(|_| ()));

    let mut bad_entry = files.clone();
    bad_entry.insert("entries/1".to_string(), vec![0xff]);
    assert_eq!(invalid, load(&bad_entry).map(|_| ()));
}

#[test]
fn reopening_keeps_the_state() {
    let mut files = HashMap::new();
    let mut storage = FsStorage::new();
    apply_writes(&mut files, storage.take_file_ops());
    let ents: Vec<Entry> = (1..6).map(|k| entry(k, k, vec![k as u8])).collect();
    StorageExt::append(&mut storage, &ents).unwrap();
    StorageExt::compact(&mut storage, 3).unwrap();
    apply_writes(&mut files, storage.take_file_ops());

    let reopened = load(&files).unwrap();
    assert_eq!(Ok(4), StorageExt::first_index(&reopened));
    assert_eq!(Ok(5), StorageExt::last_index(&reopened));
    assert_eq!(Ok(3), StorageExt::term(&reopened, 3));
    let read: Vec<(u64, Vec<u8>)> = StorageExt::entries(&reopened, 4, 6, u64::MAX)
        .unwrap()
        .iter()
        .map(|e| (e.index, e.data.clone()))
        .collect();
    assert_eq!(vec![(4, vec![4]), (5, vec![5])], read);
    // The entry files are gone for the compacted entries.
    assert!(!files.contains_key("entries/3"));
    assert!(files.contains_key("entries/4"));
}

#[test]
fn hard_state_file_holds_three_varint_fields() {
    let bytes = |h: HardState| match file_write(&FileOp::WriteHardState(h)).unwrap() {
        FileWrite::Write(path, bytes) => {
            assert_eq!("hardstate", path);
            bytes
        }
        other => panic!("unexpected {:?}", other),
    };
    assert_eq!(vec![0x08, 2, 0x10, 1, 0x18, 0xac, 0x02], bytes(HardState { term: 2, vote: 1, commit: 300 }));
    assert_eq!(Vec::<u8>::new(), bytes(HardState::new()));
    assert_eq!(vec![0x10, 0x7f], bytes(HardState { term: 0, vote: 127, commit: 0 }));
}
