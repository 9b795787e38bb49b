//! The Raft log storage kept in a data directory.
//!
//! The directory holds a file per log entry (named by its index) and files
//! for the compacted term, the first and last index, the applied index, the
//! hard state and the snapshot. [`FsStorage`] holds what those files hold,
//! answers every read from it, and for each write records the file
//! operations, in order, that bring the directory along; the caller performs
//! them.

use vstd::prelude::*;
use std::collections::HashMap;

use crate::storage::{opt_conf_ref_view, StorageExt};
use crate::types::{
    clone_entries, conf_state_of, entries_result_view, entries_view, metadata_of, result_view,
    snapshot_index_of, ConfState, ConfStateView, Entry, EntryView, HardState, IoErrorKind,
    RaftState, RaftStateView, Snapshot, SnapshotMetadata, SnapshotMetadataView, SnapshotView,
    StorageError,
};

verus! {

broadcast use vstd::std_specs::hash::group_hash_axioms;

/// The files of the data directory that hold a single number.
#[derive(PartialEq, Eq, Structural, Clone, Copy, Debug)]
pub enum U64File {
    /// The term of the last compacted entry (file `term`).
    Term,
    /// The index of the first entry still stored (file `first`).
    First,
    /// The index of the last entry stored (file `last`).
    Last,
    /// The index of the last applied entry (file `applied`).
    Applied,
}

/// A write to the data directory.
#[derive(Debug)]
pub enum FileOp {
    /// Write a number into one of the number files.
    WriteU64(U64File, u64),
    /// Write the hard state file.
    WriteHardState(HardState),
    /// Write the snapshot file.
    WriteSnapshot(Snapshot),
    /// Write the file of an entry (named by its index).
    WriteEntry(Entry),
    /// Remove the file of the entry at an index.
    RemoveEntry(u64),
    /// Remove the files of all entries.
    ClearEntries,
}

/// The mathematical value of a [`FileOp`].
pub enum FileOpView {
    WriteU64(U64File, u64),
    WriteHardState(HardState),
    WriteSnapshot(SnapshotView),
    WriteEntry(EntryView),
    RemoveEntry(u64),
    ClearEntries,
}

impl View for FileOp {
    type V = FileOpView;

    open spec fn view(&self) -> FileOpView {
        match self {
            FileOp::WriteU64(f, v) => FileOpView::WriteU64(*f, *v),
            FileOp::WriteHardState(h) => FileOpView::WriteHardState(*h),
            FileOp::WriteSnapshot(s) => FileOpView::WriteSnapshot(s@),
            FileOp::WriteEntry(e) => FileOpView::WriteEntry(e@),
            FileOp::RemoveEntry(i) => FileOpView::RemoveEntry(*i),
            FileOp::ClearEntries => FileOpView::ClearEntries,
        }
    }
}

/// The views of a sequence of file operations.
pub open spec fn ops_view(v: Seq<FileOp>) -> Seq<FileOpView> {
    v.map_values(|o: FileOp| o@)
}

/// What the data directory holds.
pub struct FsState {
    pub compacted_term: u64,
    pub first_index: u64,
    pub last_index: u64,
    pub applied: u64,
    pub hard_state: HardState,
    pub snapshot: SnapshotView,
    pub entries: Map<u64, EntryView>,
}

/// Whether the directory holds an entry at every index from `from` up to
/// (not including) `to`.
pub open spec fn all_present(s: FsState, from: u64, to: int) -> bool {
    forall|i: u64| from <= i < to ==> #[trigger] s.entries.contains_key(i)
}

/// What reading the entries from `low` up to `high` gives: the range must
/// not be reversed, the log not empty, the range not start before the first
/// entry (all that is compacted) nor end after the last (that is
/// unavailable), and every entry file in it must be there.
pub open spec fn fs_entries(s: FsState, low: u64, high: u64) -> Result<Seq<EntryView>, StorageError> {
    if low > high {
        Err(StorageError::Compacted)
    } else if s.first_index > s.last_index {
        Err(StorageError::Compacted)
    } else if low == high {
        Ok(Seq::empty())
    } else if low < s.first_index {
        Err(StorageError::Compacted)
    } else if high - 1 > s.last_index {
        Err(StorageError::Unavailable)
    } else if all_present(s, low, high as int) {
        Ok(Seq::new((high - low) as nat, |k: int| s.entries[(low + k) as u64]))
    } else {
        Err(StorageError::Io(IoErrorKind::NotFound))
    }
}

/// The entry a range read returns at `index`.
pub open spec fn fs_entry(s: FsState, index: u64) -> Option<EntryView> {
    if s.first_index <= index <= s.last_index && s.entries.contains_key(index) {
        Some(s.entries[index])
    } else {
        None
    }
}

/// The term of the entry at `idx`: from its file where there is one; 0 for
/// index 0; the compacted term for the entry just before the first one; and
/// otherwise compacted, or unavailable while nothing has been compacted.
pub open spec fn fs_term(s: FsState, idx: u64) -> Result<u64, StorageError> {
    if s.entries.contains_key(idx) {
        Ok(s.entries[idx].term)
    } else if idx == 0 {
        Ok(0)
    } else if idx + 1 == s.first_index {
        if s.compacted_term == 0 {
            Err(StorageError::Unavailable)
        } else {
            Ok(s.compacted_term)
        }
    } else if s.compacted_term == 0 {
        Err(StorageError::Unavailable)
    } else {
        Err(StorageError::Compacted)
    }
}

/// The state after compacting up to `ci`: the entries from the first one to
/// `ci` are gone, the first index follows `ci`, and the compacted term is the
/// term of the entry at `ci`.
pub open spec fn fs_compacted(s: FsState, ci: u64) -> FsState {
    FsState {
        compacted_term: s.entries[ci].term,
        first_index: (ci + 1) as u64,
        entries: s.entries.remove_keys(Set::new(|i: u64| s.first_index <= i <= ci)),
        ..s
    }
}

/// What compacting up to `ci` returns: compacted where `ci` precedes the
/// first entry, not found where an entry file in the range is missing.
pub open spec fn fs_compact_result(s: FsState, ci: u64) -> Result<(), StorageError> {
    if s.first_index > ci {
        Err(StorageError::Compacted)
    } else if !all_present(s, s.first_index, ci + 1) {
        Err(StorageError::Io(IoErrorKind::NotFound))
    } else {
        Ok(())
    }
}

/// The writes of a compaction up to `ci` from first index `first`: the
/// compacted term, the new first index, then the removal of each entry file.
pub open spec fn compact_ops(first: u64, ci: u64, term: u64) -> Seq<FileOpView> {
    seq![FileOpView::WriteU64(U64File::Term, term), FileOpView::WriteU64(U64File::First, (ci + 1) as u64)]
        + Seq::new((ci - first + 1) as nat, |k: int| FileOpView::RemoveEntry((first + k) as u64))
}

/// The state after applying a newer snapshot: the snapshot replaces the log,
/// so no entry is left, the first index follows the snapshot's index, the
/// last index is the snapshot's index, and the compacted term is the
/// snapshot's term.
pub open spec fn snapshot_applied(s: FsState, snapshot: SnapshotView) -> FsState {
    let meta = metadata_of(snapshot);
    FsState {
        compacted_term: meta.term,
        first_index: (meta.index + 1) as u64,
        last_index: meta.index,
        snapshot,
        entries: Map::empty(),
        ..s
    }
}

/// The writes of applying a snapshot: the compacted term, the first and
/// last indexes, the removal of every entry file, then the snapshot.
pub open spec fn apply_snapshot_ops(snapshot: SnapshotView) -> Seq<FileOpView> {
    let meta = metadata_of(snapshot);
    seq![
        FileOpView::WriteU64(U64File::Term, meta.term),
        FileOpView::WriteU64(U64File::First, (meta.index + 1) as u64),
        FileOpView::WriteU64(U64File::Last, meta.index),
        FileOpView::ClearEntries,
        FileOpView::WriteSnapshot(snapshot),
    ]
}

/// The entries after writing `ents` in order, each under its index.
pub open spec fn entries_after(m: Map<u64, EntryView>, ents: Seq<EntryView>) -> Map<u64, EntryView>
    decreases ents.len(),
{
    if ents.len() == 0 {
        m
    } else {
        entries_after(m, ents.drop_last()).insert(ents.last().index, ents.last())
    }
}

/// The writes of an append: the file of each entry, then the last index
/// where there is an entry.
pub open spec fn append_ops(ents: Seq<EntryView>) -> Seq<FileOpView> {
    ents.map_values(|e: EntryView| FileOpView::WriteEntry(e)) + if ents.len() > 0 {
        seq![FileOpView::WriteU64(U64File::Last, ents.last().index)]
    } else {
        Seq::empty()
    }
}

/// The snapshot created at `index` with membership `cs` (where given) and
/// `data`: the current metadata with that index, the term of the entry at
/// it, and that membership.
pub open spec fn snapshot_created(s: FsState, index: u64, cs: Option<ConfStateView>, data: Seq<u8>) -> SnapshotView {
    let old_meta = metadata_of(s.snapshot);
    SnapshotView {
        data,
        metadata: Some(SnapshotMetadataView {
            conf_state: match cs {
                Some(c) => Some(c),
                None => old_meta.conf_state,
            },
            index,
            term: s.entries[index].term,
        }),
    }
}

/// The state of a freshly initialized directory: nothing compacted, the
/// first index 1, the last index 0, nothing applied, the zero hard state and
/// the empty snapshot.
pub open spec fn fresh_state() -> FsState {
    FsState {
        compacted_term: 0,
        first_index: 1,
        last_index: 0,
        applied: 0,
        hard_state: HardState { term: 0, vote: 0, commit: 0 },
        snapshot: crate::types::empty_snapshot(),
        entries: Map::empty(),
    }
}

/// The writes that initialize a directory.
pub open spec fn init_ops() -> Seq<FileOpView> {
    seq![
        FileOpView::WriteU64(U64File::Term, 0),
        FileOpView::WriteU64(U64File::First, 1),
        FileOpView::WriteU64(U64File::Last, 0),
        FileOpView::WriteHardState(HardState { term: 0, vote: 0, commit: 0 }),
        FileOpView::WriteSnapshot(crate::types::empty_snapshot()),
    ]
}

/// The bytes a number file holds: the number in little-endian order.
pub open spec fn le_bytes(x: u64) -> Seq<u8> {
    seq![
        (x & 0xff) as u8,
        ((x >> 8) & 0xff) as u8,
        ((x >> 16) & 0xff) as u8,
        ((x >> 24) & 0xff) as u8,
        ((x >> 32) & 0xff) as u8,
        ((x >> 40) & 0xff) as u8,
        ((x >> 48) & 0xff) as u8,
        ((x >> 56) & 0xff) as u8,
    ]
}

/// The number eight bytes hold in little-endian order.
pub open spec fn le_value(b: Seq<u8>) -> u64 {
    (b[0] as u64) | ((b[1] as u64) << 8u64) | ((b[2] as u64) << 16u64) | ((b[3] as u64) << 24u64)
        | ((b[4] as u64) << 32u64) | ((b[5] as u64) << 40u64) | ((b[6] as u64) << 48u64) | ((b[7] as u64) << 56u64)
}

/// The bytes to write into a number file: the number in little-endian
/// order, whatever the host's byte order (a file written in the host's
/// native order on a big-endian host reads differently).
pub fn u64_to_bytes(x: u64) -> (r: Vec<u8>)
    ensures
        r@ == le_bytes(x),
{
    let mut r: Vec<u8> = Vec::new();
    r.push((x & 0xff) as u8);
    r.push(((x >> 8) & 0xff) as u8);
    r.push(((x >> 16) & 0xff) as u8);
    r.push(((x >> 24) & 0xff) as u8);
    r.push(((x >> 32) & 0xff) as u8);
    r.push(((x >> 40) & 0xff) as u8);
    r.push(((x >> 48) & 0xff) as u8);
    r.push(((x >> 56) & 0xff) as u8);
    assert(r@ =~= le_bytes(x));
    r
}

/// The number a number file holds, where it holds exactly eight bytes, read
/// in little-endian order whatever the host's byte order.
pub fn u64_from_bytes(payload: &[u8]) -> (r: Result<u64, StorageError>)
    ensures
        payload@.len() == 8 ==> r == Ok::<u64, StorageError>(le_value(payload@)),
        payload@.len() != 8 ==> r == Err::<u64, StorageError>(StorageError::Io(IoErrorKind::InvalidData)),
{
    if payload.len() != 8 {
        return Err(StorageError::Io(IoErrorKind::InvalidData));
    }
    let v = (payload[0] as u64) | ((payload[1] as u64) << 8u64) | ((payload[2] as u64) << 16u64)
        | ((payload[3] as u64) << 24u64) | ((payload[4] as u64) << 32u64) | ((payload[5] as u64) << 40u64)
        | ((payload[6] as u64) << 48u64) | ((payload[7] as u64) << 56u64);
    Ok(v)
}

/// Reading back the bytes written for a number gives that number.
pub proof fn lemma_u64_bytes_roundtrip(x: u64)
    ensures
        le_bytes(x).len() == 8,
        le_value(le_bytes(x)) == x,
{
    let b = le_bytes(x);
    assert(b[0] == (x & 0xff) as u8);
    assert(b[7] == ((x >> 56) & 0xff) as u8);
    assert((((x & 0xff) as u8) as u64) | (((((x >> 8) & 0xff) as u8) as u64) << 8u64)
        | (((((x >> 16) & 0xff) as u8) as u64) << 16u64) | (((((x >> 24) & 0xff) as u8) as u64) << 24u64)
        | (((((x >> 32) & 0xff) as u8) as u64) << 32u64) | (((((x >> 40) & 0xff) as u8) as u64) << 40u64)
        | (((((x >> 48) & 0xff) as u8) as u64) << 48u64) | (((((x >> 56) & 0xff) as u8) as u64) << 56u64) == x)
        by (bit_vector);
}


proof fn lemma_entries_after_consecutive(m: Map<u64, EntryView>, ents: Seq<EntryView>)
    requires
        forall|k: int| 0 <= k < ents.len() ==> #[trigger] ents[k].index == ents[0].index + k,
    ensures
        forall|k: int| 0 <= k < ents.len() ==> entries_after(m, ents).contains_key(#[trigger] ents[k].index)
            && entries_after(m, ents)[ents[k].index] == ents[k],
    decreases ents.len(),
{
    if ents.len() > 0 {
        let init = ents.drop_last();
        assert forall|k: int| 0 <= k < init.len() implies #[trigger] init[k].index == init[0].index + k by {
            assert(init[k] == ents[k]);
            assert(init[0] == ents[0]);
        }
        lemma_entries_after_consecutive(m, init);
        assert forall|k: int| 0 <= k < ents.len() implies entries_after(m, ents).contains_key(#[trigger] ents[k].index)
            && entries_after(m, ents)[ents[k].index] == ents[k] by {
            if k < ents.len() - 1 {
                assert(init[k] == ents[k]);
                assert(ents[k].index != ents.last().index);
            }
        }
    }
}

/// Reading after an append: once entries with consecutive indexes, from the
/// first stored index on, have been appended, reading their range gives them
/// back, the term of each index is the term of its entry, and the last index
/// is the last appended one.
pub proof fn lemma_read_after_append(s: FsState, ents: Seq<EntryView>)
    requires
        ents.len() > 0,
        forall|k: int| 0 <= k < ents.len() ==> #[trigger] ents[k].index == ents[0].index + k,
        s.first_index <= ents[0].index,
        ents[0].index + ents.len() <= u64::MAX,
    ensures
        ({
            let after = FsState { entries: entries_after(s.entries, ents), last_index: ents.last().index, ..s };
            &&& after.last_index == ents[0].index + ents.len() - 1
            &&& fs_entries(after, ents[0].index, (ents.last().index + 1) as u64) == Ok::<Seq<EntryView>, StorageError>(ents)
            &&& forall|k: int| 0 <= k < ents.len() ==> fs_term(after, #[trigger] ents[k].index) == Ok::<u64, StorageError>(ents[k].term)
        }),
{
    let after = FsState { entries: entries_after(s.entries, ents), last_index: ents.last().index, ..s };
    lemma_entries_after_consecutive(s.entries, ents);
    let low = ents[0].index;
    let high = (ents.last().index + 1) as u64;
    assert(ents.last() == ents[ents.len() - 1]);
    assert forall|i: u64| low <= i < high implies #[trigger] after.entries.contains_key(i) by {
        let k = i - low;
        assert(ents[k].index == i);
    }
    assert forall|k: int| 0 <= k < ents.len() implies fs_term(after, #[trigger] ents[k].index) == Ok::<u64, StorageError>(ents[k].term) by {
        assert(after.entries.contains_key(ents[k].index));
    }
    assert(fs_entries(after, low, high)->Ok_0 =~= ents) by {
        assert forall|k: int| 0 <= k < ents.len() implies after.entries[(low + k) as u64] == ents[k] by {
            assert(ents[k].index == low + k);
        }
    }
}

/// Reading after a compaction: once the log has been compacted up to `ci`,
/// the first index is `ci + 1`, every non-empty range that starts at or
/// before `ci` reads as compacted, and the term at `ci` is still known where
/// it is not zero.
pub proof fn lemma_read_after_compact(s: FsState, ci: u64)
    requires
        fs_compact_result(s, ci) is Ok,
        0 < ci < u64::MAX,
    ensures
        ({
            let after = fs_compacted(s, ci);
            &&& after.first_index == ci + 1
            &&& forall|low: u64, high: u64| low <= ci && low < high ==> fs_entries(after, low, high) == Err::<Seq<EntryView>, StorageError>(StorageError::Compacted)
            &&& s.entries[ci].term != 0 ==> fs_term(after, ci) == Ok::<u64, StorageError>(s.entries[ci].term)
        }),
{
    let after = fs_compacted(s, ci);
    assert(!after.entries.contains_key(ci));
}

/// What a write does to the state a directory holds.
pub open spec fn state_after_op(st: FsState, op: FileOpView) -> FsState {
    match op {
        FileOpView::WriteU64(f, v) => match f {
            U64File::Term => FsState { compacted_term: v, ..st },
            U64File::First => FsState { first_index: v, ..st },
            U64File::Last => FsState { last_index: v, ..st },
            U64File::Applied => FsState { applied: v, ..st },
        },
        FileOpView::WriteHardState(h) => FsState { hard_state: h, ..st },
        FileOpView::WriteSnapshot(sn) => FsState { snapshot: sn, ..st },
        FileOpView::WriteEntry(e) => FsState { entries: st.entries.insert(e.index, e), ..st },
        FileOpView::RemoveEntry(i) => FsState { entries: st.entries.remove(i), ..st },
        FileOpView::ClearEntries => FsState { entries: Map::empty(), ..st },
    }
}

/// What a sequence of writes, in order, does to the state a directory
/// holds.
pub open spec fn state_after_ops(st: FsState, ops: Seq<FileOpView>) -> FsState
    decreases ops.len(),
{
    if ops.len() == 0 {
        st
    } else {
        state_after_op(state_after_ops(st, ops.drop_last()), ops.last())
    }
}

proof fn lemma_after_ops_push(st: FsState, ops: Seq<FileOpView>, op: FileOpView)
    ensures
        state_after_ops(st, ops.push(op)) == state_after_op(state_after_ops(st, ops), op),
{
    assert(ops.push(op).drop_last() =~= ops);
}

/// Writes done one sequence after another do what the whole sequence does.
pub proof fn lemma_after_ops_concat(st: FsState, a: Seq<FileOpView>, b: Seq<FileOpView>)
    ensures
        state_after_ops(st, a + b) == state_after_ops(state_after_ops(st, a), b),
    decreases b.len(),
{
    if b.len() == 0 {
        assert(a + b =~= a);
    } else {
        assert((a + b).drop_last() =~= a + b.drop_last());
        assert((a + b).last() == b.last());
        lemma_after_ops_concat(st, a, b.drop_last());
    }
}

proof fn lemma_entry_writes(st: FsState, ents: Seq<EntryView>)
    ensures
        state_after_ops(st, ents.map_values(|e: EntryView| FileOpView::WriteEntry(e)))
            == (FsState { entries: entries_after(st.entries, ents), ..st }),
    decreases ents.len(),
{
    if ents.len() > 0 {
        let ops = ents.map_values(|e: EntryView| FileOpView::WriteEntry(e));
        assert(ops.drop_last() =~= ents.drop_last().map_values(|e: EntryView| FileOpView::WriteEntry(e)));
        lemma_entry_writes(st, ents.drop_last());
    }
}

/// The writes of an append carry the state to the state after the append.
proof fn lemma_append_writes(st: FsState, ents: Seq<EntryView>)
    ensures
        state_after_ops(st, append_ops(ents)) == (FsState {
            entries: entries_after(st.entries, ents),
            last_index: if ents.len() > 0 {
                ents.last().index
            } else {
                st.last_index
            },
            ..st
        }),
{
    let w = ents.map_values(|e: EntryView| FileOpView::WriteEntry(e));
    lemma_entry_writes(st, ents);
    if ents.len() > 0 {
        lemma_after_ops_push(st, w, FileOpView::WriteU64(U64File::Last, ents.last().index));
        assert(append_ops(ents) =~= w.push(FileOpView::WriteU64(U64File::Last, ents.last().index)));
    } else {
        assert(append_ops(ents) =~= w);
    }
}

proof fn lemma_removals(st: FsState, first: u64, n: nat)
    requires
        first + n <= u64::MAX + 1,
    ensures
        state_after_ops(st, Seq::new(n, |k: int| FileOpView::RemoveEntry((first + k) as u64)))
            == (FsState { entries: st.entries.remove_keys(Set::new(|i: u64| first <= i < first + n)), ..st }),
    decreases n,
{
    let ops = Seq::new(n, |k: int| FileOpView::RemoveEntry((first + k) as u64));
    if n == 0 {
        assert(st.entries.remove_keys(Set::new(|i: u64| first <= i < first + n)) =~= st.entries);
    } else {
        let m = (n - 1) as nat;
        assert(ops.drop_last() =~= Seq::new(m, |k: int| FileOpView::RemoveEntry((first + k) as u64)));
        lemma_removals(st, first, m);
        assert(st.entries.remove_keys(Set::new(|i: u64| first <= i < first + m)).remove((first + m) as u64)
            =~= st.entries.remove_keys(Set::new(|i: u64| first <= i < first + n)));
    }
}

/// The writes of a compaction carry the state to the compacted state.
proof fn lemma_compact_writes(st: FsState, ci: u64)
    requires
        st.first_index <= ci < u64::MAX,
    ensures
        state_after_ops(st, compact_ops(st.first_index, ci, st.entries[ci].term)) == fs_compacted(st, ci),
{
    let t = st.entries[ci].term;
    let head = seq![FileOpView::WriteU64(U64File::Term, t), FileOpView::WriteU64(U64File::First, (ci + 1) as u64)];
    let n = (ci - st.first_index + 1) as nat;
    let rm = Seq::new(n, |k: int| FileOpView::RemoveEntry((st.first_index + k) as u64));
    assert(compact_ops(st.first_index, ci, t) =~= head + rm);
    lemma_after_ops_concat(st, head, rm);
    assert(head =~= seq![FileOpView::WriteU64(U64File::Term, t)].push(FileOpView::WriteU64(U64File::First, (ci + 1) as u64)));
    lemma_after_ops_push(st, seq![FileOpView::WriteU64(U64File::Term, t)], FileOpView::WriteU64(U64File::First, (ci + 1) as u64));
    lemma_after_ops_push(st, Seq::empty(), FileOpView::WriteU64(U64File::Term, t));
    assert(Seq::<FileOpView>::empty().push(FileOpView::WriteU64(U64File::Term, t)) =~= seq![FileOpView::WriteU64(U64File::Term, t)]);
    let mid = state_after_ops(st, head);
    assert(mid == FsState { compacted_term: t, first_index: (ci + 1) as u64, ..st });
    lemma_removals(mid, st.first_index, n);
    assert(Set::new(|i: u64| st.first_index <= i < st.first_index + n) =~= Set::new(|i: u64| st.first_index <= i <= ci));
}

/// The writes of applying a snapshot carry the state to the state the
/// snapshot gives.
proof fn lemma_apply_snapshot_writes(st: FsState, snapshot: SnapshotView)
    requires
        metadata_of(snapshot).index < u64::MAX,
    ensures
        state_after_ops(st, apply_snapshot_ops(snapshot)) == snapshot_applied(st, snapshot),
{
    let ops = apply_snapshot_ops(snapshot);
    reveal_with_fuel(state_after_ops, 6);
    assert(ops.drop_last().drop_last().drop_last().drop_last().drop_last() =~= Seq::<FileOpView>::empty());
    assert(state_after_ops(st, ops).entries =~= Map::<u64, EntryView>::empty());
}

/// The writes that initialize a directory carry the fresh state to itself.
proof fn lemma_init_writes()
    ensures
        state_after_ops(fresh_state(), init_ops()) == fresh_state(),
{
    let ops = init_ops();
    reveal_with_fuel(state_after_ops, 6);
    assert(ops.drop_last().drop_last().drop_last().drop_last().drop_last() =~= Seq::<FileOpView>::empty());
}

/// The Raft log storage of a data directory.
pub struct FsStorage {
    compacted_term: u64,
    first_index: u64,
    last_index: u64,
    applied: u64,
    hard_state: HardState,
    snapshot: Snapshot,
    entries: HashMap<u64, Entry>,
    pending: Vec<FileOp>,
    /// What the directory held when the recorded writes were last taken.
    disk: Ghost<FsState>,
}

impl FsStorage {
    /// What the directory holds.
    pub closed spec fn state(&self) -> FsState {
        FsState {
            compacted_term: self.compacted_term,
            first_index: self.first_index,
            last_index: self.last_index,
            applied: self.applied,
            hard_state: self.hard_state,
            snapshot: self.snapshot@,
            entries: self.entries@.map_values(|e: Entry| e@),
        }
    }

    /// The writes recorded and not yet taken.
    pub closed spec fn pending(&self) -> Seq<FileOpView> {
        ops_view(self.pending@)
    }

    /// Each entry file holds the entry of its index.
    pub closed spec fn well_keyed(&self) -> bool {
        forall|k: u64| #[trigger] self.entries@.contains_key(k) ==> self.entries@[k].index == k
    }

    /// The state the directory held when the recorded writes were last
    /// taken (for a new storage, the fresh state its writes initialize).
    pub closed spec fn disk(&self) -> FsState {
        self.disk@
    }

    /// The recorded writes carry what the directory held to what the
    /// storage holds.
    pub open spec fn writes_reach_state(&self) -> bool {
        state_after_ops(self.disk(), self.pending()) == self.state()
    }

    /// A freshly initialized directory, with the writes that initialize it
    /// recorded.
    pub fn new() -> (r: FsStorage)
        ensures
            r.well_keyed(),
            r.writes_reach_state(),
            r.disk() == fresh_state(),
            r.state() == fresh_state(),
            r.pending() == init_ops(),
    {
        let mut pending: Vec<FileOp> = Vec::new();
        pending.push(FileOp::WriteU64(U64File::Term, 0));
        pending.push(FileOp::WriteU64(U64File::First, 1));
        pending.push(FileOp::WriteU64(U64File::Last, 0));
        pending.push(FileOp::WriteHardState(HardState::new()));
        pending.push(FileOp::WriteSnapshot(Snapshot::new()));
        let r = FsStorage {
            compacted_term: 0,
            first_index: 1,
            last_index: 0,
            applied: 0,
            hard_state: HardState::new(),
            snapshot: Snapshot::new(),
            entries: HashMap::new(),
            pending,
            disk: Ghost(fresh_state()),
        };
        assert(r.state().entries =~= Map::<u64, EntryView>::empty());
        assert(r.state() == fresh_state());
        assert(r.pending() =~= init_ops());
        proof {
            lemma_init_writes();
        }
        r
    }

    /// The storage of a directory that holds the given values, each entry
    /// under its own index (a later one replacing an earlier one), with no
    /// write recorded.
    pub fn from_parts(
        compacted_term: u64,
        first_index: u64,
        last_index: u64,
        applied: u64,
        hard_state: HardState,
        snapshot: Snapshot,
        entries: Vec<Entry>,
    ) -> (r: FsStorage)
        ensures
            r.well_keyed(),
            r.writes_reach_state(),
            r.disk() == r.state(),
            r.state() == (FsState {
                compacted_term,
                first_index,
                last_index,
                applied,
                hard_state,
                snapshot: snapshot@,
                entries: entries_after(Map::empty(), entries_view(entries@)),
            }),
            r.pending() == Seq::<FileOpView>::empty(),
    {
        let mut map: HashMap<u64, Entry> = HashMap::new();
        let mut i: usize = 0;
        while i < entries.len()
            invariant
                i <= entries@.len(),
                forall|k: u64| #[trigger] map@.contains_key(k) ==> map@[k].index == k,
                map@.map_values(|e: Entry| e@) == entries_after(Map::empty(), entries_view(entries@).subrange(0, i as int)),
            decreases entries.len() - i,
        {
            let e = entries[i].clone();
            let ghost ev = e@;
            let ghost before = map@;
            map.insert(e.index, e);
            proof {
                let s = entries_view(entries@).subrange(0, i + 1);
                assert(s.drop_last() =~= entries_view(entries@).subrange(0, i as int));
                assert(s.last() == ev);
                assert(map@.map_values(|e: Entry| e@) =~= before.map_values(|e: Entry| e@).insert(ev.index, ev));
            }
            i = i + 1;
        }
        assert(entries_view(entries@).subrange(0, entries@.len() as int) =~= entries_view(entries@));
        let r = FsStorage {
            compacted_term,
            first_index,
            last_index,
            applied,
            hard_state,
            snapshot,
            entries: map,
            pending: Vec::new(),
            disk: Ghost(FsState {
                compacted_term,
                first_index,
                last_index,
                applied,
                hard_state,
                snapshot: snapshot@,
                entries: entries_after(Map::empty(), entries_view(entries@)),
            }),
        };
        assert(r.pending() =~= Seq::<FileOpView>::empty());
        r
    }

    /// Takes the writes recorded so far, leaving none.
    pub fn take_file_ops(&mut self) -> (ops: Vec<FileOp>)
        requires
            old(self).well_keyed(),
        ensures
            final(self).well_keyed(),
            final(self).writes_reach_state(),
            final(self).state() == old(self).state(),
            final(self).disk() == old(self).state(),
            ops_view(ops@) == old(self).pending(),
            final(self).pending() == Seq::<FileOpView>::empty(),
    {
        let mut ops: Vec<FileOp> = Vec::new();
        std::mem::swap(&mut ops, &mut self.pending);
        assert(self.pending() =~= Seq::<FileOpView>::empty());
        proof {
            self.disk@ = self.state();
        }
        ops
    }

    fn push_op(&mut self, op: FileOp)
        ensures
            final(self).pending() == old(self).pending().push(op@),
            final(self).compacted_term == old(self).compacted_term,
            final(self).first_index == old(self).first_index,
            final(self).last_index == old(self).last_index,
            final(self).applied == old(self).applied,
            final(self).hard_state == old(self).hard_state,
            final(self).snapshot == old(self).snapshot,
            final(self).entries == old(self).entries,
            final(self).disk == old(self).disk,
    {
        let ghost pre = self.pending();
        self.pending.push(op);
        assert(self.pending() =~= pre.push(op@));
    }
}

impl StorageExt for FsStorage {
    open spec fn wf(&self) -> bool {
        self.well_keyed() && self.writes_reach_state()
    }

    open spec fn spec_initial_state(&self) -> Result<RaftStateView, StorageError> {
        Ok(RaftStateView { hard_state: self.state().hard_state, conf_state: conf_state_of(self.state().snapshot) })
    }

    open spec fn spec_entries(&self, low: u64, high: u64, max_size: u64) -> Result<Seq<EntryView>, StorageError> {
        fs_entries(self.state(), low, high)
    }

    open spec fn spec_entry(&self, index: u64) -> Option<EntryView> {
        fs_entry(self.state(), index)
    }

    open spec fn spec_term(&self, idx: u64) -> Result<u64, StorageError> {
        fs_term(self.state(), idx)
    }

    open spec fn spec_first_index(&self) -> Result<u64, StorageError> {
        Ok(self.state().first_index)
    }

    open spec fn spec_last_index(&self) -> Result<u64, StorageError> {
        Ok(self.state().last_index)
    }

    open spec fn spec_snapshot(&self) -> Result<SnapshotView, StorageError> {
        Ok(self.state().snapshot)
    }

    open spec fn spec_applied(&self) -> Result<u64, StorageError> {
        Ok(self.state().applied)
    }

    open spec fn spec_description() -> Seq<char> {
        "file-system backed persistent storage"@
    }

    open spec fn after_set_hardstate(&self, hard_state: HardState, next: Self) -> bool {
        &&& next.state() == (FsState { hard_state, ..self.state() })
        &&& next.pending() == self.pending().push(FileOpView::WriteHardState(hard_state))
        &&& next.disk() == self.disk()
    }

    open spec fn after_create_snapshot(
        &self,
        index: u64,
        conf_state: Option<ConfStateView>,
        data: Seq<u8>,
        next: Self,
        r: Result<SnapshotView, StorageError>,
    ) -> bool {
        if index <= snapshot_index_of(self.state().snapshot) {
            &&& r == Err::<SnapshotView, StorageError>(StorageError::SnapshotOutOfDate)
            &&& next.state() == self.state()
            &&& next.pending() == self.pending()
            &&& next.disk() == self.disk()
        } else {
            let snap = snapshot_created(self.state(), index, conf_state, data);
            &&& r == Ok::<SnapshotView, StorageError>(snap)
            &&& next.state() == (FsState { snapshot: snap, ..self.state() })
            &&& next.pending() == self.pending().push(FileOpView::WriteSnapshot(snap))
            &&& next.disk() == self.disk()
        }
    }

    open spec fn after_apply_snapshot(&self, snapshot: SnapshotView, next: Self, r: Result<(), StorageError>) -> bool {
        if snapshot_index_of(self.state().snapshot) >= snapshot_index_of(snapshot) {
            &&& r == Err::<(), StorageError>(StorageError::SnapshotOutOfDate)
            &&& next.state() == self.state()
            &&& next.pending() == self.pending()
            &&& next.disk() == self.disk()
        } else {
            &&& r == Ok::<(), StorageError>(())
            &&& next.state() == snapshot_applied(self.state(), snapshot)
            &&& next.pending() == self.pending() + apply_snapshot_ops(snapshot)
            &&& next.disk() == self.disk()
        }
    }

    open spec fn after_compact(&self, compact_index: u64, next: Self, r: Result<(), StorageError>) -> bool {
        let s = self.state();
        &&& r == fs_compact_result(s, compact_index)
        &&& r is Ok ==> {
            &&& next.state() == fs_compacted(s, compact_index)
            &&& next.pending() == self.pending() + compact_ops(s.first_index, compact_index, s.entries[compact_index].term)
        }
        &&& r is Err ==> next.state() == s && next.pending() == self.pending()
        &&& next.disk() == self.disk()
    }

    open spec fn after_append(&self, ents: Seq<EntryView>, next: Self, r: Result<(), StorageError>) -> bool {
        &&& r == Ok::<(), StorageError>(())
        &&& next.state() == (FsState {
            entries: entries_after(self.state().entries, ents),
            last_index: if ents.len() > 0 {
                ents.last().index
            } else {
                self.state().last_index
            },
            ..self.state()
        })
        &&& next.pending() == self.pending() + append_ops(ents)
        &&& next.disk() == self.disk()
    }

    open spec fn after_set_applied(&self, applied: u64, next: Self, r: Result<(), StorageError>) -> bool {
        &&& r == Ok::<(), StorageError>(())
        &&& next.state() == (FsState { applied, ..self.state() })
        &&& next.pending() == self.pending().push(FileOpView::WriteU64(U64File::Applied, applied))
        &&& next.disk() == self.disk()
    }

    open spec fn can_create_snapshot(&self, index: u64) -> bool {
        ||| index <= snapshot_index_of(self.state().snapshot)
        ||| index <= self.state().last_index && self.state().entries.contains_key(index)
    }

    open spec fn can_apply_snapshot(&self, snapshot: SnapshotView) -> bool {
        ||| snapshot_index_of(self.state().snapshot) >= snapshot_index_of(snapshot)
        ||| snapshot_index_of(snapshot) < u64::MAX
    }

    open spec fn can_compact(&self, compact_index: u64) -> bool {
        self.state().first_index > compact_index || compact_index < u64::MAX
    }

    proof fn lemma_entry_index(&self, index: u64) {
        if self.entries@.contains_key(index) {
            assert(self.state().entries[index] == self.entries@[index]@);
        }
    }

    proof fn lemma_entries_agree(&self, low: u64, high: u64, max_size: u64) {
        let s = self.state();
        if low < high && fs_entries(s, low, high) is Ok {
            let v = fs_entries(s, low, high)->Ok_0;
            assert forall|k: int| 0 <= k < v.len() implies self.spec_entry((low + k) as u64) == Some(#[trigger] v[k]) by {
                assert(s.entries.contains_key((low + k) as u64));
            }
        }
        if low < high && (forall|i: u64| low <= i < high ==> #[trigger] self.spec_entry(i) is Some) {
            assert(self.spec_entry(low) is Some);
            assert(self.spec_entry((high - 1) as u64) is Some);
            assert forall|i: u64| low <= i < high implies #[trigger] s.entries.contains_key(i) by {
                assert(self.spec_entry(i) is Some);
            }
            assert(fs_entries(s, low, high) is Ok);
            assert(fs_entries(s, low, high)->Ok_0 =~= Seq::new((high - low) as nat, |k: int| self.spec_entry((low + k) as u64)->0));
        }
    }

    fn initial_state(&self) -> (r: Result<RaftState, StorageError>) {
        Ok(RaftState { hard_state: self.hard_state, conf_state: self.snapshot.conf_state() })
    }

    fn entries(&self, low: u64, high: u64, max_size: u64) -> (r: Result<Vec<Entry>, StorageError>) {
        if low > high {
            return Err(StorageError::Compacted);
        }
        let first_entry_index = self.first_index;
        let last_entry_index = self.last_index;
        if first_entry_index > last_entry_index {
            return Err(StorageError::Compacted);
        }
        if low == high {
            let v: Vec<Entry> = Vec::new();
            assert(entries_view(v@) =~= Seq::<EntryView>::empty());
            return Ok(v);
        }
        if low < first_entry_index {
            return Err(StorageError::Compacted);
        }
        if high - 1 > last_entry_index {
            return Err(StorageError::Unavailable);
        }
        let ghost s = self.state();
        let mut out: Vec<Entry> = Vec::new();
        let mut i: u64 = low;
        while i < high
            invariant
                low <= i <= high,
                s == self.state(),
                s.first_index <= low,
                high - 1 <= s.last_index,
                s.first_index <= s.last_index,
                out@.len() == i - low,
                forall|j: u64| low <= j < i ==> #[trigger] s.entries.contains_key(j),
                forall|k: int| 0 <= k < out@.len() ==> #[trigger] out@[k]@ == s.entries[(low + k) as u64],
            decreases high - i,
        {
            match self.entries.get(&i) {
                Some(e) => {
                    out.push(e.clone());
                },
                None => {
                    assert(!self.entries@.contains_key(i));
                    assert(!s.entries.contains_key(i));
                    assert(!all_present(s, low, high as int));
                    return Err(StorageError::Io(IoErrorKind::NotFound));
                },
            }
            i = i + 1;
        }
        assert(entries_view(out@) =~= Seq::new((high - low) as nat, |k: int| s.entries[(low + k) as u64]));
        Ok(out)
    }

    fn term(&self, idx: u64) -> (r: Result<u64, StorageError>) {
        match self.entries.get(&idx) {
            Some(e) => Ok(e.term),
            None => {
                if idx == 0 {
                    Ok(0)
                } else if idx < u64::MAX && idx + 1 == self.first_index {
                    if self.compacted_term == 0 {
                        Err(StorageError::Unavailable)
                    } else {
                        Ok(self.compacted_term)
                    }
                } else if self.compacted_term == 0 {
                    Err(StorageError::Unavailable)
                } else {
                    Err(StorageError::Compacted)
                }
            },
        }
    }

    fn first_index(&self) -> (r: Result<u64, StorageError>) {
        Ok(self.first_index)
    }

    fn last_index(&self) -> (r: Result<u64, StorageError>) {
        Ok(self.last_index)
    }

    fn snapshot(&self) -> (r: Result<Snapshot, StorageError>) {
        Ok(self.snapshot.clone())
    }

    fn applied(&self) -> (r: Result<u64, StorageError>) {
        Ok(self.applied)
    }

    fn set_hardstate(&mut self, hard_state: &HardState)
    {
        self.hard_state = *hard_state;
        self.push_op(FileOp::WriteHardState(*hard_state));
        proof {
            lemma_after_ops_push(self.disk@, old(self).pending(), FileOpView::WriteHardState(*hard_state));
        }
    }

    fn create_snapshot(&mut self, index: u64, conf_state: Option<&ConfState>, data: Vec<u8>) -> (r: Result<Snapshot, StorageError>)
    {
        if index <= self.snapshot.index() {
            return Err(StorageError::SnapshotOutOfDate);
        }
        let term = match self.entries.get(&index) {
            Some(e) => e.term,
            None => {
                assert(false);
                0
            },
        };
        let mut meta = match &self.snapshot.metadata {
            Some(m) => m.clone(),
            None => SnapshotMetadata::new(),
        };
        meta.index = index;
        meta.term = term;
        if let Some(cs) = conf_state {
            meta.conf_state = Some(cs.clone());
        }
        let snapshot = Snapshot { data, metadata: Some(meta) };
        self.snapshot = snapshot.clone();
        self.push_op(FileOp::WriteSnapshot(snapshot.clone()));
        assert(self.state().entries =~= old(self).state().entries);
        proof {
            lemma_after_ops_push(self.disk@, old(self).pending(), FileOpView::WriteSnapshot(snapshot@));
        }
        Ok(snapshot)
    }

    fn apply_snapshot(&mut self, snapshot: &Snapshot) -> (r: Result<(), StorageError>)
    {
        if self.snapshot.index() >= snapshot.index() {
            return Err(StorageError::SnapshotOutOfDate);
        }
        let index = snapshot.index();
        let term = snapshot.term();
        let ghost pre_pending = self.pending();
        self.push_op(FileOp::WriteU64(U64File::Term, term));
        self.push_op(FileOp::WriteU64(U64File::First, index + 1));
        self.push_op(FileOp::WriteU64(U64File::Last, index));
        self.push_op(FileOp::ClearEntries);
        self.push_op(FileOp::WriteSnapshot(snapshot.clone()));
        self.compacted_term = term;
        self.first_index = index + 1;
        self.last_index = index;
        self.entries.clear();
        self.snapshot = snapshot.clone();
        assert(self.state().entries =~= Map::<u64, EntryView>::empty());
        assert(self.pending() =~= pre_pending + apply_snapshot_ops(snapshot@));
        proof {
            lemma_apply_snapshot_writes(old(self).state(), snapshot@);
            lemma_after_ops_concat(self.disk@, pre_pending, apply_snapshot_ops(snapshot@));
        }
        Ok(())
    }

    fn compact(&mut self, compact_index: u64) -> (r: Result<(), StorageError>)
    {
        let first_entry_index = self.first_index;
        if first_entry_index > compact_index {
            return Err(StorageError::Compacted);
        }
        let ghost s = self.state();
        let ghost d0 = self.disk@;
        let ghost p0 = self.pending();
        let mut i: u64 = first_entry_index;
        while i <= compact_index
            invariant
                first_entry_index <= i <= compact_index + 1,
                compact_index < u64::MAX,
                s == self.state(),
                d0 == self.disk@,
                p0 == self.pending(),
                state_after_ops(d0, p0) == s,
                first_entry_index == s.first_index,
                forall|k: u64| #[trigger] self.entries@.contains_key(k) ==> self.entries@[k].index == k,
                forall|j: u64| first_entry_index <= j < i ==> #[trigger] s.entries.contains_key(j),
            decreases compact_index + 1 - i,
        {
            if !self.entries.contains_key(&i) {
                assert(!s.entries.contains_key(i));
                assert(!all_present(s, first_entry_index, compact_index + 1));
                return Err(StorageError::Io(IoErrorKind::NotFound));
            }
            i = i + 1;
        }
        assert(all_present(s, first_entry_index, compact_index + 1));
        assert(s.entries.contains_key(compact_index));
        assert(self.entries@.contains_key(compact_index));
        let term = match self.entries.get(&compact_index) {
            Some(e) => e.term,
            None => {
                assert(false);
                0
            },
        };
        let ghost pre_pending = self.pending();
        self.push_op(FileOp::WriteU64(U64File::Term, term));
        self.push_op(FileOp::WriteU64(U64File::First, compact_index + 1));
        self.compacted_term = term;
        self.first_index = compact_index + 1;
        let ghost e0 = self.entries@;
        let mut j: u64 = first_entry_index;
        while j <= compact_index
            invariant
                first_entry_index <= j <= compact_index + 1,
                compact_index < u64::MAX,
                self.compacted_term == term,
                self.first_index == compact_index + 1,
                forall|k: u64| #[trigger] self.entries@.contains_key(k) ==> self.entries@[k].index == k,
                self.entries@ == e0.remove_keys(Set::new(|k: u64| first_entry_index <= k < j)),
                self.pending() == pre_pending + seq![FileOpView::WriteU64(U64File::Term, term), FileOpView::WriteU64(U64File::First, (compact_index + 1) as u64)]
                    + Seq::new((j - first_entry_index) as nat, |k: int| FileOpView::RemoveEntry((first_entry_index + k) as u64)),
                self.last_index == s.last_index,
                self.applied == s.applied,
                self.hard_state == s.hard_state,
                self.snapshot@ == s.snapshot,
                self.disk@ == d0,
            decreases compact_index + 1 - j,
        {
            let ghost before = self.entries@;
            let ghost pend = self.pending();
            self.entries.remove(&j);
            self.push_op(FileOp::RemoveEntry(j));
            proof {
                assert(self.entries@ =~= e0.remove_keys(Set::new(|k: u64| first_entry_index <= k < j + 1)));
                assert(self.pending() =~= pre_pending + seq![FileOpView::WriteU64(U64File::Term, term), FileOpView::WriteU64(U64File::First, (compact_index + 1) as u64)]
                    + Seq::new((j + 1 - first_entry_index) as nat, |k: int| FileOpView::RemoveEntry((first_entry_index + k) as u64)));
            }
            j = j + 1;
        }
        proof {
            assert(Set::new(|k: u64| first_entry_index <= k < j) =~= Set::new(|k: u64| s.first_index <= k <= compact_index));
            assert(self.state().entries =~= fs_compacted(s, compact_index).entries);
            assert(s.entries[compact_index].term == term);
            assert(self.pending() =~= pre_pending + compact_ops(s.first_index, compact_index, s.entries[compact_index].term));
            lemma_compact_writes(s, compact_index);
            lemma_after_ops_concat(self.disk@, pre_pending, compact_ops(s.first_index, compact_index, s.entries[compact_index].term));
        }
        Ok(())
    }

    fn append(&mut self, ents: &[Entry]) -> (r: Result<(), StorageError>)
    {
        let ghost s = self.state();
        let ghost pre_pending = self.pending();
        let ghost ev = entries_view(ents@);
        let ghost d0 = self.disk@;
        let mut i: usize = 0;
        while i < ents.len()
            invariant
                i <= ents@.len(),
                ev == entries_view(ents@),
                forall|k: u64| #[trigger] self.entries@.contains_key(k) ==> self.entries@[k].index == k,
                self.state() == (FsState { entries: entries_after(s.entries, ev.subrange(0, i as int)), ..s }),
                self.disk@ == d0,
                self.pending() == pre_pending + ev.subrange(0, i as int).map_values(|e: EntryView| FileOpView::WriteEntry(e)),
            decreases ents.len() - i,
        {
            let e = ents[i].clone();
            let ghost before = self.entries@;
            let ghost pend = self.pending();
            self.entries.insert(e.index, e);
            self.push_op(FileOp::WriteEntry(ents[i].clone()));
            proof {
                let t = ev.subrange(0, i + 1);
                assert(t.drop_last() =~= ev.subrange(0, i as int));
                assert(t.last() == ents@[i as int]@);
                assert(self.entries@.map_values(|e: Entry| e@) =~= before.map_values(|e: Entry| e@).insert(t.last().index, t.last()));
                assert(self.pending() =~= pre_pending + t.map_values(|e: EntryView| FileOpView::WriteEntry(e)));
            }
            i = i + 1;
        }
        assert(ev.subrange(0, ents@.len() as int) =~= ev);
        if ents.len() > 0 {
            let last = ents[ents.len() - 1].index;
            self.last_index = last;
            self.push_op(FileOp::WriteU64(U64File::Last, last));
            assert(ev.last() == ents@.last()@);
        }
        assert(self.pending() =~= pre_pending + append_ops(ev));
        proof {
            lemma_append_writes(s, ev);
            lemma_after_ops_concat(self.disk@, pre_pending, append_ops(ev));
        }
        Ok(())
    }

    fn set_applied(&mut self, applied: u64) -> (r: Result<(), StorageError>)
    {
        self.applied = applied;
        self.push_op(FileOp::WriteU64(U64File::Applied, applied));
        proof {
            lemma_after_ops_push(self.disk@, old(self).pending(), FileOpView::WriteU64(U64File::Applied, applied));
        }
        Ok(())
    }

    fn describe() -> (r: String) {
        "file-system backed persistent storage".to_owned()
    }
}

/// Appending a non-empty run of entries succeeds and makes its last entry
/// the last of the log, whatever the last index was before (so a shorter
/// run replacing a conflicting suffix cuts the log back to it): the last
/// index reads as that entry's index, its term reads as that entry's term,
/// nothing past it is available, and the last write recorded is that index
/// into the last-index file.
pub proof fn lemma_append_sets_last(s: &FsStorage, ents: Seq<EntryView>, next: &FsStorage, r: Result<(), StorageError>)
    requires
        s.wf(),
        s.after_append(ents, *next, r),
        ents.len() > 0,
    ensures
        r is Ok,
        next.spec_last_index() == Ok::<u64, StorageError>(ents.last().index),
        next.spec_term(ents.last().index) == Ok::<u64, StorageError>(ents.last().term),
        forall|low: u64, high: u64, max_size: u64|
            low < high && high - 1 > ents.last().index && next.state().first_index <= next.state().last_index && low >= next.state().first_index
                ==> #[trigger] next.spec_entries(low, high, max_size) == Err::<Seq<EntryView>, StorageError>(StorageError::Unavailable),
        next.pending().len() > s.pending().len(),
        next.pending().last() == FileOpView::WriteU64(U64File::Last, ents.last().index),
{
    assert(ents.drop_last().push(ents.last()) =~= ents);
    assert(entries_after(s.state().entries, ents) == entries_after(s.state().entries, ents.drop_last()).insert(ents.last().index, ents.last()));
    let w = ents.map_values(|e: EntryView| FileOpView::WriteEntry(e));
    assert(append_ops(ents) == w + seq![FileOpView::WriteU64(U64File::Last, ents.last().index)]);
    assert((s.pending() + append_ops(ents)).last() == FileOpView::WriteU64(U64File::Last, ents.last().index));
}

/// A snapshot created at an index the log holds, newer than the stored
/// one, covers that index with the term the log gives it, holds the data,
/// and records the membership given or, where none is given, keeps the
/// membership of the stored snapshot, so that a restart comes back with the
/// same membership.
pub proof fn lemma_create_snapshot_membership(
    s: &FsStorage,
    index: u64,
    conf_state: Option<ConfStateView>,
    data: Seq<u8>,
    next: &FsStorage,
    r: Result<SnapshotView, StorageError>,
)
    requires
        s.wf(),
        s.can_create_snapshot(index),
        index > snapshot_index_of(s.spec_snapshot()->Ok_0),
        s.after_create_snapshot(index, conf_state, data, *next, r),
    ensures
        r is Ok,
        next.spec_snapshot() == Ok::<SnapshotView, StorageError>(r->Ok_0),
        snapshot_index_of(r->Ok_0) == index,
        s.spec_term(index) == Ok::<u64, StorageError>(metadata_of(r->Ok_0).term),
        (r->Ok_0).data == data,
        conf_state_of(r->Ok_0) == match conf_state {
            Some(c) => c,
            None => conf_state_of(s.spec_snapshot()->Ok_0),
        },
        conf_state is None ==> next.spec_initial_state() == s.spec_initial_state(),
        conf_state matches Some(c) ==> next.spec_initial_state()->Ok_0.conf_state == c,
{
}


} // verus!
