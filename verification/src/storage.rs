//! What a Raft log storage offers the engine: the reads Raft makes and the
//! writes the node makes.

use vstd::prelude::*;

use crate::types::{
    entries_result_view, entries_view, result_view, ConfState, ConfStateView, Entry, EntryView,
    HardState, RaftState, RaftStateView, Snapshot, SnapshotView, StorageError,
};

verus! {

/// A storage of the Raft log.
///
/// Each read is described by a spec function of the storage's value, so that
/// reads change nothing and two reads of an unchanged storage agree. The
/// entries a range read returns are the entries the storage holds at each
/// index of the range, which two lemmas every implementation proves tie
/// together.
pub trait StorageExt: Sized {
    /// The storage's own well-formedness, which its writes keep.
    spec fn wf(&self) -> bool;

    /// What `initial_state` returns.
    spec fn spec_initial_state(&self) -> Result<RaftStateView, StorageError>;

    /// What `entries` returns.
    spec fn spec_entries(&self, low: u64, high: u64, max_size: u64) -> Result<Seq<EntryView>, StorageError>;

    /// The entry the storage holds at `index`, where a range read would
    /// return one.
    spec fn spec_entry(&self, index: u64) -> Option<EntryView>;

    /// What `term` returns.
    spec fn spec_term(&self, idx: u64) -> Result<u64, StorageError>;

    /// What `first_index` returns.
    spec fn spec_first_index(&self) -> Result<u64, StorageError>;

    /// What `last_index` returns.
    spec fn spec_last_index(&self) -> Result<u64, StorageError>;

    /// What `snapshot` returns.
    spec fn spec_snapshot(&self) -> Result<SnapshotView, StorageError>;

    /// What `applied` returns.
    spec fn spec_applied(&self) -> Result<u64, StorageError>;

    /// What `describe` returns.
    spec fn spec_description() -> Seq<char>;

    /// Whether `next` (with result `r`) is what `set_hardstate` makes of the
    /// storage.
    spec fn after_set_hardstate(&self, hard_state: HardState, next: Self) -> bool;

    /// Whether `next` (with result `r`) is what `create_snapshot` makes of
    /// the storage.
    spec fn after_create_snapshot(
        &self,
        index: u64,
        conf_state: Option<ConfStateView>,
        data: Seq<u8>,
        next: Self,
        r: Result<SnapshotView, StorageError>,
    ) -> bool;

    /// Whether `next` (with result `r`) is what `apply_snapshot` makes of the
    /// storage.
    spec fn after_apply_snapshot(&self, snapshot: SnapshotView, next: Self, r: Result<(), StorageError>) -> bool;

    /// Whether `next` (with result `r`) is what `compact` makes of the
    /// storage.
    spec fn after_compact(&self, compact_index: u64, next: Self, r: Result<(), StorageError>) -> bool;

    /// Whether `next` (with result `r`) is what `append` makes of the
    /// storage.
    spec fn after_append(&self, ents: Seq<EntryView>, next: Self, r: Result<(), StorageError>) -> bool;

    /// Whether `next` (with result `r`) is what `set_applied` makes of the
    /// storage.
    spec fn after_set_applied(&self, applied: u64, next: Self, r: Result<(), StorageError>) -> bool;

    /// Whether `create_snapshot` can run at `index` without failing hard.
    spec fn can_create_snapshot(&self, index: u64) -> bool;

    /// Whether `apply_snapshot` can run with `snapshot` without failing hard.
    spec fn can_apply_snapshot(&self, snapshot: SnapshotView) -> bool;

    /// Whether `compact` can run up to `compact_index` without failing hard.
    spec fn can_compact(&self, compact_index: u64) -> bool;

    /// An entry the storage holds at an index carries that index.
    proof fn lemma_entry_index(&self, index: u64)
        requires
            self.wf(),
        ensures
            self.spec_entry(index) matches Some(e) ==> e.index == index,
    ;

    /// A successful read of a non-empty range returns the entries held at its
    /// indexes, and one of an empty or reversed range returns none; and where
    /// the storage holds an entry at every index of a non-empty range,
    /// reading that range succeeds with them.
    proof fn lemma_entries_agree(&self, low: u64, high: u64, max_size: u64)
        requires
            self.wf(),
        ensures
            low >= high && self.spec_entries(low, high, max_size) is Ok ==> self.spec_entries(low, high, max_size)->Ok_0.len() == 0,
            low < high && self.spec_entries(low, high, max_size) is Ok ==> {
                let v = self.spec_entries(low, high, max_size)->Ok_0;
                &&& v.len() == high - low
                &&& forall|k: int| 0 <= k < v.len() ==> self.spec_entry((low + k) as u64) == Some(#[trigger] v[k])
            },
            low < high && (forall|i: u64| low <= i < high ==> #[trigger] self.spec_entry(i) is Some) ==> self.spec_entries(
                low,
                high,
                max_size,
            ) == Ok::<Seq<EntryView>, StorageError>(Seq::new((high - low) as nat, |k: int| self.spec_entry((low + k) as u64)->0)),
    ;

    /// The hard state and membership to restart from.
    fn initial_state(&self) -> (r: Result<RaftState, StorageError>)
        ensures
            result_view(r) == self.spec_initial_state(),
    ;

    /// The entries from `low` up to (not including) `high`.
    fn entries(&self, low: u64, high: u64, max_size: u64) -> (r: Result<Vec<Entry>, StorageError>)
        ensures
            entries_result_view(r) == self.spec_entries(low, high, max_size),
    ;

    /// The term of the entry at `idx`.
    fn term(&self, idx: u64) -> (r: Result<u64, StorageError>)
        ensures
            r == self.spec_term(idx),
    ;

    /// The index of the first entry still stored.
    fn first_index(&self) -> (r: Result<u64, StorageError>)
        ensures
            r == self.spec_first_index(),
    ;

    /// The index of the last entry stored.
    fn last_index(&self) -> (r: Result<u64, StorageError>)
        ensures
            r == self.spec_last_index(),
    ;

    /// The latest snapshot.
    fn snapshot(&self) -> (r: Result<Snapshot, StorageError>)
        ensures
            result_view(r) == self.spec_snapshot(),
    ;

    /// The index of the last Raft entry the node applied.
    fn applied(&self) -> (r: Result<u64, StorageError>)
        ensures
            r == self.spec_applied(),
    ;

    /// Saves the hard state.
    fn set_hardstate(&mut self, hard_state: &HardState)
        requires
            old(self).wf(),
        ensures
            final(self).wf(),
            old(self).after_set_hardstate(*hard_state, *final(self)),
    ;

    /// Creates and applies a snapshot at `index` (with the given membership,
    /// where one is given, and data), and returns it.
    fn create_snapshot(&mut self, index: u64, conf_state: Option<&ConfState>, data: Vec<u8>) -> (r: Result<Snapshot, StorageError>)
        requires
            old(self).wf(),
            old(self).can_create_snapshot(index),
        ensures
            final(self).wf(),
            old(self).after_create_snapshot(index, opt_conf_ref_view(conf_state), data@, *final(self), result_view(r)),
    ;

    /// Overwrites the contents of the storage with those of the snapshot.
    fn apply_snapshot(&mut self, snapshot: &Snapshot) -> (r: Result<(), StorageError>)
        requires
            old(self).wf(),
            old(self).can_apply_snapshot(snapshot@),
        ensures
            final(self).wf(),
            old(self).after_apply_snapshot(snapshot@, *final(self), r),
    ;

    /// Discards the entries up to and including `compact_index`.
    fn compact(&mut self, compact_index: u64) -> (r: Result<(), StorageError>)
        requires
            old(self).wf(),
            old(self).can_compact(compact_index),
        ensures
            final(self).wf(),
            old(self).after_compact(compact_index, *final(self), r),
    ;

    /// Appends entries to the log.
    fn append(&mut self, ents: &[Entry]) -> (r: Result<(), StorageError>)
        requires
            old(self).wf(),
        ensures
            final(self).wf(),
            old(self).after_append(entries_view(ents@), *final(self), r),
    ;

    /// Saves the index of the last Raft entry the node applied.
    fn set_applied(&mut self, applied: u64) -> (r: Result<(), StorageError>)
        requires
            old(self).wf(),
        ensures
            final(self).wf(),
            old(self).after_set_applied(applied, *final(self), r),
            final(self).spec_initial_state() == old(self).spec_initial_state(),
            forall|low: u64, high: u64, max_size: u64| #[trigger] final(self).spec_entries(low, high, max_size) == old(self).spec_entries(low, high, max_size),
            forall|i: u64| #[trigger] final(self).spec_entry(i) == old(self).spec_entry(i),
            forall|i: u64| #[trigger] final(self).spec_term(i) == old(self).spec_term(i),
            final(self).spec_first_index() == old(self).spec_first_index(),
            final(self).spec_last_index() == old(self).spec_last_index(),
            final(self).spec_snapshot() == old(self).spec_snapshot(),
    ;

    /// A description of the storage, for the logs.
    fn describe() -> (r: String)
        ensures
            r@ == Self::spec_description(),
    ;
}

/// The view of an optional membership passed by reference.
pub open spec fn opt_conf_ref_view(o: Option<&ConfState>) -> Option<ConfStateView> {
    match o {
        Some(c) => Some(c@),
        None => None,
    }
}

} // verus!
