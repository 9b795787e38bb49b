//! The values the engine exchanges with Raft and with the validator, held as
//! plain data, together with their mathematical views.

use vstd::prelude::*;

verus! {

/// Identifier of a block: the bytes the validator gives it.
pub type BlockId = Vec<u8>;

/// Identifier of a peer (a validator's public key bytes).
pub type PeerId = Vec<u8>;

/// Copies a vector of plain values element by element.
pub fn copy_vec<T: Copy>(v: &Vec<T>) -> (r: Vec<T>)
    ensures
        r@ == v@,
{
    let mut r: Vec<T> = Vec::new();
    let mut i: usize = 0;
    while i < v.len()
        invariant
            i <= v.len(),
            r@ == v@.subrange(0, i as int),
        decreases v.len() - i,
    {
        r.push(v[i]);
        i = i + 1;
        assert(r@ =~= v@.subrange(0, i as int));
    }
    assert(r@ =~= v@);
    r
}

/// Whether two byte strings hold the same bytes.
pub fn bytes_eq(a: &Vec<u8>, b: &Vec<u8>) -> (r: bool)
    ensures
        r == (a@ == b@),
{
    if a.len() != b.len() {
        return false;
    }
    let mut i: usize = 0;
    while i < a.len()
        invariant
            i <= a.len(),
            a.len() == b.len(),
            forall|j: int| 0 <= j < i ==> a@[j] == b@[j],
        decreases a.len() - i,
    {
        if a[i] != b[i] {
            return false;
        }
        i = i + 1;
    }
    assert(a@ =~= b@);
    true
}

/// The kind of a Raft log entry.
#[derive(PartialEq, Eq, Structural, Clone, Copy, Debug)]
pub enum EntryType {
    EntryNormal,
    EntryConfChange,
}

/// The character of a decimal digit.
pub open spec fn digit_char(d: nat) -> char {
    if d == 0 {
        '0'
    } else if d == 1 {
        '1'
    } else if d == 2 {
        '2'
    } else if d == 3 {
        '3'
    } else if d == 4 {
        '4'
    } else if d == 5 {
        '5'
    } else if d == 6 {
        '6'
    } else if d == 7 {
        '7'
    } else if d == 8 {
        '8'
    } else {
        '9'
    }
}

/// The decimal notation of a number: its digits, most significant first,
/// with no leading zero.
pub open spec fn decimal(n: nat) -> Seq<char>
    decreases n,
{
    if n < 10 {
        seq![digit_char(n)]
    } else {
        decimal(n / 10) + seq![digit_char(n % 10)]
    }
}

proof fn lemma_digit_char_injective(a: nat, b: nat)
    requires
        a < 10,
        b < 10,
        digit_char(a) == digit_char(b),
    ensures
        a == b,
{
}

proof fn lemma_decimal_len(n: nat)
    ensures
        decimal(n).len() >= 1,
        n >= 10 ==> decimal(n).len() >= 2,
        decimal(n).last() == digit_char(n % 10),
    decreases n,
{
    if n >= 10 {
        lemma_decimal_len(n / 10);
    }
}

/// Distinct numbers have distinct decimal notations.
pub proof fn lemma_decimal_injective(a: nat, b: nat)
    requires
        decimal(a) == decimal(b),
    ensures
        a == b,
    decreases a,
{
    lemma_decimal_len(a);
    lemma_decimal_len(b);
    if a < 10 && b < 10 {
        lemma_digit_char_injective(a, b);
    } else if a >= 10 && b >= 10 {
        lemma_digit_char_injective(a % 10, b % 10);
        assert(decimal(a).drop_last() =~= decimal(a / 10));
        assert(decimal(b).drop_last() =~= decimal(b / 10));
        lemma_decimal_injective(a / 10, b / 10);
    } else {
        assert(decimal(a).len() != decimal(b).len());
    }
}

/// The one-character string of a decimal digit.
fn digit_str(d: u64) -> (r: &'static str)
    requires
        d < 10,
    ensures
        r@ == seq![digit_char(d as nat)],
{
    proof {
        reveal_strlit("0");
        reveal_strlit("1");
        reveal_strlit("2");
        reveal_strlit("3");
        reveal_strlit("4");
        reveal_strlit("5");
        reveal_strlit("6");
        reveal_strlit("7");
        reveal_strlit("8");
        reveal_strlit("9");
    }
    if d == 0 {
        "0"
    } else if d == 1 {
        "1"
    } else if d == 2 {
        "2"
    } else if d == 3 {
        "3"
    } else if d == 4 {
        "4"
    } else if d == 5 {
        "5"
    } else if d == 6 {
        "6"
    } else if d == 7 {
        "7"
    } else if d == 8 {
        "8"
    } else {
        "9"
    }
}

/// The decimal notation of `n`.
pub fn decimal_string(n: u64) -> (r: String)
    ensures
        r@ == decimal(n as nat),
    decreases n,
{
    if n < 10 {
        digit_str(n).to_owned()
    } else {
        let mut r = decimal_string(n / 10);
        r.append(digit_str(n % 10));
        r
    }
}

/// A Raft log entry.
#[derive(Debug)]
pub struct Entry {
    pub entry_type: EntryType,
    pub term: u64,
    pub index: u64,
    pub data: Vec<u8>,
    pub context: Vec<u8>,
    pub sync_log: bool,
}

/// The mathematical value of an [`Entry`].
pub struct EntryView {
    pub entry_type: EntryType,
    pub term: u64,
    pub index: u64,
    pub data: Seq<u8>,
    pub context: Seq<u8>,
    pub sync_log: bool,
}

impl View for Entry {
    type V = EntryView;

    open spec fn view(&self) -> EntryView {
        EntryView {
            entry_type: self.entry_type,
            term: self.term,
            index: self.index,
            data: self.data@,
            context: self.context@,
            sync_log: self.sync_log,
        }
    }
}

impl Clone for Entry {
    fn clone(&self) -> (r: Self)
        ensures
            r@ == self@,
    {
        Entry {
            entry_type: self.entry_type,
            term: self.term,
            index: self.index,
            data: copy_vec(&self.data),
            context: copy_vec(&self.context),
            sync_log: self.sync_log,
        }
    }
}

impl Entry {
    /// An entry of the normal kind with the given term and index and no data.
    pub fn with_term_and_index(term: u64, index: u64) -> (r: Entry)
        ensures
            r@ == (EntryView {
                entry_type: EntryType::EntryNormal,
                term,
                index,
                data: Seq::empty(),
                context: Seq::empty(),
                sync_log: false,
            }),
    {
        Entry {
            entry_type: EntryType::EntryNormal,
            term,
            index,
            data: Vec::new(),
            context: Vec::new(),
            sync_log: false,
        }
    }
}

/// The views of a sequence of entries.
pub open spec fn entries_view(s: Seq<Entry>) -> Seq<EntryView> {
    s.map_values(|e: Entry| e@)
}

/// Clones a slice of entries.
pub fn clone_entries(ents: &[Entry]) -> (r: Vec<Entry>)
    ensures
        entries_view(r@) == entries_view(ents@),
{
    let mut r: Vec<Entry> = Vec::new();
    let mut i: usize = 0;
    while i < ents.len()
        invariant
            i <= ents.len(),
            r@.len() == i,
            forall|j: int| 0 <= j < i ==> #[trigger] r@[j]@ == ents@[j]@,
        decreases ents.len() - i,
    {
        r.push(ents[i].clone());
        i = i + 1;
    }
    assert(entries_view(r@) =~= entries_view(ents@));
    r
}

/// The persistent part of a Raft node's state.
#[derive(PartialEq, Eq, Structural, Clone, Copy, Debug)]
pub struct HardState {
    pub term: u64,
    pub vote: u64,
    pub commit: u64,
}

impl HardState {
    /// The all-zero hard state.
    pub fn new() -> (r: HardState)
        ensures
            r == (HardState { term: 0, vote: 0, commit: 0 }),
    {
        HardState { term: 0, vote: 0, commit: 0 }
    }
}

/// The membership of a Raft cluster.
#[derive(Debug)]
pub struct ConfState {
    pub nodes: Vec<u64>,
    pub learners: Vec<u64>,
}

/// The mathematical value of a [`ConfState`].
pub struct ConfStateView {
    pub nodes: Seq<u64>,
    pub learners: Seq<u64>,
}

impl View for ConfState {
    type V = ConfStateView;

    open spec fn view(&self) -> ConfStateView {
        ConfStateView { nodes: self.nodes@, learners: self.learners@ }
    }
}

impl Clone for ConfState {
    fn clone(&self) -> (r: Self)
        ensures
            r@ == self@,
    {
        ConfState { nodes: copy_vec(&self.nodes), learners: copy_vec(&self.learners) }
    }
}

impl ConfState {
    /// The empty membership.
    pub fn new() -> (r: ConfState)
        ensures
            r@ == empty_conf_state(),
    {
        ConfState { nodes: Vec::new(), learners: Vec::new() }
    }
}

/// The view of the empty membership.
pub open spec fn empty_conf_state() -> ConfStateView {
    ConfStateView { nodes: Seq::empty(), learners: Seq::empty() }
}

/// The view of an optional membership.
pub open spec fn opt_conf_view(o: Option<ConfState>) -> Option<ConfStateView> {
    match o {
        Some(c) => Some(c@),
        None => None,
    }
}

/// Where a snapshot stands in the log and the membership at that point.
#[derive(Debug)]
pub struct SnapshotMetadata {
    pub conf_state: Option<ConfState>,
    pub index: u64,
    pub term: u64,
}

/// The mathematical value of a [`SnapshotMetadata`].
pub struct SnapshotMetadataView {
    pub conf_state: Option<ConfStateView>,
    pub index: u64,
    pub term: u64,
}

impl View for SnapshotMetadata {
    type V = SnapshotMetadataView;

    open spec fn view(&self) -> SnapshotMetadataView {
        SnapshotMetadataView {
            conf_state: opt_conf_view(self.conf_state),
            index: self.index,
            term: self.term,
        }
    }
}

/// Clones an optional membership.
pub fn clone_opt_conf(o: &Option<ConfState>) -> (r: Option<ConfState>)
    ensures
        opt_conf_view(r) == opt_conf_view(*o),
{
    match o {
        Some(c) => Some(c.clone()),
        None => None,
    }
}

impl Clone for SnapshotMetadata {
    fn clone(&self) -> (r: Self)
        ensures
            r@ == self@,
    {
        SnapshotMetadata {
            conf_state: clone_opt_conf(&self.conf_state),
            index: self.index,
            term: self.term,
        }
    }
}

impl SnapshotMetadata {
    /// Metadata at index 0, term 0, with no membership.
    pub fn new() -> (r: SnapshotMetadata)
        ensures
            r@ == default_metadata(),
    {
        SnapshotMetadata { conf_state: None, index: 0, term: 0 }
    }
}

/// The view of the default metadata.
pub open spec fn default_metadata() -> SnapshotMetadataView {
    SnapshotMetadataView { conf_state: None, index: 0, term: 0 }
}

/// The view of an optional metadata.
pub open spec fn opt_metadata_view(o: Option<SnapshotMetadata>) -> Option<SnapshotMetadataView> {
    match o {
        Some(m) => Some(m@),
        None => None,
    }
}

/// A snapshot of the replicated state, with the point of the log it covers.
#[derive(Debug)]
pub struct Snapshot {
    pub data: Vec<u8>,
    pub metadata: Option<SnapshotMetadata>,
}

/// The mathematical value of a [`Snapshot`].
pub struct SnapshotView {
    pub data: Seq<u8>,
    pub metadata: Option<SnapshotMetadataView>,
}

impl View for Snapshot {
    type V = SnapshotView;

    open spec fn view(&self) -> SnapshotView {
        SnapshotView { data: self.data@, metadata: opt_metadata_view(self.metadata) }
    }
}

impl Clone for Snapshot {
    fn clone(&self) -> (r: Self)
        ensures
            r@ == self@,
    {
        let metadata = match &self.metadata {
            Some(m) => Some(m.clone()),
            None => None,
        };
        Snapshot { data: copy_vec(&self.data), metadata }
    }
}

/// The view of the empty snapshot.
pub open spec fn empty_snapshot() -> SnapshotView {
    SnapshotView { data: Seq::empty(), metadata: None }
}

/// The metadata of a snapshot view, the default one where it has none.
pub open spec fn metadata_of(s: SnapshotView) -> SnapshotMetadataView {
    match s.metadata {
        Some(m) => m,
        None => default_metadata(),
    }
}

/// The log index a snapshot view covers (0 where it has no metadata).
pub open spec fn snapshot_index_of(s: SnapshotView) -> u64 {
    metadata_of(s).index
}

/// The membership a snapshot view records (empty where it records none).
pub open spec fn conf_state_of(s: SnapshotView) -> ConfStateView {
    match metadata_of(s).conf_state {
        Some(c) => c,
        None => empty_conf_state(),
    }
}

impl Snapshot {
    /// The empty snapshot.
    pub fn new() -> (r: Snapshot)
        ensures
            r@ == empty_snapshot(),
    {
        Snapshot { data: Vec::new(), metadata: None }
    }

    /// The log index the snapshot covers (0 where it has no metadata).
    pub fn index(&self) -> (r: u64)
        ensures
            r == snapshot_index_of(self@),
    {
        match &self.metadata {
            Some(m) => m.index,
            None => 0,
        }
    }

    /// The term of the entry at the index the snapshot covers (0 where it
    /// has no metadata).
    pub fn term(&self) -> (r: u64)
        ensures
            r == metadata_of(self@).term,
    {
        match &self.metadata {
            Some(m) => m.term,
            None => 0,
        }
    }

    /// The membership the snapshot records (empty where it records none).
    pub fn conf_state(&self) -> (r: ConfState)
        ensures
            r@ == conf_state_of(self@),
    {
        match &self.metadata {
            Some(m) => match &m.conf_state {
                Some(c) => c.clone(),
                None => ConfState::new(),
            },
            None => ConfState::new(),
        }
    }
}

/// What a node needs to restart: its hard state and its membership.
#[derive(Debug)]
pub struct RaftState {
    pub hard_state: HardState,
    pub conf_state: ConfState,
}

/// The mathematical value of a [`RaftState`].
pub struct RaftStateView {
    pub hard_state: HardState,
    pub conf_state: ConfStateView,
}

impl View for RaftState {
    type V = RaftStateView;

    open spec fn view(&self) -> RaftStateView {
        RaftStateView { hard_state: self.hard_state, conf_state: self.conf_state@ }
    }
}

impl Clone for RaftState {
    fn clone(&self) -> (r: Self)
        ensures
            r@ == self@,
    {
        RaftState { hard_state: self.hard_state, conf_state: self.conf_state.clone() }
    }
}

/// The kind of a membership change.
#[derive(PartialEq, Eq, Structural, Clone, Copy, Debug)]
pub enum ConfChangeType {
    AddNode,
    RemoveNode,
    AddLearnerNode,
}

/// A membership change proposed to, or committed by, Raft.
#[derive(Debug)]
pub struct ConfChange {
    pub id: u64,
    pub change_type: ConfChangeType,
    pub node_id: u64,
    pub context: Vec<u8>,
}

/// The mathematical value of a [`ConfChange`].
pub struct ConfChangeView {
    pub id: u64,
    pub change_type: ConfChangeType,
    pub node_id: u64,
    pub context: Seq<u8>,
}

impl View for ConfChange {
    type V = ConfChangeView;

    open spec fn view(&self) -> ConfChangeView {
        ConfChangeView {
            id: self.id,
            change_type: self.change_type,
            node_id: self.node_id,
            context: self.context@,
        }
    }
}

/// The storage error kinds Raft distinguishes.
#[derive(PartialEq, Eq, Structural, Clone, Copy, Debug)]
pub enum StorageError {
    /// The requested index precedes the first entry still stored.
    Compacted,
    /// The requested index is not stored yet.
    Unavailable,
    /// A newer snapshot is already in place.
    SnapshotOutOfDate,
    /// The snapshot cannot be produced right now.
    SnapshotTemporarilyUnavailable,
    /// A file of the data directory could not be read or written.
    Io(IoErrorKind),
}

/// The kinds of input/output failure the storage reports.
#[derive(PartialEq, Eq, Structural, Clone, Copy, Debug)]
pub enum IoErrorKind {
    NotFound,
    InvalidData,
    Other,
}

/// The view of a result whose success value has a view.
pub open spec fn result_view<T: View>(r: Result<T, StorageError>) -> Result<T::V, StorageError> {
    match r {
        Ok(v) => Ok(v@),
        Err(e) => Err(e),
    }
}

/// The view of a result that carries entries.
pub open spec fn entries_result_view(r: Result<Vec<Entry>, StorageError>) -> Result<
    Seq<EntryView>,
    StorageError,
> {
    match r {
        Ok(v) => Ok(entries_view(v@)),
        Err(e) => Err(e),
    }
}

} // verus!
