//! The files of a data directory: what each file write puts where, in which
//! encoding, whether a directory must be initialized, and the storage the
//! files of a directory hold; and the law that carrying out a storage's
//! writes and reading the directory back gives back what it holds.

use vstd::prelude::*;

use crate::fs_storage::{
    entries_after, fresh_state, init_ops, le_bytes, le_value, lemma_u64_bytes_roundtrip, state_after_op, state_after_ops,
    u64_from_bytes, u64_to_bytes, FileOp, FileOpView, FsState, FsStorage, U64File,
};
use crate::types::{
    decimal, decimal_string, entries_view, lemma_decimal_injective, ConfState, Entry, EntryType, EntryView, HardState, IoErrorKind,
    Snapshot, SnapshotMetadata, SnapshotView, StorageError,
};

verus! {

/// What Raft's protobuf decoding makes of the bytes of a hard state file.
pub uninterp spec fn decoded_hard_state(bytes: Seq<u8>) -> Option<HardState>;

/// What Raft's protobuf decoding makes of the bytes of a snapshot file.
pub uninterp spec fn decoded_snapshot(bytes: Seq<u8>) -> Option<SnapshotView>;

/// What Raft's protobuf decoding makes of the bytes of an entry file.
pub uninterp spec fn decoded_entry(bytes: Seq<u8>) -> Option<EntryView>;

/// The protobuf base-128 varint of a number: seven bits per byte, least
/// significant first, the high bit set on every byte but the last.
pub open spec fn varint(n: u64) -> Seq<u8>
    decreases n,
{
    if n < 128 {
        seq![n as u8]
    } else {
        seq![((n % 128) + 128) as u8] + varint(n / 128)
    }
}

/// A protobuf varint field with the given key byte, left out where the
/// value is zero.
pub open spec fn varint_field(key: u8, v: u64) -> Seq<u8> {
    if v == 0 {
        Seq::empty()
    } else {
        seq![key] + varint(v)
    }
}

/// The bytes Raft's protobuf encoding gives a hard state: its term, vote and
/// commit as the varint fields 1, 2 and 3, in that order, each left out where
/// it is zero.
pub open spec fn hard_state_bytes(h: HardState) -> Seq<u8> {
    varint_field(0x08, h.term) + varint_field(0x10, h.vote) + varint_field(0x18, h.commit)
}

/// The bytes Raft's protobuf encoding gives a snapshot.
pub uninterp spec fn encoded_snapshot(s: SnapshotView) -> Option<Seq<u8>>;

/// The bytes Raft's protobuf encoding gives an entry.
pub uninterp spec fn encoded_entry(e: EntryView) -> Option<Seq<u8>>;

/// Decodes a hard state file with `protobuf::parse_from_bytes` into Raft's
/// `HardState`.
///
/// The result is what the decoder makes of the bytes, named
/// `decoded_hard_state`; nothing more of the wire format is stated.
#[verifier::external_body]
fn decode_hard_state(bytes: &Vec<u8>) -> (r: Option<HardState>)
    ensures
        r == decoded_hard_state(bytes@),
{
    match protobuf::parse_from_bytes::<raft::eraftpb::HardState>(bytes) {
        Ok(h) => Some(HardState { term: h.term, vote: h.vote, commit: h.commit }),
        Err(_) => None,
    }
}

/// Decodes a snapshot file with `protobuf::parse_from_bytes` into Raft's
/// `Snapshot`; a metadata or membership field that is absent stays absent.
///
/// The result is what the decoder makes of the bytes, named
/// `decoded_snapshot`; nothing more of the wire format is stated.
#[verifier::external_body]
fn decode_snapshot(bytes: &Vec<u8>) -> (r: Option<Snapshot>)
    ensures
        match r {
            Some(s) => decoded_snapshot(bytes@) == Some(s@),
            None => decoded_snapshot(bytes@) is None,
        },
{
    match protobuf::parse_from_bytes::<raft::eraftpb::Snapshot>(bytes) {
        Ok(mut s) => Some(Snapshot { data: s.take_data(), metadata: match s.metadata.into_option() {
            Some(mut m) => Some(SnapshotMetadata { conf_state: match m.conf_state.into_option() {
                Some(mut c) => Some(ConfState { nodes: c.take_nodes(), learners: c.take_learners() }),
                None => None,
            }, index: m.index, term: m.term }),
            None => None,
        } }),
        Err(_) => None,
    }
}

/// Decodes an entry file with `protobuf::parse_from_bytes` into Raft's
/// `Entry`.
///
/// The result is what the decoder makes of the bytes, named
/// `decoded_entry`; nothing more of the wire format is stated.
#[verifier::external_body]
fn decode_entry(bytes: &Vec<u8>) -> (r: Option<Entry>)
    ensures
        match r {
            Some(e) => decoded_entry(bytes@) == Some(e@),
            None => decoded_entry(bytes@) is None,
        },
{
    match protobuf::parse_from_bytes::<raft::eraftpb::Entry>(bytes) {
        Ok(mut e) => Some(Entry { entry_type: match e.entry_type {
            raft::eraftpb::EntryType::EntryNormal => EntryType::EntryNormal,
            raft::eraftpb::EntryType::EntryConfChange => EntryType::EntryConfChange,
        }, term: e.term, index: e.index, data: e.take_data(), context: e.take_context(), sync_log: e.sync_log }),
        Err(_) => None,
    }
}

/// Encodes a hard state with `protobuf::Message::write_to_bytes` on Raft's
/// `HardState`.
///
/// The generated code writes each of the three varint fields that is not
/// zero, in field order, into a buffer of the exact size, so the encoding
/// succeeds with those bytes.
#[verifier::external_body]
fn encode_hard_state(h: &HardState) -> (r: Option<Vec<u8>>)
    ensures
        r is Some,
        match r {
            Some(v) => v@ == hard_state_bytes(*h),
            None => true,
        },
{
    let mut m = raft::eraftpb::HardState::new();
    m.term = h.term;
    m.vote = h.vote;
    m.commit = h.commit;
    protobuf::Message::write_to_bytes(&m).ok()
}

/// A snapshot small enough that the encoder's 32-bit size computation
/// cannot overflow.
pub open spec fn snapshot_encodable(s: SnapshotView) -> bool {
    &&& s.data.len() < 0x4000_0000
    &&& s.metadata matches Some(m) ==> (m.conf_state matches Some(c) ==> c.nodes.len() + c.learners.len() < 0x0100_0000)
}

/// An entry small enough that the encoder's 32-bit size computation cannot
/// overflow.
pub open spec fn entry_encodable(e: EntryView) -> bool {
    e.data.len() < 0x4000_0000 && e.context.len() < 0x4000_0000
}

/// Encodes a snapshot with `protobuf::Message::write_to_bytes` on Raft's
/// `Snapshot`; a metadata or membership field that is absent stays absent.
///
/// The result is what the encoder gives, named `encoded_snapshot`. The
/// encoder sums the field sizes in 32 bits, so the snapshot must be small
/// enough for that.
#[verifier::external_body]
fn encode_snapshot(s: &Snapshot) -> (r: Option<Vec<u8>>)
    requires
        snapshot_encodable(s@),
    ensures
        match r {
            Some(v) => encoded_snapshot(s@) == Some(v@),
            None => encoded_snapshot(s@) is None,
        },
{
    let mut m = raft::eraftpb::Snapshot::new();
    m.data = s.data.clone();
    if let Some(md) = &s.metadata {
        let meta = m.mut_metadata();
        meta.index = md.index;
        meta.term = md.term;
        if let Some(c) = &md.conf_state {
            meta.mut_conf_state().nodes = c.nodes.clone();
            meta.mut_conf_state().learners = c.learners.clone();
        }
    }
    protobuf::Message::write_to_bytes(&m).ok()
}

/// Encodes an entry with `protobuf::Message::write_to_bytes` on Raft's
/// `Entry`.
///
/// The result is what the encoder gives, named `encoded_entry`. The encoder
/// sums the field sizes in 32 bits, so the entry must be small enough for
/// that.
#[verifier::external_body]
fn encode_entry(e: &Entry) -> (r: Option<Vec<u8>>)
    requires
        entry_encodable(e@),
    ensures
        match r {
            Some(v) => encoded_entry(e@) == Some(v@),
            None => encoded_entry(e@) is None,
        },
{
    let entry_type = match e.entry_type {
        EntryType::EntryNormal => raft::eraftpb::EntryType::EntryNormal,
        EntryType::EntryConfChange => raft::eraftpb::EntryType::EntryConfChange,
    };
    let mut m = raft::eraftpb::Entry::new();
    m.entry_type = entry_type;
    m.term = e.term;
    m.index = e.index;
    m.data = e.data.clone();
    m.context = e.context.clone();
    m.sync_log = e.sync_log;
    protobuf::Message::write_to_bytes(&m).ok()
}

/// The name of a number file.
pub open spec fn u64_file_name(f: U64File) -> Seq<char> {
    match f {
        U64File::Term => "term"@,
        U64File::First => "first"@,
        U64File::Last => "last"@,
        U64File::Applied => "applied"@,
    }
}

/// The directory of the entry files, relative to the data directory.
pub open spec fn entries_dir_name() -> Seq<char> {
    "entries"@
}

/// The path of the file of the entry at `index`, relative to the data
/// directory: the index in decimal, in the entries directory.
pub open spec fn entry_path(index: u64) -> Seq<char> {
    "entries/"@ + decimal(index as nat)
}

/// A change to one file or directory under the data directory, by path
/// relative to it.
#[derive(Debug)]
pub enum FileWrite {
    /// Write the bytes into the file.
    Write(String, Vec<u8>),
    /// Remove the file.
    Remove(String),
    /// Remove every file in the directory.
    RemoveAll(String),
}

/// The mathematical value of a [`FileWrite`].
pub enum FileWriteView {
    Write(Seq<char>, Seq<u8>),
    Remove(Seq<char>),
    RemoveAll(Seq<char>),
}

impl View for FileWrite {
    type V = FileWriteView;

    open spec fn view(&self) -> FileWriteView {
        match self {
            FileWrite::Write(p, b) => FileWriteView::Write(p@, b@),
            FileWrite::Remove(p) => FileWriteView::Remove(p@),
            FileWrite::RemoveAll(p) => FileWriteView::RemoveAll(p@),
        }
    }
}

/// Whether the values a file operation writes can be encoded.
pub open spec fn file_op_encodable(op: FileOpView) -> bool {
    match op {
        FileOpView::WriteSnapshot(s) => snapshot_encodable(s),
        FileOpView::WriteEntry(e) => entry_encodable(e),
        _ => true,
    }
}

/// What a file operation does to the data directory: a number goes into its
/// number file in little-endian order; the hard state and the snapshot go
/// into the files `hardstate` and `snapshot`, and each entry into its entry
/// file, protobuf-encoded; nothing where the encoding fails.
pub open spec fn file_write_of(op: FileOpView) -> Option<FileWriteView> {
    match op {
        FileOpView::WriteU64(f, v) => Some(FileWriteView::Write(u64_file_name(f), le_bytes(v))),
        FileOpView::WriteHardState(h) => Some(FileWriteView::Write("hardstate"@, hard_state_bytes(h))),
        FileOpView::WriteSnapshot(s) => match encoded_snapshot(s) {
            Some(b) => Some(FileWriteView::Write("snapshot"@, b)),
            None => None,
        },
        FileOpView::WriteEntry(e) => match encoded_entry(e) {
            Some(b) => Some(FileWriteView::Write(entry_path(e.index), b)),
            None => None,
        },
        FileOpView::RemoveEntry(i) => Some(FileWriteView::Remove(entry_path(i))),
        FileOpView::ClearEntries => Some(FileWriteView::RemoveAll(entries_dir_name())),
    }
}

/// The name of a number file.
fn u64_file_name_str(f: U64File) -> (r: &'static str)
    ensures
        r@ == u64_file_name(f),
{
    match f {
        U64File::Term => "term",
        U64File::First => "first",
        U64File::Last => "last",
        U64File::Applied => "applied",
    }
}

/// The path of the file of the entry at `index`.
pub fn entry_path_string(index: u64) -> (r: String)
    ensures
        r@ == entry_path(index),
{
    let digits = decimal_string(index);
    let mut r = "entries/".to_owned();
    r.append(digits.as_str());
    r
}

/// What a file operation does to the data directory, where its values
/// encode.
pub fn file_write(op: &FileOp) -> (r: Option<FileWrite>)
    requires
        file_op_encodable(op@),
    ensures
        match r {
            Some(w) => file_write_of(op@) == Some(w@),
            None => file_write_of(op@) is None,
        },
{
    match op {
        FileOp::WriteU64(f, v) => Some(FileWrite::Write(u64_file_name_str(*f).to_owned(), u64_to_bytes(*v))),
        FileOp::WriteHardState(h) => match encode_hard_state(h) {
            Some(b) => Some(FileWrite::Write("hardstate".to_owned(), b)),
            None => None,
        },
        FileOp::WriteSnapshot(s) => match encode_snapshot(s) {
            Some(b) => Some(FileWrite::Write("snapshot".to_owned(), b)),
            None => None,
        },
        FileOp::WriteEntry(e) => match encode_entry(e) {
            Some(b) => Some(FileWrite::Write(entry_path_string(e.index), b)),
            None => None,
        },
        FileOp::RemoveEntry(i) => Some(FileWrite::Remove(entry_path_string(*i))),
        FileOp::ClearEntries => Some(FileWrite::RemoveAll("entries".to_owned())),
    }
}

/// Whether a data directory must be initialized: reading its Raft state
/// reads the hard state file, then the snapshot file, and
/// initializes where the first file that cannot be read is missing. A hard
/// state file that is present but does not decode stops that reading
/// before the snapshot file.
pub fn needs_init(hard_state: Option<&Vec<u8>>, snapshot_missing: bool) -> (r: bool)
    ensures
        r == match hard_state {
            None => true,
            Some(b) => decoded_hard_state(b@) is Some && snapshot_missing,
        },
{
    match hard_state {
        None => true,
        Some(b) => match decode_hard_state(b) {
            Some(_) => snapshot_missing,
            None => false,
        },
    }
}

/// The number a number file holds, where it holds eight bytes.
pub open spec fn number_of(bytes: Seq<u8>) -> Option<u64> {
    if bytes.len() == 8 {
        Some(le_value(bytes))
    } else {
        None
    }
}

/// The entries a list of entry files holds, where every one decodes.
pub open spec fn decoded_entries(files: Seq<Seq<u8>>) -> Option<Seq<EntryView>> {
    if forall|i: int| 0 <= i < files.len() ==> #[trigger] decoded_entry(files[i]) is Some {
        Some(Seq::new(files.len(), |i: int| decoded_entry(files[i])->0))
    } else {
        None
    }
}

/// The views of a list of files.
pub open spec fn files_view(files: Seq<Vec<u8>>) -> Seq<Seq<u8>> {
    files.map_values(|f: Vec<u8>| f@)
}

/// The state the files of a data directory hold, where every number file
/// holds eight bytes and every other file decodes: the numbers, the applied
/// index (0 where its file is absent), the hard state, the snapshot, and
/// each entry under its own index.
pub open spec fn loaded_state(
    term: Seq<u8>,
    first: Seq<u8>,
    last: Seq<u8>,
    applied: Option<Seq<u8>>,
    hard_state: Seq<u8>,
    snapshot: Seq<u8>,
    entry_files: Seq<Seq<u8>>,
) -> Option<FsState> {
    let a = match applied {
        Some(b) => number_of(b),
        None => Some(0u64),
    };
    match (number_of(term), number_of(first), number_of(last), a, decoded_hard_state(hard_state), decoded_snapshot(snapshot), decoded_entries(entry_files)) {
        (Some(t), Some(f), Some(l), Some(ap), Some(h), Some(s), Some(es)) => Some(FsState {
            compacted_term: t,
            first_index: f,
            last_index: l,
            applied: ap,
            hard_state: h,
            snapshot: s,
            entries: entries_after(Map::empty(), es),
        }),
        _ => None,
    }
}

/// Decodes every entry file, where every one decodes.
pub fn decode_entries(files: &Vec<Vec<u8>>) -> (r: Option<Vec<Entry>>)
    ensures
        match r {
            Some(v) => decoded_entries(files_view(files@)) == Some(entries_view(v@)),
            None => decoded_entries(files_view(files@)) is None,
        },
{
    let ghost fv = files_view(files@);
    let mut out: Vec<Entry> = Vec::new();
    let mut i: usize = 0;
    while i < files.len()
        invariant
            i <= files@.len(),
            fv == files_view(files@),
            out@.len() == i,
            forall|k: int| 0 <= k < i ==> decoded_entry(#[trigger] fv[k]) == Some(out@[k]@),
        decreases files.len() - i,
    {
        assert(fv[i as int] == files@[i as int]@);
        match decode_entry(&files[i]) {
            Some(e) => {
                out.push(e);
            },
            None => {
                assert(!(decoded_entry(fv[i as int]) is Some));
                return None;
            },
        }
        i = i + 1;
    }
    assert(entries_view(out@) =~= Seq::new(fv.len(), |k: int| decoded_entry(fv[k])->0));
    Some(out)
}

/// The storage the files of a data directory hold: the number files (the
/// applied one where present), the hard state and snapshot files and every
/// entry file. Fails as invalid data where a number file does not hold
/// eight bytes or another file does not decode.
pub fn load_fs_storage(
    term: &Vec<u8>,
    first: &Vec<u8>,
    last: &Vec<u8>,
    applied: Option<&Vec<u8>>,
    hard_state: &Vec<u8>,
    snapshot: &Vec<u8>,
    entry_files: &Vec<Vec<u8>>,
) -> (r: Result<FsStorage, StorageError>)
    ensures
        match r {
            Ok(s) => {
                &&& s.well_keyed()
                &&& s.writes_reach_state()
                &&& s.disk() == s.state()
                &&& loaded_state(term@, first@, last@, match applied {
                    Some(b) => Some(b@),
                    None => None,
                }, hard_state@, snapshot@, files_view(entry_files@)) == Some(s.state())
                &&& s.pending() == Seq::<FileOpView>::empty()
            },
            Err(e) => {
                &&& e == StorageError::Io(IoErrorKind::InvalidData)
                &&& loaded_state(term@, first@, last@, match applied {
                    Some(b) => Some(b@),
                    None => None,
                }, hard_state@, snapshot@, files_view(entry_files@)) is None
            },
        },
{
    let invalid = StorageError::Io(IoErrorKind::InvalidData);
    let t = match u64_from_bytes(term.as_slice()) {
        Ok(v) => v,
        Err(_) => {
            return Err(invalid);
        },
    };
    let f = match u64_from_bytes(first.as_slice()) {
        Ok(v) => v,
        Err(_) => {
            return Err(invalid);
        },
    };
    let l = match u64_from_bytes(last.as_slice()) {
        Ok(v) => v,
        Err(_) => {
            return Err(invalid);
        },
    };
    let a = match applied {
        Some(b) => match u64_from_bytes(b.as_slice()) {
            Ok(v) => v,
            Err(_) => {
                return Err(invalid);
            },
        },
        None => 0,
    };
    let h = match decode_hard_state(hard_state) {
        Some(h) => h,
        None => {
            return Err(invalid);
        },
    };
    let s = match decode_snapshot(snapshot) {
        Some(s) => s,
        None => {
            return Err(invalid);
        },
    };
    let es = match decode_entries(entry_files) {
        Some(es) => es,
        None => {
            return Err(invalid);
        },
    };
    Ok(FsStorage::from_parts(t, f, l, a, h, s, es))
}

/// Whether the path `p` names a file in the directory `d`.
pub open spec fn in_dir(p: Seq<char>, d: Seq<char>) -> bool {
    &&& p.len() > d.len()
    &&& p.subrange(0, d.len() as int) == d
    &&& p[d.len() as int] == '/'
}

/// A data directory after one change: a written file holds the bytes, a
/// removed file is gone, and a cleared directory has no file left.
pub open spec fn apply_write(dir: Map<Seq<char>, Seq<u8>>, w: FileWriteView) -> Map<Seq<char>, Seq<u8>> {
    match w {
        FileWriteView::Write(p, b) => dir.insert(p, b),
        FileWriteView::Remove(p) => dir.remove(p),
        FileWriteView::RemoveAll(d) => dir.remove_keys(Set::new(|p: Seq<char>| in_dir(p, d))),
    }
}

/// A data directory after a sequence of file operations, in order; nothing
/// where one of them does not encode.
pub open spec fn apply_writes(dir: Map<Seq<char>, Seq<u8>>, ops: Seq<FileOpView>) -> Option<Map<Seq<char>, Seq<u8>>>
    decreases ops.len(),
{
    if ops.len() == 0 {
        Some(dir)
    } else {
        match apply_writes(dir, ops.drop_last()) {
            Some(d) => match file_write_of(ops.last()) {
                Some(w) => Some(apply_write(d, w)),
                None => None,
            },
            None => None,
        }
    }
}

/// Protobuf decodes what it encoded, for the three kinds of file.
pub open spec fn protobuf_round_trips() -> bool {
    &&& forall|h: HardState| #[trigger] decoded_hard_state(hard_state_bytes(h)) == Some(h)
    &&& forall|sn: SnapshotView| #[trigger] encoded_snapshot(sn) is Some ==> decoded_snapshot(encoded_snapshot(sn)->0) == Some(sn)
    &&& forall|e: EntryView| #[trigger] encoded_entry(e) is Some ==> decoded_entry(encoded_entry(e)->0) == Some(e)
}

/// The applied index file, where the directory has one.
pub open spec fn applied_file(dir: Map<Seq<char>, Seq<u8>>) -> Option<Seq<u8>> {
    if dir.contains_key("applied"@) {
        Some(dir["applied"@])
    } else {
        None
    }
}

/// Whether the files of a directory hold the state `st`: each number in its
/// file (no applied file meaning nothing applied), the hard state and the
/// snapshot decoding from theirs, and exactly one file in the entries
/// directory for each entry, under its index, decoding to it.
pub open spec fn dir_holds(dir: Map<Seq<char>, Seq<u8>>, st: FsState) -> bool {
    &&& dir.contains_key("term"@) && dir["term"@] == le_bytes(st.compacted_term)
    &&& dir.contains_key("first"@) && dir["first"@] == le_bytes(st.first_index)
    &&& dir.contains_key("last"@) && dir["last"@] == le_bytes(st.last_index)
    &&& if dir.contains_key("applied"@) {
        dir["applied"@] == le_bytes(st.applied)
    } else {
        st.applied == 0
    }
    &&& dir.contains_key("hardstate"@) && decoded_hard_state(dir["hardstate"@]) == Some(st.hard_state)
    &&& dir.contains_key("snapshot"@) && decoded_snapshot(dir["snapshot"@]) == Some(st.snapshot)
    &&& forall|p: Seq<char>| #[trigger] dir.contains_key(p) && in_dir(p, entries_dir_name()) ==> exists|i: u64| #[trigger] st.entries.contains_key(i) && p == entry_path(i)
    &&& forall|i: u64| #[trigger] st.entries.contains_key(i) ==> {
        &&& dir.contains_key(entry_path(i))
        &&& decoded_entry(dir[entry_path(i)]) == Some(st.entries[i])
        &&& st.entries[i].index == i
    }
}

/// Whether `paths` lists the files of the entries directory, each once.
pub open spec fn lists_entry_files(dir: Map<Seq<char>, Seq<u8>>, paths: Seq<Seq<char>>) -> bool {
    &&& paths.no_duplicates()
    &&& forall|p: Seq<char>| #[trigger] paths.contains(p) <==> (dir.contains_key(p) && in_dir(p, entries_dir_name()))
}

/// The state the files of a directory hold, read as `load_fs_storage`
/// reads them, with the entry files in the order `paths` lists them.
pub open spec fn dir_loaded(dir: Map<Seq<char>, Seq<u8>>, paths: Seq<Seq<char>>) -> Option<FsState> {
    loaded_state(
        dir["term"@],
        dir["first"@],
        dir["last"@],
        applied_file(dir),
        dir["hardstate"@],
        dir["snapshot"@],
        Seq::new(paths.len(), |k: int| dir[paths[k]]),
    )
}

proof fn lemma_names()
    ensures
        !in_dir("term"@, entries_dir_name()),
        !in_dir("first"@, entries_dir_name()),
        !in_dir("last"@, entries_dir_name()),
        !in_dir("applied"@, entries_dir_name()),
        !in_dir("hardstate"@, entries_dir_name()),
        !in_dir("snapshot"@, entries_dir_name()),
        "term"@ != "first"@,
        "term"@ != "last"@,
        "term"@ != "applied"@,
        "term"@ != "hardstate"@,
        "term"@ != "snapshot"@,
        "first"@ != "last"@,
        "first"@ != "applied"@,
        "first"@ != "hardstate"@,
        "first"@ != "snapshot"@,
        "last"@ != "applied"@,
        "last"@ != "hardstate"@,
        "last"@ != "snapshot"@,
        "applied"@ != "hardstate"@,
        "applied"@ != "snapshot"@,
        "hardstate"@ != "snapshot"@,
{
    reveal_strlit("term");
    reveal_strlit("first");
    reveal_strlit("last");
    reveal_strlit("applied");
    reveal_strlit("hardstate");
    reveal_strlit("snapshot");
    reveal_strlit("entries");
    assert("hardstate"@[0] != "entries"@[0]);
    assert("snapshot"@[0] != "entries"@[0]);
    assert("hardstate"@.subrange(0, 7)[0] == 'h');
    assert("snapshot"@.subrange(0, 7)[0] == 's');
    assert("term"@[0] != "first"@[0]);
    assert("term"@[0] != "snapshot"@[0]);
    assert("first"@[0] != "last"@[0]);
    assert("first"@[0] != "applied"@[0]);
    assert("first"@[0] != "hardstate"@[0]);
    assert("first"@[0] != "snapshot"@[0]);
    assert("last"@[0] != "applied"@[0]);
    assert("last"@[0] != "hardstate"@[0]);
    assert("last"@[0] != "snapshot"@[0]);
    assert("applied"@[0] != "hardstate"@[0]);
    assert("applied"@[0] != "snapshot"@[0]);
    assert("hardstate"@[0] != "snapshot"@[0]);
    assert("term"@[0] != "hardstate"@[0]);
    assert("term"@[0] != "applied"@[0]);
}

proof fn lemma_entry_path(i: u64)
    ensures
        in_dir(entry_path(i), entries_dir_name()),
        forall|j: u64| #[trigger] entry_path(j) == entry_path(i) ==> j == i,
{
    reveal_strlit("entries/");
    reveal_strlit("entries");
    let p = entry_path(i);
    assert(p.subrange(0, 7) =~= "entries"@);
    assert forall|j: u64| #[trigger] entry_path(j) == entry_path(i) implies j == i by {
        assert(entry_path(j).subrange(8, entry_path(j).len() as int) =~= decimal(j as nat));
        assert(entry_path(i).subrange(8, entry_path(i).len() as int) =~= decimal(i as nat));
        lemma_decimal_injective(j as nat, i as nat);
    }
}

/// The index of the entry whose file is at `p`.
spec fn index_of_path(st: FsState, p: Seq<char>) -> u64 {
    choose|i: u64| #[trigger] st.entries.contains_key(i) && p == entry_path(i)
}

/// Reading a directory that holds a state gives that state back, whatever
/// the order in which its entry files are listed.
pub proof fn lemma_reload(dir: Map<Seq<char>, Seq<u8>>, st: FsState, paths: Seq<Seq<char>>)
    requires
        dir_holds(dir, st),
        lists_entry_files(dir, paths),
    ensures
        dir_loaded(dir, paths) == Some(st),
{
    lemma_u64_bytes_roundtrip(st.compacted_term);
    lemma_u64_bytes_roundtrip(st.first_index);
    lemma_u64_bytes_roundtrip(st.last_index);
    lemma_u64_bytes_roundtrip(st.applied);
    let files = Seq::new(paths.len(), |k: int| dir[paths[k]]);
    // Each listed file is the file of one entry, and decodes to it.
    assert forall|k: int| 0 <= k < paths.len() implies {
        let i = #[trigger] index_of_path(st, paths[k]);
        &&& st.entries.contains_key(i)
        &&& paths[k] == entry_path(i)
        &&& decoded_entry(files[k]) == Some(st.entries[i])
    } by {
        assert(paths.contains(paths[k]));
        assert(dir.contains_key(paths[k]) && in_dir(paths[k], entries_dir_name()));
        let i = index_of_path(st, paths[k]);
        assert(st.entries.contains_key(i) && paths[k] == entry_path(i));
    }
    assert forall|k: int| 0 <= k < files.len() implies #[trigger] decoded_entry(files[k]) is Some by {
        let i = index_of_path(st, paths[k]);
    }
    let es = Seq::new(files.len(), |k: int| decoded_entry(files[k])->0);
    assert(decoded_entries(files) == Some(es));
    assert forall|k: int| 0 <= k < es.len() implies #[trigger] es[k] == st.entries[index_of_path(st, paths[k])]
        && es[k].index == index_of_path(st, paths[k]) by {
        let i = index_of_path(st, paths[k]);
    }
    assert forall|k: int, l: int| 0 <= k < l < es.len() implies #[trigger] es[k].index != #[trigger] es[l].index by {
        let i = index_of_path(st, paths[k]);
        let j = index_of_path(st, paths[l]);
        if i == j {
            assert(paths[k] == paths[l]);
        }
    }
    lemma_entries_after_distinct(es);
    let m = entries_after(Map::empty(), es);
    assert forall|i: u64| #[trigger] m.contains_key(i) <==> st.entries.contains_key(i) by {
        if st.entries.contains_key(i) {
            lemma_entry_path(i);
            assert(dir.contains_key(entry_path(i)));
            assert(paths.contains(entry_path(i)));
            let k = choose|k: int| 0 <= k < paths.len() && paths[k] == entry_path(i);
            let ik = index_of_path(st, paths[k]);
            lemma_entry_path(ik);
            assert(entry_path(ik) == entry_path(i));
            assert(es[k].index == i);
            assert(m.contains_key(es[k].index));
        }
        if m.contains_key(i) {
            let k = choose|k: int| 0 <= k < es.len() && es[k].index == i;
        }
    }
    assert forall|i: u64| #[trigger] m.contains_key(i) implies m[i] == st.entries[i] by {
        let k = choose|k: int| 0 <= k < es.len() && es[k].index == i;
        assert(m.contains_key(es[k].index));
    }
    assert(m =~= st.entries);
}

proof fn lemma_entries_after_distinct(es: Seq<EntryView>)
    requires
        forall|k: int, l: int| 0 <= k < l < es.len() ==> #[trigger] es[k].index != #[trigger] es[l].index,
    ensures
        forall|k: int| 0 <= k < es.len() ==> #[trigger] entries_after(Map::empty(), es).contains_key(es[k].index)
            && entries_after(Map::empty(), es)[es[k].index] == es[k],
        forall|i: u64| #[trigger] entries_after(Map::empty(), es).contains_key(i) ==> exists|k: int| 0 <= k < es.len() && es[k].index == i,
    decreases es.len(),
{
    if es.len() > 0 {
        let n = es.len() - 1;
        let front = es.drop_last();
        let last = es[n];
        let mf = entries_after(Map::empty(), front);
        let m = entries_after(Map::empty(), es);
        assert(m == mf.insert(last.index, last));
        assert forall|k: int, l: int| 0 <= k < l < front.len() implies #[trigger] front[k].index != #[trigger] front[l].index by {
            assert(front[k] == es[k] && front[l] == es[l]);
        }
        lemma_entries_after_distinct(front);
        assert forall|k: int| 0 <= k < es.len() implies #[trigger] m.contains_key(es[k].index) && m[es[k].index] == es[k] by {
            if k < n {
                assert(front[k] == es[k]);
                assert(es[k].index != es[n].index);
                assert(mf.contains_key(front[k].index));
            }
        }
        assert forall|i: u64| #[trigger] m.contains_key(i) implies exists|k: int| 0 <= k < es.len() && es[k].index == i by {
            if i != last.index {
                assert(mf.contains_key(i));
                let k = choose|k: int| 0 <= k < front.len() && front[k].index == i;
                assert(es[k] == front[k]);
            } else {
                assert(es[n].index == i);
            }
        }
    }
}

/// The entry-file part of [`dir_holds`].
pub open spec fn entries_part(dir: Map<Seq<char>, Seq<u8>>, st: FsState) -> bool {
    &&& forall|p: Seq<char>| #[trigger] dir.contains_key(p) && in_dir(p, entries_dir_name()) ==> exists|i: u64| #[trigger] st.entries.contains_key(i) && p == entry_path(i)
    &&& forall|i: u64| #[trigger] st.entries.contains_key(i) ==> {
        &&& dir.contains_key(entry_path(i))
        &&& decoded_entry(dir[entry_path(i)]) == Some(st.entries[i])
        &&& st.entries[i].index == i
    }
}

proof fn lemma_entries_part_same(dir: Map<Seq<char>, Seq<u8>>, d2: Map<Seq<char>, Seq<u8>>, st: FsState)
    requires
        entries_part(dir, st),
        forall|p: Seq<char>| #[trigger] in_dir(p, entries_dir_name()) ==> (d2.contains_key(p) <==> dir.contains_key(p)),
        forall|p: Seq<char>| #[trigger] in_dir(p, entries_dir_name()) && d2.contains_key(p) ==> d2[p] == dir[p],
    ensures
        entries_part(d2, st),
{
    assert forall|i: u64| #[trigger] st.entries.contains_key(i) implies {
        &&& d2.contains_key(entry_path(i))
        &&& decoded_entry(d2[entry_path(i)]) == Some(st.entries[i])
        &&& st.entries[i].index == i
    } by {
        lemma_entry_path(i);
    }
    assert forall|p: Seq<char>| #[trigger] d2.contains_key(p) && in_dir(p, entries_dir_name()) implies exists|i: u64| #[trigger] st.entries.contains_key(i) && p == entry_path(i) by {
        assert(dir.contains_key(p));
    }
}

/// One file operation keeps the directory holding the storage's state: a
/// directory that holds a state, changed as the operation says, holds the
/// state after the operation.
pub proof fn lemma_write_keeps(dir: Map<Seq<char>, Seq<u8>>, st: FsState, op: FileOpView)
    requires
        protobuf_round_trips(),
        dir_holds(dir, st),
        file_write_of(op) is Some,
    ensures
        dir_holds(apply_write(dir, file_write_of(op)->0), state_after_op(st, op)),
{
    lemma_names();
    let d2 = apply_write(dir, file_write_of(op)->0);
    let st2 = state_after_op(st, op);
    assert(entries_part(dir, st));
    match op {
        FileOpView::WriteU64(f, v) => {
            assert(!in_dir(u64_file_name(f), entries_dir_name()));
            lemma_entries_part_same(dir, d2, st);
            assert(st2.entries == st.entries);
        },
        FileOpView::WriteHardState(h) => {
            assert(decoded_hard_state(hard_state_bytes(h)) == Some(h));
            lemma_entries_part_same(dir, d2, st);
        },
        FileOpView::WriteSnapshot(sn) => {
            assert(encoded_snapshot(sn) is Some);
            lemma_entries_part_same(dir, d2, st);
        },
        FileOpView::WriteEntry(e) => {
            assert(encoded_entry(e) is Some);
            let b = encoded_entry(e)->0;
            let ep = entry_path(e.index);
            lemma_entry_path(e.index);
            assert(d2 == dir.insert(ep, b));
            assert(decoded_entry(b) == Some(e));
            assert forall|i: u64| #[trigger] st2.entries.contains_key(i) implies {
                &&& d2.contains_key(entry_path(i))
                &&& decoded_entry(d2[entry_path(i)]) == Some(st2.entries[i])
                &&& st2.entries[i].index == i
            } by {
                if i != e.index {
                    lemma_entry_path(i);
                    assert(entry_path(i) != ep);
                }
            }
            assert forall|p: Seq<char>| #[trigger] d2.contains_key(p) && in_dir(p, entries_dir_name()) implies exists|i: u64| #[trigger] st2.entries.contains_key(i) && p == entry_path(i) by {
                if p == ep {
                    assert(st2.entries.contains_key(e.index));
                } else {
                    assert(dir.contains_key(p));
                    let i = choose|i: u64| #[trigger] st.entries.contains_key(i) && p == entry_path(i);
                    assert(st2.entries.contains_key(i));
                }
            }
        },
        FileOpView::RemoveEntry(i0) => {
            let ep = entry_path(i0);
            lemma_entry_path(i0);
            assert(d2 == dir.remove(ep));
            assert forall|i: u64| #[trigger] st2.entries.contains_key(i) implies {
                &&& d2.contains_key(entry_path(i))
                &&& decoded_entry(d2[entry_path(i)]) == Some(st2.entries[i])
                &&& st2.entries[i].index == i
            } by {
                lemma_entry_path(i);
                assert(entry_path(i) != ep);
            }
            assert forall|p: Seq<char>| #[trigger] d2.contains_key(p) && in_dir(p, entries_dir_name()) implies exists|i: u64| #[trigger] st2.entries.contains_key(i) && p == entry_path(i) by {
                assert(dir.contains_key(p));
                let i = choose|i: u64| #[trigger] st.entries.contains_key(i) && p == entry_path(i);
                assert(i != i0);
                assert(st2.entries.contains_key(i));
            }
        },
        FileOpView::ClearEntries => {
            assert(d2 == dir.remove_keys(Set::new(|p: Seq<char>| in_dir(p, entries_dir_name()))));
            assert(st2.entries == Map::<u64, EntryView>::empty());
        },
    }
}

/// A sequence of file operations keeps the directory holding the storage's
/// state, as [`lemma_write_keeps`] does for one.
pub proof fn lemma_writes_keep(dir: Map<Seq<char>, Seq<u8>>, st: FsState, ops: Seq<FileOpView>)
    requires
        protobuf_round_trips(),
        dir_holds(dir, st),
        apply_writes(dir, ops) is Some,
    ensures
        dir_holds(apply_writes(dir, ops)->0, state_after_ops(st, ops)),
    decreases ops.len(),
{
    if ops.len() > 0 {
        lemma_writes_keep(dir, st, ops.drop_last());
        lemma_write_keeps(apply_writes(dir, ops.drop_last())->0, state_after_ops(st, ops.drop_last()), ops.last());
    }
}

/// The writes of a new storage turn an empty directory into one that holds
/// the fresh state.
pub proof fn lemma_init_dir()
    requires
        protobuf_round_trips(),
        apply_writes(Map::empty(), init_ops()) is Some,
    ensures
        dir_holds(apply_writes(Map::empty(), init_ops())->0, fresh_state()),
{
    lemma_names();
    let ops = init_ops();
    reveal_with_fuel(apply_writes, 6);
    assert(ops.drop_last().drop_last().drop_last().drop_last().drop_last() =~= Seq::<FileOpView>::empty());
    let d = apply_writes(Map::empty(), ops)->0;
    let hs = HardState { term: 0, vote: 0, commit: 0 };
    assert(decoded_hard_state(hard_state_bytes(hs)) == Some(hs));
    assert(encoded_snapshot(crate::types::empty_snapshot()) is Some);
    assert forall|p: Seq<char>| #[trigger] d.contains_key(p) && in_dir(p, entries_dir_name()) implies exists|i: u64| #[trigger] fresh_state().entries.contains_key(i) && p == entry_path(i) by {
    }
}

/// Reopening a data directory gives back what the storage holds: where the
/// directory holds what it held when the storage's writes were last taken,
/// carrying out the writes recorded since, in order, leaves a directory
/// that holds the storage's state, and reading it back gives that state,
/// whatever the order in which its entry files are listed. It rests on
/// protobuf decoding what it encodes.
pub proof fn lemma_reopen(s: &FsStorage, dir: Map<Seq<char>, Seq<u8>>, paths: Seq<Seq<char>>)
    requires
        protobuf_round_trips(),
        s.writes_reach_state(),
        dir_holds(dir, s.disk()),
        apply_writes(dir, s.pending()) is Some,
        lists_entry_files(apply_writes(dir, s.pending())->0, paths),
    ensures
        dir_holds(apply_writes(dir, s.pending())->0, s.state()),
        dir_loaded(apply_writes(dir, s.pending())->0, paths) == Some(s.state()),
{
    lemma_writes_keep(dir, s.disk(), s.pending());
    lemma_reload(apply_writes(dir, s.pending())->0, s.state(), paths);
}

} // verus!
