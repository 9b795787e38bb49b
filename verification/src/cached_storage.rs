//! A cache in front of a Raft log storage: recently read entries and terms
//! are kept in small least-recently-used caches, the other reads are kept
//! until the next write, and every write clears the cache before it goes to
//! the storage.

use vstd::prelude::*;

use crate::storage::{opt_conf_ref_view, StorageExt};
use crate::types::{
    RaftStateView, SnapshotView, entries_result_view, entries_view, result_view, ConfState, Entry, EntryView, HardState,
    RaftState, Snapshot, StorageError,
};
use crate::fs_storage::{FileOp, FileOpView, FsStorage, ops_view};

verus! {

/// How many entries, and how many terms, the cache keeps.
pub const CACHE_SIZE: usize = 16;

#[verifier::external_type_specification]
#[verifier::external_body]
#[verifier::reject_recursive_types(T)]
pub struct ExLRUCache<T, const N: usize>(uluru::LRUCache<T, N>);

/// The entries an entry cache holds, most recently used first.
pub uninterp spec fn entry_cache_items(c: uluru::LRUCache<Entry, 16>) -> Seq<EntryView>;

/// The (index, term) pairs a term cache holds, most recently used first.
pub uninterp spec fn term_cache_items(c: uluru::LRUCache<(u64, u64), 16>) -> Seq<(u64, u64)>;

/// The position of the first item (most recently used first) with index
/// `index`; the length where there is none.
pub open spec fn position_of_index(s: Seq<EntryView>, index: u64) -> int
    decreases s.len(),
{
    if s.len() == 0 {
        0
    } else if s[0].index == index {
        0
    } else {
        1 + position_of_index(s.drop_first(), index)
    }
}

/// The position of the first pair (most recently used first) with index
/// `index`; the length where there is none.
pub open spec fn position_of_term(s: Seq<(u64, u64)>, index: u64) -> int
    decreases s.len(),
{
    if s.len() == 0 {
        0
    } else if s[0].0 == index {
        0
    } else {
        1 + position_of_term(s.drop_first(), index)
    }
}

/// The items of a cache after the item at `i` was used: it moves to the
/// front.
pub open spec fn touched<T>(s: Seq<T>, i: int) -> Seq<T> {
    seq![s[i]] + s.remove(i)
}

/// The items of a cache of `CACHE_SIZE` after `x` was inserted: it goes to
/// the front, and where the cache was full the least recently used item
/// leaves.
pub open spec fn inserted<T>(s: Seq<T>, x: T) -> Seq<T> {
    if s.len() >= CACHE_SIZE {
        seq![x] + s.drop_last()
    } else {
        seq![x] + s
    }
}

/// An empty entry cache, from `uluru::LRUCache::new`.
#[verifier::external_body]
fn entry_cache_new() -> (c: uluru::LRUCache<Entry, 16>)
    ensures
        entry_cache_items(c) == Seq::<EntryView>::empty(),
{
    uluru::LRUCache::new()
}

/// Inserts an entry with `uluru::LRUCache::insert`: it becomes the most
/// recently used, and where the cache was full the least recently used one
/// is evicted (and dropped here).
#[verifier::external_body]
fn entry_cache_insert(c: &mut uluru::LRUCache<Entry, 16>, e: Entry)
    ensures
        entry_cache_items(*final(c)) == inserted(entry_cache_items(*old(c)), e@),
        entry_cache_items(*final(c)).len() <= CACHE_SIZE,
{
    c.insert(e);
}

/// Whether the entry at `index` is a member of `e`'s cache, by index.
fn entry_has_index(e: &Entry, index: u64) -> (r: bool)
    ensures
        r == (e.index == index),
{
    e.index == index
}

/// Looks up the entry at `index` with `uluru::LRUCache::touch`: the first
/// one, most recently used first, becomes the most recently used; returns
/// whether there is one.
#[verifier::external_body]
fn entry_cache_touch(c: &mut uluru::LRUCache<Entry, 16>, index: u64) -> (found: bool)
    ensures
        found == (position_of_index(entry_cache_items(*old(c)), index) < entry_cache_items(*old(c)).len()),
        found ==> entry_cache_items(*final(c)) == touched(
            entry_cache_items(*old(c)),
            position_of_index(entry_cache_items(*old(c)), index),
        ),
        !found ==> entry_cache_items(*final(c)) == entry_cache_items(*old(c)),
{
    c.touch(|e| entry_has_index(e, index))
}

/// The most recently used entry, from `uluru::LRUCache::front`.
#[verifier::external_body]
fn entry_cache_front(c: &uluru::LRUCache<Entry, 16>) -> (r: Option<&Entry>)
    ensures
        match r {
            Some(e) => entry_cache_items(*c).len() > 0 && e@ == entry_cache_items(*c)[0],
            None => entry_cache_items(*c).len() == 0,
        },
{
    c.front()
}

/// An empty term cache, from `uluru::LRUCache::new`.
#[verifier::external_body]
fn term_cache_new() -> (c: uluru::LRUCache<(u64, u64), 16>)
    ensures
        term_cache_items(c) == Seq::<(u64, u64)>::empty(),
{
    uluru::LRUCache::new()
}

/// Inserts an (index, term) pair with `uluru::LRUCache::insert`, as
/// [`entry_cache_insert`] does.
#[verifier::external_body]
fn term_cache_insert(c: &mut uluru::LRUCache<(u64, u64), 16>, p: (u64, u64))
    ensures
        term_cache_items(*final(c)) == inserted(term_cache_items(*old(c)), p),
        term_cache_items(*final(c)).len() <= CACHE_SIZE,
{
    c.insert(p);
}

/// Whether an (index, term) pair is for index `idx`.
fn pair_has_index(p: &(u64, u64), idx: u64) -> (r: bool)
    ensures
        r == (p.0 == idx),
{
    p.0 == idx
}

/// Looks up the pair for `idx` with `uluru::LRUCache::touch`, as
/// [`entry_cache_touch`] does.
#[verifier::external_body]
fn term_cache_touch(c: &mut uluru::LRUCache<(u64, u64), 16>, idx: u64) -> (found: bool)
    ensures
        found == (position_of_term(term_cache_items(*old(c)), idx) < term_cache_items(*old(c)).len()),
        found ==> term_cache_items(*final(c)) == touched(
            term_cache_items(*old(c)),
            position_of_term(term_cache_items(*old(c)), idx),
        ),
        !found ==> term_cache_items(*final(c)) == term_cache_items(*old(c)),
{
    c.touch(|p| pair_has_index(p, idx))
}

/// The most recently used pair, from `uluru::LRUCache::front`.
#[verifier::external_body]
fn term_cache_front(c: &uluru::LRUCache<(u64, u64), 16>) -> (r: Option<(u64, u64)>)
    ensures
        match r {
            Some(p) => term_cache_items(*c).len() > 0 && p == term_cache_items(*c)[0],
            None => term_cache_items(*c).len() == 0,
        },
{
    c.front().copied()
}

/// Empties a term cache with `uluru::LRUCache::clear`.
#[verifier::external_body]
fn term_cache_clear(c: &mut uluru::LRUCache<(u64, u64), 16>)
    ensures
        term_cache_items(*final(c)) == Seq::<(u64, u64)>::empty(),
{
    c.clear()
}

proof fn lemma_touched<T>(s: Seq<T>, i: int)
    requires
        0 <= i < s.len(),
    ensures
        touched(s, i).len() == s.len(),
        touched(s, i)[0] == s[i],
        forall|x: T| #[trigger] touched(s, i).contains(x) <==> s.contains(x),
{
    let t = touched(s, i);
    assert forall|x: T| #[trigger] t.contains(x) <==> s.contains(x) by {
        if t.contains(x) {
            let k = choose|k: int| 0 <= k < t.len() && t[k] == x;
            if k == 0 {
                assert(s[i] == x);
            } else if k - 1 < i {
                assert(s[k - 1] == x);
            } else {
                assert(s[k] == x);
            }
        }
        if s.contains(x) {
            let k = choose|k: int| 0 <= k < s.len() && s[k] == x;
            if k == i {
                assert(t[0] == x);
            } else if k < i {
                assert(t[k + 1] == x);
            } else {
                assert(t[k] == x);
            }
        }
    }
}

proof fn lemma_inserted<T>(s: Seq<T>, x: T)
    ensures
        inserted(s, x)[0] == x,
        forall|y: T| #[trigger] inserted(s, x).contains(y) ==> y == x || s.contains(y),
{
    let t = inserted(s, x);
    assert(t[0] == x);
    assert forall|y: T| #[trigger] t.contains(y) implies y == x || s.contains(y) by {
        let k = choose|k: int| 0 <= k < t.len() && t[k] == y;
        if k > 0 {
            assert(s[k - 1] == y);
        }
    }
}

proof fn lemma_position_of_index(s: Seq<EntryView>, index: u64)
    ensures
        0 <= position_of_index(s, index) <= s.len(),
        position_of_index(s, index) < s.len() ==> s[position_of_index(s, index)].index == index,
        forall|k: int| 0 <= k < position_of_index(s, index) ==> s[k].index != index,
    decreases s.len(),
{
    if s.len() > 0 && s[0].index != index {
        lemma_position_of_index(s.drop_first(), index);
        assert forall|k: int| 0 <= k < position_of_index(s, index) implies s[k].index != index by {
            if k > 0 {
                assert(s[k] == s.drop_first()[k - 1]);
            }
        }
    }
}

proof fn lemma_position_of_term(s: Seq<(u64, u64)>, index: u64)
    ensures
        0 <= position_of_term(s, index) <= s.len(),
        position_of_term(s, index) < s.len() ==> s[position_of_term(s, index)].0 == index,
        forall|k: int| 0 <= k < position_of_term(s, index) ==> s[k].0 != index,
    decreases s.len(),
{
    if s.len() > 0 && s[0].0 != index {
        lemma_position_of_term(s.drop_first(), index);
        assert forall|k: int| 0 <= k < position_of_term(s, index) implies s[k].0 != index by {
            if k > 0 {
                assert(s[k] == s.drop_first()[k - 1]);
            }
        }
    }
}

/// Whether some item of the entry cache has index `index`.
pub open spec fn has_entry(items: Seq<EntryView>, index: u64) -> bool {
    exists|k: int| 0 <= k < items.len() && #[trigger] items[k].index == index
}

/// The recently read entries.
struct EntryCache {
    cache: uluru::LRUCache<Entry, 16>,
}

impl EntryCache {
    closed spec fn items(&self) -> Seq<EntryView> {
        entry_cache_items(self.cache)
    }

    fn new() -> (r: EntryCache)
        ensures
            r.items() == Seq::<EntryView>::empty(),
    {
        EntryCache { cache: entry_cache_new() }
    }

    /// The cached entry at `index`, which becomes the most recently used.
    fn get(&mut self, index: u64) -> (r: Option<Entry>)
        ensures
            forall|x: EntryView| #[trigger] final(self).items().contains(x) <==> old(self).items().contains(x),
            match r {
                Some(e) => e.index == index && old(self).items().contains(e@),
                None => !has_entry(old(self).items(), index),
            },
    {
        let ghost before = self.items();
        proof {
            lemma_position_of_index(before, index);
        }
        if entry_cache_touch(&mut self.cache, index) {
            proof {
                lemma_touched(before, position_of_index(before, index));
            }
            match entry_cache_front(&self.cache) {
                Some(e) => {
                    let c = e.clone();
                    assert(before.contains(c@)) by {
                        assert(self.items().contains(c@));
                    }
                    Some(c)
                },
                None => {
                    assert(false);
                    None
                },
            }
        } else {
            proof {
                if has_entry(before, index) {
                    let k = choose|k: int| 0 <= k < before.len() && #[trigger] before[k].index == index;
                    assert(before[k].index != index);
                }
            }
            None
        }
    }

    /// Caches an entry as the most recently used.
    fn insert(&mut self, e: Entry)
        ensures
            final(self).items() == inserted(old(self).items(), e@),
    {
        entry_cache_insert(&mut self.cache, e);
    }

    /// The cached entries from `low` up to (not including) `high`, where
    /// every one is cached.
    fn range(&mut self, low: u64, high: u64) -> (r: Option<Vec<Entry>>)
        ensures
            forall|x: EntryView| #[trigger] final(self).items().contains(x) <==> old(self).items().contains(x),
            r is Some <==> (forall|i: u64| low <= i < high ==> #[trigger] has_entry(old(self).items(), i)),
            r matches Some(v) ==> {
                &&& v@.len() == (if low < high { high - low } else { 0 })
                &&& forall|k: int| 0 <= k < v@.len() ==> (#[trigger] v@[k]).index == low + k && old(self).items().contains(v@[k]@)
            },
    {
        let ghost before = self.items();
        let mut entries: Vec<Entry> = Vec::new();
        let mut index: u64 = low;
        while index < high
            invariant
                before == old(self).items(),
                low <= index || high <= low,
                low < high ==> index <= high,
                low >= high ==> index == low,
                forall|x: EntryView| #[trigger] self.items().contains(x) <==> before.contains(x),
                entries@.len() == index - low || (low >= high && entries@.len() == 0),
                forall|i: u64| low <= i < index ==> #[trigger] has_entry(before, i),
                forall|k: int| 0 <= k < entries@.len() ==> (#[trigger] entries@[k]).index == low + k && before.contains(entries@[k]@),
            decreases high - index,
        {
            let ghost mid = self.items();
            match self.get(index) {
                Some(entry) => {
                    proof {
                        let k = choose|k: int| 0 <= k < before.len() && before[k] == entry@;
                        assert(before[k].index == index);
                    }
                    entries.push(entry);
                },
                None => {
                    proof {
                        if has_entry(before, index) {
                            let k = choose|k: int| 0 <= k < before.len() && #[trigger] before[k].index == index;
                            assert(before.contains(before[k]));
                            assert(mid.contains(before[k]));
                            let j = choose|j: int| 0 <= j < mid.len() && mid[j] == before[k];
                            assert(mid[j].index == index);
                            assert(has_entry(mid, index));
                        }
                        assert(!has_entry(before, index));
                        assert forall|x: EntryView| #[trigger] self.items().contains(x) <==> before.contains(x) by {
                            assert(self.items().contains(x) <==> mid.contains(x));
                            assert(mid.contains(x) <==> before.contains(x));
                        }
                    }
                    return None;
                },
            }
            index = index + 1;
        }
        Some(entries)
    }
}

/// The recently read terms, as (index, term) pairs.
struct TermCache {
    cache: uluru::LRUCache<(u64, u64), 16>,
}

impl TermCache {
    closed spec fn items(&self) -> Seq<(u64, u64)> {
        term_cache_items(self.cache)
    }

    fn new() -> (r: TermCache)
        ensures
            r.items() == Seq::<(u64, u64)>::empty(),
    {
        TermCache { cache: term_cache_new() }
    }

    /// The cached term of the entry at `idx`, which becomes the most recently
    /// used.
    fn get(&mut self, idx: u64) -> (r: Option<u64>)
        ensures
            forall|x: (u64, u64)| #[trigger] final(self).items().contains(x) <==> old(self).items().contains(x),
            match r {
                Some(t) => old(self).items().contains((idx, t)),
                None => forall|k: int| 0 <= k < old(self).items().len() ==> (#[trigger] old(self).items()[k]).0 != idx,
            },
    {
        let ghost before = self.items();
        proof {
            lemma_position_of_term(before, idx);
        }
        if term_cache_touch(&mut self.cache, idx) {
            proof {
                lemma_touched(before, position_of_term(before, idx));
            }
            match term_cache_front(&self.cache) {
                Some(p) => {
                    assert(before.contains(p)) by {
                        assert(self.items().contains(p));
                    }
                    assert(p.0 == idx);
                    Some(p.1)
                },
                None => {
                    assert(false);
                    None
                },
            }
        } else {
            None
        }
    }

    /// Caches the term of the entry at `index` as the most recently used.
    fn insert(&mut self, index: u64, term: u64)
        ensures
            final(self).items() == inserted(old(self).items(), (index, term)),
    {
        term_cache_insert(&mut self.cache, (index, term));
    }

    /// Forgets every term.
    fn clear(&mut self)
        ensures
            final(self).items() == Seq::<(u64, u64)>::empty(),
    {
        term_cache_clear(&mut self.cache);
    }
}

/// What has been read from the storage since the last write.
struct StorageCache {
    initial_state: Option<RaftState>,
    first_index: Option<u64>,
    last_index: Option<u64>,
    snapshot: Option<Snapshot>,
    // The entry cache is absent at first and after every write, so that the
    // first read of entries after either goes to the storage even where the
    // range is empty (an empty log may answer that it is unavailable).
    entries: Option<EntryCache>,
    terms: TermCache,
}

impl StorageCache {
    fn new() -> (r: StorageCache)
        ensures
            r.initial_state is None,
            r.first_index is None,
            r.last_index is None,
            r.snapshot is None,
            r.entries is None,
            r.terms.items() == Seq::<(u64, u64)>::empty(),
    {
        StorageCache {
            initial_state: None,
            first_index: None,
            last_index: None,
            snapshot: None,
            entries: None,
            terms: TermCache::new(),
        }
    }

    /// Forgets everything, the entry cache included, so that the next read
    /// of entries goes to the storage.
    fn reset(&mut self)
        ensures
            final(self).initial_state is None,
            final(self).first_index is None,
            final(self).last_index is None,
            final(self).snapshot is None,
            final(self).entries is None,
            final(self).terms.items() == Seq::<(u64, u64)>::empty(),
    {
        self.initial_state = None;
        self.first_index = None;
        self.last_index = None;
        self.snapshot = None;
        self.entries = None;
        self.terms.clear();
    }
}

/// A storage with a cache in front of it.
pub struct CachedStorage<S: StorageExt> {
    storage: S,
    cache: StorageCache,
}

impl<S: StorageExt> CachedStorage<S> {
    /// The storage behind the cache.
    pub closed spec fn storage(&self) -> S {
        self.storage
    }

    /// Whether the entry cache is present: a read of entries has succeeded
    /// since the cache was made or last cleared by a write.
    pub closed spec fn entries_cached(&self) -> bool {
        self.cache.entries is Some
    }

    /// Whether nothing is cached.
    pub closed spec fn cache_is_clear(&self) -> bool {
        &&& self.cache.initial_state is None
        &&& self.cache.first_index is None
        &&& self.cache.last_index is None
        &&& self.cache.snapshot is None
        &&& self.cache.entries is None
        &&& self.cache.terms.items() == Seq::<(u64, u64)>::empty()
    }

    /// The cached initial state, where one is cached.
    pub closed spec fn cached_initial_state(&self) -> Option<RaftStateView> {
        match self.cache.initial_state {
            Some(s) => Some(s@),
            None => None,
        }
    }

    /// The cached first index, where one is cached.
    pub closed spec fn cached_first_index(&self) -> Option<u64> {
        self.cache.first_index
    }

    /// The cached last index, where one is cached.
    pub closed spec fn cached_last_index(&self) -> Option<u64> {
        self.cache.last_index
    }

    /// The cached snapshot, where one is cached.
    pub closed spec fn cached_snapshot(&self) -> Option<SnapshotView> {
        match self.cache.snapshot {
            Some(s) => Some(s@),
            None => None,
        }
    }

    /// The cached entries, most recently used first.
    pub closed spec fn cached_entries(&self) -> Seq<EntryView> {
        match self.cache.entries {
            Some(c) => c.items(),
            None => Seq::empty(),
        }
    }

    /// The cached (index, term) pairs, most recently used first.
    pub closed spec fn cached_terms(&self) -> Seq<(u64, u64)> {
        self.cache.terms.items()
    }

    /// Everything cached is what the storage gives.
    pub closed spec fn inv(&self) -> bool {
        &&& self.storage.wf()
        &&& self.cache.initial_state matches Some(s) ==> self.storage.spec_initial_state() == Ok::<_, StorageError>(s@)
        &&& self.cache.first_index matches Some(f) ==> self.storage.spec_first_index() == Ok::<u64, StorageError>(f)
        &&& self.cache.last_index matches Some(l) ==> self.storage.spec_last_index() == Ok::<u64, StorageError>(l)
        &&& self.cache.snapshot matches Some(s) ==> self.storage.spec_snapshot() == Ok::<_, StorageError>(s@)
        &&& self.cache.entries matches Some(c) ==> forall|x: EntryView| #[trigger] c.items().contains(x) ==> self.storage.spec_entry(x.index) == Some(x)
        &&& forall|p: (u64, u64)| #[trigger] self.cache.terms.items().contains(p) ==> self.storage.spec_term(p.0) == Ok::<u64, StorageError>(p.1)
    }

    /// A cache, empty, in front of `storage`.
    pub fn new(storage: S) -> (r: CachedStorage<S>)
        requires
            storage.wf(),
        ensures
            r.inv(),
            r.storage() == storage,
            r.cache_is_clear(),
            !r.entries_cached(),
    {
        CachedStorage { storage, cache: StorageCache::new() }
    }

    /// The hard state and membership to restart from.
    pub fn initial_state(&mut self) -> (r: Result<RaftState, StorageError>)
        requires
            old(self).inv(),
        ensures
            final(self).inv(),
            final(self).storage() == old(self).storage(),
            final(self).entries_cached() == old(self).entries_cached(),
            result_view(r) == old(self).storage().spec_initial_state(),
    {
        if let Some(initial_state) = &self.cache.initial_state {
            return Ok(initial_state.clone());
        }
        match self.storage.initial_state() {
            Ok(initial_state) => {
                self.cache.initial_state = Some(initial_state.clone());
                Ok(initial_state)
            },
            Err(e) => Err(e),
        }
    }

    /// The entries from `low` up to (not including) `high`. A non-empty
    /// range is what the storage gives; an empty or reversed range gives no
    /// entries once a read since the last write has succeeded, and otherwise
    /// what the storage gives.
    pub fn entries(&mut self, low: u64, high: u64, max_size: u64) -> (r: Result<Vec<Entry>, StorageError>)
        requires
            old(self).inv(),
        ensures
            final(self).inv(),
            final(self).storage() == old(self).storage(),
            low < high ==> entries_result_view(r) == old(self).storage().spec_entries(low, high, max_size),
            low >= high ==> entries_result_view(r) == if old(self).entries_cached() {
                Ok::<Seq<EntryView>, StorageError>(Seq::empty())
            } else {
                old(self).storage().spec_entries(low, high, max_size)
            },
            final(self).entries_cached() == (old(self).entries_cached() || r is Ok),
    {
        proof {
            self.storage.lemma_entries_agree(low, high, max_size);
        }
        if self.cache.entries.is_some() {
            let ghost st = self.storage;
            let ghost terms_items = self.cache.terms.items();
            let mut entries = match self.cache.entries.take() {
                Some(c) => c,
                None => {
                    assert(false);
                    EntryCache::new()
                },
            };
            let ghost items0 = entries.items();
            let r = match entries.range(low, high) {
                Some(range) => {
                    proof {
                        if low < high {
                            assert forall|i: u64| low <= i < high implies #[trigger] st.spec_entry(i) is Some by {
                                assert(has_entry(items0, i));
                                let k = choose|k: int| 0 <= k < items0.len() && #[trigger] items0[k].index == i;
                                assert(items0.contains(items0[k]));
                            }
                            assert(entries_view(range@) =~= Seq::new((high - low) as nat, |k: int| st.spec_entry((low + k) as u64)->0)) by {
                                assert forall|k: int| 0 <= k < range@.len() implies #[trigger] range@[k]@ == st.spec_entry((low + k) as u64)->0 by {
                                    assert(items0.contains(range@[k]@));
                                    assert(range@[k].index == low + k);
                                }
                            }
                        } else {
                            assert(entries_view(range@) =~= Seq::<EntryView>::empty());
                        }
                    }
                    let mut i: usize = 0;
                    while i < range.len()
                        invariant
                            i <= range@.len(),
                            forall|x: EntryView| #[trigger] entries.items().contains(x) ==> st.spec_entry(x.index) == Some(x),
                            forall|k: int| 0 <= k < range@.len() ==> st.spec_entry((#[trigger] range@[k]).index) == Some(range@[k]@),
                        decreases range.len() - i,
                    {
                        let ghost before = entries.items();
                        entries.insert(range[i].clone());
                        proof {
                            lemma_inserted(before, range@[i as int]@);
                        }
                        i = i + 1;
                    }
                    Ok(range)
                },
                None => {
                    proof {
                        if low < high {
                            assert(!(forall|i: u64| low <= i < high ==> #[trigger] has_entry(items0, i)));
                        }
                    }
                    self.storage.entries(low, high, max_size)
                },
            };
            self.cache.entries = Some(entries);
            assert(self.cache.terms.items() == terms_items);
            return r;
        }
        match self.storage.entries(low, high, max_size) {
            Ok(range) => {
                let mut entries = EntryCache::new();
                let ghost st = self.storage;
                proof {
                    if low < high {
                        assert forall|k: int| 0 <= k < range@.len() implies st.spec_entry((#[trigger] range@[k]).index) == Some(range@[k]@) by {
                            assert(entries_view(range@)[k] == range@[k]@);
                            st.lemma_entry_index((low + k) as u64);
                        }
                    } else {
                        assert(entries_view(range@).len() == 0);
                    }
                }
                let mut i: usize = 0;
                while i < range.len()
                    invariant
                        i <= range@.len(),
                        forall|x: EntryView| #[trigger] entries.items().contains(x) ==> st.spec_entry(x.index) == Some(x),
                        forall|k: int| 0 <= k < range@.len() ==> st.spec_entry((#[trigger] range@[k]).index) == Some(range@[k]@),
                    decreases range.len() - i,
                {
                    let ghost before = entries.items();
                    entries.insert(range[i].clone());
                    proof {
                        lemma_inserted(before, range@[i as int]@);
                    }
                    i = i + 1;
                }
                self.cache.entries = Some(entries);
                Ok(range)
            },
            Err(err) => Err(err),
        }
    }

    /// The term of the entry at `idx`, as the storage gives it.
    pub fn term(&mut self, idx: u64) -> (r: Result<u64, StorageError>)
        requires
            old(self).inv(),
        ensures
            final(self).inv(),
            final(self).storage() == old(self).storage(),
            final(self).entries_cached() == old(self).entries_cached(),
            r == old(self).storage().spec_term(idx),
    {
        let ghost before = self.cache.terms.items();
        if let Some(term) = self.cache.terms.get(idx) {
            assert(before.contains((idx, term)));
            return Ok(term);
        }
        match self.storage.term(idx) {
            Ok(term) => {
                let ghost mid = self.cache.terms.items();
                self.cache.terms.insert(idx, term);
                proof {
                    lemma_inserted(mid, (idx, term));
                }
                Ok(term)
            },
            Err(e) => Err(e),
        }
    }

    /// The index of the first entry still stored, as the storage gives it.
    pub fn first_index(&mut self) -> (r: Result<u64, StorageError>)
        requires
            old(self).inv(),
        ensures
            final(self).inv(),
            final(self).storage() == old(self).storage(),
            final(self).entries_cached() == old(self).entries_cached(),
            r == old(self).storage().spec_first_index(),
    {
        if let Some(first_index) = self.cache.first_index {
            return Ok(first_index);
        }
        match self.storage.first_index() {
            Ok(first_index) => {
                self.cache.first_index = Some(first_index);
                Ok(first_index)
            },
            Err(e) => Err(e),
        }
    }

    /// The index of the last entry stored, as the storage gives it.
    pub fn last_index(&mut self) -> (r: Result<u64, StorageError>)
        requires
            old(self).inv(),
        ensures
            final(self).inv(),
            final(self).storage() == old(self).storage(),
            final(self).entries_cached() == old(self).entries_cached(),
            r == old(self).storage().spec_last_index(),
    {
        if let Some(last_index) = self.cache.last_index {
            return Ok(last_index);
        }
        match self.storage.last_index() {
            Ok(last_index) => {
                self.cache.last_index = Some(last_index);
                Ok(last_index)
            },
            Err(e) => Err(e),
        }
    }

    /// The latest snapshot, as the storage gives it.
    pub fn snapshot(&mut self) -> (r: Result<Snapshot, StorageError>)
        requires
            old(self).inv(),
        ensures
            final(self).inv(),
            final(self).storage() == old(self).storage(),
            final(self).entries_cached() == old(self).entries_cached(),
            result_view(r) == old(self).storage().spec_snapshot(),
    {
        if let Some(snapshot) = &self.cache.snapshot {
            return Ok(snapshot.clone());
        }
        match self.storage.snapshot() {
            Ok(snapshot) => {
                self.cache.snapshot = Some(snapshot.clone());
                Ok(snapshot)
            },
            Err(e) => Err(e),
        }
    }

    /// The index of the last applied entry, read from the storage every
    /// time (it is read once, at startup).
    pub fn applied(&self) -> (r: Result<u64, StorageError>)
        requires
            self.inv(),
        ensures
            r == self.storage().spec_applied(),
    {
        self.storage.applied()
    }

    /// Saves the hard state, after clearing the cache.
    pub fn set_hardstate(&mut self, hard_state: &HardState)
        requires
            old(self).inv(),
        ensures
            final(self).inv(),
            final(self).cache_is_clear(),
            !final(self).entries_cached(),
            old(self).storage().after_set_hardstate(*hard_state, final(self).storage()),
    {
        self.cache.reset();
        self.storage.set_hardstate(hard_state);
    }

    /// Creates and applies a snapshot, after clearing the cache.
    pub fn create_snapshot(&mut self, index: u64, conf_state: Option<&ConfState>, data: Vec<u8>) -> (r: Result<Snapshot, StorageError>)
        requires
            old(self).inv(),
            old(self).storage().can_create_snapshot(index),
        ensures
            final(self).inv(),
            final(self).cache_is_clear(),
            !final(self).entries_cached(),
            old(self).storage().after_create_snapshot(index, opt_conf_ref_view(conf_state), data@, final(self).storage(), result_view(r)),
    {
        self.cache.reset();
        self.storage.create_snapshot(index, conf_state, data)
    }

    /// Applies a snapshot, after clearing the cache.
    pub fn apply_snapshot(&mut self, snapshot: &Snapshot) -> (r: Result<(), StorageError>)
        requires
            old(self).inv(),
            old(self).storage().can_apply_snapshot(snapshot@),
        ensures
            final(self).inv(),
            final(self).cache_is_clear(),
            !final(self).entries_cached(),
            old(self).storage().after_apply_snapshot(snapshot@, final(self).storage(), r),
    {
        self.cache.reset();
        self.storage.apply_snapshot(snapshot)
    }

    /// Discards the entries up to and including `compact_index`, after
    /// clearing the cache.
    pub fn compact(&mut self, compact_index: u64) -> (r: Result<(), StorageError>)
        requires
            old(self).inv(),
            old(self).storage().can_compact(compact_index),
        ensures
            final(self).inv(),
            final(self).cache_is_clear(),
            !final(self).entries_cached(),
            old(self).storage().after_compact(compact_index, final(self).storage(), r),
    {
        self.cache.reset();
        self.storage.compact(compact_index)
    }

    /// Appends entries, after clearing the cache.
    pub fn append(&mut self, entries: &[Entry]) -> (r: Result<(), StorageError>)
        requires
            old(self).inv(),
        ensures
            final(self).inv(),
            final(self).cache_is_clear(),
            !final(self).entries_cached(),
            old(self).storage().after_append(entries_view(entries@), final(self).storage(), r),
    {
        self.cache.reset();
        self.storage.append(entries)
    }

    /// Saves the index of the last applied entry; nothing cached depends on
    /// it.
    pub fn set_applied(&mut self, applied: u64) -> (r: Result<(), StorageError>)
        requires
            old(self).inv(),
        ensures
            final(self).inv(),
            final(self).entries_cached() == old(self).entries_cached(),
            old(self).storage().after_set_applied(applied, final(self).storage(), r),
    {
        self.storage.set_applied(applied)
    }

    /// A description of the cached storage, for the logs.
    pub fn describe() -> (r: String)
        ensures
            r@ == "cached storage: "@ + S::spec_description(),
    {
        let mut r = "cached storage: ".to_owned();
        let inner = S::describe();
        r.append(inner.as_str());
        r
    }
}

/// The cache is coherent with its storage: every value it holds is what the
/// storage gives for the same read. The cache's invariant, which this
/// states, holds of a new cached storage and is kept by every read and
/// write, each write going to the storage as the storage's own write does;
/// so along any sequence of calls a cached read gives what the storage
/// alone, given the same writes, would give.
pub proof fn lemma_cache_coherent<S: StorageExt>(c: &CachedStorage<S>)
    requires
        c.inv(),
    ensures
        c.storage().wf(),
        c.cached_initial_state() matches Some(st) ==> c.storage().spec_initial_state() == Ok::<RaftStateView, StorageError>(st),
        c.cached_first_index() matches Some(f) ==> c.storage().spec_first_index() == Ok::<u64, StorageError>(f),
        c.cached_last_index() matches Some(l) ==> c.storage().spec_last_index() == Ok::<u64, StorageError>(l),
        c.cached_snapshot() matches Some(sn) ==> c.storage().spec_snapshot() == Ok::<SnapshotView, StorageError>(sn),
        forall|e: EntryView| #[trigger] c.cached_entries().contains(e) ==> c.storage().spec_entry(e.index) == Some(e),
        forall|p: (u64, u64)| #[trigger] c.cached_terms().contains(p) ==> c.storage().spec_term(p.0) == Ok::<u64, StorageError>(p.1),
{
}

impl CachedStorage<FsStorage> {
    /// Takes the file writes the storage recorded so far.
    pub fn take_file_ops(&mut self) -> (ops: Vec<FileOp>)
        requires
            old(self).inv(),
        ensures
            final(self).inv(),
            final(self).storage().state() == old(self).storage().state(),
            final(self).entries_cached() == old(self).entries_cached(),
            ops_view(ops@) == old(self).storage().pending(),
            final(self).storage().pending() == Seq::<FileOpView>::empty(),
    {
        self.storage.take_file_ops()
    }
}

} // verus!
