use crate::sequences::{first_with_key, first_with_key_found};
use lru::LruCache;
use vstd::prelude::*;

verus! {

/// How many entries the token cache keeps.
pub const CACHE_CAPACITY: usize = 1000;

/// What the cache remembers of one file.
#[derive(Debug)]
pub struct CacheEntry {
    pub path: String,
    pub modified: u64,
    pub token_count: usize,
}

/// The mathematical value of a [`CacheEntry`]: the path, then the modification
/// time and the token count.
pub type EntryModel = (Seq<char>, (u64, usize));

impl View for CacheEntry {
    type V = EntryModel;

    open spec fn view(&self) -> EntryModel {
        (self.path@, (self.modified, self.token_count))
    }
}

/// The models of a sequence of entries, in order.
pub open spec fn entry_models(entries: Seq<CacheEntry>) -> Seq<EntryModel> {
    Seq::new(entries.len(), |i: int| entries[i]@)
}

/// `lru::LruCache`, whose inside is not looked into.
#[verifier::external_type_specification]
#[verifier::external_body]
#[verifier::reject_recursive_types(K)]
#[verifier::reject_recursive_types(V)]
#[verifier::reject_recursive_types(S)]
pub struct ExLruCache<K, V, S>(LruCache<K, V, S>);

/// `lru::DefaultHasher`, the hasher of an `LruCache` made by `LruCache::new`.
#[verifier::external_type_specification]
#[verifier::external_body]
pub struct ExLruHasher(lru::DefaultHasher);

/// What an LRU cache holds: its entries, the most recently used first.
pub uninterp spec fn lru_entries(cache: LruCache<String, (u64, usize)>) -> Seq<EntryModel>;

/// The number of entries that an LRU cache was made to hold at most.
pub uninterp spec fn lru_capacity(cache: LruCache<String, (u64, usize)>) -> nat;

/// The entries after `key` was used: its entry has moved to the front.
pub open spec fn promoted(entries: Seq<EntryModel>, key: Seq<char>) -> Seq<EntryModel> {
    match first_with_key(entries, key) {
        Some(i) => seq![entries[i]] + entries.remove(i),
        None => entries,
    }
}

/// The entries after `key` was given `value`: the entry stands at the front; an
/// older entry of that key is gone; where the key is new and the cache was full,
/// the least recently used entry is gone.
pub open spec fn put_front(
    entries: Seq<EntryModel>,
    capacity: nat,
    key: Seq<char>,
    value: (u64, usize),
) -> Seq<EntryModel> {
    match first_with_key(entries, key) {
        Some(i) => seq![(key, value)] + entries.remove(i),
        None => if entries.len() == capacity {
            seq![(key, value)] + entries.drop_last()
        } else {
            seq![(key, value)] + entries
        },
    }
}

/// The value stored under `key`, if any.
pub open spec fn stored_value(entries: Seq<EntryModel>, key: Seq<char>) -> Option<(u64, usize)> {
    match first_with_key(entries, key) {
        Some(i) => Some(entries[i].1),
        None => None,
    }
}

/// `LruCache::new`, with the capacity as a plain number. Trusted: the new cache
/// is empty and holds at most `capacity` entries.
#[verifier::external_body]
fn lru_new(capacity: usize) -> (cache: LruCache<String, (u64, usize)>)
    requires
        capacity > 0,
    ensures
        lru_entries(cache) == Seq::<EntryModel>::empty(),
        lru_capacity(cache) == capacity,
{
    LruCache::new(std::num::NonZeroUsize::new(capacity).unwrap())
}

/// `LruCache::put`. Trusted: the entries change as [`put_front`] says, and the
/// capacity stays.
#[verifier::external_body]
fn lru_put(cache: &mut LruCache<String, (u64, usize)>, key: String, value: (u64, usize))
    ensures
        lru_entries(*final(cache)) == put_front(
            lru_entries(*old(cache)),
            lru_capacity(*old(cache)),
            key@,
            value,
        ),
        lru_capacity(*final(cache)) == lru_capacity(*old(cache)),
    no_unwind
{
    cache.put(key, value);
}

/// `LruCache::get`. Trusted: it returns the value stored under the key, and
/// moves that entry to the front.
#[verifier::external_body]
fn lru_get(cache: &mut LruCache<String, (u64, usize)>, key: &str) -> (value: Option<(u64, usize)>)
    ensures
        value == stored_value(lru_entries(*old(cache)), key@),
        lru_entries(*final(cache)) == promoted(lru_entries(*old(cache)), key@),
        lru_capacity(*final(cache)) == lru_capacity(*old(cache)),
    no_unwind
{
    cache.get(key).copied()
}

/// `LruCache::clear`. Trusted: no entry is left, and the capacity stays.
#[verifier::external_body]
fn lru_clear(cache: &mut LruCache<String, (u64, usize)>)
    ensures
        lru_entries(*final(cache)) == Seq::<EntryModel>::empty(),
        lru_capacity(*final(cache)) == lru_capacity(*old(cache)),
    no_unwind
{
    cache.clear();
}

/// `LruCache::iter`, each entry copied out. Trusted: the entries come most
/// recently used first.
#[verifier::external_body]
fn lru_snapshot(cache: &LruCache<String, (u64, usize)>) -> (entries: Vec<CacheEntry>)
    ensures
        entry_models(entries@) == lru_entries(*cache),
{
    cache.iter().map(|(k, v)| CacheEntry { path: k.clone(), modified: v.0, token_count: v.1 }).collect()
}

/// No two entries have the same path.
pub open spec fn distinct_keys(entries: Seq<EntryModel>) -> bool {
    forall|i: int, j: int|
        0 <= i < j < entries.len() ==> (#[trigger] entries[i]).0 != (#[trigger] entries[j]).0
}

/// What holds of every cache: the paths are distinct, and there are at most as
/// many entries as the capacity, which is not zero.
pub open spec fn bounded(entries: Seq<EntryModel>, capacity: nat) -> bool {
    &&& distinct_keys(entries)
    &&& entries.len() <= capacity
    &&& capacity > 0
}

/// Using a key keeps the paths distinct and the number of entries.
pub proof fn promoted_keeps_shape(entries: Seq<EntryModel>, key: Seq<char>)
    requires
        distinct_keys(entries),
    ensures
        distinct_keys(promoted(entries, key)),
        promoted(entries, key).len() == entries.len(),
{
    first_with_key_found(entries, key);
    match first_with_key(entries, key) {
        Some(i) => {
            let after = promoted(entries, key);
            assert forall|a: int, b: int| 0 <= a < b < after.len() implies (#[trigger] after[a]).0
                != (#[trigger] after[b]).0 by {
                let origin_b = if b - 1 < i { b - 1 } else { b };
                assert(after[b] == entries[origin_b]);
                if a == 0 {
                    assert(after[a] == entries[i]);
                } else {
                    let origin_a = if a - 1 < i { a - 1 } else { a };
                    assert(after[a] == entries[origin_a]);
                }
            }
        },
        None => {},
    }
}

/// Storing a value keeps the paths distinct and the entries within the capacity.
pub proof fn put_front_keeps_shape(
    entries: Seq<EntryModel>,
    capacity: nat,
    key: Seq<char>,
    value: (u64, usize),
)
    requires
        distinct_keys(entries),
        entries.len() <= capacity,
        capacity > 0,
    ensures
        distinct_keys(put_front(entries, capacity, key, value)),
        put_front(entries, capacity, key, value).len() <= capacity,
{
    first_with_key_found(entries, key);
    let after = put_front(entries, capacity, key, value);
    match first_with_key(entries, key) {
        Some(i) => {
            assert forall|a: int, b: int| 0 <= a < b < after.len() implies (#[trigger] after[a]).0
                != (#[trigger] after[b]).0 by {
                let origin_b = if b - 1 < i { b - 1 } else { b };
                assert(after[b] == entries[origin_b]);
                if a > 0 {
                    let origin_a = if a - 1 < i { a - 1 } else { a };
                    assert(after[a] == entries[origin_a]);
                }
            }
        },
        None => {
            assert forall|a: int, b: int| 0 <= a < b < after.len() implies (#[trigger] after[a]).0
                != (#[trigger] after[b]).0 by {
                assert(after[b] == entries[b - 1]);
                if a > 0 {
                    assert(after[a] == entries[a - 1]);
                }
            }
        },
    }
}

/// The token counts of files, each remembered with the modification time at
/// which it was computed; bounded, the least recently used entry leaving first.
pub struct TokenCache {
    store: LruCache<String, (u64, usize)>,
}

impl TokenCache {
    #[verifier::type_invariant]
    spec fn well_formed(self) -> bool {
        bounded(lru_entries(self.store), lru_capacity(self.store))
    }

    /// The entries, the most recently used first.
    pub closed spec fn entries(self) -> Seq<EntryModel> {
        lru_entries(self.store)
    }

    /// The largest number of entries that the cache keeps.
    pub closed spec fn capacity(self) -> nat {
        lru_capacity(self.store)
    }

    /// An empty cache of [`CACHE_CAPACITY`] entries.
    pub fn new() -> (cache: TokenCache)
        ensures
            cache.entries() == Seq::<EntryModel>::empty(),
            cache.capacity() == CACHE_CAPACITY,
    {
        TokenCache { store: lru_new(CACHE_CAPACITY) }
    }

    /// An empty cache of `capacity` entries; none for a capacity of zero.
    pub fn with_capacity(capacity: usize) -> (cache: Option<TokenCache>)
        ensures
            capacity == 0 <==> cache is None,
            cache matches Some(c) ==> c.entries() == Seq::<EntryModel>::empty() && c.capacity()
                == capacity,
    {
        if capacity == 0 {
            None
        } else {
            Some(TokenCache { store: lru_new(capacity) })
        }
    }
}

/// The count that may be used for a file whose modification time is now
/// `modified`: the stored one, if it was computed at that very time.
pub open spec fn fresh_count(entries: Seq<EntryModel>, path: Seq<char>, modified: u64) -> Option<usize> {
    match stored_value(entries, path) {
        Some(value) => if value.0 == modified {
            Some(value.1)
        } else {
            None
        },
        None => None,
    }
}

/// Looks up the count of `path`. A count is returned only if it was stored with
/// the modification time `current_modified_secs`; a stale entry gives none. The
/// entry of `path`, stale or not, becomes the most recently used.
pub fn check_cache(path: &str, current_modified_secs: u64, cache: &mut TokenCache) -> (count: Option<usize>)
    ensures
        count == fresh_count(old(cache).entries(), path@, current_modified_secs),
        final(cache).entries() == promoted(old(cache).entries(), path@),
        final(cache).capacity() == old(cache).capacity(),
        bounded(final(cache).entries(), final(cache).capacity()),
{
    proof {
        use_type_invariant(&*cache);
        promoted_keeps_shape(lru_entries(cache.store), path@);
    }
    match lru_get(&mut cache.store, path) {
        Some(value) => if value.0 == current_modified_secs {
            Some(value.1)
        } else {
            None
        },
        None => None,
    }
}

/// Stores the count of `path` as computed at the modification time
/// `modified_secs`, in place of any older entry of that path.
pub fn update_cache(path: String, modified_secs: u64, token_count: usize, cache: &mut TokenCache)
    ensures
        final(cache).entries() == put_front(
            old(cache).entries(),
            old(cache).capacity(),
            path@,
            (modified_secs, token_count),
        ),
        final(cache).capacity() == old(cache).capacity(),
        bounded(final(cache).entries(), final(cache).capacity()),
{
    proof {
        use_type_invariant(&*cache);
        put_front_keeps_shape(
            lru_entries(cache.store),
            lru_capacity(cache.store),
            path@,
            (modified_secs, token_count),
        );
    }
    lru_put(&mut cache.store, path, (modified_secs, token_count));
}

/// Forgets every entry.
pub fn clear_cache_internal(cache: &mut TokenCache)
    ensures
        final(cache).entries() == Seq::<EntryModel>::empty(),
        final(cache).capacity() == old(cache).capacity(),
{
    proof {
        use_type_invariant(&*cache);
    }
    lru_clear(&mut cache.store);
}

/// What the durable store gave back for the cache's record.
#[derive(Debug)]
pub enum StoredCache {
    /// The store could not be opened.
    Unavailable,
    /// The store holds no record of the cache.
    Missing,
    /// The store holds a record that cannot be read as a cache.
    Corrupt,
    /// The entries of the record, in the order in which they are to be stored.
    Entries(Vec<CacheEntry>),
}

/// The cache that results from storing `entries` one after the other in an
/// empty cache of this capacity.
pub open spec fn refilled(entries: Seq<EntryModel>, capacity: nat) -> Seq<EntryModel>
    decreases entries.len(),
{
    if entries.len() == 0 {
        Seq::empty()
    } else {
        put_front(
            refilled(entries.drop_last(), capacity),
            capacity,
            entries.last().0,
            entries.last().1,
        )
    }
}

/// The entries with which the cache starts, given what the store gave back.
pub open spec fn loaded_entries(stored: StoredCache) -> Seq<EntryModel> {
    match stored {
        StoredCache::Entries(list) => refilled(entry_models(list@), CACHE_CAPACITY as nat),
        _ => Seq::empty(),
    }
}

/// Builds the cache at startup from what the durable store gave back. A store
/// that is unavailable, empty or corrupt gives an empty cache; the flag tells
/// whether the stored record is corrupt and has to be deleted.
pub fn load_cache(stored: StoredCache) -> (loaded: (TokenCache, bool))
    ensures
        loaded.0.entries() == loaded_entries(stored),
        loaded.0.capacity() == CACHE_CAPACITY,
        loaded.1 == (stored is Corrupt),
{
    let mut cache = TokenCache::new();
    match stored {
        StoredCache::Entries(list) => {
            let mut i: usize = 0;
            while i < list.len()
                invariant
                    i <= list.len(),
                    cache.capacity() == CACHE_CAPACITY,
                    cache.entries() == refilled(
                        entry_models(list@).take(i as int),
                        CACHE_CAPACITY as nat,
                    ),
                decreases list.len() - i,
            {
                let entry = &list[i];
                proof {
                    let models = entry_models(list@);
                    assert(models.take(i + 1).drop_last() =~= models.take(i as int));
                    assert(models.take(i + 1).last() == entry@);
                }
                update_cache(entry.path.clone(), entry.modified, entry.token_count, &mut cache);
                i += 1;
            }
            proof {
                let models = entry_models(list@);
                assert(models.take(list.len() as int) =~= models);
            }
            (cache, false)
        },
        StoredCache::Corrupt => (cache, true),
        StoredCache::Missing => (cache, false),
        StoredCache::Unavailable => (cache, false),
    }
}

/// The entries to persist: all of them, the most recently used first.
pub fn save_cache(cache: &TokenCache) -> (entries: Vec<CacheEntry>)
    ensures
        entry_models(entries@) == cache.entries(),
{
    lru_snapshot(&cache.store)
}

} // verus!
