//! The transposition cache: a bounded map from position hashes to scores
//! found earlier, evicting the least recently used entry when full.
//!
//! The map itself is an `lru::LruCache` hashed with SeaHash. Its contents are
//! named by `lru_entries`; the trusted wrappers below say what each operation
//! does to them.
use vstd::prelude::*;
use crate::position::{hash_of, Position};
use lru::LruCache;
use seahash::SeaHasher;
use std::hash::BuildHasherDefault;

verus! {

#[verifier::external_type_specification]
#[verifier::external_body]
#[verifier::reject_recursive_types(K)]
#[verifier::reject_recursive_types(V)]
#[verifier::reject_recursive_types(S)]
pub struct ExLruCache<K, V, S>(LruCache<K, V, S>);

#[verifier::external_type_specification]
#[verifier::external_body]
pub struct ExSeaHasher(SeaHasher);

#[verifier::external_type_specification]
#[verifier::external_body]
#[verifier::reject_recursive_types(H)]
pub struct ExBuildHasherDefault<H>(BuildHasherDefault<H>);

/// The hash of a position, as the cache and the repetition guard key it.
#[derive(Clone, Copy, Debug, PartialEq, Eq, Hash, Structural)]
pub struct BoardHash(pub u64);

impl BoardHash {
    pub fn new(position: &Position) -> (r: BoardHash)
        ensures
            r.0 == hash_of(position@),
    {
        BoardHash(position.hash())
    }
}

/// A score together with the window it was found in: exact, or only a bound
/// because the search was cut off.
#[derive(Clone, Copy, Debug, PartialEq, Eq, Structural)]
pub enum BoundedScore {
    LowerBound(i16),
    UpperBound(i16),
    Exact(i16),
}

/// A cached score: the position it belongs to, the depth it was searched to
/// and the evaluation noise seed it was searched with (`None` for none). The
/// position is kept so that an entry is never taken for another position that
/// happens to share its hash.
#[derive(Clone, Copy)]
pub struct TranspositionItem {
    pub score: BoundedScore,
    pub depth: u8,
    pub position: Position,
    pub noise: Option<u64>,
}

pub open spec fn no_entries() -> Map<u64, TranspositionItem> {
    Map::empty()
}

/// The entries of an LRU cache, by key.
pub uninterp spec fn lru_entries(c: LruCache<u64, TranspositionItem, BuildHasherDefault<SeaHasher>>) -> Map<u64, TranspositionItem>;

/// The number of entries an LRU cache holds at most.
pub uninterp spec fn lru_capacity(c: LruCache<u64, TranspositionItem, BuildHasherDefault<SeaHasher>>) -> nat;

/// Relies on `lru::LruCache::with_hasher`: a new cache is empty and keeps the
/// capacity it was made with.
#[verifier::external_body]
fn lru_with_capacity(capacity: usize) -> (r: LruCache<u64, TranspositionItem, BuildHasherDefault<SeaHasher>>)
    ensures
        lru_entries(r) == no_entries(),
        lru_capacity(r) == capacity,
{
    LruCache::with_hasher(capacity, BuildHasherDefault::<SeaHasher>::default())
}

/// Relies on `lru::LruCache::get`: the entry under the key, if there is one;
/// only the order of recency changes.
#[verifier::external_body]
fn lru_get(c: &mut LruCache<u64, TranspositionItem, BuildHasherDefault<SeaHasher>>, key: u64) -> (r: Option<TranspositionItem>)
    ensures
        lru_entries(*final(c)) == lru_entries(*old(c)),
        lru_capacity(*final(c)) == lru_capacity(*old(c)),
        r.is_some() == lru_entries(*old(c)).contains_key(key),
        r.is_some() ==> r.unwrap() == lru_entries(*old(c))[key],
{
    c.get(&key).copied()
}

/// Relies on `lru::LruCache::put`: unless the capacity is zero, the entry is
/// stored under the key. Only a full cache that lacks the key evicts, and then
/// just its least recently used other entry, so the cache never outgrows its
/// capacity. Nothing else changes.
#[verifier::external_body]
fn lru_put(c: &mut LruCache<u64, TranspositionItem, BuildHasherDefault<SeaHasher>>, key: u64, item: TranspositionItem)
    ensures
        lru_entries(*final(c)).submap_of(lru_entries(*old(c)).insert(key, item)),
        lru_capacity(*final(c)) == lru_capacity(*old(c)),
        lru_capacity(*old(c)) > 0 ==> lru_entries(*final(c)).contains_key(key),
        lru_capacity(*old(c)) > 0 ==> lru_entries(*final(c))[key] == item,
        lru_entries(*old(c)).contains_key(key) ==> lru_entries(*final(c)) == lru_entries(*old(c)).insert(
            key,
            item,
        ),
        lru_entries(*old(c)).dom().finite() && lru_entries(*old(c)).len() < lru_capacity(*old(c))
            ==> lru_entries(*final(c)) == lru_entries(*old(c)).insert(key, item),
        lru_entries(*old(c)).dom().finite() ==> lru_entries(*final(c)).dom().finite(),
        lru_entries(*old(c)).dom().finite() ==> lru_entries(*final(c)).len() + 1 >= lru_entries(
            *old(c),
        ).insert(key, item).len(),
        lru_entries(*old(c)).dom().finite() && lru_entries(*old(c)).len() <= lru_capacity(*old(c))
            ==> lru_entries(*final(c)).len() <= lru_capacity(*final(c)),
{
    c.put(key, item);
}

/// Relies on `lru::LruCache::clear`: no entry is left; the capacity stays.
#[verifier::external_body]
fn lru_clear(c: &mut LruCache<u64, TranspositionItem, BuildHasherDefault<SeaHasher>>)
    ensures
        lru_entries(*final(c)) == no_entries(),
        lru_capacity(*final(c)) == lru_capacity(*old(c)),
{
    c.clear();
}

/// A bounded cache of scores keyed by position hash.
pub struct TranspositionCache {
    map: LruCache<u64, TranspositionItem, BuildHasherDefault<SeaHasher>>,
}

impl TranspositionCache {
    /// The cached entries, by position hash.
    pub closed spec fn entries(&self) -> Map<u64, TranspositionItem> {
        lru_entries(self.map)
    }

    /// The number of entries the cache holds at most.
    pub closed spec fn capacity(&self) -> nat {
        lru_capacity(self.map)
    }

    /// The cache holds finitely many entries, no more than its capacity.
    pub open spec fn within_capacity(&self) -> bool {
        self.entries().dom().finite() && self.entries().len() <= self.capacity()
    }

    /// An empty cache that holds at most `capacity` entries.
    pub fn new(capacity: usize) -> (r: TranspositionCache)
        ensures
            r.entries() == no_entries(),
            r.capacity() == capacity,
            r.within_capacity(),
    {
        let r = TranspositionCache { map: lru_with_capacity(capacity) };
        assert(r.entries().dom() =~= Set::<u64>::empty());
        r
    }

    /// Forgets every entry, as when a new game starts.
    pub fn clear(&mut self)
        ensures
            final(self).entries() == no_entries(),
            final(self).capacity() == old(self).capacity(),
            final(self).within_capacity(),
    {
        lru_clear(&mut self.map);
        assert(self.entries().dom() =~= Set::<u64>::empty());
    }

    /// The entry cached under a hash, if any.
    pub fn get(&mut self, hash: BoardHash) -> (r: Option<TranspositionItem>)
        ensures
            final(self).entries() == old(self).entries(),
            final(self).capacity() == old(self).capacity(),
            r.is_some() == old(self).entries().contains_key(hash.0),
            r.is_some() ==> r.unwrap() == old(self).entries()[hash.0],
    {
        lru_get(&mut self.map, hash.0)
    }

    /// Caches an entry under a hash (unless the capacity is zero). Only when
    /// the cache is full and lacks the hash is an entry evicted: the least
    /// recently used other one. Nothing else changes.
    pub fn put(&mut self, hash: BoardHash, item: TranspositionItem)
        ensures
            final(self).entries().submap_of(old(self).entries().insert(hash.0, item)),
            final(self).capacity() == old(self).capacity(),
            old(self).capacity() > 0 ==> final(self).entries().contains_key(hash.0),
            old(self).capacity() > 0 ==> final(self).entries()[hash.0] == item,
            old(self).entries().contains_key(hash.0) ==> final(self).entries() == old(
                self,
            ).entries().insert(hash.0, item),
            old(self).entries().dom().finite() && old(self).entries().len() < old(self).capacity()
                ==> final(self).entries() == old(self).entries().insert(hash.0, item),
            old(self).within_capacity() ==> final(self).within_capacity(),
            old(self).within_capacity() ==> final(self).entries().len() + 1 >= old(
                self,
            ).entries().insert(hash.0, item).len(),
    {
        lru_put(&mut self.map, hash.0, item);
    }
}

} // verus!
