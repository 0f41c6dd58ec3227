use crate::cache::{has_key, lemma_after_get, lemma_after_pop, lemma_after_put, value_of, LruMemoryCache};
use crate::error::Error;
use crate::storage::{
    kv_view, lookup, opt_view, same_space, scan_result, store_delete, store_put, ColumnFamilies,
    Spaces, StorageBackend,
};
use vstd::prelude::*;
use vstd::slice::slice_to_vec;

verus! {

/// Every cached pair is what the default namespace holds.
pub open spec fn kv_coherent(entries: Seq<(Seq<u8>, Seq<u8>)>, s: Spaces) -> bool {
    forall|p: (Seq<u8>, Seq<u8>)|
        #[trigger] entries.contains(p) ==> lookup(s, ColumnFamilies::DEFAULT@, p.0) == Some(p.1)
}

/// Raw key-value pairs in the default namespace, read through a cache and
/// written through to the store first.
pub struct KvStore {
    cache: LruMemoryCache<Vec<u8>, Vec<u8>>,
}

impl KvStore {
    /// The cache agrees with the store contents `s`.
    pub closed spec fn coherent(&self, s: Spaces) -> bool {
        self.cache.wf() && kv_coherent(self.cache.entries(), s)
    }

    /// The cached pairs, least recently used first.
    pub closed spec fn cached(&self) -> Seq<(Seq<u8>, Seq<u8>)> {
        self.cache.entries()
    }

    /// The cache agrees with any store that agrees on the default namespace.
    pub proof fn lemma_transfer(&self, s1: Spaces, s2: Spaces)
        requires
            self.coherent(s1),
            same_space(s1, s2, ColumnFamilies::DEFAULT@),
        ensures
            self.coherent(s2),
    {
        assert forall|p: (Seq<u8>, Seq<u8>)| #[trigger] self.cache.entries().contains(p) implies lookup(
            s2,
            ColumnFamilies::DEFAULT@,
            p.0,
        ) == Some(p.1) by {
            assert(lookup(s1, ColumnFamilies::DEFAULT@, p.0) == lookup(s2, ColumnFamilies::DEFAULT@, p.0));
        }
    }

    /// A store whose cache holds up to `cache_capacity` pairs.
    pub fn new(cache_capacity: usize) -> (r: KvStore)
        ensures
            forall|s: Spaces| r.coherent(s),
    {
        KvStore { cache: LruMemoryCache::<Vec<u8>, Vec<u8>>::new(cache_capacity) }
    }

    /// The value under `key`: from the cache, or else from the store, which
    /// then fills the cache.
    pub fn get<S: StorageBackend>(&mut self, storage: &S, key: &[u8]) -> (r: Result<
        Option<Vec<u8>>,
        Error,
    >)
        requires
            old(self).coherent(storage.spaces()),
            storage.well_formed(),
        ensures
            final(self).coherent(storage.spaces()),
            r matches Ok(v) ==> opt_view(v) == lookup(storage.spaces(), ColumnFamilies::DEFAULT@, key@),
            has_key(old(self).cached(), key@) ==> (r matches Ok(Some(v)) && v@ == value_of(
                old(self).cached(),
                key@,
            )),
            r matches Err(e) ==> e is Storage,
            !storage.spaces().contains_key(ColumnFamilies::DEFAULT@) && !has_key(old(self).cached(), key@)
                ==> r is Err,
    {
        let ghost s = storage.spaces();
        let k = slice_to_vec(key);
        let ghost before = self.cache.entries();
        proof {
            lemma_after_get(before, key@, self.cache.bound());
        }
        match self.cache.get_cloned(&k) {
            Some(v) => {
                proof {
                    assert(before.contains((key@, value_of(before, key@))));
                }
                Ok(Some(v))
            },
            None => {
                let found = storage.get(ColumnFamilies::DEFAULT, key)?;
                match found {
                    Some(v) => {
                        self.insert_cached(k, slice_to_vec(v.as_slice()), Ghost(s));
                        Ok(Some(v))
                    },
                    None => Ok(None),
                }
            },
        }
    }

    /// Caches a pair that the store holds.
    fn insert_cached(&mut self, k: Vec<u8>, v: Vec<u8>, Ghost(s): Ghost<Spaces>)
        requires
            old(self).coherent(s),
            lookup(s, ColumnFamilies::DEFAULT@, k@) == Some(v@),
        ensures
            final(self).coherent(s),
    {
        let ghost before = self.cache.entries();
        let ghost cap = self.cache.bound();
        proof {
            lemma_after_put(before, k@, v@, cap);
        }
        self.cache.insert(k, v);
        proof {
            let after = self.cache.entries();
            assert forall|p: (Seq<u8>, Seq<u8>)| #[trigger] after.contains(p) implies lookup(
                s,
                ColumnFamilies::DEFAULT@,
                p.0,
            ) == Some(p.1) by {
                let j = choose|j: int| 0 <= j < after.len() && after[j] == p;
                assert(after[j] == (k@, v@) || before.contains(after[j]));
            }
        }
    }

    /// Empties the cache, which then agrees with any contents of the store.
    pub(crate) fn clear_cache(&mut self, Ghost(s): Ghost<Spaces>)
        requires
            old(self).coherent(s),
        ensures
            forall|s: Spaces| final(self).coherent(s),
    {
        self.cache.clear();
    }

    /// Writes the pair to the store, then to the cache.
    pub fn put<S: StorageBackend>(&mut self, storage: &mut S, key: &[u8], value: &[u8]) -> (r:
        Result<(), Error>)
        requires
            old(self).coherent(old(storage).spaces()),
            old(storage).well_formed(),
        ensures
            final(self).coherent(final(storage).spaces()),
            final(storage).well_formed(),
            r is Ok ==> final(storage).spaces() == store_put(
                old(storage).spaces(),
                ColumnFamilies::DEFAULT@,
                key@,
                value@,
            ),
            r is Err ==> final(storage).spaces() == old(storage).spaces() && final(self).cached()
                == old(self).cached(),
            r matches Err(e) ==> e is Storage,
            !old(storage).spaces().contains_key(ColumnFamilies::DEFAULT@) ==> r is Err,
    {
        storage.put(ColumnFamilies::DEFAULT, key, value)?;
        let ghost s = storage.spaces();
        let ghost before = self.cache.entries();
        let ghost cap = self.cache.bound();
        let k = slice_to_vec(key);
        let v = slice_to_vec(value);
        proof {
            lemma_after_put(before, key@, value@, cap);
        }
        self.cache.insert(k, v);
        proof {
            let after = self.cache.entries();
            assert forall|p: (Seq<u8>, Seq<u8>)| #[trigger] after.contains(p) implies lookup(
                s,
                ColumnFamilies::DEFAULT@,
                p.0,
            ) == Some(p.1) by {
                let j = choose|j: int| 0 <= j < after.len() && after[j] == p;
                if p.0 == key@ {
                    let q = choose|q: int| 0 <= q < after.len() && after[q].0 == key@;
                    assert(after[q].1 == value@);
                    assert(j == q);
                } else {
                    assert(after[j] == (key@, value@) || before.contains(after[j]));
                }
            }
        }
        Ok(())
    }

    /// Removes the key from the store, then from the cache.
    pub fn delete<S: StorageBackend>(&mut self, storage: &mut S, key: &[u8]) -> (r: Result<
        (),
        Error,
    >)
        requires
            old(self).coherent(old(storage).spaces()),
            old(storage).well_formed(),
        ensures
            final(self).coherent(final(storage).spaces()),
            final(storage).well_formed(),
            r is Ok ==> final(storage).spaces() == store_delete(
                old(storage).spaces(),
                ColumnFamilies::DEFAULT@,
                key@,
            ),
            r is Err ==> final(storage).spaces() == old(storage).spaces() && final(self).cached()
                == old(self).cached(),
            r matches Err(e) ==> e is Storage,
            !old(storage).spaces().contains_key(ColumnFamilies::DEFAULT@) ==> r is Err,
    {
        storage.delete(ColumnFamilies::DEFAULT, key)?;
        let ghost s = storage.spaces();
        let ghost before = self.cache.entries();
        let k = slice_to_vec(key);
        proof {
            lemma_after_pop(before, key@, self.cache.bound());
        }
        self.cache.invalidate(&k);
        proof {
            let after = self.cache.entries();
            assert forall|p: (Seq<u8>, Seq<u8>)| #[trigger] after.contains(p) implies lookup(
                s,
                ColumnFamilies::DEFAULT@,
                p.0,
            ) == Some(p.1) by {
                let j = choose|j: int| 0 <= j < after.len() && after[j] == p;
                assert(before.contains(after[j]));
                assert(p.0 != key@);
            }
        }
        Ok(())
    }

    /// Whether a value is stored under `key`.
    pub fn contains_key<S: StorageBackend>(&mut self, storage: &S, key: &[u8]) -> (r: Result<bool, Error>)
        requires
            old(self).coherent(storage.spaces()),
            storage.well_formed(),
        ensures
            final(self).coherent(storage.spaces()),
            r matches Ok(b) ==> b == lookup(storage.spaces(), ColumnFamilies::DEFAULT@, key@) is Some,
            r matches Err(e) ==> e is Storage,
    {
        let v = self.get(storage, key)?;
        Ok(v.is_some())
    }

    /// Every pair whose key starts with `prefix`, read from the store itself.
    pub fn scan_prefix<S: StorageBackend>(&self, storage: &S, prefix: &[u8]) -> (r: Result<
        Vec<(Vec<u8>, Vec<u8>)>,
        Error,
    >)
        requires
            storage.well_formed(),
        ensures
            r matches Ok(v) ==> storage.spaces().contains_key(ColumnFamilies::DEFAULT@)
                && scan_result(kv_view(v@), storage.spaces()[ColumnFamilies::DEFAULT@], prefix@),
            !storage.spaces().contains_key(ColumnFamilies::DEFAULT@) ==> r is Err,
            r matches Err(e) ==> e is Storage,
    {
        storage.scan_prefix(ColumnFamilies::DEFAULT, prefix)
    }
}

/// After a write of `value` under `key`, a read of `key` gives `value`; after
/// the key is removed, a read gives nothing. A read sees the store whatever
/// the cache holds, so this holds whether or not the key was cached.
pub proof fn lemma_read_after_write(s: Spaces, key: Seq<u8>, value: Seq<u8>)
    requires
        s.contains_key(ColumnFamilies::DEFAULT@),
    ensures
        lookup(store_put(s, ColumnFamilies::DEFAULT@, key, value), ColumnFamilies::DEFAULT@, key)
            == Some(value),
        lookup(store_delete(s, ColumnFamilies::DEFAULT@, key), ColumnFamilies::DEFAULT@, key) is None,
{
}

} // verus!
