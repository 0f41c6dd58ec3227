use crate::cache::{has_key, lemma_after_get, lemma_after_pop, lemma_after_put, value_of, LruMemoryCache};
use crate::codec::{
    decode_memory, encode_memory, lemma_memory_round_trip, parse_memory, serialize_memory,
    string_from_utf8,
};
use crate::error::Error;
use crate::storage::{
    kv_view, lookup, same_space, scan_result, store_delete, store_put, ColumnFamilies, Spaces,
    StorageBackend,
};
use crate::types::{clamp_unit, clamp_unit_bits, Memory, MemoryModel};
use vstd::prelude::*;
use vstd::slice::slice_to_vec;
use vstd::string::StringSliceAdditionalSpecFns;
use vstd::utf8::{decode_utf8, encode_utf8, valid_utf8};

verus! {

/// The record stored under identifier `id`: `Some(None)` when there is none,
/// `None` when the stored bytes do not decode.
pub open spec fn record_at(s: Spaces, id: Seq<char>) -> Option<Option<MemoryModel>> {
    match lookup(s, ColumnFamilies::RECORDS@, encode_utf8(id)) {
        None => Some(None),
        Some(b) => match parse_memory(b) {
            Some(m) => Some(Some(m)),
            None => None,
        },
    }
}

/// The record with its importance clamped into [0, 1].
pub open spec fn clamped(m: MemoryModel) -> MemoryModel {
    MemoryModel { importance: clamp_unit(m.importance), ..m }
}

/// The view of an optional record.
pub open spec fn opt_record(o: Option<Memory>) -> Option<MemoryModel> {
    match o {
        Some(m) => Some(m@),
        None => None,
    }
}

/// Every cached record is what the records namespace holds.
pub open spec fn records_coherent(entries: Seq<(Seq<char>, MemoryModel)>, s: Spaces) -> bool {
    forall|p: (Seq<char>, MemoryModel)| #[trigger] entries.contains(p) ==> record_at(s, p.0) == Some(Some(p.1))
}

/// The identifiers among the keys of a scan: each key that is valid UTF-8,
/// decoded, in scan order.
pub open spec fn ids_of(scan: Seq<(Seq<u8>, Seq<u8>)>) -> Seq<Seq<char>>
    decreases scan.len(),
{
    if scan.len() == 0 {
        Seq::empty()
    } else if valid_utf8(scan.last().0) {
        ids_of(scan.drop_last()).push(decode_utf8(scan.last().0))
    } else {
        ids_of(scan.drop_last())
    }
}

/// The records that the values of a scan decode to, in scan order; `None`
/// when any of them does not decode.
pub open spec fn records_of(scan: Seq<(Seq<u8>, Seq<u8>)>) -> Option<Seq<MemoryModel>>
    decreases scan.len(),
{
    if scan.len() == 0 {
        Some(Seq::empty())
    } else {
        match (records_of(scan.drop_last()), parse_memory(scan.last().1)) {
            (Some(v), Some(m)) => Some(v.push(m)),
            _ => None,
        }
    }
}

/// Records in their own namespace, keyed by the UTF-8 bytes of their
/// identifier, read through a cache of decoded records.
pub struct RecordsManager {
    cache: LruMemoryCache<String, Memory>,
}

impl RecordsManager {
    /// The cache agrees with the store contents `s`.
    pub closed spec fn coherent(&self, s: Spaces) -> bool {
        self.cache.wf() && records_coherent(self.cache.entries(), s)
    }

    /// The cached records, least recently used first.
    pub closed spec fn cached(&self) -> Seq<(Seq<char>, MemoryModel)> {
        self.cache.entries()
    }

    /// The cache agrees with any store that agrees on the records namespace.
    pub proof fn lemma_transfer(&self, s1: Spaces, s2: Spaces)
        requires
            self.coherent(s1),
            same_space(s1, s2, ColumnFamilies::RECORDS@),
        ensures
            self.coherent(s2),
    {
        assert forall|p: (Seq<char>, MemoryModel)| #[trigger] self.cache.entries().contains(p) implies record_at(
            s2,
            p.0,
        ) == Some(Some(p.1)) by {
            assert(record_at(s1, p.0) == record_at(s2, p.0));
        }
    }

    /// A manager whose cache holds up to `cache_capacity` records.
    pub fn new(cache_capacity: usize) -> (r: RecordsManager)
        ensures
            forall|s: Spaces| r.coherent(s),
    {
        RecordsManager { cache: LruMemoryCache::<String, Memory>::new(cache_capacity) }
    }

    /// Empties the cache, which then agrees with any contents of the store.
    pub(crate) fn clear_cache(&mut self, Ghost(s): Ghost<Spaces>)
        requires
            old(self).coherent(s),
        ensures
            forall|t: Spaces| final(self).coherent(t),
    {
        self.cache.clear();
    }

    fn insert_cached(&mut self, key: String, m: &Memory, Ghost(s): Ghost<Spaces>)
        requires
            old(self).coherent(s),
            record_at(s, key@) == Some(Some(m@)),
        ensures
            final(self).coherent(s),
    {
        let ghost before = self.cache.entries();
        let ghost k = key@;
        proof {
            lemma_after_put(before, k, m@, self.cache.bound());
        }
        self.cache.insert(key, m.duplicate());
        proof {
            let after = self.cache.entries();
            assert forall|p: (Seq<char>, MemoryModel)| #[trigger] after.contains(p) implies record_at(
                s,
                p.0,
            ) == Some(Some(p.1)) by {
                let j = choose|j: int| 0 <= j < after.len() && after[j] == p;
                if p.0 == k {
                    let q = choose|q: int| 0 <= q < after.len() && after[q].0 == k;
                    assert(after[q].1 == m@);
                    assert(j == q);
                } else {
                    assert(after[j] == (k, m@) || before.contains(after[j]));
                }
            }
        }
    }

    /// Stores the record, replacing one with the same identifier, with its
    /// importance clamped into [0, 1], then caches what was stored.
    pub fn put<S: StorageBackend>(&mut self, storage: &mut S, memory: &Memory) -> (r: Result<
        (),
        Error,
    >)
        requires
            old(self).coherent(old(storage).spaces()),
            old(storage).well_formed(),
        ensures
            final(self).coherent(final(storage).spaces()),
            final(storage).well_formed(),
            r is Ok ==> final(storage).spaces() == store_put(
                old(storage).spaces(),
                ColumnFamilies::RECORDS@,
                encode_utf8(memory.id@),
                serialize_memory(clamped(memory@)),
            ),
            r is Err ==> final(storage).spaces() == old(storage).spaces(),
            r matches Err(e) ==> e is Storage,
            !old(storage).spaces().contains_key(ColumnFamilies::RECORDS@) ==> r is Err,
    {
        let mut stored = memory.duplicate();
        stored.importance = clamp_unit_bits(memory.importance);
        assert(stored@ == clamped(memory@));
        let memory = &stored;
        let value = encode_memory(memory)?;
        let ghost s0 = storage.spaces();
        let ghost before = self.cache.entries();
        proof {
            lemma_after_pop(before, memory.id@, self.cache.bound());
        }
        // The stale copy leaves the cache first, so that a failed write
        // cannot leave it behind.
        self.cache.invalidate(&memory.id);
        proof {
            let after = self.cache.entries();
            assert forall|p: (Seq<char>, MemoryModel)| #[trigger] after.contains(p) implies record_at(
                s0,
                p.0,
            ) == Some(Some(p.1)) by {
                let j = choose|j: int| 0 <= j < after.len() && after[j] == p;
                assert(before.contains(after[j]));
            }
        }
        let key = memory.id.as_str().as_bytes();
        storage.put(ColumnFamilies::RECORDS, key, value.as_slice())?;
        let ghost s = storage.spaces();
        proof {
            lemma_memory_round_trip(memory@);
            let after = self.cache.entries();
            assert forall|p: (Seq<char>, MemoryModel)| #[trigger] after.contains(p) implies record_at(
                s,
                p.0,
            ) == Some(Some(p.1)) by {
                let j = choose|j: int| 0 <= j < after.len() && after[j] == p;
                assert(p.0 != memory.id@);
                assert(record_at(s0, p.0) == Some(Some(p.1)));
                if encode_utf8(p.0) == encode_utf8(memory.id@) {
                    vstd::utf8::encode_utf8_decode_utf8(p.0);
                    vstd::utf8::encode_utf8_decode_utf8(memory.id@);
                }
            }
        }
        self.insert_cached(memory.id.clone(), memory, Ghost(s));
        Ok(())
    }

    /// The record with identifier `id`: from the cache, or else decoded from
    /// the store, which then fills the cache.
    pub fn get<S: StorageBackend>(&mut self, storage: &S, id: &str) -> (r: Result<
        Option<Memory>,
        Error,
    >)
        requires
            old(self).coherent(storage.spaces()),
            storage.well_formed(),
        ensures
            final(self).coherent(storage.spaces()),
            r matches Ok(v) ==> record_at(storage.spaces(), id@) == Some(opt_record(v)),
            record_at(storage.spaces(), id@) is None ==> r is Err,
            has_key(old(self).cached(), id@) ==> (r matches Ok(Some(m)) && m@ == value_of(
                old(self).cached(),
                id@,
            )),
            r matches Err(e) ==> e is Storage || (e is Codec && record_at(storage.spaces(), id@) is None),
    {
        let ghost s = storage.spaces();
        let key = id.to_owned();
        let ghost before = self.cache.entries();
        proof {
            lemma_after_get(before, id@, self.cache.bound());
        }
        match self.cache.get_cloned(&key) {
            Some(m) => {
                proof {
                    assert(before.contains((id@, value_of(before, id@))));
                }
                Ok(Some(m))
            },
            None => {
                let found = storage.get(ColumnFamilies::RECORDS, id.as_bytes())?;
                match found {
                    Some(bytes) => {
                        let m = decode_memory(bytes.as_slice())?;
                        self.insert_cached(key, &m, Ghost(s));
                        Ok(Some(m))
                    },
                    None => Ok(None),
                }
            },
        }
    }

    /// Removes the record from the store, then from the cache.
    pub fn delete<S: StorageBackend>(&mut self, storage: &mut S, id: &str) -> (r: Result<
        (),
        Error,
    >)
        requires
            old(self).coherent(old(storage).spaces()),
            old(storage).well_formed(),
        ensures
            final(self).coherent(final(storage).spaces()),
            final(storage).well_formed(),
            r is Ok ==> final(storage).spaces() == store_delete(
                old(storage).spaces(),
                ColumnFamilies::RECORDS@,
                encode_utf8(id@),
            ),
            r is Err ==> final(storage).spaces() == old(storage).spaces(),
            r matches Err(e) ==> e is Storage,
            !old(storage).spaces().contains_key(ColumnFamilies::RECORDS@) ==> r is Err,
    {
        storage.delete(ColumnFamilies::RECORDS, id.as_bytes())?;
        let ghost s = storage.spaces();
        let ghost before = self.cache.entries();
        let key = id.to_owned();
        proof {
            lemma_after_pop(before, id@, self.cache.bound());
        }
        self.cache.invalidate(&key);
        proof {
            let after = self.cache.entries();
            assert forall|p: (Seq<char>, MemoryModel)| #[trigger] after.contains(p) implies record_at(
                s,
                p.0,
            ) == Some(Some(p.1)) by {
                let j = choose|j: int| 0 <= j < after.len() && after[j] == p;
                assert(before.contains(after[j]));
                assert(p.0 != id@);
                if encode_utf8(p.0) == encode_utf8(id@) {
                    vstd::utf8::encode_utf8_decode_utf8(p.0);
                    vstd::utf8::encode_utf8_decode_utf8(id@);
                }
            }
        }
        Ok(())
    }

    /// Whether a record with identifier `id` is stored.
    pub fn contains_key<S: StorageBackend>(&mut self, storage: &S, id: &str) -> (r: Result<
        bool,
        Error,
    >)
        requires
            old(self).coherent(storage.spaces()),
            storage.well_formed(),
        ensures
            final(self).coherent(storage.spaces()),
            r matches Err(e) ==> e is Storage || (e is Codec && record_at(storage.spaces(), id@) is None),
            r matches Ok(b) ==> record_at(storage.spaces(), id@) matches Some(o) && b == o is Some,
    {
        let v = self.get(storage, id)?;
        Ok(v.is_some())
    }

    /// The identifiers of every stored record whose identifier starts with
    /// `prefix`; keys that are not UTF-8 are passed over.
    pub fn list_ids<S: StorageBackend>(&self, storage: &S, prefix: &str) -> (r: Result<
        Vec<String>,
        Error,
    >)
        requires
            storage.well_formed(),
        ensures
            r matches Ok(ids) ==> storage.spaces().contains_key(ColumnFamilies::RECORDS@) && exists|
                scan: Seq<(Seq<u8>, Seq<u8>)>,
            |
                scan_result(scan, storage.spaces()[ColumnFamilies::RECORDS@], encode_utf8(prefix@))
                    && ids@.map_values(|s: String| s@) == ids_of(scan),
            !storage.spaces().contains_key(ColumnFamilies::RECORDS@) ==> r is Err,
            r matches Err(e) ==> e is Storage,
    {
        let pairs = storage.scan_prefix(ColumnFamilies::RECORDS, prefix.as_bytes())?;
        let ghost scan = kv_view(pairs@);
        let mut ids: Vec<String> = Vec::new();
        let mut i: usize = 0;
        while i < pairs.len()
            invariant
                i <= pairs@.len(),
                scan == kv_view(pairs@),
                ids@.map_values(|s: String| s@) == ids_of(scan.subrange(0, i as int)),
            decreases pairs@.len() - i,
        {
            let ghost before = ids@.map_values(|s: String| s@);
            assert(scan.subrange(0, i + 1).drop_last() =~= scan.subrange(0, i as int));
            match string_from_utf8(slice_to_vec(pairs[i].0.as_slice())) {
                Some(id) => {
                    ids.push(id);
                    assert(ids@.map_values(|s: String| s@) =~= before.push(id@));
                },
                None => {},
            }
            i = i + 1;
        }
        assert(scan.subrange(0, pairs@.len() as int) =~= scan);
        Ok(ids)
    }

    /// Every stored record whose identifier starts with `prefix`. Once the
    /// store's scan succeeds, fails with a codec error exactly when one of
    /// the scanned values does not decode; no partial list is returned.
    pub fn list<S: StorageBackend>(&self, storage: &S, prefix: &str) -> (r: Result<
        Vec<Memory>,
        Error,
    >)
        requires
            storage.well_formed(),
        ensures
            r matches Ok(ms) ==> storage.spaces().contains_key(ColumnFamilies::RECORDS@) && exists|
                scan: Seq<(Seq<u8>, Seq<u8>)>,
            |
                scan_result(scan, storage.spaces()[ColumnFamilies::RECORDS@], encode_utf8(prefix@))
                    && records_of(scan) == Some(ms@.map_values(|m: Memory| m@)),
            r matches Err(e) ==> e is Storage || (e is Codec && exists|scan: Seq<(Seq<u8>, Seq<u8>)>|
                scan_result(scan, storage.spaces()[ColumnFamilies::RECORDS@], encode_utf8(prefix@))
                    && records_of(scan) is None),
            !storage.spaces().contains_key(ColumnFamilies::RECORDS@) ==> r is Err,
    {
        let pairs = storage.scan_prefix(ColumnFamilies::RECORDS, prefix.as_bytes())?;
        records_from_pairs(&pairs)
    }
}

proof fn lemma_records_stuck(scan: Seq<(Seq<u8>, Seq<u8>)>, j: int)
    requires
        0 <= j <= scan.len(),
        records_of(scan.subrange(0, j)) is None,
    ensures
        records_of(scan) is None,
    decreases scan.len() - j,
{
    if scan.len() == j {
        assert(scan.subrange(0, j) =~= scan);
    } else {
        let w = scan.drop_last();
        assert(w.subrange(0, j) =~= scan.subrange(0, j));
        lemma_records_stuck(w, j);
    }
}

/// The records that scanned pairs hold, in order. Fails with a codec error
/// exactly when some value does not decode.
pub fn records_from_pairs(pairs: &Vec<(Vec<u8>, Vec<u8>)>) -> (r: Result<Vec<Memory>, Error>)
    ensures
        r is Ok <==> records_of(kv_view(pairs@)) is Some,
        r matches Ok(ms) ==> records_of(kv_view(pairs@)) == Some(ms@.map_values(|m: Memory| m@)),
        r matches Err(e) ==> e is Codec,
{
    let ghost scan = kv_view(pairs@);
    let mut ms: Vec<Memory> = Vec::new();
    let mut i: usize = 0;
    while i < pairs.len()
        invariant
            i <= pairs@.len(),
            scan == kv_view(pairs@),
            records_of(scan.subrange(0, i as int)) == Some(ms@.map_values(|m: Memory| m@)),
        decreases pairs@.len() - i,
    {
        let ghost before = ms@.map_values(|m: Memory| m@);
        let ghost upto = scan.subrange(0, i + 1);
        assert(upto.drop_last() =~= scan.subrange(0, i as int));
        assert(upto.last() == (pairs@[i as int].0@, pairs@[i as int].1@));
        let m = match decode_memory(pairs[i].1.as_slice()) {
            Ok(m) => m,
            Err(e) => {
                proof {
                    lemma_records_stuck(scan, i + 1);
                }
                return Err(e);
            },
        };
        ms.push(m);
        assert(ms@.map_values(|m: Memory| m@) =~= before.push(m@));
        i = i + 1;
    }
    assert(scan.subrange(0, pairs@.len() as int) =~= scan);
    Ok(ms)
}

} // verus!
