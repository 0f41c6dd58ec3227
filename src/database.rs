use crate::codec::serialize_memory;
use crate::error::Error;
use crate::graph::{adjacency, linked, unlinked, with_relation, GraphManager};
use crate::kv::KvStore;
use crate::records::{clamped, ids_of, opt_record, record_at, records_of, RecordsManager};
use crate::storage::{
    apply_ops, kv_view, lemma_names_distinct, lookup, opt_view, same_space, scan_result,
    store_delete, store_put, ColumnFamilies, Spaces, StorageBackend, WriteOp,
};
use crate::transaction::{Transaction, TransactionManager};
use crate::types::{edges_view, Edge, EdgeModel, Memory, MemoryModel, DEFAULT_WEIGHT_BITS};
use crate::vector::{
    distances_from, embedding_decoding, embedding_encoding, lemma_snapshot_holds, MAX_EMBEDDING_LEN, hits_view, nearest_of, snapshot_fault, snapshot_of,
    VectorManager,
};
use vstd::prelude::*;
use vstd::utf8::encode_utf8;

verus! {

/// A hit of a similarity search: the identifier, the distance as a
/// single-precision bit pattern, and the record.
pub struct SearchResult {
    /// Identifier of the record.
    pub id: String,
    /// Distance to the query; smaller is nearer.
    pub distance: u32,
    /// The record itself.
    pub memory: Memory,
}

/// The records behind a list of hits, in hit order: a hit whose record is
/// missing is dropped; `None` when a stored record does not decode.
pub open spec fn results_of(hits: Seq<(Seq<char>, u32)>, s: Spaces) -> Option<
    Seq<(Seq<char>, u32, MemoryModel)>,
>
    decreases hits.len(),
{
    if hits.len() == 0 {
        Some(Seq::empty())
    } else {
        match (results_of(hits.drop_last(), s), record_at(s, hits.last().0)) {
            (Some(v), Some(Some(m))) => Some(v.push((hits.last().0, hits.last().1, m))),
            (Some(v), Some(None)) => Some(v),
            _ => None,
        }
    }
}

/// The view of a list of search results.
pub open spec fn results_view(v: Seq<SearchResult>) -> Seq<(Seq<char>, u32, MemoryModel)> {
    v.map_values(|r: SearchResult| (r.id@, r.distance, r.memory@))
}

/// The store after a record is written: first its encoding, with the
/// importance clamped, then its embedding.
pub open spec fn memory_inserted(s: Spaces, m: MemoryModel) -> Spaces {
    store_put(
        store_put(s, ColumnFamilies::RECORDS@, encode_utf8(m.id), serialize_memory(clamped(m))),
        ColumnFamilies::VECTOR_DATA@,
        encode_utf8(m.id),
        embedding_encoding(m.embedding),
    )
}

/// After a record is inserted, every snapshot of the vector namespace holds
/// its identifier with its embedding, when the embedding reads back.
pub proof fn lemma_inserted_is_searched(s: Spaces, m: MemoryModel, v: Seq<(Seq<char>, Seq<u32>)>)
    requires
        snapshot_of(memory_inserted(s, m), v),
        embedding_decoding(embedding_encoding(m.embedding)) == Some(m.embedding),
    ensures
        v.contains((m.id, m.embedding)),
{
    lemma_snapshot_holds(memory_inserted(s, m), m.id, m.embedding, v);
}

/// The store after a record is removed: first its encoding, then its embedding.
pub open spec fn memory_deleted(s: Spaces, id: Seq<char>) -> Spaces {
    store_delete(
        store_delete(s, ColumnFamilies::RECORDS@, encode_utf8(id)),
        ColumnFamilies::VECTOR_DATA@,
        encode_utf8(id),
    )
}

/// The cache sizes, the embedding length and the storage location of a database.
pub struct OpenDBOptions {
    /// Entries of the key-value cache.
    pub kv_cache_size: usize,
    /// Entries of the record cache.
    pub record_cache_size: usize,
    /// Length of every embedding.
    pub vector_dimension: usize,
    /// Where the store lives, when it differs from the path it is opened with.
    pub storage_path: Option<String>,
}

/// The default size of the key-value cache.
pub const DEFAULT_KV_CACHE_SIZE: usize = 1000;

/// The default size of the record cache.
pub const DEFAULT_RECORD_CACHE_SIZE: usize = 500;

/// The default embedding length.
pub const DEFAULT_VECTOR_DIMENSION: usize = 384;

impl Default for OpenDBOptions {
    fn default() -> (r: OpenDBOptions)
        ensures
            r.kv_cache_size == DEFAULT_KV_CACHE_SIZE,
            r.record_cache_size == DEFAULT_RECORD_CACHE_SIZE,
            r.vector_dimension == DEFAULT_VECTOR_DIMENSION,
            r.storage_path is None,
    {
        OpenDBOptions {
            kv_cache_size: DEFAULT_KV_CACHE_SIZE,
            record_cache_size: DEFAULT_RECORD_CACHE_SIZE,
            vector_dimension: DEFAULT_VECTOR_DIMENSION,
            storage_path: None,
        }
    }
}

impl OpenDBOptions {
    /// The default options.
    pub fn new() -> (r: OpenDBOptions)
        ensures
            r.kv_cache_size == DEFAULT_KV_CACHE_SIZE,
            r.record_cache_size == DEFAULT_RECORD_CACHE_SIZE,
            r.vector_dimension == DEFAULT_VECTOR_DIMENSION,
            r.storage_path is None,
    {
        OpenDBOptions::default()
    }

    /// The default options with another embedding length.
    pub fn with_dimension(dimension: usize) -> (r: OpenDBOptions)
        ensures
            r.kv_cache_size == DEFAULT_KV_CACHE_SIZE,
            r.record_cache_size == DEFAULT_RECORD_CACHE_SIZE,
            r.vector_dimension == dimension,
            r.storage_path is None,
    {
        OpenDBOptions { vector_dimension: dimension, ..OpenDBOptions::default() }
    }

    /// These options with another embedding length.
    pub fn dimension(self, dimension: usize) -> (r: OpenDBOptions)
        ensures
            r == (OpenDBOptions { vector_dimension: dimension, ..self }),
    {
        OpenDBOptions { vector_dimension: dimension, ..self }
    }

    /// These options with a storage location.
    pub fn with_storage_path(self, path: &str) -> (r: OpenDBOptions)
        ensures
            r.storage_path matches Some(p) && p@ == path@,
            r.kv_cache_size == self.kv_cache_size,
            r.record_cache_size == self.record_cache_size,
            r.vector_dimension == self.vector_dimension,
    {
        OpenDBOptions { storage_path: Some(path.to_owned()), ..self }
    }

    /// These options with another key-value cache size.
    pub fn with_kv_cache_size(self, size: usize) -> (r: OpenDBOptions)
        ensures
            r == (OpenDBOptions { kv_cache_size: size, ..self }),
    {
        OpenDBOptions { kv_cache_size: size, ..self }
    }

    /// These options with another record cache size.
    pub fn with_record_cache_size(self, size: usize) -> (r: OpenDBOptions)
        ensures
            r == (OpenDBOptions { record_cache_size: size, ..self }),
    {
        OpenDBOptions { record_cache_size: size, ..self }
    }
}

/// The database: one store shared by the key-value, record, graph and vector
/// models, each with its own cache, and transactions over all of them.
pub struct OpenDB<S> {
    storage: S,
    kv: KvStore,
    records: RecordsManager,
    graph: GraphManager,
    vector: VectorManager,
    txn_manager: TransactionManager,
}

impl<S: StorageBackend> OpenDB<S> {
    /// The contents of the store.
    pub closed spec fn spaces(&self) -> Spaces {
        self.storage.spaces()
    }

    /// The length every embedding must have.
    pub closed spec fn dim(&self) -> nat {
        self.vector.dim()
    }

    /// The store is well formed and every cache agrees with it.
    pub closed spec fn wf(&self) -> bool {
        &&& self.storage.well_formed()
        &&& self.kv.coherent(self.storage.spaces())
        &&& self.records.coherent(self.storage.spaces())
        &&& self.vector.coherent(self.storage.spaces())
    }

    /// A database over `storage`, configured by `options`.
    pub fn open_with_backend(storage: S, options: OpenDBOptions) -> (r: OpenDB<S>)
        requires
            storage.well_formed(),
        ensures
            r.wf(),
            r.spaces() == storage.spaces(),
            r.dim() == options.vector_dimension,
    {
        OpenDB {
            storage,
            kv: KvStore::new(options.kv_cache_size),
            records: RecordsManager::new(options.record_cache_size),
            graph: GraphManager::new(),
            vector: VectorManager::new(options.vector_dimension),
            txn_manager: TransactionManager::new(),
        }
    }

    /// The store.
    pub fn backend(&self) -> (r: &S)
        ensures
            r.spaces() == self.spaces(),
            self.wf() ==> r.well_formed(),
    {
        &self.storage
    }

    /// Closes the database and hands back its store.
    pub fn into_backend(self) -> (r: S)
        ensures
            r.spaces() == self.spaces(),
            self.wf() ==> r.well_formed(),
    {
        self.storage
    }

    // ----- key-value pairs -----

    /// The value under `key`.
    pub fn get(&mut self, key: &[u8]) -> (r: Result<Option<Vec<u8>>, Error>)
        requires
            old(self).wf(),
        ensures
            final(self).wf(),
            final(self).spaces() == old(self).spaces(),
            final(self).dim() == old(self).dim(),
            r matches Ok(v) ==> opt_view(v) == lookup(old(self).spaces(), ColumnFamilies::DEFAULT@, key@),
            r matches Err(e) ==> e is Storage,
    {
        self.kv.get(&self.storage, key)
    }

    /// Stores `value` under `key`.
    pub fn put(&mut self, key: &[u8], value: &[u8]) -> (r: Result<(), Error>)
        requires
            old(self).wf(),
        ensures
            final(self).wf(),
            final(self).dim() == old(self).dim(),
            r is Ok ==> final(self).spaces() == store_put(
                old(self).spaces(),
                ColumnFamilies::DEFAULT@,
                key@,
                value@,
            ),
            r is Err ==> final(self).spaces() == old(self).spaces(),
            r matches Err(e) ==> e is Storage,
    {
        let ghost s0 = self.storage.spaces();
        let r = self.kv.put(&mut self.storage, key, value);
        proof {
            lemma_names_distinct();
            self.records.lemma_transfer(s0, self.storage.spaces());
            self.vector.lemma_transfer(s0, self.storage.spaces());
        }
        r
    }

    /// Removes `key`.
    pub fn delete(&mut self, key: &[u8]) -> (r: Result<(), Error>)
        requires
            old(self).wf(),
        ensures
            final(self).wf(),
            final(self).dim() == old(self).dim(),
            r is Ok ==> final(self).spaces() == store_delete(
                old(self).spaces(),
                ColumnFamilies::DEFAULT@,
                key@,
            ),
            r is Err ==> final(self).spaces() == old(self).spaces(),
            r matches Err(e) ==> e is Storage,
    {
        let ghost s0 = self.storage.spaces();
        let r = self.kv.delete(&mut self.storage, key);
        proof {
            lemma_names_distinct();
            self.records.lemma_transfer(s0, self.storage.spaces());
            self.vector.lemma_transfer(s0, self.storage.spaces());
        }
        r
    }

    /// Whether a value is stored under `key`.
    pub fn contains_key(&mut self, key: &[u8]) -> (r: Result<bool, Error>)
        requires
            old(self).wf(),
        ensures
            final(self).wf(),
            final(self).spaces() == old(self).spaces(),
            final(self).dim() == old(self).dim(),
            r matches Ok(b) ==> b == lookup(old(self).spaces(), ColumnFamilies::DEFAULT@, key@) is Some,
            r matches Err(e) ==> e is Storage,
    {
        self.kv.contains_key(&self.storage, key)
    }

    /// Every pair whose key starts with `prefix`.
    pub fn scan_prefix(&self, prefix: &[u8]) -> (r: Result<Vec<(Vec<u8>, Vec<u8>)>, Error>)
        requires
            self.wf(),
        ensures
            r matches Ok(v) ==> self.spaces().contains_key(ColumnFamilies::DEFAULT@) && scan_result(
                kv_view(v@),
                self.spaces()[ColumnFamilies::DEFAULT@],
                prefix@,
            ),
            r matches Err(e) ==> e is Storage,
    {
        self.kv.scan_prefix(&self.storage, prefix)
    }

    // ----- records -----

    /// Stores the record and then its embedding; these are two writes, not
    /// one atomic step. An embedding of the wrong length is refused before
    /// anything is written.
    pub fn insert_memory(&mut self, memory: &Memory) -> (r: Result<(), Error>)
        requires
            old(self).wf(),
        ensures
            final(self).wf(),
            final(self).dim() == old(self).dim(),
            memory.embedding@.len() != old(self).dim() ==> (r matches Err(e) && e is VectorIndex)
                && final(self).spaces() == old(self).spaces(),
            r is Ok ==> final(self).spaces() == memory_inserted(old(self).spaces(), memory@),
            memory.embedding@.len() == old(self).dim() ==> (r matches Err(e) ==> e is Storage),
            r is Ok && memory.embedding@.len() <= MAX_EMBEDDING_LEN ==> embedding_decoding(
                embedding_encoding(memory.embedding@),
            ) == Some(memory.embedding@),
    {
        if memory.embedding.len() != self.vector.dimension() {
            return Err(Error::VectorIndex("Embedding dimension mismatch".to_owned()));
        }
        let ghost s0 = self.storage.spaces();
        let first = self.records.put(&mut self.storage, memory);
        let ghost s1 = self.storage.spaces();
        proof {
            lemma_names_distinct();
            self.kv.lemma_transfer(s0, s1);
            self.vector.lemma_transfer(s0, s1);
        }
        first?;
        let second = self.vector.insert(&mut self.storage, memory);
        proof {
            self.kv.lemma_transfer(s1, self.storage.spaces());
            self.records.lemma_transfer(s1, self.storage.spaces());
        }
        second
    }

    /// The record with identifier `id`.
    pub fn get_memory(&mut self, id: &str) -> (r: Result<Option<Memory>, Error>)
        requires
            old(self).wf(),
        ensures
            final(self).wf(),
            final(self).spaces() == old(self).spaces(),
            final(self).dim() == old(self).dim(),
            r matches Ok(v) ==> record_at(old(self).spaces(), id@) == Some(opt_record(v)),
            record_at(old(self).spaces(), id@) is None ==> r is Err,
            r matches Err(e) ==> e is Storage || (e is Codec && record_at(old(self).spaces(), id@) is None),
    {
        self.records.get(&self.storage, id)
    }

    /// Removes the record and then its embedding; two writes, not one atomic step.
    pub fn delete_memory(&mut self, id: &str) -> (r: Result<(), Error>)
        requires
            old(self).wf(),
        ensures
            final(self).wf(),
            final(self).dim() == old(self).dim(),
            r is Ok ==> final(self).spaces() == memory_deleted(old(self).spaces(), id@),
            r matches Err(e) ==> e is Storage,
    {
        let ghost s0 = self.storage.spaces();
        let first = self.records.delete(&mut self.storage, id);
        let ghost s1 = self.storage.spaces();
        proof {
            lemma_names_distinct();
            self.kv.lemma_transfer(s0, s1);
            self.vector.lemma_transfer(s0, s1);
        }
        first?;
        let second = self.vector.delete(&mut self.storage, id);
        proof {
            self.kv.lemma_transfer(s1, self.storage.spaces());
            self.records.lemma_transfer(s1, self.storage.spaces());
        }
        second
    }

    /// The identifiers of the records whose identifier starts with `prefix`.
    pub fn list_memory_ids(&self, prefix: &str) -> (r: Result<Vec<String>, Error>)
        requires
            self.wf(),
        ensures
            r matches Ok(ids) ==> exists|scan: Seq<(Seq<u8>, Seq<u8>)>|
                scan_result(scan, self.spaces()[ColumnFamilies::RECORDS@], encode_utf8(prefix@))
                    && ids@.map_values(|s: String| s@) == ids_of(scan),
            r matches Err(e) ==> e is Storage,
    {
        self.records.list_ids(&self.storage, prefix)
    }

    /// The records whose identifier starts with `prefix`.
    pub fn list_memories(&self, prefix: &str) -> (r: Result<Vec<Memory>, Error>)
        requires
            self.wf(),
        ensures
            r matches Ok(ms) ==> exists|scan: Seq<(Seq<u8>, Seq<u8>)>|
                scan_result(scan, self.spaces()[ColumnFamilies::RECORDS@], encode_utf8(prefix@))
                    && records_of(scan) == Some(ms@.map_values(|m: Memory| m@)),
            r matches Err(e) ==> e is Storage || (e is Codec && exists|scan: Seq<(Seq<u8>, Seq<u8>)>|
                scan_result(scan, self.spaces()[ColumnFamilies::RECORDS@], encode_utf8(prefix@))
                    && records_of(scan) is None),
    {
        let r = self.records.list(&self.storage, prefix);
        proof {
            if r is Err {
                let e = r->Err_0;
                {
                    if !(e is Storage) {
                        let scan = choose|scan: Seq<(Seq<u8>, Seq<u8>)>|
                            scan_result(
                                scan,
                                self.storage.spaces()[ColumnFamilies::RECORDS@],
                                encode_utf8(prefix@),
                            ) && records_of(scan) is None;
                        assert(scan_result(scan, self.spaces()[ColumnFamilies::RECORDS@], encode_utf8(prefix@)));
                    }
                }
            }
        }
        r
    }

    // ----- graph -----

    /// Links `from` to `to` under `relation`.
    pub fn link(&mut self, from: &str, relation: &str, to: &str) -> (r: Result<(), Error>)
        requires
            old(self).wf(),
        ensures
            final(self).wf(),
            final(self).dim() == old(self).dim(),
            r is Ok ==> exists|e: EdgeModel|
                e.joins(from@, relation@, to@) && e.weight == DEFAULT_WEIGHT_BITS && linked(
                    old(self).spaces(),
                    e,
                ) == Some(final(self).spaces()),
            r matches Err(e) ==> e is Storage || e is Codec,
    {
        let ghost s0 = self.storage.spaces();
        let r = self.graph.link(&mut self.storage, from, relation, to);
        proof {
            if r is Ok {
                let e = choose|e: EdgeModel|
                    e.joins(from@, relation@, to@) && e.weight == DEFAULT_WEIGHT_BITS && linked(s0, e)
                        == Some(self.storage.spaces());
                assert(old(self).spaces() == s0);
                assert(linked(old(self).spaces(), e) == Some(self.spaces()));
                assert(e.joins(from@, relation@, to@) && e.weight == DEFAULT_WEIGHT_BITS);
            }
            lemma_names_distinct();
            let s1 = self.storage.spaces();
            assert(same_space(s0, s1, ColumnFamilies::DEFAULT@));
            assert(same_space(s0, s1, ColumnFamilies::RECORDS@));
            assert(same_space(s0, s1, ColumnFamilies::VECTOR_DATA@));
            self.kv.lemma_transfer(s0, s1);
            self.records.lemma_transfer(s0, s1);
            self.vector.lemma_transfer(s0, s1);
        }
        r
    }

    /// Unlinks `from` from `to` under `relation`.
    pub fn unlink(&mut self, from: &str, relation: &str, to: &str) -> (r: Result<(), Error>)
        requires
            old(self).wf(),
        ensures
            final(self).wf(),
            final(self).dim() == old(self).dim(),
            r is Ok ==> unlinked(old(self).spaces(), from@, relation@, to@) == Some(final(self).spaces()),
            r matches Err(e) ==> e is Storage || e is Codec,
    {
        let ghost s0 = self.storage.spaces();
        let r = self.graph.unlink(&mut self.storage, from, relation, to);
        proof {
            lemma_names_distinct();
            let s1 = self.storage.spaces();
            assert(same_space(s0, s1, ColumnFamilies::DEFAULT@));
            assert(same_space(s0, s1, ColumnFamilies::RECORDS@));
            assert(same_space(s0, s1, ColumnFamilies::VECTOR_DATA@));
            self.kv.lemma_transfer(s0, s1);
            self.records.lemma_transfer(s0, s1);
            self.vector.lemma_transfer(s0, s1);
        }
        r
    }

    /// The targets of the outgoing edges of `id` under `relation`.
    pub fn get_related(&self, id: &str, relation: &str) -> (r: Result<Vec<String>, Error>)
        requires
            self.wf(),
        ensures
            r matches Ok(v) ==> adjacency(self.spaces(), ColumnFamilies::GRAPH_FORWARD@, id@) matches Some(
                l,
            ) && v@.map_values(|s: String| s@) == with_relation(l, relation@).map_values(
                |e: EdgeModel| e.to,
            ),
            r matches Err(e) ==> e is Storage || (e is Codec && adjacency(self.spaces(), ColumnFamilies::GRAPH_FORWARD@, id@) is None),
    {
        self.graph.get_related(&self.storage, id, relation)
    }

    /// Every outgoing edge of `from`.
    pub fn get_outgoing(&self, from: &str) -> (r: Result<Vec<Edge>, Error>)
        requires
            self.wf(),
        ensures
            r matches Ok(v) ==> adjacency(self.spaces(), ColumnFamilies::GRAPH_FORWARD@, from@) == Some(
                edges_view(v@),
            ),
            r matches Err(e) ==> e is Storage || (e is Codec && adjacency(self.spaces(), ColumnFamilies::GRAPH_FORWARD@, from@) is None),
    {
        self.graph.get_outgoing(&self.storage, from, None)
    }

    /// Every incoming edge of `to`.
    pub fn get_incoming(&self, to: &str) -> (r: Result<Vec<Edge>, Error>)
        requires
            self.wf(),
        ensures
            r matches Ok(v) ==> adjacency(self.spaces(), ColumnFamilies::GRAPH_BACKWARD@, to@) == Some(
                edges_view(v@),
            ),
            r matches Err(e) ==> e is Storage || (e is Codec && adjacency(self.spaces(), ColumnFamilies::GRAPH_BACKWARD@, to@) is None),
    {
        self.graph.get_incoming(&self.storage, to, None)
    }

    // ----- vectors -----

    /// The `k` records nearest to `query` under `distance`, nearest first;
    /// a hit whose record is missing is dropped. A query of the wrong length
    /// is refused with a vector index error.
    pub fn search_similar<F: Fn(&[u32], &[u32]) -> u32>(
        &mut self,
        query: &[u32],
        k: usize,
        distance: F,
    ) -> (r: Result<Vec<SearchResult>, Error>)
        requires
            old(self).wf(),
            forall|a: &[u32], b: &[u32]| distance.requires((a, b)),
        ensures
            final(self).wf(),
            final(self).spaces() == old(self).spaces(),
            final(self).dim() == old(self).dim(),
            query@.len() != old(self).dim() ==> (r matches Err(e) && e is VectorIndex),
            r matches Ok(found) ==> exists|
                v: Seq<(Seq<char>, Seq<u32>)>,
                c: Seq<(Seq<char>, u32)>,
                hits: Seq<(Seq<char>, u32)>,
            |
                snapshot_of(old(self).spaces(), v) && distances_from(distance, query, v, c) && nearest_of(
                    c,
                    k as nat,
                    hits,
                ) && results_of(hits, old(self).spaces()) == Some(results_view(found@)),
            query@.len() == old(self).dim() ==> (r matches Err(e) ==> e is Storage || e is Codec || snapshot_fault(old(self).spaces(), e)),
    {
        let hits = self.vector.search(&self.storage, query, k, distance)?;
        assert(query@.len() == self.dim());
        let ghost h = hits_view(hits@);
        let mut found: Vec<SearchResult> = Vec::new();
        let mut i: usize = 0;
        while i < hits.len()
            invariant
                self.wf(),
                self.spaces() == old(self).spaces(),
                self.dim() == old(self).dim(),
                i <= hits@.len(),
                h == hits_view(hits@),
                query@.len() == old(self).dim(),
                results_of(h.subrange(0, i as int), self.spaces()) == Some(results_view(found@)),
            decreases hits@.len() - i,
        {
            assert(h.subrange(0, i + 1).drop_last() =~= h.subrange(0, i as int));
            assert(h[i as int] == (hits@[i as int].0@, hits@[i as int].1));
            let ghost before = results_view(found@);
            match self.get_memory(hits[i].0.as_str())? {
                Some(memory) => {
                    let ghost entry = (hits@[i as int].0@, hits@[i as int].1, memory@);
                    found.push(SearchResult { id: hits[i].0.clone(), distance: hits[i].1, memory });
                    assert(results_view(found@) =~= before.push(entry));
                },
                None => {},
            }
            i = i + 1;
        }
        assert(h.subrange(0, hits@.len() as int) =~= h);
        Ok(found)
    }

    /// Builds the vector snapshot again from the store.
    pub fn rebuild_vector_index(&mut self) -> (r: Result<(), Error>)
        requires
            old(self).wf(),
        ensures
            final(self).wf(),
            final(self).spaces() == old(self).spaces(),
            final(self).dim() == old(self).dim(),
            r matches Err(e) ==> e is Storage || snapshot_fault(old(self).spaces(), e),
    {
        self.vector.rebuild_index(&self.storage)
    }

    // ----- transactions and maintenance -----

    /// A new transaction over this database.
    pub fn begin_transaction(&self) -> (r: Result<Transaction, Error>)
        ensures
            r matches Ok(t) && t.status() is Active && t.pending().len() == 0,
    {
        self.txn_manager.begin()
    }

    /// Applies a batch of writes atomically, then empties every cache so
    /// that none can hold a value the batch replaced.
    pub(crate) fn apply_batch(&mut self, ops: &Vec<WriteOp>) -> (r: Result<(), Error>)
        requires
            old(self).wf(),
        ensures
            final(self).wf(),
            final(self).dim() == old(self).dim(),
            r is Ok ==> final(self).spaces() == apply_ops(old(self).spaces(), ops@),
            r is Err ==> final(self).spaces() == old(self).spaces(),
            r matches Err(e) ==> e is Storage,
    {
        let ghost s0 = self.storage.spaces();
        let r = self.storage.write_batch(ops);
        self.kv.clear_cache(Ghost(s0));
        self.records.clear_cache(Ghost(s0));
        self.vector.invalidate();
        r
    }

    /// Makes every completed write durable.
    pub fn flush(&self) -> (r: Result<(), Error>)
        requires
            self.wf(),
        ensures
            r matches Err(e) ==> e is Storage,
    {
        self.storage.flush()
    }
}

} // verus!
