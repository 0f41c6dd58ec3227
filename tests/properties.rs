use opendb::codec::encode_memory;
use opendb::records::records_from_pairs;
use opendb::vector::snapshot_from_pairs;
use opendb::Cache;
use opendb::{
    nearest, ColumnFamilies, Error, FileType, HnswParams, LruMemoryCache, Memory, MemoryBackend,
    OpenDB, OpenDBOptions, ProcessingStatus, Result, StorageBackend, WriteOp,
};

fn bits(v: &[f32]) -> Vec<u32> {
    v.iter().map(|x| x.to_bits()).collect()
}

fn euclidean(a: &[u32], b: &[u32]) -> u32 {
    let sum: f32 = a
        .iter()
        .zip(b.iter())
        .map(|(x, y)| (f32::from_bits(*x) - f32::from_bits(*y)).powi(2))
        .sum();
    sum.sqrt().to_bits()
}

fn db_with(options: OpenDBOptions) -> OpenDB<MemoryBackend> {
    OpenDB::open_with_backend(MemoryBackend::new(), options)
}

#[test]
fn importance_is_clamped_into_unit_range() {
    let high = Memory::new("a", "b", vec![], 1.5f32.to_bits());
    assert_eq!(f32::from_bits(high.importance), 1.0);
    let low = Memory::new("a", "b", vec![], (-0.5f32).to_bits());
    assert_eq!(f32::from_bits(low.importance), 0.0);
    let inf = Memory::new("a", "b", vec![], f32::INFINITY.to_bits());
    assert_eq!(f32::from_bits(inf.importance), 1.0);
    let neg_inf = Memory::new("a", "b", vec![], f32::NEG_INFINITY.to_bits());
    assert_eq!(f32::from_bits(neg_inf.importance), 0.0);
    let inside = Memory::new("a", "b", vec![], 0.3f32.to_bits());
    assert_eq!(f32::from_bits(inside.importance), 0.3);
    assert!(inside.timestamp > 0);
}

#[test]
fn read_after_write_with_and_without_cache() -> Result<()> {
    // A cache of one entry: the second write evicts the first key.
    let mut db = db_with(OpenDBOptions::with_dimension(3).with_kv_cache_size(1));
    db.put(b"k1", b"v1")?;
    db.put(b"k2", b"v2")?;
    assert_eq!(db.get(b"k1")?, Some(b"v1".to_vec()));
    assert_eq!(db.get(b"k2")?, Some(b"v2".to_vec()));
    db.put(b"k1", b"v1b")?;
    assert_eq!(db.get(b"k1")?, Some(b"v1b".to_vec()));
    db.delete(b"k1")?;
    assert_eq!(db.get(b"k1")?, None);
    db.delete(b"k2")?;
    assert_eq!(db.get(b"k2")?, None);
    Ok(())
}

#[test]
fn scan_prefix_reads_the_store() -> Result<()> {
    let mut db = db_with(OpenDBOptions::new());
    db.put(b"user:1", b"a")?;
    db.put(b"user:2", b"b")?;
    db.put(b"item:1", b"c")?;
    let mut found = db.scan_prefix(b"user:")?;
    found.sort();
    assert_eq!(found, vec![(b"user:1".to_vec(), b"a".to_vec()), (b"user:2".to_vec(), b"b".to_vec())]);
    Ok(())
}

#[test]
fn lru_update_refreshes_recency() {
    let mut cache = LruMemoryCache::<Vec<u8>, Vec<u8>>::new(2);
    cache.insert(b"a".to_vec(), b"1".to_vec());
    cache.insert(b"b".to_vec(), b"2".to_vec());
    cache.insert(b"a".to_vec(), b"3".to_vec());
    cache.insert(b"c".to_vec(), b"4".to_vec());
    assert_eq!(cache.peek(&b"b".to_vec()), None);
    assert_eq!(cache.peek(&b"a".to_vec()), Some(b"3".to_vec()));
    assert_eq!(cache.len(), 2);
    assert_eq!(cache.capacity(), 2);
    assert_eq!(cache.invalidate(&b"a".to_vec()), Some(b"3".to_vec()));
    assert_eq!(cache.len(), 1);
    cache.clear();
    assert_eq!(cache.len(), 0);
    let defaulted = LruMemoryCache::<Vec<u8>, Vec<u8>>::new(0);
    assert_eq!(defaulted.capacity(), 100);
}

#[test]
fn wrong_dimension_is_refused_and_changes_nothing() -> Result<()> {
    let mut db = db_with(OpenDBOptions::with_dimension(3));
    db.insert_memory(&Memory::new("ok", "x", bits(&[1.0, 0.0, 0.0]), 0))?;
    let bad = Memory::new("bad", "x", bits(&[1.0, 0.0]), 0);
    assert!(matches!(db.insert_memory(&bad), Err(Error::VectorIndex(_))));
    assert!(db.get_memory("bad")?.is_none());
    assert!(matches!(db.search_similar(&bits(&[1.0]), 1, euclidean), Err(Error::VectorIndex(_))));
    let hits = db.search_similar(&bits(&[1.0, 0.0, 0.0]), 5, euclidean)?;
    assert_eq!(hits.len(), 1);
    assert_eq!(hits[0].id, "ok");
    Ok(())
}

#[test]
fn linking_twice_gives_one_edge() -> Result<()> {
    let mut db = db_with(OpenDBOptions::new());
    db.link("a", "r", "b")?;
    db.link("a", "r", "b")?;
    let out: Vec<_> = db.get_outgoing("a")?.into_iter().filter(|e| e.relation == "r").collect();
    assert_eq!(out.len(), 1);
    assert_eq!(db.get_incoming("b")?.len(), 1);
    Ok(())
}

#[test]
fn link_is_visible_both_ways() -> Result<()> {
    let mut db = db_with(OpenDBOptions::new());
    db.link("x", "supports", "y")?;
    let out = db.get_outgoing("x")?;
    assert_eq!(out.len(), 1);
    assert_eq!((out[0].from.as_str(), out[0].relation.as_str(), out[0].to.as_str()), ("x", "supports", "y"));
    assert_eq!(out[0].weight, 1.0f32.to_bits());
    let inc = db.get_incoming("y")?;
    assert_eq!(inc.len(), 1);
    assert_eq!(inc[0].from, "x");
    Ok(())
}

#[test]
fn unlink_leaves_nothing_related() -> Result<()> {
    let mut db = db_with(OpenDBOptions::new());
    db.link("A", "related_to", "B")?;
    db.unlink("A", "related_to", "B")?;
    assert!(db.get_related("A", "related_to")?.is_empty());
    assert!(db.get_incoming("B")?.is_empty());
    // The emptied lists are removed from the store.
    assert_eq!(db.backend().get(ColumnFamilies::GRAPH_FORWARD, b"A")?, None);
    assert_eq!(db.backend().get(ColumnFamilies::GRAPH_BACKWARD, b"B")?, None);
    Ok(())
}

#[test]
fn unlink_matches_the_full_triple() -> Result<()> {
    let mut db = db_with(OpenDBOptions::new());
    db.link("A", "r", "B")?;
    db.link("A", "r", "C")?;
    db.link("C", "r", "B")?;
    db.unlink("A", "r", "B")?;
    assert_eq!(db.get_related("A", "r")?, vec!["C"]);
    let inc = db.get_incoming("B")?;
    assert_eq!(inc.len(), 1);
    assert_eq!(inc[0].from, "C");
    Ok(())
}

#[test]
fn transaction_writes_stay_private_until_commit() -> Result<()> {
    let mut db = db_with(OpenDBOptions::new());
    db.put(b"k", b"old")?;
    let mut txn = db.begin_transaction()?;
    txn.put("default", b"k", b"new")?;
    txn.put("default", b"fresh", b"1")?;
    txn.delete("default", b"gone")?;
    assert_eq!(txn.get(&db, "default", b"k")?, Some(b"new".to_vec()));
    assert_eq!(db.get(b"k")?, Some(b"old".to_vec()));
    assert_eq!(db.get(b"fresh")?, None);
    txn.commit(&mut db)?;
    assert_eq!(db.get(b"k")?, Some(b"new".to_vec()));
    assert_eq!(db.get(b"fresh")?, Some(b"1".to_vec()));
    Ok(())
}

#[test]
fn transaction_reads_its_own_delete() -> Result<()> {
    let mut db = db_with(OpenDBOptions::new());
    db.put(b"k", b"v")?;
    let mut txn = db.begin_transaction()?;
    txn.delete("default", b"k")?;
    assert_eq!(txn.get(&db, "default", b"k")?, None);
    assert_eq!(txn.get(&db, "default", b"other")?, None);
    txn.rollback()?;
    assert_eq!(db.get(b"k")?, Some(b"v".to_vec()));
    Ok(())
}

#[test]
fn ended_transactions_refuse_everything() -> Result<()> {
    let mut db = db_with(OpenDBOptions::new());
    let mut txn = db.begin_transaction()?;
    txn.put("default", b"k", b"v")?;
    txn.commit(&mut db)?;
    assert!(matches!(txn.commit(&mut db), Err(Error::Transaction(_))));
    assert!(matches!(txn.rollback(), Err(Error::Transaction(_))));
    assert!(matches!(txn.put("default", b"k", b"w"), Err(Error::Transaction(_))));
    assert!(matches!(txn.delete("default", b"k"), Err(Error::Transaction(_))));
    assert!(matches!(txn.get(&db, "default", b"k"), Err(Error::Transaction(_))));
    assert_eq!(db.get(b"k")?, Some(b"v".to_vec()));

    let mut other = db.begin_transaction()?;
    other.rollback()?;
    assert!(matches!(other.commit(&mut db), Err(Error::Transaction(_))));
    Ok(())
}

#[test]
fn batch_with_unknown_namespace_changes_nothing() -> Result<()> {
    let mut db = db_with(OpenDBOptions::new());
    let mut txn = db.begin_transaction()?;
    txn.put("default", b"k", b"v")?;
    txn.put("no_such_namespace", b"k", b"v")?;
    assert!(matches!(txn.commit(&mut db), Err(Error::Storage(_))));
    assert_eq!(db.get(b"k")?, None);

    let mut backend = MemoryBackend::new();
    let ops = vec![WriteOp::Put("records".to_string(), b"a".to_vec(), b"1".to_vec()), WriteOp::Delete("records".to_string(), b"a".to_vec())];
    backend.write_batch(&ops)?;
    assert_eq!(backend.get("records", b"a")?, None);
    assert!(matches!(backend.get("nowhere", b"a"), Err(Error::Storage(_))));
    Ok(())
}

#[test]
fn similarity_scenario() -> Result<()> {
    let mut db = db_with(OpenDBOptions::with_dimension(3));
    db.insert_memory(&Memory::new("A", "a", bits(&[1.0, 0.0, 0.0]), 0))?;
    db.insert_memory(&Memory::new("B", "b", bits(&[0.9, 0.1, 0.0]), 0))?;
    db.insert_memory(&Memory::new("C", "c", bits(&[0.0, 1.0, 0.0]), 0))?;
    let hits = db.search_similar(&bits(&[1.0, 0.0, 0.0]), 2, euclidean)?;
    let ids: Vec<&str> = hits.iter().map(|h| h.id.as_str()).collect();
    assert_eq!(ids, vec!["A", "B"]);
    assert!(f32::from_bits(hits[0].distance).abs() < 1e-6);
    db.delete_memory("A")?;
    let hits = db.search_similar(&bits(&[1.0, 0.0, 0.0]), 2, euclidean)?;
    let ids: Vec<&str> = hits.iter().map(|h| h.id.as_str()).collect();
    assert_eq!(ids, vec!["B", "C"]);
    db.rebuild_vector_index()?;
    Ok(())
}

#[test]
fn nearest_orders_by_distance_then_position() {
    let cands = vec![
        ("a".to_string(), 5u32),
        ("b".to_string(), 1u32),
        ("c".to_string(), 5u32),
        ("d".to_string(), 0u32),
    ];
    let r = nearest(&cands, 3);
    assert_eq!(r, vec![("d".to_string(), 0), ("b".to_string(), 1), ("a".to_string(), 5)]);
    assert_eq!(nearest(&cands, 10).len(), 4);
    assert!(nearest(&cands, 0).is_empty());
}

#[test]
fn file_types_from_extensions() {
    assert_eq!(FileType::from_extension("PDF"), FileType::Pdf);
    assert_eq!(FileType::from_extension("Md"), FileType::Text);
    assert_eq!(FileType::from_extension("flac"), FileType::Audio);
    assert_eq!(FileType::from_extension("MKV"), FileType::Video);
    assert_eq!(FileType::from_extension("svg"), FileType::Image);
    assert_eq!(FileType::from_extension("docx"), FileType::Docx);
    assert_eq!(FileType::from_extension("exe"), FileType::Unknown);
    assert_eq!(FileType::from_lowercase_extension("PDF"), FileType::Unknown);
    assert_eq!(FileType::Pdf.description(), "PDF document");
    assert_eq!(FileType::Unknown.description(), "Unknown file type");
    assert_ne!(ProcessingStatus::Queued, ProcessingStatus::Failed);
}

#[test]
fn error_reporting() {
    assert!(Error::Storage("x".to_string()).should_report());
    assert!(!Error::NotFound("x".to_string()).should_report());
    assert!(!Error::InvalidInput("x".to_string()).should_report());
    assert_eq!(Error::issues_url(), "https://github.com/muhammad-fiaz/opendb/issues");
    assert_eq!(Error::NotFound("k".to_string()).describe(), "Record not found: k");
    assert_eq!(
        Error::Codec("bad".to_string()).describe(),
        "Codec error: bad\n\nIf this error persists, please report it at: https://github.com/muhammad-fiaz/opendb/issues"
    );
    let msg = Error::InvalidInput("q".to_string()).user_message();
    assert!(msg.starts_with("Invalid input: q\n\n"));
    assert!(msg.ends_with("Visit our GitHub issues: https://github.com/muhammad-fiaz/opendb/issues"));
}

#[test]
fn options_builders() {
    let o = OpenDBOptions::new().with_storage_path("/tmp/x").with_kv_cache_size(7).with_record_cache_size(8).dimension(9);
    assert_eq!(o.kv_cache_size, 7);
    assert_eq!(o.record_cache_size, 8);
    assert_eq!(o.vector_dimension, 9);
    assert_eq!(o.storage_path.as_deref(), Some("/tmp/x"));
    let d = OpenDBOptions::default();
    assert_eq!((d.kv_cache_size, d.record_cache_size, d.vector_dimension), (1000, 500, 384));
    let h = HnswParams::high_accuracy();
    assert_eq!((h.max_connections, h.ef_construction, h.ef_search), (32, 400, 100));
    let s = HnswParams::high_speed();
    assert_eq!((s.max_connections, s.ef_construction, s.ef_search), (8, 100, 25));
    assert_eq!(ColumnFamilies::all().len(), 7);
}

#[test]
fn list_ids_skips_keys_that_are_not_text() -> Result<()> {
    let mut db = db_with(OpenDBOptions::with_dimension(1));
    db.insert_memory(&Memory::new("p_one", "x", bits(&[1.0]), 0))?;
    let backend = db.into_backend();
    let mut backend = backend;
    backend.put("records", &[b'p', 0xff], b"junk")?;
    let mut db = OpenDB::open_with_backend(backend, OpenDBOptions::with_dimension(1));
    assert_eq!(db.list_memory_ids("p")?, vec!["p_one".to_string()]);
    assert!(matches!(db.list_memories("p"), Err(Error::Codec(_))));
    assert!(db.get_memory("p_one")?.is_some());
    Ok(())
}

#[test]
fn dropped_transaction_is_rolled_back() -> Result<()> {
    let mut db = db_with(OpenDBOptions::new());
    {
        let mut txn = db.begin_transaction()?;
        txn.put("default", b"k", b"v")?;
    }
    assert_eq!(db.get(b"k")?, None);
    Ok(())
}

#[test]
fn records_survive_cache_eviction() -> Result<()> {
    let mut db = db_with(OpenDBOptions::with_dimension(1).with_record_cache_size(1));
    db.insert_memory(&Memory::new("r1", "one", bits(&[1.0]), 0))?;
    db.insert_memory(&Memory::new("r2", "two", bits(&[2.0]), 0))?;
    assert_eq!(db.get_memory("r1")?.unwrap().content, "one");
    assert_eq!(db.get_memory("r2")?.unwrap().content, "two");
    assert_eq!(db.get_memory("r1")?.unwrap().content, "one");
    Ok(())
}

#[test]
fn put_clamps_importance_set_on_the_field() -> Result<()> {
    let mut db = db_with(OpenDBOptions::with_dimension(1));
    let mut m = Memory::new("hot", "x", bits(&[1.0]), 0.5f32.to_bits());
    m.importance = 2.0f32.to_bits();
    db.insert_memory(&m)?;
    assert_eq!(f32::from_bits(db.get_memory("hot")?.unwrap().importance), 1.0);
    m.importance = (-3.0f32).to_bits();
    db.insert_memory(&m)?;
    assert_eq!(f32::from_bits(db.get_memory("hot")?.unwrap().importance), 0.0);
    let backend = db.into_backend();
    let mut db = OpenDB::open_with_backend(backend, OpenDBOptions::with_dimension(1));
    assert_eq!(f32::from_bits(db.get_memory("hot")?.unwrap().importance), 0.0);
    Ok(())
}

#[test]
fn huge_length_prefix_in_vector_namespace_is_an_error() -> Result<()> {
    let mut db = db_with(OpenDBOptions::with_dimension(1));
    db.insert_memory(&Memory::new("ok", "x", bits(&[1.0]), 0))?;
    // Varint tag 253, then a u64 length of 2^62.
    let mut bad = vec![253u8];
    bad.extend_from_slice(&(1u64 << 62).to_le_bytes());
    let mut txn = db.begin_transaction()?;
    txn.put("vector_data", b"evil", &bad)?;
    txn.commit(&mut db)?;
    assert!(matches!(db.search_similar(&bits(&[1.0]), 1, euclidean), Err(Error::Codec(_))));
    assert!(matches!(db.rebuild_vector_index(), Err(Error::Codec(_))));
    Ok(())
}

#[test]
fn non_text_vector_key_is_a_vector_index_error() -> Result<()> {
    let mut db = db_with(OpenDBOptions::with_dimension(1));
    db.insert_memory(&Memory::new("ok", "x", bits(&[1.0]), 0))?;
    let mut txn = db.begin_transaction()?;
    txn.put("vector_data", &[0xff, 0xfe], &[1, 0])?;
    txn.commit(&mut db)?;
    assert!(matches!(db.search_similar(&bits(&[1.0]), 1, euclidean), Err(Error::VectorIndex(_))));
    Ok(())
}

#[test]
fn snapshot_from_pairs_is_exact() {
    assert!(snapshot_from_pairs(&vec![]).unwrap().is_empty());
    let good = vec![(b"a".to_vec(), vec![2u8, 1, 2])];
    let v = snapshot_from_pairs(&good).unwrap();
    assert_eq!(v, vec![("a".to_string(), vec![1u32, 2])]);
    assert!(matches!(snapshot_from_pairs(&vec![(b"a".to_vec(), vec![])]), Err(Error::Codec(_))));
    assert!(matches!(snapshot_from_pairs(&vec![(vec![0xff], vec![0])]), Err(Error::VectorIndex(_))));
}

#[test]
fn records_from_pairs_fails_on_any_bad_value() {
    let m = Memory::with_timestamp("a", "b", vec![], 0, 0);
    let good = (b"a".to_vec(), encode_memory(&m).unwrap());
    assert_eq!(records_from_pairs(&vec![good.clone()]).unwrap().len(), 1);
    assert!(matches!(records_from_pairs(&vec![good, (b"b".to_vec(), vec![9])]), Err(Error::Codec(_))));
}

#[test]
fn touch_changes_only_the_timestamp() {
    let mut m = Memory::with_timestamp("a", "b", vec![3], 0, 0);
    m.touch();
    assert!(m.timestamp > 0);
    assert_eq!((m.id.as_str(), m.content.as_str(), m.embedding.clone()), ("a", "b", vec![3]));
}

#[test]
fn cache_trait_bookkeeping() {
    let mut c = LruMemoryCache::<Vec<u8>, Vec<u8>>::new(2);
    Cache::put(&mut c, b"a".to_vec(), b"1".to_vec());
    assert_eq!(Cache::len(&c), 1);
    assert!(!Cache::is_empty(&c));
    assert_eq!(Cache::remove(&mut c, &b"a".to_vec()), Some(b"1".to_vec()));
    assert!(Cache::is_empty(&c));
    Cache::put(&mut c, b"b".to_vec(), b"2".to_vec());
    Cache::clear(&mut c);
    assert_eq!(Cache::len(&c), 0);
}
