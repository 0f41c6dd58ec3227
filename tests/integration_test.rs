use opendb::{Memory, MemoryBackend, OpenDB, OpenDBOptions, Result};

fn bits(v: &[f32]) -> Vec<u32> {
    v.iter().map(|x| x.to_bits()).collect()
}

fn euclidean(a: &[u32], b: &[u32]) -> u32 {
    let sum: f32 = a
        .iter()
        .zip(b.iter())
        .map(|(x, y)| (f32::from_bits(*x) - f32::from_bits(*y)).powi(2))
        .sum();
    sum.sqrt().to_bits()
}

fn setup_test_db() -> Result<OpenDB<MemoryBackend>> {
    // Use dimension 3 for tests to keep vectors small
    let options = OpenDBOptions::with_dimension(3);
    Ok(OpenDB::open_with_backend(MemoryBackend::new(), options))
}

#[test]
fn test_basic_kv_operations() -> Result<()> {
    let mut db = setup_test_db()?;

    db.put(b"key1", b"value1")?;

    let value = db.get(b"key1")?;
    assert_eq!(value, Some(b"value1".to_vec()));

    assert!(db.contains_key(b"key1")?);
    assert!(!db.contains_key(b"nonexistent")?);

    db.delete(b"key1")?;
    assert_eq!(db.get(b"key1")?, None);

    Ok(())
}

#[test]
fn test_memory_crud() -> Result<()> {
    let mut db = setup_test_db()?;

    let memory = Memory::new("test_id", "test content", bits(&[1.0, 2.0, 3.0]), 0.8f32.to_bits());
    db.insert_memory(&memory)?;

    let retrieved = db.get_memory("test_id")?;
    assert!(retrieved.is_some());
    let retrieved = retrieved.unwrap();
    assert_eq!(retrieved.id, "test_id");
    assert_eq!(retrieved.content, "test content");
    assert_eq!(retrieved.embedding, bits(&[1.0, 2.0, 3.0]));
    assert_eq!(f32::from_bits(retrieved.importance), 0.8);

    let updated = Memory::new("test_id", "updated content", bits(&[4.0, 5.0, 6.0]), 0.9f32.to_bits());
    db.insert_memory(&updated)?;

    let retrieved = db.get_memory("test_id")?.unwrap();
    assert_eq!(retrieved.content, "updated content");
    assert_eq!(f32::from_bits(retrieved.importance), 0.9);

    db.delete_memory("test_id")?;
    assert!(db.get_memory("test_id")?.is_none());

    Ok(())
}

#[test]
fn test_graph_operations() -> Result<()> {
    let mut db = setup_test_db()?;

    let mem1 = Memory::new("mem1", "content1", bits(&[1.0; 3]), 0.5f32.to_bits());
    let mem2 = Memory::new("mem2", "content2", bits(&[2.0; 3]), 0.5f32.to_bits());
    let mem3 = Memory::new("mem3", "content3", bits(&[3.0; 3]), 0.5f32.to_bits());

    db.insert_memory(&mem1)?;
    db.insert_memory(&mem2)?;
    db.insert_memory(&mem3)?;

    db.link("mem1", "related_to", "mem2")?;
    db.link("mem1", "references", "mem3")?;
    db.link("mem2", "related_to", "mem3")?;

    let related = db.get_related("mem1", "related_to")?;
    assert_eq!(related, vec!["mem2"]);

    let referenced = db.get_related("mem1", "references")?;
    assert_eq!(referenced, vec!["mem3"]);

    let outgoing = db.get_outgoing("mem1")?;
    assert_eq!(outgoing.len(), 2);

    let incoming = db.get_incoming("mem3")?;
    assert_eq!(incoming.len(), 2);

    db.unlink("mem1", "related_to", "mem2")?;
    let related = db.get_related("mem1", "related_to")?;
    assert!(related.is_empty());

    Ok(())
}

#[test]
fn test_vector_search() -> Result<()> {
    let mut db = setup_test_db()?;

    let mem1 = Memory::new("v1", "first", bits(&[1.0, 0.0, 0.0]), 0.5f32.to_bits());
    let mem2 = Memory::new("v2", "second", bits(&[0.9, 0.1, 0.0]), 0.5f32.to_bits());
    let mem3 = Memory::new("v3", "third", bits(&[0.0, 1.0, 0.0]), 0.5f32.to_bits());

    db.insert_memory(&mem1)?;
    db.insert_memory(&mem2)?;
    db.insert_memory(&mem3)?;

    let results = db.search_similar(&bits(&[1.0, 0.0, 0.0]), 2, euclidean)?;
    assert_eq!(results.len(), 2);

    assert_eq!(results[0].id, "v1");
    assert!(f32::from_bits(results[0].distance) < 0.01);

    assert_eq!(results[1].id, "v2");

    Ok(())
}

#[test]
fn test_list_operations() -> Result<()> {
    let mut db = setup_test_db()?;

    db.insert_memory(&Memory::new("user_001", "content", bits(&[1.0; 3]), 0.5f32.to_bits()))?;
    db.insert_memory(&Memory::new("user_002", "content", bits(&[1.0; 3]), 0.5f32.to_bits()))?;
    db.insert_memory(&Memory::new("system_001", "content", bits(&[1.0; 3]), 0.5f32.to_bits()))?;

    let user_ids = db.list_memory_ids("user")?;
    assert_eq!(user_ids.len(), 2);
    assert!(user_ids.contains(&"user_001".to_string()));
    assert!(user_ids.contains(&"user_002".to_string()));

    let user_memories = db.list_memories("user")?;
    assert_eq!(user_memories.len(), 2);

    Ok(())
}

#[test]
fn test_cache_coherency() -> Result<()> {
    let mut db = setup_test_db()?;

    let mem = Memory::new("cache_test", "original", bits(&[1.0; 3]), 0.5f32.to_bits());
    db.insert_memory(&mem)?;

    let retrieved1 = db.get_memory("cache_test")?.unwrap();
    assert_eq!(retrieved1.content, "original");

    let updated = Memory::new("cache_test", "updated", bits(&[2.0; 3]), 0.6f32.to_bits());
    db.insert_memory(&updated)?;

    let retrieved2 = db.get_memory("cache_test")?.unwrap();
    assert_eq!(retrieved2.content, "updated");
    assert_eq!(f32::from_bits(retrieved2.importance), 0.6);

    db.delete_memory("cache_test")?;

    assert!(db.get_memory("cache_test")?.is_none());

    Ok(())
}

#[test]
fn test_metadata() -> Result<()> {
    let mut db = setup_test_db()?;

    let mem = Memory::new("meta_test", "content", bits(&[1.0; 3]), 0.5f32.to_bits())
        .with_metadata("key1", "value1")
        .with_metadata("key2", "value2");

    db.insert_memory(&mem)?;

    let retrieved = db.get_memory("meta_test")?.unwrap();
    let get = |k: &str| retrieved.metadata.iter().find(|(key, _)| key == k).map(|(_, v)| v.clone());
    assert_eq!(get("key1"), Some("value1".to_string()));
    assert_eq!(get("key2"), Some("value2".to_string()));

    Ok(())
}
