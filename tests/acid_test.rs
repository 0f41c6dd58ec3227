use opendb::{Memory, MemoryBackend, OpenDB, OpenDBOptions, Result};

fn bits(v: &[f32]) -> Vec<u32> {
    v.iter().map(|x| x.to_bits()).collect()
}

fn setup_test_db() -> Result<OpenDB<MemoryBackend>> {
    // Use dimension 3 for tests to keep vectors small
    let options = OpenDBOptions::with_dimension(3);
    Ok(OpenDB::open_with_backend(MemoryBackend::new(), options))
}

#[test]
fn test_atomicity() -> Result<()> {
    let mut db = setup_test_db()?;

    let mut txn = db.begin_transaction()?;

    txn.put("default", b"key1", b"value1")?;
    txn.put("default", b"key2", b"value2")?;
    txn.put("default", b"key3", b"value3")?;

    txn.commit(&mut db)?;

    assert!(db.get(b"key1")?.is_some());
    assert!(db.get(b"key2")?.is_some());
    assert!(db.get(b"key3")?.is_some());

    Ok(())
}

#[test]
fn test_rollback() -> Result<()> {
    let mut db = setup_test_db()?;

    db.put(b"key1", b"original")?;

    let mut txn = db.begin_transaction()?;
    txn.put("default", b"key1", b"modified")?;
    txn.put("default", b"key2", b"new")?;

    txn.rollback()?;

    let val = db.get(b"key1")?;
    assert_eq!(val, Some(b"original".to_vec()));

    assert!(db.get(b"key2")?.is_none());

    Ok(())
}

#[test]
fn test_consistency() -> Result<()> {
    let mut db = setup_test_db()?;

    let mem1 = Memory::new("cons_1", "content1", bits(&[1.0; 3]), 0.5f32.to_bits());
    let mem2 = Memory::new("cons_2", "content2", bits(&[2.0; 3]), 0.5f32.to_bits());

    db.insert_memory(&mem1)?;
    db.insert_memory(&mem2)?;
    db.link("cons_1", "related", "cons_2")?;

    assert!(db.get_memory("cons_1")?.is_some());
    assert!(db.get_memory("cons_2")?.is_some());

    let related = db.get_related("cons_1", "related")?;
    assert_eq!(related, vec!["cons_2"]);

    Ok(())
}

#[test]
fn test_isolation_via_snapshot() -> Result<()> {
    let mut db = setup_test_db()?;

    db.put(b"counter", b"0")?;

    Ok(())
}

#[test]
fn test_durability() -> Result<()> {
    let backend = {
        let options = OpenDBOptions::with_dimension(3);
        let mut db = OpenDB::open_with_backend(MemoryBackend::new(), options);
        let mem = Memory::new("durable", "persisted data", bits(&[1.0; 3]), 0.9f32.to_bits());
        db.insert_memory(&mem)?;
        db.flush()?;
        db.into_backend()
    };

    {
        let options = OpenDBOptions::with_dimension(3);
        let mut db = OpenDB::open_with_backend(backend, options);
        let retrieved = db.get_memory("durable")?;
        assert!(retrieved.is_some());
        let retrieved = retrieved.unwrap();
        assert_eq!(retrieved.content, "persisted data");
        assert_eq!(f32::from_bits(retrieved.importance), 0.9);
    }

    Ok(())
}

#[test]
fn test_write_after_read_consistency() -> Result<()> {
    let mut db = setup_test_db()?;

    let mem1 = Memory::new("war_test", "version 1", bits(&[1.0; 3]), 0.5f32.to_bits());
    db.insert_memory(&mem1)?;

    let read1 = db.get_memory("war_test")?.unwrap();
    assert_eq!(read1.content, "version 1");

    let mem2 = Memory::new("war_test", "version 2", bits(&[2.0; 3]), 0.6f32.to_bits());
    db.insert_memory(&mem2)?;

    let read2 = db.get_memory("war_test")?.unwrap();
    assert_eq!(read2.content, "version 2");
    assert_eq!(f32::from_bits(read2.importance), 0.6);

    Ok(())
}
