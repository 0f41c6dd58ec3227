use opendb::codec::{decode_edge, decode_edges, decode_memory, encode_edge, encode_edges, encode_memory};
use opendb::{Edge, Error, LruMemoryCache, Memory};

#[test]
fn test_memory_encode_decode() {
    let embedding: Vec<u32> = [1.0f32, 2.0, 3.0].iter().map(|x| x.to_bits()).collect();
    let memory = Memory::new("test_id", "test content", embedding, 0.5f32.to_bits());

    let encoded = encode_memory(&memory).unwrap();
    let decoded = decode_memory(&encoded).unwrap();

    assert_eq!(memory.id, decoded.id);
    assert_eq!(memory.content, decoded.content);
    assert_eq!(memory.embedding, decoded.embedding);
    assert_eq!(memory.importance, decoded.importance);
}

#[test]
fn test_edge_encode_decode() {
    let edge = Edge::new("from_1", "related", "to_1");

    let encoded = encode_edge(&edge).unwrap();
    let decoded = decode_edge(&encoded).unwrap();

    assert_eq!(edge.from, decoded.from);
    assert_eq!(edge.relation, decoded.relation);
    assert_eq!(edge.to, decoded.to);
}

#[test]
fn test_lru_basic() {
    let mut cache = LruMemoryCache::<Vec<u8>, Vec<u8>>::new(2);

    cache.insert(b"key1".to_vec(), b"value1".to_vec());
    cache.insert(b"key2".to_vec(), b"value2".to_vec());

    assert_eq!(cache.get_cloned(&b"key1".to_vec()), Some(b"value1".to_vec()));

    // key1 was read last, so key2 is the least recently used and leaves.
    cache.insert(b"key3".to_vec(), b"value3".to_vec());

    assert_eq!(cache.get_cloned(&b"key1".to_vec()), Some(b"value1".to_vec()));
    assert_eq!(cache.get_cloned(&b"key2".to_vec()), None);
    assert_eq!(cache.get_cloned(&b"key3".to_vec()), Some(b"value3".to_vec()));
}

#[test]
fn memory_round_trip_keeps_every_field() {
    let embedding: Vec<u32> = [0.25f32, -1.5, f32::MAX].iter().map(|x| x.to_bits()).collect();
    let memory = Memory::with_timestamp("id é", "ünïcode ✓", embedding, 0.75f32.to_bits(), -42)
        .with_metadata("k1", "v1")
        .with_metadata("k2", "");
    let decoded = decode_memory(&encode_memory(&memory).unwrap()).unwrap();
    assert_eq!(decoded.id, memory.id);
    assert_eq!(decoded.content, memory.content);
    assert_eq!(decoded.embedding, memory.embedding);
    assert_eq!(decoded.importance, memory.importance);
    assert_eq!(decoded.timestamp, -42);
    assert_eq!(decoded.metadata, memory.metadata);
}

#[test]
fn encoding_starts_with_version_tag() {
    let memory = Memory::with_timestamp("a", "b", vec![], 0, 0);
    let encoded = encode_memory(&memory).unwrap();
    assert_eq!(encoded[0], 1);
    // tag, two strings of one byte, empty list, importance, timestamp, empty list
    assert_eq!(encoded.len(), 1 + 9 + 9 + 8 + 4 + 8 + 8);
}

#[test]
fn decode_rejects_empty_and_unknown_version() {
    assert!(matches!(decode_memory(&[]), Err(Error::Codec(_))));
    let memory = Memory::with_timestamp("a", "b", vec![], 0, 0);
    let mut encoded = encode_memory(&memory).unwrap();
    encoded[0] = 2;
    assert!(matches!(decode_memory(&encoded), Err(Error::Codec(_))));
    assert!(matches!(decode_edge(&[]), Err(Error::Codec(_))));
    assert!(matches!(decode_edges(&[7]), Err(Error::Codec(_))));
}

#[test]
fn decode_rejects_truncated_and_trailing_bytes() {
    let memory = Memory::with_timestamp("abc", "def", vec![1, 2], 0, 5);
    let encoded = encode_memory(&memory).unwrap();
    assert!(matches!(decode_memory(&encoded[..encoded.len() - 1]), Err(Error::Codec(_))));
    let mut longer = encoded.clone();
    longer.push(0);
    assert!(matches!(decode_memory(&longer), Err(Error::Codec(_))));
}

#[test]
fn empty_adjacency_blob_is_empty_list() {
    assert_eq!(decode_edges(&[]).unwrap().len(), 0);
    let edges = vec![Edge::new("a", "r", "b"), Edge::new("a", "s", "c").with_weight(0.5f32.to_bits())];
    let decoded = decode_edges(&encode_edges(&edges).unwrap()).unwrap();
    assert_eq!(decoded.len(), 2);
    assert_eq!(decoded[1].to, "c");
    assert_eq!(decoded[1].weight, 0.5f32.to_bits());
    assert_eq!(decoded[0].weight, 1.0f32.to_bits());
}
