use persistent_map::in_memory::InMemoryBackend;
use persistent_map::{BackendOp, PendingWrite, PersistentMap, Result};

fn complete(backend: &InMemoryBackend, pending: PendingWrite) -> Result<Option<String>> {
    let outcome = match &pending.op {
        Some(BackendOp::Save { key, value }) => backend.save(key.clone(), value.clone()),
        Some(BackendOp::Delete { key }) => backend.delete(key),
        Some(BackendOp::Flush) => backend.flush(),
        None => Ok(()),
    };
    pending.finish(outcome)
}

fn insert(map: &mut PersistentMap<InMemoryBackend>, key: &str, value: &str) -> Result<Option<String>> {
    let pending = map.insert(key.to_string(), value.to_string());
    complete(map.backend(), pending)
}

fn remove(map: &mut PersistentMap<InMemoryBackend>, key: &str) -> Result<Option<String>> {
    let pending = map.remove(&key.to_string());
    complete(map.backend(), pending)
}

#[test]
fn test_in_memory_backend() -> Result<()> {
    // Create an in-memory backend
    let backend = InMemoryBackend::new();

    // Initialize the map with the backend
    let loaded = backend.load_all();
    let mut map = PersistentMap::new(backend, loaded)?;

    // Test initial state
    assert_eq!(map.len(), 0);
    assert!(map.is_empty());

    // Test insert
    insert(&mut map, "key1", "value1")?;
    assert_eq!(map.len(), 1);
    assert!(!map.is_empty());
    assert!(map.contains_key(&"key1".to_string()));
    assert_eq!(map.get(&"key1".to_string()), Some("value1".to_string()));

    // Test update
    insert(&mut map, "key1", "value2")?;
    assert_eq!(map.len(), 1);
    assert_eq!(map.get(&"key1".to_string()), Some("value2".to_string()));

    // Test remove
    let old_value = remove(&mut map, "key1")?;
    assert_eq!(old_value, Some("value2".to_string()));
    assert_eq!(map.len(), 0);
    assert!(map.is_empty());
    assert!(!map.contains_key(&"key1".to_string()));

    // Test multiple inserts
    insert(&mut map, "key1", "value1")?;
    insert(&mut map, "key2", "value2")?;
    insert(&mut map, "key3", "value3")?;
    assert_eq!(map.len(), 3);
    assert_eq!(map.get(&"key1".to_string()), Some("value1".to_string()));
    assert_eq!(map.get(&"key2".to_string()), Some("value2".to_string()));
    assert_eq!(map.get(&"key3".to_string()), Some("value3".to_string()));

    // Test flush (a no-op for in-memory)
    map.backend().flush()?;
    assert_eq!(map.len(), 3);

    // Test clear
    map.clear();
    assert_eq!(map.len(), 0);
    assert!(map.is_empty());

    Ok(())
}
