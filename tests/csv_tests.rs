use persistent_map::csv::CsvBackend;
use persistent_map::{BackendOp, PendingWrite, PersistentMap, Result};

/// Performs a pending write on `file`, the contents of the backend's file.
fn complete(file: &mut Vec<u8>, pending: PendingWrite) -> Result<Option<String>> {
    let outcome = match &pending.op {
        Some(BackendOp::Save { key, value }) => {
            file.extend_from_slice(&CsvBackend::record(key, value));
            Ok(())
        }
        Some(BackendOp::Delete { key }) => {
            CsvBackend::rewrite_without(file, key).map(|bytes| *file = bytes)
        }
        Some(BackendOp::Flush) | None => Ok(()),
    };
    pending.finish(outcome)
}

fn insert(map: &mut PersistentMap<CsvBackend>, file: &mut Vec<u8>, key: &str, value: &str) -> Result<Option<String>> {
    let pending = map.insert(key.to_string(), value.to_string());
    complete(file, pending)
}

fn remove(map: &mut PersistentMap<CsvBackend>, file: &mut Vec<u8>, key: &str) -> Result<Option<String>> {
    let pending = map.remove(&key.to_string());
    complete(file, pending)
}

#[test]
fn test_csv_backend() -> Result<()> {
    // The file starts out empty
    let mut file: Vec<u8> = Vec::new();
    let backend = CsvBackend::new("test.csv");
    assert_eq!(backend.path(), "test.csv");

    // Initialize the map with the backend
    let loaded = CsvBackend::parse(&file);
    let mut map = PersistentMap::new(backend, loaded)?;

    // Test initial state
    assert_eq!(map.len(), 0);
    assert!(map.is_empty());

    // Test insert
    insert(&mut map, &mut file, "key1", "value1")?;
    assert_eq!(map.len(), 1);
    assert!(!map.is_empty());
    assert!(map.contains_key(&"key1".to_string()));
    assert_eq!(map.get(&"key1".to_string()), Some("value1".to_string()));

    // Test update
    insert(&mut map, &mut file, "key1", "value2")?;
    assert_eq!(map.len(), 1);
    assert_eq!(map.get(&"key1".to_string()), Some("value2".to_string()));

    // Test remove
    let old_value = remove(&mut map, &mut file, "key1")?;
    assert_eq!(old_value, Some("value2".to_string()));
    assert_eq!(map.len(), 0);
    assert!(map.is_empty());
    assert!(!map.contains_key(&"key1".to_string()));

    // Test multiple inserts
    insert(&mut map, &mut file, "key1", "value1")?;
    insert(&mut map, &mut file, "key2", "value2")?;
    insert(&mut map, &mut file, "key3", "value3")?;
    assert_eq!(map.len(), 3);
    assert_eq!(map.get(&"key1".to_string()), Some("value1".to_string()));
    assert_eq!(map.get(&"key2".to_string()), Some("value2".to_string()));
    assert_eq!(map.get(&"key3".to_string()), Some("value3".to_string()));

    // Test flush
    map.backend().flush()?;

    // The file holds what memory holds
    let reloaded = CsvBackend::parse(&file)?;
    assert_eq!(reloaded.len(), 3);
    assert_eq!(reloaded.get(&"key2".to_string()), Some(&"value2".to_string()));
    Ok(())
}
