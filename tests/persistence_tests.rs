use persistent_map::csv::CsvBackend;
use persistent_map::in_memory::InMemoryBackend;
use persistent_map::{BackendOp, PendingWrite, PersistentMap, Result};

/// Performs a pending write on `file`, the contents of a CSV backend's file.
fn complete_csv(file: &mut Vec<u8>, pending: PendingWrite) -> Result<Option<String>> {
    let outcome = match &pending.op {
        Some(BackendOp::Save { key, value }) => {
            file.extend_from_slice(&CsvBackend::record(key, value));
            Ok(())
        }
        Some(BackendOp::Delete { key }) => {
            CsvBackend::rewrite_without(file, key).map(|bytes| *file = bytes)
        }
        Some(BackendOp::Flush) | None => Ok(()),
    };
    pending.finish(outcome)
}

fn complete_in_memory(backend: &InMemoryBackend, pending: PendingWrite) -> Result<Option<String>> {
    let outcome = match &pending.op {
        Some(BackendOp::Save { key, value }) => backend.save(key.clone(), value.clone()),
        Some(BackendOp::Delete { key }) => backend.delete(key),
        Some(BackendOp::Flush) => backend.flush(),
        None => Ok(()),
    };
    pending.finish(outcome)
}

#[test]
fn test_csv_persistence() -> Result<()> {
    let mut file: Vec<u8> = Vec::new();

    // First session: create a map and insert data
    {
        let backend = CsvBackend::new("test_persistence.csv");
        let loaded = CsvBackend::parse(&file);
        let mut map = PersistentMap::new(backend, loaded)?;

        let pending = map.insert("key1".to_string(), "value1".to_string());
        complete_csv(&mut file, pending)?;
        let pending = map.insert("key2".to_string(), "value2".to_string());
        complete_csv(&mut file, pending)?;

        map.backend().flush()?;
    }

    // Second session: a new map over the same file sees the data
    {
        let backend = CsvBackend::new("test_persistence.csv");
        let loaded = CsvBackend::parse(&file);
        let map = PersistentMap::new(backend, loaded)?;

        assert_eq!(map.get(&"key1".to_string()), Some("value1".to_string()));
        assert_eq!(map.get(&"key2".to_string()), Some("value2".to_string()));
        assert_eq!(map.len(), 2);
    }

    Ok(())
}

#[test]
fn test_in_memory_no_persistence() -> Result<()> {
    // First session: create a map and insert data
    {
        let backend = InMemoryBackend::new();
        let loaded = backend.load_all();
        let mut map = PersistentMap::new(backend, loaded)?;

        let pending = map.insert("key1".to_string(), "value1".to_string());
        complete_in_memory(map.backend(), pending)?;
        let pending = map.insert("key2".to_string(), "value2".to_string());
        complete_in_memory(map.backend(), pending)?;

        map.backend().flush()?;
    }

    // Second session: nothing was kept
    {
        let backend = InMemoryBackend::new();
        let loaded = backend.load_all();
        let map = PersistentMap::new(backend, loaded)?;

        assert_eq!(map.get(&"key1".to_string()), None);
        assert_eq!(map.get(&"key2".to_string()), None);
        assert_eq!(map.len(), 0);
    }

    Ok(())
}
