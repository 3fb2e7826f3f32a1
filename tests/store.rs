use fezz::manifest::OwnedFunctionManifest;
use fezz::store::{FunctionEntry, MemoryStore, StoreEvent};

fn test_manifest() -> OwnedFunctionManifest {
    OwnedFunctionManifest::new("test-fn", "v1", "GET", "/api/test")
}

#[test]
fn test_memory_store_register() {
    let mut store = MemoryStore::new();
    let entry = FunctionEntry::new(test_manifest()).on_node("node-1");

    store.register(entry).unwrap();

    let stored = store.get("test-fn");
    assert!(stored.is_some());
    assert_eq!(stored.unwrap().manifest.id, "test-fn");
}

#[test]
fn test_memory_store_duplicate_register() {
    let mut store = MemoryStore::new();
    let entry = FunctionEntry::new(test_manifest());

    store.register(entry.clone()).unwrap();
    let result = store.register(entry);

    assert!(result.is_err());
}

#[test]
fn test_memory_store_update() {
    let mut store = MemoryStore::new();
    let entry = FunctionEntry::new(test_manifest());

    store.register(entry.clone()).unwrap();

    let updated = entry.on_node("node-2");
    store.update(updated).unwrap();

    let stored = store.get("test-fn").unwrap();
    assert_eq!(stored.nodes.len(), 1);
    assert_eq!(stored.nodes[0], "node-2");
}

#[test]
fn test_memory_store_remove() {
    let mut store = MemoryStore::new();
    let entry = FunctionEntry::new(test_manifest());

    store.register(entry).unwrap();
    store.remove("test-fn").unwrap();

    let stored = store.get("test-fn");
    assert!(stored.is_none());
}

#[test]
fn test_memory_store_list() {
    let mut store = MemoryStore::new();

    store.register(FunctionEntry::new(OwnedFunctionManifest::new("fn-1", "v1", "GET", "/a"))).unwrap();

    store.register(FunctionEntry::new(OwnedFunctionManifest::new("fn-2", "v1", "POST", "/b"))).unwrap();

    let entries = store.list();
    assert_eq!(entries.len(), 2);
}

#[test]
fn store_events_and_errors() {
    let mut store = MemoryStore::new();
    let e = FunctionEntry::at(test_manifest(), 42).enabled(false);
    assert!(matches!(store.register(e.clone()), Ok(StoreEvent::Added(_))));
    assert!(matches!(store.update(e), Ok(StoreEvent::Updated(_))));
    match store.remove("test-fn") {
        Ok(StoreEvent::Removed(id)) => assert_eq!(id, "test-fn"),
        _ => panic!("expected a removal"),
    }
    assert_eq!(store.remove("test-fn").err().unwrap().message, "Function 'test-fn' not found");
    let missing = FunctionEntry::at(test_manifest(), 1);
    assert_eq!(store.update(missing).err().unwrap().message, "Function 'test-fn' not found");
}

#[test]
fn timestamps_in_milliseconds() {
    assert_eq!(fezz::store::millis_from_nanos(1_500_000_000), 1500);
    assert_eq!(fezz::store::millis_from_nanos(u128::MAX), u64::MAX);
    assert!(fezz::store::current_timestamp() > 1_600_000_000_000);
}
