use img_forest::disk_cache::DiskCache;
use img_forest::store::MemStore;
use img_forest::store::Store;

const TEST_STR: &str = "~~~~😸 + 🦀 = 🎇~~~~";

#[test]
fn add_contains_rm_dc_sanity() {
    let foo = String::from("this-record-not-persisted");
    let bar = String::from("Hello World!");
    let store: MemStore<String> = MemStore::new();
    let mut dc = DiskCache::new(String::new());

    assert!(!dc.contains_key(&foo, &store));
    assert_eq!(dc.set(foo.clone(), bar.clone()), None);
    assert!(dc.contains_key(&foo, &store));
    assert_eq!(dc.remove(&foo), Some(bar));
    assert!(!dc.contains_key(&foo, &store));
}

#[test]
fn dc_contains_key_finds_records_on_disk() {
    let mut store: MemStore<String> = MemStore::new();
    let dc: DiskCache<String> = DiskCache::new(String::from("database-test-db"));

    let key = String::from("this-record-exists");
    store.put(&key, &String::from(TEST_STR)).unwrap();

    assert_eq!(0, dc.cached_count());
    assert!(dc.contains_key(&key, &store));
}

#[test]
fn dc_adds_extant_record() {
    let mut store: MemStore<String> = MemStore::new();
    let mut dc: DiskCache<String> = DiskCache::new(String::from("database-test-db"));

    let key = String::from("this-record-exists");
    store.put(&key, &String::from(TEST_STR)).unwrap();

    assert_eq!(0, dc.cached_count());
    assert_eq!(&String::from(TEST_STR), dc.get(&key, &store).unwrap());

    assert_eq!(1, dc.cached_count());
    // The loaded key is now held in memory: even against a store with no
    // records, the cache reports it present.
    let empty: MemStore<String> = MemStore::new();
    assert!(dc.contains_key(&key, &empty));
}

#[test]
fn dc_adds_multiple_extant_record() {
    let mut store: MemStore<String> = MemStore::new();
    let mut dc: DiskCache<String> = DiskCache::new(String::from("database-test-db"));

    let mut keys = Vec::with_capacity(8);
    for n in 0..8 {
        let key = format!("multiple-record-{}", n);
        store.put(&key, &String::from(TEST_STR)).unwrap();
        keys.push(key);
    }

    for key in &keys {
        dc.get(key, &store);
    }

    assert_eq!(8, dc.cached_count());

    for key in &keys {
        assert!(dc.contains_key(key, &store));
        assert_eq!(&String::from(TEST_STR), dc.get(key, &store).unwrap());
    }
}

#[test]
fn dc_doesnt_add_non_extant_record() {
    let store: MemStore<String> = MemStore::new();
    let key = String::from("this-record-does-not-exist");
    let mut dc: DiskCache<String> = DiskCache::new(String::from("database-test-db"));
    dc.get(&key, &store);

    assert!(!dc.contains_key(&key, &store));
}

#[test]
fn dc_persists_new_records_to_disk() {
    let key = String::from("a-new-record");
    let val = String::from("bar");
    let mut store: MemStore<String> = MemStore::new();
    let mut dc = DiskCache::new(String::from("database-test-db"));

    // The record must not be present before starting
    // or else this test is meaningless.
    assert!(!store.has_record(&key));

    dc.set(key.clone(), val.clone());
    dc.persist(&mut store).unwrap();

    // The record must be present after the persist operation.
    assert!(store.has_record(&key));
}

#[test]
fn dc_persist_removes_from_disk() {
    let key = String::from("a-record-on-disk");
    let val = String::from("bar");
    let mut store: MemStore<String> = MemStore::new();
    let mut dc = DiskCache::new(String::from("database-test-db"));

    // Set the initial value on disk.
    dc.set(key.clone(), val.clone());
    dc.persist(&mut store).unwrap();
    assert!(store.has_record(&key));

    // A fresh cache has not loaded the record, so removing it yields None —
    // but still marks it for deletion.
    let mut fresh = DiskCache::<String>::new(String::from("database-test-db"));
    assert_eq!(None, fresh.remove(&key));

    // The record must not be present on disk after remove and persist.
    fresh.persist(&mut store).unwrap();
    assert!(!store.has_record(&key));
}

#[test]
fn dc_persist_updates_existing_record() {
    let key = String::from("a-record-to-update");
    let val0 = String::from("bar");
    let val1 = String::from("baz");
    let mut store: MemStore<String> = MemStore::new();
    let mut dc = DiskCache::new(String::from("database-test-db"));

    // Set the initial value on disk.
    dc.set(key.clone(), val0.clone());
    dc.persist(&mut store).unwrap();
    assert!(store.has_record(&key));

    // Set the updated value on disk, through a cache that never loaded the
    // old one.
    let mut updater = DiskCache::<String>::new(String::from("database-test-db"));
    updater.remove(&key);
    updater.set(key.clone(), val1.clone());
    updater.persist(&mut store).unwrap();

    // A cache that has seen none of this reads the updated value back.
    let mut fresh = DiskCache::new(String::from("database-test-db"));
    assert!(store.has_record(&key));
    assert_eq!(&val1, fresh.get(&key, &store).unwrap());
}
