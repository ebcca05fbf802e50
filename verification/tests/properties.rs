use img_forest::disk_cache::DiskCache;
use img_forest::store::MemStore;
use img_forest::store::Store;
use img_forest::store::StoreError;
use img_forest::types::Image;

#[test]
fn fresh_cache_over_empty_directory_sees_nothing() {
    let store: MemStore<String> = MemStore::new();
    let mut dc: DiskCache<String> = DiskCache::new(String::from("empty-db"));

    assert!(!dc.contains_key(&String::from("anything"), &store));
    assert_eq!(None, dc.get(&String::from("anything"), &store));
}

#[test]
fn set_then_get_needs_no_backing_record() {
    // The store stays empty: the lookup is answered from memory alone.
    let store: MemStore<String> = MemStore::new();
    let mut dc = DiskCache::new(String::from("db"));

    dc.set(String::from("k"), String::from("v"));
    assert_eq!(Some(&String::from("v")), dc.get(&String::from("k"), &store));
    assert!(!store.has_record(&String::from("k")));
}

#[test]
fn remove_untracked_key_returns_none() {
    let mut dc: DiskCache<String> = DiskCache::new(String::from("db"));
    assert_eq!(None, dc.remove(&String::from("never-seen")));
}

#[test]
fn persist_then_reload_through_fresh_cache() {
    let mut store: MemStore<String> = MemStore::new();
    let mut dc = DiskCache::new(String::from("db"));

    dc.set(String::from("k"), String::from("v"));
    dc.persist(&mut store).unwrap();

    // A restart: a fresh cache over the same base path and store.
    let mut fresh = DiskCache::new(String::from("db"));
    assert_eq!(Some(&String::from("v")), fresh.get(&String::from("k"), &store));
}

#[test]
fn preexisting_record_loads_once_and_stays() {
    let mut store: MemStore<String> = MemStore::new();
    store.put(&String::from("k"), &String::from("old")).unwrap();

    let mut dc: DiskCache<String> = DiskCache::new(String::from("db"));
    assert!(dc.contains_key(&String::from("k"), &store));

    let first = dc.get(&String::from("k"), &store).cloned();
    let second = dc.get(&String::from("k"), &store).cloned();
    assert_eq!(first, Some(String::from("old")));
    assert_eq!(second, first);

    // Loading marked nothing dirty: persisting rewrites no record.
    dc.persist(&mut store).unwrap();
    assert_eq!(Some(String::from("old")), store.read(&String::from("k")));
}

#[test]
fn record_path_joins_base_and_key() {
    let dc: DiskCache<String> = DiskCache::new(String::from("/tmp/db"));
    assert_eq!(&String::from("/tmp/db"), dc.base_path());
    assert_eq!(
        String::from("/tmp/db/a-new-record"),
        dc.record_path(&String::from("a-new-record"))
    );
}

#[test]
fn new_record_reaches_disk_only_on_persist() {
    // Base path /tmp/db; the record file must appear only once persisted.
    let mut store: MemStore<String> = MemStore::new();
    let mut dc = DiskCache::new(String::from("/tmp/db"));

    dc.set(String::from("a-new-record"), String::from("bar"));
    assert!(!store.has_record(&String::from("a-new-record")));

    dc.persist(&mut store).unwrap();
    assert!(store.has_record(&String::from("a-new-record")));
    assert_eq!(Some(String::from("bar")), store.read(&String::from("a-new-record")));
}

#[test]
fn images_round_trip_through_a_store() {
    let mut store: MemStore<Image> = MemStore::new();
    let mut dc: DiskCache<Image> = DiskCache::new(String::from("img-db"));

    let img = Image { public: true, owner: String::from("chipper"), data: vec![1, 2, 3, 255] };
    dc.set(String::from("pic"), img);
    dc.persist(&mut store).unwrap();

    let mut fresh: DiskCache<Image> = DiskCache::new(String::from("img-db"));
    let got = fresh.get(&String::from("pic"), &store).unwrap();
    assert!(got.public);
    assert_eq!(String::from("chipper"), got.owner);
    assert_eq!(vec![1u8, 2, 3, 255], got.data);
}

#[test]
fn double_remove_persists_cleanly() {
    // Removing a key that is in neither the cache nor the store, then
    // persisting, is a no-op: no error, nothing changed.
    let mut store: MemStore<String> = MemStore::new();
    store.put(&String::from("other"), &String::from("x")).unwrap();
    let mut dc: DiskCache<String> = DiskCache::new(String::from("db"));

    assert_eq!(None, dc.remove(&String::from("ghost")));
    assert_eq!(None, dc.remove(&String::from("ghost")));
    dc.persist(&mut store).unwrap();

    assert!(!store.has_record(&String::from("ghost")));
    assert_eq!(Some(String::from("x")), store.read(&String::from("other")));
}

#[test]
fn second_persist_after_success_is_a_no_op() {
    // A successful persist drains the dirty set, so persisting again
    // succeeds and rewrites nothing.
    let mut store: MemStore<String> = MemStore::new();
    let mut dc = DiskCache::new(String::from("db"));

    dc.set(String::from("k"), String::from("v"));
    dc.persist(&mut store).unwrap();
    dc.persist(&mut store).unwrap();

    assert_eq!(Some(String::from("v")), store.read(&String::from("k")));
}

/// A store whose writes always fail, for exercising the persist error path.
struct BrokenStore;

impl Store<String> for BrokenStore {
    fn put(&mut self, _name: &String, _v: &String) -> Result<(), StoreError> {
        Err(StoreError::Io)
    }

    fn remove_record(&mut self, _name: &String) -> Result<(), StoreError> {
        Err(StoreError::Io)
    }

    fn read(&self, _name: &String) -> Option<String> {
        None
    }

    fn has_record(&self, _name: &String) -> bool {
        false
    }
}

#[test]
fn persist_error_keeps_keys_dirty_for_retry() {
    let mut dc = DiskCache::new(String::from("db"));
    dc.set(String::from("k"), String::from("v"));

    // The first persist fails and surfaces the store's error.
    let mut broken = BrokenStore;
    assert_eq!(Err(StoreError::Io), dc.persist(&mut broken));

    // The key stayed dirty, so a retry against a working store writes it.
    let mut good: MemStore<String> = MemStore::new();
    dc.persist(&mut good).unwrap();
    assert_eq!(Some(String::from("v")), good.read(&String::from("k")));
}
