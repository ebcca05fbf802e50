use img_forest::table::MemCache;
use img_forest::table::Table;
use img_forest::types::User;

#[test]
fn mem_cache_set_get_contains_remove() {
    let mut mc: MemCache<String> = MemCache::new();

    assert!(!mc.contains_key(&String::from("a")));
    assert_eq!(None, mc.set(String::from("a"), String::from("one")));
    assert!(mc.contains_key(&String::from("a")));
    assert_eq!(Some(&String::from("one")), mc.get(&String::from("a")));

    // Overwriting returns the prior value.
    assert_eq!(Some(String::from("one")), mc.set(String::from("a"), String::from("two")));
    assert_eq!(Some(&String::from("two")), mc.get(&String::from("a")));

    assert_eq!(Some(String::from("two")), mc.remove(&String::from("a")));
    assert!(!mc.contains_key(&String::from("a")));
    assert_eq!(None, mc.get(&String::from("a")));
    assert_eq!(None, mc.remove(&String::from("a")));
}

#[test]
fn mem_cache_holds_users() {
    let mut utable: MemCache<User> = MemCache::new();
    utable.set(
        String::from("chipper"),
        User { hpass: String::from("5f4dcc3b5aa765d61d8327deb882cf99") },
    );
    utable.set(
        String::from("nutty"),
        User { hpass: String::from("5f4dcc3b5aa765d61d8327deb882cf99") },
    );

    let user = utable.get(&String::from("chipper")).unwrap();
    assert_eq!(String::from("5f4dcc3b5aa765d61d8327deb882cf99"), user.hpass);
    assert!(!utable.contains_key(&String::from("blitz")));
}

/// Callers that depend only on the Table contract work against any
/// implementation of it.
fn fill_and_count<T: Table<u32>>(table: &mut T) -> usize {
    table.set(String::from("x"), 1);
    table.set(String::from("y"), 2);
    table.set(String::from("x"), 3);
    let mut n = 0;
    if table.contains_key(&String::from("x")) {
        n += 1;
    }
    if table.contains_key(&String::from("y")) {
        n += 1;
    }
    if table.contains_key(&String::from("z")) {
        n += 1;
    }
    n
}

#[test]
fn table_contract_is_uniform() {
    let mut mc: MemCache<u32> = MemCache::new();
    assert_eq!(2, fill_and_count(&mut mc));
    assert_eq!(Some(&3), mc.get(&String::from("x")));
}
