use rdma_kv::kv::KVStore;

#[test]
fn put_then_get_returns_the_value() {
    let mut kv = KVStore::new();
    kv.set("k".to_string(), "v".to_string());
    assert_eq!(kv.get(&"k".to_string()), Some("v".to_string()));
    assert_eq!(kv.lookup_reply(&"k".to_string()), "v");
}

#[test]
fn overwrite_keeps_one_entry_per_key() {
    let mut kv = KVStore::new();
    kv.set("k".to_string(), "first".to_string());
    kv.set("k".to_string(), "second".to_string());
    assert_eq!(kv.get(&"k".to_string()), Some("second".to_string()));
}

#[test]
fn delete_then_get_returns_the_sentinel() {
    let mut kv = KVStore::new();
    kv.set("k".to_string(), "v".to_string());
    kv.delete(&"k".to_string());
    assert_eq!(kv.get(&"k".to_string()), None);
    assert_eq!(kv.lookup_reply(&"k".to_string()), "key not found");
}

#[test]
fn get_on_empty_store_returns_the_sentinel() {
    let kv = KVStore::new();
    assert_eq!(kv.get(&"anything".to_string()), None);
    assert_eq!(kv.lookup_reply(&"anything".to_string()), "key not found");
    assert_eq!(kv.lookup_reply(&"".to_string()), "key not found");
}

#[test]
fn delete_of_absent_key_changes_nothing() {
    let mut kv = KVStore::new();
    kv.set("a".to_string(), "1".to_string());
    kv.delete(&"b".to_string());
    assert_eq!(kv.get(&"a".to_string()), Some("1".to_string()));
}

#[test]
fn independent_keys_do_not_interfere() {
    let mut kv = KVStore::new();
    kv.set("a".to_string(), "1".to_string());
    kv.set("b".to_string(), "2".to_string());
    kv.delete(&"a".to_string());
    assert_eq!(kv.get(&"a".to_string()), None);
    assert_eq!(kv.get(&"b".to_string()), Some("2".to_string()));
}
