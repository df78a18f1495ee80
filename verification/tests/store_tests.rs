use mini_redis::store::{DataItem, DataStore};

fn item(data: &[u8], expiry: Option<u64>) -> DataItem {
    DataItem { data: data.to_vec(), expiry }
}

#[test]
fn set_then_get_returns_value() {
    let mut store = DataStore::new();
    store.set(b"alpha".to_vec(), item(b"one", None));
    let got = store.get(&b"alpha".to_vec(), 12345).expect("key must be present");
    assert_eq!(got.data, b"one".to_vec());
    assert_eq!(got.expiry, None);
}

#[test]
fn set_overwrites_unconditionally() {
    let mut store = DataStore::new();
    store.set(b"k".to_vec(), item(b"first", None));
    store.set(b"k".to_vec(), item(b"second", Some(99)));
    assert_eq!(store.memory.len(), 1);
    // overwrite replaced the payload in place; the stored expiry is in the
    // past, so a read at a later time evicts the key
    let got = store.get(&b"k".to_vec(), 100);
    assert!(got.is_none());
    assert_eq!(store.memory.len(), 0);
}

#[test]
fn expired_key_is_absent_and_evicted() {
    let mut store = DataStore::new();
    store.set(b"k".to_vec(), item(b"v", Some(1000)));
    assert!(store.get(&b"k".to_vec(), 1001).is_none());
    // the read itself removed the key
    assert!(store.memory.is_empty());
    assert!(store.remove(&b"k".to_vec()).is_none());
}

#[test]
fn expiry_equal_to_now_is_still_live() {
    let mut store = DataStore::new();
    store.set(b"k".to_vec(), item(b"v", Some(1000)));
    let got = store.get(&b"k".to_vec(), 1000).expect("expiry at now is not in the past");
    assert_eq!(got.data, b"v".to_vec());
}

#[test]
fn get_is_idempotent_on_live_key() {
    let mut store = DataStore::new();
    store.set(b"k".to_vec(), item(b"stay", None));
    let a = store.get(&b"k".to_vec(), 5).expect("present");
    let b = store.get(&b"k".to_vec(), 5).expect("still present");
    assert_eq!(a.data, b.data);
    assert_eq!(a.expiry, b.expiry);
    assert_eq!(store.memory.len(), 1);
}

#[test]
fn remove_returns_removed_value() {
    let mut store = DataStore::new();
    store.set(b"a".to_vec(), item(b"1", None));
    store.set(b"b".to_vec(), item(b"2", None));
    let removed = store.remove(&b"a".to_vec()).expect("was present");
    assert_eq!(removed.data, b"1".to_vec());
    assert!(store.get(&b"a".to_vec(), 0).is_none());
    assert!(store.get(&b"b".to_vec(), 0).is_some());
}

#[test]
fn all_keys_lists_keys_in_insertion_order() {
    let mut store = DataStore::new();
    store.set(b"one".to_vec(), item(b"1", None));
    store.set(b"two".to_vec(), item(b"2", None));
    store.set(b"one".to_vec(), item(b"1b", None));
    let keys = store.all_keys();
    assert_eq!(keys, vec![b"one".to_vec(), b"two".to_vec()]);
}

#[test]
fn keys_does_not_evict_expired_entries() {
    let mut store = DataStore::new();
    store.set(b"old".to_vec(), item(b"v", Some(1)));
    // only a point read evicts; listing keys leaves the entry in place
    let keys = store.all_keys();
    assert_eq!(keys, vec![b"old".to_vec()]);
    assert_eq!(store.memory.len(), 1);
}
