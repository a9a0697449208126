use kvloop::store::Store;
use kvloop::store::bytes_eq;

#[test]
fn get_on_empty_store_misses() {
    let store = Store::new();
    assert_eq!(store.get(b"anything"), None);
}

#[test]
fn set_then_get_returns_value() {
    let mut store = Store::new();
    store.set(b"foo".to_vec(), b"bar".to_vec());
    assert_eq!(store.get(b"foo"), Some(&b"bar".to_vec()));
}

#[test]
fn set_overwrites_existing_binding() {
    let mut store = Store::new();
    store.set(b"k".to_vec(), b"first".to_vec());
    store.set(b"k".to_vec(), b"second".to_vec());
    assert_eq!(store.get(b"k"), Some(&b"second".to_vec()));
}

#[test]
fn set_twice_same_value_is_idempotent() {
    let mut store = Store::new();
    store.set(b"foo".to_vec(), b"bar".to_vec());
    store.set(b"foo".to_vec(), b"bar".to_vec());
    assert_eq!(store.get(b"foo"), Some(&b"bar".to_vec()));
    assert_eq!(store.get(b"baz"), None);
}

#[test]
fn distinct_keys_do_not_interfere() {
    let mut store = Store::new();
    store.set(b"a".to_vec(), b"1".to_vec());
    store.set(b"b".to_vec(), b"2".to_vec());
    assert_eq!(store.get(b"a"), Some(&b"1".to_vec()));
    assert_eq!(store.get(b"b"), Some(&b"2".to_vec()));
    assert_eq!(store.get(b"c"), None);
}

#[test]
fn empty_value_is_stored() {
    let mut store = Store::new();
    store.set(b"k".to_vec(), b"".to_vec());
    assert_eq!(store.get(b"k"), Some(&b"".to_vec()));
}

#[test]
fn bytes_eq_compares_contents() {
    assert!(bytes_eq(b"", b""));
    assert!(bytes_eq(b"abc", b"abc"));
    assert!(!bytes_eq(b"abc", b"abd"));
    assert!(!bytes_eq(b"abc", b"ab"));
}
