//! The rendezvous store's bulletin board: write-once keys.

use tch_comm::wrappers::nccl::CStore;

#[test]
fn publish_then_retrieve() {
    let mut store = CStore::new();
    assert!(store.publish(b"rank0/addr".to_vec(), b"10.0.0.1:29500".to_vec()));
    assert_eq!(
        store.retrieve(&b"rank0/addr".to_vec()),
        Some(b"10.0.0.1:29500".to_vec())
    );
}

#[test]
fn missing_key_yields_none() {
    let store = CStore::new();
    assert_eq!(store.retrieve(&b"absent".to_vec()), None);
}

#[test]
fn keys_are_write_once() {
    let mut store = CStore::new();
    assert!(store.publish(b"k".to_vec(), b"first".to_vec()));
    // A second publish under the same key changes nothing.
    assert!(!store.publish(b"k".to_vec(), b"second".to_vec()));
    assert_eq!(store.retrieve(&b"k".to_vec()), Some(b"first".to_vec()));
}

#[test]
fn distinct_keys_coexist() {
    let mut store = CStore::new();
    assert!(store.publish(b"a".to_vec(), b"1".to_vec()));
    assert!(store.publish(b"b".to_vec(), b"2".to_vec()));
    assert_eq!(store.retrieve(&b"a".to_vec()), Some(b"1".to_vec()));
    assert_eq!(store.retrieve(&b"b".to_vec()), Some(b"2".to_vec()));
}
