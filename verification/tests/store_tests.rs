use runtime_client::confidential::{
    ConfidentialStore, ConfidentialStoreIterator, KeyPair, MemStore, MemStoreIter, Store,
};

fn keypair() -> KeyPair {
    KeyPair { pk: vec![1; 32], sk: vec![7; 32] }
}

#[test]
fn mem_store_basics() {
    let mut store = MemStore::empty();
    assert_eq!(store.get(b"a"), None);
    store.insert(b"a", b"1");
    store.insert(b"b", b"2");
    assert_eq!(store.get(b"a"), Some(b"1".to_vec()));
    assert_eq!(store.get(b"b"), Some(b"2".to_vec()));
    store.insert(b"a", b"3");
    assert_eq!(store.get(b"a"), Some(b"3".to_vec()));
    store.remove(b"a");
    assert_eq!(store.get(b"a"), None);
    assert_eq!(store.get(b"b"), Some(b"2".to_vec()));
}

// The sealed store round trips values; the inner store never holds them in
// the clear.
#[test]
fn confidential_store_round_trip() {
    let mut store = ConfidentialStore::new_with_id(MemStore::empty(), keypair());
    assert_eq!(store.get(b"key-1"), None);
    store.insert(b"key-1", b"value-1");
    assert_eq!(store.get(b"key-1"), Some(b"value-1".to_vec()));
    assert_eq!(store.get(b"key-2"), None);

    store.insert(b"key-2", b"value-2");
    assert_eq!(store.get(b"key-1"), Some(b"value-1".to_vec()));
    assert_eq!(store.get(b"key-2"), Some(b"value-2".to_vec()));

    store.remove(b"key-1");
    assert_eq!(store.get(b"key-1"), None);
    assert_eq!(store.get(b"key-2"), Some(b"value-2".to_vec()));
}

// Sealing actually transforms the bytes: the inner store holds neither the
// plaintext key nor the plaintext value.
#[test]
fn sealing_transforms_bytes() {
    let mut store = ConfidentialStore::new_with_id(MemStore::empty(), keypair());
    store.insert(b"key-1", b"value-1");
    assert_eq!(store.inner.entries.len(), 1);
    let (stored_key, stored_value) = &store.inner.entries[0];
    assert_ne!(stored_key, &b"key-1".to_vec());
    assert_ne!(stored_value, &b"value-1".to_vec());
    // AEAD adds a 16-byte tag to each
    assert_eq!(stored_key.len(), b"key-1".len() + 16);
    assert_eq!(stored_value.len(), b"value-1".len() + 16);
    // plain inner lookup misses: the key is sealed
    assert_eq!(store.inner.get(b"key-1"), None);
}

#[test]
fn iterator_reset_clears_on_invalid() {
    let mut it = ConfidentialStoreIterator::new(MemStoreIter::new(Vec::new(), 0));
    it.key = Some(b"k".to_vec());
    it.value = Some(b"v".to_vec());
    it.reset();
    assert!(it.get_key().is_none());
    assert!(it.get_value().is_none());
    assert!(!it.is_valid());

    let entries = vec![(b"ek".to_vec(), b"ev".to_vec())];
    let mut it2 = ConfidentialStoreIterator::new(MemStoreIter::new(entries, 0));
    it2.key = Some(b"k".to_vec());
    it2.value = Some(b"v".to_vec());
    it2.reset();
    assert_eq!(it2.get_key().as_deref(), Some(b"k".as_slice()));
    assert_eq!(it2.get_value().as_deref(), Some(b"v".as_slice()));
    assert!(it2.is_valid());
}
