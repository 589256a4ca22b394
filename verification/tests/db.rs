use forest_filecoin::db::MemoryDB;
use forest_filecoin::utils::cid::{Cid, CidCborExt, Multihash, Version, BLAKE2B256, DAG_CBOR};
use multihash_codetable::{Code, MultihashDigest};

#[test]
fn get_after_put_gives_the_blob_back() {
    let mut store = MemoryDB::new();
    for blob in [&b"a"[..], &b"bb"[..], &b"ccc"[..], &b""[..]] {
        let id = store.put(blob);
        assert!(store.has(&id));
        assert_eq!(store.get(&id), Some(blob.to_vec()));
    }
}

#[test]
fn put_names_the_blob_by_its_content() {
    let mut store = MemoryDB::default();
    let id = store.put(b"bb");
    assert_eq!(id.version(), Version::V1);
    assert_eq!(id.codec(), DAG_CBOR);
    assert_eq!(id.hash().code(), BLAKE2B256);
    assert_eq!(id.hash().digest(), Code::Blake2b256.digest(b"bb").digest());
    assert_eq!(id, Cid::from_cbor_blake2b256(b"bb"));
}

#[test]
fn put_is_idempotent() {
    let mut store = MemoryDB::new();
    let first = store.put(b"ccc");
    let second = store.put(b"ccc");
    assert_eq!(first, second);
    assert_eq!(store.get(&first), Some(b"ccc".to_vec()));
}

#[test]
fn put_keeps_what_was_stored() {
    let mut store = MemoryDB::new();
    let a = store.put(b"a");
    let b = store.put(b"bb");
    let c = store.put(b"ccc");
    assert_ne!(a, b);
    assert_ne!(b, c);
    assert_eq!(store.get(&a), Some(b"a".to_vec()));
    assert_eq!(store.get(&b), Some(b"bb".to_vec()));
    assert_eq!(store.get(&c), Some(b"ccc".to_vec()));
}

#[test]
fn absent_identifier_is_not_found() {
    let mut store = MemoryDB::new();
    let absent = Cid::from_cbor_blake2b256(b"never stored");
    assert!(!store.has(&absent));
    assert_eq!(store.get(&absent), None);
    store.put(b"something else");
    assert!(!store.has(&absent));
    assert_eq!(store.get(&absent), None);
}

#[test]
fn identifier_of_another_codec_is_not_found() {
    let mut store = MemoryDB::new();
    let id = store.put(b"blob");
    let raw = Cid::new_v1(
        0x55,
        Multihash::wrap(id.hash().code(), id.hash().digest()).unwrap(),
    );
    assert!(store.has(&id));
    assert!(!store.has(&raw));
    assert_eq!(store.get(&raw), None);
}

#[test]
fn stored_object_has_the_identifier_of_its_encoding() {
    let text = String::from("forest");
    let encoded = fvm_ipld_encoding::to_vec(&text).unwrap();
    let mut store = MemoryDB::default();
    let stored = store.put(&encoded);
    assert_eq!(stored, Cid::from_cbor_blake2b256(&encoded));
    let back: String = fvm_ipld_encoding::from_slice(&store.get(&stored).unwrap()).unwrap();
    assert_eq!(back, text);
}

#[test]
fn collection_keeps_what_is_reachable() {
    let mut store = MemoryDB::new();
    let a = store.put(b"a");
    let b = store.put(b"bb");
    let c = store.put(b"ccc");
    store.gc(&[c.clone(), a.clone()]);
    assert_eq!(store.get(&a), Some(b"a".to_vec()));
    assert_eq!(store.get(&c), Some(b"ccc".to_vec()));
    assert!(!store.has(&b));
    assert_eq!(store.get(&b), None);
}

#[test]
fn collection_adds_nothing() {
    let mut store = MemoryDB::new();
    let a = store.put(b"a");
    let stranger = Cid::from_cbor_blake2b256(b"stranger");
    store.gc(&[stranger.clone(), a.clone(), a.clone()]);
    assert!(store.has(&a));
    assert!(!store.has(&stranger));
}

#[test]
fn collection_with_nothing_reachable_empties_the_store() {
    let mut store = MemoryDB::new();
    let a = store.put(b"a");
    store.gc(&[]);
    assert!(!store.has(&a));
    let again = store.put(b"a");
    assert_eq!(again, a);
    assert_eq!(store.get(&a), Some(b"a".to_vec()));
}

#[test]
fn collecting_twice_is_collecting_once() {
    let mut store = MemoryDB::new();
    let a = store.put(b"a");
    let b = store.put(b"bb");
    store.gc(&[a.clone()]);
    store.gc(&[a.clone()]);
    assert_eq!(store.get(&a), Some(b"a".to_vec()));
    assert_eq!(store.get(&b), None);
}
