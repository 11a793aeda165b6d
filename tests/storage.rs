use wallet_storage::adapter::StorageAdapter;
use wallet_storage::crypto::{decode_hex, encode_hex, open, seal};
use wallet_storage::error::{storage_err, Error};
use wallet_storage::memory::MemoryStorageAdapter;
use wallet_storage::storage::Storage;

const KEY: [u8; 32] = [7u8; 32];

#[test]
fn memory_set_then_get() {
    let mut a = MemoryStorageAdapter::new();
    a.set("a", "1".to_string()).unwrap();
    assert_eq!(a.get("a"), Ok("1".to_string()));
    a.set("a", "2".to_string()).unwrap();
    assert_eq!(a.get("a"), Ok("2".to_string()));
    assert_eq!(a.id(), "Memory");
}

#[test]
fn memory_remove_then_get() {
    let mut a = MemoryStorageAdapter::new();
    a.set("a", "1".to_string()).unwrap();
    a.set("b", "2".to_string()).unwrap();
    a.remove("a").unwrap();
    assert_eq!(a.get("a"), Err(Error::RecordNotFound));
    assert_eq!(a.get("b"), Ok("2".to_string()));
    // removing an absent key is no error
    assert_eq!(a.remove("missing"), Ok(()));
}

#[test]
fn memory_batch_set_later_entry_wins() {
    let mut a = MemoryStorageAdapter::new();
    a.batch_set(vec![
        ("a".to_string(), "1".to_string()),
        ("b".to_string(), "2".to_string()),
        ("a".to_string(), "3".to_string()),
    ])
    .unwrap();
    assert_eq!(a.get("a"), Ok("3".to_string()));
    assert_eq!(a.get("b"), Ok("2".to_string()));
}

#[test]
fn set_then_get_plain() {
    let mut s = Storage::new(MemoryStorageAdapter::new(), None);
    s.set("a", "1".to_string()).unwrap();
    assert_eq!(s.get("a"), Ok("1".to_string()));
    assert!(!s.is_encrypted());
    assert_eq!(s.id(), "Memory");
}

#[test]
fn set_then_get_encrypted() {
    let mut s = Storage::new(MemoryStorageAdapter::new(), Some(KEY));
    s.set("a", "1".to_string()).unwrap();
    assert_eq!(s.get("a"), Ok("1".to_string()));
    s.set("b", "grüße, wallet".to_string()).unwrap();
    assert_eq!(s.get("b"), Ok("grüße, wallet".to_string()));
    assert!(s.is_encrypted());
}

#[test]
fn remove_then_get() {
    for key in [None, Some(KEY)] {
        let mut s = Storage::new(MemoryStorageAdapter::new(), key);
        s.set("a", "1".to_string()).unwrap();
        s.remove("a").unwrap();
        assert_eq!(s.get("a"), Err(Error::RecordNotFound));
    }
}

#[test]
fn batch_set_then_get() {
    for key in [None, Some(KEY)] {
        let mut s = Storage::new(MemoryStorageAdapter::new(), key);
        s.batch_set(vec![("a".to_string(), "1".to_string()), ("b".to_string(), "2".to_string())])
            .unwrap();
        assert_eq!(s.get("a"), Ok("1".to_string()));
        assert_eq!(s.get("b"), Ok("2".to_string()));
    }
}

#[test]
fn encrypted_record_differs_from_plaintext() {
    let mut s = Storage::new(MemoryStorageAdapter::new(), Some(KEY));
    s.set("a", "1".to_string()).unwrap();
    let raw = s.into_inner().get("a").unwrap();
    assert_ne!(raw, "1");
    // nonce, tag and one byte of ciphertext, two hex digits each
    assert_eq!(raw.len(), 2 * (24 + 16 + 1));
    let sealed = decode_hex(&raw).unwrap();
    assert_eq!(open(&KEY, &sealed), Some(b"1".to_vec()));
}

#[test]
fn encrypted_values_use_fresh_nonces() {
    let mut s = Storage::new(MemoryStorageAdapter::new(), Some(KEY));
    s.set("a", "same".to_string()).unwrap();
    s.set("b", "same".to_string()).unwrap();
    let inner = s.into_inner();
    assert_ne!(inner.get("a").unwrap(), inner.get("b").unwrap());
}

#[test]
fn tampered_record_is_decryption_error() {
    let mut s = Storage::new(MemoryStorageAdapter::new(), Some(KEY));
    s.set("a", "secret".to_string()).unwrap();
    let mut inner = s.into_inner();
    let raw = inner.get("a").unwrap();
    let mut sealed = decode_hex(&raw).unwrap();
    let last = sealed.len() - 1;
    sealed[last] ^= 1;
    inner.set("a", encode_hex(&sealed)).unwrap();
    inner.set("b", "not hex".to_string()).unwrap();
    let s = Storage::new(inner, Some(KEY));
    assert_eq!(s.get("a"), Err(Error::DecryptionError));
    assert_eq!(s.get("b"), Err(Error::DecryptionError));
}

#[test]
fn wrong_key_is_decryption_error() {
    let mut s = Storage::new(MemoryStorageAdapter::new(), Some(KEY));
    s.set("a", "secret".to_string()).unwrap();
    let s = Storage::new(s.into_inner(), Some([8u8; 32]));
    assert_eq!(s.get("a"), Err(Error::DecryptionError));
}

#[test]
fn seal_and_open() {
    let sealed = seal(&KEY, b"hello").unwrap();
    assert_eq!(sealed.len(), 5 + 40);
    assert_ne!(&sealed[40..], b"hello");
    assert_eq!(open(&KEY, &sealed), Some(b"hello".to_vec()));
    assert_eq!(open(&KEY, &sealed[..39]), None);
    assert_eq!(open(&[0u8; 32], &sealed), None);
}

#[test]
fn hex_round_trip() {
    assert_eq!(encode_hex(&[0x00, 0x0f, 0xa5, 0xff]), "000fa5ff");
    assert_eq!(encode_hex(&[]), "");
    assert_eq!(decode_hex("000fa5ff"), Some(vec![0x00, 0x0f, 0xa5, 0xff]));
    assert_eq!(decode_hex(""), Some(vec![]));
    assert_eq!(decode_hex("abc"), None);
    assert_eq!(decode_hex("0g"), None);
    assert_eq!(decode_hex("0A"), None);
}

#[test]
fn storage_err_keeps_detail() {
    assert_eq!(storage_err("disk full".to_string()), Error::Storage("disk full".to_string()));
}

#[test]
fn read_stored_passes_through_without_key() {
    let s = Storage::new(MemoryStorageAdapter::new(), None);
    assert_eq!(s.read_stored("raw".to_string()), Ok("raw".to_string()));
    let s = Storage::new(MemoryStorageAdapter::new(), Some(KEY));
    assert_eq!(s.read_stored("raw".to_string()), Err(Error::DecryptionError));
}
