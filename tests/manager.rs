use wallet_storage::adapter::StorageAdapter;
use wallet_storage::error::Error;
use wallet_storage::manager::{account_of, assemble, check_schema_version, new_storage_manager, schema_gate, AccountManagerData};
use wallet_storage::memory::MemoryStorageAdapter;
use wallet_storage::records::{
    account_key_of, decode_registry, encode_registry, schema_version_text, ACCOUNTS_INDEXATION_KEY,
    DATABASE_SCHEMA_VERSION_KEY, SECRET_MANAGER_KEY,
};
use wallet_storage::secret::{is_persisted, SecretManagerKind, SecretManagerSnapshot};
use wallet_storage::storage::Storage;

const KEY: [u8; 32] = [3u8; 32];

#[test]
fn fresh_store_gets_current_version() {
    let m = new_storage_manager(None, MemoryStorageAdapter::new()).unwrap();
    assert_eq!(m.get(DATABASE_SCHEMA_VERSION_KEY), Ok(Some("01".to_string())));
    assert_eq!(schema_version_text(), "01");
    assert_eq!(m.id(), "Memory");
    assert!(!m.is_encrypted());
    // reopening the same store succeeds
    let m = new_storage_manager(None, m.into_inner()).unwrap();
    assert_eq!(m.get(DATABASE_SCHEMA_VERSION_KEY), Ok(Some("01".to_string())));
}

#[test]
fn mismatched_version_is_refused() {
    let m = new_storage_manager(None, MemoryStorageAdapter::new()).unwrap();
    let mut adapter = m.into_inner();
    adapter.set(DATABASE_SCHEMA_VERSION_KEY, "02".to_string()).unwrap();
    match new_storage_manager(None, adapter) {
        Err((e, back)) => {
            assert_eq!(e, Error::UnsupportedSchemaVersion("02".to_string()));
            // the refused store comes back untouched
            assert_eq!(back.get(DATABASE_SCHEMA_VERSION_KEY), Ok("02".to_string()));
        }
        Ok(_) => panic!("a store of another schema version was opened"),
    }
}

#[test]
fn refused_store_is_untouched() {
    let mut adapter = MemoryStorageAdapter::new();
    adapter.set(DATABASE_SCHEMA_VERSION_KEY, "07".to_string()).unwrap();
    let mut storage = Storage::new(adapter, None);
    assert_eq!(
        check_schema_version(&mut storage),
        Err(Error::UnsupportedSchemaVersion("07".to_string()))
    );
    assert_eq!(storage.get(DATABASE_SCHEMA_VERSION_KEY), Ok("07".to_string()));
}

#[test]
fn encrypted_manager_writes_version() {
    let m = new_storage_manager(Some(KEY), MemoryStorageAdapter::new()).unwrap();
    assert!(m.is_encrypted());
    assert_eq!(m.get(DATABASE_SCHEMA_VERSION_KEY), Ok(Some("01".to_string())));
    let raw = m.into_inner().get(DATABASE_SCHEMA_VERSION_KEY).unwrap();
    assert_ne!(raw, "01");
}

#[test]
fn get_missing_key_is_none() {
    let m = new_storage_manager(None, MemoryStorageAdapter::new()).unwrap();
    assert_eq!(m.get("nothing"), Ok(None));
}

#[test]
fn save_account_twice_registers_once() {
    let mut m = new_storage_manager(None, MemoryStorageAdapter::new()).unwrap();
    m.save_account(3, "account three".to_string()).unwrap();
    m.save_account(3, "account three, again".to_string()).unwrap();
    assert_eq!(m.get(ACCOUNTS_INDEXATION_KEY), Ok(Some(encode_registry(&vec![3]))));
    assert_eq!(m.get_accounts(), Ok(vec!["account three, again".to_string()]));
    let persisted = m.get(ACCOUNTS_INDEXATION_KEY).unwrap().unwrap();
    assert_eq!(decode_registry(&persisted), Some(vec![3]));
}

#[test]
fn removed_account_is_excluded() {
    let mut m = new_storage_manager(Some(KEY), MemoryStorageAdapter::new()).unwrap();
    m.save_account(3, "three".to_string()).unwrap();
    m.save_account(4, "four".to_string()).unwrap();
    m.remove_account(3).unwrap();
    assert_eq!(m.get_accounts(), Ok(vec!["four".to_string()]));
    assert_eq!(m.get(&account_key_of(3)), Ok(None));
    // a new manager over the same store reads the persisted registry
    let mut m = new_storage_manager(Some(KEY), m.into_inner()).unwrap();
    assert_eq!(m.get_accounts(), Ok(vec!["four".to_string()]));
}

#[test]
fn accounts_come_in_registry_order() {
    let mut m = new_storage_manager(None, MemoryStorageAdapter::new()).unwrap();
    assert_eq!(m.get_accounts(), Ok(vec![]));
    m.save_account(9, "nine".to_string()).unwrap();
    m.save_account(2, "two".to_string()).unwrap();
    m.save_account(9, "nine again".to_string()).unwrap();
    assert_eq!(m.get_accounts(), Ok(vec!["nine again".to_string(), "two".to_string()]));
}

#[test]
fn missing_account_record_is_inconsistent_registry() {
    let mut adapter = MemoryStorageAdapter::new();
    adapter.set(ACCOUNTS_INDEXATION_KEY, encode_registry(&vec![5])).unwrap();
    let mut m = new_storage_manager(None, adapter).unwrap();
    assert_eq!(m.get_accounts(), Err(Error::InconsistentRegistry(5)));
}

#[test]
fn malformed_registry_is_storage_error() {
    let mut adapter = MemoryStorageAdapter::new();
    adapter.set(ACCOUNTS_INDEXATION_KEY, "[1,2]".to_string()).unwrap();
    let mut m = new_storage_manager(None, adapter).unwrap();
    assert_eq!(
        m.get_accounts(),
        Err(Error::Storage("malformed account index registry".to_string()))
    );
}

#[test]
fn mnemonic_secret_manager_is_not_restored() {
    let mut m = new_storage_manager(None, MemoryStorageAdapter::new()).unwrap();
    let snapshot = SecretManagerSnapshot { kind: SecretManagerKind::Mnemonic, data: "seed words".to_string() };
    m.save_account_manager_data("{\"coin_type\":4218}".to_string(), Some(snapshot)).unwrap();
    assert_eq!(m.get(SECRET_MANAGER_KEY), Ok(None));
    assert_eq!(
        m.get_account_manager_data(),
        Ok(Some(AccountManagerData { builder: "{\"coin_type\":4218}".to_string(), secret_manager: None }))
    );
}

#[test]
fn other_secret_managers_are_restored() {
    let mut m = new_storage_manager(Some(KEY), MemoryStorageAdapter::new()).unwrap();
    let snapshot = SecretManagerSnapshot {
        kind: SecretManagerKind::Stronghold,
        data: "{\"snapshotPath\":\"wallet.stronghold\"}".to_string(),
    };
    m.save_account_manager_data("builder".to_string(), Some(snapshot.clone())).unwrap();
    assert_eq!(
        m.get_account_manager_data(),
        Ok(Some(AccountManagerData { builder: "builder".to_string(), secret_manager: Some(snapshot) }))
    );
}

#[test]
fn no_manager_data_is_none() {
    let mut m = new_storage_manager(None, MemoryStorageAdapter::new()).unwrap();
    assert_eq!(m.get_account_manager_data(), Ok(None));
    m.save_account_manager_data("builder".to_string(), None).unwrap();
    assert_eq!(
        m.get_account_manager_data(),
        Ok(Some(AccountManagerData { builder: "builder".to_string(), secret_manager: None }))
    );
}

#[test]
fn persistence_policy_table() {
    assert!(is_persisted(SecretManagerKind::Stronghold));
    assert!(is_persisted(SecretManagerKind::LedgerNano));
    assert!(is_persisted(SecretManagerKind::Placeholder));
    assert!(!is_persisted(SecretManagerKind::Mnemonic));
}

#[test]
fn snapshot_text_round_trip() {
    let s = SecretManagerSnapshot { kind: SecretManagerKind::LedgerNano, data: "true".to_string() };
    assert_eq!(s.encode(), "Ltrue");
    assert_eq!(SecretManagerSnapshot::decode("Ltrue"), Some(s));
    assert_eq!(SecretManagerSnapshot::decode(""), None);
    assert_eq!(SecretManagerSnapshot::decode("Xdata"), None);
}

#[test]
fn registry_codec() {
    assert_eq!(encode_registry(&vec![3]), "00000003");
    assert_eq!(encode_registry(&vec![1, 0x01020304]), "0000000101020304");
    assert_eq!(decode_registry("0000000101020304"), Some(vec![1, 0x01020304]));
    assert_eq!(decode_registry(""), Some(vec![]));
    assert_eq!(decode_registry("000001"), None);
    assert_eq!(account_key_of(3), "iota-wallet-account-00000003");
}

#[test]
fn schema_gate_decisions() {
    assert_eq!(schema_gate(Ok("01".to_string())), Ok(false));
    assert_eq!(schema_gate(Ok("02".to_string())), Err(Error::UnsupportedSchemaVersion("02".to_string())));
    assert_eq!(schema_gate(Err(Error::RecordNotFound)), Ok(true));
    assert_eq!(schema_gate(Err(Error::DecryptionError)), Err(Error::DecryptionError));
}

#[test]
fn account_of_decisions() {
    assert_eq!(account_of(7, Ok("a".to_string())), Ok("a".to_string()));
    assert_eq!(account_of(7, Err(Error::RecordNotFound)), Err(Error::InconsistentRegistry(7)));
    assert_eq!(
        account_of(7, Err(Error::Storage("io".to_string()))),
        Err(Error::Storage("io".to_string()))
    );
}

#[test]
fn assemble_decisions() {
    let b = || Ok("builder".to_string());
    assert_eq!(assemble(Err(Error::RecordNotFound), Err(Error::RecordNotFound)), Ok(None));
    assert_eq!(assemble(Err(Error::DecryptionError), Ok("P".to_string())), Err(Error::DecryptionError));
    assert_eq!(
        assemble(b(), Err(Error::RecordNotFound)),
        Ok(Some(AccountManagerData { builder: "builder".to_string(), secret_manager: None }))
    );
    assert_eq!(
        assemble(b(), Ok("Mwords".to_string())),
        Ok(Some(AccountManagerData { builder: "builder".to_string(), secret_manager: None }))
    );
    assert_eq!(
        assemble(b(), Ok("Pconfig".to_string())),
        Ok(Some(AccountManagerData {
            builder: "builder".to_string(),
            secret_manager: Some(SecretManagerSnapshot { kind: SecretManagerKind::Placeholder, data: "config".to_string() }),
        }))
    );
    assert_eq!(
        assemble(b(), Ok("?".to_string())),
        Err(Error::Storage("malformed secret manager snapshot".to_string()))
    );
    assert_eq!(assemble(b(), Err(Error::Storage("io".to_string()))), Err(Error::Storage("io".to_string())));
}

#[test]
fn manager_reports_backend_id() {
    let adapter = MemoryStorageAdapter::new();
    let id = adapter.id();
    let m = new_storage_manager(None, adapter).unwrap();
    assert_eq!(m.id(), id);
}
