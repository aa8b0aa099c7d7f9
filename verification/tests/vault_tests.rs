use credvault::crypto::CryptoService;
use credvault::errors::VaultError;
use credvault::manager::PasswordManager;
use credvault::models::CredentialPatch;
use credvault::models::EncryptedVault;
use credvault::models::EntryType;
use credvault::storage::StorageService;

fn fresh_manager(path: &str) -> PasswordManager {
    let storage = StorageService::new(path).expect("open store");
    let mut m = PasswordManager::new(storage);
    m.reset().expect("reset store");
    m
}

fn empty_patch() -> CredentialPatch {
    CredentialPatch {
        service: None,
        username: None,
        secret: None,
        notes: None,
        is_active: None,
        tags: None,
        custom_fields: None,
    }
}

#[test]
fn lifecycle_add_lock_unlock_restores_entry() {
    let path = "/tmp/credvault_test_lifecycle";
    {
        let mut m = fresh_manager(path);
        assert!(!m.is_unlocked());
        assert_eq!(m.unlock("correct-horse"), Ok(true));
        assert!(m.is_unlocked());
        m.add_password(
            "github".to_string(),
            "alice".to_string(),
            "s3cr3t".to_string(),
            "".to_string(),
            vec!["dev".to_string()],
        )
        .expect("add");
        m.lock();
        assert!(!m.is_unlocked());
        assert_eq!(m.unlock("correct-horse"), Ok(true));
        let creds = m.get_credentials().expect("list");
        assert_eq!(creds.len(), 1);
        let c = &creds[0];
        assert_eq!(c.service, "github");
        assert_eq!(c.username, "alice");
        assert_eq!(c.secret, b"s3cr3t".to_vec());
        assert_eq!(c.tags, vec!["dev".to_string()]);
        assert_eq!(c.entry_type, EntryType::Password);
        m.lock();
    }
    // a wrong password is reported as a value and leaves the stored record
    // byte-for-byte unchanged
    let before = {
        let storage = StorageService::new(path).expect("open store");
        let rec = storage.load_vault().expect("load").expect("present");
        let mut m = PasswordManager::new(storage);
        assert_eq!(m.unlock("wrong"), Ok(false));
        assert!(!m.is_unlocked());
        rec
    };
    {
        let storage = StorageService::new(path).expect("open store");
        let after = storage.load_vault().expect("load").expect("present");
        assert_eq!(before.salt, after.salt);
        assert_eq!(before.nonce, after.nonce);
        assert_eq!(before.ciphertext, after.ciphertext);
    }
}

#[test]
fn remove_unknown_id_is_not_found_and_changes_nothing() {
    let mut m = fresh_manager("/tmp/credvault_test_remove_unknown");
    assert_eq!(m.unlock("pw"), Ok(true));
    m.add_password(
        "svc".to_string(),
        "u".to_string(),
        "s".to_string(),
        "".to_string(),
        Vec::new(),
    )
    .expect("add");
    assert_eq!(
        m.remove_credential("no-such-id"),
        Err(VaultError::CredentialNotFound)
    );
    assert_eq!(m.get_credentials().expect("list").len(), 1);
}

#[test]
fn remove_existing_id_removes_exactly_it() {
    let mut m = fresh_manager("/tmp/credvault_test_remove_known");
    assert_eq!(m.unlock("pw"), Ok(true));
    m.add_password(
        "one".to_string(),
        "u".to_string(),
        "s".to_string(),
        "".to_string(),
        Vec::new(),
    )
    .expect("add");
    m.add_password(
        "two".to_string(),
        "u".to_string(),
        "s".to_string(),
        "".to_string(),
        Vec::new(),
    )
    .expect("add");
    let creds = m.get_credentials().expect("list");
    let id = creds.iter().find(|c| c.service == "one").unwrap().id.clone();
    assert_eq!(m.remove_credential(&id), Ok(()));
    let creds = m.get_credentials().expect("list");
    assert_eq!(creds.len(), 1);
    assert_eq!(creds[0].service, "two");
    assert!(m.get_credential(&id).expect("get").is_none());
}

#[test]
fn reset_then_any_password_creates_brand_new_vault() {
    let path = "/tmp/credvault_test_reset";
    let mut m = fresh_manager(path);
    assert_eq!(m.unlock("first-password"), Ok(true));
    m.add_password(
        "svc".to_string(),
        "u".to_string(),
        "s".to_string(),
        "".to_string(),
        Vec::new(),
    )
    .expect("add");
    m.lock();
    assert_eq!(m.unlock("first-password"), Ok(true));
    let salt_before = m.get_credentials().expect("list");
    assert_eq!(salt_before.len(), 1);
    m.reset().expect("reset");
    assert!(!m.is_unlocked());
    assert_eq!(m.unlock("completely-different"), Ok(true));
    assert!(m.get_credentials().expect("list").is_empty());
}

#[test]
fn reset_generates_a_fresh_salt() {
    let path = "/tmp/credvault_test_fresh_salt";
    {
        let mut m = fresh_manager(path);
        assert_eq!(m.unlock("pw"), Ok(true));
        m.lock();
    }
    let rec1 = {
        let storage = StorageService::new(path).expect("open");
        storage.load_vault().expect("load").expect("present")
    };
    {
        let storage = StorageService::new(path).expect("open");
        let mut m = PasswordManager::new(storage);
        m.reset().expect("reset");
        assert_eq!(m.unlock("pw"), Ok(true));
        m.lock();
    }
    let rec2 = {
        let storage = StorageService::new(path).expect("open");
        storage.load_vault().expect("load").expect("present")
    };
    assert_ne!(rec1.salt, rec2.salt);
}

#[test]
fn update_applies_patch_and_unknown_id_fails() {
    let mut m = fresh_manager("/tmp/credvault_test_update");
    assert_eq!(m.unlock("pw"), Ok(true));
    m.add_api_key(
        "api".to_string(),
        "acct".to_string(),
        "key123".to_string(),
        "note".to_string(),
        true,
        Vec::new(),
    )
    .expect("add");
    let id = m.get_credentials().expect("list")[0].id.clone();
    let mut patch = empty_patch();
    patch.service = Some("renamed".to_string());
    patch.is_active = Some(false);
    assert_eq!(m.update_credential(&id, patch), Ok(()));
    let c = m.get_credential(&id).expect("get").expect("present");
    assert_eq!(c.service, "renamed");
    assert_eq!(c.username, "acct");
    assert_eq!(c.secret, b"key123".to_vec());
    assert_eq!(c.notes, "note");
    assert!(!c.is_active);
    assert_eq!(c.entry_type, EntryType::ApiKey);
    assert_eq!(
        m.update_credential("missing-id", empty_patch()),
        Err(VaultError::CredentialNotFound)
    );
    assert_eq!(m.get_credentials().expect("list").len(), 1);
}

#[test]
fn operations_while_locked_fail_with_vault_locked() {
    let mut m = fresh_manager("/tmp/credvault_test_locked");
    assert_eq!(m.save(), Err(VaultError::VaultLocked));
    assert_eq!(
        m.add_password(
            "s".to_string(),
            "u".to_string(),
            "p".to_string(),
            "".to_string(),
            Vec::new()
        ),
        Err(VaultError::VaultLocked)
    );
    assert_eq!(
        m.add_api_key(
            "s".to_string(),
            "u".to_string(),
            "k".to_string(),
            "".to_string(),
            true,
            Vec::new()
        ),
        Err(VaultError::VaultLocked)
    );
    assert_eq!(m.remove_credential("x"), Err(VaultError::VaultLocked));
    assert_eq!(
        m.update_credential("x", empty_patch()),
        Err(VaultError::VaultLocked)
    );
    assert!(m.get_credentials().is_err());
    assert!(m.get_credential("x").is_err());
}

#[test]
fn payload_that_is_not_a_credential_set_is_corruption() {
    let path = "/tmp/credvault_test_corrupt";
    {
        let mut storage = StorageService::new(path).expect("open");
        storage.reset().expect("reset");
        let salt = CryptoService::generate_salt().expect("salt");
        let key = CryptoService::derive_key(b"pw", &salt);
        let (nonce, sealed) =
            CryptoService::encrypt(b"this is not a credential set", &key).expect("encrypt");
        let record = EncryptedVault {
            salt,
            nonce,
            ciphertext: sealed,
        };
        storage.save_vault(&record).expect("save");
    }
    let storage = StorageService::new(path).expect("open");
    let mut m = PasswordManager::new(storage);
    // the right key decrypts, but the plaintext has the wrong shape: this is
    // corruption, not a wrong password, and nothing is deleted
    assert_eq!(m.unlock("pw"), Err(VaultError::VaultCorrupted));
    assert!(!m.is_unlocked());
    // a wrong password on the same record is still just a wrong password
    assert_eq!(m.unlock("other"), Ok(false));
}

#[test]
fn save_while_unlocked_rewrites_record_with_fresh_nonce() {
    let path = "/tmp/credvault_test_save_nonce";
    {
        let mut m = fresh_manager(path);
        assert_eq!(m.unlock("pw"), Ok(true));
        m.save().expect("save once");
        m.lock();
    }
    let rec1 = {
        let storage = StorageService::new(path).expect("open");
        storage.load_vault().expect("load").expect("present")
    };
    {
        let storage = StorageService::new(path).expect("open");
        let mut m = PasswordManager::new(storage);
        assert_eq!(m.unlock("pw"), Ok(true));
        m.save().expect("save again");
        m.lock();
    }
    let rec2 = {
        let storage = StorageService::new(path).expect("open");
        storage.load_vault().expect("load").expect("present")
    };
    // the salt is fixed for the vault's lifetime; the nonce is fresh per save
    assert_eq!(rec1.salt, rec2.salt);
    assert_ne!(rec1.nonce, rec2.nonce);
}

#[test]
fn concurrent_open_of_one_store_fails_fast() {
    let path = "/tmp/credvault_test_exclusive";
    let _first = StorageService::new(path).expect("first open");
    // the store is opened with an exclusive lock: a second handle on the same
    // files is refused instead of silently sharing state
    assert!(matches!(
        StorageService::new(path),
        Err(VaultError::StorageIo)
    ));
}
