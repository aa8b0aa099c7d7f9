use credvault::codec::decode_record;
use credvault::codec::decode_repo;
use credvault::codec::encode_record;
use credvault::codec::encode_repo;
use credvault::models::Credential;
use credvault::models::CredentialPatch;
use credvault::models::EncryptedVault;
use credvault::models::EntryType;

fn sample_credentials() -> Vec<Credential> {
    let mut c1 = Credential::new_password(
        "github".to_string(),
        "alice".to_string(),
        b"s3cr3t".to_vec(),
        "work account".to_string(),
        vec!["dev".to_string(), "work".to_string()],
    );
    c1.update(CredentialPatch {
        service: None,
        username: None,
        secret: None,
        notes: None,
        is_active: None,
        tags: None,
        custom_fields: Some(vec![(
            "url".to_string(),
            "https://github.com".to_string(),
        )]),
    });
    let c2 = Credential::new_api_key(
        "weather-api".to_string(),
        "team@example.com".to_string(),
        b"key-0123456789".to_vec(),
        "naïve café ☕ unicode notes".to_string(),
        false,
        Vec::new(),
    );
    vec![c1, c2]
}

fn assert_same_credential(a: &Credential, b: &Credential) {
    assert_eq!(a.id, b.id);
    assert_eq!(a.entry_type, b.entry_type);
    assert_eq!(a.service, b.service);
    assert_eq!(a.username, b.username);
    assert_eq!(a.secret, b.secret);
    assert_eq!(a.notes, b.notes);
    assert_eq!(a.tags, b.tags);
    assert_eq!(a.is_active, b.is_active);
    assert_eq!(a.custom_fields, b.custom_fields);
    assert_eq!(a.created_at, b.created_at);
    assert_eq!(a.updated_at, b.updated_at);
}

#[test]
fn repo_encoding_round_trips() {
    let creds = sample_credentials();
    let bytes = encode_repo(&creds);
    let back = decode_repo(&bytes).expect("decoding an encoded set must succeed");
    assert_eq!(back.len(), creds.len());
    for (a, b) in creds.iter().zip(back.iter()) {
        assert_same_credential(a, b);
    }
}

#[test]
fn empty_repo_encoding_round_trips() {
    let creds: Vec<Credential> = Vec::new();
    let bytes = encode_repo(&creds);
    assert_eq!(bytes.len(), 8);
    let back = decode_repo(&bytes).expect("empty set must decode");
    assert!(back.is_empty());
}

#[test]
fn record_encoding_round_trips() {
    let rec = EncryptedVault {
        salt: (0..32u8).collect(),
        nonce: (100..112u8).collect(),
        ciphertext: vec![9u8; 40],
    };
    let bytes = encode_record(&rec);
    let back = decode_record(&bytes).expect("decoding an encoded record must succeed");
    assert_eq!(back.salt, rec.salt);
    assert_eq!(back.nonce, rec.nonce);
    assert_eq!(back.ciphertext, rec.ciphertext);
}

#[test]
fn garbage_bytes_do_not_decode() {
    assert!(decode_record(&[1, 2, 3]).is_none());
    assert!(decode_repo(&[255u8; 9]).is_none());
    let creds = sample_credentials();
    let mut bytes = encode_repo(&creds);
    bytes.push(0);
    assert!(
        decode_repo(&bytes).is_none(),
        "trailing bytes must be rejected"
    );
}

#[test]
fn new_password_defaults() {
    let c = Credential::new_password(
        "svc".to_string(),
        "user".to_string(),
        b"pw".to_vec(),
        "".to_string(),
        Vec::new(),
    );
    assert_eq!(c.id.len(), 36);
    assert_eq!(c.entry_type, EntryType::Password);
    assert!(c.is_active);
    assert!(c.custom_fields.is_empty());
    assert_eq!(c.created_at, c.updated_at);
}

#[test]
fn patch_applies_only_present_fields() {
    let mut c = Credential::new_password(
        "svc".to_string(),
        "user".to_string(),
        b"pw".to_vec(),
        "note".to_string(),
        vec!["a".to_string()],
    );
    let id_before = c.id.clone();
    c.update(CredentialPatch {
        service: Some("new-svc".to_string()),
        username: None,
        secret: Some(b"pw2".to_vec()),
        notes: None,
        is_active: Some(false),
        tags: None,
        custom_fields: None,
    });
    assert_eq!(c.id, id_before);
    assert_eq!(c.service, "new-svc");
    assert_eq!(c.username, "user");
    assert_eq!(c.secret, b"pw2".to_vec());
    assert_eq!(c.notes, "note");
    assert_eq!(c.tags, vec!["a".to_string()]);
    assert!(!c.is_active);
}

#[test]
fn fresh_ids_differ() {
    let c1 = Credential::new_password(
        "s".to_string(),
        "u".to_string(),
        Vec::new(),
        "".to_string(),
        Vec::new(),
    );
    let c2 = Credential::new_password(
        "s".to_string(),
        "u".to_string(),
        Vec::new(),
        "".to_string(),
        Vec::new(),
    );
    assert_ne!(c1.id, c2.id);
}
