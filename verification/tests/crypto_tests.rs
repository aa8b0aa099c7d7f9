use credvault::crypto::CryptoService;
use credvault::errors::VaultError;

#[test]
fn roundtrip_all_small_lengths() {
    let key = CryptoService::derive_key(b"password", b"some-salt-bytes");
    for n in 0..48usize {
        let plaintext: Vec<u8> = (0..n).map(|i| (i * 7 + 3) as u8).collect();
        let (nonce, sealed) = CryptoService::encrypt(&plaintext, &key).unwrap();
        assert_eq!(nonce.len(), 12);
        assert_eq!(sealed.len(), plaintext.len() + 16);
        let opened = CryptoService::decrypt(&sealed, &nonce, &key).unwrap();
        assert_eq!(opened, plaintext);
    }
}

#[test]
fn tamper_any_bit_in_sealed_fails() {
    let key = CryptoService::derive_key(b"password", b"tamper-salt");
    let plaintext = b"attack at dawn!!".to_vec();
    let (nonce, sealed) = CryptoService::encrypt(&plaintext, &key).unwrap();
    for byte in 0..sealed.len() {
        for bit in 0..8 {
            let mut tampered = sealed.clone();
            tampered[byte] ^= 1u8 << bit;
            let r = CryptoService::decrypt(&tampered, &nonce, &key);
            assert!(r.is_err(), "bit flip at byte {byte} bit {bit} was accepted");
        }
    }
}

#[test]
fn tamper_any_bit_in_nonce_fails() {
    let key = CryptoService::derive_key(b"password", b"tamper-salt");
    let plaintext = b"attack at dawn!!".to_vec();
    let (nonce, sealed) = CryptoService::encrypt(&plaintext, &key).unwrap();
    for byte in 0..nonce.len() {
        for bit in 0..8 {
            let mut tampered = nonce.clone();
            tampered[byte] ^= 1u8 << bit;
            let r = CryptoService::decrypt(&sealed, &tampered, &key);
            assert!(r.is_err(), "nonce bit flip at byte {byte} bit {bit} was accepted");
        }
    }
}

#[test]
fn derivation_is_deterministic() {
    let k1 = CryptoService::derive_key(b"correct-horse", b"salt-one");
    let k2 = CryptoService::derive_key(b"correct-horse", b"salt-one");
    assert_eq!(k1, k2);
    assert_eq!(k1.len(), 32);
}

#[test]
fn different_salts_give_different_keys() {
    let k1 = CryptoService::derive_key(b"correct-horse", b"salt-one");
    let k2 = CryptoService::derive_key(b"correct-horse", b"salt-two");
    assert_ne!(k1, k2);
    let k3 = CryptoService::derive_key(b"other-password", b"salt-one");
    assert_ne!(k1, k3);
}

#[test]
fn nonces_do_not_collide_across_ten_thousand_calls() {
    let key = CryptoService::derive_key(b"pw", b"nonce-salt");
    let mut nonces: Vec<Vec<u8>> = Vec::with_capacity(10_000);
    for _ in 0..10_000 {
        let (nonce, _sealed) = CryptoService::encrypt(b"x", &key).unwrap();
        nonces.push(nonce);
    }
    nonces.sort();
    for w in nonces.windows(2) {
        assert_ne!(w[0], w[1], "two encrypt calls returned the same nonce");
    }
}

#[test]
fn malformed_nonce_length_is_crypto_error() {
    let key = CryptoService::derive_key(b"pw", b"salt");
    let (nonce, sealed) = CryptoService::encrypt(b"hello", &key).unwrap();
    let short_nonce = &nonce[0..11];
    assert_eq!(
        CryptoService::decrypt(&sealed, short_nonce, &key),
        Err(VaultError::CryptoError)
    );
    let mut long_nonce = nonce.clone();
    long_nonce.push(0);
    assert_eq!(
        CryptoService::decrypt(&sealed, &long_nonce, &key),
        Err(VaultError::CryptoError)
    );
}

#[test]
fn sealed_shorter_than_tag_is_crypto_error() {
    let key = CryptoService::derive_key(b"pw", b"salt");
    let (nonce, _sealed) = CryptoService::encrypt(b"hello", &key).unwrap();
    let short = vec![0u8; 15];
    assert_eq!(
        CryptoService::decrypt(&short, &nonce, &key),
        Err(VaultError::CryptoError)
    );
}

#[test]
fn wrong_key_is_auth_failure() {
    let key = CryptoService::derive_key(b"pw", b"salt");
    let other = CryptoService::derive_key(b"pw2", b"salt");
    let (nonce, sealed) = CryptoService::encrypt(b"hello", &key).unwrap();
    assert_eq!(
        CryptoService::decrypt(&sealed, &nonce, &other),
        Err(VaultError::WrongPassword)
    );
}

#[test]
fn generate_salt_is_32_bytes_and_varies() {
    let s1 = CryptoService::generate_salt().unwrap();
    let s2 = CryptoService::generate_salt().unwrap();
    assert_eq!(s1.len(), 32);
    assert_eq!(s2.len(), 32);
    assert_ne!(s1, s2);
}
