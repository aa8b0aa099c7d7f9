//! Key derivation and authenticated encryption.
//!
//! The cipher itself is `ring`'s AES-256-GCM and the derivation is `ring`'s
//! PBKDF2-HMAC-SHA256; both sit behind trusted wrappers whose contracts name
//! their results. Everything around the calls — input validation, the error
//! taxonomy, and the round-trip guarantee connecting `encrypt` and `decrypt`
//! — is verified.

use ring::aead;
use ring::rand::SecureRandom;
use vstd::prelude::*;

use crate::errors::VaultError;

verus! {

/// The 32-byte key PBKDF2-HMAC-SHA256 derives from a password and a salt
/// (100 000 iterations): a function of the two inputs alone.
pub uninterp spec fn derived_key_of(password: Seq<u8>, salt: Seq<u8>) -> Seq<u8>;

/// What AES-256-GCM sealing produces from a plaintext, a 32-byte key and a
/// 12-byte nonce: the ciphertext with the 16-byte tag appended, a function of
/// the three inputs alone.
pub uninterp spec fn seal_of(data: Seq<u8>, key: Seq<u8>, nonce: Seq<u8>) -> Seq<u8>;

/// What AES-256-GCM opening returns on a sealed input under a 32-byte key and
/// a 12-byte nonce: the unique plaintext whose seal the input is, or `None`
/// when the input does not authenticate. A function of the three inputs alone.
pub uninterp spec fn open_of(sealed: Seq<u8>, key: Seq<u8>, nonce: Seq<u8>) -> Option<Seq<u8>>;

/// Relies on `ring::pbkdf2::derive` with `PBKDF2_HMAC_SHA256` and 100 000
/// iterations into a 32-byte buffer: it fills the buffer deterministically
/// from the password and the salt alone.
#[verifier::external_body]
fn pbkdf2_derive(password: &[u8], salt: &[u8]) -> (r: Vec<u8>)
    ensures
        r@ == derived_key_of(password@, salt@),
        r@.len() == 32,
{
    let mut key = [0u8; 32];
    ring::pbkdf2::derive(
        ring::pbkdf2::PBKDF2_HMAC_SHA256,
        core::num::NonZeroU32::new(100_000).unwrap(),
        salt,
        password,
        &mut key,
    );
    key.to_vec()
}

/// Relies on `ring::rand::SystemRandom::fill`: on success the buffer is
/// filled with bytes from the system's secure random source. Nothing is
/// assumed of the bytes themselves.
#[verifier::external_body]
fn random_bytes(n: usize) -> (r: Result<Vec<u8>, VaultError>)
    ensures
        r matches Ok(b) ==> b@.len() == n,
        r matches Err(e) ==> e == VaultError::CryptoError,
{
    let mut buf = vec![0u8; n];
    ring::rand::SystemRandom::new().fill(&mut buf).map_err(|_| VaultError::CryptoError)?;
    Ok(buf)
}

/// Relies on `ring::aead`: `UnboundKey::new(&AES_256_GCM, key)` accepts every
/// 32-byte key, and `LessSafeKey::seal_in_place_separate_tag` produces the
/// ciphertext with the 16-byte tag appended — deterministic in (data, key,
/// nonce), and exactly what `open_in_place` inverts.
#[verifier::external_body]
fn aead_seal(data: &[u8], key: &[u8], nonce: &[u8]) -> (r: Result<Vec<u8>, VaultError>)
    requires
        key@.len() == 32,
        nonce@.len() == 12,
    ensures
        r matches Ok(sealed) ==> {
            &&& sealed@ == seal_of(data@, key@, nonce@)
            &&& sealed@.len() == data@.len() + 16
            &&& open_of(sealed@, key@, nonce@) == Some(data@)
        },
        r matches Err(e) ==> e == VaultError::CryptoError,
{
    let unbound = aead::UnboundKey::new(&aead::AES_256_GCM, key).map_err(
        |_| VaultError::CryptoError,
    )?;
    let sealing_key = aead::LessSafeKey::new(unbound);
    let nonce_arr: [u8; 12] = nonce.try_into().map_err(|_| VaultError::CryptoError)?;
    let ring_nonce = aead::Nonce::assume_unique_for_key(nonce_arr);
    let mut in_out = data.to_vec();
    let tag = sealing_key.seal_in_place_separate_tag(ring_nonce, aead::Aad::empty(), &mut in_out)
        .map_err(|_| VaultError::CryptoError)?;
    in_out.extend_from_slice(tag.as_ref());
    Ok(in_out)
}

/// Relies on `ring::aead::LessSafeKey::open_in_place` with AES-256-GCM: it
/// succeeds exactly when the input authenticates under the key and nonce, and
/// then returns the unique plaintext whose seal the input is.
#[verifier::external_body]
fn aead_open(sealed: &[u8], nonce: &[u8], key: &[u8]) -> (r: Result<Vec<u8>, VaultError>)
    requires
        key@.len() == 32,
        nonce@.len() == 12,
        sealed@.len() >= 16,
    ensures
        r matches Ok(p) ==> {
            &&& open_of(sealed@, key@, nonce@) == Some(p@)
            &&& sealed@ == seal_of(p@, key@, nonce@)
            &&& p@.len() + 16 == sealed@.len()
        },
        r matches Err(e) ==> e == VaultError::WrongPassword && open_of(sealed@, key@, nonce@)
            is None,
{
    let unbound = aead::UnboundKey::new(&aead::AES_256_GCM, key).map_err(
        |_| VaultError::WrongPassword,
    )?;
    let opening_key = aead::LessSafeKey::new(unbound);
    let nonce_arr: [u8; 12] = nonce.try_into().map_err(|_| VaultError::WrongPassword)?;
    let ring_nonce = aead::Nonce::assume_unique_for_key(nonce_arr);
    let mut in_out = sealed.to_vec();
    let plaintext = opening_key.open_in_place(ring_nonce, aead::Aad::empty(), &mut in_out)
        .map_err(|_| VaultError::WrongPassword)?;
    Ok(plaintext.to_vec())
}

/// Password-based key derivation and authenticated encryption of opaque byte
/// payloads.
pub struct CryptoService;

impl CryptoService {
    /// Derives the vault's 32-byte working key from a password and a salt.
    /// Deterministic: the same inputs always yield the same key, so the same
    /// master password re-derives the same key on every unlock.
    pub fn derive_key(password: &[u8], salt: &[u8]) -> (key: Vec<u8>)
        ensures
            key@ == derived_key_of(password@, salt@),
            key@.len() == 32,
    {
        pbkdf2_derive(password, salt)
    }

    /// Encrypts `data` under `key` with a freshly generated random 96-bit
    /// nonce; returns the nonce and the ciphertext with the 128-bit tag
    /// appended. A (key, nonce) pair is never reused: every call draws a new
    /// nonce from the secure random source.
    pub fn encrypt(data: &[u8], key: &[u8]) -> (r: Result<(Vec<u8>, Vec<u8>), VaultError>)
        requires
            key@.len() == 32,
        ensures
            r matches Ok((nonce, sealed)) ==> {
                &&& nonce@.len() == 12
                &&& sealed@ == seal_of(data@, key@, nonce@)
                &&& sealed@.len() == data@.len() + 16
                &&& open_of(sealed@, key@, nonce@) == Some(data@)
            },
            r matches Err(e) ==> e == VaultError::CryptoError,
    {
        let nonce = random_bytes(12)?;
        let sealed = aead_seal(data, key, nonce.as_slice())?;
        Ok((nonce, sealed))
    }

    /// Decrypts a sealed payload. A nonce that is not 12 bytes or a sealed
    /// input shorter than the 16-byte tag is malformed (`CryptoError`),
    /// reported before any cryptographic work. A well-formed input that does
    /// not authenticate — wrong key or tampered bytes — is one opaque
    /// failure (`WrongPassword`). On success the result is the unique
    /// plaintext whose seal the input is: `decrypt` never returns a
    /// plaintext for bytes that are not its authentic encryption.
    pub fn decrypt(sealed: &[u8], nonce: &[u8], key: &[u8]) -> (r: Result<Vec<u8>, VaultError>)
        requires
            key@.len() == 32,
        ensures
            nonce@.len() != 12 || sealed@.len() < 16 ==> r == Err::<Vec<u8>, VaultError>(
                VaultError::CryptoError,
            ),
            nonce@.len() == 12 && sealed@.len() >= 16 ==> match r {
                Ok(p) => {
                    &&& open_of(sealed@, key@, nonce@) == Some(p@)
                    &&& sealed@ == seal_of(p@, key@, nonce@)
                    &&& p@.len() + 16 == sealed@.len()
                },
                Err(e) => e == VaultError::WrongPassword && open_of(sealed@, key@, nonce@) is None,
            },
    {
        if nonce.len() != 12 {
            return Err(VaultError::CryptoError);
        }
        if sealed.len() < 16 {
            return Err(VaultError::CryptoError);
        }
        aead_open(sealed, nonce, key)
    }

    /// Generates the 32-byte random salt fixed at vault creation.
    pub fn generate_salt() -> (r: Result<Vec<u8>, VaultError>)
        ensures
            r matches Ok(s) ==> s@.len() == 32,
            r matches Err(e) ==> e == VaultError::CryptoError,
    {
        random_bytes(32)
    }
}

} // verus!
