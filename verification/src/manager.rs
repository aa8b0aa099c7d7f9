//! The vault manager: the lock/unlock lifecycle state machine.
//!
//! The manager exclusively owns the in-memory credential repository and the
//! current key material while the vault is unlocked. Every mutation updates
//! the repository, re-encodes and re-encrypts the whole set under a fresh
//! nonce, and persists the record before reporting success; if persistence
//! fails, the in-memory mutation is rolled back. The key-derivation salt is
//! fixed when the vault is created and never regenerated.

use vstd::prelude::*;
use vstd::slice::slice_to_vec;
use vstd::string::StringSliceAdditionalSpecFns;
use vstd::utf8::encode_utf8;

use crate::codec::enc_record;
use crate::codec::enc_repo;
use crate::codec::fits_u64;
use crate::codec::rec_of_bytes;
use crate::codec::repo_of_bytes;
use crate::codec::decode_repo;
use crate::codec::wf_repo;
use crate::crypto::derived_key_of;
use crate::crypto::open_of;
use crate::crypto::CryptoService;
use crate::errors::VaultError;
use crate::models::CredView;
use crate::models::Credential;
use crate::models::CredentialPatch;
use crate::models::EncryptedVault;
use crate::models::EntryType;
use crate::models::RecView;
use crate::models::apply_patch;
use crate::models::unique_field_keys;
use crate::repository::contains_id;
use crate::repository::idx_of;
use crate::repository::repo_insert;
use crate::repository::unique_ids;
use crate::repository::wipe_bytes;
use crate::repository::CredentialRepository;
use crate::storage::StorageService;

verus! {

/// The stored bytes are exactly one record whose `salt` stands beside a
/// ciphertext that opens under `key` to the encoding of `repo`.
pub open spec fn holds_repo(
    stored: Option<Seq<u8>>,
    salt: Seq<u8>,
    key: Seq<u8>,
    repo: Seq<CredView>,
) -> bool {
    &&& wf_repo(repo)
    &&& unique_ids(repo)
    &&& fits_u64(salt.len() as int)
    &&& exists|nonce: Seq<u8>, ct: Seq<u8>|
        {
            &&& stored == Some(enc_record(RecView { salt, nonce, ciphertext: ct }))
            &&& nonce.len() == 12
            &&& ct.len() >= 16
            &&& fits_u64(ct.len() as int)
            &&& #[trigger] open_of(ct, key, nonce) == Some(enc_repo(repo))
        }
}

/// The stored bytes `b` decode as a record whose ciphertext opens under the
/// key derived from password bytes `pw` and the stored salt, and the
/// plaintext is the encoding of `repo` with pairwise-distinct ids: unlocking
/// with `pw` yields exactly `repo`.
pub open spec fn stored_opens_to(b: Seq<u8>, pw: Seq<u8>, repo: Seq<CredView>) -> bool {
    match rec_of_bytes(b) {
        Some(rec) => {
            &&& rec.nonce.len() == 12
            &&& rec.ciphertext.len() >= 16
            &&& match open_of(rec.ciphertext, derived_key_of(pw, rec.salt), rec.nonce) {
                Some(plain) => repo_of_bytes(plain) == Some(repo) && unique_ids(repo),
                None => false,
            }
        },
        None => false,
    }
}

/// The stored bytes `b` decode as a well-formed record whose ciphertext does
/// not authenticate under the key derived from `pw`: the expected outcome of
/// a wrong password, indistinguishable at this layer from tampered bytes.
pub open spec fn stored_wrong_password(b: Seq<u8>, pw: Seq<u8>) -> bool {
    match rec_of_bytes(b) {
        Some(rec) => {
            &&& rec.nonce.len() == 12
            &&& rec.ciphertext.len() >= 16
            &&& open_of(rec.ciphertext, derived_key_of(pw, rec.salt), rec.nonce) is None
        },
        None => false,
    }
}

/// The stored bytes are structurally broken: not a record, a record with
/// malformed cipher input lengths, or a record that decrypts to bytes that
/// are not the encoding of a credential set with distinct ids.
pub open spec fn stored_corrupted(b: Seq<u8>, pw: Seq<u8>) -> bool {
    match rec_of_bytes(b) {
        None => true,
        Some(rec) => {
            ||| rec.nonce.len() != 12
            ||| rec.ciphertext.len() < 16
            ||| match open_of(rec.ciphertext, derived_key_of(pw, rec.salt), rec.nonce) {
                Some(plain) => match repo_of_bytes(plain) {
                    Some(l) => !unique_ids(l),
                    None => true,
                },
                None => false,
            }
        },
    }
}

/// Law: a stored record that holds `repo` under the key derived from `pw`
/// and its own salt opens again with `pw` to exactly `repo`. This is what
/// makes lock followed by unlock with the master password restore the
/// credential set.
pub proof fn lemma_saved_vault_reopens(
    stored: Option<Seq<u8>>,
    pw: Seq<u8>,
    salt: Seq<u8>,
    repo: Seq<CredView>,
)
    requires
        holds_repo(stored, salt, derived_key_of(pw, salt), repo),
    ensures
        stored matches Some(b) && stored_opens_to(b, pw, repo),
{
    let key = derived_key_of(pw, salt);
    let (nonce, ct) = choose|nonce: Seq<u8>, ct: Seq<u8>|
        {
            &&& stored == Some(enc_record(RecView { salt, nonce, ciphertext: ct }))
            &&& nonce.len() == 12
            &&& ct.len() >= 16
            &&& fits_u64(ct.len() as int)
            &&& #[trigger] open_of(ct, key, nonce) == Some(enc_repo(repo))
        };
    let rec = RecView { salt, nonce, ciphertext: ct };
    crate::codec::lemma_record_round_trip(rec);
    crate::codec::lemma_repo_round_trip(repo);
}

/// A snapshot of the credential a password entry's constructor builds.
pub open spec fn password_cred_view(
    id: Seq<char>,
    service: Seq<char>,
    username: Seq<char>,
    secret: Seq<u8>,
    notes: Seq<char>,
    tags: Seq<Seq<char>>,
    ts: u64,
) -> CredView {
    CredView {
        id,
        entry_type: EntryType::Password,
        service,
        username,
        secret,
        notes,
        tags,
        is_active: true,
        custom_fields: Seq::empty(),
        created_at: ts,
        updated_at: ts,
    }
}

/// A snapshot of the credential an API-key entry's constructor builds.
pub open spec fn api_key_cred_view(
    id: Seq<char>,
    service: Seq<char>,
    username: Seq<char>,
    secret: Seq<u8>,
    notes: Seq<char>,
    is_active: bool,
    tags: Seq<Seq<char>>,
    ts: u64,
) -> CredView {
    CredView {
        id,
        entry_type: EntryType::ApiKey,
        service,
        username,
        secret,
        notes,
        tags,
        is_active,
        custom_fields: Seq::empty(),
        created_at: ts,
        updated_at: ts,
    }
}

/// The vault manager. Initially locked; `unlock` loads or creates the
/// durable record, and every mutation persists before reporting success.
pub struct PasswordManager {
    storage: StorageService,
    credentials: CredentialRepository,
    master_key: Option<Vec<u8>>,
    salt: Option<Vec<u8>>,
    master_pw: Ghost<Seq<u8>>,
}

impl PasswordManager {
    /// The in-memory credential set.
    pub closed spec fn repo(self) -> Seq<CredView> {
        self.credentials@
    }

    /// The bytes the durable store currently holds.
    pub closed spec fn persisted(self) -> Option<Seq<u8>> {
        self.storage.contents()
    }

    /// Whether key material is held in memory.
    pub closed spec fn is_unlocked_spec(self) -> bool {
        self.master_key is Some
    }

    /// The working key held while unlocked.
    pub closed spec fn key(self) -> Seq<u8> {
        match self.master_key {
            Some(k) => k@,
            None => Seq::empty(),
        }
    }

    /// The vault's salt held while unlocked.
    pub closed spec fn salt_bytes(self) -> Seq<u8> {
        match self.salt {
            Some(s) => s@,
            None => Seq::empty(),
        }
    }

    /// The master password's bytes (ghost; never stored).
    pub closed spec fn pw(self) -> Seq<u8> {
        self.master_pw@
    }

    /// Well-formedness: ids are unique; locked means no key, no salt and an
    /// empty repository; unlocked means a 32-byte key derived from the master
    /// password and the held salt.
    pub closed spec fn wf(self) -> bool {
        &&& self.credentials.wf()
        &&& match self.master_key {
            Some(k) => {
                &&& k@.len() == 32
                &&& self.salt is Some
                &&& k@ == derived_key_of(self.master_pw@, self.salt_bytes())
            },
            None => self.salt is None && self.repo().len() == 0,
        }
    }

    /// A fresh manager over the given store: locked, with an empty
    /// repository; the store's contents are untouched.
    pub fn new(storage: StorageService) -> (r: PasswordManager)
        ensures
            r.wf(),
            !r.is_unlocked_spec(),
            r.repo() == Seq::<CredView>::empty(),
            r.persisted() == storage.contents(),
    {
        PasswordManager {
            storage,
            credentials: CredentialRepository::new(),
            master_key: None,
            salt: None,
            master_pw: Ghost(Seq::empty()),
        }
    }

    /// Whether the vault is unlocked.
    pub fn is_unlocked(&self) -> (r: bool)
        ensures
            r == self.is_unlocked_spec(),
    {
        self.master_key.is_some()
    }

    /// Attempts to unlock with a password, from the locked state.
    ///
    /// With no stored record: generates a fresh salt, derives the key,
    /// persists an initial empty encrypted record, and reports `Ok(true)`.
    /// With a stored record: derives the key from the stored salt, decrypts,
    /// and on success loads the credential set; a failed authentication is
    /// the expected wrong-password outcome `Ok(false)`, never an error, and
    /// leaves everything untouched. Structurally broken stored data is
    /// `VaultCorrupted` and is never deleted.
    pub fn unlock(&mut self, password: &str) -> (r: Result<bool, VaultError>)
        requires
            old(self).wf(),
            !old(self).is_unlocked_spec(),
        ensures
            final(self).wf(),
            match r {
                Ok(true) => {
                    &&& final(self).is_unlocked_spec()
                    &&& final(self).pw() == password.spec_bytes()
                    &&& final(self).key() == derived_key_of(
                        password.spec_bytes(),
                        final(self).salt_bytes(),
                    )
                    &&& match old(self).persisted() {
                        None => {
                            &&& final(self).repo() == Seq::<CredView>::empty()
                            &&& final(self).salt_bytes().len() == 32
                            &&& holds_repo(
                                final(self).persisted(),
                                final(self).salt_bytes(),
                                final(self).key(),
                                final(self).repo(),
                            )
                        },
                        Some(b) => {
                            &&& stored_opens_to(b, password.spec_bytes(), final(self).repo())
                            &&& final(self).persisted() == old(self).persisted()
                            &&& (rec_of_bytes(b) matches Some(rec) && final(self).salt_bytes()
                                == rec.salt)
                            &&& wf_repo(final(self).repo())
                        },
                    }
                },
                Ok(false) => {
                    &&& *final(self) == *old(self)
                    &&& (old(self).persisted() matches Some(b) && stored_wrong_password(
                        b,
                        password.spec_bytes(),
                    ))
                },
                Err(e) => {
                    &&& !final(self).is_unlocked_spec()
                    &&& final(self).repo() == old(self).repo()
                    &&& (e == VaultError::StorageIo || e == VaultError::VaultCorrupted || e
                        == VaultError::CryptoError)
                    &&& e == VaultError::VaultCorrupted ==> *final(self) == *old(self) && (old(
                        self,
                    ).persisted() matches Some(b) && stored_corrupted(b, password.spec_bytes()))
                    &&& e == VaultError::CryptoError ==> old(self).persisted() is None
                },
            },
    {
        let pw_bytes = password.as_bytes();
        match self.storage.load_vault() {
            Err(e) => {
                if matches!(e, VaultError::VaultCorrupted) {
                    Err(VaultError::VaultCorrupted)
                } else {
                    Err(e)
                }
            },
            Ok(None) => {
                let salt = match CryptoService::generate_salt() {
                    Ok(s) => s,
                    Err(e) => {
                        return Err(e);
                    },
                };
                let key = CryptoService::derive_key(pw_bytes, salt.as_slice());
                let mut plain = self.credentials.encode();
                let sealed_pair = CryptoService::encrypt(plain.as_slice(), key.as_slice());
                wipe_bytes(&mut plain);
                let (nonce, sealed) = match sealed_pair {
                    Ok(p) => p,
                    Err(e) => {
                        return Err(e);
                    },
                };
                let record = EncryptedVault { salt, nonce, ciphertext: sealed };
                match self.storage.save_vault(&record) {
                    Err(e) => Err(e),
                    Ok(_) => {
                        let EncryptedVault { salt, nonce: _, ciphertext: _ } = record;
                        self.master_key = Some(key);
                        self.salt = Some(salt);
                        self.master_pw = Ghost(pw_bytes@);
                        proof {
                            let nonce_v = record@.nonce;
                            let ct_v = record@.ciphertext;
                            assert(open_of(ct_v, self.key(), nonce_v) == Some(
                                enc_repo(self.repo()),
                            ));
                            assert(holds_repo(
                                self.persisted(),
                                self.salt_bytes(),
                                self.key(),
                                self.repo(),
                            ));
                        }
                        Ok(true)
                    },
                }
            },
            Ok(Some(vault)) => {
                let EncryptedVault { salt, nonce, ciphertext } = vault;
                let key = CryptoService::derive_key(pw_bytes, salt.as_slice());
                match CryptoService::decrypt(
                    ciphertext.as_slice(),
                    nonce.as_slice(),
                    key.as_slice(),
                ) {
                    Err(VaultError::WrongPassword) => Ok(false),
                    Err(_) => Err(VaultError::VaultCorrupted),
                    Ok(mut plain) => {
                        let decoded = decode_repo(plain.as_slice());
                        wipe_bytes(&mut plain);
                        match decoded {
                            None => Err(VaultError::VaultCorrupted),
                            Some(creds) => match CredentialRepository::from_vec(creds) {
                                None => Err(VaultError::VaultCorrupted),
                                Some(repo) => {
                                    self.credentials = repo;
                                    self.master_key = Some(key);
                                    self.salt = Some(salt);
                                    self.master_pw = Ghost(pw_bytes@);
                                    Ok(true)
                                },
                            },
                        }
                    },
                }
            },
        }
    }

    /// Discards all in-memory key material and credential secrets, actively
    /// overwriting them before release, and returns to the locked state. The
    /// persisted record is untouched. Always succeeds.
    pub fn lock(&mut self)
        requires
            old(self).wf(),
        ensures
            final(self).wf(),
            !final(self).is_unlocked_spec(),
            final(self).repo() == Seq::<CredView>::empty(),
            final(self).persisted() == old(self).persisted(),
    {
        self.credentials.wipe_and_clear();
        let mut key = self.master_key.take();
        if let Some(k) = key.as_mut() {
            wipe_bytes(k);
        }
        let mut salt = self.salt.take();
        if let Some(sa) = salt.as_mut() {
            wipe_bytes(sa);
        }
        self.master_pw = Ghost(Seq::empty());
    }

    /// Erases all persisted vault data and returns to the locked state with
    /// an empty repository. Destructive and irreversible; on a storage
    /// failure the in-memory state is untouched.
    pub fn reset(&mut self) -> (r: Result<(), VaultError>)
        requires
            old(self).wf(),
        ensures
            final(self).wf(),
            r is Ok ==> {
                &&& !final(self).is_unlocked_spec()
                &&& final(self).repo() == Seq::<CredView>::empty()
                &&& final(self).persisted() is None
            },
            r matches Err(e) ==> {
                &&& e == VaultError::StorageIo
                &&& final(self).repo() == old(self).repo()
                &&& final(self).is_unlocked_spec() == old(self).is_unlocked_spec()
            },
    {
        match self.storage.reset() {
            Err(e) => Err(e),
            Ok(_) => {
                self.credentials.wipe_and_clear();
                let mut key = self.master_key.take();
                if let Some(k) = key.as_mut() {
                    wipe_bytes(k);
                }
                let mut salt = self.salt.take();
                if let Some(sa) = salt.as_mut() {
                    wipe_bytes(sa);
                }
                self.master_pw = Ghost(Seq::empty());
                Ok(())
            },
        }
    }


    /// Inserts a credential, persists, and on a persistence failure rolls the
    /// repository back to its pre-mutation state.
    fn add_credential(&mut self, cred: Credential) -> (r: Result<(), VaultError>)
        requires
            old(self).wf(),
            old(self).is_unlocked_spec(),
        ensures
            final(self).wf(),
            final(self).is_unlocked_spec(),
            final(self).key() == old(self).key(),
            final(self).salt_bytes() == old(self).salt_bytes(),
            final(self).pw() == old(self).pw(),
            match r {
                Ok(_) => {
                    &&& final(self).repo() == repo_insert(old(self).repo(), cred@)
                    &&& holds_repo(
                        final(self).persisted(),
                        final(self).salt_bytes(),
                        final(self).key(),
                        final(self).repo(),
                    )
                },
                Err(e) => {
                    &&& final(self).repo() == old(self).repo()
                    &&& (e == VaultError::StorageIo || e == VaultError::CryptoError)
                    &&& e == VaultError::CryptoError ==> final(self).persisted() == old(
                        self,
                    ).persisted()
                },
            },
    {
        let ghost olds = self.repo();
        let ghost cv = cred@;
        let id_copy = cred.id.clone();
        match self.credentials.remove_take(id_copy.as_str()) {
            Some((i, prior)) => {
                proof {
                    assert(contains_id(olds, cv.id));
                }
                self.credentials.insert_at(i, cred);
                proof {
                    assert(self.repo() =~= olds.update(i as int, cv));
                    assert(self.repo() == repo_insert(olds, cv));
                }
                match self.save() {
                    Ok(_) => Ok(()),
                    Err(e) => {
                        let ghost cur = self.repo();
                        match self.credentials.remove_take(id_copy.as_str()) {
                            Some((i2, mut failed)) => {
                                proof {
                                    crate::repository::lemma_idx_of_unique(cur, i as int);
                                }
                                wipe_bytes(&mut failed.secret);
                                self.credentials.insert_at(i2, prior);
                                proof {
                                    assert(self.repo() =~= olds);
                                }
                                Err(e)
                            },
                            None => {
                                proof {
                                    assert(cur[i as int].id == cv.id);
                                    assert(false);
                                }
                                Err(e)
                            },
                        }
                    },
                }
            },
            None => {
                let pos = self.credentials.len();
                self.credentials.insert_at(pos, cred);
                proof {
                    assert(self.repo() =~= olds.push(cv));
                    assert(self.repo() == repo_insert(olds, cv));
                }
                match self.save() {
                    Ok(_) => Ok(()),
                    Err(e) => {
                        let ghost cur = self.repo();
                        match self.credentials.remove_take(id_copy.as_str()) {
                            Some((i2, mut failed)) => {
                                proof {
                                    crate::repository::lemma_idx_of_unique(cur, pos as int);
                                }
                                wipe_bytes(&mut failed.secret);
                                proof {
                                    assert(self.repo() =~= olds);
                                }
                                Err(e)
                            },
                            None => {
                                proof {
                                    assert(cur[pos as int].id == cv.id);
                                    assert(false);
                                }
                                Err(e)
                            },
                        }
                    },
                }
            },
        }
    }

    /// Creates a password entry and persists the updated set; requires the
    /// vault to be unlocked, else `VaultLocked`. On a persistence failure the
    /// repository is rolled back and the failure surfaced.
    pub fn add_password(
        &mut self,
        service: String,
        username: String,
        password: String,
        notes: String,
        tags: Vec<String>,
    ) -> (r: Result<(), VaultError>)
        requires
            old(self).wf(),
        ensures
            final(self).wf(),
            final(self).is_unlocked_spec() == old(self).is_unlocked_spec(),
            final(self).key() == old(self).key(),
            final(self).salt_bytes() == old(self).salt_bytes(),
            final(self).pw() == old(self).pw(),
            !old(self).is_unlocked_spec() ==> r == Err::<(), VaultError>(VaultError::VaultLocked)
                && final(self).repo() == old(self).repo() && final(self).persisted() == old(
                self,
            ).persisted(),
            old(self).is_unlocked_spec() ==> match r {
                Ok(_) => {
                    &&& exists|id: Seq<char>, ts: u64|
                        id.len() == 36 && final(self).repo() == #[trigger] repo_insert(
                            old(self).repo(),
                            password_cred_view(
                                id,
                                service@,
                                username@,
                                encode_utf8(password@),
                                notes@,
                                tags.deep_view(),
                                ts,
                            ),
                        )
                    &&& holds_repo(
                        final(self).persisted(),
                        final(self).salt_bytes(),
                        final(self).key(),
                        final(self).repo(),
                    )
                },
                Err(e) => {
                    &&& final(self).repo() == old(self).repo()
                    &&& (e == VaultError::StorageIo || e == VaultError::CryptoError)
                },
            },
    {
        if self.master_key.is_none() {
            return Err(VaultError::VaultLocked);
        }
        let secret = slice_to_vec(password.as_str().as_bytes());
        let cred = Credential::new_password(service, username, secret, notes, tags);
        let ghost id_v = cred@.id;
        let ghost ts_v = cred@.created_at;
        proof {
            assert(cred@ == password_cred_view(
                id_v,
                service@,
                username@,
                encode_utf8(password@),
                notes@,
                tags.deep_view(),
                ts_v,
            )) by {
                assert(cred@.custom_fields =~= Seq::<(Seq<char>, Seq<char>)>::empty());
            }
        }
        self.add_credential(cred)
    }

    /// Creates an API-key entry and persists the updated set; requires the
    /// vault to be unlocked, else `VaultLocked`. On a persistence failure the
    /// repository is rolled back and the failure surfaced.
    pub fn add_api_key(
        &mut self,
        service: String,
        account_name: String,
        api_key: String,
        notes: String,
        is_active: bool,
        tags: Vec<String>,
    ) -> (r: Result<(), VaultError>)
        requires
            old(self).wf(),
        ensures
            final(self).wf(),
            final(self).is_unlocked_spec() == old(self).is_unlocked_spec(),
            final(self).key() == old(self).key(),
            final(self).salt_bytes() == old(self).salt_bytes(),
            final(self).pw() == old(self).pw(),
            !old(self).is_unlocked_spec() ==> r == Err::<(), VaultError>(VaultError::VaultLocked)
                && final(self).repo() == old(self).repo() && final(self).persisted() == old(
                self,
            ).persisted(),
            old(self).is_unlocked_spec() ==> match r {
                Ok(_) => {
                    &&& exists|id: Seq<char>, ts: u64|
                        id.len() == 36 && final(self).repo() == #[trigger] repo_insert(
                            old(self).repo(),
                            api_key_cred_view(
                                id,
                                service@,
                                account_name@,
                                encode_utf8(api_key@),
                                notes@,
                                is_active,
                                tags.deep_view(),
                                ts,
                            ),
                        )
                    &&& holds_repo(
                        final(self).persisted(),
                        final(self).salt_bytes(),
                        final(self).key(),
                        final(self).repo(),
                    )
                },
                Err(e) => {
                    &&& final(self).repo() == old(self).repo()
                    &&& (e == VaultError::StorageIo || e == VaultError::CryptoError)
                },
            },
    {
        if self.master_key.is_none() {
            return Err(VaultError::VaultLocked);
        }
        let secret = slice_to_vec(api_key.as_str().as_bytes());
        let cred = Credential::new_api_key(service, account_name, secret, notes, is_active, tags);
        let ghost id_v = cred@.id;
        let ghost ts_v = cred@.created_at;
        proof {
            assert(cred@ == api_key_cred_view(
                id_v,
                service@,
                account_name@,
                encode_utf8(api_key@),
                notes@,
                is_active,
                tags.deep_view(),
                ts_v,
            )) by {
                assert(cred@.custom_fields =~= Seq::<(Seq<char>, Seq<char>)>::empty());
            }
        }
        self.add_credential(cred)
    }

    /// Applies a patch to the credential with this id and persists the
    /// updated set. An unknown id fails with `CredentialNotFound` and
    /// performs no mutation; a persistence failure rolls the repository back
    /// to the pre-update value.
    pub fn update_credential(&mut self, id: &str, patch: CredentialPatch) -> (r: Result<
        (),
        VaultError,
    >)
        requires
            old(self).wf(),
            match patch@.custom_fields {
                Some(cf) => unique_field_keys(cf),
                None => true,
            },
        ensures
            final(self).wf(),
            final(self).is_unlocked_spec() == old(self).is_unlocked_spec(),
            final(self).key() == old(self).key(),
            final(self).salt_bytes() == old(self).salt_bytes(),
            final(self).pw() == old(self).pw(),
            !old(self).is_unlocked_spec() ==> r == Err::<(), VaultError>(VaultError::VaultLocked)
                && final(self).repo() == old(self).repo() && final(self).persisted() == old(
                self,
            ).persisted(),
            old(self).is_unlocked_spec() ==> match r {
                Ok(_) => {
                    &&& contains_id(old(self).repo(), id@)
                    &&& {
                        let i = idx_of(old(self).repo(), id@);
                        final(self).repo() == old(self).repo().update(
                            i,
                            apply_patch(
                                old(self).repo()[i],
                                patch@,
                                final(self).repo()[i].updated_at,
                            ),
                        )
                    }
                    &&& holds_repo(
                        final(self).persisted(),
                        final(self).salt_bytes(),
                        final(self).key(),
                        final(self).repo(),
                    )
                },
                Err(e) => {
                    &&& final(self).repo() == old(self).repo()
                    &&& (e == VaultError::CredentialNotFound <==> !contains_id(
                        old(self).repo(),
                        id@,
                    ))
                    &&& (e == VaultError::CredentialNotFound || e == VaultError::StorageIo || e
                        == VaultError::CryptoError)
                    &&& e == VaultError::CredentialNotFound ==> final(self).persisted() == old(
                        self,
                    ).persisted()
                },
            },
    {
        if self.master_key.is_none() {
            return Err(VaultError::VaultLocked);
        }
        let ghost olds = self.repo();
        let prior = match self.credentials.get(id) {
            None => {
                return Err(VaultError::CredentialNotFound);
            },
            Some(c) => c.clone(),
        };
        let ghost i = idx_of(olds, id@);
        let changed = self.credentials.patch_at(id, patch);
        proof {
            assert(changed);
        }
        match self.save() {
            Ok(_) => Ok(()),
            Err(e) => {
                let ghost cur = self.repo();
                match self.credentials.remove_take(id) {
                    Some((i2, mut failed)) => {
                        proof {
                            assert(cur[i].id == id@);
                            crate::repository::lemma_idx_of_unique(cur, i);
                        }
                        wipe_bytes(&mut failed.secret);
                        self.credentials.insert_at(i2, prior);
                        proof {
                            assert(self.repo() =~= olds);
                        }
                        Err(e)
                    },
                    None => {
                        proof {
                            assert(cur[i].id == id@);
                            assert(false);
                        }
                        Err(e)
                    },
                }
            },
        }
    }

    /// Removes the credential with this id and persists the updated set. An
    /// id not present fails with `CredentialNotFound` and leaves the
    /// repository unchanged; a persistence failure rolls the removal back.
    pub fn remove_credential(&mut self, id: &str) -> (r: Result<(), VaultError>)
        requires
            old(self).wf(),
        ensures
            final(self).wf(),
            final(self).is_unlocked_spec() == old(self).is_unlocked_spec(),
            final(self).key() == old(self).key(),
            final(self).salt_bytes() == old(self).salt_bytes(),
            final(self).pw() == old(self).pw(),
            !old(self).is_unlocked_spec() ==> r == Err::<(), VaultError>(VaultError::VaultLocked)
                && final(self).repo() == old(self).repo() && final(self).persisted() == old(
                self,
            ).persisted(),
            old(self).is_unlocked_spec() ==> match r {
                Ok(_) => {
                    &&& contains_id(old(self).repo(), id@)
                    &&& final(self).repo() == old(self).repo().remove(idx_of(old(self).repo(), id@))
                    &&& holds_repo(
                        final(self).persisted(),
                        final(self).salt_bytes(),
                        final(self).key(),
                        final(self).repo(),
                    )
                },
                Err(e) => {
                    &&& final(self).repo() == old(self).repo()
                    &&& (e == VaultError::CredentialNotFound <==> !contains_id(
                        old(self).repo(),
                        id@,
                    ))
                    &&& (e == VaultError::CredentialNotFound || e == VaultError::StorageIo || e
                        == VaultError::CryptoError)
                    &&& e == VaultError::CredentialNotFound ==> final(self).persisted() == old(
                        self,
                    ).persisted()
                },
            },
    {
        if self.master_key.is_none() {
            return Err(VaultError::VaultLocked);
        }
        let ghost olds = self.repo();
        match self.credentials.remove_take(id) {
            None => Err(VaultError::CredentialNotFound),
            Some((i, taken)) => {
                match self.save() {
                    Ok(_) => Ok(()),
                    Err(e) => {
                        self.credentials.insert_at(i, taken);
                        proof {
                            assert(self.repo() =~= olds);
                        }
                        Err(e)
                    },
                }
            },
        }
    }

    /// Snapshots of all stored credentials; requires the vault to be
    /// unlocked, else `VaultLocked`.
    pub fn get_credentials(&self) -> (r: Result<Vec<Credential>, VaultError>)
        requires
            self.wf(),
        ensures
            self.is_unlocked_spec() ==> (r matches Ok(v) && v.deep_view() == self.repo()),
            !self.is_unlocked_spec() ==> r == Err::<Vec<Credential>, VaultError>(
                VaultError::VaultLocked,
            ),
    {
        if self.master_key.is_none() {
            return Err(VaultError::VaultLocked);
        }
        Ok(self.credentials.values())
    }

    /// A snapshot of the credential with this id, if one is stored; requires
    /// the vault to be unlocked, else `VaultLocked`.
    pub fn get_credential(&self, id: &str) -> (r: Result<Option<Credential>, VaultError>)
        requires
            self.wf(),
        ensures
            self.is_unlocked_spec() ==> match r {
                Ok(Some(c)) => contains_id(self.repo(), id@) && c@ == self.repo()[idx_of(
                    self.repo(),
                    id@,
                )],
                Ok(None) => !contains_id(self.repo(), id@),
                Err(_) => false,
            },
            !self.is_unlocked_spec() ==> r == Err::<Option<Credential>, VaultError>(
                VaultError::VaultLocked,
            ),
    {
        if self.master_key.is_none() {
            return Err(VaultError::VaultLocked);
        }
        match self.credentials.get(id) {
            Some(c) => Ok(Some(c.clone())),
            None => Ok(None),
        }
    }

    /// Serializes the whole repository, encrypts it under the current key
    /// with a freshly generated nonce, and overwrites the persisted record.
    /// The salt is never changed. Requires the vault to be unlocked, else
    /// `VaultLocked`; storage failure leaves the store holding either the old
    /// or the new record and the memory untouched.
    pub fn save(&mut self) -> (r: Result<(), VaultError>)
        requires
            old(self).wf(),
        ensures
            final(self).wf(),
            final(self).repo() == old(self).repo(),
            final(self).is_unlocked_spec() == old(self).is_unlocked_spec(),
            final(self).key() == old(self).key(),
            final(self).salt_bytes() == old(self).salt_bytes(),
            final(self).pw() == old(self).pw(),
            !old(self).is_unlocked_spec() ==> r == Err::<(), VaultError>(VaultError::VaultLocked)
                && final(self).persisted() == old(self).persisted(),
            old(self).is_unlocked_spec() ==> match r {
                Ok(_) => holds_repo(
                    final(self).persisted(),
                    final(self).salt_bytes(),
                    final(self).key(),
                    final(self).repo(),
                ),
                Err(e) => {
                    &&& (e == VaultError::StorageIo || e == VaultError::CryptoError)
                    &&& e == VaultError::CryptoError ==> final(self).persisted() == old(
                        self,
                    ).persisted()
                },
            },
    {
        if self.master_key.is_none() {
            return Err(VaultError::VaultLocked);
        }
        let mut plain = self.credentials.encode();
        let sealed_pair = {
            let key = self.master_key.as_ref().unwrap();
            CryptoService::encrypt(plain.as_slice(), key.as_slice())
        };
        wipe_bytes(&mut plain);
        let (nonce, sealed) = match sealed_pair {
            Ok(p) => p,
            Err(e) => {
                return Err(e);
            },
        };
        let salt_copy = {
            let salt = self.salt.as_ref().unwrap();
            slice_to_vec(salt.as_slice())
        };
        let record = EncryptedVault { salt: salt_copy, nonce, ciphertext: sealed };
        match self.storage.save_vault(&record) {
            Ok(_) => {
                proof {
                    let nonce_v = record@.nonce;
                    let ct_v = record@.ciphertext;
                    assert(open_of(ct_v, self.key(), nonce_v) == Some(enc_repo(self.repo())));
                    assert(holds_repo(
                        self.persisted(),
                        self.salt_bytes(),
                        self.key(),
                        self.repo(),
                    ));
                }
                Ok(())
            },
            Err(e) => Err(e),
        }
    }
}



} // verus!
