//! Durable storage of exactly one encoded vault record.
//!
//! The durable medium is a `sled` database holding a single key. The
//! database handle is opaque; what it stores under that key is abstracted by
//! `stored_bytes`, and each `sled` call the vault makes sits behind a trusted
//! wrapper whose contract says how the call reads or rewrites that one
//! record. Record encoding and decoding, and the corruption-versus-absence
//! distinction, are verified.

use vstd::prelude::*;

use crate::codec::enc_record;
use crate::codec::encode_record;
use crate::codec::decode_record;
use crate::codec::rec_of_bytes;
use crate::codec::wf_record;
use crate::errors::VaultError;
use crate::models::EncryptedVault;

verus! {

#[verifier::external_type_specification]
#[verifier::external_body]
pub struct ExDb(sled::Db);

/// The bytes the database holds under the vault's single record key, or
/// `None` when no record is stored.
pub uninterp spec fn stored_bytes(db: sled::Db) -> Option<Seq<u8>>;

/// Durable storage of exactly one named record.
pub struct StorageService {
    db: sled::Db,
}

impl StorageService {
    /// The bytes currently stored under the vault record key.
    pub closed spec fn contents(self) -> Option<Seq<u8>> {
        stored_bytes(self.db)
    }

    /// Relies on `sled::open`: opens the database at the path, creating the
    /// directory if it does not exist, with an exclusive file lock. What the
    /// store holds is whatever is on disk, so nothing is assumed of the
    /// contents.
    #[verifier::external_body]
    pub fn new(path: &str) -> (r: Result<StorageService, VaultError>)
        ensures
            r matches Err(e) ==> e == VaultError::StorageIo,
    {
        let db = sled::open(path).map_err(|_| VaultError::StorageIo)?;
        Ok(StorageService { db })
    }

    /// Relies on `sled::Tree::insert`: on success the value is stored under
    /// the key; on failure the record is either unchanged or already the new
    /// value.
    #[verifier::external_body]
    fn put_record(&mut self, data: &[u8]) -> (r: Result<(), VaultError>)
        ensures
            r is Ok ==> stored_bytes(final(self).db) == Some(data@),
            r matches Err(e) ==> e == VaultError::StorageIo && (stored_bytes(final(self).db)
                == stored_bytes(old(self).db) || stored_bytes(final(self).db) == Some(data@)),
    {
        self.db.insert(b"vault", data).map(|_| ()).map_err(|_| VaultError::StorageIo)
    }

    /// Relies on `sled::Tree::get`: returns the stored value under the key,
    /// or `None` when the key is absent.
    #[verifier::external_body]
    fn get_record(&self) -> (r: Result<Option<Vec<u8>>, VaultError>)
        ensures
            r matches Ok(Some(v)) ==> stored_bytes(self.db) == Some(v@),
            r matches Ok(None) ==> stored_bytes(self.db) is None,
            r matches Err(e) ==> e == VaultError::StorageIo,
    {
        match self.db.get(b"vault") {
            Ok(Some(iv)) => Ok(Some(iv.to_vec())),
            Ok(None) => Ok(None),
            Err(_) => Err(VaultError::StorageIo),
        }
    }

    /// Relies on `sled::Tree::remove`: on success the key is absent; on
    /// failure the record is either unchanged or already gone.
    #[verifier::external_body]
    fn del_record(&mut self) -> (r: Result<(), VaultError>)
        ensures
            r is Ok ==> stored_bytes(final(self).db) is None,
            r matches Err(e) ==> e == VaultError::StorageIo && (stored_bytes(final(self).db)
                == stored_bytes(old(self).db) || stored_bytes(final(self).db) is None),
    {
        self.db.remove(b"vault").map(|_| ()).map_err(|_| VaultError::StorageIo)
    }

    /// Relies on `sled::Tree::clear`: on success every key, in particular the
    /// record key, is gone; on failure the record is either unchanged or
    /// already gone.
    #[verifier::external_body]
    fn clear_all(&mut self) -> (r: Result<(), VaultError>)
        ensures
            r is Ok ==> stored_bytes(final(self).db) is None,
            r matches Err(e) ==> e == VaultError::StorageIo && (stored_bytes(final(self).db)
                == stored_bytes(old(self).db) || stored_bytes(final(self).db) is None),
    {
        self.db.clear().map_err(|_| VaultError::StorageIo)
    }

    /// Relies on `sled::Tree::flush`: forces buffered writes to disk and does
    /// not change what is stored.
    #[verifier::external_body]
    fn flush_db(&mut self) -> (r: Result<(), VaultError>)
        ensures
            stored_bytes(final(self).db) == stored_bytes(old(self).db),
            r matches Err(e) ==> e == VaultError::StorageIo,
    {
        self.db.flush().map(|_| ()).map_err(|_| VaultError::StorageIo)
    }

    /// Serializes the record and overwrites the single stored record with it.
    pub fn save_vault(&mut self, vault: &EncryptedVault) -> (r: Result<(), VaultError>)
        ensures
            r is Ok ==> final(self).contents() == Some(enc_record(vault@)) && wf_record(vault@),
            r matches Err(e) ==> e == VaultError::StorageIo && (final(self).contents() == old(
                self,
            ).contents() || final(self).contents() == Some(enc_record(vault@))),
    {
        let data = encode_record(vault);
        self.put_record(data.as_slice())
    }

    /// Loads the stored record. `Ok(None)` means no vault has ever been
    /// created; bytes that do not decode as a record are storage corruption,
    /// reported as `VaultCorrupted` and never deleted.
    pub fn load_vault(&self) -> (r: Result<Option<EncryptedVault>, VaultError>)
        ensures
            r matches Ok(Some(v)) ==> self.contents() matches Some(b) && rec_of_bytes(b) == Some(
                v@,
            ) && wf_record(v@),
            r matches Ok(None) ==> self.contents() is None,
            r == Err::<Option<EncryptedVault>, VaultError>(VaultError::VaultCorrupted) ==> (self
                .contents() matches Some(b) && rec_of_bytes(b) is None),
            r matches Err(e) ==> e == VaultError::StorageIo || e == VaultError::VaultCorrupted,
    {
        match self.get_record() {
            Err(e) => Err(e),
            Ok(None) => Ok(None),
            Ok(Some(data)) => match decode_record(data.as_slice()) {
                Some(v) => Ok(Some(v)),
                None => Err(VaultError::VaultCorrupted),
            },
        }
    }

    /// Removes the stored record and flushes.
    pub fn clear(&mut self) -> (r: Result<(), VaultError>)
        ensures
            r is Ok ==> final(self).contents() is None,
            r matches Err(e) ==> e == VaultError::StorageIo && (final(self).contents() == old(
                self,
            ).contents() || final(self).contents() is None),
    {
        self.del_record()?;
        self.flush_db()?;
        Ok(())
    }

    /// Erases all stored state unconditionally and flushes. Destructive and
    /// irreversible.
    pub fn reset(&mut self) -> (r: Result<(), VaultError>)
        ensures
            r is Ok ==> final(self).contents() is None,
            r matches Err(e) ==> e == VaultError::StorageIo && (final(self).contents() == old(
                self,
            ).contents() || final(self).contents() is None),
    {
        self.clear_all()?;
        self.flush_db()?;
        Ok(())
    }
}

} // verus!
