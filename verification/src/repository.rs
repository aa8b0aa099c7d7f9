//! The in-memory credential repository: a mapping from credential id to
//! credential, held as a vector with pairwise-distinct ids.

use vstd::pervasive::VecAdditionalExecFns;
use vstd::prelude::*;

use crate::codec::enc_repo;
use crate::codec::encode_repo;
use crate::codec::wf_repo;
use crate::models::apply_patch;
use crate::models::unique_field_keys;
use crate::models::CredView;
use crate::models::Credential;
use crate::models::CredentialPatch;

verus! {

/// Some entry of `s` has id `id`.
pub open spec fn contains_id(s: Seq<CredView>, id: Seq<char>) -> bool {
    exists|i: int| 0 <= i < s.len() && (#[trigger] s[i]).id == id
}

/// The index of the entry with id `id` (meaningful when ids are unique and
/// one is present).
pub open spec fn idx_of(s: Seq<CredView>, id: Seq<char>) -> int {
    choose|i: int| 0 <= i < s.len() && (#[trigger] s[i]).id == id
}

/// No two entries share an id.
pub open spec fn unique_ids(s: Seq<CredView>) -> bool {
    forall|i: int, j: int|
        0 <= i < j < s.len() ==> (#[trigger] s[i]).id != (#[trigger] s[j]).id
}

/// Inserting a credential: replaces the entry with the same id, or appends.
pub open spec fn repo_insert(s: Seq<CredView>, c: CredView) -> Seq<CredView> {
    if contains_id(s, c.id) {
        s.update(idx_of(s, c.id), c)
    } else {
        s.push(c)
    }
}

/// With unique ids, any index whose entry has id `id` is the index `idx_of`
/// picks.
pub proof fn lemma_idx_of_unique(s: Seq<CredView>, i: int)
    requires
        unique_ids(s),
        0 <= i < s.len(),
    ensures
        contains_id(s, s[i].id),
        idx_of(s, s[i].id) == i,
{
    let id = s[i].id;
    assert(contains_id(s, id));
    let j = idx_of(s, id);
    assert(0 <= j < s.len() && s[j].id == id);
    if i < j {
        assert(s[i].id != s[j].id);
    } else if j < i {
        assert(s[j].id != s[i].id);
    }
}

/// Relies on `str`'s `PartialEq`: two string slices are equal exactly when
/// their character sequences are.
#[verifier::external_body]
fn str_eq(a: &str, b: &str) -> (r: bool)
    ensures
        r == (a@ == b@),
{
    a == b
}

/// Overwrites every byte of the buffer with zero, keeping its length: used to
/// scrub key material and secrets before they are released.
pub fn wipe_bytes(v: &mut Vec<u8>)
    ensures
        final(v)@.len() == old(v)@.len(),
        forall|i: int| 0 <= i < final(v)@.len() ==> final(v)@[i] == 0,
{
    let mut i: usize = 0;
    while i < v.len()
        invariant
            i <= v@.len(),
            v@.len() == old(v)@.len(),
            forall|j: int| 0 <= j < i ==> v@[j] == 0,
        decreases v@.len() - i,
    {
        v.set(i, 0);
        i = i + 1;
    }
}

impl Clone for Credential {
    /// A deep copy with the same mathematical value.
    fn clone(&self) -> (r: Self)
        ensures
            r@ == self@,
    {
        let mut secret: Vec<u8> = Vec::new();
        let mut i: usize = 0;
        while i < self.secret.len()
            invariant
                i <= self.secret@.len(),
                secret@ == self.secret@.subrange(0, i as int),
            decreases self.secret@.len() - i,
        {
            secret.push(self.secret[i]);
            proof {
                assert(self.secret@.subrange(0, i as int + 1) =~= self.secret@.subrange(
                    0,
                    i as int,
                ).push(self.secret@[i as int]));
            }
            i = i + 1;
        }
        proof {
            assert(self.secret@.subrange(0, self.secret@.len() as int) =~= self.secret@);
        }
        let mut tags: Vec<String> = Vec::new();
        let mut i: usize = 0;
        while i < self.tags.len()
            invariant
                i <= self.tags@.len(),
                tags@.len() == i,
                forall|j: int| 0 <= j < i ==> tags@[j] == self.tags@[j],
            decreases self.tags@.len() - i,
        {
            tags.push(self.tags[i].clone());
            i = i + 1;
        }
        proof {
            assert(tags@ =~= self.tags@);
        }
        let mut custom_fields: Vec<(String, String)> = Vec::new();
        let mut i: usize = 0;
        while i < self.custom_fields.len()
            invariant
                i <= self.custom_fields@.len(),
                custom_fields@.len() == i,
                forall|j: int| 0 <= j < i ==> custom_fields@[j] == self.custom_fields@[j],
            decreases self.custom_fields@.len() - i,
        {
            let pair = (self.custom_fields[i].0.clone(), self.custom_fields[i].1.clone());
            custom_fields.push(pair);
            i = i + 1;
        }
        proof {
            assert(custom_fields@ =~= self.custom_fields@);
        }
        Credential {
            id: self.id.clone(),
            entry_type: self.entry_type,
            service: self.service.clone(),
            username: self.username.clone(),
            secret,
            notes: self.notes.clone(),
            tags,
            is_active: self.is_active,
            custom_fields,
            created_at: self.created_at,
            updated_at: self.updated_at,
        }
    }
}

/// The in-memory credential set, keyed by id, exclusively owned by the
/// manager while the vault is unlocked.
pub struct CredentialRepository {
    creds: Vec<Credential>,
}

impl View for CredentialRepository {
    type V = Seq<CredView>;

    closed spec fn view(&self) -> Seq<CredView> {
        self.creds.deep_view()
    }
}

impl CredentialRepository {
    /// Ids are pairwise distinct.
    pub open spec fn wf(self) -> bool {
        unique_ids(self@)
    }

    /// An empty repository.
    pub fn new() -> (r: CredentialRepository)
        ensures
            r@ == Seq::<CredView>::empty(),
            r.wf(),
    {
        let r = CredentialRepository { creds: Vec::new() };
        proof {
            assert(r@ =~= Seq::<CredView>::empty());
        }
        r
    }

    /// Builds a repository from decoded credentials, refusing duplicate ids.
    pub fn from_vec(creds: Vec<Credential>) -> (r: Option<CredentialRepository>)
        ensures
            match r {
                Some(repo) => repo@ == creds.deep_view() && repo.wf(),
                None => !unique_ids(creds.deep_view()),
            },
    {
        let ghost dv = creds.deep_view();
        let n = creds.len();
        let mut i: usize = 0;
        while i < n
            invariant
                n == dv.len(),
                dv == creds.deep_view(),
                i <= n,
                forall|a: int, b: int| 0 <= a < b < dv.len() && a < i ==> (#[trigger] dv[a]).id
                    != (#[trigger] dv[b]).id,
            decreases n - i,
        {
            let mut j: usize = i + 1;
            while j < n
                invariant
                    n == dv.len(),
                    dv == creds.deep_view(),
                    i < j <= n || (i >= n),
                    i < n,
                    forall|b: int| i < b < j ==> (#[trigger] dv[b]).id != dv[i as int].id,
                decreases n - j,
            {
                if str_eq(creds[i].id.as_str(), creds[j].id.as_str()) {
                    proof {
                        assert(dv[i as int].id == creds@[i as int]@.id);
                        assert(dv[j as int].id == creds@[j as int]@.id);
                        assert(dv[i as int].id == dv[j as int].id);
                        assert(!unique_ids(dv));
                    }
                    return None;
                }
                j = j + 1;
            }
            i = i + 1;
        }
        Some(CredentialRepository { creds })
    }

    /// The number of stored credentials.
    pub fn len(&self) -> (r: usize)
        ensures
            r == self@.len(),
    {
        self.creds.len()
    }

    /// The index of the credential with this id, if one is stored.
    fn position_of(&self, id: &str) -> (r: Option<usize>)
        ensures
            match r {
                Some(i) => i < self@.len() && self@[i as int].id == id@,
                None => !contains_id(self@, id@),
            },
    {
        let mut i: usize = 0;
        while i < self.creds.len()
            invariant
                i <= self@.len(),
                self@.len() == self.creds.deep_view().len(),
                forall|j: int| 0 <= j < i ==> (#[trigger] self@[j]).id != id@,
            decreases self@.len() - i,
        {
            if str_eq(self.creds[i].id.as_str(), id) {
                return Some(i);
            }
            i = i + 1;
        }
        None
    }

    /// A borrow of the credential with this id, if one is stored.
    pub fn get(&self, id: &str) -> (r: Option<&Credential>)
        requires
            self.wf(),
        ensures
            match r {
                Some(c) => contains_id(self@, id@) && c@ == self@[idx_of(self@, id@)] && c@.id
                    == id@,
                None => !contains_id(self@, id@),
            },
    {
        match self.position_of(id) {
            Some(i) => {
                proof {
                    lemma_idx_of_unique(self@, i as int);
                }
                Some(&self.creds[i])
            },
            None => None,
        }
    }

    /// Inserts a credential: replaces the entry with the same id, or appends.
    pub fn insert(&mut self, c: Credential)
        requires
            old(self).wf(),
        ensures
            final(self)@ == repo_insert(old(self)@, c@),
            final(self).wf(),
    {
        let ghost olds = self@;
        match self.position_of(c.id.as_str()) {
            Some(i) => {
                proof {
                    lemma_idx_of_unique(self@, i as int);
                }
                self.creds.set(i, c);
                proof {
                    assert(self@ =~= olds.update(i as int, c@));
                }
            },
            None => {
                self.creds.push(c);
                proof {
                    assert(self@ =~= olds.push(c@));
                }
            },
        }
    }

    /// Removes the credential with this id; reports whether one was stored.
    pub fn remove(&mut self, id: &str) -> (r: bool)
        requires
            old(self).wf(),
        ensures
            r == contains_id(old(self)@, id@),
            r ==> final(self)@ == old(self)@.remove(idx_of(old(self)@, id@)),
            !r ==> final(self)@ == old(self)@,
            final(self).wf(),
    {
        let ghost olds = self@;
        match self.position_of(id) {
            Some(i) => {
                proof {
                    lemma_idx_of_unique(self@, i as int);
                }
                self.creds.remove(i);
                proof {
                    assert(self@ =~= olds.remove(i as int));
                }
                true
            },
            None => false,
        }
    }

    /// Applies a patch to the credential with this id, advancing its
    /// `updated_at`; reports whether one was stored.
    pub fn patch_at(&mut self, id: &str, patch: CredentialPatch) -> (r: bool)
        requires
            old(self).wf(),
            match patch@.custom_fields {
                Some(cf) => unique_field_keys(cf),
                None => true,
            },
        ensures
            r == contains_id(old(self)@, id@),
            !r ==> final(self)@ == old(self)@,
            r ==> {
                let i = idx_of(old(self)@, id@);
                final(self)@ == old(self)@.update(
                    i,
                    apply_patch(old(self)@[i], patch@, final(self)@[i].updated_at),
                )
            },
            final(self).wf(),
    {
        let ghost olds = self@;
        match self.position_of(id) {
            Some(i) => {
                proof {
                    lemma_idx_of_unique(self@, i as int);
                }
                let mut c = self.creds.remove(i);
                c.update(patch);
                self.creds.insert(i, c);
                proof {
                    let patched = apply_patch(olds[i as int], patch@, self@[i as int].updated_at);
                    assert(self@ =~= olds.update(i as int, patched));
                }
                true
            },
            None => false,
        }
    }


    /// Removes the credential with this id and hands it back with its index.
    pub fn remove_take(&mut self, id: &str) -> (r: Option<(usize, Credential)>)
        requires
            old(self).wf(),
        ensures
            match r {
                Some((i, c)) => {
                    &&& contains_id(old(self)@, id@)
                    &&& i == idx_of(old(self)@, id@)
                    &&& c@ == old(self)@[i as int]
                    &&& final(self)@ == old(self)@.remove(i as int)
                },
                None => !contains_id(old(self)@, id@) && final(self)@ == old(self)@,
            },
            final(self).wf(),
    {
        let ghost olds = self@;
        match self.position_of(id) {
            Some(i) => {
                proof {
                    lemma_idx_of_unique(self@, i as int);
                }
                let c = self.creds.remove(i);
                proof {
                    assert(self@ =~= olds.remove(i as int));
                }
                Some((i, c))
            },
            None => None,
        }
    }

    /// Puts a credential back at a given index (the inverse of `remove_take`).
    pub fn insert_at(&mut self, i: usize, c: Credential)
        requires
            old(self).wf(),
            i <= old(self)@.len(),
            !contains_id(old(self)@, c@.id),
        ensures
            final(self)@ == old(self)@.insert(i as int, c@),
            final(self).wf(),
    {
        let ghost olds = self@;
        self.creds.insert(i, c);
        proof {
            assert(self@ =~= olds.insert(i as int, c@));
        }
    }

    /// Encodes the whole credential set as one byte string.
    pub fn encode(&self) -> (r: Vec<u8>)
        ensures
            r@ == enc_repo(self@),
            wf_repo(self@),
    {
        encode_repo(&self.creds)
    }

    /// Snapshots of all stored credentials.
    pub fn values(&self) -> (r: Vec<Credential>)
        ensures
            r.deep_view() == self@,
    {
        let mut out: Vec<Credential> = Vec::new();
        let mut i: usize = 0;
        while i < self.creds.len()
            invariant
                i <= self@.len(),
                self@.len() == self.creds.deep_view().len(),
                out.deep_view().len() == i,
                forall|j: int| 0 <= j < i ==> out.deep_view()[j] == self@[j],
            decreases self@.len() - i,
        {
            out.push(self.creds[i].clone());
            i = i + 1;
        }
        proof {
            assert(out.deep_view() =~= self@);
        }
        out
    }

    /// Overwrites every stored secret with zeroes and empties the repository:
    /// the in-memory credential set is discarded, not merely dropped.
    pub fn wipe_and_clear(&mut self)
        ensures
            final(self)@ == Seq::<CredView>::empty(),
            final(self).wf(),
    {
        while self.creds.len() > 0
            decreases self.creds@.len(),
        {
            let mut c = self.creds.remove(0);
            wipe_bytes(&mut c.secret);
        }
        proof {
            assert(self@ =~= Seq::<CredView>::empty());
        }
    }
}

} // verus!
