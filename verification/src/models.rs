//! Data model: credentials, field patches, and the encrypted vault record.

use vstd::prelude::*;

verus! {

/// What kind of secret a credential holds.
#[derive(Clone, Copy, Debug, PartialEq, Eq, Structural)]
pub enum EntryType {
    Password,
    ApiKey,
}

/// One stored secret entry.
///
/// `id` is assigned at creation and never mutated afterwards; it is the
/// repository key. `secret` holds the plaintext password or API key; it is
/// written to durable storage only inside the vault's single ciphertext.
/// Timestamps are milliseconds since the Unix epoch.
pub struct Credential {
    pub id: String,
    pub entry_type: EntryType,
    pub service: String,
    pub username: String,
    pub secret: Vec<u8>,
    pub notes: String,
    pub tags: Vec<String>,
    pub is_active: bool,
    pub custom_fields: Vec<(String, String)>,
    pub created_at: u64,
    pub updated_at: u64,
}

/// The sequence of (key, value) views of a list of string pairs.
pub open spec fn pairs_deep_view(v: Seq<(String, String)>) -> Seq<(Seq<char>, Seq<char>)> {
    Seq::new(v.len(), |i: int| (v[i].0@, v[i].1@))
}

/// The keys of a custom-field list are pairwise distinct: custom fields are
/// a mapping from key to value.
pub open spec fn unique_field_keys(l: Seq<(Seq<char>, Seq<char>)>) -> bool {
    forall|i: int, j: int| 0 <= i < j < l.len() ==> (#[trigger] l[i]).0 != (#[trigger] l[j]).0
}

/// The mathematical value of a credential.
pub ghost struct CredView {
    pub id: Seq<char>,
    pub entry_type: EntryType,
    pub service: Seq<char>,
    pub username: Seq<char>,
    pub secret: Seq<u8>,
    pub notes: Seq<char>,
    pub tags: Seq<Seq<char>>,
    pub is_active: bool,
    pub custom_fields: Seq<(Seq<char>, Seq<char>)>,
    pub created_at: u64,
    pub updated_at: u64,
}

impl View for Credential {
    type V = CredView;

    open spec fn view(&self) -> CredView {
        CredView {
            id: self.id@,
            entry_type: self.entry_type,
            service: self.service@,
            username: self.username@,
            secret: self.secret@,
            notes: self.notes@,
            tags: self.tags.deep_view(),
            is_active: self.is_active,
            custom_fields: pairs_deep_view(self.custom_fields@),
            created_at: self.created_at,
            updated_at: self.updated_at,
        }
    }
}

impl DeepView for Credential {
    type V = CredView;

    open spec fn deep_view(&self) -> CredView {
        self.view()
    }
}

/// A field-update descriptor: exactly the fields that are present are applied.
pub struct CredentialPatch {
    pub service: Option<String>,
    pub username: Option<String>,
    pub secret: Option<Vec<u8>>,
    pub notes: Option<String>,
    pub is_active: Option<bool>,
    pub tags: Option<Vec<String>>,
    pub custom_fields: Option<Vec<(String, String)>>,
}

/// The mathematical value of a patch.
pub ghost struct PatchView {
    pub service: Option<Seq<char>>,
    pub username: Option<Seq<char>>,
    pub secret: Option<Seq<u8>>,
    pub notes: Option<Seq<char>>,
    pub is_active: Option<bool>,
    pub tags: Option<Seq<Seq<char>>>,
    pub custom_fields: Option<Seq<(Seq<char>, Seq<char>)>>,
}

impl View for CredentialPatch {
    type V = PatchView;

    open spec fn view(&self) -> PatchView {
        PatchView {
            service: match self.service {
                Some(s) => Some(s@),
                None => None,
            },
            username: match self.username {
                Some(s) => Some(s@),
                None => None,
            },
            secret: match self.secret {
                Some(s) => Some(s@),
                None => None,
            },
            notes: match self.notes {
                Some(s) => Some(s@),
                None => None,
            },
            is_active: self.is_active,
            tags: match self.tags {
                Some(t) => Some(t.deep_view()),
                None => None,
            },
            custom_fields: match self.custom_fields {
                Some(cf) => Some(pairs_deep_view(cf@)),
                None => None,
            },
        }
    }
}

/// The result of applying a patch to a credential at time `ts`: exactly the
/// present fields are replaced, `updated_at` is set to `ts`, and `id`,
/// `entry_type` and `created_at` are untouched.
pub open spec fn apply_patch(c: CredView, p: PatchView, ts: u64) -> CredView {
    CredView {
        id: c.id,
        entry_type: c.entry_type,
        service: match p.service {
            Some(s) => s,
            None => c.service,
        },
        username: match p.username {
            Some(s) => s,
            None => c.username,
        },
        secret: match p.secret {
            Some(s) => s,
            None => c.secret,
        },
        notes: match p.notes {
            Some(s) => s,
            None => c.notes,
        },
        is_active: match p.is_active {
            Some(a) => a,
            None => c.is_active,
        },
        tags: match p.tags {
            Some(t) => t,
            None => c.tags,
        },
        custom_fields: match p.custom_fields {
            Some(cf) => cf,
            None => c.custom_fields,
        },
        created_at: c.created_at,
        updated_at: ts,
    }
}

/// The sole durable artifact: the key-derivation salt, the nonce of the most
/// recent encryption, and the sealed credential set (ciphertext plus tag).
pub struct EncryptedVault {
    pub salt: Vec<u8>,
    pub nonce: Vec<u8>,
    pub ciphertext: Vec<u8>,
}

/// The mathematical value of an encrypted vault record.
pub ghost struct RecView {
    pub salt: Seq<u8>,
    pub nonce: Seq<u8>,
    pub ciphertext: Seq<u8>,
}

impl View for EncryptedVault {
    type V = RecView;

    open spec fn view(&self) -> RecView {
        RecView { salt: self.salt@, nonce: self.nonce@, ciphertext: self.ciphertext@ }
    }
}

/// Relies on `uuid::Uuid::new_v4` and its hyphenated display form: a fresh
/// random identifier rendered as 36 characters. Nothing further is assumed
/// of the value.
#[verifier::external_body]
fn fresh_id() -> (r: String)
    ensures
        r@.len() == 36,
{
    uuid::Uuid::new_v4().to_string()
}

/// Relies on `chrono::Utc::now` / `timestamp_millis`: the current wall-clock
/// time in milliseconds since the Unix epoch. Nothing is assumed of the value.
#[verifier::external_body]
fn now_millis() -> (r: i64) {
    chrono::Utc::now().timestamp_millis()
}

/// The current time as a non-negative millisecond count (clamped at zero for
/// clocks set before the epoch).
fn current_timestamp() -> (r: u64) {
    let t = now_millis();
    if t < 0 {
        0
    } else {
        t as u64
    }
}

impl Credential {
    /// A new password entry: fresh id, timestamps set to now, active, and no
    /// custom fields.
    pub fn new_password(
        service: String,
        username: String,
        password: Vec<u8>,
        notes: String,
        tags: Vec<String>,
    ) -> (r: Credential)
        ensures
            r@.entry_type == EntryType::Password,
            r@.service == service@,
            r@.username == username@,
            r@.secret == password@,
            r@.notes == notes@,
            r@.tags == tags.deep_view(),
            r@.is_active == true,
            r@.custom_fields.len() == 0,
            r@.id.len() == 36,
            r@.created_at == r@.updated_at,
    {
        let now = current_timestamp();
        let r = Credential {
            id: fresh_id(),
            entry_type: EntryType::Password,
            service,
            username,
            secret: password,
            notes,
            tags,
            is_active: true,
            custom_fields: Vec::new(),
            created_at: now,
            updated_at: now,
        };
        proof {
            assert(r@.custom_fields =~= Seq::<(Seq<char>, Seq<char>)>::empty());
        }
        r
    }

    /// A new API-key entry: fresh id, timestamps set to now, and no custom
    /// fields.
    pub fn new_api_key(
        service: String,
        account_name: String,
        api_key: Vec<u8>,
        notes: String,
        is_active: bool,
        tags: Vec<String>,
    ) -> (r: Credential)
        ensures
            r@.entry_type == EntryType::ApiKey,
            r@.service == service@,
            r@.username == account_name@,
            r@.secret == api_key@,
            r@.notes == notes@,
            r@.tags == tags.deep_view(),
            r@.is_active == is_active,
            r@.custom_fields.len() == 0,
            r@.id.len() == 36,
            r@.created_at == r@.updated_at,
    {
        let now = current_timestamp();
        let r = Credential {
            id: fresh_id(),
            entry_type: EntryType::ApiKey,
            service,
            username: account_name,
            secret: api_key,
            notes,
            tags,
            is_active,
            custom_fields: Vec::new(),
            created_at: now,
            updated_at: now,
        };
        proof {
            assert(r@.custom_fields =~= Seq::<(Seq<char>, Seq<char>)>::empty());
        }
        r
    }

    /// Applies exactly the fields present in the patch and advances
    /// `updated_at` to the current time.
    pub fn update(&mut self, patch: CredentialPatch)
        requires
            match patch@.custom_fields {
                Some(cf) => unique_field_keys(cf),
                None => true,
            },
        ensures
            final(self)@ == apply_patch(old(self)@, patch@, final(self)@.updated_at),
    {
        let ghost p = patch@;
        let CredentialPatch { service, username, secret, notes, is_active, tags, custom_fields } =
            patch;
        if let Some(s) = service {
            self.service = s;
        }
        if let Some(u) = username {
            self.username = u;
        }
        if let Some(sec) = secret {
            self.secret = sec;
        }
        if let Some(n) = notes {
            self.notes = n;
        }
        if let Some(a) = is_active {
            self.is_active = a;
        }
        if let Some(t) = tags {
            self.tags = t;
        }
        if let Some(cf) = custom_fields {
            self.custom_fields = cf;
        }
        self.updated_at = current_timestamp();
        proof {
            assert(self@.custom_fields =~= apply_patch(old(self)@, p, self@.updated_at)
                .custom_fields);
        }
    }
}

} // verus!
