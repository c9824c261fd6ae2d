//! The credential vault: an in-memory map from service id to decrypted
//! upstream credential, loaded from encrypted at-rest records and exported
//! back encrypted on every change. Records that arrive unencrypted are
//! accepted and flagged for migration.

use vstd::prelude::*;
use vstd::utf8::encode_utf8;

use crate::cipher::MAX_PLAINTEXT_LEN;
use crate::cipher::decrypt;
use crate::cipher::encrypt;
use crate::cipher::spec_encrypts;
use crate::credential::EncryptedCredential;
use crate::credential::EncryptedCredentialView;
use crate::credential::StoredCredential;
use crate::credential::StoredCredentialView;
use crate::errors::GatewayError;
use crate::lookup::Keyed;
use crate::lookup::lemma_key_index;
use crate::lookup::lemma_key_index_at;
use crate::lookup::lemma_key_index_none;
use crate::lookup::spec_key_index;
use crate::strutil::clone_strings;
use crate::strutil::str_eq;
use crate::sys::MAX_TIMESTAMP_SECS;
use crate::sys::clamp_secs;
use crate::sys::now_secs;

verus! {

/// Vault entries are looked up by service id.
impl Keyed<Seq<char>> for StoredCredentialView {
    open spec fn key(self) -> Seq<char> {
        self.service_id
    }
}

/// The credential stored for `sid`, if any: the first (and, in a
/// well-formed vault, only) entry with that service id.
pub open spec fn spec_vault_find(creds: Seq<StoredCredentialView>, sid: Seq<char>) -> Option<
    StoredCredentialView,
> {
    let m = spec_key_index(creds, sid);
    if m == -1 {
        None
    } else {
        Some(creds[m])
    }
}

/// The vault's entries after storing `c`: replaces the entry with `c`'s
/// service id, or appends `c` if there is none.
pub open spec fn spec_upsert(creds: Seq<StoredCredentialView>, c: StoredCredentialView) -> Seq<
    StoredCredentialView,
> {
    let m = spec_key_index(creds, c.service_id);
    if m == -1 {
        creds.push(c)
    } else {
        creds.update(m, c)
    }
}

/// Option-wise envelope relation for the optional refresh token.
pub open spec fn spec_encrypts_opt(
    enc: Option<Seq<char>>,
    plain: Option<Seq<char>>,
    key: Seq<char>,
) -> bool {
    match (enc, plain) {
        (Some(e), Some(p)) => spec_encrypts(e, p, key),
        (None, None) => true,
        _ => false,
    }
}

/// `e` is an encrypted at-rest form of `c` under `key`: same identity,
/// expiry and scopes, both tokens enveloped, and the encrypted flag set.
pub open spec fn spec_encrypts_record(
    e: EncryptedCredentialView,
    c: StoredCredentialView,
    key: Seq<char>,
) -> bool {
    &&& e.encrypted
    &&& e.service_id == c.service_id
    &&& e.expires_at == c.expires_at
    &&& e.scopes == c.scopes
    &&& spec_encrypts(e.access_token, c.access_token, key)
    &&& spec_encrypts_opt(e.refresh_token, c.refresh_token, key)
}

/// `c` is what loading record `e` under `key` yields: decrypted tokens when
/// the record is encrypted, the plaintext tokens as they stand otherwise.
pub open spec fn spec_decrypts_record(
    e: EncryptedCredentialView,
    c: StoredCredentialView,
    key: Seq<char>,
) -> bool {
    &&& c.service_id == e.service_id
    &&& c.expires_at == e.expires_at
    &&& c.scopes == e.scopes
    &&& if e.encrypted {
        spec_encrypts(e.access_token, c.access_token, key) && spec_encrypts_opt(
            e.refresh_token,
            c.refresh_token,
            key,
        )
    } else {
        c.access_token == e.access_token && c.refresh_token == e.refresh_token
    }
}

/// Both of `c`'s tokens fit under the cipher's size bound, so encrypting
/// `c` succeeds.
pub open spec fn spec_tokens_fit(c: StoredCredentialView) -> bool {
    &&& encode_utf8(c.access_token).len() <= MAX_PLAINTEXT_LEN
    &&& (c.refresh_token matches Some(t) ==> encode_utf8(t).len() <= MAX_PLAINTEXT_LEN)
}

/// Record `e` decrypts to `c` and to no other credential under `key`: the
/// enveloped tokens name their plaintexts uniquely.
pub open spec fn spec_decrypts_exactly(
    e: EncryptedCredentialView,
    c: StoredCredentialView,
    key: Seq<char>,
) -> bool {
    forall |c2: StoredCredentialView| #![trigger spec_decrypts_record(e, c2, key)]
        spec_decrypts_record(e, c2, key) ==> c2 == c
}

/// Record `e` decrypts to some credential under `key`.
pub open spec fn spec_record_decryptable(e: EncryptedCredentialView, key: Seq<char>) -> bool {
    exists |c: StoredCredentialView| #![auto] spec_decrypts_record(e, c, key)
}

/// Record `e` loads without error under `key`: it is plaintext, or it is a
/// well-formed encryption of some credential within the cipher's bounds.
pub open spec fn spec_record_loadable(e: EncryptedCredentialView, key: Seq<char>) -> bool {
    !e.encrypted || exists |c: StoredCredentialView| #![auto]
        spec_encrypts_record(e, c, key) && spec_tokens_fit(c)
}

/// The mathematical value of a [`CredentialManager`].
#[verifier::ext_equal]
pub struct CredentialManagerView {
    pub credentials: Seq<StoredCredentialView>,
    pub encryption_key: Seq<char>,
}

/// The encrypted credential vault: decrypted entries in memory, keyed by
/// service id, together with the key string used at rest.
pub struct CredentialManager {
    credentials: Vec<StoredCredential>,
    encryption_key: String,
}

impl View for CredentialManager {
    type V = CredentialManagerView;

    closed spec fn view(&self) -> CredentialManagerView {
        CredentialManagerView {
            credentials: self.credentials.deep_view(),
            encryption_key: self.encryption_key@,
        }
    }
}

/// Replacing the entry for `c`'s service id changes that key's lookup to
/// `c` and no other key's lookup at all.
pub proof fn lemma_upsert_find(creds: Seq<StoredCredentialView>, c: StoredCredentialView, k: Seq<char>)
    ensures
        k == c.service_id ==> spec_vault_find(spec_upsert(creds, c), k) == Some(c),
        k != c.service_id ==> spec_vault_find(spec_upsert(creds, c), k) == spec_vault_find(
            creds,
            k,
        ),
{
    let up = spec_upsert(creds, c);
    lemma_key_index(creds, c.service_id);
    let mc = spec_key_index(creds, c.service_id);
    if k == c.service_id {
        if mc == -1 {
            assert(up[creds.len() as int] == c);
            assert forall |j: int| 0 <= j < creds.len() as int implies (#[trigger] up[j]).key()
                != k by {
                assert(up[j] == creds[j]);
            }
            lemma_key_index_at(up, k, creds.len() as int);
        } else {
            assert(up[mc] == c);
            assert forall |j: int| 0 <= j < mc implies (#[trigger] up[j]).key() != k by {
                assert(up[j] == creds[j]);
            }
            lemma_key_index_at(up, k, mc);
        }
    } else {
        lemma_key_index(creds, k);
        let mk = spec_key_index(creds, k);
        if mk == -1 {
            assert forall |j: int| 0 <= j < up.len() as int implies (#[trigger] up[j]).key()
                != k by {
                if mc == -1 {
                    if j < creds.len() {
                        assert(up[j] == creds[j]);
                    } else {
                        assert(up[j] == c);
                    }
                } else {
                    if j != mc {
                        assert(up[j] == creds[j]);
                    } else {
                        assert(up[j] == c);
                    }
                }
            }
            lemma_key_index_none(up, k);
        } else {
            assert(creds[mk].key() == k);
            assert(mk != mc);
            assert(up[mk] == creds[mk]);
            assert forall |j: int| 0 <= j < mk implies (#[trigger] up[j]).key() != k by {
                if mc != -1 && j == mc {
                    assert(up[j] == c);
                } else {
                    assert(up[j] == creds[j]);
                }
            }
            lemma_key_index_at(up, k, mk);
        }
    }
}

impl CredentialManager {
    /// Entries carry pairwise distinct service ids.
    pub open spec fn wf(self) -> bool {
        forall |i: int, j: int|
            0 <= i < j < self@.credentials.len() ==> self@.credentials[i].service_id
                != self@.credentials[j].service_id
    }

    /// Build a vault from at-rest records, decrypting each encrypted record
    /// under `encryption_key` and accepting plaintext records as they are.
    /// The flag is true exactly when some record was plaintext, so the
    /// caller owes the store a migrating rewrite. Later duplicates of a
    /// service id replace earlier ones. Fails (`Internal`) only when an
    /// encrypted record will not decrypt.
    pub fn from_records(records: Vec<EncryptedCredential>, encryption_key: &str) -> (r: Result<
        (CredentialManager, bool),
        GatewayError,
    >)
        ensures
            r matches Ok((m, migrated)) ==> {
                &&& m.wf()
                &&& m@.encryption_key == encryption_key@
                &&& (migrated <==> exists |i: int| #![auto]
                    0 <= i < records.deep_view().len() && !records.deep_view()[i].encrypted)
                &&& forall |i: int| #![auto]
                    0 <= i < records.deep_view().len() ==> spec_vault_find(
                        m@.credentials,
                        records.deep_view()[i].service_id,
                    ) is Some
                &&& forall |i: int| #![auto]
                    0 <= i < records.deep_view().len() ==> spec_record_decryptable(
                        records.deep_view()[i],
                        encryption_key@,
                    )
                &&& forall |k: Seq<char>|
                    #![trigger spec_vault_find(m@.credentials, k)]
                    spec_vault_find(m@.credentials, k) matches Some(c) ==> exists |i: int|
                        #![auto]
                        0 <= i < records.deep_view().len() && records.deep_view()[i].service_id
                            == k && spec_decrypts_record(
                            records.deep_view()[i],
                            c,
                            encryption_key@,
                        )
            },
            (forall |i: int| #![auto]
                0 <= i < records.deep_view().len() ==> spec_record_loadable(
                    records.deep_view()[i],
                    encryption_key@,
                )) ==> r is Ok,
            r is Err ==> exists |i: int| #![auto]
                0 <= i < records.deep_view().len() && !spec_record_loadable(
                    records.deep_view()[i],
                    encryption_key@,
                ),
            r matches Err(e) ==> e is Internal,
    {
        let ghost rv = records.deep_view();
        let mut creds: Vec<StoredCredential> = Vec::new();
        let mut migrated = false;
        let n = records.len();
        let mut i: usize = 0;
        while i < n
            invariant
                i <= n,
                n == rv.len(),
                records.deep_view() == rv,
                forall |p: int, q: int|
                    0 <= p < q < creds.deep_view().len() ==> creds.deep_view()[p].service_id
                        != creds.deep_view()[q].service_id,
                (migrated <==> exists |j: int| #![auto] 0 <= j < i && !rv[j].encrypted),
                forall |j: int| #![auto]
                    0 <= j < i ==> spec_vault_find(creds.deep_view(), rv[j].service_id) is Some,
                forall |j: int| #![auto]
                    0 <= j < i ==> spec_record_decryptable(rv[j], encryption_key@),
                forall |k: Seq<char>|
                    #![trigger spec_vault_find(creds.deep_view(), k)]
                    spec_vault_find(creds.deep_view(), k) matches Some(c) ==> exists |j: int|
                        #![auto]
                        0 <= j < i && rv[j].service_id == k && spec_decrypts_record(
                            rv[j],
                            c,
                            encryption_key@,
                        ),
            decreases n - i,
        {
            let record = &records[i];
            if !record.encrypted {
                migrated = true;
            }
            let cred = match Self::decrypt_credential(record, encryption_key) {
                Ok(c) => c,
                Err(e) => {
                    proof {
                        assert(!spec_record_loadable(rv[i as int], encryption_key@));
                    }
                    return Err(e);
                },
            };
            let ghost cview = cred@;
            proof {
                assert(spec_record_decryptable(rv[i as int], encryption_key@)) by {
                    assert(spec_decrypts_record(rv[i as int], cview, encryption_key@));
                }
            }
            let ghost before = creds.deep_view();
            Self::upsert_credential(&mut creds, cred);
            proof {
                let cv = creds.deep_view();
                lemma_upsert_find(before, cview, cview.service_id);
                assert forall |k: Seq<char>|
                    #![trigger spec_vault_find(cv, k)]
                    spec_vault_find(cv, k) is Some implies exists |j: int| #![auto]
                        0 <= j < i + 1 && rv[j].service_id == k && spec_decrypts_record(
                        rv[j],
                        spec_vault_find(cv, k)->Some_0,
                        encryption_key@,
                    ) by {
                    lemma_upsert_find(before, cview, k);
                    if k == cview.service_id {
                        assert(rv[i as int].service_id == k && spec_decrypts_record(
                            rv[i as int],
                            cview,
                            encryption_key@,
                        ));
                    }
                }
                assert forall |j: int| 0 <= j < i + 1 implies spec_vault_find(
                    cv,
                    #[trigger] rv[j].service_id,
                ) is Some by {
                    lemma_upsert_find(before, cview, rv[j].service_id);
                }
            }
            i = i + 1;
        }
        Ok((
            CredentialManager { credentials: creds, encryption_key: String::from_str(encryption_key) },
            migrated,
        ))
    }

    /// The decrypted credential for `service_id`, as a copy, if the vault
    /// holds one.
    pub fn get(&self, service_id: &str) -> (r: Option<StoredCredential>)
        ensures
            r is Some <==> spec_vault_find(self@.credentials, service_id@) is Some,
            r matches Some(c) ==> spec_vault_find(self@.credentials, service_id@) == Some(c@),
    {
        let ghost cv = self@.credentials;
        let n = self.credentials.len();
        let mut i: usize = 0;
        while i < n
            invariant
                i <= n,
                n == cv.len(),
                cv == self@.credentials,
                forall |j: int| 0 <= j < i ==> (#[trigger] cv[j]).service_id != service_id@,
            decreases n - i,
        {
            if str_eq(self.credentials[i].service_id.as_str(), service_id) {
                proof {
                    assert(cv[i as int].service_id == service_id@);
                    lemma_key_index(cv, service_id@);
                    assert(spec_key_index(cv, service_id@) == i);
                }
                return Some(self.credentials[i].clone());
            }
            i = i + 1;
        }
        proof {
            lemma_key_index(cv, service_id@);
        }
        None
    }

    /// Store `credential`, replacing any entry for its service id, and
    /// return the encrypted snapshot of every entry for the caller to
    /// persist. The in-memory change stands even when encrypting the
    /// snapshot fails.
    pub fn update(&mut self, credential: StoredCredential) -> (r: Result<
        Vec<EncryptedCredential>,
        GatewayError,
    >)
        requires
            old(self).wf(),
        ensures
            final(self).wf(),
            final(self)@.encryption_key == old(self)@.encryption_key,
            final(self)@.credentials == spec_upsert(old(self)@.credentials, credential@),
            spec_vault_find(final(self)@.credentials, credential@.service_id) == Some(
                credential@,
            ),
            forall |k: Seq<char>|
                #![trigger spec_vault_find(final(self)@.credentials, k)]
                k != credential@.service_id ==> spec_vault_find(final(self)@.credentials, k)
                    == spec_vault_find(old(self)@.credentials, k),
            r matches Ok(es) ==> {
                &&& es.deep_view().len() == final(self)@.credentials.len()
                &&& forall |i: int| #![auto]
                    0 <= i < es.deep_view().len() ==> spec_encrypts_record(
                        es.deep_view()[i],
                        final(self)@.credentials[i],
                        old(self)@.encryption_key,
                    ) && spec_decrypts_exactly(
                        es.deep_view()[i],
                        final(self)@.credentials[i],
                        old(self)@.encryption_key,
                    )
            },
            r is Ok <==> forall |i: int| #![auto]
                0 <= i < final(self)@.credentials.len() ==> spec_tokens_fit(
                    final(self)@.credentials[i],
                ),
            r matches Err(e) ==> e is Internal,
    {
        let ghost cred_view = credential@;
        let ghost before = self@.credentials;
        Self::upsert_credential(&mut self.credentials, credential);
        proof {
            lemma_upsert_find(before, cred_view, cred_view.service_id);
            assert forall |k: Seq<char>|
                #![trigger spec_vault_find(self@.credentials, k)]
                k != cred_view.service_id implies spec_vault_find(self@.credentials, k)
                == spec_vault_find(before, k) by {
                lemma_upsert_find(before, cred_view, k);
            }
        }
        self.export_encrypted()
    }

    /// Every entry, encrypted for rest: the same records in the same order,
    /// tokens enveloped and the encrypted flag set on each. Fails
    /// (`Internal`) exactly when some token exceeds the cipher's bound.
    pub fn export_encrypted(&self) -> (r: Result<Vec<EncryptedCredential>, GatewayError>)
        ensures
            r matches Ok(es) ==> {
                &&& es.deep_view().len() == self@.credentials.len()
                &&& forall |i: int| #![auto]
                    0 <= i < es.deep_view().len() ==> spec_encrypts_record(
                        es.deep_view()[i],
                        self@.credentials[i],
                        self@.encryption_key,
                    ) && spec_decrypts_exactly(
                        es.deep_view()[i],
                        self@.credentials[i],
                        self@.encryption_key,
                    )
            },
            r is Ok <==> forall |i: int| #![auto]
                0 <= i < self@.credentials.len() ==> spec_tokens_fit(self@.credentials[i]),
            r matches Err(e) ==> e is Internal,
    {
        let ghost cv = self@.credentials;
        let mut out: Vec<EncryptedCredential> = Vec::new();
        let n = self.credentials.len();
        let mut i: usize = 0;
        while i < n
            invariant
                i <= n,
                n == cv.len(),
                cv == self@.credentials,
                self@.encryption_key == self.encryption_key@,
                out.deep_view().len() == i,
                forall |j: int| #![auto]
                    0 <= j < i ==> spec_encrypts_record(
                        out.deep_view()[j],
                        cv[j],
                        self@.encryption_key,
                    ) && spec_decrypts_exactly(
                        out.deep_view()[j],
                        cv[j],
                        self@.encryption_key,
                    ),
                forall |j: int| #![auto] 0 <= j < i ==> spec_tokens_fit(cv[j]),
            decreases n - i,
        {
            let enc = match Self::encrypt_credential(&self.credentials[i], self.encryption_key.as_str()) {
                Ok(e) => e,
                Err(e) => {
                    proof {
                        assert(!spec_tokens_fit(cv[i as int]));
                    }
                    return Err(e);
                },
            };
            out.push(enc);
            proof {
                assert(out.deep_view() =~= out.deep_view());
            }
            i = i + 1;
        }
        Ok(out)
    }

    /// Whether the credential for `service_id` expires within `buffer_secs`
    /// of time `now`: false when there is no such credential or it has no
    /// expiry.
    pub fn needs_refresh_at(&self, service_id: &str, buffer_secs: i64, now: i64) -> (r: bool)
        requires
            i64::MIN <= now + buffer_secs <= i64::MAX,
        ensures
            r == match spec_vault_find(self@.credentials, service_id@) {
                Some(c) => match c.expires_at {
                    Some(at) => now + buffer_secs > at,
                    None => false,
                },
                None => false,
            },
    {
        match self.get(service_id) {
            Some(cred) => match cred.expires_at {
                Some(at) => now + buffer_secs > at,
                None => false,
            },
            None => false,
        }
    }

    /// Whether the credential for `service_id` expires within `buffer_secs`
    /// of the wall clock's present moment.
    pub fn needs_refresh(&self, service_id: &str, buffer_secs: i64) -> (r: bool)
        requires
            0 <= buffer_secs <= i64::MAX - MAX_TIMESTAMP_SECS,
        ensures
            spec_vault_find(self@.credentials, service_id@) is None ==> r == false,
    {
        let now = clamp_secs(now_secs());
        self.needs_refresh_at(service_id, buffer_secs, now)
    }

    /// One record, encrypted for rest under `key`. The record decrypts back
    /// to this credential and to no other: the envelopes name their
    /// plaintexts uniquely.
    fn encrypt_credential(cred: &StoredCredential, key: &str) -> (r: Result<
        EncryptedCredential,
        GatewayError,
    >)
        ensures
            r matches Ok(e) ==> spec_encrypts_record(e@, cred@, key@),
            r matches Ok(e) ==> spec_decrypts_exactly(e@, cred@, key@),
            r is Ok <==> spec_tokens_fit(cred@),
            r matches Err(e) ==> e is Internal,
    {
        let access_token = match encrypt(cred.access_token.as_str(), key) {
            Ok(t) => t,
            Err(e) => {
                return Err(e);
            },
        };
        let refresh_token = match &cred.refresh_token {
            Some(t) => match encrypt(t.as_str(), key) {
                Ok(enc) => Some(enc),
                Err(e) => {
                    return Err(e);
                },
            },
            None => None,
        };
        let record = EncryptedCredential {
            service_id: cred.service_id.clone(),
            access_token,
            refresh_token,
            expires_at: cred.expires_at,
            scopes: clone_strings(&cred.scopes),
            encrypted: true,
        };
        proof {
            assert forall |c2: StoredCredentialView|
                #![trigger spec_decrypts_record(record@, c2, key@)]
                spec_decrypts_record(record@, c2, key@) implies c2 == cred@ by {
                assert(c2 =~= cred@);
            }
        }
        Ok(record)
    }

    /// One at-rest record, loaded: decrypted under `key` when its encrypted
    /// flag is set, taken as plaintext otherwise. Fails exactly on an
    /// encrypted record that is no well-formed envelope of an in-bounds
    /// credential under `key`.
    fn decrypt_credential(record: &EncryptedCredential, key: &str) -> (r: Result<
        StoredCredential,
        GatewayError,
    >)
        ensures
            r matches Ok(c) ==> spec_decrypts_record(record@, c@, key@),
            !record@.encrypted ==> r is Ok,
            spec_record_loadable(record@, key@) ==> r is Ok,
            r is Err ==> !spec_record_loadable(record@, key@),
            r matches Err(e) ==> e is Internal,
    {
        if !record.encrypted {
            return Ok(StoredCredential {
                service_id: record.service_id.clone(),
                access_token: record.access_token.clone(),
                refresh_token: match &record.refresh_token {
                    Some(t) => Some(t.clone()),
                    None => None,
                },
                expires_at: record.expires_at,
                scopes: clone_strings(&record.scopes),
            });
        }
        let access_token = match decrypt(record.access_token.as_str(), key) {
            Ok(t) => t,
            Err(e) => {
                proof {
                    if spec_record_loadable(record@, key@) {
                        let c = choose |c: StoredCredentialView| #![auto]
                            spec_encrypts_record(record@, c, key@) && spec_tokens_fit(c);
                        assert(spec_encrypts(record@.access_token, c.access_token, key@));
                    }
                }
                return Err(e);
            },
        };
        let refresh_token = match &record.refresh_token {
            Some(t) => match decrypt(t.as_str(), key) {
                Ok(dec) => Some(dec),
                Err(e) => {
                    proof {
                        if spec_record_loadable(record@, key@) {
                            let c = choose |c: StoredCredentialView| #![auto]
                                spec_encrypts_record(record@, c, key@) && spec_tokens_fit(c);
                            assert(record@.refresh_token matches Some(et) && c.refresh_token
                                matches Some(rt) && spec_encrypts(et, rt, key@));
                        }
                    }
                    return Err(e);
                },
            },
            None => None,
        };
        Ok(StoredCredential {
            service_id: record.service_id.clone(),
            access_token,
            refresh_token,
            expires_at: record.expires_at,
            scopes: clone_strings(&record.scopes),
        })
    }

    /// Store `credential`, replacing the first entry with its service id or
    /// appending it.
    fn upsert_credential(creds: &mut Vec<StoredCredential>, credential: StoredCredential)
        ensures
            final(creds).deep_view() == spec_upsert(old(creds).deep_view(), credential@),
            (forall |p: int, q: int|
                0 <= p < q < old(creds).deep_view().len() ==> old(creds).deep_view()[p].service_id
                    != old(creds).deep_view()[q].service_id) ==> forall |p: int, q: int|
                0 <= p < q < final(creds).deep_view().len()
                    ==> final(creds).deep_view()[p].service_id
                    != final(creds).deep_view()[q].service_id,
    {
        let ghost before = creds.deep_view();
        let ghost cview = credential@;
        let n = creds.len();
        let mut i: usize = 0;
        while i < n
            invariant
                i <= n,
                n == creds.deep_view().len(),
                creds.deep_view() == before,
                before == old(creds).deep_view(),
                cview == credential@,
                forall |j: int| 0 <= j < i ==> (#[trigger] before[j]).service_id
                    != cview.service_id,
            decreases n - i,
        {
            if str_eq(creds[i].service_id.as_str(), credential.service_id.as_str()) {
                proof {
                    assert(before[i as int].service_id == cview.service_id);
                    lemma_key_index_at(before, cview.service_id, i as int);
                }
                creds.set(i, credential);
                proof {
                    assert(creds.deep_view() =~= before.update(i as int, cview));
                    assert(spec_upsert(before, cview) == before.update(i as int, cview));
                }
                return;
            }
            i = i + 1;
        }
        proof {
            lemma_key_index_none(before, cview.service_id);
        }
        creds.push(credential);
        proof {
            assert(creds.deep_view() =~= before.push(cview));
            assert(spec_upsert(before, cview) == before.push(cview));
        }
    }
}

} // verus!
