//! Upstream credential records: the decrypted in-memory form and the
//! encrypted at-rest form the vault file holds.

use vstd::prelude::*;
use crate::strutil::clone_strings;

verus! {

/// The mathematical value of a [`StoredCredential`].
#[verifier::ext_equal]
pub struct StoredCredentialView {
    pub service_id: Seq<char>,
    pub access_token: Seq<char>,
    pub refresh_token: Option<Seq<char>>,
    pub expires_at: Option<i64>,
    pub scopes: Seq<Seq<char>>,
}

/// A decrypted upstream credential for one service.
#[derive(Debug)]
pub struct StoredCredential {
    /// The service this credential belongs to; unique within the vault.
    pub service_id: String,
    /// The bearer token injected toward the upstream service.
    pub access_token: String,
    /// The token used to refresh `access_token`, when the upstream issued one.
    pub refresh_token: Option<String>,
    /// Expiry as seconds since the Unix epoch; `None` means it never expires.
    pub expires_at: Option<i64>,
    /// The scopes this credential carries.
    pub scopes: Vec<String>,
}

impl View for StoredCredential {
    type V = StoredCredentialView;

    open spec fn view(&self) -> StoredCredentialView {
        StoredCredentialView {
            service_id: self.service_id@,
            access_token: self.access_token@,
            refresh_token: self.refresh_token.deep_view(),
            expires_at: self.expires_at,
            scopes: self.scopes.deep_view(),
        }
    }
}

impl DeepView for StoredCredential {
    type V = StoredCredentialView;

    open spec fn deep_view(&self) -> StoredCredentialView {
        self.view()
    }
}

impl Clone for StoredCredential {
    fn clone(&self) -> (res: Self)
        ensures
            res@ == self@,
    {
        let res = StoredCredential {
            service_id: self.service_id.clone(),
            access_token: self.access_token.clone(),
            refresh_token: match &self.refresh_token {
                Some(t) => Some(t.clone()),
                None => None,
            },
            expires_at: self.expires_at,
            scopes: clone_strings(&self.scopes),
        };
        proof {
            assert(res@ =~= self@);
        }
        res
    }
}

/// The mathematical value of an [`EncryptedCredential`].
#[verifier::ext_equal]
pub struct EncryptedCredentialView {
    pub service_id: Seq<char>,
    pub access_token: Seq<char>,
    pub refresh_token: Option<Seq<char>>,
    pub expires_at: Option<i64>,
    pub scopes: Seq<Seq<char>>,
    pub encrypted: bool,
}

/// A credential record as the vault file holds it. When `encrypted` is
/// true both tokens are base64 AEAD envelopes; otherwise they are plaintext
/// awaiting migration.
#[derive(Debug)]
pub struct EncryptedCredential {
    /// The service this credential belongs to.
    pub service_id: String,
    /// The access token, enveloped when `encrypted` is set.
    pub access_token: String,
    /// The refresh token, enveloped when `encrypted` is set.
    pub refresh_token: Option<String>,
    /// Expiry as seconds since the Unix epoch, if any.
    pub expires_at: Option<i64>,
    /// The scopes this credential carries.
    pub scopes: Vec<String>,
    /// Whether the tokens in this record are encrypted.
    pub encrypted: bool,
}

impl View for EncryptedCredential {
    type V = EncryptedCredentialView;

    open spec fn view(&self) -> EncryptedCredentialView {
        EncryptedCredentialView {
            service_id: self.service_id@,
            access_token: self.access_token@,
            refresh_token: self.refresh_token.deep_view(),
            expires_at: self.expires_at,
            scopes: self.scopes.deep_view(),
            encrypted: self.encrypted,
        }
    }
}

impl DeepView for EncryptedCredential {
    type V = EncryptedCredentialView;

    open spec fn deep_view(&self) -> EncryptedCredentialView {
        self.view()
    }
}

impl Clone for EncryptedCredential {
    fn clone(&self) -> (res: Self)
        ensures
            res@ == self@,
    {
        let res = EncryptedCredential {
            service_id: self.service_id.clone(),
            access_token: self.access_token.clone(),
            refresh_token: match &self.refresh_token {
                Some(t) => Some(t.clone()),
                None => None,
            },
            expires_at: self.expires_at,
            scopes: clone_strings(&self.scopes),
            encrypted: self.encrypted,
        };
        proof {
            assert(res@ =~= self@);
        }
        res
    }
}

} // verus!
