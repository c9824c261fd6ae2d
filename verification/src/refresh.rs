//! Token refresh policy: when a credential counts as expiring, and the
//! (simulated) refresh that extends its expiry by one hour.

use vstd::prelude::*;
use crate::credential::StoredCredential;
use crate::credential::StoredCredentialView;
use crate::sys::MAX_TIMESTAMP_SECS;
use crate::sys::clamp_secs;
use crate::sys::now_secs;

verus! {

/// Seconds of slack before expiry at which a credential is refreshed
/// proactively: six hours.
pub const REFRESH_BUFFER_SECS: i64 = 21600;

/// Seconds a simulated refresh extends a credential's life by: one hour.
pub const REFRESH_EXTENSION_SECS: i64 = 3600;

/// A credential needs a refresh at time `now` exactly when it has an expiry
/// and `now` is within the six-hour buffer before it.
pub open spec fn spec_needs_refresh(expires_at: Option<i64>, now: int) -> bool {
    match expires_at {
        Some(at) => now + REFRESH_BUFFER_SECS > at,
        None => false,
    }
}

/// A credential is expired at time `now` exactly when it has an expiry in
/// the strict past.
pub open spec fn spec_is_expired(expires_at: Option<i64>, now: int) -> bool {
    match expires_at {
        Some(at) => now > at,
        None => false,
    }
}

/// The credential as a successful refresh at time `now` leaves it: the same
/// record with its expiry moved to one hour from `now`.
pub open spec fn spec_refreshed(c: StoredCredentialView, now: int) -> StoredCredentialView {
    StoredCredentialView { expires_at: Some((now + REFRESH_EXTENSION_SECS) as i64), ..c }
}

/// Whether `credential` should be refreshed at time `now`.
pub fn needs_refresh_at(credential: &StoredCredential, now: i64) -> (r: bool)
    requires
        now <= i64::MAX - REFRESH_BUFFER_SECS,
    ensures
        r == spec_needs_refresh(credential.expires_at, now as int),
{
    match credential.expires_at {
        Some(at) => now + REFRESH_BUFFER_SECS > at,
        None => false,
    }
}

/// Whether `credential` is already expired at time `now`.
pub fn is_expired_at(credential: &StoredCredential, now: i64) -> (r: bool)
    ensures
        r == spec_is_expired(credential.expires_at, now as int),
{
    match credential.expires_at {
        Some(at) => now > at,
        None => false,
    }
}

/// Refresh `credential` at time `now`. Returns `None` exactly when there is
/// no refresh token; otherwise the same credential with its expiry one hour
/// from `now`. (A production gateway would perform the upstream OAuth2
/// exchange here; the core simulates it by extending the expiry.)
pub fn refresh_token_at(credential: &StoredCredential, now: i64) -> (r: Option<StoredCredential>)
    requires
        now <= i64::MAX - REFRESH_EXTENSION_SECS,
    ensures
        r is None <==> credential.refresh_token is None,
        r matches Some(c) ==> c@ == spec_refreshed(credential@, now as int),
{
    if credential.refresh_token.is_none() {
        return None;
    }
    let mut refreshed = credential.clone();
    refreshed.expires_at = Some(now + REFRESH_EXTENSION_SECS);
    proof {
        assert(refreshed@ =~= spec_refreshed(credential@, now as int));
    }
    Some(refreshed)
}

/// Whether `credential` should be refreshed now, by the wall clock.
pub fn needs_refresh(credential: &StoredCredential) -> (r: bool)
    ensures
        credential.expires_at is None ==> r == false,
        exists |now: int| #![auto]
            0 <= now <= MAX_TIMESTAMP_SECS && r == spec_needs_refresh(
                credential.expires_at,
                now,
            ),
{
    let now = clamp_secs(now_secs());
    needs_refresh_at(credential, now)
}

/// Whether `credential` is already expired, by the wall clock.
pub fn is_expired(credential: &StoredCredential) -> (r: bool)
    ensures
        credential.expires_at is None ==> r == false,
        exists |now: int| #![auto]
            0 <= now <= MAX_TIMESTAMP_SECS && r == spec_is_expired(credential.expires_at, now),
{
    let now = clamp_secs(now_secs());
    is_expired_at(credential, now)
}

/// Refresh `credential` by the wall clock: `None` exactly when there is no
/// refresh token, otherwise the same credential with its expiry about one
/// hour out.
pub fn refresh_token(credential: &StoredCredential) -> (r: Option<StoredCredential>)
    ensures
        r is None <==> credential.refresh_token is None,
        r matches Some(c) ==> exists |now: int| #![auto]
            0 <= now <= MAX_TIMESTAMP_SECS && c@ == spec_refreshed(credential@, now),
{
    let now = clamp_secs(now_secs());
    refresh_token_at(credential, now)
}

} // verus!
