//! Refresh-predicate and simulated-refresh behavior.

use agent_gateway::credential::StoredCredential;
use agent_gateway::refresh::is_expired;
use agent_gateway::refresh::needs_refresh;
use agent_gateway::refresh::needs_refresh_at;
use agent_gateway::refresh::refresh_token;
use agent_gateway::vault::CredentialManager;

fn make_credential(hours_until_expiry: i64) -> StoredCredential {
    StoredCredential {
        service_id: "test".to_string(),
        access_token: "token".to_string(),
        refresh_token: Some("refresh".to_string()),
        expires_at: Some(chrono::Utc::now().timestamp() + hours_until_expiry * 3600),
        scopes: vec![],
    }
}

#[test]
fn test_needs_refresh_when_close_to_expiry() {
    // Expires in 5 hours (< 6 hour buffer)
    let cred = make_credential(5);
    assert!(needs_refresh(&cred));
}

#[test]
fn test_no_refresh_when_far_from_expiry() {
    // Expires in 24 hours (> 6 hour buffer)
    let cred = make_credential(24);
    assert!(!needs_refresh(&cred));
}

#[test]
fn test_is_expired() {
    // Already expired
    let cred = make_credential(-1);
    assert!(is_expired(&cred));
}

#[test]
fn test_refresh_extends_expiry() {
    // Timestamps are whole seconds, so refresh one second after issuance:
    // the new expiry lies strictly past the old one.
    let now = chrono::Utc::now().timestamp();
    let mut cred = make_credential(1);
    cred.expires_at = Some(now + 3600);
    let refreshed = agent_gateway::refresh::refresh_token_at(&cred, now + 1).unwrap();

    assert!(refreshed.expires_at.unwrap() > cred.expires_at.unwrap());
}

#[test]
fn test_token_needs_refresh_when_close_to_expiry() {
    // Credential expires in 5 hours (< 6 hour buffer)
    let credential = StoredCredential {
        service_id: "payment".to_string(),
        access_token: "token123".to_string(),
        refresh_token: Some("refresh123".to_string()),
        expires_at: Some(chrono::Utc::now().timestamp() + 5 * 3600),
        scopes: vec!["read".to_string()],
    };

    assert!(needs_refresh(&credential));
}

#[test]
fn test_token_no_refresh_when_far_from_expiry() {
    // Credential expires in 24 hours (> 6 hour buffer)
    let credential = StoredCredential {
        service_id: "payment".to_string(),
        access_token: "token123".to_string(),
        refresh_token: Some("refresh123".to_string()),
        expires_at: Some(chrono::Utc::now().timestamp() + 24 * 3600),
        scopes: vec!["read".to_string()],
    };

    assert!(!needs_refresh(&credential));
}

#[test]
fn test_refresh_predicate_exact_boundary() {
    // With an explicit clock: inside the buffer exactly when
    // now + 6h > expires_at; no expiry means no refresh.
    let mut cred = make_credential(0);
    cred.expires_at = Some(1_000_000);
    assert!(needs_refresh_at(&cred, 1_000_000 - 21_599));
    assert!(!needs_refresh_at(&cred, 1_000_000 - 21_600));
    cred.expires_at = None;
    assert!(!needs_refresh_at(&cred, 0));
}

#[test]
fn test_refresh_without_refresh_token() {
    let mut cred = make_credential(1);
    cred.refresh_token = None;
    assert!(refresh_token(&cred).is_none());
}

#[test]
fn test_refresh_within_buffer_persists() {
    // A credential expiring in five hours needs a refresh; after the
    // simulated refresh its expiry sits about one hour out, and the vault
    // snapshot reflects the new value.
    let key = "refresh-persist-test-key!!!!!!!!";
    let now = chrono::Utc::now().timestamp();
    let cred = make_credential(5);
    assert!(needs_refresh(&cred));

    let refreshed = refresh_token(&cred).unwrap();
    let new_expiry = refreshed.expires_at.unwrap();
    assert!(new_expiry >= now + 3600 - 5 && new_expiry <= now + 3600 + 5);

    let (mut vault, _) = CredentialManager::from_records(vec![], key).unwrap();
    let snapshot = vault.update(refreshed).unwrap();
    let (reopened, _) = CredentialManager::from_records(snapshot, key).unwrap();
    assert_eq!(reopened.get("test").unwrap().expires_at, Some(new_expiry));
}
