//! Vault loading, migration and persistence round trips.

use agent_gateway::cipher::encrypt;
use agent_gateway::credential::EncryptedCredential;
use agent_gateway::credential::StoredCredential;
use agent_gateway::vault::CredentialManager;

// 2025-12-31T23:59:59Z as seconds since the Unix epoch.
const END_OF_2025: i64 = 1767225599;

#[test]
fn credentials_test_encrypt_decrypt_roundtrip() {
    let key = "test-encryption-key-32-chars!!!";

    // A plaintext record, as an unmigrated store would hold it.
    let records = vec![EncryptedCredential {
        service_id: "test-service".to_string(),
        access_token: "secret_token_123".to_string(),
        refresh_token: Some("refresh_456".to_string()),
        expires_at: Some(END_OF_2025),
        scopes: vec!["read".to_string(), "write".to_string()],
        encrypted: false,
    }];

    // Load (flags the store for migration).
    let (manager, needs_migration) = CredentialManager::from_records(records, key).unwrap();
    assert!(needs_migration);

    // The in-memory credential is plaintext.
    let stored = manager.get("test-service").unwrap();
    assert_eq!(stored.access_token, "secret_token_123");
    assert_eq!(stored.refresh_token, Some("refresh_456".to_string()));

    // The migrated records are all encrypted, and no token appears literally.
    let migrated = manager.export_encrypted().unwrap();
    assert_eq!(migrated.len(), 1);
    assert!(migrated[0].encrypted);
    assert!(!migrated[0].access_token.contains("secret_token_123"));
    assert!(!migrated[0].refresh_token.as_ref().unwrap().contains("refresh_456"));

    // Loading the migrated records back yields the same credential.
    let (reloaded, needs_migration_again) = CredentialManager::from_records(migrated, key).unwrap();
    assert!(!needs_migration_again);
    let back = reloaded.get("test-service").unwrap();
    assert_eq!(back.access_token, "secret_token_123");
    assert_eq!(back.refresh_token, Some("refresh_456".to_string()));
    assert_eq!(back.expires_at, Some(END_OF_2025));
    assert_eq!(back.scopes, vec!["read".to_string(), "write".to_string()]);
}

#[test]
fn test_load_encrypted_credentials() {
    let key = "test-encryption-key-32-chars!!!";

    // Pre-encrypt tokens.
    let enc_access = encrypt("my_secret_token", key).unwrap();
    let enc_refresh = encrypt("my_refresh_token", key).unwrap();

    let records = vec![EncryptedCredential {
        service_id: "encrypted-service".to_string(),
        access_token: enc_access,
        refresh_token: Some(enc_refresh),
        expires_at: Some(END_OF_2025),
        scopes: vec![],
        encrypted: true,
    }];

    let (manager, needs_migration) = CredentialManager::from_records(records, key).unwrap();
    assert!(!needs_migration);

    let stored = manager.get("encrypted-service").unwrap();
    assert_eq!(stored.access_token, "my_secret_token");
    assert_eq!(stored.refresh_token, Some("my_refresh_token".to_string()));
}

#[test]
fn test_load_with_wrong_key_fails() {
    let key = "the-right-encryption-key!!!!!!!!";
    let other = "not-the-right-encryption-key!!!!";

    let enc_access = encrypt("token", key).unwrap();
    let records = vec![EncryptedCredential {
        service_id: "svc".to_string(),
        access_token: enc_access,
        refresh_token: None,
        expires_at: None,
        scopes: vec![],
        encrypted: true,
    }];
    assert!(CredentialManager::from_records(records, other).is_err());
}

#[test]
fn test_credential_persistence_roundtrip() {
    // After update, reopening the vault with the same key yields the
    // updated credential.
    let key = "persistence-test-key!!!!!!!!!!!!";
    let (mut manager, _) = CredentialManager::from_records(vec![], key).unwrap();

    let cred = StoredCredential {
        service_id: "payment".to_string(),
        access_token: "tok_abc".to_string(),
        refresh_token: Some("ref_xyz".to_string()),
        expires_at: Some(END_OF_2025),
        scopes: vec!["charge".to_string()],
    };
    let snapshot = manager.update(cred).unwrap();
    assert_eq!(snapshot.len(), 1);
    assert!(snapshot[0].encrypted);

    let (reopened, _) = CredentialManager::from_records(snapshot, key).unwrap();
    let got = reopened.get("payment").unwrap();
    assert_eq!(got.access_token, "tok_abc");
    assert_eq!(got.refresh_token, Some("ref_xyz".to_string()));
    assert_eq!(got.expires_at, Some(END_OF_2025));
    assert_eq!(got.scopes, vec!["charge".to_string()]);
}

#[test]
fn test_update_replaces_and_isolates() {
    let key = "update-isolation-test-key!!!!!!!";
    let (mut manager, _) = CredentialManager::from_records(vec![], key).unwrap();

    let a = StoredCredential {
        service_id: "a".to_string(),
        access_token: "a1".to_string(),
        refresh_token: None,
        expires_at: None,
        scopes: vec![],
    };
    let b = StoredCredential {
        service_id: "b".to_string(),
        access_token: "b1".to_string(),
        refresh_token: None,
        expires_at: None,
        scopes: vec![],
    };
    manager.update(a).unwrap();
    manager.update(b).unwrap();

    // Replacing a leaves b as it was.
    let a2 = StoredCredential {
        service_id: "a".to_string(),
        access_token: "a2".to_string(),
        refresh_token: None,
        expires_at: None,
        scopes: vec![],
    };
    manager.update(a2).unwrap();
    assert_eq!(manager.get("a").unwrap().access_token, "a2");
    assert_eq!(manager.get("b").unwrap().access_token, "b1");
    assert!(manager.get("c").is_none());
}

#[test]
fn test_vault_needs_refresh_buffer() {
    let key = "vault-refresh-test-key!!!!!!!!!!";
    let now = chrono::Utc::now().timestamp();
    let (mut manager, _) = CredentialManager::from_records(vec![], key).unwrap();
    manager
        .update(StoredCredential {
            service_id: "soon".to_string(),
            access_token: "t".to_string(),
            refresh_token: None,
            expires_at: Some(now + 100),
            scopes: vec![],
        })
        .unwrap();

    assert!(manager.needs_refresh("soon", 300));
    assert!(!manager.needs_refresh("soon", 0));
    assert!(!manager.needs_refresh("absent", 300));
}
