//! Model-level behavior: agent entitlements and rotation, the error
//! envelope, the settings address, and registry lookups.

use agent_gateway::agent::Agent;
use agent_gateway::agent::AgentSession;
use agent_gateway::errors::GatewayError;
use agent_gateway::registry::EndpointConfig;
use agent_gateway::registry::RateLimitConfig;
use agent_gateway::registry::ServiceConfig;
use agent_gateway::registry::ServiceRegistry;
use agent_gateway::settings::Settings;

#[test]
fn test_agent_entitlement_iff() {
    let mut agent = Agent::new("a".to_string(), "".to_string());
    assert!(!agent.can_access_service("payment"));
    agent.add_service("payment".to_string());
    assert!(agent.can_access_service("payment"));
    assert!(!agent.can_access_service("bank"));

    // Granting again changes nothing.
    let before = agent.allowed_services.clone();
    agent.add_service("payment".to_string());
    assert_eq!(agent.allowed_services, before);

    // Removing returns true exactly when it removed an entry.
    assert!(agent.remove_service("payment"));
    assert!(!agent.can_access_service("payment"));
    assert!(!agent.remove_service("payment"));
}

#[test]
fn test_agent_rotation_model() {
    let mut agent = Agent::with_lifespan("r".to_string(), "".to_string(), 10);
    let old_id = agent.id;
    let created = agent.created_at;

    let new_id = agent.rotate();
    assert_eq!(agent.id, new_id);
    assert_ne!(new_id, old_id);
    assert_eq!(agent.lifespan_days, 10);
    assert_eq!(agent.created_at, created);
    let now = chrono::Utc::now().timestamp();
    assert!((agent.expires_at - (now + 10 * 86400)).abs() <= 5);
}

#[test]
fn test_agent_expiry_at() {
    let agent = Agent::with_lifespan("e".to_string(), "".to_string(), 1);
    assert!(!agent.is_expired());
    assert!(agent.is_expired_at(agent.expires_at + 1));
    assert!(!agent.is_expired_at(agent.expires_at));
}

#[test]
fn test_session_expiry_at() {
    let session = AgentSession {
        session_id: "s".to_string(),
        agent_id: 7,
        created_at: 1000,
        expires_at: 2000,
        last_used_at: 1000,
    };
    assert!(!session.is_expired_at(2000));
    assert!(session.is_expired_at(2001));
}

#[test]
fn test_error_envelope_mapping() {
    let cases: Vec<(GatewayError, u16, &str)> = vec![
        (GatewayError::Unauthorized("m".to_string()), 401, "unauthorized"),
        (GatewayError::SessionExpired, 401, "session_expired"),
        (GatewayError::TokenError("m".to_string()), 401, "token_error"),
        (GatewayError::Forbidden("m".to_string()), 403, "forbidden"),
        (GatewayError::ServiceNotAllowed("svc".to_string()), 403, "service_not_allowed"),
        (GatewayError::RateLimitExceeded, 429, "rate_limit_exceeded"),
        (GatewayError::BadRequest("m".to_string()), 400, "bad_request"),
        (GatewayError::ReplayDetected, 400, "replay_detected"),
        (GatewayError::UpstreamError("m".to_string()), 502, "upstream_error"),
        (GatewayError::CredentialNotFound("svc".to_string()), 404, "credential_not_found"),
        (GatewayError::TokenRefreshFailed("m".to_string()), 500, "token_refresh_failed"),
        (GatewayError::Internal("m".to_string()), 500, "internal_error"),
        (GatewayError::NotFound("m".to_string()), 404, "not_found"),
    ];
    for (err, status, kind) in cases {
        assert_eq!(err.status_code(), status);
        assert_eq!(err.kind(), kind);
    }
    assert_eq!(
        GatewayError::ServiceNotAllowed("bank".to_string()).message(),
        "Access to bank not permitted"
    );
    assert_eq!(GatewayError::SessionExpired.message(), "Session has expired");
}

#[test]
fn test_settings_addr() {
    let settings = Settings {
        host: "0.0.0.0".to_string(),
        port: 3000,
        encryption_key: "k".to_string(),
        session_secret: "s".to_string(),
        session_ttl_secs: 3600,
        token_refresh_buffer_secs: 300,
        services_config_path: "config/services.json".to_string(),
        credentials_path: "data/credentials.json".to_string(),
    };
    assert_eq!(settings.addr(), "0.0.0.0:3000");
}

#[test]
fn test_registry_lookups() {
    let registry = ServiceRegistry::new(vec![ServiceConfig {
        id: "payment".to_string(),
        name: "Payment".to_string(),
        description: "d".to_string(),
        base_url: "https://p.example.test".to_string(),
        auth_type: "bearer".to_string(),
        endpoints: vec![EndpointConfig {
            path: "/".to_string(),
            methods: vec!["GET".to_string()],
            required_scopes: vec![],
        }],
        rate_limit: RateLimitConfig { requests: 9, window_secs: 60 },
    }]);

    assert!(registry.contains("payment"));
    assert!(!registry.contains("bank"));
    assert_eq!(registry.get("payment").unwrap().name, "Payment");
    assert!(registry.get("bank").is_none());
    assert_eq!(registry.list().len(), 1);
}

#[test]
fn test_hop_by_hop_headers() {
    for name in [
        "connection",
        "keep-alive",
        "proxy-authenticate",
        "proxy-authorization",
        "te",
        "trailers",
        "transfer-encoding",
        "upgrade",
    ] {
        assert!(agent_gateway::pipeline::is_hop_by_hop(name));
    }
    assert!(!agent_gateway::pipeline::is_hop_by_hop("content-type"));
    assert!(!agent_gateway::pipeline::is_hop_by_hop("host"));
}

#[test]
fn test_url_building() {
    assert_eq!(
        agent_gateway::pipeline::build_url("https://x.test/api///", "v1/pay"),
        "https://x.test/api/v1/pay"
    );
    assert_eq!(agent_gateway::pipeline::build_url("https://x.test", "p"), "https://x.test/p");
}
