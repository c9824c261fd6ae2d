//! Registration and agent-creation flows against the in-memory stores.

use agent_gateway::agent_store::AgentStore;
use agent_gateway::errors::GatewayError;
use agent_gateway::handlers::create_agent_access;
use agent_gateway::handlers::register_user;
use agent_gateway::handlers::CreateAgentRequest;
use agent_gateway::handlers::RegisterRequest;
use agent_gateway::registry::EndpointConfig;
use agent_gateway::registry::RateLimitConfig;
use agent_gateway::registry::ServiceConfig;
use agent_gateway::registry::ServiceRegistry;
use agent_gateway::user_store::UserStore;

fn service(id: &str) -> ServiceConfig {
    ServiceConfig {
        id: id.to_string(),
        name: id.to_string(),
        description: format!("the {} service", id),
        base_url: format!("https://{}.example.test/api/", id),
        auth_type: "bearer".to_string(),
        endpoints: vec![EndpointConfig {
            path: "/".to_string(),
            methods: vec!["GET".to_string(), "POST".to_string()],
            required_scopes: vec![],
        }],
        rate_limit: RateLimitConfig { requests: 100, window_secs: 60 },
    }
}

fn test_registry() -> ServiceRegistry {
    ServiceRegistry::new(vec![service("payment"), service("bank")])
}

fn unique_email() -> String {
    format!("test-{}@example.com", uuid::Uuid::new_v4())
}

#[test]
fn test_user_registration() {
    let mut users = UserStore::new(vec![]);
    let email = unique_email();

    let resp = register_user(
        &mut users,
        RegisterRequest { username: "testuser".to_string(), email: email.clone() },
    )
    .unwrap();

    assert_eq!(resp.username, "testuser");
    assert_eq!(resp.email, email);
    assert!(users.get_user(resp.user_id).is_some());
}

#[test]
fn test_agent_access_creation() {
    let mut users = UserStore::new(vec![]);
    let mut agents = AgentStore::new(vec![], vec![]);
    let services = test_registry();
    let email = unique_email();

    // First register a user
    let user = register_user(
        &mut users,
        RegisterRequest { username: "agentowner".to_string(), email },
    )
    .unwrap();

    // Then create an agent for that user
    let resp = create_agent_access(
        &mut users,
        &mut agents,
        &services,
        CreateAgentRequest {
            user_id: user.user_id,
            agent_name: "Test Agent".to_string(),
            agent_description: "A test AI agent".to_string(),
            services: vec!["payment".to_string(), "bank".to_string()],
            lifespan_days: 30,
        },
        3600,
    )
    .unwrap();

    assert_eq!(resp.agent_name, "Test Agent");
    assert_eq!(resp.allowed_services, vec!["payment".to_string(), "bank".to_string()]);
    assert!(agents.get_agent(resp.agent_id).is_some());
    assert!(agents.get_session(&resp.session_id).is_some());
}

#[test]
fn test_agent_creation_invalid_user() {
    let mut users = UserStore::new(vec![]);
    let mut agents = AgentStore::new(vec![], vec![]);
    let services = test_registry();

    // 00000000-0000-0000-0000-000000000000
    let ghost_user = uuid::Uuid::nil().as_u128();

    let result = create_agent_access(
        &mut users,
        &mut agents,
        &services,
        CreateAgentRequest {
            user_id: ghost_user,
            agent_name: "Ghost Agent".to_string(),
            agent_description: "Should fail".to_string(),
            services: vec!["payment".to_string()],
            lifespan_days: 30,
        },
        3600,
    );

    let err = result.unwrap_err();
    assert!(matches!(err, GatewayError::NotFound(_)));
    assert_eq!(err.status_code(), 404);
    assert_eq!(err.kind(), "not_found");
}

#[test]
fn test_registration_and_agent_creation_end_to_end() {
    // Registration returns a user id; agent creation for that user returns
    // the granted services, the lifespan, and the session lifetime.
    let mut users = UserStore::new(vec![]);
    let mut agents = AgentStore::new(vec![], vec![]);
    let services = test_registry();

    let user = register_user(
        &mut users,
        RegisterRequest { username: "alice".to_string(), email: "a@x.test".to_string() },
    )
    .unwrap();

    let resp = create_agent_access(
        &mut users,
        &mut agents,
        &services,
        CreateAgentRequest {
            user_id: user.user_id,
            agent_name: "A".to_string(),
            agent_description: "".to_string(),
            services: vec!["payment".to_string()],
            lifespan_days: 7,
        },
        3600,
    )
    .unwrap();

    assert_eq!(resp.allowed_services, vec!["payment".to_string()]);
    assert_eq!(resp.lifespan_days, 7);
    assert_eq!(resp.expires_in_secs, 3600);
}

#[test]
fn test_duplicate_email() {
    // A second registration with the same email is a 400 bad_request.
    let mut users = UserStore::new(vec![]);

    register_user(
        &mut users,
        RegisterRequest { username: "first".to_string(), email: "dup@x.test".to_string() },
    )
    .unwrap();

    let err = register_user(
        &mut users,
        RegisterRequest { username: "second".to_string(), email: "dup@x.test".to_string() },
    )
    .unwrap_err();

    assert!(matches!(err, GatewayError::BadRequest(_)));
    assert_eq!(err.status_code(), 400);
    assert_eq!(err.kind(), "bad_request");
    assert_eq!(err.message(), "Email already registered");
}

#[test]
fn test_registration_rejects_bad_input() {
    let mut users = UserStore::new(vec![]);

    let err = register_user(
        &mut users,
        RegisterRequest { username: "   ".to_string(), email: "a@x.test".to_string() },
    )
    .unwrap_err();
    assert_eq!(err.message(), "Username cannot be empty");

    let err = register_user(
        &mut users,
        RegisterRequest { username: "bob".to_string(), email: "not-an-email".to_string() },
    )
    .unwrap_err();
    assert_eq!(err.message(), "Invalid email");
}

#[test]
fn test_agent_creation_unknown_service() {
    let mut users = UserStore::new(vec![]);
    let mut agents = AgentStore::new(vec![], vec![]);
    let services = test_registry();

    let user = register_user(
        &mut users,
        RegisterRequest { username: "carol".to_string(), email: "c@x.test".to_string() },
    )
    .unwrap();

    let err = create_agent_access(
        &mut users,
        &mut agents,
        &services,
        CreateAgentRequest {
            user_id: user.user_id,
            agent_name: "A".to_string(),
            agent_description: "".to_string(),
            services: vec!["payment".to_string(), "nonesuch".to_string()],
            lifespan_days: 7,
        },
        3600,
    )
    .unwrap_err();
    assert_eq!(err.message(), "Service 'nonesuch' does not exist");

    let err = create_agent_access(
        &mut users,
        &mut agents,
        &services,
        CreateAgentRequest {
            user_id: user.user_id,
            agent_name: "A".to_string(),
            agent_description: "".to_string(),
            services: vec![],
            lifespan_days: 7,
        },
        3600,
    )
    .unwrap_err();
    assert_eq!(err.message(), "At least one valid service must be specified");
}
