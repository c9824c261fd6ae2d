//! The lifecycle operations behind the administrative routes: registration,
//! agent creation, key rotation, and entitlement grants and revocations.
//! Each operates on the in-memory stores; the boundary layer persists a
//! snapshot after each mutation and serializes the responses.

use vstd::prelude::*;

use crate::agent::Agent;
use crate::agent::RateLimit;
use crate::agent::SECS_PER_DAY;
use crate::agent::spec_grant;
use crate::agent::spec_revoke;
use crate::agent_store::AgentStore;
use crate::errors::GatewayError;
use crate::lookup::spec_keyed_find;
use crate::registry::ServiceRegistry;
use crate::registry::spec_registry_find;
use crate::strutil::clone_strings;
use crate::strutil::concat3;
use crate::strutil::contains_char;
use crate::strutil::is_blank;
use crate::strutil::spec_is_blank;
use crate::sys::MAX_TIMESTAMP_SECS;
use crate::sys::clamp_secs;
use crate::sys::now_secs;
use crate::sys::spec_clock_reading;
use crate::user::User;
use crate::user::spec_link_agent;
use crate::user_store::UserStore;

verus! {

/// The lifespan an agent gets when the request names none: 30 days.
pub fn default_lifespan() -> (r: u32)
    ensures
        r == 30,
{
    30
}

/// A registration request: the user's name and unique email.
#[derive(Debug)]
pub struct RegisterRequest {
    /// The requested username.
    pub username: String,
    /// The email to register, unique across users.
    pub email: String,
}

/// What a successful registration returns.
#[derive(Debug)]
pub struct RegisterResponse {
    /// The new user's id.
    pub user_id: u128,
    /// The registered username.
    pub username: String,
    /// The registered email.
    pub email: String,
    /// A human-readable confirmation.
    pub message: String,
}

/// A request to create an agent for a user.
#[derive(Debug)]
pub struct CreateAgentRequest {
    /// The owning user's id.
    pub user_id: u128,
    /// The agent's name.
    pub agent_name: String,
    /// The agent's description.
    pub agent_description: String,
    /// The services the agent is entitled to; each must be registered.
    pub services: Vec<String>,
    /// The access key's lifespan in days.
    pub lifespan_days: u32,
}

/// What a successful agent creation returns.
#[derive(Debug)]
pub struct CreateAgentResponse {
    /// The new agent's id (its access key).
    pub agent_id: u128,
    /// The session issued for it.
    pub session_id: String,
    /// The agent's name.
    pub agent_name: String,
    /// The entitlements granted.
    pub allowed_services: Vec<String>,
    /// The session's lifetime in seconds.
    pub expires_in_secs: u64,
    /// When the access key expires, as seconds since the Unix epoch.
    pub key_expires_at: i64,
    /// The access key's lifespan in days.
    pub lifespan_days: u32,
}

/// A described agent, with its expiry status.
#[derive(Debug)]
pub struct AgentInfoResponse {
    /// The agent's id.
    pub agent_id: u128,
    /// Its name.
    pub name: String,
    /// Its description.
    pub description: String,
    /// Its entitlements.
    pub allowed_services: Vec<String>,
    /// Its rate-limit setting.
    pub rate_limit: RateLimit,
    /// When its key expires, as seconds since the Unix epoch.
    pub expires_at: i64,
    /// Its key lifespan in days.
    pub lifespan_days: u32,
    /// Whole days until the key expires.
    pub days_until_expiry: i64,
    /// Whether the key has expired.
    pub is_expired: bool,
    /// When the agent was created.
    pub created_at: i64,
    /// When the agent last changed.
    pub updated_at: i64,
}

/// A request to grant one service to an agent.
#[derive(Debug)]
pub struct GrantServiceRequest {
    /// The service to grant.
    pub service_id: String,
}

/// What a grant or revocation returns.
#[derive(Debug)]
pub struct GrantServiceResponse {
    /// The agent changed.
    pub agent_id: u128,
    /// The service granted or revoked.
    pub service_id: String,
    /// The agent's entitlements after the change.
    pub allowed_services: Vec<String>,
    /// A human-readable confirmation.
    pub message: String,
}

/// What a key rotation returns.
#[derive(Debug)]
pub struct RotateKeyResponse {
    /// The agent's new id (its new access key).
    pub agent_id: u128,
    /// The session issued for the new key.
    pub new_session_id: String,
    /// When the new key expires, as seconds since the Unix epoch.
    pub expires_at: i64,
    /// A human-readable confirmation.
    pub message: String,
}

/// One service, as listed to callers.
#[derive(Debug)]
pub struct ServiceInfo {
    /// The service's id.
    pub id: String,
    /// Its display name.
    pub name: String,
    /// Its description.
    pub description: String,
}

/// The catalog of services, as listed to callers.
#[derive(Debug)]
pub struct AvailableServicesResponse {
    /// Every registered service.
    pub services: Vec<ServiceInfo>,
}

/// Register a new user. Rejects a blank username, an email without `@`, and
/// (through the store) a duplicate email; otherwise stores the user and
/// returns its id.
pub fn register_user(users: &mut UserStore, req: RegisterRequest) -> (r: Result<
    RegisterResponse,
    GatewayError,
>)
    requires
        old(users).wf(),
    ensures
        final(users).wf(),
        spec_is_blank(req.username@) ==> (r matches Err(e) && e matches GatewayError::BadRequest(
            m,
        ) && m@ == "Username cannot be empty"@ && final(users)@ == old(users)@),
        !spec_is_blank(req.username@) && !req.email@.contains('@') ==> (r matches Err(e) && e
            matches GatewayError::BadRequest(m) && m@ == "Invalid email"@ && final(users)@ == old(
            users,
        )@),
        (!spec_is_blank(req.username@) && req.email@.contains('@') && spec_keyed_find(
            old(users)@.email_index,
            req.email@,
        ) is Some) ==> (r matches Err(e) && e matches GatewayError::BadRequest(m) && m@
            == "Email already registered"@ && final(users)@ == old(users)@),
        (!spec_is_blank(req.username@) && req.email@.contains('@') && spec_keyed_find(
            old(users)@.email_index,
            req.email@,
        ) is None) ==> (r matches Ok(resp) && {
            &&& resp.username@ == req.username@
            &&& resp.email@ == req.email@
            &&& resp.message@
                == "Registration successful. Use your user_id to create agent access."@
            &&& spec_keyed_find(final(users)@.users, resp.user_id) matches Some(u) && u.username
                == req.username@ && u.email == req.email@ && u.agents.len() == 0
            &&& spec_keyed_find(final(users)@.email_index, req.email@) matches Some(e)
                && e.user_id == resp.user_id
        }),
        r is Ok <==> (!spec_is_blank(req.username@) && req.email@.contains('@')
            && spec_keyed_find(old(users)@.email_index, req.email@) is None),
{
    if is_blank(req.username.as_str()) {
        return Err(GatewayError::BadRequest(String::from_str("Username cannot be empty")));
    }
    if !contains_char(req.email.as_str(), '@') {
        return Err(GatewayError::BadRequest(String::from_str("Invalid email")));
    }
    let user = User::new(req.username.clone(), req.email.clone());
    let user = match users.create_user(user) {
        Ok(u) => u,
        Err(e) => {
            return Err(e);
        },
    };
    Ok(RegisterResponse {
        user_id: user.id,
        username: user.username,
        email: user.email,
        message: String::from_str(
            "Registration successful. Use your user_id to create agent access.",
        ),
    })
}

/// The first requested service that is not registered, or -1 when all are.
pub open spec fn spec_first_unknown(reg: Seq<ServiceConfigView>, svs: Seq<Seq<char>>) -> int
    decreases svs.len(),
{
    if svs.len() == 0 {
        -1
    } else if spec_registry_find(reg, svs[0]) is None {
        0
    } else if spec_first_unknown(reg, svs.drop_first()) == -1 {
        -1
    } else {
        spec_first_unknown(reg, svs.drop_first()) + 1
    }
}

use crate::registry::ServiceConfigView;

/// Create an agent for an existing user, entitled to the named services,
/// and issue its first session. Rejects an unknown user, any unregistered
/// service (naming the first), and an empty service list.
pub fn create_agent_access(
    users: &mut UserStore,
    agents: &mut AgentStore,
    services: &ServiceRegistry,
    req: CreateAgentRequest,
    session_ttl_secs: u64,
) -> (r: Result<CreateAgentResponse, GatewayError>)
    requires
        old(users).wf(),
        old(agents).wf(),
        session_ttl_secs <= i64::MAX - MAX_TIMESTAMP_SECS,
    ensures
        final(users).wf(),
        final(agents).wf(),
        ({
            let svs = req.services.deep_view();
            let unknown = spec_first_unknown(services@.services, svs);
            &&& (spec_keyed_find(old(users)@.users, req.user_id) is None ==> (r matches Err(e)
                && e matches GatewayError::NotFound(m) && m@ == "User not found"@))
            &&& ((spec_keyed_find(old(users)@.users, req.user_id) is Some && unknown != -1) ==> (
            r matches Err(e) && e matches GatewayError::BadRequest(m) && m@ == "Service '"@
                + svs[unknown] + "' does not exist"@))
            &&& ((spec_keyed_find(old(users)@.users, req.user_id) is Some && unknown == -1
                && svs.len() == 0) ==> (r matches Err(e) && e matches GatewayError::BadRequest(m)
                && m@ == "At least one valid service must be specified"@))
            &&& (r is Ok <==> (spec_keyed_find(old(users)@.users, req.user_id) is Some && unknown
                == -1 && svs.len() > 0))
            &&& (r is Err ==> final(users)@ == old(users)@ && final(agents)@ == old(agents)@)
            &&& (r matches Ok(resp) ==> {
                &&& resp.agent_name@ == req.agent_name@
                &&& resp.allowed_services.deep_view() == svs
                &&& resp.expires_in_secs == session_ttl_secs
                &&& resp.lifespan_days == req.lifespan_days
                &&& spec_keyed_find(final(agents)@.agents, resp.agent_id) matches Some(a) && {
                    &&& a.name == req.agent_name@
                    &&& a.description == req.agent_description@
                    &&& a.allowed_services == svs
                    &&& a.lifespan_days == req.lifespan_days
                    &&& a.expires_at == resp.key_expires_at
                    &&& exists |now: int| #![trigger spec_clock_reading(now)]
                        spec_clock_reading(now) && a.expires_at == now + req.lifespan_days
                            * SECS_PER_DAY
                }
                &&& spec_keyed_find(final(agents)@.sessions, resp.session_id@) matches Some(s)
                    && s.agent_id == resp.agent_id && s.expires_at == s.created_at
                    + session_ttl_secs
                &&& spec_keyed_find(final(users)@.users, req.user_id) matches Some(u) && u.agents
                    == spec_link_agent(
                    spec_keyed_find(old(users)@.users, req.user_id)->Some_0.agents,
                    resp.agent_id,
                )
            })
        }),
{
    let mut user = match users.get_user(req.user_id) {
        Some(u) => u,
        None => {
            return Err(GatewayError::NotFound(String::from_str("User not found")));
        },
    };

    // Every requested service must be registered.
    let ghost svs = req.services.deep_view();
    let n = req.services.len();
    let mut i: usize = 0;
    while i < n
        invariant
            i <= n,
            n == svs.len(),
            req.services.deep_view() == svs,
            users.wf(),
            agents.wf(),
            users@ == old(users)@,
            agents@ == old(agents)@,
            spec_keyed_find(old(users)@.users, req.user_id) is Some,
            forall |j: int| #![auto]
                0 <= j < i ==> spec_registry_find(services@.services, svs[j]) is Some,
        decreases n - i,
    {
        if !services.contains(req.services[i].as_str()) {
            proof {
                lemma_first_unknown_at(services@.services, svs, i as int);
            }
            return Err(GatewayError::BadRequest(concat3(
                "Service '",
                req.services[i].as_str(),
                "' does not exist",
            )));
        }
        i = i + 1;
    }
    proof {
        lemma_first_unknown_none(services@.services, svs);
    }
    if req.services.len() == 0 {
        return Err(GatewayError::BadRequest(String::from_str(
            "At least one valid service must be specified",
        )));
    }

    // Create the agent with its entitlements and store it.
    let mut agent = Agent::with_lifespan(
        req.agent_name.clone(),
        req.agent_description.clone(),
        req.lifespan_days,
    );
    agent.allowed_services = clone_strings(&req.services);
    proof {
        assert(agent@.allowed_services =~= svs);
        assert(spec_clock_reading(agent@.created_at as int));
        crate::lookup::lemma_key_index(old(users)@.users, req.user_id);
    }
    let agent = agents.create_agent(agent);

    // Link it to its owner.
    user.add_agent(agent.id);
    users.update_user(user);

    // Issue the first session.
    let session = agents.create_session(agent.id, session_ttl_secs);

    Ok(CreateAgentResponse {
        agent_id: agent.id,
        session_id: session.session_id,
        agent_name: agent.name,
        allowed_services: agent.allowed_services,
        expires_in_secs: session_ttl_secs,
        key_expires_at: agent.expires_at,
        lifespan_days: agent.lifespan_days,
    })
}

/// What `spec_first_unknown` returns: -1 exactly when every requested
/// service is registered; otherwise the least index of an unregistered one.
proof fn lemma_first_unknown_step(reg: Seq<ServiceConfigView>, svs: Seq<Seq<char>>)
    ensures
        spec_first_unknown(reg, svs) != -1 ==> 0 <= spec_first_unknown(reg, svs) < svs.len()
            && spec_registry_find(reg, svs[spec_first_unknown(reg, svs)]) is None && forall |
            j: int,
        | #![auto] 0 <= j < spec_first_unknown(reg, svs) ==> spec_registry_find(reg, svs[j])
            is Some,
        spec_first_unknown(reg, svs) == -1 ==> forall |j: int| #![auto]
            0 <= j < svs.len() ==> spec_registry_find(reg, svs[j]) is Some,
    decreases svs.len(),
{
    if svs.len() > 0 {
        let rest = svs.drop_first();
        lemma_first_unknown_step(reg, rest);
        assert(forall |j: int| 0 <= j < rest.len() ==> rest[j] == svs[j + 1]);
        let m = spec_first_unknown(reg, svs);
        if spec_registry_find(reg, svs[0]) is Some && spec_first_unknown(reg, rest) == -1 {
            assert forall |j: int| #![auto] 0 <= j < svs.len() implies spec_registry_find(
                reg,
                svs[j],
            ) is Some by {
                if j > 0 {
                    assert(rest[j - 1] == svs[j]);
                }
            }
        }
        if spec_registry_find(reg, svs[0]) is Some && spec_first_unknown(reg, rest) != -1 {
            assert(svs[m] == rest[m - 1]);
            assert forall |j: int| #![auto] 0 <= j < m implies spec_registry_find(
                reg,
                svs[j],
            ) is Some by {
                if j > 0 {
                    assert(rest[j - 1] == svs[j]);
                }
            }
        }
    }
}

/// If everything before `i` is registered and `svs[i]` is not, the first
/// unknown is `i`.
proof fn lemma_first_unknown_at(reg: Seq<ServiceConfigView>, svs: Seq<Seq<char>>, i: int)
    requires
        0 <= i < svs.len(),
        forall |j: int| #![auto] 0 <= j < i ==> spec_registry_find(reg, svs[j]) is Some,
        spec_registry_find(reg, svs[i]) is None,
    ensures
        spec_first_unknown(reg, svs) == i,
{
    lemma_first_unknown_step(reg, svs);
    let m = spec_first_unknown(reg, svs);
    if m == -1 || m > i {
        assert(spec_registry_find(reg, svs[i]) is Some);
    } else if m < i {
        assert(spec_registry_find(reg, svs[m]) is Some);
    }
}

/// If every service is registered, there is no first unknown.
proof fn lemma_first_unknown_none(reg: Seq<ServiceConfigView>, svs: Seq<Seq<char>>)
    requires
        forall |j: int| #![auto] 0 <= j < svs.len() ==> spec_registry_find(reg, svs[j]) is Some,
    ensures
        spec_first_unknown(reg, svs) == -1,
{
    lemma_first_unknown_step(reg, svs);
    if spec_first_unknown(reg, svs) != -1 {
        assert(spec_registry_find(reg, svs[spec_first_unknown(reg, svs)]) is Some);
    }
}

/// Describe an agent, with its expiry status at the present moment.
pub fn get_agent_info(agents: &AgentStore, agent_id: u128) -> (r: Result<
    AgentInfoResponse,
    GatewayError,
>)
    ensures
        r is Ok <==> spec_keyed_find(agents@.agents, agent_id) is Some,
        spec_keyed_find(agents@.agents, agent_id) is None <==> (r matches Err(e) && e matches
            GatewayError::NotFound(m) && m@ == "Agent not found"@),
        r matches Ok(resp) ==> (spec_keyed_find(agents@.agents, agent_id) matches Some(a) && {
            &&& resp.agent_id == a.id
            &&& resp.name@ == a.name
            &&& resp.description@ == a.description
            &&& resp.allowed_services.deep_view() == a.allowed_services
            &&& resp.rate_limit == a.rate_limit
            &&& resp.expires_at == a.expires_at
            &&& resp.lifespan_days == a.lifespan_days
            &&& resp.created_at == a.created_at
            &&& resp.updated_at == a.updated_at
            &&& exists |now: int| #![trigger spec_clock_reading(now)]
                spec_clock_reading(now) && resp.is_expired == (now > a.expires_at)
        }),
{
    let agent = match agents.get_agent(agent_id) {
        Some(a) => a,
        None => {
            return Err(GatewayError::NotFound(String::from_str("Agent not found")));
        },
    };
    let now = clamp_secs(now_secs());
    let expires_clamped = clamp_secs(agent.expires_at);
    let days = (expires_clamped - now) / SECS_PER_DAY;
    let expired = agent.is_expired_at(now);
    proof {
        assert(spec_clock_reading(now as int));
    }
    Ok(AgentInfoResponse {
        agent_id: agent.id,
        name: agent.name,
        description: agent.description,
        allowed_services: agent.allowed_services,
        rate_limit: agent.rate_limit,
        expires_at: agent.expires_at,
        lifespan_days: agent.lifespan_days,
        days_until_expiry: days,
        is_expired: expired,
        created_at: agent.created_at,
        updated_at: agent.updated_at,
    })
}

/// Rotate an agent's access key: a fresh id replaces the old one in the
/// store, the expiry restarts at the full lifespan, and a session for the
/// new key is issued. Sessions bound to the old id stop validating.
pub fn rotate_agent_key(agents: &mut AgentStore, agent_id: u128, session_ttl_secs: u64) -> (r:
    Result<RotateKeyResponse, GatewayError>)
    requires
        old(agents).wf(),
        session_ttl_secs <= i64::MAX - MAX_TIMESTAMP_SECS,
    ensures
        final(agents).wf(),
        r is Ok <==> spec_keyed_find(old(agents)@.agents, agent_id) is Some,
        spec_keyed_find(old(agents)@.agents, agent_id) is None <==> (r matches Err(e) && e
            matches GatewayError::NotFound(m) && m@ == "Agent not found"@),
        r is Err ==> final(agents)@ == old(agents)@,
        r matches Ok(resp) ==> (spec_keyed_find(old(agents)@.agents, agent_id) matches Some(
            old_agent,
        ) && {
            &&& spec_keyed_find(final(agents)@.agents, resp.agent_id) matches Some(a) && {
                &&& a.name == old_agent.name
                &&& a.description == old_agent.description
                &&& a.allowed_services == old_agent.allowed_services
                &&& a.lifespan_days == old_agent.lifespan_days
                &&& a.created_at == old_agent.created_at
                &&& a.expires_at == resp.expires_at
                &&& exists |now: int| #![trigger spec_clock_reading(now)]
                    spec_clock_reading(now) && a.expires_at == now + old_agent.lifespan_days
                        * SECS_PER_DAY
            }
            &&& (agent_id != resp.agent_id ==> spec_keyed_find(
                final(agents)@.agents,
                agent_id,
            ) is None)
            &&& spec_keyed_find(final(agents)@.sessions, resp.new_session_id@) matches Some(s)
                && s.agent_id == resp.agent_id
            &&& resp.message@ == "Access key rotated successfully. Use new session_id for requests."@
        }),
{
    let mut agent = match agents.get_agent(agent_id) {
        Some(a) => a,
        None => {
            return Err(GatewayError::NotFound(String::from_str("Agent not found")));
        },
    };
    let new_id = agent.rotate();
    agents.replace_agent(agent_id, agent);
    let session = agents.create_session(new_id, session_ttl_secs);
    let expires_at = match agents.get_agent(new_id) {
        Some(a) => a.expires_at,
        None => 0,
    };
    Ok(RotateKeyResponse {
        agent_id: new_id,
        new_session_id: session.session_id,
        expires_at,
        message: String::from_str(
            "Access key rotated successfully. Use new session_id for requests.",
        ),
    })
}

/// Grant a registered service to an agent. Rejects an unregistered service,
/// an unknown agent, and a grant the agent already has.
pub fn grant_service_access(
    agents: &mut AgentStore,
    services: &ServiceRegistry,
    agent_id: u128,
    req: GrantServiceRequest,
) -> (r: Result<GrantServiceResponse, GatewayError>)
    requires
        old(agents).wf(),
    ensures
        final(agents).wf(),
        spec_registry_find(services@.services, req.service_id@) is None ==> (r matches Err(e)
            && e matches GatewayError::BadRequest(m) && m@ == "Service '"@ + req.service_id@
            + "' does not exist"@ && final(agents)@ == old(agents)@),
        (spec_registry_find(services@.services, req.service_id@) is Some && spec_keyed_find(
            old(agents)@.agents,
            agent_id,
        ) is None) ==> (r matches Err(e) && e matches GatewayError::NotFound(m) && m@
            == "Agent not found"@ && final(agents)@ == old(agents)@),
        (spec_registry_find(services@.services, req.service_id@) is Some && spec_keyed_find(
            old(agents)@.agents,
            agent_id,
        ) is Some && spec_keyed_find(
            old(agents)@.agents,
            agent_id,
        )->Some_0.allowed_services.contains(req.service_id@)) ==> (r matches Err(e)
            && e matches GatewayError::BadRequest(m) && m@ == "Agent already has access to service '"@
            + req.service_id@ + "'"@ && final(agents)@ == old(agents)@),
        (spec_registry_find(services@.services, req.service_id@) is Some && spec_keyed_find(
            old(agents)@.agents,
            agent_id,
        ) is Some && !spec_keyed_find(
            old(agents)@.agents,
            agent_id,
        )->Some_0.allowed_services.contains(req.service_id@)) ==> (r matches Ok(resp) && {
            let a = spec_keyed_find(old(agents)@.agents, agent_id)->Some_0;
            &&& resp.agent_id == agent_id
            &&& resp.service_id@ == req.service_id@
            &&& resp.allowed_services.deep_view() == spec_grant(
                a.allowed_services,
                req.service_id@,
            )
            &&& spec_keyed_find(final(agents)@.agents, agent_id) matches Some(a2)
                && a2.allowed_services == spec_grant(a.allowed_services, req.service_id@)
            &&& resp.message@ == "Service access granted successfully"@
        }),
{
    if !services.contains(req.service_id.as_str()) {
        return Err(GatewayError::BadRequest(concat3(
            "Service '",
            req.service_id.as_str(),
            "' does not exist",
        )));
    }
    let mut agent = match agents.get_agent(agent_id) {
        Some(a) => a,
        None => {
            return Err(GatewayError::NotFound(String::from_str("Agent not found")));
        },
    };
    proof {
        crate::lookup::lemma_key_index(old(agents)@.agents, agent_id);
    }
    if agent.can_access_service(req.service_id.as_str()) {
        return Err(GatewayError::BadRequest(concat3(
            "Agent already has access to service '",
            req.service_id.as_str(),
            "'",
        )));
    }
    agent.add_service(req.service_id.clone());
    let ghost changed = agent@;
    let allowed = clone_strings(&agent.allowed_services);
    proof {
        assert(allowed.deep_view() =~= changed.allowed_services);
    }
    agents.update_agent(agent);
    Ok(GrantServiceResponse {
        agent_id,
        service_id: req.service_id,
        allowed_services: allowed,
        message: String::from_str("Service access granted successfully"),
    })
}

/// Revoke a service from an agent. Rejects an unknown agent and a
/// revocation of something not granted.
pub fn revoke_service_access(agents: &mut AgentStore, agent_id: u128, service_id: &str) -> (r:
    Result<GrantServiceResponse, GatewayError>)
    requires
        old(agents).wf(),
    ensures
        final(agents).wf(),
        spec_keyed_find(old(agents)@.agents, agent_id) is None ==> (r matches Err(e) && e
            matches GatewayError::NotFound(m) && m@ == "Agent not found"@ && final(agents)@
            == old(agents)@),
        (spec_keyed_find(old(agents)@.agents, agent_id) is Some && !spec_keyed_find(
            old(agents)@.agents,
            agent_id,
        )->Some_0.allowed_services.contains(service_id@)) ==> (r matches Err(e) && e matches
            GatewayError::BadRequest(m) && m@ == "Agent does not have access to service '"@
            + service_id@ + "'"@ && final(agents)@ == old(agents)@),
        (spec_keyed_find(old(agents)@.agents, agent_id) is Some && spec_keyed_find(
            old(agents)@.agents,
            agent_id,
        )->Some_0.allowed_services.contains(service_id@)) ==> (r matches Ok(resp) && {
            let a = spec_keyed_find(old(agents)@.agents, agent_id)->Some_0;
            &&& resp.agent_id == agent_id
            &&& resp.service_id@ == service_id@
            &&& resp.allowed_services.deep_view() == spec_revoke(a.allowed_services, service_id@)
            &&& spec_keyed_find(final(agents)@.agents, agent_id) matches Some(a2)
                && a2.allowed_services == spec_revoke(a.allowed_services, service_id@)
            &&& resp.message@ == "Service access revoked successfully"@
        }),
{
    let mut agent = match agents.get_agent(agent_id) {
        Some(a) => a,
        None => {
            return Err(GatewayError::NotFound(String::from_str("Agent not found")));
        },
    };
    proof {
        crate::lookup::lemma_key_index(old(agents)@.agents, agent_id);
    }
    if !agent.remove_service(service_id) {
        return Err(GatewayError::BadRequest(concat3(
            "Agent does not have access to service '",
            service_id,
            "'",
        )));
    }
    let ghost changed = agent@;
    let allowed = clone_strings(&agent.allowed_services);
    proof {
        assert(allowed.deep_view() =~= changed.allowed_services);
    }
    agents.update_agent(agent);
    Ok(GrantServiceResponse {
        agent_id,
        service_id: String::from_str(service_id),
        allowed_services: allowed,
        message: String::from_str("Service access revoked successfully"),
    })
}

/// List every registered service: id, name and description, in registry
/// order.
pub fn list_available_services(services: &ServiceRegistry) -> (r: AvailableServicesResponse)
    ensures
        r.services@.len() == services@.services.len(),
        forall |i: int| #![auto]
            0 <= i < r.services@.len() ==> r.services@[i].id@ == services@.services[i].id
                && r.services@[i].name@ == services@.services[i].name
                && r.services@[i].description@ == services@.services[i].description,
{
    let listed = services.list();
    let mut out: Vec<ServiceInfo> = Vec::new();
    let n = listed.len();
    let mut i: usize = 0;
    while i < n
        invariant
            i <= n,
            n == listed@.len(),
            listed@.len() == services@.services.len(),
            forall |j: int| 0 <= j < n ==> (#[trigger] listed@[j])@ == services@.services[j],
            out@.len() == i,
            forall |j: int| #![auto]
                0 <= j < i ==> out@[j].id@ == services@.services[j].id && out@[j].name@
                    == services@.services[j].name && out@[j].description@
                    == services@.services[j].description,
        decreases n - i,
    {
        out.push(ServiceInfo {
            id: listed[i].id.clone(),
            name: listed[i].name.clone(),
            description: listed[i].description.clone(),
        });
        i = i + 1;
    }
    AvailableServicesResponse { services: out }
}

} // verus!
