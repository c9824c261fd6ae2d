//! The admission pipeline: the ordered checks every forwarded request passes,
//! and the upstream form of an admitted request. The order is fixed: session
//! extraction, session validation, access-key expiry, entitlement, agent
//! rate limit, service rate limit, service lookup, credential fetch,
//! best-effort refresh, and finally the upstream request build. A failure at
//! any step short-circuits the remainder.

use vstd::prelude::*;

use crate::agent::AgentView;
use crate::agent_store::AgentStore;
use crate::agent_store::AgentStoreView;
use crate::credential::EncryptedCredential;
use crate::credential::StoredCredentialView;
use crate::errors::GatewayError;
use crate::lookup::Keyed;
use crate::lookup::lemma_key_index_at;
use crate::lookup::lemma_key_index_none;
use crate::lookup::spec_key_index;
use crate::lookup::spec_keyed_find;
use crate::rate_limiter::RateLimiter;
use crate::rate_limiter::RateLimiterView;
use crate::rate_limiter::spec_check;
use crate::rate_limiter::spec_service_limit;
use crate::refresh::needs_refresh_at;
use crate::refresh::refresh_token_at;
use crate::refresh::spec_needs_refresh;
use crate::refresh::spec_refreshed;
use crate::registry::ServiceConfigView;
use crate::registry::ServiceRegistry;
use crate::registry::spec_registry_find;
use crate::strutil::concat2;
use crate::strutil::spec_decimal_string;
use crate::strutil::str_eq;
use crate::strutil::u128_to_string;
use crate::sys::MAX_TIMESTAMP_MILLIS;
use crate::sys::MAX_TIMESTAMP_SECS;
use crate::vault::CredentialManager;
use crate::vault::spec_tokens_fit;
use crate::vault::spec_upsert;
use crate::vault::spec_vault_find;

verus! {

/// The HTTP methods the gateway forwards; anything else is refused.
#[derive(Debug, Clone, Copy, PartialEq, Eq, Structural)]
pub enum HttpMethod {
    Get,
    Post,
    Put,
    Delete,
    Patch,
    Other,
}

/// The mathematical value of a [`Header`].
#[verifier::ext_equal]
pub struct HeaderView {
    pub name: Seq<char>,
    pub value: Seq<char>,
}

/// One request header. Names arrive lowercased, as the HTTP layer keeps
/// them.
#[derive(Debug)]
pub struct Header {
    /// The header's (lowercase) name.
    pub name: String,
    /// The header's value.
    pub value: String,
}

impl View for Header {
    type V = HeaderView;

    open spec fn view(&self) -> HeaderView {
        HeaderView { name: self.name@, value: self.value@ }
    }
}

impl DeepView for Header {
    type V = HeaderView;

    open spec fn deep_view(&self) -> HeaderView {
        self.view()
    }
}

impl Clone for Header {
    fn clone(&self) -> (res: Self)
        ensures
            res@ == self@,
    {
        Header { name: self.name.clone(), value: self.value.clone() }
    }
}

/// Headers are looked up by name.
impl Keyed<Seq<char>> for HeaderView {
    open spec fn key(self) -> Seq<char> {
        self.name
    }
}

/// Whether `name` (lowercase) is a hop-by-hop header, never forwarded by a
/// proxy.
pub open spec fn spec_is_hop_by_hop(name: Seq<char>) -> bool {
    ||| name == "connection"@
    ||| name == "keep-alive"@
    ||| name == "proxy-authenticate"@
    ||| name == "proxy-authorization"@
    ||| name == "te"@
    ||| name == "trailers"@
    ||| name == "transfer-encoding"@
    ||| name == "upgrade"@
}

/// Whether a header is forwarded upstream: not hop-by-hop, and neither the
/// host nor the authorization header (the gateway sets its own).
pub open spec fn spec_forwardable(h: HeaderView) -> bool {
    &&& !spec_is_hop_by_hop(h.name)
    &&& h.name != "host"@
    &&& h.name != "authorization"@
}

/// The headers forwarded upstream, in arrival order.
pub open spec fn spec_forward_headers(hs: Seq<HeaderView>) -> Seq<HeaderView>
    decreases hs.len(),
{
    if hs.len() == 0 {
        Seq::empty()
    } else {
        let rest = spec_forward_headers(hs.drop_last());
        if spec_forwardable(hs.last()) {
            rest.push(hs.last())
        } else {
            rest
        }
    }
}

/// The value of the first header named `name`, if any.
pub open spec fn spec_header_value(hs: Seq<HeaderView>, name: Seq<char>) -> Option<Seq<char>> {
    let m = spec_key_index(hs, name);
    if m == -1 {
        None
    } else {
        Some(hs[m].value)
    }
}

/// `s` without its trailing slashes.
pub open spec fn spec_trim_trailing_slashes(s: Seq<char>) -> Seq<char>
    decreases s.len(),
{
    if s.len() == 0 {
        s
    } else if s.last() == '/' {
        spec_trim_trailing_slashes(s.drop_last())
    } else {
        s
    }
}

/// The upstream URL of an admitted request: the service's base URL without
/// trailing slashes, a slash, and the caller's path.
pub open spec fn spec_upstream_url(base_url: Seq<char>, path: Seq<char>) -> Seq<char> {
    spec_trim_trailing_slashes(base_url) + "/"@ + path
}

/// Why a request was not admitted, stage by stage.
pub enum AdmitDenial {
    /// No `x-session-id` header.
    MissingSession,
    /// The session id is unknown, or its agent no longer exists.
    UnknownSession,
    /// The session is past its expiry.
    SessionLapsed,
    /// The agent's access key is past its expiry.
    KeyExpired,
    /// The agent is not entitled to the service.
    NotEntitled,
    /// The agent's window is full.
    AgentThrottled,
    /// The service's window is full.
    ServiceThrottled,
    /// The service is not registered.
    UnknownService,
    /// The vault holds no credential for the service.
    MissingCredential,
    /// A refreshed credential could not be encrypted for rest.
    RefreshStoreFailed,
    /// The method is not one the gateway forwards.
    UnsupportedMethod,
}

/// Whether the pipeline ran its rate-limit stage: every earlier stage
/// passed.
pub open spec fn spec_reaches_rate_limit(denial: Option<AdmitDenial>) -> bool {
    match denial {
        None => true,
        Some(d) => !(d is MissingSession || d is UnknownSession || d is SessionLapsed || d
            is KeyExpired || d is NotEntitled),
    }
}

/// Whether the pipeline fetched a credential: every stage up to the fetch
/// passed.
pub open spec fn spec_reaches_credential(denial: Option<AdmitDenial>) -> bool {
    match denial {
        None => true,
        Some(d) => d is RefreshStoreFailed || d is UnsupportedMethod,
    }
}

/// The limiter key charged for an agent.
pub open spec fn spec_agent_key(agent_id: u128) -> Seq<char> {
    "agent:"@ + spec_decimal_string(agent_id as int)
}

/// The limiter key charged for a service.
pub open spec fn spec_service_key(service: Seq<char>) -> Seq<char> {
    "service:"@ + service
}

/// The session and agent the request resolves to, when every auth stage up
/// to entitlement passes.
pub open spec fn spec_admit_agent(store: AgentStoreView, hs: Seq<HeaderView>, now: int) -> Option<
    AgentView,
> {
    match spec_header_value(hs, "x-session-id"@) {
        None => None,
        Some(sid) => match spec_keyed_find(store.sessions, sid) {
            None => None,
            Some(sess) => {
                if now > sess.expires_at {
                    None
                } else {
                    spec_keyed_find(store.agents, sess.agent_id)
                }
            },
        },
    }
}

/// The denial the pipeline owes the request, if any, given every store's
/// state at entry. `None` means the request is admitted.
pub open spec fn spec_admit_denial(
    store: AgentStoreView,
    reg: Seq<ServiceConfigView>,
    vaultv: Seq<StoredCredentialView>,
    limiter: RateLimiterView,
    hs: Seq<HeaderView>,
    service: Seq<char>,
    method: HttpMethod,
    now: int,
    now_ms: int,
) -> Option<AdmitDenial> {
    match spec_header_value(hs, "x-session-id"@) {
        None => Some(AdmitDenial::MissingSession),
        Some(sid) => match spec_keyed_find(store.sessions, sid) {
            None => Some(AdmitDenial::UnknownSession),
            Some(sess) => {
                if now > sess.expires_at {
                    Some(AdmitDenial::SessionLapsed)
                } else {
                    match spec_keyed_find(store.agents, sess.agent_id) {
                        None => Some(AdmitDenial::UnknownSession),
                        Some(agent) => {
                            if now > agent.expires_at {
                                Some(AdmitDenial::KeyExpired)
                            } else if !agent.allowed_services.contains(service) {
                                Some(AdmitDenial::NotEntitled)
                            } else {
                                let c1 = spec_check(
                                    limiter.windows,
                                    spec_agent_key(agent.id),
                                    limiter.agent_limit,
                                    now_ms,
                                );
                                if !c1.1 {
                                    Some(AdmitDenial::AgentThrottled)
                                } else {
                                    let c2 = spec_check(
                                        c1.0,
                                        spec_service_key(service),
                                        spec_service_limit(limiter.service_limits, service),
                                        now_ms,
                                    );
                                    if !c2.1 {
                                        Some(AdmitDenial::ServiceThrottled)
                                    } else if spec_registry_find(reg, service) is None {
                                        Some(AdmitDenial::UnknownService)
                                    } else {
                                        match spec_vault_find(vaultv, service) {
                                            None => Some(AdmitDenial::MissingCredential),
                                            Some(cred) => {
                                                if spec_refresh_applies(cred, now)
                                                    && !spec_refresh_storable(vaultv, cred, now) {
                                                    Some(AdmitDenial::RefreshStoreFailed)
                                                } else if method is Other {
                                                    Some(AdmitDenial::UnsupportedMethod)
                                                } else {
                                                    None
                                                }
                                            },
                                        }
                                    }
                                }
                            }
                        },
                    }
                }
            },
        },
    }
}

/// Whether the pipeline refreshes the service's credential: it is inside
/// the six-hour buffer and carries a refresh token.
pub open spec fn spec_refresh_applies(cred: StoredCredentialView, now: int) -> bool {
    spec_needs_refresh(cred.expires_at, now) && cred.refresh_token is Some
}

/// Whether the vault, after taking the refreshed credential, can encrypt
/// every entry for rest.
pub open spec fn spec_refresh_storable(
    vaultv: Seq<StoredCredentialView>,
    cred: StoredCredentialView,
    now: int,
) -> bool {
    forall |i: int| #![auto]
        0 <= i < spec_upsert(vaultv, spec_refreshed(cred, now)).len() ==> spec_tokens_fit(
            spec_upsert(vaultv, spec_refreshed(cred, now))[i],
        )
}

/// The credential an admitted request carries upstream: the stored one,
/// refreshed when the refresh applies.
pub open spec fn spec_effective_credential(
    vaultv: Seq<StoredCredentialView>,
    service: Seq<char>,
    now: int,
) -> StoredCredentialView {
    let cred = spec_vault_find(vaultv, service)->Some_0;
    if spec_refresh_applies(cred, now) {
        spec_refreshed(cred, now)
    } else {
        cred
    }
}

/// A session whose agent has been rotated away no longer admits: with its
/// agent id absent from the store, the pipeline denies the session's request
/// as an unknown session, whatever else the request carries.
pub proof fn lemma_orphaned_session_denied(
    store: AgentStoreView,
    reg: Seq<ServiceConfigView>,
    vaultv: Seq<StoredCredentialView>,
    limiter: RateLimiterView,
    hs: Seq<HeaderView>,
    service: Seq<char>,
    method: HttpMethod,
    now: int,
    now_ms: int,
)
    requires
        spec_header_value(hs, "x-session-id"@) is Some,
        spec_keyed_find(store.sessions, spec_header_value(hs, "x-session-id"@)->Some_0) matches
            Some(sess) && now <= sess.expires_at && spec_keyed_find(
            store.agents,
            sess.agent_id,
        ) is None,
    ensures
        spec_admit_denial(store, reg, vaultv, limiter, hs, service, method, now, now_ms) == Some(
            AdmitDenial::UnknownSession,
        ),
{
}

/// An admitted request in its upstream form: everything the dispatching
/// layer needs except the body, which passes through unchanged.
#[derive(Debug)]
pub struct UpstreamRequest {
    /// The full upstream URL.
    pub url: String,
    /// The request method, as received.
    pub method: HttpMethod,
    /// The authorization header value: `Bearer` and the injected token.
    pub authorization: String,
    /// The forwarded headers.
    pub headers: Vec<Header>,
}

/// Whether `name` (lowercase) is hop-by-hop.
pub fn is_hop_by_hop(name: &str) -> (r: bool)
    ensures
        r == spec_is_hop_by_hop(name@),
{
    str_eq(name, "connection") || str_eq(name, "keep-alive") || str_eq(name, "proxy-authenticate")
        || str_eq(name, "proxy-authorization") || str_eq(name, "te") || str_eq(name, "trailers")
        || str_eq(name, "transfer-encoding") || str_eq(name, "upgrade")
}

/// The headers forwarded upstream, in arrival order: copies of those that
/// are neither hop-by-hop nor host nor authorization.
pub fn forward_headers(headers: &Vec<Header>) -> (r: Vec<Header>)
    ensures
        r.deep_view() == spec_forward_headers(headers.deep_view()),
{
    let ghost hv = headers.deep_view();
    let mut out: Vec<Header> = Vec::new();
    let n = headers.len();
    let mut i: usize = 0;
    while i < n
        invariant
            i <= n,
            n == hv.len(),
            hv == headers.deep_view(),
            out.deep_view() == spec_forward_headers(hv.subrange(0, i as int)),
        decreases n - i,
    {
        proof {
            assert(hv.subrange(0, i as int + 1).drop_last() =~= hv.subrange(0, i as int));
            assert(hv.subrange(0, i as int + 1).last() == hv[i as int]);
        }
        let name = &headers[i].name;
        if !is_hop_by_hop(name.as_str()) && !str_eq(name.as_str(), "host") && !str_eq(
            name.as_str(),
            "authorization",
        ) {
            out.push(headers[i].clone());
            proof {
                assert(out.deep_view() =~= spec_forward_headers(
                    hv.subrange(0, i as int),
                ).push(hv[i as int]));
            }
        }
        i = i + 1;
    }
    proof {
        assert(hv.subrange(0, n as int) =~= hv);
    }
    out
}

/// The value of the first header named `name`, as a copy.
pub fn header_value(headers: &Vec<Header>, name: &str) -> (r: Option<String>)
    ensures
        r is Some <==> spec_header_value(headers.deep_view(), name@) is Some,
        r matches Some(v) ==> spec_header_value(headers.deep_view(), name@) == Some(v@),
{
    let ghost hv = headers.deep_view();
    let n = headers.len();
    let mut i: usize = 0;
    while i < n
        invariant
            i <= n,
            n == hv.len(),
            hv == headers.deep_view(),
            forall |j: int| 0 <= j < i ==> (#[trigger] hv[j]).name != name@,
        decreases n - i,
    {
        if str_eq(headers[i].name.as_str(), name) {
            proof {
                assert(hv[i as int].name == name@);
                lemma_key_index_at(hv, name@, i as int);
            }
            return Some(headers[i].value.clone());
        }
        i = i + 1;
    }
    proof {
        lemma_key_index_none(hv, name@);
    }
    None
}

/// `s` without its trailing slashes.
pub fn trim_trailing_slashes(s: &str) -> (r: String)
    ensures
        r@ == spec_trim_trailing_slashes(s@),
{
    let mut end: usize = s.unicode_len();
    proof {
        assert(s@.subrange(0, s@.len() as int) =~= s@);
    }
    while end > 0 && s.get_char(end - 1) == '/'
        invariant
            end <= s@.len(),
            spec_trim_trailing_slashes(s@) == spec_trim_trailing_slashes(
                s@.subrange(0, end as int),
            ),
        decreases end,
    {
        proof {
            assert(s@.subrange(0, end as int).drop_last() =~= s@.subrange(0, end as int - 1));
            assert(s@.subrange(0, end as int).last() == s@[end - 1]);
        }
        end = end - 1;
    }
    let kept = s.substring_char(0, end);
    proof {
        if end > 0 {
            assert(s@.subrange(0, end as int).last() == s@[end as int - 1]);
        }
        assert(spec_trim_trailing_slashes(s@.subrange(0, end as int)) == s@.subrange(
            0,
            end as int,
        ));
    }
    String::from_str(kept)
}

/// The upstream URL: the base URL without trailing slashes, a slash, and
/// the path.
pub fn build_url(base_url: &str, path: &str) -> (r: String)
    ensures
        r@ == spec_upstream_url(base_url@, path@),
{
    let trimmed = trim_trailing_slashes(base_url);
    let mut r = trimmed;
    r.append("/");
    r.append(path);
    r
}

/// Run the admission pipeline for one request at wall-clock time `now` and
/// limiter time `now_ms`: the ordered checks, the best-effort refresh, and
/// the upstream build. On admission, returns the upstream request and, when
/// a refresh was stored, the encrypted vault snapshot the caller must
/// persist. Rate-limit accounting is charged exactly as far as the pipeline
/// ran; a refresh is stored in memory even when the caller's persist step is
/// still owed.
pub fn admit_request(
    agents: &AgentStore,
    services: &ServiceRegistry,
    vault: &mut CredentialManager,
    limiter: &mut RateLimiter,
    service: &str,
    path: &str,
    method: HttpMethod,
    headers: &Vec<Header>,
    now: i64,
    now_ms: i64,
) -> (r: Result<(UpstreamRequest, Option<Vec<EncryptedCredential>>), GatewayError>)
    requires
        old(vault).wf(),
        old(limiter).wf(),
        0 <= now <= MAX_TIMESTAMP_SECS,
        0 <= now_ms <= MAX_TIMESTAMP_MILLIS,
        old(limiter)@.agent_limit.window_secs * 1000 <= MAX_TIMESTAMP_MILLIS,
        spec_service_limit(old(limiter)@.service_limits, service@).window_secs * 1000
            <= MAX_TIMESTAMP_MILLIS,
    ensures
        final(vault).wf(),
        final(limiter).wf(),
        final(limiter)@.agent_limit == old(limiter)@.agent_limit,
        final(limiter)@.service_limits == old(limiter)@.service_limits,
        final(vault)@.encryption_key == old(vault)@.encryption_key,
        ({
            let denial = spec_admit_denial(
                agents@,
                services@.services,
                old(vault)@.credentials,
                old(limiter)@,
                headers.deep_view(),
                service@,
                method,
                now as int,
                now_ms as int,
            );
            &&& (r is Err <==> denial is Some)
            &&& denial == Some(AdmitDenial::MissingSession) ==> (r matches Err(e) && e matches
                GatewayError::Unauthorized(m) && m@ == "Missing X-Session-ID header"@)
            &&& denial == Some(AdmitDenial::UnknownSession) ==> (r matches Err(e) && e matches
                GatewayError::Unauthorized(m) && m@ == "Invalid session"@)
            &&& denial == Some(AdmitDenial::SessionLapsed) ==> (r matches Err(e) && e
                is SessionExpired)
            &&& denial == Some(AdmitDenial::KeyExpired) ==> (r matches Err(e) && e matches
                GatewayError::Unauthorized(m) && m@
                == "Access key has expired. Please rotate your key."@)
            &&& denial == Some(AdmitDenial::NotEntitled) ==> (r matches Err(e) && e matches
                GatewayError::ServiceNotAllowed(m) && m@ == service@)
            &&& denial == Some(AdmitDenial::AgentThrottled) ==> (r matches Err(e) && e
                is RateLimitExceeded)
            &&& denial == Some(AdmitDenial::ServiceThrottled) ==> (r matches Err(e) && e
                is RateLimitExceeded)
            &&& denial == Some(AdmitDenial::UnknownService) ==> (r matches Err(e) && e matches
                GatewayError::NotFound(m) && m@ == "Service '"@ + service@ + "' not found"@)
            &&& denial == Some(AdmitDenial::MissingCredential) ==> (r matches Err(e) && e matches
                GatewayError::CredentialNotFound(m) && m@ == service@)
            &&& denial == Some(AdmitDenial::RefreshStoreFailed) ==> (r matches Err(e) && e
                is Internal)
            &&& denial == Some(AdmitDenial::UnsupportedMethod) ==> (r matches Err(e) && e matches
                GatewayError::BadRequest(m) && m@ == "Unsupported method"@)
            &&& denial is None ==> (r matches Ok(p) && {
                let cred = spec_effective_credential(
                    old(vault)@.credentials,
                    service@,
                    now as int,
                );
                let svc = spec_registry_find(services@.services, service@)->Some_0;
                &&& p.0.url@ == spec_upstream_url(svc.base_url, path@)
                &&& p.0.method == method
                &&& p.0.authorization@ == "Bearer "@ + cred.access_token
                &&& p.0.headers.deep_view() == spec_forward_headers(headers.deep_view())
                &&& (p.1 is Some <==> spec_refresh_applies(
                    spec_vault_find(old(vault)@.credentials, service@)->Some_0,
                    now as int,
                ))
                &&& (p.1 matches Some(es) ==> es.deep_view().len()
                    == final(vault)@.credentials.len() && forall |i: int| #![auto]
                    0 <= i < es.deep_view().len() ==> crate::vault::spec_encrypts_record(
                        es.deep_view()[i],
                        final(vault)@.credentials[i],
                        old(vault)@.encryption_key,
                    ))
            })
            &&& (!spec_reaches_rate_limit(denial) ==> final(limiter)@.windows == old(
                limiter,
            )@.windows)
            &&& (spec_reaches_rate_limit(denial) ==> ({
                let agent = spec_admit_agent(agents@, headers.deep_view(), now as int)->Some_0;
                let c1 = spec_check(
                    old(limiter)@.windows,
                    spec_agent_key(agent.id),
                    old(limiter)@.agent_limit,
                    now_ms as int,
                );
                if denial == Some(AdmitDenial::AgentThrottled) {
                    final(limiter)@.windows == c1.0
                } else {
                    final(limiter)@.windows == spec_check(
                        c1.0,
                        spec_service_key(service@),
                        spec_service_limit(old(limiter)@.service_limits, service@),
                        now_ms as int,
                    ).0
                }
            }))
            &&& ((spec_reaches_credential(denial) && spec_refresh_applies(
                spec_vault_find(old(vault)@.credentials, service@)->Some_0,
                now as int,
            )) ==> final(vault)@.credentials == spec_upsert(
                old(vault)@.credentials,
                spec_refreshed(
                    spec_vault_find(old(vault)@.credentials, service@)->Some_0,
                    now as int,
                ),
            ))
            &&& (!(spec_reaches_credential(denial) && spec_vault_find(
                old(vault)@.credentials,
                service@,
            ) is Some && spec_refresh_applies(
                spec_vault_find(old(vault)@.credentials, service@)->Some_0,
                now as int,
            )) ==> final(vault)@.credentials == old(vault)@.credentials)
        }),
    {
        let ghost store0 = agents@;
        let ghost reg0 = services@.services;
        let ghost vault0 = old(vault)@.credentials;
        let ghost limiter0 = old(limiter)@;
        let ghost hs = headers.deep_view();
        let ghost denial = spec_admit_denial(
            store0,
            reg0,
            vault0,
            limiter0,
            hs,
            service@,
            method,
            now as int,
            now_ms as int,
        );

        // 1. Session extraction.
        let session_id = match header_value(headers, "x-session-id") {
            Some(v) => v,
            None => {
                return Err(GatewayError::Unauthorized(String::from_str(
                    "Missing X-Session-ID header",
                )));
            },
        };

        // 2. Session validation.
        let (_session, agent) = match agents.validate_session_at(session_id.as_str(), now) {
            Ok(p) => p,
            Err(e) => {
                return Err(e);
            },
        };

        // 3. Access-key expiry.
        if agent.is_expired_at(now) {
            return Err(GatewayError::Unauthorized(String::from_str(
                "Access key has expired. Please rotate your key.",
            )));
        }

        // 4. Entitlement.
        if !agent.can_access_service(service) {
            return Err(GatewayError::ServiceNotAllowed(String::from_str(service)));
        }

        // 5. Rate limits: the agent's budget first, so a runaway agent
        // cannot drain a service's.
        let agent_key = u128_to_string(agent.id);
        match limiter.check_agent_at(agent_key.as_str(), now_ms) {
            Ok(()) => (),
            Err(e) => {
                return Err(e);
            },
        }
        match limiter.check_service_at(service, now_ms) {
            Ok(()) => (),
            Err(e) => {
                return Err(e);
            },
        }

        // 6. Service lookup.
        let service_config = match services.get(service) {
            Some(c) => c,
            None => {
                return Err(GatewayError::NotFound(crate::strutil::concat3(
                    "Service '",
                    service,
                    "' not found",
                )));
            },
        };

        // 7. Credential fetch.
        let credential = match vault.get(service) {
            Some(c) => c,
            None => {
                return Err(GatewayError::CredentialNotFound(String::from_str(service)));
            },
        };

        // 8. Best-effort refresh: a missing refresh token leaves the stale
        // credential in use; a storable refresh must also be persisted by
        // the caller.
        let mut effective = credential;
        let mut snapshot: Option<Vec<EncryptedCredential>> = None;
        if needs_refresh_at(&effective, now) {
            match refresh_token_at(&effective, now) {
                Some(refreshed) => {
                    let to_store = refreshed.clone();
                    match vault.update(to_store) {
                        Ok(records) => {
                            snapshot = Some(records);
                            effective = refreshed;
                        },
                        Err(e) => {
                            return Err(e);
                        },
                    }
                },
                None => (),
            }
        }

        // 9. Upstream build.
        if matches!(method, HttpMethod::Other) {
            return Err(GatewayError::BadRequest(String::from_str("Unsupported method")));
        }
        let url = build_url(service_config.base_url.as_str(), path);
        let authorization = concat2("Bearer ", effective.access_token.as_str());
        let fwd = forward_headers(headers);
        Ok((UpstreamRequest { url, method, authorization, headers: fwd }, snapshot))
    }

} // verus!
