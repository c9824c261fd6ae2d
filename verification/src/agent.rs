//! Agents and their sessions. An agent's id doubles as its rotatable access
//! key; the key expires `lifespan_days` after creation or rotation. A session
//! is a short-lived bearer id bound to one agent at creation.

use vstd::prelude::*;

use crate::strutil::clone_strings;
use crate::strutil::str_eq;
use crate::sys::MAX_TIMESTAMP_SECS;
use crate::sys::spec_clock_reading;
use crate::sys::clamp_secs;
use crate::sys::fresh_id;
use crate::sys::now_secs;

verus! {

/// Default lifespan of an access key, in days.
pub const DEFAULT_LIFESPAN_DAYS: u32 = 30;

/// Seconds in a day.
pub const SECS_PER_DAY: i64 = 86400;

/// An agent's own rate-limit setting (carried on the record; the limiter
/// applies its own policies).
#[derive(Debug, Clone, Copy)]
pub struct RateLimit {
    /// Requests admitted per window.
    pub requests: u32,
    /// Window length in seconds.
    pub window_secs: u64,
}

impl Default for RateLimit {
    /// The default setting: 100 requests per 60 seconds.
    fn default() -> (r: Self)
        ensures
            r.requests == 100,
            r.window_secs == 60,
    {
        RateLimit { requests: 100, window_secs: 60 }
    }
}

/// The mathematical value of an [`Agent`].
#[verifier::ext_equal]
pub struct AgentView {
    pub id: u128,
    pub name: Seq<char>,
    pub description: Seq<char>,
    pub allowed_services: Seq<Seq<char>>,
    pub scopes: Seq<Seq<char>>,
    pub rate_limit: RateLimit,
    pub ip_allowlist: Option<Seq<Seq<char>>>,
    pub expires_at: i64,
    pub lifespan_days: u32,
    pub created_at: i64,
    pub updated_at: i64,
}

/// An agent: the identity a session resolves to, with its service
/// entitlements and its rotatable, expiring access key (the id itself).
#[derive(Debug)]
pub struct Agent {
    /// The access-key id; replaced wholesale by rotation.
    pub id: u128,
    /// The agent's name.
    pub name: String,
    /// The agent's description.
    pub description: String,
    /// The ids of the services this agent may call.
    pub allowed_services: Vec<String>,
    /// The scopes granted to this agent.
    pub scopes: Vec<String>,
    /// The agent's own rate-limit setting.
    pub rate_limit: RateLimit,
    /// Source addresses the agent may call from, if restricted.
    pub ip_allowlist: Option<Vec<String>>,
    /// When the access key expires, as seconds since the Unix epoch.
    pub expires_at: i64,
    /// How long a key issued to this agent lives, in days.
    pub lifespan_days: u32,
    /// When the agent was created.
    pub created_at: i64,
    /// When the agent was last changed.
    pub updated_at: i64,
}

impl View for Agent {
    type V = AgentView;

    open spec fn view(&self) -> AgentView {
        AgentView {
            id: self.id,
            name: self.name@,
            description: self.description@,
            allowed_services: self.allowed_services.deep_view(),
            scopes: self.scopes.deep_view(),
            rate_limit: self.rate_limit,
            ip_allowlist: match self.ip_allowlist {
                Some(l) => Some(l.deep_view()),
                None => None,
            },
            expires_at: self.expires_at,
            lifespan_days: self.lifespan_days,
            created_at: self.created_at,
            updated_at: self.updated_at,
        }
    }
}

impl DeepView for Agent {
    type V = AgentView;

    open spec fn deep_view(&self) -> AgentView {
        self.view()
    }
}

impl Clone for Agent {
    fn clone(&self) -> (res: Self)
        ensures
            res@ == self@,
    {
        let res = Agent {
            id: self.id,
            name: self.name.clone(),
            description: self.description.clone(),
            allowed_services: clone_strings(&self.allowed_services),
            scopes: clone_strings(&self.scopes),
            rate_limit: self.rate_limit,
            ip_allowlist: match &self.ip_allowlist {
                Some(l) => Some(clone_strings(l)),
                None => None,
            },
            expires_at: self.expires_at,
            lifespan_days: self.lifespan_days,
            created_at: self.created_at,
            updated_at: self.updated_at,
        };
        proof {
            assert(res@ =~= self@);
        }
        res
    }
}

/// The entitlement list after granting `s`: unchanged when `s` is already
/// granted, extended by `s` otherwise.
pub open spec fn spec_grant(services: Seq<Seq<char>>, s: Seq<char>) -> Seq<Seq<char>> {
    if services.contains(s) {
        services
    } else {
        services.push(s)
    }
}

/// The entitlement list after revoking `s`: every entry other than `s`, in
/// order.
pub open spec fn spec_revoke(services: Seq<Seq<char>>, s: Seq<char>) -> Seq<Seq<char>>
    decreases services.len(),
{
    if services.len() == 0 {
        Seq::empty()
    } else {
        let rest = spec_revoke(services.drop_last(), s);
        if services.last() == s {
            rest
        } else {
            rest.push(services.last())
        }
    }
}

/// Granting a service twice is the same as granting it once.
pub proof fn lemma_grant_idempotent(services: Seq<Seq<char>>, s: Seq<char>)
    ensures
        spec_grant(spec_grant(services, s), s) == spec_grant(services, s),
{
    if !services.contains(s) {
        assert(services.push(s)[services.len() as int] == s);
        assert(services.push(s).contains(s));
    }
}

/// After granting `s`, the agent is entitled to `s`.
pub proof fn lemma_grant_entitles(services: Seq<Seq<char>>, s: Seq<char>)
    ensures
        spec_grant(services, s).contains(s),
{
    if !services.contains(s) {
        assert(services.push(s)[services.len() as int] == s);
    }
}

/// After revoking `s`, the agent is not entitled to `s`, and every other
/// entitlement stands.
pub proof fn lemma_revoke_revokes(services: Seq<Seq<char>>, s: Seq<char>)
    ensures
        !spec_revoke(services, s).contains(s),
        forall |x: Seq<char>| x != s ==> (spec_revoke(services, s).contains(x)
            <==> services.contains(x)),
    decreases services.len(),
{
    if services.len() == 0 {
    } else {
        let prefix = services.drop_last();
        let rest = spec_revoke(prefix, s);
        lemma_revoke_revokes(prefix, s);
        let rev = spec_revoke(services, s);
        if services.last() != s {
            assert(rev == rest.push(services.last()));
            assert forall |j: int| 0 <= j < rev.len() implies rev[j] != s by {
                if j < rest.len() {
                    assert(rev[j] == rest[j]);
                    assert(rest.contains(rest[j]) || true);
                    if rev[j] == s {
                        assert(rest[j] == s);
                        assert(rest.contains(s));
                    }
                }
            }
        }
        assert forall |x: Seq<char>| x != s implies (rev.contains(x) <==> services.contains(
            x,
        )) by {
            if rev.contains(x) {
                let j = choose |j: int| 0 <= j < rev.len() && rev[j] == x;
                if services.last() == s {
                    assert(rest[j] == x);
                    assert(rest.contains(x));
                    assert(prefix.contains(x));
                    let j2 = choose |j2: int| 0 <= j2 < prefix.len() && prefix[j2] == x;
                    assert(services[j2] == x);
                    assert(services.contains(x));
                } else {
                    if j < rest.len() {
                        assert(rest[j] == x);
                        assert(rest.contains(x));
                        assert(prefix.contains(x));
                        let j2 = choose |j2: int| 0 <= j2 < prefix.len() && prefix[j2] == x;
                        assert(services[j2] == x);
                        assert(services.contains(x));
                    } else {
                        assert(services[services.len() - 1] == x);
                        assert(services.contains(x));
                    }
                }
            }
            if services.contains(x) {
                let j = choose |j: int| 0 <= j < services.len() && services[j] == x;
                if j < services.len() - 1 {
                    assert(prefix[j] == x);
                    assert(prefix.contains(x));
                    assert(rest.contains(x));
                    let i = choose |i: int| 0 <= i < rest.len() && rest[i] == x;
                    if services.last() == s {
                        assert(rev[i] == x);
                    } else {
                        assert(rev[i] == x);
                    }
                    assert(rev.contains(x));
                } else {
                    assert(services.last() == x);
                    assert(rev[rev.len() - 1] == x);
                    assert(rev.contains(x));
                }
            }
        }
    }
}

impl Agent {
    /// A fresh agent created at time `now` under id `id`: no entitlements or
    /// scopes yet, the default rate limit, no address restriction, and a key
    /// that expires `lifespan_days` days from `now`.
    pub fn with_lifespan_at(id: u128, name: String, description: String, lifespan_days: u32, now: i64) -> (r: Agent)
        requires
            0 <= now <= MAX_TIMESTAMP_SECS,
        ensures
            r@.id == id,
            r@.name == name@,
            r@.description == description@,
            r@.allowed_services.len() == 0,
            r@.scopes.len() == 0,
            r@.rate_limit.requests == 100 && r@.rate_limit.window_secs == 60,
            r@.ip_allowlist is None,
            r@.expires_at == now + lifespan_days * SECS_PER_DAY,
            r@.lifespan_days == lifespan_days,
            r@.created_at == now,
            r@.updated_at == now,
    {
        proof {
            assert((lifespan_days as int) * (SECS_PER_DAY as int) <= 0xffff_ffffi64
                * SECS_PER_DAY) by (nonlinear_arith)
                requires lifespan_days <= 0xffff_ffffu32;
        }
        Agent {
            id,
            name,
            description,
            allowed_services: Vec::new(),
            scopes: Vec::new(),
            rate_limit: RateLimit { requests: 100, window_secs: 60 },
            ip_allowlist: None,
            expires_at: now + (lifespan_days as i64) * SECS_PER_DAY,
            lifespan_days,
            created_at: now,
            updated_at: now,
        }
    }

    /// A fresh agent with a custom lifespan, created now with a fresh id.
    pub fn with_lifespan(name: String, description: String, lifespan_days: u32) -> (r: Agent)
        ensures
            r@.name == name@,
            r@.description == description@,
            r@.allowed_services.len() == 0,
            r@.scopes.len() == 0,
            r@.ip_allowlist is None,
            r@.lifespan_days == lifespan_days,
            r@.created_at == r@.updated_at,
            r@.expires_at == r@.created_at + lifespan_days * SECS_PER_DAY,
            0 <= r@.created_at <= MAX_TIMESTAMP_SECS,
    {
        let id = fresh_id();
        let now = clamp_secs(now_secs());
        Agent::with_lifespan_at(id, name, description, lifespan_days, now)
    }

    /// A fresh agent with the default lifespan, created now with a fresh id.
    pub fn new(name: String, description: String) -> (r: Agent)
        ensures
            r@.name == name@,
            r@.description == description@,
            r@.allowed_services.len() == 0,
            r@.scopes.len() == 0,
            r@.ip_allowlist is None,
            r@.lifespan_days == DEFAULT_LIFESPAN_DAYS,
            r@.created_at == r@.updated_at,
            r@.expires_at == r@.created_at + DEFAULT_LIFESPAN_DAYS * SECS_PER_DAY,
            0 <= r@.created_at <= MAX_TIMESTAMP_SECS,
    {
        Agent::with_lifespan(name, description, DEFAULT_LIFESPAN_DAYS)
    }

    /// Whether this agent may call `service_id`: exactly when it stands in
    /// the entitlement list.
    pub fn can_access_service(&self, service_id: &str) -> (r: bool)
        ensures
            r == self@.allowed_services.contains(service_id@),
    {
        let n = self.allowed_services.len();
        let mut i: usize = 0;
        while i < n
            invariant
                i <= n,
                n == self@.allowed_services.len(),
                forall |j: int| 0 <= j < i ==> self@.allowed_services[j] != service_id@,
            decreases n - i,
        {
            if str_eq(self.allowed_services[i].as_str(), service_id) {
                proof {
                    assert(self@.allowed_services[i as int] == service_id@);
                }
                return true;
            }
            i = i + 1;
        }
        false
    }

    /// Whether the access key has expired at time `now`: strictly past its
    /// expiry.
    pub fn is_expired_at(&self, now: i64) -> (r: bool)
        ensures
            r == (now > self@.expires_at),
    {
        now > self.expires_at
    }

    /// Whether the access key has expired now, by the wall clock.
    pub fn is_expired(&self) -> (r: bool)
        ensures
            exists |now: int| #![trigger spec_clock_reading(now)]
                spec_clock_reading(now) && r == (now > self@.expires_at),
    {
        let now = clamp_secs(now_secs());
        let r = self.is_expired_at(now);
        proof {
            assert(spec_clock_reading(now as int));
        }
        r
    }

    /// Grant `service_id` at time `now`: appends it to the entitlement list
    /// unless it is already there; the record's update stamp moves only on a
    /// real change.
    pub fn add_service_at(&mut self, service_id: String, now: i64)
        ensures
            final(self)@.allowed_services == spec_grant(
                old(self)@.allowed_services,
                service_id@,
            ),
            old(self)@.allowed_services.contains(service_id@) ==> final(self)@ == old(self)@,
            !old(self)@.allowed_services.contains(service_id@) ==> final(self)@ == (AgentView {
                allowed_services: old(self)@.allowed_services.push(service_id@),
                updated_at: now,
                ..old(self)@
            }),
    {
        if !self.can_access_service(service_id.as_str()) {
            self.allowed_services.push(service_id);
            self.updated_at = now;
            proof {
                assert(self@ =~= (AgentView {
                    allowed_services: old(self)@.allowed_services.push(
                        final(self)@.allowed_services.last(),
                    ),
                    updated_at: now,
                    ..old(self)@
                }));
            }
        }
    }

    /// Grant `service_id` now, by the wall clock.
    pub fn add_service(&mut self, service_id: String)
        ensures
            final(self)@.allowed_services == spec_grant(
                old(self)@.allowed_services,
                service_id@,
            ),
            old(self)@.allowed_services.contains(service_id@) ==> final(self)@ == old(self)@,
            !old(self)@.allowed_services.contains(service_id@) ==> exists |now: int|
                #![trigger spec_clock_reading(now)]
                spec_clock_reading(now) && final(self)@ == (AgentView {
                    allowed_services: old(self)@.allowed_services.push(service_id@),
                    updated_at: now as i64,
                    ..old(self)@
                }),
    {
        let now = clamp_secs(now_secs());
        self.add_service_at(service_id, now);
        proof {
            assert(spec_clock_reading(now as int));
        }
    }

    /// Revoke `service_id` at time `now`: removes every entry equal to it.
    /// Returns whether anything was removed; the record's update stamp moves
    /// only on a real change.
    pub fn remove_service_at(&mut self, service_id: &str, now: i64) -> (r: bool)
        ensures
            r == old(self)@.allowed_services.contains(service_id@),
            final(self)@.allowed_services == spec_revoke(
                old(self)@.allowed_services,
                service_id@,
            ),
            !r ==> final(self)@ == old(self)@,
            r ==> final(self)@ == (AgentView {
                allowed_services: spec_revoke(old(self)@.allowed_services, service_id@),
                updated_at: now,
                ..old(self)@
            }),
    {
        let ghost before = self@.allowed_services;
        let mut kept: Vec<String> = Vec::new();
        let mut removed = false;
        let n = self.allowed_services.len();
        let mut i: usize = 0;
        while i < n
            invariant
                i <= n,
                n == before.len(),
                before == self@.allowed_services,
                kept.deep_view() == spec_revoke(before.subrange(0, i as int), service_id@),
                removed <==> exists |j: int| 0 <= j < i && before[j] == service_id@,
            decreases n - i,
        {
            proof {
                assert(before.subrange(0, i as int + 1).drop_last() =~= before.subrange(
                    0,
                    i as int,
                ));
                assert(before.subrange(0, i as int + 1).last() == before[i as int]);
            }
            if str_eq(self.allowed_services[i].as_str(), service_id) {
                proof {
                    assert(before[i as int] == service_id@);
                }
                removed = true;
            } else {
                kept.push(self.allowed_services[i].clone());
                proof {
                    assert(kept.deep_view() =~= spec_revoke(
                        before.subrange(0, i as int),
                        service_id@,
                    ).push(before[i as int]));
                }
            }
            i = i + 1;
        }
        proof {
            assert(before.subrange(0, n as int) =~= before);
            if removed {
                let j = choose |j: int| 0 <= j < n && before[j] == service_id@;
                assert(before.contains(service_id@));
            }
            if before.contains(service_id@) {
                let j = choose |j: int| 0 <= j < before.len() && before[j] == service_id@;
                assert(exists |j: int| 0 <= j < n && before[j] == service_id@);
            }
        }
        self.allowed_services = kept;
        if removed {
            self.updated_at = now;
            proof {
                assert(self@ =~= (AgentView {
                    allowed_services: spec_revoke(before, service_id@),
                    updated_at: now,
                    ..old(self)@
                }));
            }
        } else {
            proof {
                lemma_revoke_noop(before, service_id@);
                assert(self@ =~= old(self)@);
            }
        }
        removed
    }

    /// Revoke `service_id` now, by the wall clock.
    pub fn remove_service(&mut self, service_id: &str) -> (r: bool)
        ensures
            r == old(self)@.allowed_services.contains(service_id@),
            final(self)@.allowed_services == spec_revoke(
                old(self)@.allowed_services,
                service_id@,
            ),
            !r ==> final(self)@ == old(self)@,
            r ==> exists |now: int|
                #![trigger spec_clock_reading(now)]
                spec_clock_reading(now) && final(self)@ == (AgentView {
                    allowed_services: spec_revoke(old(self)@.allowed_services, service_id@),
                    updated_at: now as i64,
                    ..old(self)@
                }),
    {
        let now = clamp_secs(now_secs());
        let r = self.remove_service_at(service_id, now);
        proof {
            assert(spec_clock_reading(now as int));
        }
        r
    }

    /// Rotate the access key at time `now`: the id becomes `new_id`, the
    /// expiry moves to the full lifespan from `now`, and everything else
    /// stands. Sessions bound to the old id no longer resolve to this agent.
    pub fn rotate_at(&mut self, new_id: u128, now: i64) -> (r: u128)
        requires
            0 <= now <= MAX_TIMESTAMP_SECS,
        ensures
            r == new_id,
            final(self)@ == (AgentView {
                id: new_id,
                expires_at: (now + old(self)@.lifespan_days * SECS_PER_DAY) as i64,
                updated_at: now,
                ..old(self)@
            }),
    {
        proof {
            let ghost days = old(self)@.lifespan_days;
            assert((days as int) * (SECS_PER_DAY as int) <= 0xffff_ffffi64 * SECS_PER_DAY)
                by (nonlinear_arith)
                requires days <= 0xffff_ffffu32;
        }
        self.id = new_id;
        self.expires_at = now + (self.lifespan_days as i64) * SECS_PER_DAY;
        self.updated_at = now;
        proof {
            assert(self@ =~= (AgentView {
                id: new_id,
                expires_at: (now + old(self)@.lifespan_days * SECS_PER_DAY) as i64,
                updated_at: now,
                ..old(self)@
            }));
        }
        self.id
    }

    /// Rotate the access key now: a fresh random id, and the expiry the full
    /// lifespan out from the present moment.
    pub fn rotate(&mut self) -> (r: u128)
        ensures
            final(self)@.id == r,
            final(self)@.name == old(self)@.name,
            final(self)@.description == old(self)@.description,
            final(self)@.allowed_services == old(self)@.allowed_services,
            final(self)@.scopes == old(self)@.scopes,
            final(self)@.lifespan_days == old(self)@.lifespan_days,
            final(self)@.created_at == old(self)@.created_at,
            exists |now: int| #![trigger spec_clock_reading(now)]
                spec_clock_reading(now) && final(self)@.expires_at == now + old(
                    self,
                )@.lifespan_days * SECS_PER_DAY && final(self)@.updated_at == now,
    {
        let new_id = fresh_id();
        let now = clamp_secs(now_secs());
        let r = self.rotate_at(new_id, now);
        proof {
            assert(spec_clock_reading(now as int));
        }
        r
    }

    /// Whole days until the key expires at time `now`; negative once it has
    /// expired, truncated toward zero.
    pub fn days_until_expiry_at(&self, now: i64) -> (r: i64)
        requires
            0 <= now <= MAX_TIMESTAMP_SECS,
            0 <= self@.expires_at <= MAX_TIMESTAMP_SECS,
        ensures
            r == (self@.expires_at - now) / (SECS_PER_DAY as int) || r == -((now
                - self@.expires_at) / (SECS_PER_DAY as int)),
            self@.expires_at >= now ==> r == (self@.expires_at - now) / (SECS_PER_DAY as int),
    {
        (self.expires_at - now) / SECS_PER_DAY
    }

    /// Whole days until the key expires, by the wall clock.
    pub fn days_until_expiry(&self) -> (r: i64)
        requires
            0 <= self@.expires_at <= MAX_TIMESTAMP_SECS,
        ensures
            exists |now: int| #![trigger spec_clock_reading(now)]
                spec_clock_reading(now) && (now <= self@.expires_at ==> r == (self@.expires_at
                    - now) / (SECS_PER_DAY as int)),
    {
        let now = clamp_secs(now_secs());
        let r = self.days_until_expiry_at(now);
        proof {
            assert(spec_clock_reading(now as int));
        }
        r
    }
}

/// Revoking an absent service changes nothing.
pub proof fn lemma_revoke_noop(services: Seq<Seq<char>>, s: Seq<char>)
    requires
        !services.contains(s),
    ensures
        spec_revoke(services, s) == services,
    decreases services.len(),
{
    if services.len() > 0 {
        assert(forall |j: int| 0 <= j < services.len() - 1 ==> services.drop_last()[j]
            == services[j]);
        assert(!services.drop_last().contains(s)) by {
            if services.drop_last().contains(s) {
                let j = choose |j: int|
                    0 <= j < services.drop_last().len() && services.drop_last()[j] == s;
                assert(services[j] == s);
            }
        }
        lemma_revoke_noop(services.drop_last(), s);
        assert(services[services.len() - 1] != s);
        assert(spec_revoke(services, s) =~= services);
    }
}

/// The mathematical value of an [`AgentSession`].
#[verifier::ext_equal]
pub struct AgentSessionView {
    pub session_id: Seq<char>,
    pub agent_id: u128,
    pub created_at: i64,
    pub expires_at: i64,
    pub last_used_at: i64,
}

/// A session: a short-lived bearer id bound to one agent at creation and
/// expired by the wall clock.
#[derive(Debug)]
pub struct AgentSession {
    /// The bearer id presented on each request.
    pub session_id: String,
    /// The agent this session resolves to.
    pub agent_id: u128,
    /// When the session was created.
    pub created_at: i64,
    /// When the session expires.
    pub expires_at: i64,
    /// When the session was last used; written at creation.
    pub last_used_at: i64,
}

impl View for AgentSession {
    type V = AgentSessionView;

    open spec fn view(&self) -> AgentSessionView {
        AgentSessionView {
            session_id: self.session_id@,
            agent_id: self.agent_id,
            created_at: self.created_at,
            expires_at: self.expires_at,
            last_used_at: self.last_used_at,
        }
    }
}

impl DeepView for AgentSession {
    type V = AgentSessionView;

    open spec fn deep_view(&self) -> AgentSessionView {
        self.view()
    }
}

impl Clone for AgentSession {
    fn clone(&self) -> (res: Self)
        ensures
            res@ == self@,
    {
        AgentSession {
            session_id: self.session_id.clone(),
            agent_id: self.agent_id,
            created_at: self.created_at,
            expires_at: self.expires_at,
            last_used_at: self.last_used_at,
        }
    }
}

impl AgentSession {
    /// Whether the session has expired at time `now`: strictly past its
    /// expiry.
    pub fn is_expired_at(&self, now: i64) -> (r: bool)
        ensures
            r == (now > self@.expires_at),
    {
        now > self.expires_at
    }

    /// Whether the session has expired now, by the wall clock.
    pub fn is_expired(&self) -> (r: bool)
        ensures
            exists |now: int| #![trigger spec_clock_reading(now)]
                spec_clock_reading(now) && r == (now > self@.expires_at),
    {
        let now = clamp_secs(now_secs());
        let r = self.is_expired_at(now);
        proof {
            assert(spec_clock_reading(now as int));
        }
        r
    }
}

} // verus!
