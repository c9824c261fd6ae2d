//! The agent and session store: agents keyed by id, sessions keyed by
//! session id, persisted together. Session validation resolves a presented
//! session id to its agent; a session whose agent no longer exists (as after
//! a key rotation) is rejected as unauthorized.

use vstd::prelude::*;

use crate::agent::Agent;
use crate::agent::AgentSession;
use crate::agent::AgentSessionView;
use crate::agent::AgentView;
use crate::errors::GatewayError;
use crate::lookup::Keyed;
use crate::lookup::lemma_key_index_at;
use crate::lookup::lemma_key_index_none;
use crate::lookup::lemma_keyed_remove;
use crate::lookup::lemma_keyed_upsert;
use crate::lookup::spec_distinct_keys;
use crate::lookup::spec_keyed_find;
use crate::lookup::spec_keyed_remove;
use crate::lookup::spec_keyed_upsert;
use crate::strutil::str_eq;
use crate::sys::MAX_TIMESTAMP_SECS;
use crate::sys::clamp_secs;
use crate::sys::fresh_id_string;
use crate::sys::now_secs;

verus! {

/// Agents are looked up by id.
impl Keyed<u128> for AgentView {
    open spec fn key(self) -> u128 {
        self.id
    }
}

/// Sessions are looked up by session id.
impl Keyed<Seq<char>> for AgentSessionView {
    open spec fn key(self) -> Seq<char> {
        self.session_id
    }
}

/// The mathematical value of an [`AgentStore`].
#[verifier::ext_equal]
pub struct AgentStoreView {
    pub agents: Seq<AgentView>,
    pub sessions: Seq<AgentSessionView>,
}

/// The persistent map of agents and their sessions. The caller persists a
/// snapshot after each mutation; the in-memory state is authoritative at
/// runtime.
pub struct AgentStore {
    agents: Vec<Agent>,
    sessions: Vec<AgentSession>,
}

impl View for AgentStore {
    type V = AgentStoreView;

    closed spec fn view(&self) -> AgentStoreView {
        AgentStoreView {
            agents: self.agents.deep_view(),
            sessions: self.sessions.deep_view(),
        }
    }
}

impl AgentStore {
    /// Agent ids and session ids are pairwise distinct.
    pub open spec fn wf(self) -> bool {
        &&& spec_distinct_keys(self@.agents)
        &&& spec_distinct_keys(self@.sessions)
    }

    /// Build a store from loaded agents and sessions; a later record with an
    /// already-seen key replaces the earlier one. When the loaded ids are
    /// pairwise distinct — as any store this library saved has them — every
    /// agent and session is found back exactly as loaded.
    #[verifier::rlimit(30)]
    pub fn new(agents: Vec<Agent>, sessions: Vec<AgentSession>) -> (r: AgentStore)
        ensures
            r.wf(),
            r@.agents.len() <= agents.deep_view().len(),
            r@.sessions.len() <= sessions.deep_view().len(),
            forall |i: int| #![auto]
                0 <= i < agents.deep_view().len() ==> spec_keyed_find(
                    r@.agents,
                    agents.deep_view()[i].id,
                ) is Some,
            forall |i: int| #![auto]
                0 <= i < sessions.deep_view().len() ==> spec_keyed_find(
                    r@.sessions,
                    sessions.deep_view()[i].session_id,
                ) is Some,
            forall |k: u128|
                #![trigger spec_keyed_find(r@.agents, k)]
                spec_keyed_find(r@.agents, k) is Some ==> exists |i: int| #![auto]
                    0 <= i < agents.deep_view().len() && spec_keyed_find(r@.agents, k) == Some(
                    agents.deep_view()[i]),
            forall |k: Seq<char>|
                #![trigger spec_keyed_find(r@.sessions, k)]
                spec_keyed_find(r@.sessions, k) is Some ==> exists |i: int| #![auto]
                    0 <= i < sessions.deep_view().len() && spec_keyed_find(r@.sessions, k)
                        == Some(sessions.deep_view()[i]),
            spec_distinct_keys(agents.deep_view()) ==> forall |i: int| #![auto]
                0 <= i < agents.deep_view().len() ==> spec_keyed_find(
                    r@.agents,
                    agents.deep_view()[i].id,
                ) == Some(agents.deep_view()[i]),
            spec_distinct_keys(sessions.deep_view()) ==> forall |i: int| #![auto]
                0 <= i < sessions.deep_view().len() ==> spec_keyed_find(
                    r@.sessions,
                    sessions.deep_view()[i].session_id,
                ) == Some(sessions.deep_view()[i]),
    {
        let ghost av = agents.deep_view();
        let ghost sv = sessions.deep_view();
        let mut store = AgentStore { agents: Vec::new(), sessions: Vec::new() };
        let n = agents.len();
        let mut i: usize = 0;
        while i < n
            invariant
                i <= n,
                n == av.len(),
                agents.deep_view() == av,
                store@.sessions.len() == 0,
                spec_distinct_keys(store@.agents),
                store@.agents.len() <= i,
                forall |j: int| #![auto]
                    0 <= j < i ==> spec_keyed_find(store@.agents, av[j].id) is Some,
                forall |k: u128|
                    #![trigger spec_keyed_find(store@.agents, k)]
                    spec_keyed_find(store@.agents, k) is Some ==> exists |j: int| #![auto]
                        0 <= j < i && spec_keyed_find(store@.agents, k) == Some(av[j]),
                spec_distinct_keys(av) ==> forall |j: int| #![auto]
                    0 <= j < i ==> spec_keyed_find(store@.agents, av[j].id) == Some(av[j]),
            decreases n - i,
        {
            let agent = agents[i].clone();
            let ghost agv = agent@;
            let ghost before = store@.agents;
            store.upsert_agent(agent);
            proof {
                lemma_keyed_upsert(before, agv, agv.id);
                crate::lookup::lemma_key_index(before, agv.id);
                assert(store@.agents.len() <= before.len() + 1);
                assert forall |k: u128|
                    #![trigger spec_keyed_find(store@.agents, k)]
                    spec_keyed_find(store@.agents, k) is Some implies exists |j: int| #![auto]
                        0 <= j < i + 1 && spec_keyed_find(store@.agents, k) == Some(av[j]) by {
                    lemma_keyed_upsert(before, agv, k);
                    if k == agv.id {
                        assert(spec_keyed_find(store@.agents, k) == Some(av[i as int]));
                    }
                }
                assert forall |j: int| #![auto] 0 <= j < i + 1 implies spec_keyed_find(
                    store@.agents,
                    av[j].id,
                ) is Some by {
                    lemma_keyed_upsert(before, agv, av[j].id);
                }
                if spec_distinct_keys(av) {
                    assert forall |j: int| #![auto] 0 <= j < i + 1 implies spec_keyed_find(
                        store@.agents,
                        av[j].id,
                    ) == Some(av[j]) by {
                        lemma_keyed_upsert(before, agv, av[j].id);
                        if j < i {
                            assert(av[j].key() != av[i as int].key());
                        }
                    }
                }
            }
            i = i + 1;
        }
        let ghost agents_built = store@.agents;
        let m = sessions.len();
        let mut i: usize = 0;
        while i < m
            invariant
                i <= m,
                m == sv.len(),
                sessions.deep_view() == sv,
                store@.agents == agents_built,
                spec_distinct_keys(store@.agents),
                spec_distinct_keys(store@.sessions),
                store@.sessions.len() <= i,
                forall |j: int| #![auto]
                    0 <= j < av.len() ==> spec_keyed_find(store@.agents, av[j].id) is Some,
                forall |j: int| #![auto]
                    0 <= j < i ==> spec_keyed_find(store@.sessions, sv[j].session_id) is Some,
                forall |k: Seq<char>|
                    #![trigger spec_keyed_find(store@.sessions, k)]
                    spec_keyed_find(store@.sessions, k) is Some ==> exists |j: int| #![auto]
                        0 <= j < i && spec_keyed_find(store@.sessions, k) == Some(sv[j]),
                spec_distinct_keys(sv) ==> forall |j: int| #![auto]
                    0 <= j < i ==> spec_keyed_find(store@.sessions, sv[j].session_id) == Some(
                        sv[j],
                    ),
            decreases m - i,
        {
            let session = sessions[i].clone();
            let ghost sgv = session@;
            let ghost before = store@.sessions;
            store.upsert_session(session);
            proof {
                lemma_keyed_upsert(before, sgv, sgv.session_id);
                crate::lookup::lemma_key_index(before, sgv.session_id);
                assert(store@.sessions.len() <= before.len() + 1);
                assert forall |k: Seq<char>|
                    #![trigger spec_keyed_find(store@.sessions, k)]
                    spec_keyed_find(store@.sessions, k) is Some implies exists |j: int| #![auto]
                        0 <= j < i + 1 && spec_keyed_find(store@.sessions, k) == Some(sv[j]) by {
                    lemma_keyed_upsert(before, sgv, k);
                    if k == sgv.session_id {
                        assert(spec_keyed_find(store@.sessions, k) == Some(sv[i as int]));
                    }
                }
                assert forall |j: int| #![auto] 0 <= j < i + 1 implies spec_keyed_find(
                    store@.sessions,
                    sv[j].session_id,
                ) is Some by {
                    lemma_keyed_upsert(before, sgv, sv[j].session_id);
                }
                if spec_distinct_keys(sv) {
                    assert forall |j: int| #![auto] 0 <= j < i + 1 implies spec_keyed_find(
                        store@.sessions,
                        sv[j].session_id,
                    ) == Some(sv[j]) by {
                        lemma_keyed_upsert(before, sgv, sv[j].session_id);
                        if j < i {
                            assert(sv[j].key() != sv[i as int].key());
                        }
                    }
                }
            }
            i = i + 1;
        }
        store
    }

    /// Store `agent` under its id and return the stored copy.
    pub fn create_agent(&mut self, agent: Agent) -> (r: Agent)
        requires
            old(self).wf(),
        ensures
            final(self).wf(),
            r@ == agent@,
            final(self)@.agents == spec_keyed_upsert(old(self)@.agents, agent@),
            final(self)@.sessions == old(self)@.sessions,
            spec_keyed_find(final(self)@.agents, agent@.id) == Some(agent@),
    {
        let ghost agv = agent@;
        let stored = agent.clone();
        let ghost before = self@.agents;
        self.upsert_agent(agent);
        proof {
            lemma_keyed_upsert(before, agv, agv.id);
        }
        stored
    }

    /// The agent with id `id`, as a copy, if present.
    pub fn get_agent(&self, id: u128) -> (r: Option<Agent>)
        ensures
            r is Some <==> spec_keyed_find(self@.agents, id) is Some,
            r matches Some(a) ==> spec_keyed_find(self@.agents, id) == Some(a@),
    {
        let ghost av = self@.agents;
        let n = self.agents.len();
        let mut i: usize = 0;
        while i < n
            invariant
                i <= n,
                n == av.len(),
                av == self@.agents,
                forall |j: int| 0 <= j < i ==> (#[trigger] av[j]).id != id,
            decreases n - i,
        {
            if self.agents[i].id == id {
                proof {
                    assert(av[i as int].id == id);
                    lemma_key_index_at(av, id, i as int);
                }
                return Some(self.agents[i].clone());
            }
            i = i + 1;
        }
        proof {
            lemma_key_index_none(av, id);
        }
        None
    }

    /// Store `agent` under its id, replacing any previous record.
    pub fn update_agent(&mut self, agent: Agent)
        requires
            old(self).wf(),
        ensures
            final(self).wf(),
            final(self)@.agents == spec_keyed_upsert(old(self)@.agents, agent@),
            final(self)@.sessions == old(self)@.sessions,
            spec_keyed_find(final(self)@.agents, agent@.id) == Some(agent@),
            forall |k: u128|
                #![trigger spec_keyed_find(final(self)@.agents, k)]
                k != agent@.id ==> spec_keyed_find(final(self)@.agents, k) == spec_keyed_find(
                    old(self)@.agents,
                    k,
                ),
    {
        let ghost agv = agent@;
        let ghost before = self@.agents;
        self.upsert_agent(agent);
        proof {
            lemma_keyed_upsert(before, agv, agv.id);
            assert forall |k: u128|
                #![trigger spec_keyed_find(self@.agents, k)]
                k != agv.id implies spec_keyed_find(self@.agents, k) == spec_keyed_find(
                before,
                k,
            ) by {
                lemma_keyed_upsert(before, agv, k);
            }
        }
    }

    /// Replace the record held under `old_id` with `agent` (stored under its
    /// own, new id): how a key rotation is committed. Sessions are left in
    /// place; those bound to `old_id` stop validating.
    pub fn replace_agent(&mut self, old_id: u128, agent: Agent)
        requires
            old(self).wf(),
        ensures
            final(self).wf(),
            final(self)@.agents == spec_keyed_upsert(
                spec_keyed_remove(old(self)@.agents, old_id),
                agent@,
            ),
            final(self)@.sessions == old(self)@.sessions,
            spec_keyed_find(final(self)@.agents, agent@.id) == Some(agent@),
            old_id != agent@.id ==> spec_keyed_find(final(self)@.agents, old_id) is None,
    {
        let ghost before = self@.agents;
        let ghost agv = agent@;
        self.remove_agent(old_id);
        let ghost removed = self@.agents;
        self.upsert_agent(agent);
        proof {
            lemma_keyed_remove(before, old_id);
            lemma_keyed_upsert(removed, agv, agv.id);
            if old_id != agv.id {
                lemma_keyed_upsert(removed, agv, old_id);
                assert forall |j: int| 0 <= j < removed.len() implies (#[trigger] removed[j]).key()
                    != old_id by {
                    assert(removed[j].id != old_id);
                }
                lemma_key_index_none(removed, old_id);
            }
        }
    }

    /// Remove the agent with id `id`, returning whether one was present.
    pub fn delete_agent(&mut self, id: u128) -> (r: bool)
        requires
            old(self).wf(),
        ensures
            final(self).wf(),
            r == (spec_keyed_find(old(self)@.agents, id) is Some),
            final(self)@.agents == spec_keyed_remove(old(self)@.agents, id),
            final(self)@.sessions == old(self)@.sessions,
            spec_keyed_find(final(self)@.agents, id) is None,
            forall |k: u128|
                #![trigger spec_keyed_find(final(self)@.agents, k)]
                k != id ==> spec_keyed_find(final(self)@.agents, k) == spec_keyed_find(
                    old(self)@.agents,
                    k,
                ),
    {
        let ghost before = self@.agents;
        let r = self.remove_agent(id);
        proof {
            lemma_keyed_remove(before, id);
            assert forall |j: int| 0 <= j < self@.agents.len() implies
                (#[trigger] self@.agents[j]).key() != id by {
                assert(self@.agents[j].id != id);
            }
            lemma_key_index_none(self@.agents, id);
        }
        r
    }

    /// Create a session for `agent_id` at time `now` under `session_id`,
    /// lasting `ttl_secs`: created and last used at `now`, expiring `ttl_secs`
    /// from it. Returns the stored copy.
    pub fn create_session_at(&mut self, agent_id: u128, ttl_secs: u64, session_id: String, now: i64) -> (r: AgentSession)
        requires
            old(self).wf(),
            0 <= now <= MAX_TIMESTAMP_SECS,
            ttl_secs <= i64::MAX - MAX_TIMESTAMP_SECS,
        ensures
            final(self).wf(),
            r@ == (AgentSessionView {
                session_id: session_id@,
                agent_id,
                created_at: now,
                expires_at: (now + ttl_secs) as i64,
                last_used_at: now,
            }),
            final(self)@.sessions == spec_keyed_upsert(old(self)@.sessions, r@),
            final(self)@.agents == old(self)@.agents,
            spec_keyed_find(final(self)@.sessions, session_id@) == Some(r@),
    {
        let session = AgentSession {
            session_id,
            agent_id,
            created_at: now,
            expires_at: now + ttl_secs as i64,
            last_used_at: now,
        };
        let stored = session.clone();
        let ghost sgv = session@;
        let ghost before = self@.sessions;
        self.upsert_session(session);
        proof {
            lemma_keyed_upsert(before, sgv, sgv.session_id);
        }
        stored
    }

    /// Create a session for `agent_id` now, under a fresh random session id,
    /// lasting `ttl_secs`.
    pub fn create_session(&mut self, agent_id: u128, ttl_secs: u64) -> (r: AgentSession)
        requires
            old(self).wf(),
            ttl_secs <= i64::MAX - MAX_TIMESTAMP_SECS,
        ensures
            final(self).wf(),
            r@.agent_id == agent_id,
            r@.created_at == r@.last_used_at,
            r@.expires_at == r@.created_at + ttl_secs,
            0 <= r@.created_at <= MAX_TIMESTAMP_SECS,
            final(self)@.sessions == spec_keyed_upsert(old(self)@.sessions, r@),
            final(self)@.agents == old(self)@.agents,
            spec_keyed_find(final(self)@.sessions, r@.session_id) == Some(r@),
    {
        let session_id = fresh_id_string();
        let now = clamp_secs(now_secs());
        self.create_session_at(agent_id, ttl_secs, session_id, now)
    }

    /// The session with id `session_id`, as a copy, if present.
    pub fn get_session(&self, session_id: &str) -> (r: Option<AgentSession>)
        ensures
            r is Some <==> spec_keyed_find(self@.sessions, session_id@) is Some,
            r matches Some(s) ==> spec_keyed_find(self@.sessions, session_id@) == Some(s@),
    {
        let ghost sv = self@.sessions;
        let n = self.sessions.len();
        let mut i: usize = 0;
        while i < n
            invariant
                i <= n,
                n == sv.len(),
                sv == self@.sessions,
                forall |j: int| 0 <= j < i ==> (#[trigger] sv[j]).session_id != session_id@,
            decreases n - i,
        {
            if str_eq(self.sessions[i].session_id.as_str(), session_id) {
                proof {
                    assert(sv[i as int].session_id == session_id@);
                    lemma_key_index_at(sv, session_id@, i as int);
                }
                return Some(self.sessions[i].clone());
            }
            i = i + 1;
        }
        proof {
            lemma_key_index_none(sv, session_id@);
        }
        None
    }

    /// Validate a presented session id at time `now`: unauthorized when the
    /// session is absent or its agent no longer exists (an orphaned session
    /// after rotation), expired when past its expiry, and otherwise the
    /// session together with its agent, as copies.
    pub fn validate_session_at(&self, session_id: &str, now: i64) -> (r: Result<
        (AgentSession, Agent),
        GatewayError,
    >)
        ensures
            spec_keyed_find(self@.sessions, session_id@) is None ==> (r matches Err(e)
                && e matches GatewayError::Unauthorized(m) && m@ == "Invalid session"@),
            spec_keyed_find(self@.sessions, session_id@) matches Some(s) ==> {
                &&& now > s.expires_at ==> (r matches Err(e) && e is SessionExpired)
                &&& now <= s.expires_at && spec_keyed_find(self@.agents, s.agent_id) is None
                    ==> (r matches Err(e) && e matches GatewayError::Unauthorized(m) && m@
                    == "Invalid session"@)
                &&& (now <= s.expires_at && spec_keyed_find(self@.agents, s.agent_id) is Some)
                    ==> (r matches Ok(p) && p.0@ == s && spec_keyed_find(
                    self@.agents,
                    s.agent_id,
                ) == Some(p.1@))
            },
    {
        let session = match self.get_session(session_id) {
            Some(s) => s,
            None => {
                return Err(GatewayError::Unauthorized(String::from_str("Invalid session")));
            },
        };
        if session.is_expired_at(now) {
            return Err(GatewayError::SessionExpired);
        }
        let agent = match self.get_agent(session.agent_id) {
            Some(a) => a,
            None => {
                return Err(GatewayError::Unauthorized(String::from_str("Invalid session")));
            },
        };
        Ok((session, agent))
    }

    /// Validate a presented session id against the wall clock.
    pub fn validate_session(&self, session_id: &str) -> (r: Result<
        (AgentSession, Agent),
        GatewayError,
    >)
        ensures
            spec_keyed_find(self@.sessions, session_id@) is None ==> (r matches Err(e)
                && e matches GatewayError::Unauthorized(m) && m@ == "Invalid session"@),
            r matches Ok(p) ==> {
                &&& spec_keyed_find(self@.sessions, session_id@) == Some(p.0@)
                &&& spec_keyed_find(self@.agents, p.0@.agent_id) == Some(p.1@)
            },
    {
        let now = clamp_secs(now_secs());
        self.validate_session_at(session_id, now)
    }

    /// Copies of every agent, in store order, for persistence.
    pub fn export_agents(&self) -> (r: Vec<Agent>)
        ensures
            r.deep_view() == self@.agents,
    {
        let ghost av = self@.agents;
        let mut out: Vec<Agent> = Vec::new();
        let n = self.agents.len();
        let mut i: usize = 0;
        while i < n
            invariant
                i <= n,
                n == av.len(),
                av == self@.agents,
                out@.len() == i,
                out.deep_view() == av.subrange(0, i as int),
            decreases n - i,
        {
            out.push(self.agents[i].clone());
            proof {
                assert(out.deep_view() =~= av.subrange(0, i as int + 1));
            }
            i = i + 1;
        }
        proof {
            assert(av.subrange(0, n as int) =~= av);
        }
        out
    }

    /// Copies of every session, in store order, for persistence.
    pub fn export_sessions(&self) -> (r: Vec<AgentSession>)
        ensures
            r.deep_view() == self@.sessions,
    {
        let ghost sv = self@.sessions;
        let mut out: Vec<AgentSession> = Vec::new();
        let n = self.sessions.len();
        let mut i: usize = 0;
        while i < n
            invariant
                i <= n,
                n == sv.len(),
                sv == self@.sessions,
                out@.len() == i,
                out.deep_view() == sv.subrange(0, i as int),
            decreases n - i,
        {
            out.push(self.sessions[i].clone());
            proof {
                assert(out.deep_view() =~= sv.subrange(0, i as int + 1));
            }
            i = i + 1;
        }
        proof {
            assert(sv.subrange(0, n as int) =~= sv);
        }
        out
    }

    /// Store `agent` under its id, replacing the first record with that id
    /// or appending.
    fn upsert_agent(&mut self, agent: Agent)
        ensures
            final(self)@.agents == spec_keyed_upsert(old(self)@.agents, agent@),
            final(self)@.sessions == old(self)@.sessions,
            spec_distinct_keys(old(self)@.agents) ==> spec_distinct_keys(final(self)@.agents),
    {
        let ghost before = self@.agents;
        let ghost agv = agent@;
        proof {
            lemma_keyed_upsert(before, agv, agv.id);
        }
        let n = self.agents.len();
        let mut i: usize = 0;
        while i < n
            invariant
                i <= n,
                n == self.agents.deep_view().len(),
                self.agents.deep_view() == before,
                self.sessions.deep_view() == old(self)@.sessions,
                before == old(self)@.agents,
                agv == agent@,
                forall |j: int| 0 <= j < i ==> (#[trigger] before[j]).id != agv.id,
            decreases n - i,
        {
            if self.agents[i].id == agent.id {
                proof {
                    assert(before[i as int].id == agv.id);
                    lemma_key_index_at(before, agv.id, i as int);
                    lemma_keyed_upsert(before, agv, agv.id);
                }
                self.agents.set(i, agent);
                proof {
                    assert(self.agents.deep_view() =~= before.update(i as int, agv));
                }
                return;
            }
            i = i + 1;
        }
        proof {
            lemma_key_index_none(before, agv.id);
        }
        self.agents.push(agent);
        proof {
            assert(self.agents.deep_view() =~= before.push(agv));
        }
    }

    /// Store `session` under its session id, replacing the first record with
    /// that id or appending.
    fn upsert_session(&mut self, session: AgentSession)
        ensures
            final(self)@.sessions == spec_keyed_upsert(old(self)@.sessions, session@),
            final(self)@.agents == old(self)@.agents,
            spec_distinct_keys(old(self)@.sessions) ==> spec_distinct_keys(
                final(self)@.sessions,
            ),
    {
        let ghost before = self@.sessions;
        let ghost sgv = session@;
        proof {
            lemma_keyed_upsert(before, sgv, sgv.session_id);
        }
        let n = self.sessions.len();
        let mut i: usize = 0;
        while i < n
            invariant
                i <= n,
                n == self.sessions.deep_view().len(),
                self.sessions.deep_view() == before,
                self.agents.deep_view() == old(self)@.agents,
                before == old(self)@.sessions,
                sgv == session@,
                forall |j: int| 0 <= j < i ==> (#[trigger] before[j]).session_id
                    != sgv.session_id,
            decreases n - i,
        {
            if str_eq(self.sessions[i].session_id.as_str(), session.session_id.as_str()) {
                proof {
                    assert(before[i as int].session_id == sgv.session_id);
                    lemma_key_index_at(before, sgv.session_id, i as int);
                }
                self.sessions.set(i, session);
                proof {
                    assert(self.sessions.deep_view() =~= before.update(i as int, sgv));
                }
                return;
            }
            i = i + 1;
        }
        proof {
            lemma_key_index_none(before, sgv.session_id);
        }
        self.sessions.push(session);
        proof {
            assert(self.sessions.deep_view() =~= before.push(sgv));
        }
    }

    /// Remove every agent record with id `id`, returning whether one stood.
    fn remove_agent(&mut self, id: u128) -> (r: bool)
        ensures
            final(self)@.agents == spec_keyed_remove(old(self)@.agents, id),
            final(self)@.sessions == old(self)@.sessions,
            r == (spec_keyed_find(old(self)@.agents, id) is Some),
            spec_distinct_keys(old(self)@.agents) ==> spec_distinct_keys(final(self)@.agents),
            forall |j: int| 0 <= j < final(self)@.agents.len()
                ==> (#[trigger] final(self)@.agents[j]).id != id,
    {
        let ghost before = self@.agents;
        let mut kept: Vec<Agent> = Vec::new();
        let mut removed = false;
        let n = self.agents.len();
        let mut i: usize = 0;
        while i < n
            invariant
                i <= n,
                n == before.len(),
                before == self.agents.deep_view(),
                self.sessions.deep_view() == old(self)@.sessions,
                before == old(self)@.agents,
                kept.deep_view() == spec_keyed_remove(before.subrange(0, i as int), id),
                removed <==> exists |j: int| 0 <= j < i && (#[trigger] before[j]).id == id,
            decreases n - i,
        {
            proof {
                assert(before.subrange(0, i as int + 1).drop_last() =~= before.subrange(
                    0,
                    i as int,
                ));
                assert(before.subrange(0, i as int + 1).last() == before[i as int]);
            }
            if self.agents[i].id == id {
                proof {
                    assert(before[i as int].id == id);
                }
                removed = true;
            } else {
                kept.push(self.agents[i].clone());
                proof {
                    assert(kept.deep_view() =~= spec_keyed_remove(
                        before.subrange(0, i as int),
                        id,
                    ).push(before[i as int]));
                }
            }
            i = i + 1;
        }
        proof {
            assert(before.subrange(0, n as int) =~= before);
            lemma_keyed_remove(before, id);
            crate::lookup::lemma_key_index(before, id);
            if removed {
                let j = choose |j: int| 0 <= j < n && (#[trigger] before[j]).id == id;
                assert(before[j].key() == id);
            }
        }
        self.agents = kept;
        removed
    }
}

} // verus!
