//! Users: the registered owners of agents, unique by email.

use vstd::prelude::*;

use crate::sys::MAX_TIMESTAMP_SECS;
use crate::sys::clamp_secs;
use crate::sys::fresh_id;
use crate::sys::now_secs;
use crate::sys::spec_clock_reading;

verus! {

/// The mathematical value of a [`User`].
#[verifier::ext_equal]
pub struct UserView {
    pub id: u128,
    pub username: Seq<char>,
    pub email: Seq<char>,
    pub agents: Seq<u128>,
    pub created_at: i64,
    pub updated_at: i64,
}

/// A registered user, owner of zero or more agents.
#[derive(Debug)]
pub struct User {
    /// The user's id.
    pub id: u128,
    /// The user's name.
    pub username: String,
    /// The user's email; unique across the store.
    pub email: String,
    /// The ids of the agents this user owns.
    pub agents: Vec<u128>,
    /// When the user registered.
    pub created_at: i64,
    /// When the record last changed.
    pub updated_at: i64,
}

impl View for User {
    type V = UserView;

    open spec fn view(&self) -> UserView {
        UserView {
            id: self.id,
            username: self.username@,
            email: self.email@,
            agents: self.agents@,
            created_at: self.created_at,
            updated_at: self.updated_at,
        }
    }
}

impl DeepView for User {
    type V = UserView;

    open spec fn deep_view(&self) -> UserView {
        self.view()
    }
}

impl Clone for User {
    fn clone(&self) -> (res: Self)
        ensures
            res@ == self@,
    {
        let mut agents: Vec<u128> = Vec::new();
        let mut i: usize = 0;
        while i < self.agents.len()
            invariant
                i <= self.agents@.len(),
                agents@ == self.agents@.subrange(0, i as int),
            decreases self.agents@.len() - i,
        {
            agents.push(self.agents[i]);
            proof {
                assert(agents@ =~= self.agents@.subrange(0, i as int + 1));
            }
            i = i + 1;
        }
        proof {
            assert(self.agents@.subrange(0, self.agents@.len() as int) =~= self.agents@);
        }
        let res = User {
            id: self.id,
            username: self.username.clone(),
            email: self.email.clone(),
            agents,
            created_at: self.created_at,
            updated_at: self.updated_at,
        };
        proof {
            assert(res@ =~= self@);
        }
        res
    }
}

/// The agent list after linking `agent_id`: unchanged when already linked,
/// extended otherwise.
pub open spec fn spec_link_agent(agents: Seq<u128>, agent_id: u128) -> Seq<u128> {
    if agents.contains(agent_id) {
        agents
    } else {
        agents.push(agent_id)
    }
}

impl User {
    /// A fresh user registered at time `now` under id `id`, owning no
    /// agents yet.
    pub fn new_at(id: u128, username: String, email: String, now: i64) -> (r: User)
        ensures
            r@.id == id,
            r@.username == username@,
            r@.email == email@,
            r@.agents.len() == 0,
            r@.created_at == now,
            r@.updated_at == now,
    {
        User { id, username, email, agents: Vec::new(), created_at: now, updated_at: now }
    }

    /// A fresh user registered now, with a fresh id.
    pub fn new(username: String, email: String) -> (r: User)
        ensures
            r@.username == username@,
            r@.email == email@,
            r@.agents.len() == 0,
            r@.created_at == r@.updated_at,
            0 <= r@.created_at <= MAX_TIMESTAMP_SECS,
    {
        let id = fresh_id();
        let now = clamp_secs(now_secs());
        User::new_at(id, username, email, now)
    }

    /// Link `agent_id` to this user at time `now`, unless already linked;
    /// the record's update stamp moves only on a real change.
    pub fn add_agent_at(&mut self, agent_id: u128, now: i64)
        ensures
            final(self)@.agents == spec_link_agent(old(self)@.agents, agent_id),
            old(self)@.agents.contains(agent_id) ==> final(self)@ == old(self)@,
            !old(self)@.agents.contains(agent_id) ==> final(self)@ == (UserView {
                agents: old(self)@.agents.push(agent_id),
                updated_at: now,
                ..old(self)@
            }),
    {
        let mut found = false;
        let n = self.agents.len();
        let mut i: usize = 0;
        while i < n
            invariant
                i <= n,
                n == self@.agents.len(),
                found <==> exists |j: int| 0 <= j < i && self@.agents[j] == agent_id,
            decreases n - i,
        {
            if self.agents[i] == agent_id {
                found = true;
            }
            i = i + 1;
        }
        proof {
            if found {
                let j = choose |j: int| 0 <= j < n && self@.agents[j] == agent_id;
                assert(self@.agents.contains(agent_id));
            }
            if self@.agents.contains(agent_id) {
                let j = choose |j: int| 0 <= j < self@.agents.len() && self@.agents[j] == agent_id;
                assert(exists |j: int| 0 <= j < n && self@.agents[j] == agent_id);
            }
        }
        if !found {
            self.agents.push(agent_id);
            self.updated_at = now;
            proof {
                assert(self@ =~= (UserView {
                    agents: old(self)@.agents.push(agent_id),
                    updated_at: now,
                    ..old(self)@
                }));
            }
        }
    }

    /// Link `agent_id` to this user now, by the wall clock.
    pub fn add_agent(&mut self, agent_id: u128)
        ensures
            final(self)@.agents == spec_link_agent(old(self)@.agents, agent_id),
            old(self)@.agents.contains(agent_id) ==> final(self)@ == old(self)@,
            !old(self)@.agents.contains(agent_id) ==> exists |now: int|
                #![trigger spec_clock_reading(now)]
                spec_clock_reading(now) && final(self)@ == (UserView {
                    agents: old(self)@.agents.push(agent_id),
                    updated_at: now as i64,
                    ..old(self)@
                }),
    {
        let now = clamp_secs(now_secs());
        self.add_agent_at(agent_id, now);
        proof {
            assert(spec_clock_reading(now as int));
        }
    }
}

} // verus!
