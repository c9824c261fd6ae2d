//! The sliding-window rate limiter: per-key lists of request timestamps in
//! milliseconds of the wall clock (the window is short, so a clock step only
//! shifts it). A check drops the timestamps that have left the window,
//! rejects when the window is full, and records the request otherwise. Keys
//! are namespaced `agent:` and `service:`.

use vstd::prelude::*;

use crate::errors::GatewayError;
use crate::lookup::Keyed;
use crate::lookup::lemma_key_index;
use crate::lookup::lemma_key_index_at;
use crate::lookup::lemma_key_index_none;
use crate::lookup::spec_key_index;
use crate::strutil::concat2;
use crate::strutil::str_eq;
use crate::sys::MAX_TIMESTAMP_MILLIS;
use crate::sys::clamp_millis;
use crate::sys::now_millis;

verus! {

/// A sliding-window policy: at most `requests` requests in any window of
/// `window_secs` seconds ending at the present moment.
#[derive(Debug, Clone, Copy)]
pub struct RateLimitConfig {
    /// Requests admitted per window.
    pub requests: u32,
    /// Window length in seconds.
    pub window_secs: u64,
}

impl Default for RateLimitConfig {
    /// The fallback policy: 100 requests per 60 seconds.
    fn default() -> (r: Self)
        ensures
            r.requests == 100,
            r.window_secs == 60,
    {
        RateLimitConfig { requests: 100, window_secs: 60 }
    }
}

/// The mathematical value of one key's window.
#[verifier::ext_equal]
pub struct KeyWindowView {
    pub key: Seq<char>,
    pub stamps: Seq<i64>,
}

/// One key's recorded request timestamps.
#[derive(Debug)]
struct KeyWindow {
    key: String,
    stamps: Vec<i64>,
}

impl View for KeyWindow {
    type V = KeyWindowView;

    closed spec fn view(&self) -> KeyWindowView {
        KeyWindowView { key: self.key@, stamps: self.stamps@ }
    }
}

impl DeepView for KeyWindow {
    type V = KeyWindowView;

    closed spec fn deep_view(&self) -> KeyWindowView {
        self.view()
    }
}

/// Windows are looked up by key.
impl Keyed<Seq<char>> for KeyWindowView {
    open spec fn key(self) -> Seq<char> {
        self.key
    }
}

/// The mathematical value of a [`RateLimitConfig`] list entry.
#[verifier::ext_equal]
pub struct ServiceLimitView {
    pub service_id: Seq<char>,
    pub config: RateLimitConfig,
}

/// A per-service policy entry.
#[derive(Debug)]
struct ServiceLimit {
    service_id: String,
    config: RateLimitConfig,
}

impl View for ServiceLimit {
    type V = ServiceLimitView;

    closed spec fn view(&self) -> ServiceLimitView {
        ServiceLimitView { service_id: self.service_id@, config: self.config }
    }
}

impl DeepView for ServiceLimit {
    type V = ServiceLimitView;

    closed spec fn deep_view(&self) -> ServiceLimitView {
        self.view()
    }
}

/// Per-service policies are looked up by service id.
impl Keyed<Seq<char>> for ServiceLimitView {
    open spec fn key(self) -> Seq<char> {
        self.service_id
    }
}

/// The timestamps of `stamps` still inside the window, in order: those
/// strictly greater than `cutoff`.
pub open spec fn spec_retained(stamps: Seq<i64>, cutoff: int) -> Seq<i64>
    decreases stamps.len(),
{
    if stamps.len() == 0 {
        Seq::empty()
    } else {
        let rest = spec_retained(stamps.drop_last(), cutoff);
        if stamps.last() > cutoff {
            rest.push(stamps.last())
        } else {
            rest
        }
    }
}

/// The recorded window of `key`, if any.
pub open spec fn spec_window_find(ws: Seq<KeyWindowView>, key: Seq<char>) -> Option<KeyWindowView> {
    let m = spec_key_index(ws, key);
    if m == -1 {
        None
    } else {
        Some(ws[m])
    }
}

/// The windows after storing `w`: replaces the entry with `w`'s key, or
/// appends it.
pub open spec fn spec_window_upsert(ws: Seq<KeyWindowView>, w: KeyWindowView) -> Seq<KeyWindowView> {
    let m = spec_key_index(ws, w.key);
    if m == -1 {
        ws.push(w)
    } else {
        ws.update(m, w)
    }
}

/// The timestamps of `key` still live at `cutoff`: its retained window, or
/// empty if the key has none recorded.
pub open spec fn spec_live_stamps(ws: Seq<KeyWindowView>, key: Seq<char>, cutoff: int) -> Seq<i64> {
    match spec_window_find(ws, key) {
        Some(w) => spec_retained(w.stamps, cutoff),
        None => Seq::empty(),
    }
}

/// A window whose timestamps all lie at or before the cutoff retains
/// nothing: after a pause longer than the window, the budget is whole again.
pub proof fn lemma_window_reset(stamps: Seq<i64>, cutoff: int)
    requires
        forall |j: int| 0 <= j < stamps.len() ==> stamps[j] <= cutoff,
    ensures
        spec_retained(stamps, cutoff).len() == 0,
    decreases stamps.len(),
{
    if stamps.len() > 0 {
        lemma_window_reset(stamps.drop_last(), cutoff);
    }
}

/// A window whose timestamps all lie inside the window is retained whole:
/// requests within the window keep counting against the budget.
pub proof fn lemma_window_live(stamps: Seq<i64>, cutoff: int)
    requires
        forall |j: int| 0 <= j < stamps.len() ==> stamps[j] > cutoff,
    ensures
        spec_retained(stamps, cutoff) == stamps,
    decreases stamps.len(),
{
    if stamps.len() > 0 {
        lemma_window_live(stamps.drop_last(), cutoff);
        assert(spec_retained(stamps, cutoff) =~= stamps);
    }
}

/// A full window rejects the next request: when every recorded timestamp of
/// `key` still lies inside the window and they already reach the budget, a
/// check at `now_ms` does not admit.
pub proof fn lemma_full_window_rejects(
    ws: Seq<KeyWindowView>,
    key: Seq<char>,
    config: RateLimitConfig,
    now_ms: int,
)
    requires
        spec_window_find(ws, key) matches Some(w) && w.stamps.len() >= config.requests && forall |
            j: int,
        | 0 <= j < w.stamps.len() ==> w.stamps[j] > now_ms - config.window_secs * 1000,
    ensures
        !spec_check(ws, key, config, now_ms).1,
{
    let w = spec_window_find(ws, key)->Some_0;
    lemma_window_live(w.stamps, now_ms - config.window_secs * 1000);
}

/// The budget is whole again after a pause longer than the window: when
/// every recorded timestamp of `key` lies at or before the window's start, a
/// check at `later_ms` admits (for any policy with a budget at all).
pub proof fn lemma_budget_resets(
    ws: Seq<KeyWindowView>,
    key: Seq<char>,
    config: RateLimitConfig,
    later_ms: int,
)
    requires
        config.requests >= 1,
        spec_window_find(ws, key) matches Some(w) ==> forall |j: int|
            0 <= j < w.stamps.len() ==> w.stamps[j] <= later_ms - config.window_secs * 1000,
    ensures
        spec_check(ws, key, config, later_ms).1,
{
    match spec_window_find(ws, key) {
        Some(w) => lemma_window_reset(w.stamps, later_ms - config.window_secs * 1000),
        None => (),
    }
}

/// Replacing the window for `w`'s key changes that key's lookup to `w` and
/// no other key's lookup at all.
pub proof fn lemma_window_upsert(ws: Seq<KeyWindowView>, w: KeyWindowView, k: Seq<char>)
    ensures
        k == w.key ==> spec_window_find(spec_window_upsert(ws, w), k) == Some(w),
        k != w.key ==> spec_window_find(spec_window_upsert(ws, w), k) == spec_window_find(ws, k),
{
    let up = spec_window_upsert(ws, w);
    lemma_key_index(ws, w.key);
    let mc = spec_key_index(ws, w.key);
    if k == w.key {
        if mc == -1 {
            assert(up[ws.len() as int] == w);
            assert forall |j: int| 0 <= j < ws.len() as int implies (#[trigger] up[j]).key()
                != k by {
                assert(up[j] == ws[j]);
            }
            lemma_key_index_at(up, k, ws.len() as int);
        } else {
            assert(up[mc] == w);
            assert forall |j: int| 0 <= j < mc implies (#[trigger] up[j]).key() != k by {
                assert(up[j] == ws[j]);
            }
            lemma_key_index_at(up, k, mc);
        }
    } else {
        lemma_key_index(ws, k);
        let mk = spec_key_index(ws, k);
        if mk == -1 {
            assert forall |j: int| 0 <= j < up.len() as int implies (#[trigger] up[j]).key()
                != k by {
                if mc == -1 {
                    if j < ws.len() {
                        assert(up[j] == ws[j]);
                    } else {
                        assert(up[j] == w);
                    }
                } else {
                    if j != mc {
                        assert(up[j] == ws[j]);
                    } else {
                        assert(up[j] == w);
                    }
                }
            }
            lemma_key_index_none(up, k);
        } else {
            assert(ws[mk].key() == k);
            assert(mk != mc);
            assert(up[mk] == ws[mk]);
            assert forall |j: int| 0 <= j < mk implies (#[trigger] up[j]).key() != k by {
                if mc != -1 && j == mc {
                    assert(up[j] == w);
                } else {
                    assert(up[j] == ws[j]);
                }
            }
            lemma_key_index_at(up, k, mk);
        }
    }
}

/// The mathematical value of a [`RateLimiter`].
#[verifier::ext_equal]
pub struct RateLimiterView {
    pub windows: Seq<KeyWindowView>,
    pub agent_limit: RateLimitConfig,
    pub service_limits: Seq<ServiceLimitView>,
}

/// The sliding-window rate limiter: recorded windows per key, the default
/// per-agent policy, and the configured per-service policies.
pub struct RateLimiter {
    windows: Vec<KeyWindow>,
    /// The policy applied to every agent.
    pub agent_limit: RateLimitConfig,
    service_limits: Vec<ServiceLimit>,
}

impl View for RateLimiter {
    type V = RateLimiterView;

    closed spec fn view(&self) -> RateLimiterView {
        RateLimiterView {
            windows: self.windows.deep_view(),
            agent_limit: self.agent_limit,
            service_limits: self.service_limits.deep_view(),
        }
    }
}

/// The per-service policy the limiter applies to `sid`: the configured one,
/// or the 100-per-60-seconds default.
pub open spec fn spec_service_limit(limits: Seq<ServiceLimitView>, sid: Seq<char>) -> RateLimitConfig {
    let m = spec_key_index(limits, sid);
    if m == -1 {
        RateLimitConfig { requests: 100, window_secs: 60 }
    } else {
        limits[m].config
    }
}

/// What one admission check at time `now_ms` does to the stored windows and
/// whether it admits: the key's expired timestamps are dropped either way;
/// the request is admitted, and its timestamp recorded, exactly when the
/// retained count is below the policy's budget.
pub open spec fn spec_check(
    ws: Seq<KeyWindowView>,
    key: Seq<char>,
    config: RateLimitConfig,
    now_ms: int,
) -> (Seq<KeyWindowView>, bool) {
    let kept = spec_live_stamps(ws, key, now_ms - config.window_secs * 1000);
    if kept.len() >= config.requests {
        (spec_window_upsert(ws, KeyWindowView { key, stamps: kept }), false)
    } else {
        (spec_window_upsert(ws, KeyWindowView { key, stamps: kept.push(now_ms as i64) }), true)
    }
}

impl RateLimiter {
    /// Window keys are pairwise distinct, as are configured service ids.
    pub open spec fn wf(self) -> bool {
        &&& forall |i: int, j: int|
            0 <= i < j < self@.windows.len() ==> self@.windows[i].key != self@.windows[j].key
        &&& forall |i: int, j: int|
            0 <= i < j < self@.service_limits.len() ==> self@.service_limits[i].service_id
                != self@.service_limits[j].service_id
    }

    /// A fresh limiter with the fixed policies: 200 per 60 s for agents, 100
    /// per 60 s for the payment service, 50 per 60 s for the bank service.
    pub fn new() -> (r: RateLimiter)
        ensures
            r.wf(),
            r@.windows.len() == 0,
            r@.agent_limit == (RateLimitConfig { requests: 200, window_secs: 60 }),
            spec_service_limit(r@.service_limits, "payment"@) == (RateLimitConfig {
                requests: 100,
                window_secs: 60,
            }),
            spec_service_limit(r@.service_limits, "bank"@) == (RateLimitConfig {
                requests: 50,
                window_secs: 60,
            }),
            forall |sid: Seq<char>|
                #![trigger spec_service_limit(r@.service_limits, sid)]
                sid != "payment"@ && sid != "bank"@ ==> spec_service_limit(
                    r@.service_limits,
                    sid,
                ) == (RateLimitConfig { requests: 100, window_secs: 60 }),
    {
        let mut service_limits: Vec<ServiceLimit> = Vec::new();
        service_limits.push(ServiceLimit {
            service_id: String::from_str("payment"),
            config: RateLimitConfig { requests: 100, window_secs: 60 },
        });
        service_limits.push(ServiceLimit {
            service_id: String::from_str("bank"),
            config: RateLimitConfig { requests: 50, window_secs: 60 },
        });
        let r = RateLimiter {
            windows: Vec::new(),
            agent_limit: RateLimitConfig { requests: 200, window_secs: 60 },
            service_limits,
        };
        proof {
            assert(r@.service_limits.len() == 2);
            assert(r@.service_limits[0].service_id == "payment"@);
            assert(r@.service_limits[1].service_id == "bank"@);
            reveal_strlit("payment");
            reveal_strlit("bank");
            assert("payment"@ != "bank"@);
            lemma_key_index(r@.service_limits, "payment"@);
            lemma_key_index(r@.service_limits, "bank"@);
            assert(spec_key_index(r@.service_limits, "payment"@) == 0);
            assert(spec_key_index(r@.service_limits, "bank"@) == 1);
            assert forall |sid: Seq<char>|
                #![trigger spec_service_limit(r@.service_limits, sid)]
                sid != "payment"@ && sid != "bank"@ implies spec_service_limit(
                r@.service_limits,
                sid,
            ) == RateLimitConfig { requests: 100, window_secs: 60 } by {
                lemma_key_index_none(r@.service_limits, sid);
            }
        }
        r
    }

    /// The per-service policy for `service_id`: the configured one, or the
    /// default.
    pub fn service_limit(&self, service_id: &str) -> (r: RateLimitConfig)
        ensures
            r == spec_service_limit(self@.service_limits, service_id@),
    {
        let ghost lv = self@.service_limits;
        let n = self.service_limits.len();
        let mut i: usize = 0;
        while i < n
            invariant
                i <= n,
                n == lv.len(),
                lv == self@.service_limits,
                forall |j: int| 0 <= j < i ==> (#[trigger] lv[j]).service_id != service_id@,
            decreases n - i,
        {
            if str_eq(self.service_limits[i].service_id.as_str(), service_id) {
                proof {
                    assert(lv[i as int].service_id == service_id@);
                    lemma_key_index_at(lv, service_id@, i as int);
                }
                return self.service_limits[i].config;
            }
            i = i + 1;
        }
        proof {
            lemma_key_index_none(lv, service_id@);
        }
        RateLimitConfig { requests: 100, window_secs: 60 }
    }

    /// One admission check for `key` under `config` at time `now_ms`:
    /// timestamps at or before `now_ms` minus the window are dropped; if the
    /// remaining count has reached the budget the request is rejected, else
    /// its timestamp is recorded. Checks of one key never touch another
    /// key's window.
    pub fn check_at(&mut self, key: &str, config: &RateLimitConfig, now_ms: i64) -> (r: Result<
        (),
        GatewayError,
    >)
        requires
            old(self).wf(),
            0 <= now_ms <= MAX_TIMESTAMP_MILLIS,
            config.window_secs * 1000 <= MAX_TIMESTAMP_MILLIS,
        ensures
            final(self).wf(),
            final(self)@.agent_limit == old(self)@.agent_limit,
            final(self)@.service_limits == old(self)@.service_limits,
            final(self)@.windows == spec_check(
                old(self)@.windows,
                key@,
                *config,
                now_ms as int,
            ).0,
            r is Ok <==> spec_check(old(self)@.windows, key@, *config, now_ms as int).1,
            r matches Err(e) ==> e is RateLimitExceeded,
            forall |k: Seq<char>|
                #![trigger spec_window_find(final(self)@.windows, k)]
                k != key@ ==> spec_window_find(final(self)@.windows, k) == spec_window_find(
                    old(self)@.windows,
                    k,
                ),
    {
        let ghost wsv = self@.windows;
        let window_ms: i64 = (config.window_secs as i64) * 1000;
        let cutoff: i64 = now_ms - window_ms;
        let ghost kept_spec = spec_live_stamps(wsv, key@, cutoff as int);

        // Find the key's window and compute what it retains.
        let mut kept: Vec<i64> = Vec::new();
        let mut found: bool = false;
        let n = self.windows.len();
        let mut i: usize = 0;
        while i < n
            invariant
                i <= n,
                n == wsv.len(),
                wsv == self@.windows,
                cutoff == now_ms - config.window_secs * 1000,
                kept_spec == spec_live_stamps(wsv, key@, cutoff as int),
                !found ==> forall |j: int| 0 <= j < i ==> (#[trigger] wsv[j]).key != key@,
                !found ==> kept@.len() == 0,
                found ==> spec_window_find(wsv, key@) is Some && kept@ == spec_retained(
                    spec_window_find(wsv, key@)->Some_0.stamps,
                    cutoff as int,
                ),
                found ==> kept@ == kept_spec,
            decreases n - i,
        {
            if !found && str_eq(self.windows[i].key.as_str(), key) {
                proof {
                    assert(wsv[i as int].key == key@);
                    lemma_key_index_at(wsv, key@, i as int);
                }
                let stamps = &self.windows[i].stamps;
                let m = stamps.len();
                let mut j: usize = 0;
                while j < m
                    invariant
                        j <= m,
                        m == stamps@.len(),
                        stamps@ == wsv[i as int].stamps,
                        i < wsv.len(),
                        spec_window_find(wsv, key@) == Some(wsv[i as int]),
                        kept@ == spec_retained(stamps@.subrange(0, j as int), cutoff as int),
                    decreases m - j,
                {
                    let t = stamps[j];
                    proof {
                        assert(stamps@.subrange(0, j as int + 1).drop_last() =~= stamps@.subrange(
                            0,
                            j as int,
                        ));
                        assert(stamps@.subrange(0, j as int + 1).last() == stamps@[j as int]);
                    }
                    if t > cutoff {
                        kept.push(t);
                    }
                    j = j + 1;
                }
                proof {
                    assert(stamps@.subrange(0, m as int) =~= stamps@);
                }
                found = true;
            }
            i = i + 1;
        }
        if !found {
            proof {
                lemma_key_index_none(wsv, key@);
                assert(kept_spec =~= kept@);
            }
        }

        // Reject when the retained window already fills the budget; record
        // the request otherwise.
        let rejected = kept.len() >= config.requests as usize;
        if !rejected {
            kept.push(now_ms);
        }
        let ghost wnew = KeyWindowView { key: key@, stamps: kept@ };
        self.upsert_window(key, kept);
        proof {
            assert forall |k: Seq<char>|
                #![trigger spec_window_find(self@.windows, k)]
                k != key@ implies spec_window_find(self@.windows, k) == spec_window_find(wsv, k) by {
                lemma_window_upsert(wsv, wnew, k);
            }
            lemma_window_upsert(wsv, wnew, key@);
        }
        if rejected {
            Err(GatewayError::RateLimitExceeded)
        } else {
            Ok(())
        }
    }

    /// One admission check for agent `agent_id` under the agent policy, at
    /// time `now_ms`, against the key `agent:<id>`.
    pub fn check_agent_at(&mut self, agent_id: &str, now_ms: i64) -> (r: Result<(), GatewayError>)
        requires
            old(self).wf(),
            0 <= now_ms <= MAX_TIMESTAMP_MILLIS,
            old(self)@.agent_limit.window_secs * 1000 <= MAX_TIMESTAMP_MILLIS,
        ensures
            final(self).wf(),
            final(self)@.agent_limit == old(self)@.agent_limit,
            final(self)@.service_limits == old(self)@.service_limits,
            final(self)@.windows == spec_check(
                old(self)@.windows,
                "agent:"@ + agent_id@,
                old(self)@.agent_limit,
                now_ms as int,
            ).0,
            r is Ok <==> spec_check(
                old(self)@.windows,
                "agent:"@ + agent_id@,
                old(self)@.agent_limit,
                now_ms as int,
            ).1,
            r matches Err(e) ==> e is RateLimitExceeded,
            forall |k: Seq<char>|
                #![trigger spec_window_find(final(self)@.windows, k)]
                k != "agent:"@ + agent_id@ ==> spec_window_find(final(self)@.windows, k)
                    == spec_window_find(old(self)@.windows, k),
    {
        let key = concat2("agent:", agent_id);
        let config = self.agent_limit;
        self.check_at(key.as_str(), &config, now_ms)
    }

    /// One admission check for `service_id` under its policy, at time
    /// `now_ms`, against the key `service:<id>`.
    pub fn check_service_at(&mut self, service_id: &str, now_ms: i64) -> (r: Result<
        (),
        GatewayError,
    >)
        requires
            old(self).wf(),
            0 <= now_ms <= MAX_TIMESTAMP_MILLIS,
            spec_service_limit(old(self)@.service_limits, service_id@).window_secs * 1000
                <= MAX_TIMESTAMP_MILLIS,
        ensures
            final(self).wf(),
            final(self)@.agent_limit == old(self)@.agent_limit,
            final(self)@.service_limits == old(self)@.service_limits,
            final(self)@.windows == spec_check(
                old(self)@.windows,
                "service:"@ + service_id@,
                spec_service_limit(old(self)@.service_limits, service_id@),
                now_ms as int,
            ).0,
            r is Ok <==> spec_check(
                old(self)@.windows,
                "service:"@ + service_id@,
                spec_service_limit(old(self)@.service_limits, service_id@),
                now_ms as int,
            ).1,
            r matches Err(e) ==> e is RateLimitExceeded,
            forall |k: Seq<char>|
                #![trigger spec_window_find(final(self)@.windows, k)]
                k != "service:"@ + service_id@ ==> spec_window_find(final(self)@.windows, k)
                    == spec_window_find(old(self)@.windows, k),
    {
        let key = concat2("service:", service_id);
        let config = self.service_limit(service_id);
        self.check_at(key.as_str(), &config, now_ms)
    }

    /// One admission check for agent `agent_id` at the wall clock's present
    /// millisecond.
    pub fn check_agent(&mut self, agent_id: &str) -> (r: Result<(), GatewayError>)
        requires
            old(self).wf(),
            old(self)@.agent_limit.window_secs * 1000 <= MAX_TIMESTAMP_MILLIS,
        ensures
            final(self).wf(),
            final(self)@.agent_limit == old(self)@.agent_limit,
            final(self)@.service_limits == old(self)@.service_limits,
            exists |now_ms: int| #![auto]
                0 <= now_ms <= MAX_TIMESTAMP_MILLIS && final(self)@.windows == spec_check(
                    old(self)@.windows,
                    "agent:"@ + agent_id@,
                    old(self)@.agent_limit,
                    now_ms,
                ).0 && (r is Ok <==> spec_check(
                    old(self)@.windows,
                    "agent:"@ + agent_id@,
                    old(self)@.agent_limit,
                    now_ms,
                ).1),
            r matches Err(e) ==> e is RateLimitExceeded,
    {
        let now_ms = clamp_millis(now_millis());
        self.check_agent_at(agent_id, now_ms)
    }

    /// One admission check for `service_id` at the wall clock's present
    /// millisecond.
    pub fn check_service(&mut self, service_id: &str) -> (r: Result<(), GatewayError>)
        requires
            old(self).wf(),
            spec_service_limit(old(self)@.service_limits, service_id@).window_secs * 1000
                <= MAX_TIMESTAMP_MILLIS,
        ensures
            final(self).wf(),
            final(self)@.agent_limit == old(self)@.agent_limit,
            final(self)@.service_limits == old(self)@.service_limits,
            exists |now_ms: int| #![auto]
                0 <= now_ms <= MAX_TIMESTAMP_MILLIS && final(self)@.windows == spec_check(
                    old(self)@.windows,
                    "service:"@ + service_id@,
                    spec_service_limit(old(self)@.service_limits, service_id@),
                    now_ms,
                ).0 && (r is Ok <==> spec_check(
                    old(self)@.windows,
                    "service:"@ + service_id@,
                    spec_service_limit(old(self)@.service_limits, service_id@),
                    now_ms,
                ).1),
            r matches Err(e) ==> e is RateLimitExceeded,
    {
        let now_ms = clamp_millis(now_millis());
        self.check_service_at(service_id, now_ms)
    }

    /// The budget left for `key` under `config` at time `now_ms`, without
    /// recording anything: the policy's budget minus the timestamps still in
    /// the window, at least zero.
    pub fn remaining(&self, key: &str, config: &RateLimitConfig, now_ms: i64) -> (r: u32)
        requires
            0 <= now_ms <= MAX_TIMESTAMP_MILLIS,
            config.window_secs * 1000 <= MAX_TIMESTAMP_MILLIS,
        ensures
            ({
                let live = spec_live_stamps(
                    self@.windows,
                    key@,
                    now_ms - config.window_secs * 1000,
                ).len();
                r == if live >= config.requests {
                    0u32
                } else {
                    (config.requests - live) as u32
                }
            }),
    {
        let ghost wsv = self@.windows;
        let window_ms: i64 = (config.window_secs as i64) * 1000;
        let cutoff: i64 = now_ms - window_ms;
        let n = self.windows.len();
        let mut i: usize = 0;
        while i < n
            invariant
                i <= n,
                n == wsv.len(),
                wsv == self@.windows,
                cutoff == now_ms - config.window_secs * 1000,
                forall |j: int| 0 <= j < i ==> (#[trigger] wsv[j]).key != key@,
            decreases n - i,
        {
            if str_eq(self.windows[i].key.as_str(), key) {
                proof {
                    assert(wsv[i as int].key == key@);
                    lemma_key_index_at(wsv, key@, i as int);
                }
                let stamps = &self.windows[i].stamps;
                let m = stamps.len();
                let mut count: usize = 0;
                let mut j: usize = 0;
                while j < m
                    invariant
                        j <= m,
                        m == stamps@.len(),
                        stamps@ == wsv[i as int].stamps,
                        i < wsv.len(),
                        spec_window_find(wsv, key@) == Some(wsv[i as int]),
                        count == spec_retained(stamps@.subrange(0, j as int), cutoff as int).len(),
                        count <= j,
                        wsv == self@.windows,
                        cutoff == now_ms - config.window_secs * 1000,
                    decreases m - j,
                {
                    proof {
                        assert(stamps@.subrange(0, j as int + 1).drop_last() =~= stamps@.subrange(
                            0,
                            j as int,
                        ));
                        assert(stamps@.subrange(0, j as int + 1).last() == stamps@[j as int]);
                    }
                    if stamps[j] > cutoff {
                        count = count + 1;
                    }
                    j = j + 1;
                }
                proof {
                    assert(stamps@.subrange(0, m as int) =~= stamps@);
                }
                if count >= config.requests as usize {
                    return 0;
                }
                return config.requests - count as u32;
            }
            i = i + 1;
        }
        proof {
            lemma_key_index_none(wsv, key@);
        }
        config.requests
    }

    /// Store `kept` as the window for `key`, replacing the first entry with
    /// that key or appending one.
    fn upsert_window(&mut self, key: &str, kept: Vec<i64>)
        requires
            old(self).wf(),
        ensures
            final(self).wf(),
            final(self)@.agent_limit == old(self)@.agent_limit,
            final(self)@.service_limits == old(self)@.service_limits,
            final(self)@.windows == spec_window_upsert(
                old(self)@.windows,
                KeyWindowView { key: key@, stamps: kept@ },
            ),
    {
        let ghost before = self@.windows;
        let ghost wview = KeyWindowView { key: key@, stamps: kept@ };
        let n = self.windows.len();
        let mut i: usize = 0;
        while i < n
            invariant
                old(self).wf(),
                i <= n,
                n == self.windows.deep_view().len(),
                self.windows.deep_view() == before,
                before == old(self)@.windows,
                self.agent_limit == old(self).agent_limit,
                self.service_limits.deep_view() == old(self)@.service_limits,
                wview == (KeyWindowView { key: key@, stamps: kept@ }),
                forall |j: int| 0 <= j < i ==> (#[trigger] before[j]).key != key@,
            decreases n - i,
        {
            if str_eq(self.windows[i].key.as_str(), key) {
                proof {
                    assert(before[i as int].key == key@);
                    lemma_key_index_at(before, key@, i as int);
                }
                let entry = KeyWindow { key: String::from_str(key), stamps: kept };
                proof {
                    assert(entry@ == wview);
                }
                self.windows.set(i, entry);
                proof {
                    assert(self.windows.deep_view() =~= before.update(i as int, wview));
                }
                return;
            }
            i = i + 1;
        }
        proof {
            lemma_key_index_none(before, key@);
        }
        let entry = KeyWindow { key: String::from_str(key), stamps: kept };
        proof {
            assert(entry@ == wview);
        }
        self.windows.push(entry);
        proof {
            assert(self.windows.deep_view() =~= before.push(wview));
        }
    }
}

} // verus!
