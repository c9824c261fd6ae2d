//! The service registry: an immutable catalog of upstream services keyed by
//! id, built once from configuration records.

use vstd::prelude::*;

use crate::lookup::Keyed;
use crate::lookup::lemma_key_index;
use crate::lookup::lemma_key_index_at;
use crate::lookup::spec_key_index;
use crate::strutil::clone_strings;
use crate::strutil::str_eq;

verus! {

/// A service's rate-limit policy as configured.
#[derive(Debug, Clone, Copy)]
pub struct RateLimitConfig {
    /// Requests admitted per window.
    pub requests: u32,
    /// Window length in seconds.
    pub window_secs: u64,
}

/// The mathematical value of an [`EndpointConfig`].
#[verifier::ext_equal]
pub struct EndpointConfigView {
    pub path: Seq<char>,
    pub methods: Seq<Seq<char>>,
    pub required_scopes: Seq<Seq<char>>,
}

/// One endpoint of an upstream service, as configured.
#[derive(Debug)]
pub struct EndpointConfig {
    /// The endpoint's path.
    pub path: String,
    /// The HTTP methods it accepts.
    pub methods: Vec<String>,
    /// The scopes a caller needs for it.
    pub required_scopes: Vec<String>,
}

impl View for EndpointConfig {
    type V = EndpointConfigView;

    open spec fn view(&self) -> EndpointConfigView {
        EndpointConfigView {
            path: self.path@,
            methods: self.methods.deep_view(),
            required_scopes: self.required_scopes.deep_view(),
        }
    }
}

impl DeepView for EndpointConfig {
    type V = EndpointConfigView;

    open spec fn deep_view(&self) -> EndpointConfigView {
        self.view()
    }
}

impl Clone for EndpointConfig {
    fn clone(&self) -> (res: Self)
        ensures
            res@ == self@,
    {
        let res = EndpointConfig {
            path: self.path.clone(),
            methods: clone_strings(&self.methods),
            required_scopes: clone_strings(&self.required_scopes),
        };
        proof {
            assert(res@ =~= self@);
        }
        res
    }
}

/// The mathematical value of a [`ServiceConfig`].
#[verifier::ext_equal]
pub struct ServiceConfigView {
    pub id: Seq<char>,
    pub name: Seq<char>,
    pub description: Seq<char>,
    pub base_url: Seq<char>,
    pub auth_type: Seq<char>,
    pub endpoints: Seq<EndpointConfigView>,
    pub rate_limit: RateLimitConfig,
}

/// One upstream service, as configured: identity, base URL, and policy.
#[derive(Debug)]
pub struct ServiceConfig {
    /// The service's id, the key callers address it by.
    pub id: String,
    /// Its display name.
    pub name: String,
    /// Its description.
    pub description: String,
    /// The URL requests are forwarded under.
    pub base_url: String,
    /// How the upstream authenticates.
    pub auth_type: String,
    /// Its configured endpoints.
    pub endpoints: Vec<EndpointConfig>,
    /// Its configured rate limit.
    pub rate_limit: RateLimitConfig,
}

impl View for ServiceConfig {
    type V = ServiceConfigView;

    open spec fn view(&self) -> ServiceConfigView {
        ServiceConfigView {
            id: self.id@,
            name: self.name@,
            description: self.description@,
            base_url: self.base_url@,
            auth_type: self.auth_type@,
            endpoints: self.endpoints.deep_view(),
            rate_limit: self.rate_limit,
        }
    }
}

impl DeepView for ServiceConfig {
    type V = ServiceConfigView;

    open spec fn deep_view(&self) -> ServiceConfigView {
        self.view()
    }
}

impl Clone for ServiceConfig {
    fn clone(&self) -> (res: Self)
        ensures
            res@ == self@,
    {
        let mut endpoints: Vec<EndpointConfig> = Vec::new();
        proof {
            assert(endpoints.deep_view() =~= self.endpoints.deep_view().subrange(0, 0));
        }
        let mut i: usize = 0;
        while i < self.endpoints.len()
            invariant
                i <= self.endpoints@.len(),
                endpoints@.len() == i,
                endpoints.deep_view() == self.endpoints.deep_view().subrange(0, i as int),
            decreases self.endpoints@.len() - i,
        {
            endpoints.push(self.endpoints[i].clone());
            proof {
                assert(endpoints.deep_view() =~= self.endpoints.deep_view().subrange(
                    0,
                    i as int + 1,
                ));
            }
            i = i + 1;
        }
        proof {
            assert(self.endpoints.deep_view().subrange(0, self.endpoints@.len() as int)
                =~= self.endpoints.deep_view());
        }
        let res = ServiceConfig {
            id: self.id.clone(),
            name: self.name.clone(),
            description: self.description.clone(),
            base_url: self.base_url.clone(),
            auth_type: self.auth_type.clone(),
            endpoints,
            rate_limit: self.rate_limit,
        };
        proof {
            assert(res@ =~= self@);
        }
        res
    }
}

/// Services are looked up by id.
impl Keyed<Seq<char>> for ServiceConfigView {
    open spec fn key(self) -> Seq<char> {
        self.id
    }
}

/// The service registered under `sid`, if any.
pub open spec fn spec_registry_find(services: Seq<ServiceConfigView>, sid: Seq<char>) -> Option<
    ServiceConfigView,
> {
    let m = spec_key_index(services, sid);
    if m == -1 {
        None
    } else {
        Some(services[m])
    }
}

/// The mathematical value of a [`ServiceRegistry`].
#[verifier::ext_equal]
pub struct ServiceRegistryView {
    pub services: Seq<ServiceConfigView>,
}

/// The immutable catalog of upstream services, keyed by id.
#[derive(Debug)]
pub struct ServiceRegistry {
    services: Vec<ServiceConfig>,
}

impl View for ServiceRegistry {
    type V = ServiceRegistryView;

    closed spec fn view(&self) -> ServiceRegistryView {
        ServiceRegistryView { services: self.services.deep_view() }
    }
}

impl ServiceRegistry {
    /// Registered ids are pairwise distinct.
    pub open spec fn wf(self) -> bool {
        forall |i: int, j: int|
            0 <= i < j < self@.services.len() ==> self@.services[i].id != self@.services[j].id
    }

    /// Build a registry from configured services; a later record with an
    /// already-seen id replaces the earlier one.
    pub fn new(services: Vec<ServiceConfig>) -> (r: ServiceRegistry)
        ensures
            r.wf(),
            forall |i: int| #![auto]
                0 <= i < services.deep_view().len() ==> spec_registry_find(
                    r@.services,
                    services.deep_view()[i].id,
                ) is Some,
            forall |k: Seq<char>|
                #![trigger spec_registry_find(r@.services, k)]
                spec_registry_find(r@.services, k) is Some ==> exists |i: int| #![auto]
                    0 <= i < services.deep_view().len() && services.deep_view()[i].id == k
                        && spec_registry_find(r@.services, k) == Some(services.deep_view()[i]),
    {
        let ghost sv = services.deep_view();
        let mut kept: Vec<ServiceConfig> = Vec::new();
        let n = services.len();
        let mut i: usize = 0;
        while i < n
            invariant
                i <= n,
                n == sv.len(),
                services.deep_view() == sv,
                forall |p: int, q: int|
                    0 <= p < q < kept.deep_view().len() ==> kept.deep_view()[p].id
                        != kept.deep_view()[q].id,
                forall |j: int| #![auto]
                    0 <= j < i ==> spec_registry_find(kept.deep_view(), sv[j].id) is Some,
                forall |k: Seq<char>|
                    #![trigger spec_registry_find(kept.deep_view(), k)]
                    spec_registry_find(kept.deep_view(), k) is Some ==> exists |j: int| #![auto]
                        0 <= j < i && sv[j].id == k && spec_registry_find(kept.deep_view(), k)
                            == Some(sv[j]),
            decreases n - i,
        {
            let service = services[i].clone();
            let ghost svc = service@;
            let ghost before = kept.deep_view();
            Self::upsert_service(&mut kept, service);
            proof {
                let kv = kept.deep_view();
                lemma_registry_upsert(before, svc, svc.id);
                assert forall |k: Seq<char>|
                    #![trigger spec_registry_find(kv, k)]
                    spec_registry_find(kv, k) is Some implies exists |j: int| #![auto]
                        0 <= j < i + 1 && sv[j].id == k && spec_registry_find(kv, k) == Some(
                        sv[j],
                    ) by {
                    lemma_registry_upsert(before, svc, k);
                    if k == svc.id {
                        assert(sv[i as int].id == k && spec_registry_find(kv, k) == Some(
                            sv[i as int],
                        ));
                    }
                }
                assert forall |j: int| 0 <= j < i + 1 implies spec_registry_find(
                    kv,
                    #[trigger] sv[j].id,
                ) is Some by {
                    lemma_registry_upsert(before, svc, sv[j].id);
                }
            }
            i = i + 1;
        }
        ServiceRegistry { services: kept }
    }

    /// The configured service with id `service_id`, if any.
    pub fn get(&self, service_id: &str) -> (r: Option<&ServiceConfig>)
        ensures
            r is Some <==> spec_registry_find(self@.services, service_id@) is Some,
            r matches Some(s) ==> spec_registry_find(self@.services, service_id@) == Some(s@),
    {
        let ghost sv = self@.services;
        let n = self.services.len();
        let mut i: usize = 0;
        while i < n
            invariant
                i <= n,
                n == sv.len(),
                sv == self@.services,
                forall |j: int| 0 <= j < i ==> (#[trigger] sv[j]).id != service_id@,
            decreases n - i,
        {
            if str_eq(self.services[i].id.as_str(), service_id) {
                proof {
                    assert(sv[i as int].id == service_id@);
                    lemma_key_index_at(sv, service_id@, i as int);
                }
                return Some(&self.services[i]);
            }
            i = i + 1;
        }
        proof {
            lemma_key_index(sv, service_id@);
        }
        None
    }

    /// All configured services, in registry order.
    pub fn list(&self) -> (r: Vec<&ServiceConfig>)
        ensures
            r@.len() == self@.services.len(),
            forall |i: int| 0 <= i < r@.len() ==> (#[trigger] r@[i])@ == self@.services[i],
    {
        let mut out: Vec<&ServiceConfig> = Vec::new();
        let n = self.services.len();
        let mut i: usize = 0;
        while i < n
            invariant
                i <= n,
                n == self@.services.len(),
                out@.len() == i,
                forall |j: int| 0 <= j < i ==> (#[trigger] out@[j])@ == self@.services[j],
            decreases n - i,
        {
            out.push(&self.services[i]);
            i = i + 1;
        }
        out
    }

    /// Whether a service with id `service_id` is registered.
    pub fn contains(&self, service_id: &str) -> (r: bool)
        ensures
            r == (spec_registry_find(self@.services, service_id@) is Some),
    {
        self.get(service_id).is_some()
    }

    /// Store `service`, replacing the first entry with its id or appending.
    fn upsert_service(services: &mut Vec<ServiceConfig>, service: ServiceConfig)
        ensures
            final(services).deep_view() == spec_registry_upsert(
                old(services).deep_view(),
                service@,
            ),
            (forall |p: int, q: int|
                0 <= p < q < old(services).deep_view().len()
                    ==> old(services).deep_view()[p].id != old(services).deep_view()[q].id)
                ==> forall |p: int, q: int|
                0 <= p < q < final(services).deep_view().len()
                    ==> final(services).deep_view()[p].id != final(services).deep_view()[q].id,
    {
        let ghost before = services.deep_view();
        let ghost sview = service@;
        let n = services.len();
        let mut i: usize = 0;
        while i < n
            invariant
                i <= n,
                n == services.deep_view().len(),
                services.deep_view() == before,
                before == old(services).deep_view(),
                sview == service@,
                forall |j: int| 0 <= j < i ==> (#[trigger] before[j]).id != sview.id,
            decreases n - i,
        {
            if str_eq(services[i].id.as_str(), service.id.as_str()) {
                proof {
                    assert(before[i as int].id == sview.id);
                    lemma_key_index_at(before, sview.id, i as int);
                }
                services.set(i, service);
                proof {
                    assert(services.deep_view() =~= before.update(i as int, sview));
                }
                return;
            }
            i = i + 1;
        }
        proof {
            lemma_key_index(before, sview.id);
        }
        services.push(service);
        proof {
            assert(services.deep_view() =~= before.push(sview));
        }
    }
}

/// The registry's entries after storing `s`: replaces the entry with `s`'s
/// id, or appends.
pub open spec fn spec_registry_upsert(services: Seq<ServiceConfigView>, s: ServiceConfigView) -> Seq<
    ServiceConfigView,
> {
    let m = spec_key_index(services, s.id);
    if m == -1 {
        services.push(s)
    } else {
        services.update(m, s)
    }
}

/// Replacing the entry for `s`'s id changes that id's lookup to `s` and no
/// other id's lookup at all.
pub proof fn lemma_registry_upsert(services: Seq<ServiceConfigView>, s: ServiceConfigView, k: Seq<char>)
    ensures
        k == s.id ==> spec_registry_find(spec_registry_upsert(services, s), k) == Some(s),
        k != s.id ==> spec_registry_find(spec_registry_upsert(services, s), k)
            == spec_registry_find(services, k),
{
    let up = spec_registry_upsert(services, s);
    lemma_key_index(services, s.id);
    let mc = spec_key_index(services, s.id);
    if k == s.id {
        if mc == -1 {
            assert(up[services.len() as int] == s);
            assert forall |j: int| 0 <= j < services.len() as int implies (#[trigger] up[j]).key()
                != k by {
                assert(up[j] == services[j]);
            }
            lemma_key_index_at(up, k, services.len() as int);
        } else {
            assert(up[mc] == s);
            assert forall |j: int| 0 <= j < mc implies (#[trigger] up[j]).key() != k by {
                assert(up[j] == services[j]);
            }
            lemma_key_index_at(up, k, mc);
        }
    } else {
        lemma_key_index(services, k);
        let mk = spec_key_index(services, k);
        if mk == -1 {
            assert forall |j: int| 0 <= j < up.len() as int implies (#[trigger] up[j]).key()
                != k by {
                if mc == -1 {
                    if j < services.len() {
                        assert(up[j] == services[j]);
                    } else {
                        assert(up[j] == s);
                    }
                } else {
                    if j != mc {
                        assert(up[j] == services[j]);
                    } else {
                        assert(up[j] == s);
                    }
                }
            }
            crate::lookup::lemma_key_index_none(up, k);
        } else {
            assert(services[mk].key() == k);
            assert(mk != mc);
            assert(up[mk] == services[mk]);
            assert forall |j: int| 0 <= j < mk implies (#[trigger] up[j]).key() != k by {
                if mc != -1 && j == mc {
                    assert(up[j] == s);
                } else {
                    assert(up[j] == services[j]);
                }
            }
            lemma_key_index_at(up, k, mk);
        }
    }
}

} // verus!
