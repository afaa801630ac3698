//! The registry of discovery handlers known to the agent.
use vstd::prelude::*;
use crate::text::{owned, str_eq};

verus! {

/// Where a discovery handler can be reached.
#[derive(PartialEq, Eq, Clone, Debug)]
pub enum DiscoveryHandlerEndpoint {
    /// Inside the agent.
    Embedded,
    /// On a unix domain socket at this path.
    Uds(String),
    /// At this network address.
    Network(String),
}

/// Abstract value of an endpoint.
pub enum EndpointView {
    Embedded,
    Uds(Seq<char>),
    Network(Seq<char>),
}

impl View for DiscoveryHandlerEndpoint {
    type V = EndpointView;

    open spec fn view(&self) -> EndpointView {
        match self {
            DiscoveryHandlerEndpoint::Embedded => EndpointView::Embedded,
            DiscoveryHandlerEndpoint::Uds(s) => EndpointView::Uds(s@),
            DiscoveryHandlerEndpoint::Network(s) => EndpointView::Network(s@),
        }
    }
}

impl DiscoveryHandlerEndpoint {
    /// Whether two endpoints are equal.
    pub fn same_as(&self, other: &DiscoveryHandlerEndpoint) -> (r: bool)
        ensures
            r == (self@ == other@),
    {
        match (self, other) {
            (DiscoveryHandlerEndpoint::Embedded, DiscoveryHandlerEndpoint::Embedded) => true,
            (DiscoveryHandlerEndpoint::Uds(a), DiscoveryHandlerEndpoint::Uds(b)) => *a == *b,
            (DiscoveryHandlerEndpoint::Network(a), DiscoveryHandlerEndpoint::Network(b)) => *a == *b,
            _ => false,
        }
    }

    /// A copy of the endpoint.
    pub fn copy(&self) -> (e: DiscoveryHandlerEndpoint)
        ensures
            e@ == self@,
    {
        match self {
            DiscoveryHandlerEndpoint::Embedded => DiscoveryHandlerEndpoint::Embedded,
            DiscoveryHandlerEndpoint::Uds(s) => DiscoveryHandlerEndpoint::Uds(s.clone()),
            DiscoveryHandlerEndpoint::Network(s) => DiscoveryHandlerEndpoint::Network(s.clone()),
        }
    }
}

/// How a registering discovery handler says it can be reached.
#[derive(PartialEq, Eq, Structural, Clone, Copy, Debug)]
pub enum EndpointType {
    /// A unix domain socket path.
    Uds,
    /// A network address.
    Network,
}

/// The endpoint of a registering discovery handler.
pub fn create_discovery_handler_endpoint(endpoint: &str, endpoint_type: EndpointType) -> (e: DiscoveryHandlerEndpoint)
    ensures
        e@ == (match endpoint_type {
            EndpointType::Network => EndpointView::Network(endpoint@),
            EndpointType::Uds => EndpointView::Uds(endpoint@),
        }),
{
    match endpoint_type {
        EndpointType::Network => DiscoveryHandlerEndpoint::Network(owned(endpoint)),
        EndpointType::Uds => DiscoveryHandlerEndpoint::Uds(owned(endpoint)),
    }
}

/// A registered discovery handler.
pub struct DiscoveryDetails {
    /// Name of the discovery handler.
    pub name: String,
    /// Where it can be reached.
    pub endpoint: DiscoveryHandlerEndpoint,
    /// Whether the devices it discovers can be seen by several nodes.
    pub shared: bool,
}

/// What registering a discovery handler did.
#[derive(PartialEq, Eq, Structural, Clone, Copy, Debug)]
pub enum RegistrationOutcome {
    /// The same handler was already registered: nothing changed.
    AlreadyRegistered,
    /// The handler is new.
    Added,
    /// A handler at the same endpoint with a different request was replaced; its connections must be closed.
    Replaced,
}

/// The registered discovery handlers, by name and endpoint.
pub struct DiscoveryHandlerRegistry {
    handlers: Vec<DiscoveryDetails>,
}

/// The identity of a registration: the handler's name and endpoint.
pub open spec fn registration_key(d: DiscoveryDetails) -> (Seq<char>, EndpointView) {
    (d.name@, d.endpoint@)
}

/// Registrations of a list are pairwise distinct.
pub open spec fn registrations_distinct(s: Seq<DiscoveryDetails>) -> bool {
    forall|i: int, j: int| 0 <= i < s.len() && 0 <= j < s.len() && i != j ==> registration_key(s[i]) != registration_key(s[j])
}

/// The registry as a map from (name, endpoint) to whether the handler is shared.
pub open spec fn registry_map(s: Seq<DiscoveryDetails>) -> Map<(Seq<char>, EndpointView), bool> {
    Map::new(
        |k: (Seq<char>, EndpointView)| exists|i: int| 0 <= i < s.len() && registration_key(s[i]) == k,
        |k: (Seq<char>, EndpointView)| s[choose|i: int| 0 <= i < s.len() && registration_key(s[i]) == k].shared,
    )
}

proof fn lemma_registry_value(s: Seq<DiscoveryDetails>, i: int)
    requires
        registrations_distinct(s),
        0 <= i < s.len(),
    ensures
        registry_map(s).dom().contains(registration_key(s[i])),
        registry_map(s)[registration_key(s[i])] == s[i].shared,
{
    let k = registration_key(s[i]);
    assert(exists|j: int| 0 <= j < s.len() && registration_key(s[j]) == k);
    let j = choose|j: int| 0 <= j < s.len() && registration_key(s[j]) == k;
    assert(i == j);
}

impl View for DiscoveryHandlerRegistry {
    type V = Map<(Seq<char>, EndpointView), bool>;

    closed spec fn view(&self) -> Map<(Seq<char>, EndpointView), bool> {
        registry_map(self.handlers@)
    }
}

impl DiscoveryHandlerRegistry {
    #[verifier::type_invariant]
    spec fn inv(self) -> bool {
        registrations_distinct(self.handlers@)
    }

    /// No handler registered.
    pub fn new() -> (r: DiscoveryHandlerRegistry)
        ensures
            r@ == Map::<(Seq<char>, EndpointView), bool>::empty(),
    {
        let r = DiscoveryHandlerRegistry { handlers: Vec::new() };
        assert(r@ =~= Map::<(Seq<char>, EndpointView), bool>::empty());
        r
    }

    fn find(&self, name: &str, endpoint: &DiscoveryHandlerEndpoint) -> (r: Option<usize>)
        ensures
            r matches Some(i) ==> i < self.handlers@.len() && registration_key(self.handlers@[i as int]) == (name@, endpoint@),
            r is None ==> forall|j: int| 0 <= j < self.handlers@.len() ==> registration_key(self.handlers@[j]) != (name@, endpoint@),
    {
        let mut i: usize = 0;
        while i < self.handlers.len()
            invariant
                i <= self.handlers@.len(),
                forall|j: int| 0 <= j < i ==> registration_key(self.handlers@[j]) != (name@, endpoint@),
            decreases self.handlers.len() - i,
        {
            if str_eq(self.handlers[i].name.as_str(), name) && self.handlers[i].endpoint.same_as(endpoint) {
                return Some(i);
            }
            i = i + 1;
        }
        None
    }

    /// Registers the handler `name` at `endpoint`. A handler already registered
    /// at that endpoint with the same request is left as it is; one with a
    /// different request is replaced.
    pub fn register(&mut self, name: &str, endpoint: &DiscoveryHandlerEndpoint, shared: bool) -> (outcome: RegistrationOutcome)
        ensures
            final(self)@ == old(self)@.insert((name@, endpoint@), shared),
            outcome == (if !old(self)@.dom().contains((name@, endpoint@)) {
                RegistrationOutcome::Added
            } else if old(self)@[(name@, endpoint@)] == shared {
                RegistrationOutcome::AlreadyRegistered
            } else {
                RegistrationOutcome::Replaced
            }),
    {
        proof {
            use_type_invariant(&*self);
        }
        let ghost old_s = self.handlers@;
        let details = DiscoveryDetails { name: owned(name), endpoint: endpoint.copy(), shared };
        match self.find(name, endpoint) {
            Some(i) => {
                proof {
                    lemma_registry_value(old_s, i as int);
                }
                if self.handlers[i].shared == shared {
                    assert(old_s[i as int] == self.handlers@[i as int]);
                    assert(self@ =~= old(self)@.insert((name@, endpoint@), shared));
                    return RegistrationOutcome::AlreadyRegistered;
                }
                let mut handlers: Vec<DiscoveryDetails> = Vec::new();
                std::mem::swap(&mut handlers, &mut self.handlers);
                handlers.set(i, details);
                proof {
                    let s = handlers@;
                    assert(registrations_distinct(s));
                    assert forall|k: (Seq<char>, EndpointView)| #[trigger] registry_map(s).dom().contains(k) <==> registry_map(old_s).insert((name@, endpoint@), shared).dom().contains(k) by {
                        if registry_map(old_s).dom().contains(k) {
                            let j = choose|j: int| 0 <= j < old_s.len() && registration_key(old_s[j]) == k;
                            assert(registration_key(s[j]) == k);
                        }
                        if registry_map(s).dom().contains(k) {
                            let j = choose|j: int| 0 <= j < s.len() && registration_key(s[j]) == k;
                            if j != i {
                                assert(registration_key(old_s[j]) == k);
                            }
                        }
                    }
                    assert forall|k: (Seq<char>, EndpointView)| #[trigger] registry_map(s).dom().contains(k) implies registry_map(s)[k] == registry_map(old_s).insert((name@, endpoint@), shared)[k] by {
                        let j = choose|j: int| 0 <= j < s.len() && registration_key(s[j]) == k;
                        lemma_registry_value(s, j);
                        if j != i {
                            lemma_registry_value(old_s, j);
                        }
                    }
                    assert(registry_map(s) =~= registry_map(old_s).insert((name@, endpoint@), shared));
                }
                self.handlers = handlers;
                RegistrationOutcome::Replaced
            },
            None => {
                let mut handlers: Vec<DiscoveryDetails> = Vec::new();
                std::mem::swap(&mut handlers, &mut self.handlers);
                handlers.push(details);
                proof {
                    let s = handlers@;
                    assert(registrations_distinct(s));
                    assert(!registry_map(old_s).dom().contains((name@, endpoint@)));
                    assert forall|k: (Seq<char>, EndpointView)| #[trigger] registry_map(s).dom().contains(k) <==> registry_map(old_s).insert((name@, endpoint@), shared).dom().contains(k) by {
                        if registry_map(old_s).dom().contains(k) {
                            let j = choose|j: int| 0 <= j < old_s.len() && registration_key(old_s[j]) == k;
                            assert(registration_key(s[j]) == k);
                        }
                        if k == (name@, endpoint@) {
                            assert(registration_key(s[s.len() - 1]) == k);
                        }
                        if registry_map(s).dom().contains(k) {
                            let j = choose|j: int| 0 <= j < s.len() && registration_key(s[j]) == k;
                            if j < old_s.len() {
                                assert(registration_key(old_s[j]) == k);
                            }
                        }
                    }
                    assert forall|k: (Seq<char>, EndpointView)| #[trigger] registry_map(s).dom().contains(k) implies registry_map(s)[k] == registry_map(old_s).insert((name@, endpoint@), shared)[k] by {
                        let j = choose|j: int| 0 <= j < s.len() && registration_key(s[j]) == k;
                        lemma_registry_value(s, j);
                        if j < old_s.len() {
                            assert(s[j] == old_s[j]);
                            lemma_registry_value(old_s, j);
                        }
                    }
                    assert(registry_map(s) =~= registry_map(old_s).insert((name@, endpoint@), shared));
                }
                self.handlers = handlers;
                RegistrationOutcome::Added
            },
        }
    }

    /// Registers the handler `name` at `endpoint` alone: any other endpoint
    /// registered under `name` is dropped, as an embedded handler replaces
    /// whatever was registered under its name.
    pub fn register_only(&mut self, name: &str, endpoint: &DiscoveryHandlerEndpoint, shared: bool)
        ensures
            forall|k: (Seq<char>, EndpointView)| #[trigger] final(self)@.dom().contains(k)
                <==> ((old(self)@.dom().contains(k) && k.0 != name@) || k == (name@, endpoint@)),
            forall|k: (Seq<char>, EndpointView)| #[trigger] final(self)@.dom().contains(k)
                ==> final(self)@[k] == (if k == (name@, endpoint@) { shared } else { old(self)@[k] }),
    {
        proof {
            use_type_invariant(&*self);
        }
        let ghost old_s = self.handlers@;
        let mut rest: Vec<DiscoveryDetails> = Vec::new();
        std::mem::swap(&mut rest, &mut self.handlers);
        let mut kept: Vec<DiscoveryDetails> = Vec::new();
        while rest.len() > 0
            invariant
                rest@ == old_s.subrange(0, rest@.len() as int),
                rest@.len() <= old_s.len(),
                registrations_distinct(old_s),
                registrations_distinct(kept@),
                forall|j: int| 0 <= j < kept@.len() ==> #[trigger] kept_from(old_s, rest@.len() as int, name@, kept@[j]),
                forall|t: int| rest@.len() <= t < old_s.len() && old_s[t].name@ != name@ ==> #[trigger] kept_has(kept@, old_s[t]),
            decreases rest@.len(),
        {
            let ghost before = kept@;
            let ghost n: int = rest@.len() as int;
            let d = rest.pop().unwrap();
            assert(d == old_s[n - 1]);
            if !str_eq(d.name.as_str(), name) {
                kept.push(d);
                proof {
                    assert forall|a: int, b: int| 0 <= a < kept@.len() && 0 <= b < kept@.len() && a != b
                        implies registration_key(kept@[a]) != registration_key(kept@[b]) by {
                        if a < before.len() && b < before.len() {
                            assert(before[a] == kept@[a] && before[b] == kept@[b]);
                        } else {
                            let o = if a < before.len() { a } else { b };
                            assert(kept_from(old_s, n, name@, before[o]));
                            let t = choose|t: int| n <= t < old_s.len() && old_s[t] == before[o] && old_s[t].name@ != name@;
                            assert(registration_key(old_s[t]) != registration_key(old_s[n - 1]));
                        }
                    }
                }
            }
            proof {
                assert forall|j: int| 0 <= j < kept@.len() implies #[trigger] kept_from(old_s, n - 1, name@, kept@[j]) by {
                    if j < before.len() {
                        assert(before[j] == kept@[j]);
                        assert(kept_from(old_s, n, name@, before[j]));
                        let t = choose|t: int| n <= t < old_s.len() && old_s[t] == before[j] && old_s[t].name@ != name@;
                        assert(n - 1 <= t < old_s.len() && old_s[t] == kept@[j] && old_s[t].name@ != name@);
                    } else {
                        assert(old_s[n - 1] == kept@[j]);
                    }
                }
                assert forall|t: int| n - 1 <= t < old_s.len() && old_s[t].name@ != name@ implies #[trigger] kept_has(kept@, old_s[t]) by {
                    if t >= n {
                        assert(kept_has(before, old_s[t]));
                        let j = choose|j: int| 0 <= j < before.len() && before[j] == old_s[t];
                        assert(kept@[j] == before[j]);
                    } else {
                        assert(kept@[kept@.len() - 1] == old_s[t]);
                    }
                }
                assert(rest@ =~= old_s.subrange(0, rest@.len() as int));
            }
        }
        let details = DiscoveryDetails { name: owned(name), endpoint: endpoint.copy(), shared };
        let ghost before = kept@;
        kept.push(details);
        proof {
            let s = kept@;
            let last = s.len() - 1;
            assert forall|a: int, b: int| 0 <= a < s.len() && 0 <= b < s.len() && a != b
                implies registration_key(s[a]) != registration_key(s[b]) by {
                if a < before.len() && b < before.len() {
                    assert(before[a] == s[a] && before[b] == s[b]);
                } else {
                    let o = if a < before.len() { a } else { b };
                    assert(kept_from(old_s, 0, name@, before[o]));
                    assert(s[o] == before[o]);
                }
            }
            assert(registrations_distinct(s));
            let key = (name@, endpoint@);
            assert(registration_key(s[last]) == key);
            assert forall|k: (Seq<char>, EndpointView)| #[trigger] registry_map(s).dom().contains(k)
                <==> ((registry_map(old_s).dom().contains(k) && k.0 != name@) || k == key) by {
                if registry_map(s).dom().contains(k) {
                    let j = choose|j: int| 0 <= j < s.len() && registration_key(s[j]) == k;
                    if j < before.len() {
                        assert(s[j] == before[j]);
                        assert(kept_from(old_s, 0, name@, before[j]));
                        let t = choose|t: int| 0 <= t < old_s.len() && old_s[t] == before[j] && old_s[t].name@ != name@;
                        assert(registration_key(old_s[t]) == k);
                    }
                }
                if registry_map(old_s).dom().contains(k) && k.0 != name@ {
                    let t = choose|t: int| 0 <= t < old_s.len() && registration_key(old_s[t]) == k;
                    assert(kept_has(before, old_s[t]));
                    let j = choose|j: int| 0 <= j < before.len() && before[j] == old_s[t];
                    assert(registration_key(s[j]) == k);
                }
                if k == key {
                    assert(registration_key(s[last]) == k);
                }
            }
            assert forall|k: (Seq<char>, EndpointView)| #[trigger] registry_map(s).dom().contains(k)
                implies registry_map(s)[k] == (if k == key { shared } else { registry_map(old_s)[k] }) by {
                let j = choose|j: int| 0 <= j < s.len() && registration_key(s[j]) == k;
                lemma_registry_value(s, j);
                if j < before.len() {
                    assert(s[j] == before[j]);
                    assert(kept_from(old_s, 0, name@, before[j]));
                    let t = choose|t: int| 0 <= t < old_s.len() && old_s[t] == before[j] && old_s[t].name@ != name@;
                    lemma_registry_value(old_s, t);
                }
            }
        }
        self.handlers = kept;
    }

    /// The endpoints and sharing of every handler registered under `name`.
    pub fn handlers_named(&self, name: &str) -> (r: Vec<(DiscoveryHandlerEndpoint, bool)>)
        ensures
            forall|e: EndpointView| self@.dom().contains((name@, e)) <==> listed(r@, e),
            forall|i: int| 0 <= i < r@.len() ==> self@.dom().contains((name@, r@[i].0@)) && self@[(name@, r@[i].0@)] == #[trigger] r@[i].1,
    {
        proof {
            use_type_invariant(self);
        }
        let ghost s = self.handlers@;
        let mut r: Vec<(DiscoveryHandlerEndpoint, bool)> = Vec::new();
        let mut i: usize = 0;
        while i < self.handlers.len()
            invariant
                s == self.handlers@,
                i <= s.len(),
                registrations_distinct(s),
                forall|e: EndpointView| #[trigger] found_before(s, i as int, name@, e) <==> listed(r@, e),
                forall|k: int| 0 <= k < r@.len() ==> backed_before(s, i as int, name@, #[trigger] r@[k]),
            decreases s.len() - i,
        {
            let ghost old_r = r@;
            if str_eq(self.handlers[i].name.as_str(), name) {
                r.push((self.handlers[i].endpoint.copy(), self.handlers[i].shared));
            }
            proof {
                assert forall|e: EndpointView| #[trigger] found_before(s, i + 1, name@, e) <==> listed(r@, e) by {
                    lemma_found_step(s, i as int, name@, e);
                    if r@.len() > old_r.len() {
                        lemma_listed_push(old_r, r@[r@.len() - 1], e);
                        assert(r@ == old_r.push(r@[r@.len() - 1]));
                    } else {
                        assert(r@ == old_r);
                    }
                }
                assert forall|k: int| 0 <= k < r@.len() implies backed_before(s, i + 1, name@, #[trigger] r@[k]) by {
                    if k < old_r.len() {
                        assert(r@[k] == old_r[k]);
                        lemma_backed_grow(s, i as int, name@, r@[k]);
                    } else {
                        assert(registration_key(s[i as int]) == (name@, r@[k].0@) && s[i as int].shared == r@[k].1);
                    }
                }
            }
            i = i + 1;
        }
        proof {
            assert forall|e: EndpointView| self@.dom().contains((name@, e)) <==> listed(r@, e) by {
                assert(found_before(s, s.len() as int, name@, e) <==> listed(r@, e));
            }
            assert forall|k: int| 0 <= k < r@.len() implies self@.dom().contains((name@, r@[k].0@)) && self@[(name@, r@[k].0@)] == #[trigger] r@[k].1 by {
                assert(backed_before(s, s.len() as int, name@, r@[k]));
                let j = choose|j: int| 0 <= j < s.len() && registration_key(s[j]) == (name@, r@[k].0@) && s[j].shared == r@[k].1;
                lemma_registry_value(s, j);
            }
        }
        r
    }
}

/// `d` stands in `s` at or after position `from`, under a name other than `name`.
pub open spec fn kept_from(s: Seq<DiscoveryDetails>, from: int, name: Seq<char>, d: DiscoveryDetails) -> bool {
    exists|t: int| from <= t < s.len() && s[t] == d && s[t].name@ != name
}

/// `d` is among `kept`.
pub open spec fn kept_has(kept: Seq<DiscoveryDetails>, d: DiscoveryDetails) -> bool {
    exists|j: int| 0 <= j < kept.len() && kept[j] == d
}

/// An endpoint is among those listed.
pub open spec fn listed(r: Seq<(DiscoveryHandlerEndpoint, bool)>, e: EndpointView) -> bool {
    exists|k: int| 0 <= k < r.len() && #[trigger] r[k].0@ == e
}

/// A handler named `name` at `e` stands among the first `n` registrations.
pub open spec fn found_before(s: Seq<DiscoveryDetails>, n: int, name: Seq<char>, e: EndpointView) -> bool {
    exists|j: int| 0 <= j < n && #[trigger] registration_key(s[j]) == (name, e)
}

/// A registration among the first `n` has the name, endpoint and sharing of `p`.
pub open spec fn backed_before(s: Seq<DiscoveryDetails>, n: int, name: Seq<char>, p: (DiscoveryHandlerEndpoint, bool)) -> bool {
    exists|j: int| 0 <= j < n && #[trigger] registration_key(s[j]) == (name, p.0@) && s[j].shared == p.1
}

proof fn lemma_found_step(s: Seq<DiscoveryDetails>, n: int, name: Seq<char>, e: EndpointView)
    requires
        0 <= n < s.len(),
    ensures
        found_before(s, n + 1, name, e) <==> (found_before(s, n, name, e) || registration_key(s[n]) == (name, e)),
{
    if found_before(s, n + 1, name, e) && registration_key(s[n]) != (name, e) {
        let j = choose|j: int| 0 <= j < n + 1 && #[trigger] registration_key(s[j]) == (name, e);
        assert(j < n);
    }
}

proof fn lemma_listed_push(r: Seq<(DiscoveryHandlerEndpoint, bool)>, x: (DiscoveryHandlerEndpoint, bool), e: EndpointView)
    ensures
        listed(r.push(x), e) <==> (listed(r, e) || x.0@ == e),
{
    let r2 = r.push(x);
    if listed(r, e) {
        let k = choose|k: int| 0 <= k < r.len() && #[trigger] r[k].0@ == e;
        assert(r2[k] == r[k]);
    }
    if x.0@ == e {
        assert(r2[r.len() as int] == x);
    }
    if listed(r2, e) && x.0@ != e {
        let k = choose|k: int| 0 <= k < r2.len() && #[trigger] r2[k].0@ == e;
        assert(r2[k] == r[k]);
    }
}

proof fn lemma_backed_grow(s: Seq<DiscoveryDetails>, n: int, name: Seq<char>, p: (DiscoveryHandlerEndpoint, bool))
    requires
        backed_before(s, n, name, p),
    ensures
        backed_before(s, n + 1, name, p),
{
    let j = choose|j: int| 0 <= j < n && #[trigger] registration_key(s[j]) == (name, p.0@) && s[j].shared == p.1;
    assert(0 <= j < n + 1);
}

/// Registering the same handler twice in a row leaves the registry as the first
/// registration left it, and the second registration reports it was already there.
pub proof fn lemma_register_idempotent(m: Map<(Seq<char>, EndpointView), bool>, name: Seq<char>, e: EndpointView, shared: bool)
    ensures
        m.insert((name, e), shared).insert((name, e), shared) == m.insert((name, e), shared),
        m.insert((name, e), shared).dom().contains((name, e)) && m.insert((name, e), shared)[(name, e)] == shared,
{
    assert(m.insert((name, e), shared).insert((name, e), shared) =~= m.insert((name, e), shared));
}

/// Name of the embedded debug echo discovery handler.
pub const DEBUG_ECHO_NAME: &'static str = "debugEcho";

/// Name of the embedded ONVIF discovery handler.
pub const ONVIF_NAME: &'static str = "onvif";

/// Name of the embedded udev discovery handler.
pub const UDEV_NAME: &'static str = "udev";

/// Name of the embedded OPC UA discovery handler.
pub const OPCUA_NAME: &'static str = "opcua";

/// The embedded discovery handlers to register, with whether each is shared:
/// debug echo when enabled (shared as its setting says), then ONVIF (shared),
/// udev (not shared) and OPC UA (shared) when built in.
pub fn embedded_discovery_handlers(
    debug_echo_shared: Option<&str>,
    onvif: bool,
    udev: bool,
    opcua: bool,
) -> (handlers: Vec<(String, bool)>)
    requires
        debug_echo_shared matches Some(v) ==> (v@ == "true"@ || v@ == "false"@),
    ensures
        handlers@.map_values(|h: (String, bool)| (h.0@, h.1)) == (match debug_echo_shared {
            Some(v) => seq![(DEBUG_ECHO_NAME@, v@ == "true"@)],
            None => Seq::empty(),
        }) + (if onvif { seq![(ONVIF_NAME@, true)] } else { Seq::empty() })
            + (if udev { seq![(UDEV_NAME@, false)] } else { Seq::empty() })
            + (if opcua { seq![(OPCUA_NAME@, true)] } else { Seq::empty() }),
{
    proof {
        reveal_strlit("true");
        reveal_strlit("false");
    }
    let mut handlers: Vec<(String, bool)> = Vec::new();
    let ghost mut expected: Seq<(Seq<char>, bool)> = Seq::empty();
    if let Some(v) = debug_echo_shared {
        let shared = str_eq(v, "true");
        handlers.push((owned(DEBUG_ECHO_NAME), shared));
        proof {
            expected = seq![(DEBUG_ECHO_NAME@, v@ == "true"@)];
        }
    }
    assert(handlers@.map_values(|h: (String, bool)| (h.0@, h.1)) =~= expected);
    if onvif {
        handlers.push((owned(ONVIF_NAME), true));
    }
    proof {
        expected = expected + (if onvif { seq![(ONVIF_NAME@, true)] } else { Seq::empty() });
    }
    assert(handlers@.map_values(|h: (String, bool)| (h.0@, h.1)) =~= expected);
    if udev {
        handlers.push((owned(UDEV_NAME), false));
    }
    proof {
        expected = expected + (if udev { seq![(UDEV_NAME@, false)] } else { Seq::empty() });
    }
    assert(handlers@.map_values(|h: (String, bool)| (h.0@, h.1)) =~= expected);
    if opcua {
        handlers.push((owned(OPCUA_NAME), true));
    }
    proof {
        expected = expected + (if opcua { seq![(OPCUA_NAME@, true)] } else { Seq::empty() });
    }
    assert(handlers@.map_values(|h: (String, bool)| (h.0@, h.1)) =~= expected);
    handlers
}

} // verus!
