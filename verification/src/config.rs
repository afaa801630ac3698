//! Akri Configurations as the agent and controller read them, and the
//! decisions taken when a Configuration is applied again.
use vstd::prelude::*;
use crate::props::PropMap;

verus! {

/// A reference to a key of a ConfigMap or Secret.
pub struct DiscoveryPropertyKeySelector {
    /// The key to select.
    pub key: String,
    /// Name of the ConfigMap or Secret.
    pub name: String,
    /// Namespace of the ConfigMap or Secret.
    pub namespace: String,
    /// Whether the ConfigMap or Secret and its key may be missing.
    pub optional: Option<bool>,
}

/// Where a discovery property's value comes from.
pub enum DiscoveryPropertySource {
    /// A key of a ConfigMap.
    ConfigMapKeyRef(DiscoveryPropertyKeySelector),
    /// A key of a Secret.
    SecretKeyRef(DiscoveryPropertyKeySelector),
}

/// A property handed to discovery handlers.
pub struct DiscoveryProperty {
    /// Name of the property.
    pub name: String,
    /// A literal value, if any.
    pub value: Option<String>,
    /// Where to read the value from, if there is no literal value.
    pub value_from: Option<DiscoveryPropertySource>,
}

/// Which discovery handler a Configuration uses and what it passes it.
pub struct DiscoveryHandlerInfo {
    /// Name of the discovery handler.
    pub name: String,
    /// Handler-specific details, as text.
    pub discovery_details: String,
    /// Properties handed to the handler.
    pub discovery_properties: Option<Vec<DiscoveryProperty>>,
}

/// How brokers of a Configuration are rolled out.
pub struct DeploymentStrategy {
    /// Incremented when the brokers must be redeployed.
    pub broker_generation: i32,
    /// The rest of the strategy (the broker's Pod or Job spec), serialized.
    pub broker_type: String,
}

/// The specification of a Configuration.
pub struct ConfigurationSpec {
    /// The discovery handler to use.
    pub discovery_handler: DiscoveryHandlerInfo,
    /// Number of slots of each Instance.
    pub capacity: i32,
    /// Properties injected into brokers.
    pub broker_properties: PropMap,
    /// Broker rollout, if any.
    pub deployment_strategy: Option<DeploymentStrategy>,
    /// The remaining fields (broker and service specifications), serialized.
    pub other: String,
}

/// A Configuration resource.
pub struct Configuration {
    /// `metadata.name`.
    pub name: String,
    /// `metadata.namespace`.
    pub namespace: String,
    /// `metadata.uid`.
    pub uid: String,
    /// `metadata.generation`.
    pub generation: Option<i64>,
    /// The specification.
    pub spec: ConfigurationSpec,
}

/// Abstract value of a key selector.
pub struct KeySelectorView {
    pub key: Seq<char>,
    pub name: Seq<char>,
    pub namespace: Seq<char>,
    pub optional: Option<bool>,
}

/// Abstract value of a property source.
pub enum PropertySourceView {
    ConfigMapKeyRef(KeySelectorView),
    SecretKeyRef(KeySelectorView),
}

/// Abstract value of a discovery property.
pub struct PropertyView {
    pub name: Seq<char>,
    pub value: Option<Seq<char>>,
    pub value_from: Option<PropertySourceView>,
}

/// Abstract value of a discovery handler info.
pub struct HandlerView {
    pub name: Seq<char>,
    pub discovery_details: Seq<char>,
    pub discovery_properties: Option<Seq<PropertyView>>,
}

/// Abstract value of a deployment strategy.
pub struct StrategyView {
    pub broker_generation: i32,
    pub broker_type: Seq<char>,
}

/// Abstract value of a Configuration specification.
pub struct SpecView {
    pub discovery_handler: HandlerView,
    pub capacity: i32,
    pub broker_properties: Map<Seq<char>, Seq<char>>,
    pub deployment_strategy: Option<StrategyView>,
    pub other: Seq<char>,
}

impl View for DiscoveryPropertyKeySelector {
    type V = KeySelectorView;

    open spec fn view(&self) -> KeySelectorView {
        KeySelectorView { key: self.key@, name: self.name@, namespace: self.namespace@, optional: self.optional }
    }
}

impl View for DiscoveryPropertySource {
    type V = PropertySourceView;

    open spec fn view(&self) -> PropertySourceView {
        match self {
            DiscoveryPropertySource::ConfigMapKeyRef(s) => PropertySourceView::ConfigMapKeyRef(s@),
            DiscoveryPropertySource::SecretKeyRef(s) => PropertySourceView::SecretKeyRef(s@),
        }
    }
}

impl View for DiscoveryProperty {
    type V = PropertyView;

    open spec fn view(&self) -> PropertyView {
        PropertyView {
            name: self.name@,
            value: match self.value { Some(v) => Some(v@), None => None },
            value_from: match self.value_from { Some(v) => Some(v@), None => None },
        }
    }
}

impl View for DiscoveryHandlerInfo {
    type V = HandlerView;

    open spec fn view(&self) -> HandlerView {
        HandlerView {
            name: self.name@,
            discovery_details: self.discovery_details@,
            discovery_properties: match self.discovery_properties {
                Some(v) => Some(v@.map_values(|p: DiscoveryProperty| p@)),
                None => None,
            },
        }
    }
}

impl View for DeploymentStrategy {
    type V = StrategyView;

    open spec fn view(&self) -> StrategyView {
        StrategyView { broker_generation: self.broker_generation, broker_type: self.broker_type@ }
    }
}

impl View for ConfigurationSpec {
    type V = SpecView;

    open spec fn view(&self) -> SpecView {
        SpecView {
            discovery_handler: self.discovery_handler@,
            capacity: self.capacity,
            broker_properties: self.broker_properties@,
            deployment_strategy: match self.deployment_strategy { Some(d) => Some(d@), None => None },
            other: self.other@,
        }
    }
}

fn opt_string_eq(a: &Option<String>, b: &Option<String>) -> (r: bool)
    ensures
        r == ((match a { Some(v) => Some(v@), None => None::<Seq<char>> }) == (match b { Some(v) => Some(v@), None => None::<Seq<char>> })),
{
    match (a, b) {
        (Some(x), Some(y)) => *x == *y,
        (None, None) => true,
        _ => false,
    }
}

impl DiscoveryPropertyKeySelector {
    /// Whether two selectors are equal.
    pub fn same_as(&self, other: &DiscoveryPropertyKeySelector) -> (r: bool)
        ensures
            r == (self@ == other@),
    {
        self.key == other.key && self.name == other.name && self.namespace == other.namespace
            && self.optional == other.optional
    }
}

impl DiscoveryPropertySource {
    /// Whether two sources are equal.
    pub fn same_as(&self, other: &DiscoveryPropertySource) -> (r: bool)
        ensures
            r == (self@ == other@),
    {
        match (self, other) {
            (DiscoveryPropertySource::ConfigMapKeyRef(a), DiscoveryPropertySource::ConfigMapKeyRef(b)) => a.same_as(b),
            (DiscoveryPropertySource::SecretKeyRef(a), DiscoveryPropertySource::SecretKeyRef(b)) => a.same_as(b),
            _ => false,
        }
    }
}

impl DiscoveryProperty {
    /// Whether two properties are equal.
    pub fn same_as(&self, other: &DiscoveryProperty) -> (r: bool)
        ensures
            r == (self@ == other@),
    {
        let from_same = match (&self.value_from, &other.value_from) {
            (Some(a), Some(b)) => a.same_as(b),
            (None, None) => true,
            _ => false,
        };
        self.name == other.name && opt_string_eq(&self.value, &other.value) && from_same
    }
}

fn properties_same(a: &Vec<DiscoveryProperty>, b: &Vec<DiscoveryProperty>) -> (r: bool)
    ensures
        r == (a@.map_values(|p: DiscoveryProperty| p@) == b@.map_values(|p: DiscoveryProperty| p@)),
{
    let ghost av = a@.map_values(|p: DiscoveryProperty| p@);
    let ghost bv = b@.map_values(|p: DiscoveryProperty| p@);
    if a.len() != b.len() {
        assert(av.len() != bv.len());
        return false;
    }
    let mut i: usize = 0;
    while i < a.len()
        invariant
            a@.len() == b@.len(),
            i <= a@.len(),
            av == a@.map_values(|p: DiscoveryProperty| p@),
            bv == b@.map_values(|p: DiscoveryProperty| p@),
            forall|j: int| 0 <= j < i ==> av[j] == bv[j],
        decreases a.len() - i,
    {
        if !a[i].same_as(&b[i]) {
            assert(av[i as int] != bv[i as int]);
            return false;
        }
        i = i + 1;
    }
    assert(av =~= bv);
    true
}

impl DiscoveryHandlerInfo {
    /// Whether two discovery handler infos are equal.
    pub fn same_as(&self, other: &DiscoveryHandlerInfo) -> (r: bool)
        ensures
            r == (self@ == other@),
    {
        let props_same = match (&self.discovery_properties, &other.discovery_properties) {
            (Some(a), Some(b)) => properties_same(a, b),
            (None, None) => true,
            _ => false,
        };
        self.name == other.name && self.discovery_details == other.discovery_details && props_same
    }
}

impl ConfigurationSpec {
    /// Whether two specifications are equal.
    pub fn same_as(&self, other: &ConfigurationSpec) -> (r: bool)
        ensures
            r == (self@ == other@),
    {
        let strategy_same = match (&self.deployment_strategy, &other.deployment_strategy) {
            (Some(a), Some(b)) => a.broker_generation == b.broker_generation && a.broker_type == b.broker_type,
            (None, None) => true,
            _ => false,
        };
        self.discovery_handler.same_as(&other.discovery_handler) && self.capacity == other.capacity
            && crate::device_plugin::prop_maps_equal(&self.broker_properties, &other.broker_properties)
            && strategy_same && self.other == other.other
    }
}

/// What the agent remembers of a Configuration it handles.
pub struct ConfigState {
    /// `metadata.generation` when last seen.
    pub last_generation: Option<i64>,
    /// The specification when last seen.
    pub last_configuration_spec: ConfigurationSpec,
}

/// The order on optional generations, where a missing generation comes first.
pub open spec fn generation_before(a: Option<i64>, b: Option<i64>) -> bool {
    match (a, b) {
        (None, Some(_)) => true,
        (Some(x), Some(y)) => x < y,
        _ => false,
    }
}

fn generation_less(a: Option<i64>, b: Option<i64>) -> (r: bool)
    ensures
        r == generation_before(a, b),
{
    match (a, b) {
        (None, Some(_)) => true,
        (Some(x), Some(y)) => x < y,
        _ => false,
    }
}

/// Whether only the broker rollout of a specification changed, with a larger
/// broker generation: then the Configuration is kept and its brokers redeployed.
pub open spec fn only_brokers_advanced(prev: SpecView, spec: SpecView) -> bool {
    &&& prev.discovery_handler == spec.discovery_handler
    &&& prev.broker_properties == spec.broker_properties
    &&& prev.capacity == spec.capacity
    &&& prev.deployment_strategy->0.broker_generation < spec.deployment_strategy->0.broker_generation
}

/// Whether an applied Configuration must be deleted and recreated: when its
/// generation went backwards, or increased while the specification changed in
/// more than a larger broker generation, or increased while the specification
/// did not change at all.
pub open spec fn must_recreate(generation: Option<i64>, spec: SpecView, state_generation: Option<i64>, prev: SpecView) -> bool {
    if generation_before(generation, state_generation) {
        true
    } else if generation == state_generation {
        false
    } else if prev != spec {
        !only_brokers_advanced(prev, spec)
    } else {
        true
    }
}

/// When only the broker rollout can have changed, both specifications have one
/// (the decision reads their broker generations).
pub open spec fn strategies_known(config: Configuration, config_state: ConfigState) -> bool {
    !generation_before(config.generation, config_state.last_generation)
        && config.generation != config_state.last_generation
        && config_state.last_configuration_spec@ != config.spec@
        && config_state.last_configuration_spec@.discovery_handler == config.spec@.discovery_handler
        && config_state.last_configuration_spec@.broker_properties == config.spec@.broker_properties
        && config_state.last_configuration_spec@.capacity == config.spec@.capacity
        ==> config_state.last_configuration_spec.deployment_strategy is Some && config.spec.deployment_strategy is Some
}

/// Whether the applied `config` must be recreated given what was last seen of it.
pub fn should_recreate_config(config: &Configuration, config_state: ConfigState) -> (r: bool)
    requires
        strategies_known(*config, config_state),
    ensures
        r == must_recreate(config.generation, config.spec@, config_state.last_generation, config_state.last_configuration_spec@),
{
    if generation_less(config.generation, config_state.last_generation) {
        true
    } else if config.generation == config_state.last_generation {
        false
    } else {
        let previous = &config_state.last_configuration_spec;
        if !previous.same_as(&config.spec) {
            let same_rest = previous.discovery_handler.same_as(&config.spec.discovery_handler)
                && crate::device_plugin::prop_maps_equal(&previous.broker_properties, &config.spec.broker_properties)
                && previous.capacity == config.spec.capacity;
            if !same_rest {
                true
            } else {
                let prev_gen = match &previous.deployment_strategy {
                    Some(d) => d.broker_generation,
                    None => 0,
                };
                let cur_gen = match &config.spec.deployment_strategy {
                    Some(d) => d.broker_generation,
                    None => 0,
                };
                !(prev_gen < cur_gen)
            }
        } else {
            true
        }
    }
}

/// An event of the Configuration watcher.
pub enum ConfigEvent {
    /// A Configuration was added or modified.
    Applied(Configuration),
    /// A Configuration was deleted.
    Deleted(Configuration),
    /// The watcher (re)started.
    Restarted,
}

/// What the agent does with a Configuration after a watcher event.
#[derive(PartialEq, Eq, Structural, Clone, Copy, Debug)]
pub enum AgentConfigAction {
    /// Keep the Configuration's Instances; remember its generation and specification.
    RecordState,
    /// Start handling the Configuration.
    Add,
    /// Stop handling the Configuration, then handle it anew.
    Recreate,
    /// Stop handling the Configuration.
    Delete,
    /// Nothing to do.
    Nothing,
}

/// What the agent does with a Configuration after an event, given what it
/// remembers of it (nothing when it does not handle it): an applied
/// Configuration is added when unknown, recreated when it must be, and
/// otherwise only remembered; a deleted one is deleted; a restart of the
/// watcher after its first event is an error. `first_event` is cleared by
/// every event handled without error, except one that only remembers.
pub fn agent_config_action(known: Option<ConfigState>, event: &ConfigEvent, first_event: &mut bool) -> (r: Result<AgentConfigAction, WatchError>)
    requires
        event matches ConfigEvent::Applied(c) ==> (known matches Some(st) ==> strategies_known(*c, st)),
    ensures
        match event {
            ConfigEvent::Applied(c) => match known {
                None => r == Ok::<AgentConfigAction, WatchError>(AgentConfigAction::Add),
                Some(st) => r == Ok::<AgentConfigAction, WatchError>(
                    if must_recreate(c.generation, c.spec@, st.last_generation, st.last_configuration_spec@) {
                        AgentConfigAction::Recreate
                    } else {
                        AgentConfigAction::RecordState
                    },
                ),
            },
            ConfigEvent::Deleted(_) => r == Ok::<AgentConfigAction, WatchError>(AgentConfigAction::Delete),
            ConfigEvent::Restarted => {
                &&& (r is Err <==> !*old(first_event))
                &&& r is Ok ==> r == Ok::<AgentConfigAction, WatchError>(AgentConfigAction::Nothing)
            },
        },
        *final(first_event) == (if r is Ok && r != Ok::<AgentConfigAction, WatchError>(AgentConfigAction::RecordState) {
            false
        } else {
            *old(first_event)
        }),
{
    let action = match event {
        ConfigEvent::Applied(config) => match known {
            None => AgentConfigAction::Add,
            Some(st) => {
                if should_recreate_config(config, st) {
                    AgentConfigAction::Recreate
                } else {
                    return Ok(AgentConfigAction::RecordState);
                }
            },
        },
        ConfigEvent::Deleted(_) => AgentConfigAction::Delete,
        ConfigEvent::Restarted => {
            if !*first_event {
                return Err(WatchError::WatcherRestarted);
            }
            AgentConfigAction::Nothing
        },
    };
    *first_event = false;
    Ok(action)
}

/// What the controller must do with the brokers of a Configuration after an event.
#[derive(PartialEq, Eq, Structural, Clone, Copy, Debug)]
pub enum BrokerUpdate {
    /// Nothing.
    Keep,
    /// Redeploy the brokers of the applied Configuration.
    Redeploy,
}

/// Why the controller's Configuration watcher stops.
#[derive(PartialEq, Eq, Structural, Clone, Copy, Debug)]
pub enum WatchError {
    /// The watcher restarted after its first event.
    WatcherRestarted,
}

/// The controller's record of the last broker generation of each Configuration.
pub struct BrokerGenerations {
    map: Vec<(String, Option<i32>)>,
}

/// The last broker generation recorded for `name`, if any.
pub open spec fn recorded_generation(m: Map<Seq<char>, Option<i32>>, name: Seq<char>) -> Option<i32> {
    if m.dom().contains(name) { m[name] } else { None }
}

/// Names of an entry list are pairwise distinct.
pub open spec fn names_distinct(s: Seq<(String, Option<i32>)>) -> bool {
    forall|i: int, j: int| 0 <= i < s.len() && 0 <= j < s.len() && i != j ==> s[i].0@ != s[j].0@
}

/// The map an entry list denotes.
pub open spec fn generation_map(s: Seq<(String, Option<i32>)>) -> Map<Seq<char>, Option<i32>>
    decreases s.len(),
{
    if s.len() == 0 {
        Map::empty()
    } else {
        generation_map(s.drop_last()).insert(s.last().0@, s.last().1)
    }
}

impl View for BrokerGenerations {
    type V = Map<Seq<char>, Option<i32>>;

    closed spec fn view(&self) -> Map<Seq<char>, Option<i32>> {
        generation_map(self.map@)
    }
}

proof fn lemma_generation_dom(s: Seq<(String, Option<i32>)>, k: Seq<char>)
    ensures
        generation_map(s).dom().contains(k) <==> exists|i: int| 0 <= i < s.len() && s[i].0@ == k,
    decreases s.len(),
{
    if s.len() > 0 {
        lemma_generation_dom(s.drop_last(), k);
        if exists|i: int| 0 <= i < s.len() && s[i].0@ == k {
            let i = choose|i: int| 0 <= i < s.len() && s[i].0@ == k;
            if i < s.len() - 1 {
                assert(s.drop_last()[i].0@ == k);
            }
        }
        if generation_map(s.drop_last()).dom().contains(k) {
            let i = choose|i: int| 0 <= i < s.drop_last().len() && s.drop_last()[i].0@ == k;
            assert(s[i].0@ == k);
        }
    }
}

proof fn lemma_generation_value(s: Seq<(String, Option<i32>)>, i: int)
    requires
        names_distinct(s),
        0 <= i < s.len(),
    ensures
        generation_map(s).dom().contains(s[i].0@),
        generation_map(s)[s[i].0@] == s[i].1,
    decreases s.len(),
{
    if i < s.len() - 1 {
        lemma_generation_value(s.drop_last(), i);
        assert(s.drop_last()[i] == s[i]);
    }
}

proof fn lemma_generation_remove(s: Seq<(String, Option<i32>)>, i: int)
    requires
        names_distinct(s),
        0 <= i < s.len(),
    ensures
        names_distinct(s.remove(i)),
        generation_map(s.remove(i)) == generation_map(s).remove(s[i].0@),
    decreases s.len(),
{
    let r = s.remove(i);
    assert(names_distinct(r));
    if i == s.len() - 1 {
        assert(r =~= s.drop_last());
        lemma_generation_dom(s.drop_last(), s[i].0@);
        assert(generation_map(r) =~= generation_map(s).remove(s[i].0@));
    } else {
        lemma_generation_remove(s.drop_last(), i);
        assert(r.drop_last() =~= s.drop_last().remove(i));
        assert(r.last() == s.last());
        assert(generation_map(r) =~= generation_map(s).remove(s[i].0@));
    }
}

proof fn lemma_generation_update(s: Seq<(String, Option<i32>)>, i: int, e: (String, Option<i32>))
    requires
        names_distinct(s),
        0 <= i < s.len(),
        e.0@ == s[i].0@,
    ensures
        names_distinct(s.update(i, e)),
        generation_map(s.update(i, e)) == generation_map(s).insert(e.0@, e.1),
    decreases s.len(),
{
    let u = s.update(i, e);
    assert(names_distinct(u));
    if i == s.len() - 1 {
        assert(u.drop_last() =~= s.drop_last());
        assert(generation_map(u) =~= generation_map(s).insert(e.0@, e.1));
    } else {
        lemma_generation_update(s.drop_last(), i, e);
        assert(u.drop_last() =~= s.drop_last().update(i, e));
        assert(generation_map(u) =~= generation_map(s).insert(e.0@, e.1));
    }
}

impl BrokerGenerations {
    #[verifier::type_invariant]
    spec fn inv(self) -> bool {
        names_distinct(self.map@)
    }

    /// No Configuration recorded.
    pub fn new() -> (g: BrokerGenerations)
        ensures
            g@ == Map::<Seq<char>, Option<i32>>::empty(),
    {
        BrokerGenerations { map: Vec::new() }
    }

    fn find(&self, name: &str) -> (r: Option<usize>)
        ensures
            r matches Some(i) ==> i < self.map@.len() && self.map@[i as int].0@ == name@,
            r is None ==> !self@.dom().contains(name@),
    {
        let mut i: usize = 0;
        while i < self.map.len()
            invariant
                i <= self.map@.len(),
                forall|j: int| 0 <= j < i ==> self.map@[j].0@ != name@,
            decreases self.map.len() - i,
        {
            if crate::text::str_eq(self.map[i].0.as_str(), name) {
                return Some(i);
            }
            i = i + 1;
        }
        proof {
            lemma_generation_dom(self.map@, name@);
        }
        None
    }

    /// The last broker generation recorded for `name`, if any.
    pub fn get_entry(&self, name: &str) -> (r: Option<i32>)
        ensures
            r == recorded_generation(self@, name@),
    {
        proof {
            use_type_invariant(self);
        }
        match self.find(name) {
            Some(i) => {
                proof {
                    lemma_generation_value(self.map@, i as int);
                }
                self.map[i].1
            },
            None => None,
        }
    }

    /// Records `generation` for `name`.
    pub fn record(&mut self, name: String, generation: Option<i32>)
        ensures
            final(self)@ == old(self)@.insert(name@, generation),
    {
        proof {
            use_type_invariant(&*self);
        }
        let ghost old_map = self.map@;
        let mut map: Vec<(String, Option<i32>)> = Vec::new();
        std::mem::swap(&mut map, &mut self.map);
        match self.find_in(&map, name.as_str()) {
            Some(i) => {
                map.set(i, (name, generation));
                proof {
                    lemma_generation_update(old_map, i as int, map@[i as int]);
                }
            },
            None => {
                map.push((name, generation));
                proof {
                    assert(map@.drop_last() =~= old_map);
                }
            },
        }
        self.map = map;
    }

    fn find_in(&self, map: &Vec<(String, Option<i32>)>, name: &str) -> (r: Option<usize>)
        ensures
            r matches Some(i) ==> i < map@.len() && map@[i as int].0@ == name@,
            r is None ==> forall|j: int| 0 <= j < map@.len() ==> map@[j].0@ != name@,
    {
        let mut i: usize = 0;
        while i < map.len()
            invariant
                i <= map@.len(),
                forall|j: int| 0 <= j < i ==> map@[j].0@ != name@,
            decreases map.len() - i,
        {
            if crate::text::str_eq(map[i].0.as_str(), name) {
                return Some(i);
            }
            i = i + 1;
        }
        None
    }

    /// Forgets `name`.
    pub fn remove(&mut self, name: &str)
        ensures
            final(self)@ == old(self)@.remove(name@),
    {
        proof {
            use_type_invariant(&*self);
        }
        match self.find(name) {
            Some(i) => {
                let ghost old_map = self.map@;
                let mut map: Vec<(String, Option<i32>)> = Vec::new();
                std::mem::swap(&mut map, &mut self.map);
                map.remove(i);
                proof {
                    lemma_generation_remove(old_map, i as int);
                }
                self.map = map;
            },
            None => {
                assert(self@.remove(name@) =~= self@);
            },
        }
    }
}

/// How the controller's broker-generation record changes on an event, and
/// whether brokers are redeployed: an applied Configuration with a rollout
/// strategy is redeployed when a smaller generation was recorded for it, and its
/// generation is recorded unless the recorded one is at least as large; one
/// without a strategy is recorded without a generation; a deleted one is
/// forgotten; a restart after the first event is an error.
pub open spec fn broker_generation_step(
    m: Map<Seq<char>, Option<i32>>,
    event_name: Seq<char>,
    strategy_generation: Option<i32>,
    deleted: bool,
) -> (Map<Seq<char>, Option<i32>>, BrokerUpdate) {
    if deleted {
        (m.remove(event_name), BrokerUpdate::Keep)
    } else {
        match strategy_generation {
            None => (m.insert(event_name, None), BrokerUpdate::Keep),
            Some(g) => match recorded_generation(m, event_name) {
                Some(last) => if last < g {
                    (m.insert(event_name, Some(g)), BrokerUpdate::Redeploy)
                } else {
                    (m, BrokerUpdate::Keep)
                },
                None => (m.insert(event_name, Some(g)), BrokerUpdate::Keep),
            },
        }
    }
}

/// Brokers are redeployed once per increase of the broker generation: applying
/// the same Configuration again right after asks for nothing and records nothing new.
pub proof fn lemma_brokers_redeployed_once(m: Map<Seq<char>, Option<i32>>, name: Seq<char>, generation: Option<i32>)
    ensures
        ({
            let (m1, _) = broker_generation_step(m, name, generation, false);
            broker_generation_step(m1, name, generation, false) == (m1, BrokerUpdate::Keep)
        }),
{
    let (m1, _) = broker_generation_step(m, name, generation, false);
    if generation is None {
        assert(m1.insert(name, None) =~= m1);
    }
}

/// A Configuration applied again with the generation last seen is never recreated.
pub proof fn lemma_same_generation_not_recreated(generation: Option<i64>, spec: SpecView, prev: SpecView)
    ensures
        !must_recreate(generation, spec, generation, prev),
{
}

/// When an applied Configuration is recreated, for generations `old` (last
/// seen) and `new`: always when the generation went backwards; never when it is
/// the same; when it went forward, unless the discovery handler, broker
/// properties and capacity are unchanged and the broker generation increased,
/// in which case the brokers are redeployed instead.
pub proof fn lemma_recreate_rules(old: i64, new: i64, prev: SpecView, spec: SpecView)
    ensures
        new < old ==> must_recreate(Some(new), spec, Some(old), prev),
        must_recreate(None, spec, Some(old), prev),
        !must_recreate(Some(new), spec, Some(new), prev),
        new > old && spec == prev ==> must_recreate(Some(new), spec, Some(old), prev),
        new > old && (spec.capacity != prev.capacity || spec.discovery_handler != prev.discovery_handler
            || spec.broker_properties != prev.broker_properties) ==> must_recreate(Some(new), spec, Some(old), prev),
        prev.deployment_strategy matches Some(p) ==> (spec.deployment_strategy matches Some(q) ==> (
            new > old && spec != prev && spec.capacity == prev.capacity && spec.discovery_handler == prev.discovery_handler
                && spec.broker_properties == prev.broker_properties
                ==> (must_recreate(Some(new), spec, Some(old), prev) <==> !(p.broker_generation < q.broker_generation)))),
{
}

/// Handles one Configuration event in the controller: updates the record of
/// broker generations and says whether the Configuration's brokers must be
/// redeployed. `first_event` tells whether this is the watcher's first event
/// and is cleared by every event handled without error.
pub fn handle_config_event(
    generations: &mut BrokerGenerations,
    event: &ConfigEvent,
    first_event: &mut bool,
) -> (r: Result<BrokerUpdate, WatchError>)
    ensures
        match event {
            ConfigEvent::Restarted => {
                &&& (r is Err <==> !*old(first_event))
                &&& r is Ok ==> r == Ok::<BrokerUpdate, WatchError>(BrokerUpdate::Keep)
                &&& final(generations)@ == old(generations)@
            },
            ConfigEvent::Applied(c) => {
                let step = broker_generation_step(
                    old(generations)@,
                    c.name@,
                    match c.spec.deployment_strategy { Some(d) => Some(d.broker_generation), None => None },
                    false,
                );
                r == Ok::<BrokerUpdate, WatchError>(step.1) && final(generations)@ == step.0
            },
            ConfigEvent::Deleted(c) => {
                r == Ok::<BrokerUpdate, WatchError>(BrokerUpdate::Keep) && final(generations)@ == old(generations)@.remove(c.name@)
            },
        },
        r is Ok ==> *final(first_event) == false,
        r is Err ==> *final(first_event) == *old(first_event),
{
    let result = match event {
        ConfigEvent::Applied(config) => {
            match &config.spec.deployment_strategy {
                Some(deployment) => {
                    let current = deployment.broker_generation;
                    match generations.get_entry(config.name.as_str()) {
                        Some(last) => {
                            if last < current {
                                generations.record(config.name.clone(), Some(current));
                                BrokerUpdate::Redeploy
                            } else {
                                BrokerUpdate::Keep
                            }
                        },
                        None => {
                            generations.record(config.name.clone(), Some(current));
                            BrokerUpdate::Keep
                        },
                    }
                },
                None => {
                    generations.record(config.name.clone(), None);
                    BrokerUpdate::Keep
                },
            }
        },
        ConfigEvent::Deleted(config) => {
            generations.remove(config.name.as_str());
            BrokerUpdate::Keep
        },
        ConfigEvent::Restarted => {
            if !*first_event {
                return Err(WatchError::WatcherRestarted);
            }
            BrokerUpdate::Keep
        },
    };
    *first_event = false;
    Ok(result)
}

} // verus!
