//! What the controller does with the broker Pods of an Instance that changed:
//! each node that the Instance lists should run one broker Pod.
use vstd::prelude::*;
use crate::keyed::{KeyedMap, distinct_keys, keyed_map, lemma_keyed_dom, lemma_keyed_value};
use crate::text::{contains_string, strings_view};
use crate::pod_action::{InstanceAction, PodAction, PodActionInfo, now_millis, pod_action_for};

verus! {

/// Minutes a broker Pod may stay Pending before it is restarted.
pub const PENDING_POD_GRACE_PERIOD_MINUTES: i64 = 5;

/// Minutes a broker Pod may stay in an error state before it is restarted.
pub const FAILED_POD_GRACE_PERIOD_MINUTES: i64 = 0;

/// What the controller reads of an existing broker Pod of the Instance.
pub struct BrokerPod {
    /// The Pod's phase, when its status has one.
    pub phase: Option<String>,
    /// When the Pod started, in milliseconds since the Unix epoch.
    pub start_time: Option<i64>,
    /// The node the Pod was made for (its target-node label).
    pub target_node: Option<String>,
}

/// Abstract value of a `BrokerPod`.
pub struct BrokerPodView {
    pub phase: Option<Seq<char>>,
    pub start_time: Option<i64>,
    pub target_node: Option<Seq<char>>,
}

impl View for BrokerPod {
    type V = BrokerPodView;

    open spec fn view(&self) -> BrokerPodView {
        BrokerPodView {
            phase: match self.phase {
                Some(p) => Some(p@),
                None => None,
            },
            start_time: self.start_time,
            target_node: match self.target_node {
                Some(n) => Some(n@),
                None => None,
            },
        }
    }
}

/// Why no plan could be made for an Instance's broker Pods.
#[derive(PartialEq, Eq, Structural, Clone, Copy, Debug)]
pub enum PlanError {
    /// A broker Pod has no phase.
    MissingPhase,
    /// A broker Pod has no target-node label.
    MissingTargetNode,
    /// The end of a broker Pod's grace period cannot be represented.
    TimeOverflow,
}

/// Broker Pods by their abstract value.
pub open spec fn pods_view(v: Seq<BrokerPod>) -> Seq<BrokerPodView> {
    v.map_values(|p: BrokerPod| p@)
}

/// Before looking at the Pods: every listed node needs a Pod added.
pub open spec fn initial_plan(nodes: Seq<Seq<char>>) -> Map<Seq<char>, PodAction> {
    Map::new(|k: Seq<char>| nodes.contains(k), |k: Seq<char>| PodAction::Add)
}

/// The plan after looking at one more broker Pod, at time `now`: the action for
/// the Pod's node is what the Pod calls for, a node missing from the plan so
/// far counting as one the Instance does not list.
pub open spec fn plan_pod(m: Map<Seq<char>, PodAction>, pod: BrokerPodView, now: i64) -> Result<Map<Seq<char>, PodAction>, PlanError> {
    match pod.phase {
        None => Err(PlanError::MissingPhase),
        Some(phase) => match pod.target_node {
            None => Err(PlanError::MissingTargetNode),
            Some(node) => match pod_action_for(
                !m.dom().contains(node),
                phase,
                InstanceAction::Update,
                pod.start_time,
                PENDING_POD_GRACE_PERIOD_MINUTES,
                FAILED_POD_GRACE_PERIOD_MINUTES,
                now,
            ) {
                Ok(a) => Ok(m.insert(node, a)),
                Err(_) => Err(PlanError::TimeOverflow),
            },
        },
    }
}

/// The plan after looking at the Pods in order; the first error ends it.
pub open spec fn plan_pods(m: Map<Seq<char>, PodAction>, pods: Seq<BrokerPodView>, now: i64) -> Result<Map<Seq<char>, PodAction>, PlanError>
    decreases pods.len(),
{
    if pods.len() == 0 {
        Ok(m)
    } else {
        match plan_pods(m, pods.drop_last(), now) {
            Ok(m2) => plan_pod(m2, pods.last(), now),
            Err(e) => Err(e),
        }
    }
}

proof fn lemma_plan_error_sticks(m: Map<Seq<char>, PodAction>, pods: Seq<BrokerPodView>, j: int, now: i64, e: PlanError)
    requires
        0 <= j <= pods.len(),
        plan_pods(m, pods.take(j), now) == Err::<Map<Seq<char>, PodAction>, PlanError>(e),
    ensures
        plan_pods(m, pods, now) == Err::<Map<Seq<char>, PodAction>, PlanError>(e),
    decreases pods.len() - j,
{
    if j == pods.len() {
        assert(pods.take(j) =~= pods);
    } else {
        assert(pods.take(j + 1).drop_last() =~= pods.take(j));
        lemma_plan_error_sticks(m, pods, j + 1, now, e);
    }
}

/// No Pod in `pods` was made for `node`.
pub open spec fn no_pod_for(pods: Seq<BrokerPodView>, node: Seq<char>) -> bool {
    forall|i: int| 0 <= i < pods.len() ==> #[trigger] pods[i].target_node != Some(node)
}

proof fn lemma_plan_keeps(m: Map<Seq<char>, PodAction>, pods: Seq<BrokerPodView>, now: i64, node: Seq<char>)
    requires
        plan_pods(m, pods, now) is Ok,
    ensures
        m.dom().contains(node) ==> plan_pods(m, pods, now)->Ok_0.dom().contains(node),
        no_pod_for(pods, node) ==> (plan_pods(m, pods, now)->Ok_0.dom().contains(node) <==> m.dom().contains(node)),
        no_pod_for(pods, node) && m.dom().contains(node) ==> plan_pods(m, pods, now)->Ok_0[node] == m[node],
    decreases pods.len(),
{
    if pods.len() > 0 {
        let d = pods.drop_last();
        lemma_plan_keeps(m, d, now, node);
        if no_pod_for(pods, node) {
            assert forall|i: int| 0 <= i < d.len() implies #[trigger] d[i].target_node != Some(node) by {
                assert(d[i] == pods[i]);
            }
            assert(pods[pods.len() - 1].target_node != Some(node));
        }
    }
}

/// Every node the Instance lists keeps an action in the plan, and a listed node
/// that no existing broker Pod was made for gets its broker Pod added.
pub proof fn lemma_listed_nodes_get_pods(nodes: Seq<Seq<char>>, pods: Seq<BrokerPodView>, now: i64, node: Seq<char>)
    requires
        plan_pods(initial_plan(nodes), pods, now) is Ok,
        nodes.contains(node),
    ensures
        plan_pods(initial_plan(nodes), pods, now)->Ok_0.dom().contains(node),
        no_pod_for(pods, node) ==> plan_pods(initial_plan(nodes), pods, now)->Ok_0[node] == PodAction::Add,
{
    lemma_plan_keeps(initial_plan(nodes), pods, now, node);
}

/// A plan by its abstract value.
pub open spec fn plan_outcome(r: Result<KeyedMap<PodAction>, PlanError>) -> Result<Map<Seq<char>, PodAction>, PlanError> {
    match r {
        Ok(m) => Ok(m@),
        Err(e) => Err(e),
    }
}

/// What to do, node by node, with the broker Pods of an Instance that lists
/// `nodes`, given its existing broker Pods, at time `now` (milliseconds since
/// the Unix epoch).
pub fn plan_pod_actions_at(nodes: &Vec<String>, pods: &Vec<BrokerPod>, now: i64) -> (r: Result<KeyedMap<PodAction>, PlanError>)
    ensures
        plan_pods(initial_plan(strings_view(nodes@)), pods_view(pods@), now) == plan_outcome(r),
{
    let ghost nv = strings_view(nodes@);
    let ghost pv = pods_view(pods@);
    let mut plan: KeyedMap<PodAction> = KeyedMap::new();
    let mut i: usize = 0;
    while i < nodes.len()
        invariant
            nv == strings_view(nodes@),
            i <= nodes@.len(),
            plan@ == initial_plan(nv.take(i as int)),
        decreases nodes.len() - i,
    {
        plan.insert(nodes[i].clone(), PodAction::Add);
        proof {
            let a = nv.take(i as int);
            let b = nv.take(i + 1);
            assert forall|k: Seq<char>| b.contains(k) <==> (a.contains(k) || k == nv[i as int]) by {
                if b.contains(k) {
                    let t = choose|t: int| 0 <= t < b.len() && b[t] == k;
                    if t < i {
                        assert(a[t] == k);
                    }
                }
                if a.contains(k) {
                    let t = choose|t: int| 0 <= t < a.len() && a[t] == k;
                    assert(b[t] == k);
                }
                if k == nv[i as int] {
                    assert(b[i as int] == k);
                }
            }
            assert(plan@ =~= initial_plan(b));
        }
        i = i + 1;
    }
    assert(nv.take(nodes@.len() as int) =~= nv);
    let ghost start = initial_plan(nv);
    let mut j: usize = 0;
    while j < pods.len()
        invariant
            pv == pods_view(pods@),
            start == initial_plan(strings_view(nodes@)),
            j <= pods@.len(),
            plan_pods(start, pv.take(j as int), now) == Ok::<Map<Seq<char>, PodAction>, PlanError>(plan@),
        decreases pods.len() - j,
    {
        assert(pv.take(j + 1).drop_last() =~= pv.take(j as int));
        assert(pv.take(j + 1).last() == pods@[j as int]@);
        let pod = &pods[j];
        let phase = match &pod.phase {
            Some(p) => p,
            None => {
                proof {
                    lemma_plan_error_sticks(start, pv, j + 1, now, PlanError::MissingPhase);
                }
                return Err(PlanError::MissingPhase);
            },
        };
        let node = match &pod.target_node {
            Some(n) => n,
            None => {
                proof {
                    lemma_plan_error_sticks(start, pv, j + 1, now, PlanError::MissingTargetNode);
                }
                return Err(PlanError::MissingTargetNode);
            },
        };
        let info = PodActionInfo {
            pending_grace_time_in_minutes: PENDING_POD_GRACE_PERIOD_MINUTES,
            ended_grace_time_in_minutes: FAILED_POD_GRACE_PERIOD_MINUTES,
            phase: phase.clone(),
            instance_action: InstanceAction::Update,
            status_start_time: pod.start_time,
            unknown_node: !plan.contains_key(node.as_str()),
            trace_node_name: node.clone(),
        };
        match info.select_pod_action_at(now) {
            Ok(action) => {
                plan.insert(node.clone(), action);
            },
            Err(_) => {
                proof {
                    lemma_plan_error_sticks(start, pv, j + 1, now, PlanError::TimeOverflow);
                }
                return Err(PlanError::TimeOverflow);
            },
        }
        j = j + 1;
    }
    assert(pv.take(pods@.len() as int) =~= pv);
    Ok(plan)
}

/// What to do, node by node, with the broker Pods of an Instance that lists
/// `nodes`, given its existing broker Pods, now by the system clock.
pub fn plan_pod_actions(nodes: &Vec<String>, pods: &Vec<BrokerPod>) -> (r: Result<KeyedMap<PodAction>, PlanError>)
    ensures
        exists|now: i64| #[trigger] plan_pods(initial_plan(strings_view(nodes@)), pods_view(pods@), now) == plan_outcome(r),
{
    let now = now_millis();
    plan_pod_actions_at(nodes, pods, now)
}

/// Whether an action removes the node's broker Pod (`removal`) or adds one (`!removal`).
pub open spec fn action_wanted(a: PodAction, removal: bool) -> bool {
    if removal {
        a == PodAction::Remove || a == PodAction::RemoveAndAdd
    } else {
        a == PodAction::Add || a == PodAction::RemoveAndAdd
    }
}

/// The keys, in order, of the entries whose action is wanted.
pub open spec fn wanted_keys(s: Seq<(String, PodAction)>, removal: bool) -> Seq<Seq<char>>
    decreases s.len(),
{
    if s.len() == 0 {
        Seq::empty()
    } else {
        let rest = wanted_keys(s.drop_last(), removal);
        if action_wanted(s.last().1, removal) {
            rest.push(s.last().0@)
        } else {
            rest
        }
    }
}

proof fn lemma_wanted_keys(s: Seq<(String, PodAction)>, removal: bool, k: Seq<char>)
    requires
        distinct_keys(s),
    ensures
        wanted_keys(s, removal).contains(k) <==> keyed_map(s).dom().contains(k) && action_wanted(keyed_map(s)[k], removal),
        wanted_keys(s, removal).no_duplicates(),
    decreases s.len(),
{
    if s.len() > 0 {
        let d = s.drop_last();
        assert(distinct_keys(d));
        lemma_wanted_keys(d, removal, k);
        lemma_wanted_keys(d, removal, s.last().0@);
        let rest = wanted_keys(d, removal);
        lemma_keyed_dom(d, s.last().0@);
        if keyed_map(d).dom().contains(s.last().0@) {
            let t = choose|t: int| 0 <= t < d.len() && d[t].0@ == s.last().0@;
            assert(s[t].0@ == s[s.len() - 1].0@);
        }
        if action_wanted(s.last().1, removal) {
            let w = rest.push(s.last().0@);
            assert(w.contains(k) <==> (rest.contains(k) || k == s.last().0@)) by {
                if w.contains(k) {
                    let t = choose|t: int| 0 <= t < w.len() && w[t] == k;
                    if t < rest.len() {
                        assert(rest[t] == k);
                    }
                }
                if rest.contains(k) {
                    let t = choose|t: int| 0 <= t < rest.len() && rest[t] == k;
                    assert(w[t] == k);
                }
                if k == s.last().0@ {
                    assert(w[rest.len() as int] == k);
                }
            }
            assert forall|a: int, b: int| 0 <= a < w.len() && 0 <= b < w.len() && a != b implies w[a] != w[b] by {
                if a < rest.len() && b < rest.len() {
                } else if a < rest.len() {
                    assert(rest.contains(w[a]));
                } else if b < rest.len() {
                    assert(rest.contains(w[b]));
                }
            }
        }
    }
}

/// The nodes whose broker Pod the plan removes (`removal`) or adds (`!removal`).
fn nodes_where(plan: &KeyedMap<PodAction>, removal: bool) -> (r: Vec<String>)
    ensures
        forall|k: Seq<char>| #[trigger] strings_view(r@).contains(k) <==> plan@.dom().contains(k) && action_wanted(plan@[k], removal),
        strings_view(r@).no_duplicates(),
{
    plan.entries_denote_map();
    let ghost es = plan.entry_seq();
    let mut r: Vec<String> = Vec::new();
    let mut i: usize = 0;
    while i < plan.len()
        invariant
            es == plan.entry_seq(),
            i <= es.len(),
            strings_view(r@) == wanted_keys(es.take(i as int), removal),
        decreases es.len() - i,
    {
        let (key, action) = plan.entry(i);
        assert(es.take(i + 1).drop_last() =~= es.take(i as int));
        assert(es.take(i + 1).last() == es[i as int]);
        let wanted = if removal {
            *action == PodAction::Remove || *action == PodAction::RemoveAndAdd
        } else {
            *action == PodAction::Add || *action == PodAction::RemoveAndAdd
        };
        if wanted {
            let ghost before = r@;
            r.push(key.clone());
            assert(strings_view(r@) =~= strings_view(before).push(key@));
        }
        i = i + 1;
    }
    assert(es.take(es.len() as int) =~= es);
    proof {
        assert forall|k: Seq<char>| #[trigger] strings_view(r@).contains(k) <==> plan@.dom().contains(k) && action_wanted(plan@[k], removal) by {
            lemma_wanted_keys(es, removal, k);
        }
        lemma_wanted_keys(es, removal, Seq::empty());
    }
    r
}

/// The nodes whose broker Pod must be removed, each once.
pub fn nodes_to_remove(plan: &KeyedMap<PodAction>) -> (r: Vec<String>)
    ensures
        forall|k: Seq<char>| #[trigger] strings_view(r@).contains(k) <==> plan@.dom().contains(k) && (plan@[k] == PodAction::Remove || plan@[k] == PodAction::RemoveAndAdd),
        strings_view(r@).no_duplicates(),
{
    nodes_where(plan, true)
}

/// The nodes that need a broker Pod added, each once.
pub fn nodes_to_add(plan: &KeyedMap<PodAction>) -> (r: Vec<String>)
    ensures
        forall|k: Seq<char>| #[trigger] strings_view(r@).contains(k) <==> plan@.dom().contains(k) && (plan@[k] == PodAction::Add || plan@[k] == PodAction::RemoveAndAdd),
        strings_view(r@).no_duplicates(),
{
    nodes_where(plan, false)
}

/// What the controller reads of a broker Pod of a Configuration whose brokers are redeployed.
pub struct ConfigurationPod {
    /// The Pod's Instance label, if any.
    pub instance: Option<String>,
    /// The Pod's target-node label, if any.
    pub target_node: Option<String>,
}

/// Why the broker Pods of a Configuration could not be grouped.
#[derive(PartialEq, Eq, Structural, Clone, Copy, Debug)]
pub enum RedeployError {
    /// A broker Pod has no Instance label.
    MissingInstanceLabel,
    /// A broker Pod has no target-node label.
    MissingTargetNode,
}

/// The nodes of the broker Pods of each Instance, read in order; the first Pod
/// missing a label ends it.
pub open spec fn redeploy_groups(pods: Seq<ConfigurationPod>) -> Result<Map<Seq<char>, Set<Seq<char>>>, RedeployError>
    decreases pods.len(),
{
    if pods.len() == 0 {
        Ok(Map::empty())
    } else {
        match redeploy_groups(pods.drop_last()) {
            Err(e) => Err(e),
            Ok(m) => match pods.last().instance {
                None => Err(RedeployError::MissingInstanceLabel),
                Some(i) => match pods.last().target_node {
                    None => Err(RedeployError::MissingTargetNode),
                    Some(n) => Ok(m.insert(i@, (if m.dom().contains(i@) { m[i@] } else { Set::empty() }).insert(n@))),
                },
            },
        }
    }
}

proof fn lemma_redeploy_error_sticks(pods: Seq<ConfigurationPod>, j: int, e: RedeployError)
    requires
        0 <= j <= pods.len(),
        redeploy_groups(pods.take(j)) == Err::<Map<Seq<char>, Set<Seq<char>>>, RedeployError>(e),
    ensures
        redeploy_groups(pods) == Err::<Map<Seq<char>, Set<Seq<char>>>, RedeployError>(e),
    decreases pods.len() - j,
{
    if j == pods.len() {
        assert(pods.take(j) =~= pods);
    } else {
        assert(pods.take(j + 1).drop_last() =~= pods.take(j));
        lemma_redeploy_error_sticks(pods, j + 1, e);
    }
}

/// The Instance names of a redeploy plan.
pub open spec fn plan_names(v: Seq<(String, Vec<String>)>) -> Seq<Seq<char>> {
    v.map_values(|p: (String, Vec<String>)| p.0@)
}

proof fn lemma_redeploy_result(
    es: Seq<(String, Vec<String>)>,
    m: Map<Seq<char>, Set<Seq<char>>>,
    g: Map<Seq<char>, Vec<String>>,
    r: Seq<(String, Vec<String>)>,
    idx: Seq<int>,
    instances: Seq<String>,
)
    requires
        distinct_keys(es),
        g == keyed_map(es),
        forall|k: Seq<char>| #[trigger] g.dom().contains(k) <==> m.dom().contains(k),
        forall|k: Seq<char>| #[trigger] g.dom().contains(k) ==> strings_view(g[k]@).to_set() == m[k],
        idx.len() == r.len(),
        forall|a: int| 0 <= a < r.len() ==> 0 <= #[trigger] idx[a] < es.len() && (r[a]).0@ == es[idx[a]].0@
            && strings_view(r[a].1@) == strings_view(es[idx[a]].1@) && strings_view(instances).contains(r[a].0@),
        forall|a: int, b: int| 0 <= a < b < r.len() ==> #[trigger] idx[a] < #[trigger] idx[b],
        forall|t: int| 0 <= t < es.len() && strings_view(instances).contains((#[trigger] es[t]).0@)
            ==> exists|a: int| 0 <= a < r.len() && #[trigger] idx[a] == t,
    ensures
        forall|a: int| 0 <= a < r.len() ==> strings_view(instances).contains((#[trigger] r[a]).0@)
            && m.dom().contains(r[a].0@) && strings_view(r[a].1@).to_set() == m[r[a].0@],
        forall|k: Seq<char>| m.dom().contains(k) && strings_view(instances).contains(k) ==> #[trigger] plan_names(r).contains(k),
        forall|a: int, b: int| 0 <= a < r.len() && 0 <= b < r.len() && a != b ==> (#[trigger] r[a]).0@ != (#[trigger] r[b]).0@,
{
    assert forall|a: int| 0 <= a < r.len() implies strings_view(instances).contains((#[trigger] r[a]).0@)
        && m.dom().contains(r[a].0@) && strings_view(r[a].1@).to_set() == m[r[a].0@] by {
        lemma_keyed_value(es, idx[a]);
    }
    assert forall|k: Seq<char>| m.dom().contains(k) && strings_view(instances).contains(k)
        implies #[trigger] plan_names(r).contains(k) by {
        lemma_keyed_dom(es, k);
        let t = choose|t: int| 0 <= t < es.len() && es[t].0@ == k;
        let a = choose|a: int| 0 <= a < r.len() && #[trigger] idx[a] == t;
        assert(plan_names(r)[a] == k);
    }
    assert forall|a: int, b: int| 0 <= a < r.len() && 0 <= b < r.len() && a != b implies (#[trigger] r[a]).0@ != (#[trigger] r[b]).0@ by {
        if a < b {
            assert(idx[a] < idx[b]);
        } else {
            assert(idx[b] < idx[a]);
        }
    }
}

/// The broker Pods to remove and add again when a Configuration's brokers are
/// redeployed: for each Instance of the Configuration (`instances`) that has
/// broker Pods, the nodes of those Pods, each Instance once.
pub fn broker_redeploy_plan(pods: &Vec<ConfigurationPod>, instances: &Vec<String>) -> (r: Result<Vec<(String, Vec<String>)>, RedeployError>)
    ensures
        redeploy_groups(pods@) matches Err(e) ==> r == Err::<Vec<(String, Vec<String>)>, RedeployError>(e),
        r is Ok <==> redeploy_groups(pods@) is Ok,
        r matches Ok(v) ==> {
            let m = redeploy_groups(pods@)->Ok_0;
            &&& forall|a: int| 0 <= a < v@.len() ==> strings_view(instances@).contains((#[trigger] v@[a]).0@)
                && m.dom().contains(v@[a].0@) && strings_view(v@[a].1@).to_set() == m[v@[a].0@]
            &&& forall|k: Seq<char>| m.dom().contains(k) && strings_view(instances@).contains(k) ==> #[trigger] plan_names(v@).contains(k)
            &&& forall|a: int, b: int| 0 <= a < v@.len() && 0 <= b < v@.len() && a != b ==> (#[trigger] v@[a]).0@ != (#[trigger] v@[b]).0@
        },
{
    let mut groups: KeyedMap<Vec<String>> = KeyedMap::new();
    let mut j: usize = 0;
    while j < pods.len()
        invariant
            j <= pods@.len(),
            redeploy_groups(pods@.take(j as int)) is Ok,
            forall|k: Seq<char>| #[trigger] groups@.dom().contains(k) <==> redeploy_groups(pods@.take(j as int))->Ok_0.dom().contains(k),
            forall|k: Seq<char>| #[trigger] groups@.dom().contains(k) ==> strings_view(groups@[k]@).to_set()
                == redeploy_groups(pods@.take(j as int))->Ok_0[k],
        decreases pods.len() - j,
    {
        assert(pods@.take(j + 1).drop_last() =~= pods@.take(j as int));
        assert(pods@.take(j + 1).last() == pods@[j as int]);
        let instance = match &pods[j].instance {
            Some(i) => i,
            None => {
                proof {
                    lemma_redeploy_error_sticks(pods@, j + 1, RedeployError::MissingInstanceLabel);
                }
                return Err(RedeployError::MissingInstanceLabel);
            },
        };
        let node = match &pods[j].target_node {
            Some(n) => n,
            None => {
                proof {
                    lemma_redeploy_error_sticks(pods@, j + 1, RedeployError::MissingTargetNode);
                }
                return Err(RedeployError::MissingTargetNode);
            },
        };
        let mut nodes: Vec<String> = match groups.get(instance.as_str()) {
            Some(existing) => existing.clone(),
            None => Vec::new(),
        };
        let ghost before = strings_view(nodes@);
        nodes.push(node.clone());
        proof {
            assert(strings_view(nodes@) =~= before.push(node@));
            assert forall|x: Seq<char>| #[trigger] strings_view(nodes@).to_set().contains(x) <==> before.to_set().insert(node@).contains(x) by {
                vstd::seq_lib::lemma_seq_contains_after_push(before, node@, x);
            }
            assert(strings_view(nodes@).to_set() =~= before.to_set().insert(node@));
        }
        groups.insert(instance.clone(), nodes);
        j = j + 1;
    }
    assert(pods@.take(pods@.len() as int) =~= pods@);
    groups.entries_denote_map();
    let ghost es = groups.entry_seq();
    let ghost m = redeploy_groups(pods@)->Ok_0;
    let mut r: Vec<(String, Vec<String>)> = Vec::new();
    let ghost mut idx: Seq<int> = Seq::empty();
    let mut i: usize = 0;
    while i < groups.len()
        invariant
            es == groups.entry_seq(),
            i <= es.len(),
            idx.len() == r@.len(),
            forall|a: int| 0 <= a < r@.len() ==> 0 <= #[trigger] idx[a] < i && (r@[a]).0@ == es[idx[a]].0@
                && strings_view(r@[a].1@) == strings_view(es[idx[a]].1@) && strings_view(instances@).contains(r@[a].0@),
            forall|a: int, b: int| 0 <= a < b < r@.len() ==> #[trigger] idx[a] < #[trigger] idx[b],
            forall|t: int| 0 <= t < i && strings_view(instances@).contains((#[trigger] es[t]).0@)
                ==> exists|a: int| 0 <= a < r@.len() && #[trigger] idx[a] == t,
        decreases es.len() - i,
    {
        let (name, nodes) = groups.entry(i);
        if contains_string(instances, name.as_str()) {
            let ghost before = idx;
            r.push((name.clone(), nodes.clone()));
            proof {
                idx = idx.push(i as int);
                assert forall|t: int| 0 <= t < i + 1 && strings_view(instances@).contains((#[trigger] es[t]).0@)
                    implies exists|a: int| 0 <= a < r@.len() && #[trigger] idx[a] == t by {
                    if t < i {
                        let a = choose|a: int| 0 <= a < before.len() && #[trigger] before[a] == t;
                        assert(idx[a] == t);
                    } else {
                        assert(idx[idx.len() - 1] == t);
                    }
                }
            }
        }
        i = i + 1;
    }
    proof {
        lemma_redeploy_result(es, m, groups@, r@, idx, instances@);
    }
    Ok(r)
}

} // verus!
