//! How the controller follows broker Pods entering and leaving the Running
//! state, and the Services that Running broker Pods support.
use vstd::prelude::*;
use crate::props::PropMap;
use crate::text::{concat2, owned, replace_all_char, replace_char, str_eq};

verus! {

/// Label that names a broker Pod's Instance.
pub const AKRI_INSTANCE_LABEL_NAME: &'static str = "akri.sh/instance";

/// Label that names a broker Pod's Configuration.
pub const AKRI_CONFIGURATION_LABEL_NAME: &'static str = "akri.sh/configuration";

/// Label that names the app a Service belongs to.
pub const APP_LABEL_ID: &'static str = "app";

/// Label that marks what Akri's controller manages.
pub const CONTROLLER_LABEL_ID: &'static str = "controller";

/// Value of the controller label.
pub const API_NAMESPACE: &'static str = "akri.sh";

/// Finalizer the Pod watcher puts on broker Pods.
pub const POD_FINALIZER: &'static str = "akri-pod-watcher.kube.rs";

/// What the controller last saw of a broker Pod.
#[derive(PartialEq, Eq, Structural, Clone, Copy, Debug)]
pub enum PodState {
    /// Pending: nothing to do.
    Pending,
    /// Running: the Instance and Configuration Services must run.
    Running,
    /// Failed or Succeeded: Services no other Running Pod supports are removed,
    /// and the Instance is handled again.
    Ended,
    /// Deleted: as for an ended Pod, and the Instance is handled again only when
    /// it owns the Pod.
    Deleted,
}

/// What controls the deployment of a broker Pod.
#[derive(PartialEq, Eq, Structural, Clone, Copy, Debug)]
pub enum BrokerPodOwnerKind {
    /// An Instance is the Pod's controlling owner.
    Instance,
    /// A Job is the Pod's controlling owner.
    Job,
    /// Neither.
    Other,
}

/// What the controller reads of one of a Pod's owner references.
pub struct OwnerReference {
    pub kind: String,
    pub controller: Option<bool>,
}

/// Some owner reference of kind `kind` is the controlling one.
pub open spec fn controlled_by(refs: Seq<OwnerReference>, kind: Seq<char>) -> bool {
    exists|i: int| 0 <= i < refs.len() && #[trigger] refs[i].kind@ == kind && refs[i].controller == Some(true)
}

fn any_controlling(refs: &Vec<OwnerReference>, kind: &str) -> (r: bool)
    ensures
        r == controlled_by(refs@, kind@),
{
    let mut i: usize = 0;
    while i < refs.len()
        invariant
            i <= refs@.len(),
            forall|j: int| 0 <= j < i ==> !(#[trigger] refs@[j].kind@ == kind@ && refs@[j].controller == Some(true)),
        decreases refs.len() - i,
    {
        let controlling = match refs[i].controller {
            Some(c) => c,
            None => false,
        };
        if str_eq(refs[i].kind.as_str(), kind) && controlling {
            return true;
        }
        i = i + 1;
    }
    false
}

/// What controls a broker Pod, from its owner references: an Instance when an
/// Instance reference is the controlling one, else a Job when a Job reference
/// is, else neither.
pub fn get_broker_pod_owner_kind(owner_references: &Vec<OwnerReference>) -> (k: BrokerPodOwnerKind)
    ensures
        k == (if controlled_by(owner_references@, "Instance"@) {
            BrokerPodOwnerKind::Instance
        } else if controlled_by(owner_references@, "Job"@) {
            BrokerPodOwnerKind::Job
        } else {
            BrokerPodOwnerKind::Other
        }),
{
    if any_controlling(owner_references, "Instance") {
        BrokerPodOwnerKind::Instance
    } else if any_controlling(owner_references, "Job") {
        BrokerPodOwnerKind::Job
    } else {
        BrokerPodOwnerKind::Other
    }
}

/// A Pod's phase, `Unknown` when its status gives none.
pub fn get_pod_phase(phase: Option<&String>) -> (r: String)
    ensures
        r@ == (match phase {
            Some(p) => p@,
            None => "Unknown"@,
        }),
{
    match phase {
        Some(p) => p.clone(),
        None => owned("Unknown"),
    }
}

/// What happened to a broker Pod.
pub enum PodEvent {
    /// The Pod was added or changed and is in this phase.
    Applied(String),
    /// The Pod is being deleted.
    Cleanup,
}

/// What the Pod watcher does for an event.
#[derive(PartialEq, Eq, Structural, Clone, Copy, Debug)]
pub enum PodEventAction {
    /// Record the state, with nothing else to do.
    Record(PodState),
    /// Run the handler of the state, then record it.
    Handle(PodState),
    /// Nothing.
    Ignore,
}

/// The state an event asks for: Unknown and Pending Pods are pending, Running
/// ones running, Succeeded and Failed ones ended, deleted ones deleted; other
/// phases ask for nothing.
pub open spec fn desired_pod_state(event: PodEvent) -> Option<PodState> {
    match event {
        PodEvent::Applied(phase) => if phase@ == "Unknown"@ || phase@ == "Pending"@ {
            Some(PodState::Pending)
        } else if phase@ == "Running"@ {
            Some(PodState::Running)
        } else if phase@ == "Succeeded"@ || phase@ == "Failed"@ {
            Some(PodState::Ended)
        } else {
            None
        },
        PodEvent::Cleanup => Some(PodState::Deleted),
    }
}

/// The action for an event on a Pod last known in `known` (none when never
/// seen): a pending Pod is recorded; a Pod is handled for a state it was not
/// last known in (a Pod never seen counting as pending), so that each
/// transition is handled once.
pub open spec fn pod_event_action(known: Option<PodState>, event: PodEvent) -> PodEventAction {
    match desired_pod_state(event) {
        None => PodEventAction::Ignore,
        Some(PodState::Pending) => PodEventAction::Record(PodState::Pending),
        Some(s) => {
            let last = match known {
                Some(k) => k,
                None => PodState::Pending,
            };
            if last != s {
                PodEventAction::Handle(s)
            } else {
                PodEventAction::Ignore
            }
        },
    }
}

/// The watcher's answer to each phase: a Pod that Succeeded or Failed is
/// handled as ended unless it was already known to have ended; a Running Pod is
/// handled unless already known running; an Unknown or Pending Pod is recorded
/// as pending; a Pod being deleted is handled unless already deleted; any other
/// phase is ignored. A Pod never seen counts as pending.
pub proof fn lemma_pod_phase_actions(known: Option<PodState>, phase: String)
    ensures
        (phase@ == "Failed"@ || phase@ == "Succeeded"@) ==> pod_event_action(known, PodEvent::Applied(phase))
            == (if known == Some(PodState::Ended) { PodEventAction::Ignore } else { PodEventAction::Handle(PodState::Ended) }),
        phase@ == "Running"@ ==> pod_event_action(known, PodEvent::Applied(phase))
            == (if known == Some(PodState::Running) { PodEventAction::Ignore } else { PodEventAction::Handle(PodState::Running) }),
        (phase@ == "Unknown"@ || phase@ == "Pending"@) ==> pod_event_action(known, PodEvent::Applied(phase))
            == PodEventAction::Record(PodState::Pending),
        !(phase@ == "Failed"@ || phase@ == "Succeeded"@ || phase@ == "Running"@ || phase@ == "Unknown"@ || phase@ == "Pending"@)
            ==> pod_event_action(known, PodEvent::Applied(phase)) == PodEventAction::Ignore,
        pod_event_action(known, PodEvent::Cleanup)
            == (if known == Some(PodState::Deleted) { PodEventAction::Ignore } else { PodEventAction::Handle(PodState::Deleted) }),
{
    reveal_strlit("Failed");
    reveal_strlit("Succeeded");
    reveal_strlit("Running");
    reveal_strlit("Unknown");
    reveal_strlit("Pending");
    assert("Failed"@.len() != "Unknown"@.len() && "Failed"@.len() != "Pending"@.len() && "Failed"@.len() != "Running"@.len());
    assert("Succeeded"@.len() != "Unknown"@.len() && "Succeeded"@.len() != "Pending"@.len() && "Succeeded"@.len() != "Running"@.len());
    assert("Running"@[0] != "Unknown"@[0] && "Running"@[0] != "Pending"@[0]);
}

/// What to do for an event on a broker Pod last known in `known`.
pub fn pod_event_step(known: Option<PodState>, event: &PodEvent) -> (a: PodEventAction)
    ensures
        a == pod_event_action(known, *event),
        event matches PodEvent::Applied(phase) && (phase@ == "Failed"@ || phase@ == "Succeeded"@)
            ==> a == (if known == Some(PodState::Ended) { PodEventAction::Ignore } else { PodEventAction::Handle(PodState::Ended) }),
        event matches PodEvent::Applied(phase) && phase@ == "Running"@
            ==> a == (if known == Some(PodState::Running) { PodEventAction::Ignore } else { PodEventAction::Handle(PodState::Running) }),
{
    proof {
        if let PodEvent::Applied(phase) = event {
            lemma_pod_phase_actions(known, *phase);
        }
    }
    let desired = match event {
        PodEvent::Applied(phase) => {
            let p = phase.as_str();
            if str_eq(p, "Unknown") || str_eq(p, "Pending") {
                return PodEventAction::Record(PodState::Pending);
            } else if str_eq(p, "Running") {
                PodState::Running
            } else if str_eq(p, "Succeeded") || str_eq(p, "Failed") {
                PodState::Ended
            } else {
                return PodEventAction::Ignore;
            }
        },
        PodEvent::Cleanup => PodState::Deleted,
    };
    let last = match known {
        Some(k) => k,
        None => PodState::Pending,
    };
    if last != desired {
        PodEventAction::Handle(desired)
    } else {
        PodEventAction::Ignore
    }
}

/// Once the handler of a state has run and the state is recorded, the same
/// event asks for nothing more; recording a pending Pod again changes nothing.
pub proof fn lemma_pod_transition_handled_once(known: Option<PodState>, event: PodEvent)
    ensures
        pod_event_action(known, event) matches PodEventAction::Handle(s) ==> pod_event_action(Some(s), event) == PodEventAction::Ignore,
        pod_event_action(known, event) matches PodEventAction::Record(s) ==> pod_event_action(Some(s), event) == pod_event_action(known, event),
{
}

/// Why a broker Pod's Instance and Configuration could not be read.
#[derive(PartialEq, Eq, Structural, Clone, Copy, Debug)]
pub enum PodLabelError {
    /// The Pod has no Instance label.
    MissingInstance,
    /// The Pod has no Configuration label.
    MissingConfiguration,
}

/// The Instance and Configuration names of a broker Pod, from its labels.
pub fn get_instance_and_configuration_from_pod(labels: &PropMap) -> (r: Result<(String, String), PodLabelError>)
    ensures
        !labels@.dom().contains(AKRI_INSTANCE_LABEL_NAME@) <==> r == Err::<(String, String), PodLabelError>(PodLabelError::MissingInstance),
        labels@.dom().contains(AKRI_INSTANCE_LABEL_NAME@) && !labels@.dom().contains(AKRI_CONFIGURATION_LABEL_NAME@)
            <==> r == Err::<(String, String), PodLabelError>(PodLabelError::MissingConfiguration),
        r matches Ok((i, c)) ==> i@ == labels@[AKRI_INSTANCE_LABEL_NAME@] && c@ == labels@[AKRI_CONFIGURATION_LABEL_NAME@],
{
    let instance = match labels.get(AKRI_INSTANCE_LABEL_NAME) {
        Some(i) => i.clone(),
        None => return Err(PodLabelError::MissingInstance),
    };
    let configuration = match labels.get(AKRI_CONFIGURATION_LABEL_NAME) {
        Some(c) => c.clone(),
        None => return Err(PodLabelError::MissingConfiguration),
    };
    Ok((instance, configuration))
}

/// What the controller reads of a broker Pod when deciding which Services it supports.
pub struct WatchedPod {
    /// The Pod's phase, when its status has one.
    pub phase: Option<String>,
    /// The Pod's Instance label, if any.
    pub instance: Option<String>,
}

/// A Pod in this phase still supports Services: it is not terminating, failed
/// or succeeded (a Pod without phase supports them).
pub open spec fn supports_services(phase: Option<String>) -> bool {
    match phase {
        Some(p) => p@ != "Terminating"@ && p@ != "Failed"@ && p@ != "Succeeded"@,
        None => true,
    }
}

/// The Pod's Instance label names `instance_id`.
pub open spec fn pod_of_instance(pod: WatchedPod, instance_id: Seq<char>) -> bool {
    match pod.instance {
        Some(n) => n@ == instance_id,
        None => false,
    }
}

fn phase_supports(phase: &Option<String>) -> (r: bool)
    ensures
        r == supports_services(*phase),
{
    match phase {
        Some(p) => !str_eq(p.as_str(), "Terminating") && !str_eq(p.as_str(), "Failed") && !str_eq(p.as_str(), "Succeeded"),
        None => true,
    }
}

/// Which Services lose their last supporting Pod when a broker Pod of
/// `instance_id` stops running, given the Configuration's broker Pods: the
/// Configuration Service when no Pod supports it, the Instance Service when no
/// Pod of the Instance does.
pub fn services_to_remove(pods: &Vec<WatchedPod>, instance_id: &str) -> (r: (bool, bool))
    ensures
        r.0 == (forall|i: int| 0 <= i < pods@.len() ==> !supports_services(#[trigger] pods@[i].phase)),
        r.1 == (forall|i: int| 0 <= i < pods@.len() && pod_of_instance(#[trigger] pods@[i], instance_id@)
            ==> !supports_services(pods@[i].phase)),
{
    let mut config_unsupported = true;
    let mut instance_unsupported = true;
    let mut i: usize = 0;
    while i < pods.len()
        invariant
            i <= pods@.len(),
            config_unsupported == (forall|j: int| 0 <= j < i ==> !supports_services(#[trigger] pods@[j].phase)),
            instance_unsupported == (forall|j: int| 0 <= j < i && pod_of_instance(#[trigger] pods@[j], instance_id@)
                ==> !supports_services(pods@[j].phase)),
        decreases pods.len() - i,
    {
        let supports = phase_supports(&pods[i].phase);
        if supports {
            config_unsupported = false;
            let of_instance = match &pods[i].instance {
                Some(n) => str_eq(n.as_str(), instance_id),
                None => false,
            };
            if of_instance {
                instance_unsupported = false;
            }
        }
        i = i + 1;
    }
    (config_unsupported, instance_unsupported)
}

/// The name of the Service of an Instance or Configuration: its name with
/// every '.' replaced by '-', followed by `-svc`.
pub fn create_service_app_name(resource_name: &str) -> (r: String)
    ensures
        r@ == replace_char(resource_name@, '.', '-') + "-svc"@,
{
    let normalized = replace_all_char(resource_name, '.', '-');
    concat2(normalized.as_str(), "-svc")
}

/// The labels of a broker Service: the given ones with the app and controller labels set.
pub fn service_labels(labels: &PropMap, app_name: &str) -> (r: PropMap)
    ensures
        r@ == labels@.insert(APP_LABEL_ID@, app_name@).insert(CONTROLLER_LABEL_ID@, API_NAMESPACE@),
{
    let mut r = labels.clone_map();
    r.insert(owned(APP_LABEL_ID), owned(app_name));
    r.insert(owned(CONTROLLER_LABEL_ID), owned(API_NAMESPACE));
    r
}

/// The selector of a broker Service: the spec's selector, if any, with the controller label set.
pub fn service_selector(selector: Option<&PropMap>) -> (r: PropMap)
    ensures
        r@ == (match selector {
            Some(s) => s@,
            None => Map::empty(),
        }).insert(CONTROLLER_LABEL_ID@, API_NAMESPACE@),
{
    let mut r = match selector {
        Some(s) => s.clone_map(),
        None => PropMap::new(),
    };
    r.insert(owned(CONTROLLER_LABEL_ID), owned(API_NAMESPACE));
    r
}

} // verus!
