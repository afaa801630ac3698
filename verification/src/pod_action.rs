//! What the controller does with a broker Pod when an Instance changes.
use vstd::prelude::*;
use crate::text::str_eq;

verus! {

/// What happened to an Instance.
#[derive(PartialEq, Eq, Structural, Clone, Copy, Debug)]
pub enum InstanceAction {
    /// The Instance was added.
    Add,
    /// The Instance was removed.
    Remove,
    /// The Instance was updated.
    Update,
}

/// What to do with a broker Pod.
#[derive(PartialEq, Eq, Structural, Clone, Copy, Debug)]
pub enum PodAction {
    /// The broker Pod must be added.
    Add,
    /// The broker Pod must be removed.
    Remove,
    /// The broker Pod must be removed and added.
    RemoveAndAdd,
    /// Nothing is done with the broker Pod.
    NoAction,
}

/// The earliest instant chrono represents, January 1 of year -262143
/// (`NaiveDate::MIN`, from `MIN_YEAR`) at midnight, in milliseconds since the Unix epoch.
pub const CHRONO_MIN_MILLIS: i64 = -8_334_601_228_800_000;

/// The last millisecond chrono represents, December 31 of year 262142
/// (`NaiveDate::MAX`, from `MAX_YEAR`) at 23:59:59.999, in milliseconds since the Unix epoch.
pub const CHRONO_MAX_MILLIS: i64 = 8_210_266_876_799_999;

/// Whether chrono represents the instant `ms` milliseconds after the Unix epoch.
pub open spec fn chrono_representable(ms: int) -> bool {
    CHRONO_MIN_MILLIS <= ms <= CHRONO_MAX_MILLIS
}

/// The instant `minutes` minutes after `start_ms` (milliseconds since the Unix
/// epoch), as chrono computes it: the start plus the minutes in milliseconds,
/// or `None` when chrono cannot represent the start or the result. (A duration
/// chrono cannot represent, more than `i64::MAX` milliseconds, always gives a
/// result out of that range.)
pub open spec fn chrono_add_minutes(start_ms: int, minutes: int) -> Option<int> {
    if chrono_representable(start_ms) && chrono_representable(start_ms + 60000 * minutes) {
        Some(start_ms + 60000 * minutes)
    } else {
        None
    }
}

/// Adds `minutes` minutes to the instant `start_ms` (milliseconds since the Unix
/// epoch) with chrono's checked arithmetic (`DateTime::from_timestamp_millis`,
/// `TimeDelta::try_minutes`, `DateTime::checked_add_signed`,
/// `DateTime::timestamp_millis`). The contract claims the result is the start
/// plus the minutes in milliseconds exactly when chrono represents both the
/// start and that instant (years -262143 to 262142, `MIN_YEAR` and `MAX_YEAR`),
/// and none otherwise.
#[verifier::external_body]
fn checked_add_minutes(start_ms: i64, minutes: i64) -> (r: Option<i64>)
    ensures
        match r {
            Some(v) => chrono_add_minutes(start_ms as int, minutes as int) == Some(v as int),
            None => chrono_add_minutes(start_ms as int, minutes as int) is None,
        },
{
    let start = chrono::DateTime::from_timestamp_millis(start_ms)?;
    let limit = start.checked_add_signed(chrono::TimeDelta::try_minutes(minutes)?)?;
    Some(limit.timestamp_millis())
}

/// The current time in milliseconds since the Unix epoch, from the system clock
/// (`chrono::Utc::now`). Nothing is claimed of the value.
#[verifier::external_body]
pub(crate) fn now_millis() -> (now: i64) {
    chrono::Utc::now().timestamp_millis()
}

/// Why no action could be chosen.
#[derive(PartialEq, Eq, Structural, Clone, Copy, Debug)]
pub enum PodActionError {
    /// The end of the grace period cannot be represented.
    TimeOverflow,
}

/// What is known of a broker Pod when deciding what to do with it.
pub struct PodActionInfo {
    /// Minutes a Pending Pod may take before it is restarted.
    pub pending_grace_time_in_minutes: i64,
    /// Minutes an ended Pod is left before it is restarted.
    pub ended_grace_time_in_minutes: i64,
    /// The Pod's phase.
    pub phase: String,
    /// What happened to the Pod's Instance.
    pub instance_action: InstanceAction,
    /// When the Pod started, in milliseconds since the Unix epoch.
    pub status_start_time: Option<i64>,
    /// Whether the Pod runs on a node that the Instance does not list.
    pub unknown_node: bool,
    /// Name used when tracing.
    pub trace_node_name: String,
}

/// Phases in which a Pod counts as running.
pub open spec fn is_running_phase(phase: Seq<char>) -> bool {
    phase == "Running"@ || phase == "ContainerCreating"@ || phase == "PodInitializing"@
}

/// The action for a Pod that is not running, with grace period `grace` minutes, at time `now`.
pub open spec fn non_running_choice(action: InstanceAction, start: Option<i64>, grace: i64, now: i64) -> Result<PodAction, PodActionError> {
    if action == InstanceAction::Remove {
        Ok(PodAction::Remove)
    } else {
        match start {
            None => Ok(PodAction::NoAction),
            Some(t) => match chrono_add_minutes(t as int, grace as int) {
                None => Err(PodActionError::TimeOverflow),
                Some(limit) => if now < limit {
                    Ok(PodAction::NoAction)
                } else {
                    Ok(PodAction::RemoveAndAdd)
                },
            },
        }
    }
}

/// The action at time `now` for a broker Pod in `phase`, started at `start`,
/// whose Instance saw `action`, with the given grace periods (minutes).
///
/// A Pod on a node the Instance does not list is removed. A running Pod is
/// removed when its Instance is removed and otherwise left alone. Any other Pod
/// is removed when its Instance is removed; otherwise it is left alone while it
/// has no start time or its grace period (the pending one for Pending Pods, the
/// ended one for the rest) has not passed, and is removed and added after that.
pub open spec fn pod_action_for(
    unknown_node: bool,
    phase: Seq<char>,
    action: InstanceAction,
    start: Option<i64>,
    pending_grace: i64,
    ended_grace: i64,
    now: i64,
) -> Result<PodAction, PodActionError> {
    if unknown_node {
        Ok(PodAction::Remove)
    } else if is_running_phase(phase) {
        if action == InstanceAction::Remove {
            Ok(PodAction::Remove)
        } else {
            Ok(PodAction::NoAction)
        }
    } else if phase == "Pending"@ {
        non_running_choice(action, start, pending_grace, now)
    } else {
        non_running_choice(action, start, ended_grace, now)
    }
}

/// The action for a broker Pod at time `now`.
pub open spec fn pod_action_at(info: PodActionInfo, now: i64) -> Result<PodAction, PodActionError> {
    pod_action_for(
        info.unknown_node,
        info.phase@,
        info.instance_action,
        info.status_start_time,
        info.pending_grace_time_in_minutes,
        info.ended_grace_time_in_minutes,
        now,
    )
}

/// The controller's rules for a broker Pod, in plain terms: a Pod on a node the
/// Instance does not list is removed; a running Pod is never restarted, and is
/// removed only when its Instance is; any other Pod of a removed Instance is
/// removed; otherwise a Pod with a start time is left alone until its grace
/// period (the pending one for a Pending Pod, the ended one for the rest) has
/// passed, and restarted from then on, so that as time goes on the answer
/// switches once from leaving it alone to restarting it, and never back.
pub proof fn lemma_pod_action_rules(info: PodActionInfo, now: i64, later: i64)
    ensures
        info.unknown_node ==> pod_action_at(info, now) == Ok::<PodAction, PodActionError>(PodAction::Remove),
        !info.unknown_node && is_running_phase(info.phase@) ==> pod_action_at(info, now)
            == Ok::<PodAction, PodActionError>(if info.instance_action == InstanceAction::Remove { PodAction::Remove } else { PodAction::NoAction }),
        !info.unknown_node && !is_running_phase(info.phase@) && info.instance_action == InstanceAction::Remove
            ==> pod_action_at(info, now) == Ok::<PodAction, PodActionError>(PodAction::Remove),
        !info.unknown_node && !is_running_phase(info.phase@) && info.instance_action != InstanceAction::Remove
            && info.status_start_time is None ==> pod_action_at(info, now) == Ok::<PodAction, PodActionError>(PodAction::NoAction),
        info.status_start_time matches Some(t) ==> ({
            let grace = if info.phase@ == "Pending"@ { info.pending_grace_time_in_minutes } else { info.ended_grace_time_in_minutes };
            !info.unknown_node && !is_running_phase(info.phase@) && info.instance_action != InstanceAction::Remove
                && CHRONO_MIN_MILLIS <= t <= CHRONO_MAX_MILLIS
                && CHRONO_MIN_MILLIS <= t + 60000 * grace <= CHRONO_MAX_MILLIS
                ==> pod_action_at(info, now) == Ok::<PodAction, PodActionError>(
                    if now < t + 60000 * grace { PodAction::NoAction } else { PodAction::RemoveAndAdd })
        }),
        now <= later && pod_action_at(info, now) == Ok::<PodAction, PodActionError>(PodAction::RemoveAndAdd)
            ==> pod_action_at(info, later) == Ok::<PodAction, PodActionError>(PodAction::RemoveAndAdd),
{
}

impl PodActionInfo {
    fn time_choice_for_non_running_pods(&self, grace_period_in_minutes: i64, now: i64) -> (r: Result<PodAction, PodActionError>)
        ensures
            r == non_running_choice(InstanceAction::Add, self.status_start_time, grace_period_in_minutes, now),
    {
        match self.status_start_time {
            Some(start) => {
                match checked_add_minutes(start, grace_period_in_minutes) {
                    Some(limit) => {
                        if now < limit {
                            Ok(PodAction::NoAction)
                        } else {
                            Ok(PodAction::RemoveAndAdd)
                        }
                    },
                    None => Err(PodActionError::TimeOverflow),
                }
            },
            None => Ok(PodAction::NoAction),
        }
    }

    fn choice_for_non_running_pods(&self, grace_period_in_minutes: i64, now: i64) -> (r: Result<PodAction, PodActionError>)
        ensures
            r == non_running_choice(self.instance_action, self.status_start_time, grace_period_in_minutes, now),
    {
        match self.instance_action {
            InstanceAction::Remove => Ok(PodAction::Remove),
            _ => self.time_choice_for_non_running_pods(grace_period_in_minutes, now),
        }
    }

    fn choice_for_running_pods(&self) -> (r: PodAction)
        ensures
            r == (if self.instance_action == InstanceAction::Remove { PodAction::Remove } else { PodAction::NoAction }),
    {
        match self.instance_action {
            InstanceAction::Remove => PodAction::Remove,
            _ => PodAction::NoAction,
        }
    }

    /// The action for this broker Pod at time `now` (milliseconds since the Unix epoch).
    pub fn select_pod_action_at(&self, now: i64) -> (r: Result<PodAction, PodActionError>)
        ensures
            r == pod_action_at(*self, now),
    {
        proof {
            reveal_strlit("Running");
            reveal_strlit("ContainerCreating");
            reveal_strlit("PodInitializing");
            reveal_strlit("Pending");
        }
        if self.unknown_node {
            return Ok(PodAction::Remove);
        }
        let phase = self.phase.as_str();
        if str_eq(phase, "Running") || str_eq(phase, "ContainerCreating") || str_eq(phase, "PodInitializing") {
            Ok(self.choice_for_running_pods())
        } else if str_eq(phase, "Pending") {
            self.choice_for_non_running_pods(self.pending_grace_time_in_minutes, now)
        } else {
            self.choice_for_non_running_pods(self.ended_grace_time_in_minutes, now)
        }
    }

    /// The action for this broker Pod now, by the system clock.
    pub fn select_pod_action(&self) -> (r: Result<PodAction, PodActionError>)
        ensures
            exists|now: i64| r == pod_action_at(*self, now),
    {
        let now = now_millis();
        self.select_pod_action_at(now)
    }
}

} // verus!
