//! The agent's retried writes to an Instance: reserving a slot for a container,
//! creating or joining the Instance of a device plugin, and leaving (or
//! deleting) the Instance of a device this node no longer sees. Each is a step
//! from the try number and what the last read or write gave to what to do next;
//! the caller reads, writes and waits.
use vstd::prelude::*;
use crate::device_plugin::{
    ReservationView, SlotReservation, SlotReservationError, decide_slot_reservation,
    nodes_including, reservation_outcome, reservation_view,
};
use crate::discovery::{InstanceRemoval, instance_removal};
use crate::node_usage::DeviceUsageKind;

verus! {

/// How many times a write to an Instance is tried before giving up.
pub const MAX_INSTANCE_UPDATE_TRIES: u8 = 5;

/// The try after a failed one numbered `try_index` (counting from 0), or none
/// when that was the last.
pub open spec fn next_try(try_index: u8) -> Option<u8> {
    if try_index + 1 >= MAX_INSTANCE_UPDATE_TRIES { None } else { Some((try_index + 1) as u8) }
}

fn retry_after(try_index: u8) -> (r: Option<u8>)
    ensures
        r == next_try(try_index),
{
    if try_index >= MAX_INSTANCE_UPDATE_TRIES - 1 { None } else { Some(try_index + 1) }
}

/// What the last read or write of a slot reservation gave.
#[derive(PartialEq, Eq, Clone, Debug)]
pub enum ReservationEvent {
    /// The Instance could not be read.
    InstanceMissing,
    /// The Instance was read; this is the usage string of the requested slot,
    /// if the Instance has that slot.
    InstanceRead(Option<String>),
    /// Writing the new usage succeeded.
    WriteSucceeded,
    /// Writing the new usage failed.
    WriteFailed,
}

/// Why a slot could not be reserved.
#[derive(PartialEq, Eq, Clone, Debug)]
pub enum ReservationFailure {
    /// "Could not find Instance".
    InstanceNotFound,
    /// The slot cannot be reserved for this node and kind.
    Refused(SlotReservationError),
    /// "Could not update Instance": every try to write the usage failed.
    UpdateFailed,
}

/// What to do next while reserving a slot.
#[derive(PartialEq, Eq, Debug)]
pub enum ReservationAction {
    /// Write this usage string into the slot of the Instance just read.
    WriteUsage(String),
    /// Wait a random delay, then read the Instance again for this try.
    RetryAfterDelay(u8),
    /// Stop with this result.
    Finish(Result<(), ReservationFailure>),
}

/// One step of reserving a slot for node `node_name` with kind `desired`, on
/// try `try_index`: a slot that is free is written and, when the write fails,
/// tried again after a delay until the tries are used up; a slot this node
/// already holds with that kind is fine; anything else is refused at once.
pub fn reservation_step(try_index: u8, event: &ReservationEvent, node_name: &str, desired: &DeviceUsageKind) -> (r: ReservationAction)
    requires
        try_index < MAX_INSTANCE_UPDATE_TRIES,
    ensures
        match event {
            ReservationEvent::InstanceMissing => r == ReservationAction::Finish(Err(ReservationFailure::InstanceNotFound)),
            ReservationEvent::InstanceRead(cur) => {
                let o = reservation_outcome(
                    match cur { Some(s) => Some(s@), None => None },
                    node_name@,
                    desired@,
                );
                match o {
                    ReservationView::Reserve(s) => r matches ReservationAction::WriteUsage(w) && w@ == s,
                    ReservationView::AlreadyReserved => r == ReservationAction::Finish(Ok(())),
                    _ => r matches ReservationAction::Finish(Err(ReservationFailure::Refused(e))) && reservation_view(Err(e)) == o,
                }
            },
            ReservationEvent::WriteSucceeded => r == ReservationAction::Finish(Ok(())),
            ReservationEvent::WriteFailed => match next_try(try_index) {
                Some(n) => r == ReservationAction::RetryAfterDelay(n),
                None => r == ReservationAction::Finish(Err(ReservationFailure::UpdateFailed)),
            },
        },
{
    match event {
        ReservationEvent::InstanceMissing => ReservationAction::Finish(Err(ReservationFailure::InstanceNotFound)),
        ReservationEvent::InstanceRead(cur) => {
            let current = match cur {
                Some(s) => Some(s),
                None => None,
            };
            match decide_slot_reservation(current, node_name, desired) {
                Ok(SlotReservation::Reserve(s)) => ReservationAction::WriteUsage(s),
                Ok(SlotReservation::AlreadyReserved) => ReservationAction::Finish(Ok(())),
                Err(e) => ReservationAction::Finish(Err(ReservationFailure::Refused(e))),
            }
        },
        ReservationEvent::WriteSucceeded => ReservationAction::Finish(Ok(())),
        ReservationEvent::WriteFailed => match retry_after(try_index) {
            Some(n) => ReservationAction::RetryAfterDelay(n),
            None => ReservationAction::Finish(Err(ReservationFailure::UpdateFailed)),
        },
    }
}

/// What the last read or write of a device plugin's Instance gave.
#[derive(PartialEq, Eq, Clone, Debug)]
pub enum CreationEvent {
    /// The Instance's Configuration does not exist.
    ConfigurationMissing,
    /// The Instance exists and lists these nodes.
    InstanceFound(Vec<String>),
    /// The Instance does not exist.
    InstanceAbsent,
    /// The last write (creating the Instance or adding this node) succeeded.
    WriteSucceeded,
    /// The last write failed.
    WriteFailed,
}

/// What to do next while creating or joining a device plugin's Instance.
#[derive(PartialEq, Eq, Clone, Debug)]
pub enum CreationAction {
    /// Write the Instance just read with these nodes (this node appended).
    UpdateNodes(Vec<String>),
    /// Create the Instance (see `new_instance_spec`).
    Create,
    /// Wait a random delay, then read the Instance again for this try.
    RetryAfterDelay(u8),
    /// The Instance lists this node: record it and serve kubelet.
    Serve,
    /// The Instance could not be created or joined: end this device plugin's service.
    EndService,
}

/// One step of making sure the Instance of a device plugin on `node_name`
/// exists and lists this node, on try `try_index`: an existing Instance that
/// lists the node is done with; one that does not gets the node appended; a
/// missing one is created; a failed write is tried again after a delay until
/// the tries are used up, and then the device plugin ends its service, as it
/// does at once when its Configuration is missing.
pub fn creation_step(try_index: u8, event: &CreationEvent, node_name: &str) -> (r: CreationAction)
    requires
        try_index < MAX_INSTANCE_UPDATE_TRIES,
    ensures
        match event {
            CreationEvent::ConfigurationMissing => r == CreationAction::EndService,
            CreationEvent::InstanceFound(nodes) => if nodes@.map_values(|s: String| s@).contains(node_name@) {
                r == CreationAction::Serve
            } else {
                r matches CreationAction::UpdateNodes(v)
                    && v@.map_values(|s: String| s@) == nodes@.map_values(|s: String| s@).push(node_name@)
            },
            CreationEvent::InstanceAbsent => r == CreationAction::Create,
            CreationEvent::WriteSucceeded => r == CreationAction::Serve,
            CreationEvent::WriteFailed => match next_try(try_index) {
                Some(n) => r == CreationAction::RetryAfterDelay(n),
                None => r == CreationAction::EndService,
            },
        },
{
    match event {
        CreationEvent::ConfigurationMissing => CreationAction::EndService,
        CreationEvent::InstanceFound(nodes) => match nodes_including(nodes, node_name) {
            None => CreationAction::Serve,
            Some(v) => CreationAction::UpdateNodes(v),
        },
        CreationEvent::InstanceAbsent => CreationAction::Create,
        CreationEvent::WriteSucceeded => CreationAction::Serve,
        CreationEvent::WriteFailed => match retry_after(try_index) {
            Some(n) => CreationAction::RetryAfterDelay(n),
            None => CreationAction::EndService,
        },
    }
}

/// What the last read or write of an Instance this node leaves gave.
#[derive(PartialEq, Eq, Clone, Debug)]
pub enum DeletionEvent {
    /// The Instance could not be read.
    InstanceMissing,
    /// The Instance was read and lists these nodes.
    InstanceFound(Vec<String>),
    /// The last write (deleting the Instance or removing this node) succeeded.
    WriteSucceeded,
    /// The last write failed.
    WriteFailed,
}

/// What to do next while this node leaves an Instance.
#[derive(PartialEq, Eq, Clone, Debug)]
pub enum DeletionAction {
    /// Delete the Instance: no node is left.
    Delete,
    /// Write the Instance just read with these nodes.
    UpdateNodes(Vec<String>),
    /// Read the Instance again, for this try (no delay).
    Retry(u8),
    /// Stop: done.
    Done,
    /// Stop with the error of the last write.
    Fail,
}

/// One step of removing `node_name` from an Instance, on try `try_index`: the
/// Instance is deleted when no other node lists it, else written without this
/// node; a failed write is tried again until the tries are used up, and then
/// fails; an Instance that cannot be read is read again, and when that was the
/// last try there is nothing left to do.
pub fn deletion_step(try_index: u8, event: &DeletionEvent, node_name: &str) -> (r: DeletionAction)
    requires
        try_index < MAX_INSTANCE_UPDATE_TRIES,
    ensures
        match event {
            DeletionEvent::InstanceMissing => match next_try(try_index) {
                Some(n) => r == DeletionAction::Retry(n),
                None => r == DeletionAction::Done,
            },
            DeletionEvent::InstanceFound(nodes) => {
                let kept = nodes@.filter(|n: String| n@ != node_name@);
                if kept.len() == 0 {
                    r == DeletionAction::Delete
                } else {
                    r matches DeletionAction::UpdateNodes(v) && v@ == kept
                }
            },
            DeletionEvent::WriteSucceeded => r == DeletionAction::Done,
            DeletionEvent::WriteFailed => match next_try(try_index) {
                Some(n) => r == DeletionAction::Retry(n),
                None => r == DeletionAction::Fail,
            },
        },
{
    match event {
        DeletionEvent::InstanceMissing => match retry_after(try_index) {
            Some(n) => DeletionAction::Retry(n),
            None => DeletionAction::Done,
        },
        DeletionEvent::InstanceFound(nodes) => match instance_removal(nodes, node_name) {
            InstanceRemoval::Delete => DeletionAction::Delete,
            InstanceRemoval::Update(v) => DeletionAction::UpdateNodes(v),
        },
        DeletionEvent::WriteSucceeded => DeletionAction::Done,
        DeletionEvent::WriteFailed => match retry_after(try_index) {
            Some(n) => DeletionAction::Retry(n),
            None => DeletionAction::Fail,
        },
    }
}

/// A write that keeps failing is tried exactly `MAX_INSTANCE_UPDATE_TRIES`
/// times: each failed try but the last leads to the next one, and the last
/// leads to none.
pub proof fn lemma_writes_tried_max_times(try_index: u8)
    requires
        try_index < MAX_INSTANCE_UPDATE_TRIES,
    ensures
        next_try(try_index) is None <==> try_index == MAX_INSTANCE_UPDATE_TRIES - 1,
        next_try(try_index) matches Some(n) ==> n == try_index + 1 && n < MAX_INSTANCE_UPDATE_TRIES,
{
}

} // verus!
