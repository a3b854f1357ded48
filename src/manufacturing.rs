//! Manufacturing domain events.

use vstd::prelude::*;

verus! {

pub type JobId = u64;

pub type OperationId = u32;

pub type MachineId = u64;

#[derive(Debug, Clone, Copy, PartialEq, Eq, Structural)]
pub struct OperationStart {
    pub job_id: JobId,
    pub operation_id: OperationId,
    pub machine_id: MachineId,
    pub ts_ms: u64,
    pub expected_duration_ms: u64,
}

#[derive(Debug, Clone, Copy, PartialEq, Eq, Structural)]
pub struct OperationComplete {
    pub job_id: JobId,
    pub operation_id: OperationId,
    pub machine_id: MachineId,
    pub ts_ms: u64,
}

#[derive(Debug, Clone, Copy, PartialEq, Eq, Structural)]
pub enum MachineStatus {
    Running,
    Idle,
    Maintenance,
    Down,
}

#[derive(Debug, Clone, Copy, PartialEq, Eq, Structural)]
pub struct MachineStateChange {
    pub machine_id: MachineId,
    pub status: MachineStatus,
    pub ts_ms: u64,
}

#[derive(Debug, Clone, Copy, PartialEq, Eq, Structural)]
pub enum ManufacturingEvent {
    OperationStart(OperationStart),
    OperationComplete(OperationComplete),
    MachineStateChange(MachineStateChange),
}

/// The change of one machine's work in progress that an event carries: an
/// operation start adds one, a completion removes one, a state change none.
pub open spec fn spec_backlog_delta(e: ManufacturingEvent) -> Option<(MachineId, i64)> {
    match e {
        ManufacturingEvent::OperationStart(op) => Some((op.machine_id, 1i64)),
        ManufacturingEvent::OperationComplete(op) => Some((op.machine_id, -1i64)),
        ManufacturingEvent::MachineStateChange(_) => None,
    }
}

pub fn backlog_delta(e: &ManufacturingEvent) -> (r: Option<(MachineId, i64)>)
    ensures
        r == spec_backlog_delta(*e),
{
    match e {
        ManufacturingEvent::OperationStart(op) => Some((op.machine_id, 1i64)),
        ManufacturingEvent::OperationComplete(op) => Some((op.machine_id, -1i64)),
        ManufacturingEvent::MachineStateChange(_) => None,
    }
}

} // verus!
