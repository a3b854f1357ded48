use branching_futures::manufacturing::{
    backlog_delta, MachineStateChange, MachineStatus, ManufacturingEvent, OperationComplete, OperationStart,
};

#[test]
fn events_map_to_backlog_changes() {
    let start = ManufacturingEvent::OperationStart(OperationStart {
        job_id: 1,
        operation_id: 2,
        machine_id: 5,
        ts_ms: 0,
        expected_duration_ms: 100,
    });
    let done = ManufacturingEvent::OperationComplete(OperationComplete { job_id: 1, operation_id: 2, machine_id: 5, ts_ms: 9 });
    let change = ManufacturingEvent::MachineStateChange(MachineStateChange { machine_id: 5, status: MachineStatus::Down, ts_ms: 3 });
    assert_eq!(backlog_delta(&start), Some((5, 1)));
    assert_eq!(backlog_delta(&done), Some((5, -1)));
    assert_eq!(backlog_delta(&change), None);
}
