use esp32_xvc::jtag::ipc::{
    abort_requested, active_sequence, complete, take_worker_command, Completion, Mailbox,
    PublishError, WorkerCommand,
};
use esp32_xvc::jtag::service::{
    map_publish_error, AbortStep, CancelWait, CommandWait, JtagService, PublishFailure, WaitStep,
};
use esp32_xvc::jtag::shift::{JtagError, JtagShift, ShiftExecution};

fn started(outcome: Result<CommandWait, PublishFailure>) -> CommandWait {
    match outcome {
        Ok(wait) => wait,
        Err(failure) => panic!("{:?}", failure),
    }
}

fn waiting(step: WaitStep) -> CommandWait {
    match step {
        WaitStep::Waiting(wait) => wait,
        _ => panic!("no longer waiting"),
    }
}

#[test]
fn periods_are_rounded_up_and_limited() {
    let mut jtag = JtagService::new();
    assert_eq!(jtag.period_ns(), 1_000);
    assert_eq!(jtag.set_period_ns(0), 1_000);
    assert_eq!(jtag.set_period_ns(1_000), 1_000);
    assert_eq!(jtag.set_period_ns(1_001), 2_000);
    assert_eq!(jtag.set_period_ns(999_001), 1_000_000);
    assert_eq!(jtag.set_period_ns(u32::MAX), 1_000_000);
    assert_eq!(jtag.set_period_ns(1_000_000), 1_000_000);
    jtag.restore_min_period();
    assert_eq!(jtag.period_ns(), 1_000);
}

#[test]
fn period_in_force_is_kept_when_asked_for() {
    let mut jtag = JtagService::new();
    for requested in [1, 999, 12_345, 1_000_001] {
        let applied = jtag.set_period_ns(requested);
        assert_eq!(jtag.set_period_ns(applied), applied);
    }
}

#[test]
fn publish_errors_are_mapped() {
    assert_eq!(
        map_publish_error(PublishError::Busy),
        PublishFailure::Report(JtagError::Busy)
    );
    assert_eq!(
        map_publish_error(PublishError::WorkerCommandOccupied),
        PublishFailure::ResetDevice
    );
}

#[test]
fn shift_buffers_must_fit() {
    let mut tdo = [0; 2];
    assert!(JtagShift::new(ShiftExecution::BufferedCommand, 9, &[0; 2], &[0; 2], &mut tdo).is_ok());
    assert!(matches!(
        JtagShift::new(ShiftExecution::BufferedCommand, 8, &[0; 2], &[0; 2], &mut tdo),
        Err(JtagError::InvalidShiftBuffers)
    ));
    assert!(matches!(
        JtagShift::new(ShiftExecution::BufferedCommand, 9, &[0; 1], &[0; 2], &mut tdo),
        Err(JtagError::InvalidShiftBuffers)
    ));
    assert!(matches!(
        JtagShift::new(ShiftExecution::BufferedCommand, 9, &[0; 2], &[0; 3], &mut tdo),
        Err(JtagError::InvalidShiftBuffers)
    ));
}

#[test]
fn multipliers_depend_on_the_request() {
    assert_eq!(ShiftExecution::BufferedCommand.timeout_multiplier(), 2);
    assert_eq!(ShiftExecution::StreamChunk.timeout_multiplier(), 3);
}

#[test]
fn reset_succeeds() {
    let jtag = JtagService::new();
    let mut mailbox = Mailbox::new();
    let mut completion = Completion::new();
    let wait = started(jtag.reset(&mut mailbox, &mut completion, 0));
    let wait = waiting(wait.step(&mut mailbox, true, 1));
    assert_eq!(
        take_worker_command(&mut mailbox),
        Some(WorkerCommand::Reset { sequence: 1, tck_period_us: 1 })
    );
    complete(&mut mailbox, &mut completion, 1, true);
    assert!(matches!(
        wait.step(&mut mailbox, true, 2),
        WaitStep::Finished(Ok(()))
    ));
    assert_eq!(active_sequence(&mailbox), None);
}

#[test]
fn busy_service_reports_it() {
    let jtag = JtagService::new();
    let mut mailbox = Mailbox::new();
    let mut completion = Completion::new();
    let _wait = started(jtag.reset(&mut mailbox, &mut completion, 0));
    assert!(matches!(
        jtag.reset(&mut mailbox, &mut completion, 0),
        Err(PublishFailure::Report(JtagError::Busy))
    ));
}

#[test]
fn soft_deadline_aborts_and_hard_deadline_resets() {
    let jtag = JtagService::new();
    let mut mailbox = Mailbox::new();
    let mut completion = Completion::new();
    let wait = started(jtag.reset(&mut mailbox, &mut completion, 100));
    let wait = waiting(wait.step(&mut mailbox, true, 2_100));
    assert!(!abort_requested(&mailbox));
    let wait = waiting(wait.step(&mut mailbox, true, 2_101));
    assert!(abort_requested(&mailbox));
    let wait = waiting(wait.step(&mut mailbox, true, 4_100));
    assert!(matches!(
        wait.step(&mut mailbox, true, 4_101),
        WaitStep::ResetDevice
    ));
}

#[test]
fn lost_connection_aborts() {
    let jtag = JtagService::new();
    let mut mailbox = Mailbox::new();
    let mut completion = Completion::new();
    let wait = started(jtag.reset(&mut mailbox, &mut completion, 0));
    let wait = waiting(wait.step(&mut mailbox, false, 1));
    assert!(abort_requested(&mailbox));
    take_worker_command(&mut mailbox);
    complete(&mut mailbox, &mut completion, 1, false);
    assert!(matches!(
        wait.step(&mut mailbox, false, 2),
        WaitStep::Finished(Err(JtagError::WorkerFailed))
    ));
    assert!(!abort_requested(&mailbox));
}

#[test]
fn shift_clears_the_unused_bits() {
    let jtag = JtagService::new();
    let mut mailbox = Mailbox::new();
    let mut completion = Completion::new();
    let mut tdo = [0xff, 0xff];
    let mut shift =
        match JtagShift::new(ShiftExecution::BufferedCommand, 10, &[0; 2], &[0; 2], &mut tdo) {
            Ok(shift) => shift,
            Err(error) => panic!("{:?}", error),
        };
    let wait = started(jtag.shift(&mut mailbox, &mut completion, &shift, 1, 2, 3, 0));
    let wait = waiting(wait.step_shift(&mut mailbox, &mut shift, true, 0));
    assert_eq!(
        take_worker_command(&mut mailbox),
        Some(WorkerCommand::Shift {
            sequence: 1,
            tck_period_us: 1,
            bit_count: 10,
            tms_ptr: 1,
            tdi_ptr: 2,
            tdo_ptr: 3,
        })
    );
    complete(&mut mailbox, &mut completion, 1, true);
    assert!(matches!(
        wait.step_shift(&mut mailbox, &mut shift, true, 1),
        WaitStep::Finished(Ok(()))
    ));
    assert_eq!(tdo, [0xff, 0x03]);
}

#[test]
fn shift_deadline_follows_its_length() {
    let mut jtag = JtagService::new();
    jtag.set_period_ns(10_000);
    let mut mailbox = Mailbox::new();
    let mut completion = Completion::new();
    let mut tdo = [0; 125];
    let tms = [0; 125];
    let shift = match JtagShift::new(ShiftExecution::StreamChunk, 1_000, &tms, &tms, &mut tdo) {
        Ok(shift) => shift,
        Err(error) => panic!("{:?}", error),
    };
    let wait = started(jtag.shift(&mut mailbox, &mut completion, &shift, 1, 2, 3, 5));
    let wait = waiting(wait.step(&mut mailbox, true, 230_005));
    assert!(!abort_requested(&mailbox));
    let wait = waiting(wait.step(&mut mailbox, true, 230_006));
    assert!(abort_requested(&mailbox));
    let wait = waiting(wait.step(&mut mailbox, true, 2_230_005));
    assert!(matches!(
        wait.step(&mut mailbox, true, 2_230_006),
        WaitStep::ResetDevice
    ));
}

#[test]
fn abort_waits_for_the_command_in_flight() {
    let jtag = JtagService::new();
    let mut mailbox = Mailbox::new();
    let mut completion = Completion::new();
    assert!(jtag.abort_and_wait(&mut mailbox, 0).is_none());
    let _wait = started(jtag.reset(&mut mailbox, &mut completion, 0));
    let abort = match jtag.abort_and_wait(&mut mailbox, 10) {
        Some(abort) => abort,
        None => panic!("nothing in flight"),
    };
    assert!(abort_requested(&mailbox));
    assert_eq!(abort.step(&mut mailbox, 2_010), AbortStep::Waiting);
    assert_eq!(abort.step(&mut mailbox, 2_011), AbortStep::ResetDevice);
    take_worker_command(&mut mailbox);
    complete(&mut mailbox, &mut completion, 1, false);
    assert_eq!(abort.step(&mut mailbox, 3_000), AbortStep::Over);
    assert!(!abort_requested(&mailbox));
}

#[test]
fn cancelled_command_keeps_the_mailbox_until_it_is_over() {
    let jtag = JtagService::new();
    let mut mailbox = Mailbox::new();
    let mut completion = Completion::new();
    let wait = started(jtag.reset(&mut mailbox, &mut completion, 0));
    let cancel = CancelWait::cancel(wait, &mut mailbox, 0);
    assert!(abort_requested(&mailbox));
    assert_eq!(cancel.step(&mut mailbox, 1_999), AbortStep::Waiting);
    assert_eq!(cancel.step(&mut mailbox, 2_000), AbortStep::ResetDevice);
    assert_eq!(active_sequence(&mailbox), Some(1));
    take_worker_command(&mut mailbox);
    complete(&mut mailbox, &mut completion, 1, false);
    assert_eq!(cancel.step(&mut mailbox, 2_500), AbortStep::Over);
    assert_eq!(active_sequence(&mailbox), None);
    assert!(jtag.reset(&mut mailbox, &mut completion, 0).is_ok());
}
