use esp32_xvc::jtag::ipc::{
    abort_requested, active_sequence, clear_abort, complete, next_sequence, publish, publish_reset,
    publish_shift, request_abort, sequence_completed, take_worker_command, Completion, Mailbox,
    PublishError, WorkerCommand,
};
use esp32_xvc::jtag::pins::{PinOp, PinStep};
use esp32_xvc::jtag::scan::ShiftBits;
use esp32_xvc::jtag::tap::ResetTap;
use esp32_xvc::jtag::worker::{Worker, WorkerAction};

#[test]
fn reset_goes_to_the_worker_and_back() {
    let mut mailbox = Mailbox::new();
    let mut completion = Completion::new();
    let command = match publish_reset(&mut mailbox, &mut completion, 3) {
        Ok(command) => command,
        Err(error) => panic!("{:?}", error),
    };
    assert_eq!(command.sequence(), 1);
    assert_eq!(active_sequence(&mailbox), Some(1));
    assert!(!command.is_complete(&mailbox));
    assert!(!command.wait_for_completion(&mailbox, &mut completion));
    assert_eq!(
        take_worker_command(&mut mailbox),
        Some(WorkerCommand::Reset { sequence: 1, tck_period_us: 3 })
    );
    assert_eq!(take_worker_command(&mut mailbox), None);
    complete(&mut mailbox, &mut completion, 1, true);
    assert!(command.is_complete(&mailbox));
    assert!(sequence_completed(&mailbox, 1));
    assert!(command.wait_for_completion(&mailbox, &mut completion));
    assert!(command.finish(&mut mailbox));
    assert_eq!(active_sequence(&mailbox), None);
}

#[test]
fn shift_arrives_as_it_was_published() {
    let mut mailbox = Mailbox::new();
    let mut completion = Completion::new();
    assert!(publish_shift(&mut mailbox, &mut completion, 7, 19, 0x100, 0x200, 0x300).is_ok());
    assert_eq!(
        take_worker_command(&mut mailbox),
        Some(WorkerCommand::Shift {
            sequence: 1,
            tck_period_us: 7,
            bit_count: 19,
            tms_ptr: 0x100,
            tdi_ptr: 0x200,
            tdo_ptr: 0x300,
        })
    );
}

#[test]
fn one_command_at_a_time() {
    let mut mailbox = Mailbox::new();
    let mut completion = Completion::new();
    assert!(publish_reset(&mut mailbox, &mut completion, 1).is_ok());
    assert!(matches!(
        publish_reset(&mut mailbox, &mut completion, 1),
        Err(PublishError::Busy)
    ));
    assert!(take_worker_command(&mut mailbox).is_some());
    assert!(matches!(
        publish_shift(&mut mailbox, &mut completion, 1, 8, 1, 2, 3),
        Err(PublishError::Busy)
    ));
}

#[test]
fn command_that_was_not_taken_is_noticed() {
    let mut mailbox = Mailbox::new();
    let mut completion = Completion::new();
    let command = match publish_reset(&mut mailbox, &mut completion, 1) {
        Ok(command) => command,
        Err(error) => panic!("{:?}", error),
    };
    command.release(&mut mailbox);
    assert!(matches!(
        publish_reset(&mut mailbox, &mut completion, 1),
        Err(PublishError::WorkerCommandOccupied)
    ));
    assert_eq!(active_sequence(&mailbox), None);
}

#[test]
fn failure_is_reported() {
    let mut mailbox = Mailbox::new();
    let mut completion = Completion::new();
    let command = match publish_reset(&mut mailbox, &mut completion, 1) {
        Ok(command) => command,
        Err(error) => panic!("{:?}", error),
    };
    take_worker_command(&mut mailbox);
    complete(&mut mailbox, &mut completion, 1, false);
    assert!(!command.succeeded(&mailbox));
    assert!(!command.finish(&mut mailbox));
}

#[test]
fn signal_of_another_command_does_not_end_the_wait() {
    let mut mailbox = Mailbox::new();
    let mut completion = Completion::new();
    let command = match publish_reset(&mut mailbox, &mut completion, 1) {
        Ok(command) => command,
        Err(error) => panic!("{:?}", error),
    };
    complete(&mut mailbox, &mut completion, 9, true);
    assert!(!command.wait_for_completion(&mailbox, &mut completion));
}

#[test]
fn signal_alone_ends_the_wait_once() {
    let mut signalling = Mailbox::new();
    let mut waiting = Mailbox::new();
    let mut completion = Completion::new();
    let command = match publish_reset(&mut waiting, &mut completion, 1) {
        Ok(command) => command,
        Err(error) => panic!("{:?}", error),
    };
    complete(&mut signalling, &mut completion, 1, true);
    assert!(command.wait_for_completion(&waiting, &mut completion));
    assert!(!command.wait_for_completion(&waiting, &mut completion));
}

#[test]
fn publishing_drops_an_old_signal() {
    let mut signalling = Mailbox::new();
    let mut mailbox = Mailbox::new();
    let mut completion = Completion::new();
    complete(&mut signalling, &mut completion, 1, true);
    let command = match publish_reset(&mut mailbox, &mut completion, 1) {
        Ok(command) => command,
        Err(error) => panic!("{:?}", error),
    };
    assert_eq!(command.sequence(), 1);
    assert!(!command.wait_for_completion(&mailbox, &mut completion));
}

#[test]
fn abort_is_requested_and_withdrawn() {
    let mut mailbox = Mailbox::new();
    assert!(!abort_requested(&mailbox));
    request_abort(&mut mailbox);
    assert!(abort_requested(&mailbox));
    clear_abort(&mut mailbox);
    assert!(!abort_requested(&mailbox));
    request_abort(&mut mailbox);
    let mut completion = Completion::new();
    assert!(publish_reset(&mut mailbox, &mut completion, 1).is_ok());
    assert!(!abort_requested(&mailbox));
}

#[test]
fn sequence_numbers_count_up() {
    let mut mailbox = Mailbox::new();
    assert_eq!(next_sequence(&mut mailbox), 1);
    assert_eq!(next_sequence(&mut mailbox), 2);
}

#[test]
fn idle_worker_spins_and_then_sleeps() {
    let mut worker = Worker::new();
    let mut mailbox = Mailbox::new();
    let mut completion = Completion::new();
    for _ in 0..200 {
        assert_eq!(worker.poll(&mut mailbox, &mut completion), WorkerAction::Yield);
    }
    for _ in 0..3 {
        assert_eq!(worker.poll(&mut mailbox, &mut completion), WorkerAction::Sleep { ms: 1 });
    }
    assert!(publish_reset(&mut mailbox, &mut completion, 4).is_ok());
    assert_eq!(
        worker.poll(&mut mailbox, &mut completion),
        WorkerAction::Reset { sequence: 1, tck_period_us: 4 }
    );
    let reset = driven_reset(4, false);
    worker.finish_reset(&mut mailbox, &mut completion, &reset);
    assert!(sequence_completed(&mailbox, 1));
    assert_eq!(worker.poll(&mut mailbox, &mut completion), WorkerAction::Yield);
}

fn driven_reset(tck_period_us: u32, abort: bool) -> ResetTap {
    let mut reset = ResetTap::new(tck_period_us);
    let mut reply = false;
    while let PinStep::Do(op) = reset.step(reply) {
        reply = abort && op == PinOp::PollAbort;
    }
    reset
}

#[test]
fn worker_reports_the_result_of_each_command() {
    let mut worker = Worker::new();
    let mut mailbox = Mailbox::new();
    let mut completion = Completion::new();
    for (number, abort) in [(1, false), (2, true), (3, false)] {
        let command = match publish_reset(&mut mailbox, &mut completion, 1) {
            Ok(command) => command,
            Err(error) => panic!("{:?}", error),
        };
        assert_eq!(command.sequence(), number);
        assert_eq!(
            worker.poll(&mut mailbox, &mut completion),
            WorkerAction::Reset { sequence: number, tck_period_us: 1 }
        );
        assert!(!command.is_complete(&mailbox));
        worker.finish_reset(&mut mailbox, &mut completion, &driven_reset(1, abort));
        assert!(command.is_complete(&mailbox));
        assert_eq!(command.finish(&mut mailbox), !abort);
    }
}

#[test]
fn worker_reports_the_result_of_a_shift() {
    for abort in [false, true] {
        let mut worker = Worker::new();
        let mut mailbox = Mailbox::new();
        let mut completion = Completion::new();
        let command = match publish_shift(&mut mailbox, &mut completion, 1_000, 8, 10, 20, 30) {
            Ok(command) => command,
            Err(error) => panic!("{:?}", error),
        };
        assert!(matches!(
            worker.poll(&mut mailbox, &mut completion),
            WorkerAction::Shift { sequence: 1, byte_count: 1, .. }
        ));
        let mut tdo = [0];
        let mut shift = ShiftBits::new(1_000, &[0], &[0], 8);
        let mut reply = false;
        while let PinStep::Do(op) = shift.step(&mut tdo, reply) {
            reply = abort && op == PinOp::PollAbort;
        }
        assert_eq!(shift.aborted(), abort);
        worker.finish_shift(&mut mailbox, &mut completion, &shift);
        assert!(command.wait_for_completion(&mailbox, &mut completion));
        assert_eq!(command.finish(&mut mailbox), !abort);
    }
}

#[test]
fn worker_gets_buffers_of_whole_bytes() {
    let mut worker = Worker::new();
    let mut mailbox = Mailbox::new();
    let mut completion = Completion::new();
    assert!(publish_shift(&mut mailbox, &mut completion, 2, 17, 10, 20, 30).is_ok());
    assert_eq!(
        worker.poll(&mut mailbox, &mut completion),
        WorkerAction::Shift {
            sequence: 1,
            tck_period_us: 2,
            bit_count: 17,
            byte_count: 3,
            tms_ptr: 10,
            tdi_ptr: 20,
            tdo_ptr: 30,
        }
    );
}

#[test]
fn unknown_command_fails_at_once() {
    let mut worker = Worker::new();
    let mut mailbox = Mailbox::new();
    let mut completion = Completion::new();
    let command = match publish(&mut mailbox, &mut completion, 77, 1, 0, 0, 0, 0) {
        Ok(command) => command,
        Err(error) => panic!("{:?}", error),
    };
    assert_eq!(worker.poll(&mut mailbox, &mut completion), WorkerAction::Rejected);
    assert!(command.is_complete(&mailbox));
    assert!(!command.finish(&mut mailbox));
}
