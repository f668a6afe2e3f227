use esp32_xvc::xvc::error::{SessionError, StreamError, TransportError};
use esp32_xvc::jtag::shift::JtagError;
use esp32_xvc::xvc::report::{bits_per_second, reports_progress, TmsTail};
use esp32_xvc::xvc::transport::{
    read_progress, send_with_liveness, session_alive, IoOutcome, IoStep, IoWait, WriteAll,
    WriteStep, RECEIVE_PROGRESS_TIMEOUT_MS,
};

#[test]
fn errors_are_wrapped() {
    assert_eq!(
        StreamError::from(TransportError::Timeout),
        StreamError::Transport(TransportError::Timeout)
    );
    assert_eq!(
        SessionError::from(TransportError::Disconnected),
        SessionError::Transport(TransportError::Disconnected)
    );
    assert_eq!(
        SessionError::from(StreamError::JtagFailed),
        SessionError::Stream(StreamError::JtagFailed)
    );
    assert_eq!(SessionError::from(JtagError::Busy), SessionError::Jtag(JtagError::Busy));
}

#[test]
fn reads_progress_or_fail() {
    assert_eq!(read_progress(IoOutcome::Transferred(3)), Ok(3));
    assert_eq!(read_progress(IoOutcome::Transferred(0)), Err(TransportError::Disconnected));
    assert_eq!(read_progress(IoOutcome::Failed), Err(TransportError::Disconnected));
    assert_eq!(read_progress(IoOutcome::TimedOut), Err(TransportError::Timeout));
}

#[test]
fn waits_end_in_order_of_urgency() {
    let wait = IoWait::new(100, RECEIVE_PROGRESS_TIMEOUT_MS);
    assert_eq!(wait.step(true, false, i64::MAX), IoStep::Transfer);
    assert_eq!(wait.step(false, false, i64::MAX), IoStep::Over(IoOutcome::Failed));
    assert_eq!(wait.step(false, true, 30_099), IoStep::Wait);
    assert_eq!(wait.step(false, true, 30_100), IoStep::Over(IoOutcome::TimedOut));
}

#[test]
fn writes_go_on_until_all_is_sent() {
    let (mut write, step) = WriteAll::start(5);
    assert_eq!(step, WriteStep::Write { from: 0 });
    assert_eq!(write.wrote(IoOutcome::Transferred(2)), WriteStep::Write { from: 2 });
    assert_eq!(write.wrote(IoOutcome::Transferred(3)), WriteStep::Over(Ok(())));
}

#[test]
fn empty_writes_are_over_at_once() {
    assert_eq!(WriteAll::start(0).1, WriteStep::Over(Ok(())));
}

#[test]
fn failed_writes_are_reported() {
    let (mut write, _) = WriteAll::start(5);
    assert_eq!(
        write.wrote(IoOutcome::Transferred(0)),
        WriteStep::Over(Err(TransportError::Disconnected))
    );
    assert_eq!(
        write.wrote(IoOutcome::TimedOut),
        WriteStep::Over(Err(TransportError::Timeout))
    );
}

#[test]
fn failed_send_ends_liveness() {
    let mut alive = true;
    assert_eq!(send_with_liveness(Ok(()), &mut alive), Ok(()));
    assert!(alive);
    assert_eq!(
        send_with_liveness(Err(TransportError::Timeout), &mut alive),
        Err(StreamError::Transport(TransportError::Timeout))
    );
    assert!(!alive);
}

#[test]
fn sessions_need_both_directions() {
    assert!(session_alive(true, true));
    assert!(!session_alive(true, false));
    assert!(!session_alive(false, true));
}

#[test]
fn tail_holds_the_last_four_bytes() {
    let mut tail = TmsTail::new();
    assert!(tail.last_bytes().is_empty());
    tail.absorb(&[1, 2, 3]);
    assert_eq!(tail.last_bytes(), &[1, 2, 3]);
    tail.absorb(&[4, 5, 6]);
    assert_eq!(tail.last_bytes(), &[3, 4, 5, 6]);
    tail.absorb(&[]);
    assert_eq!(tail.last_bytes(), &[3, 4, 5, 6]);
}

#[test]
fn rates_and_progress_are_reported() {
    assert_eq!(bits_per_second(2_000, 0), 0);
    assert_eq!(bits_per_second(2_000, 3), 666_666);
    assert!(reports_progress(65_536));
    assert!(reports_progress(65_536 + 2_047));
    assert!(!reports_progress(65_536 + 2_048));
}
