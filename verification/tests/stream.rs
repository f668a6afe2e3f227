use esp32_xvc::jtag::shift::JtagError;
use esp32_xvc::xvc::error::{StreamError, TransportError};
use esp32_xvc::xvc::stream::{
    split_tdo_buffers, Slot, StreamAction, StreamShift, StreamWorkspace, ABSOLUTE_MAX_BITS,
    CHUNK_BYTES,
};
use esp32_xvc::xvc::tms::StorageDescription;
use esp32_xvc::xvc::window::{ReceiveWindow, RECEIVE_BUFFER_SIZE};

fn window(bytes: &[u8]) -> ReceiveWindow {
    let mut window = ReceiveWindow::new(Box::leak(Box::new([0; RECEIVE_BUFFER_SIZE])));
    if let Some(space) = window.writable() {
        space[..bytes.len()].copy_from_slice(bytes);
    }
    window.commit(bytes.len());
    window
}

/// Answers every chunk with the complement of TDI and returns all that was sent.
fn run(
    bits: usize,
    queued: &[u8],
    incoming: &[u8],
    step: usize,
) -> (Result<(), StreamError>, Vec<u8>, Vec<u8>) {
    let mut workspace = Box::new(StreamWorkspace::new());
    let mut receive = window(queued);
    let mut rest = incoming;
    let mut sent = Vec::new();
    let mut driven_tms = Vec::new();
    let (mut shift, mut action) = match StreamShift::start(bits, &mut workspace, &mut receive) {
        Ok(started) => started,
        Err(error) => return (Err(error), sent, driven_tms),
    };
    loop {
        action = match action {
            StreamAction::Read => {
                let space = shift.fill_space();
                let count = space.len().min(rest.len()).min(step);
                if count == 0 {
                    shift.received(&mut receive, Err(TransportError::Disconnected))
                } else {
                    space[..count].copy_from_slice(&rest[..count]);
                    rest = &rest[count..];
                    shift.received(&mut receive, Ok(count))
                }
            }
            StreamAction::Shift { bits, send } => {
                let (request, previous) = match shift.shift_parts() {
                    Ok(parts) => parts,
                    Err(error) => panic!("{:?}", error),
                };
                assert_eq!(request.bit_count, bits);
                assert_eq!(send.unwrap_or(0), previous.len());
                sent.extend_from_slice(previous);
                driven_tms.extend_from_slice(request.tms);
                for index in 0..request.tdo.len() {
                    request.tdo[index] = !request.tdi[index];
                }
                shift.shifted(&mut receive, Ok(()), Ok(()))
            }
            StreamAction::Send { length } => {
                assert_eq!(shift.last_tdo().len(), length);
                sent.extend_from_slice(shift.last_tdo());
                shift.sent(Ok(()))
            }
            StreamAction::Finished(outcome) => return (outcome, sent, driven_tms),
        };
    }
}

fn pattern(bytes: usize, seed: u8) -> Vec<u8> {
    (0..bytes).map(|i| (i as u8).wrapping_mul(31).wrapping_add(seed)).collect()
}

#[test]
fn slots_alternate() {
    assert_eq!(Slot::First.index(), 0);
    assert_eq!(Slot::Second.index(), 1);
    assert_eq!(Slot::First.other(), Slot::Second);
    assert_eq!(Slot::Second.other(), Slot::First);
}

#[test]
fn buffers_are_split_by_slot() {
    let mut buffers = [[1; CHUNK_BYTES], [2; CHUNK_BYTES]];
    let (fill, other) = split_tdo_buffers(&mut buffers, Slot::Second);
    assert_eq!((fill[0], other[0]), (2, 1));
    fill[0] = 9;
    assert_eq!(buffers[1][0], 9);
    let (fill, other) = split_tdo_buffers(&mut buffers, Slot::First);
    assert_eq!((fill[0], other[0]), (1, 9));
}

#[test]
fn streamed_shift_drives_and_returns_everything() {
    for (bits, step) in [(40_000, 1_000), (32_769, 7), (4_096, 256), (2_048, 1)] {
        let bytes = (bits + 7) / 8;
        let tms = pattern(bytes, 3);
        let tdi = pattern(bytes, 90);
        let mut incoming = tms.clone();
        incoming.extend_from_slice(&tdi);
        let queued = incoming.len().min(777);
        let (outcome, sent, driven) = run(bits, &incoming[..queued], &incoming[queued..], step);
        assert_eq!(outcome, Ok(()));
        assert_eq!(driven, tms);
        let expected: Vec<u8> = tdi.iter().map(|byte| !byte).collect();
        assert_eq!(sent, expected);
    }
}

#[test]
fn large_shift_is_kept_in_runs() {
    let bits = 300_000;
    let bytes = bits / 8;
    let mut tms = vec![0; bytes];
    tms[bytes - 1] = 1;
    let tdi = pattern(bytes, 1);
    let mut incoming = tms.clone();
    incoming.extend_from_slice(&tdi);
    let (outcome, sent, driven) = run(bits, &[], &incoming, 5_000);
    assert_eq!(outcome, Ok(()));
    assert_eq!(driven, tms);
    assert_eq!(sent.len(), bytes);
}

#[test]
fn busy_tms_of_a_large_shift_overflows() {
    let bits = 300_000;
    let incoming = pattern(2 * bits / 8, 1);
    let (outcome, sent, driven) = run(bits, &[], &incoming, 5_000);
    assert_eq!(outcome, Err(StreamError::TmsRleOverflow));
    assert!(sent.is_empty());
    assert!(driven.is_empty());
}

#[test]
fn shift_over_the_maximum_is_refused() {
    let (outcome, _, _) = run(ABSOLUTE_MAX_BITS + 1, &[], &[], 1);
    assert_eq!(outcome, Err(StreamError::ShiftTooLarge));
}

#[test]
fn empty_shift_is_finished_at_once() {
    let (outcome, sent, _) = run(0, &[], &[], 1);
    assert_eq!(outcome, Ok(()));
    assert!(sent.is_empty());
}

#[test]
fn lost_client_ends_the_shift() {
    let incoming = pattern(10, 1);
    let (outcome, _, _) = run(40_000, &[], &incoming, 5);
    assert_eq!(outcome, Err(StreamError::Transport(TransportError::Disconnected)));
}

#[test]
fn bytes_after_the_shift_stay_in_the_window() {
    let mut workspace = Box::new(StreamWorkspace::new());
    let mut queued = vec![5; 2];
    queued.extend_from_slice(b"getinfo:");
    let mut receive = window(&queued);
    let (shift, action) = match StreamShift::start(8, &mut workspace, &mut receive) {
        Ok(started) => started,
        Err(error) => panic!("{:?}", error),
    };
    assert_eq!(action, StreamAction::Shift { bits: 8, send: None });
    assert_eq!(shift.tms_tail(), &[5]);
    assert_eq!(shift.tms_description(), StorageDescription::Raw { length: 1 });
    assert_eq!(shift.bits_driven(), 0);
    assert_eq!(receive.data(), b"getinfo:");
}

#[test]
fn failed_send_is_reported_before_a_failed_shift() {
    let mut workspace = Box::new(StreamWorkspace::new());
    let mut receive = window(&vec![0; 1_024]);
    let (mut shift, action) = match StreamShift::start(4_096, &mut workspace, &mut receive) {
        Ok(started) => started,
        Err(error) => panic!("{:?}", error),
    };
    assert_eq!(action, StreamAction::Shift { bits: 2_048, send: None });
    assert_eq!(
        shift.shifted(&mut receive, Ok(()), Ok(())),
        StreamAction::Shift { bits: 2_048, send: Some(256) }
    );
    assert_eq!(
        shift.shifted(
            &mut receive,
            Err(TransportError::Timeout),
            Err(JtagError::WorkerFailed)
        ),
        StreamAction::Finished(Err(StreamError::Transport(TransportError::Timeout)))
    );
}

#[test]
fn failed_shift_ends_the_stream() {
    let mut workspace = Box::new(StreamWorkspace::new());
    let mut receive = window(&vec![0; 512]);
    let (mut shift, _) = match StreamShift::start(2_048, &mut workspace, &mut receive) {
        Ok(started) => started,
        Err(error) => panic!("{:?}", error),
    };
    assert_eq!(
        shift.shifted(&mut receive, Ok(()), Err(JtagError::WorkerFailed)),
        StreamAction::Finished(Err(StreamError::JtagFailed))
    );
}

#[test]
fn reading_stops_with_both_vectors() {
    let mut workspace = Box::new(StreamWorkspace::new());
    let mut receive = window(&[]);
    let (mut shift, mut action) = match StreamShift::start(2_056, &mut workspace, &mut receive) {
        Ok(started) => started,
        Err(error) => panic!("{:?}", error),
    };
    for (room, driven) in [(256, 0), (1, 0), (256, 0), (1, 2_048)] {
        assert_eq!(action, StreamAction::Read);
        assert_eq!(shift.bits_driven(), driven);
        assert_eq!(shift.fill_space().len(), room);
        action = shift.received(&mut receive, Ok(room));
        if let StreamAction::Shift { .. } = action {
            action = shift.shifted(&mut receive, Ok(()), Ok(()));
        }
    }
    assert_eq!(action, StreamAction::Send { length: 1 });
    assert_eq!(shift.bits_driven(), 2_056);
}
