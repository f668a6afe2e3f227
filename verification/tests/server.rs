use esp32_xvc::jtag::service::JtagService;
use esp32_xvc::jtag::shift::{JtagError, ShiftExecution};
use esp32_xvc::xvc::error::{SessionError, StreamError, TransportError};
use esp32_xvc::xvc::server::{
    CloseReason, ServerAction, XvcServer, ACCEPT_RETRY_MS, RESPONSE_BUFFER_SIZE,
};
use esp32_xvc::xvc::stream::{StreamAction, StreamShift, StreamWorkspace};
use esp32_xvc::xvc::window::{ReceiveWindow, RECEIVE_BUFFER_SIZE};

fn server() -> XvcServer {
    XvcServer::new(
        Box::leak(Box::new([0; RECEIVE_BUFFER_SIZE])),
        Box::leak(Box::new([0; RESPONSE_BUFFER_SIZE])),
        Box::leak(Box::new(StreamWorkspace::new())),
    )
}

fn session() -> (XvcServer, JtagService) {
    let mut server = server();
    let mut jtag = JtagService::new();
    assert_eq!(server.listen(&mut jtag), ServerAction::Accept { port: 2_542 });
    assert_eq!(server.accepted(true), ServerAction::ResetTap);
    assert_eq!(server.tap_reset(Ok(())), ServerAction::Read);
    (server, jtag)
}

fn receive(server: &mut XvcServer, jtag: &mut JtagService, bytes: &[u8]) -> ServerAction {
    match server.read_space() {
        Ok(space) => space[..bytes.len()].copy_from_slice(bytes),
        Err(error) => panic!("{:?}", error),
    }
    server.received(jtag, Ok(bytes.len()))
}

fn closed(error: SessionError) -> ServerAction {
    ServerAction::Close { reason: CloseReason::Session(error), pause_ms: 0 }
}

#[test]
fn query_is_answered() {
    let (mut server, mut jtag) = session();
    assert_eq!(receive(&mut server, &mut jtag, b"getin"), ServerAction::Read);
    assert_eq!(receive(&mut server, &mut jtag, b"fo:"), ServerAction::Send { length: 22 });
    assert_eq!(server.reply(), &b"xvcServer_v1.0:196608\n"[..]);
    assert_eq!(server.sent(&mut jtag, Ok(())), ServerAction::Read);
}

#[test]
fn clock_request_is_answered_with_the_period_in_force() {
    let (mut server, mut jtag) = session();
    let action = receive(&mut server, &mut jtag, b"settck:\x65\x04\x00\x00");
    assert_eq!(action, ServerAction::Send { length: 4 });
    assert_eq!(server.reply(), &2_000u32.to_le_bytes()[..]);
    assert_eq!(jtag.period_ns(), 2_000);
    assert_eq!(server.sent(&mut jtag, Ok(())), ServerAction::Read);
}

#[test]
fn shift_is_driven_and_its_answer_sent() {
    let (mut server, mut jtag) = session();
    let action = receive(&mut server, &mut jtag, b"shift:\x0b\x00\x00\x00\x01\x02\x03\x04");
    assert_eq!(action, ServerAction::Shift { bits: 11 });
    match server.shift_request() {
        Ok(shift) => {
            assert_eq!(shift.execution, ShiftExecution::BufferedCommand);
            assert_eq!(shift.bit_count, 11);
            assert_eq!(shift.tms, &[1, 2]);
            assert_eq!(shift.tdi, &[3, 4]);
            shift.tdo.copy_from_slice(&[0x55, 0x06]);
        }
        Err(error) => panic!("{:?}", error),
    }
    assert_eq!(server.shifted(Ok(())), ServerAction::Send { length: 2 });
    assert_eq!(server.reply(), &[0x55, 0x06]);
    assert_eq!(server.sent(&mut jtag, Ok(())), ServerAction::Read);
}

#[test]
fn requests_that_come_together_are_served_in_order() {
    let (mut server, mut jtag) = session();
    let action = receive(&mut server, &mut jtag, b"getinfo:settck:\x00\x00\x00\x00getinfo:");
    assert_eq!(action, ServerAction::Send { length: 22 });
    assert_eq!(server.sent(&mut jtag, Ok(())), ServerAction::Send { length: 4 });
    assert_eq!(server.reply(), &1_000u32.to_le_bytes()[..]);
    assert_eq!(server.sent(&mut jtag, Ok(())), ServerAction::Send { length: 22 });
    assert_eq!(server.sent(&mut jtag, Ok(())), ServerAction::Read);
}

#[test]
fn oversized_shift_is_streamed() {
    let (mut server, mut jtag) = session();
    let mut bytes = b"shift:".to_vec();
    bytes.extend_from_slice(&40_000u32.to_le_bytes());
    bytes.push(0xee);
    let action = receive(&mut server, &mut jtag, &bytes);
    assert_eq!(action, ServerAction::Stream { bit_count: 40_000 });
    let (window, _) = server.stream_parts();
    assert_eq!(window.data(), &[0xee]);
    window.consume(1);
    assert_eq!(server.streamed(&mut jtag, Ok(())), ServerAction::Read);
}

#[test]
fn failed_stream_ends_the_session() {
    let (mut server, mut jtag) = session();
    let mut bytes = b"shift:".to_vec();
    bytes.extend_from_slice(&u32::MAX.to_le_bytes());
    receive(&mut server, &mut jtag, &bytes);
    assert_eq!(
        server.streamed(&mut jtag, Err(StreamError::ShiftTooLarge)),
        closed(SessionError::Stream(StreamError::ShiftTooLarge))
    );
}

#[test]
fn nonsense_ends_the_session() {
    let (mut server, mut jtag) = session();
    let action = receive(&mut server, &mut jtag, b"GET / HTTP/1.1\r\nHost");
    assert_eq!(action, closed(SessionError::Protocol));
    assert_eq!(server.log_protocol_error(), b"GET / HTTP/1.1\r\n");
}

#[test]
fn failures_end_the_session() {
    let (mut server, mut jtag) = session();
    assert_eq!(
        server.received(&mut jtag, Err(TransportError::Timeout)),
        closed(SessionError::Transport(TransportError::Timeout))
    );
    let (mut server, mut jtag) = session();
    receive(&mut server, &mut jtag, b"shift:\x01\x00\x00\x00\x00\x00");
    assert_eq!(
        server.shifted(Err(JtagError::WorkerFailed)),
        closed(SessionError::Jtag(JtagError::WorkerFailed))
    );
    let (mut server, mut jtag) = session();
    receive(&mut server, &mut jtag, b"getinfo:");
    assert_eq!(
        server.sent(&mut jtag, Err(TransportError::Disconnected)),
        closed(SessionError::Transport(TransportError::Disconnected))
    );
}

#[test]
fn clients_that_cannot_be_served_are_closed() {
    let mut server = server();
    let mut jtag = JtagService::new();
    server.listen(&mut jtag);
    assert_eq!(
        server.accepted(false),
        ServerAction::Close { reason: CloseReason::AcceptFailed, pause_ms: ACCEPT_RETRY_MS }
    );
    server.listen(&mut jtag);
    server.accepted(true);
    assert_eq!(
        server.tap_reset(Err(JtagError::Busy)),
        ServerAction::Close { reason: CloseReason::ResetFailed(JtagError::Busy), pause_ms: 0 }
    );
}

#[test]
fn every_session_starts_afresh() {
    let (mut server, mut jtag) = session();
    receive(&mut server, &mut jtag, b"settck:\xff\xff\xff\xffgetin");
    assert_eq!(jtag.period_ns(), 1_000_000);
    server.sent(&mut jtag, Err(TransportError::Disconnected));
    assert_eq!(server.listen(&mut jtag), ServerAction::Accept { port: 2_542 });
    assert_eq!(jtag.period_ns(), 1_000);
    server.accepted(true);
    server.tap_reset(Ok(()));
    let action = receive(&mut server, &mut jtag, b"getinfo:");
    assert_eq!(action, ServerAction::Send { length: 22 });
}

#[test]
fn largest_buffered_shift_fits() {
    let (mut server, mut jtag) = session();
    let mut bytes = b"shift:".to_vec();
    bytes.extend_from_slice(&32_768u32.to_le_bytes());
    bytes.extend_from_slice(&vec![0xa5; 8_192]);
    assert_eq!(receive(&mut server, &mut jtag, &bytes[..8_000]), ServerAction::Read);
    assert_eq!(
        receive(&mut server, &mut jtag, &bytes[8_000..]),
        ServerAction::Shift { bits: 32_768 }
    );
    assert_eq!(server.shifted(Ok(())), ServerAction::Send { length: 4_096 });
}

/// Runs a session over `input`, cut into pieces of `piece` bytes. Every shift is
/// answered with the complement of TDI. The answer is what was sent.
fn converse(input: &[u8], piece: usize) -> Vec<u8> {
    let (mut server, mut jtag) = session();
    let mut rest = input;
    let mut sent = Vec::new();
    let mut action = ServerAction::Read;
    loop {
        action = match action {
            ServerAction::Read => {
                if rest.is_empty() {
                    return sent;
                }
                let space = match server.read_space() {
                    Ok(space) => space,
                    Err(error) => panic!("{:?}", error),
                };
                let count = piece.min(rest.len()).min(space.len());
                space[..count].copy_from_slice(&rest[..count]);
                rest = &rest[count..];
                server.received(&mut jtag, Ok(count))
            }
            ServerAction::Send { length } => {
                assert_eq!(server.reply().len(), length);
                sent.extend_from_slice(server.reply());
                server.sent(&mut jtag, Ok(()))
            }
            ServerAction::Shift { .. } => {
                match server.shift_request() {
                    Ok(shift) => {
                        for index in 0..shift.tdo.len() {
                            shift.tdo[index] = !shift.tdi[index];
                        }
                    }
                    Err(error) => panic!("{:?}", error),
                }
                server.shifted(Ok(()))
            }
            ServerAction::Stream { bit_count } => {
                let (window, workspace) = server.stream_parts();
                let outcome = stream(bit_count, window, workspace, &mut rest, piece, &mut sent);
                server.streamed(&mut jtag, outcome)
            }
            other => panic!("{:?}", other),
        };
    }
}

fn stream(
    bit_count: usize,
    window: &mut ReceiveWindow,
    workspace: &mut StreamWorkspace,
    rest: &mut &[u8],
    piece: usize,
    sent: &mut Vec<u8>,
) -> Result<(), StreamError> {
    let (mut shift, mut action) = StreamShift::start(bit_count, workspace, window)?;
    loop {
        action = match action {
            StreamAction::Read => {
                let space = shift.fill_space();
                let count = piece.min(rest.len()).min(space.len());
                space[..count].copy_from_slice(&rest[..count]);
                *rest = &rest[count..];
                shift.received(window, Ok(count))
            }
            StreamAction::Shift { .. } => {
                let (request, previous) = shift.shift_parts()?;
                sent.extend_from_slice(previous);
                for index in 0..request.tdo.len() {
                    request.tdo[index] = !request.tdi[index];
                }
                shift.shifted(window, Ok(()), Ok(()))
            }
            StreamAction::Send { .. } => {
                sent.extend_from_slice(shift.last_tdo());
                shift.sent(Ok(()))
            }
            StreamAction::Finished(outcome) => return outcome,
        };
    }
}

fn shift_frame(bits: u32, tms: &[u8], tdi: &[u8]) -> Vec<u8> {
    let mut bytes = b"shift:".to_vec();
    bytes.extend_from_slice(&bits.to_le_bytes());
    bytes.extend_from_slice(tms);
    bytes.extend_from_slice(tdi);
    bytes
}

#[test]
fn cutting_the_input_changes_no_reply() {
    let large: Vec<u8> = (0..5_000u32).map(|i| (i * 7) as u8).collect();
    let mut input = b"getinfo:settck:\x65\x04\x00\x00".to_vec();
    input.extend_from_slice(&shift_frame(11, &[1, 2], &[3, 4]));
    input.extend_from_slice(&shift_frame(40_000, &vec![0; 5_000], &large));
    input.extend_from_slice(b"getinfo:");
    input.extend_from_slice(&shift_frame(0, &[], &[]));
    input.extend_from_slice(&shift_frame(8, &[0], &[0xf0]));

    let mut expected = b"xvcServer_v1.0:196608\n".to_vec();
    expected.extend_from_slice(&2_000u32.to_le_bytes());
    expected.extend_from_slice(&[!3, !4]);
    expected.extend(large.iter().map(|byte| !byte));
    expected.extend_from_slice(b"xvcServer_v1.0:196608\n");
    expected.push(0x0f);
    for piece in [1, 7, 256, 4_000, input.len()] {
        assert_eq!(converse(&input, piece), expected);
    }
}
