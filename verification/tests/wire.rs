use esp32_xvc::xvc::wire::{decode, to_le_bytes, Command, DecodeOutcome, GETINFO_RESPONSE};

fn shift_frame(bits: u32, tms: &[u8], tdi: &[u8]) -> Vec<u8> {
    let mut data = b"shift:".to_vec();
    data.extend_from_slice(&bits.to_le_bytes());
    data.extend_from_slice(tms);
    data.extend_from_slice(tdi);
    data
}

#[test]
fn getinfo_is_decoded() {
    match decode(b"getinfo:settck:") {
        DecodeOutcome::Command { command: Command::GetInfo, consumed } => assert_eq!(consumed, 8),
        _ => panic!("not a query"),
    }
}

#[test]
fn getinfo_response_names_version_and_size() {
    assert_eq!(&GETINFO_RESPONSE[..], &b"xvcServer_v1.0:196608\n"[..]);
}

#[test]
fn settck_is_decoded() {
    match decode(&[0x73, 0x65, 0x74, 0x74, 0x63, 0x6b, 0x3a, 0x64, 0x00, 0x01, 0x80, 0xff]) {
        DecodeOutcome::Command {
            command: Command::SetTck { requested_period_ns },
            consumed,
        } => {
            assert_eq!(requested_period_ns, 0x8001_0064);
            assert_eq!(consumed, 11);
        }
        _ => panic!("not a clock request"),
    }
}

#[test]
fn shift_is_decoded() {
    let data = shift_frame(11, &[1, 2], &[3, 4]);
    match decode(&data) {
        DecodeOutcome::Command { command: Command::Shift(shift), consumed } => {
            assert_eq!(shift.bit_count, 11);
            assert_eq!(shift.tms, &[1, 2]);
            assert_eq!(shift.tdi, &[3, 4]);
            assert_eq!(consumed, 14);
        }
        _ => panic!("not a shift"),
    }
}

#[test]
fn empty_shift_is_decoded() {
    match decode(&shift_frame(0, &[], &[])) {
        DecodeOutcome::Command { command: Command::Shift(shift), consumed } => {
            assert_eq!(shift.bit_count, 0);
            assert_eq!(consumed, 10);
        }
        _ => panic!("not a shift"),
    }
}

#[test]
fn partial_requests_need_more() {
    let whole: [Vec<u8>; 3] = [
        b"getinfo:".to_vec(),
        b"settck:\x01\x02\x03\x04".to_vec(),
        shift_frame(9, &[1, 2], &[3, 4]),
    ];
    for request in whole {
        for received in 0..request.len() {
            assert!(matches!(decode(&request[..received]), DecodeOutcome::NeedMore));
        }
        assert!(matches!(decode(&request), DecodeOutcome::Command { .. }));
    }
}

#[test]
fn largest_buffered_shift_is_not_streamed() {
    let data = shift_frame(32_768, &vec![0; 4_096], &vec![0; 4_096]);
    assert!(matches!(decode(&data), DecodeOutcome::Command { consumed: 8_202, .. }));
    assert!(matches!(decode(&data[..8_201]), DecodeOutcome::NeedMore));
}

#[test]
fn oversized_shift_is_streamed_from_its_header() {
    match decode(&shift_frame(32_769, &[], &[])) {
        DecodeOutcome::StreamingShift { bit_count, consumed } => {
            assert_eq!(bit_count, 32_769);
            assert_eq!(consumed, 10);
        }
        _ => panic!("not streamed"),
    }
}

#[test]
fn unknown_bytes_are_an_error() {
    assert!(matches!(decode(b"shiftx:0"), DecodeOutcome::ProtocolError));
    assert!(matches!(decode(b"GETINFO:"), DecodeOutcome::ProtocolError));
    assert!(matches!(decode(b"GETINFO"), DecodeOutcome::NeedMore));
}

#[test]
fn numbers_are_little_endian() {
    assert_eq!(to_le_bytes(0x0403_0201), [1, 2, 3, 4]);
    assert_eq!(to_le_bytes(u32::MAX), [0xff; 4]);
}
