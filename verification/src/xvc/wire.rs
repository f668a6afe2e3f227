//! XVC wire-format decoding.

use vstd::prelude::*;
use vstd::slice::slice_subrange;

use crate::bits::{byte_len, bytes_for_bits};
use crate::decimal::{all_digits, decimal_value, lemma_decimal_push};
use crate::xvc::tms::RAW_TMS_MAX_BYTES;

verus! {

/// Largest shift that is decoded as one frame; longer ones are streamed.
pub const BUFFERED_SHIFT_MAX_BITS: usize = 32_768;

/// Bytes of one vector of the largest buffered shift.
pub const BUFFERED_SHIFT_MAX_BYTES: usize = 4_096;

/// Leading bytes of a shift request, `shift:`.
pub const SHIFT_TAG: [u8; 6] = [0x73, 0x68, 0x69, 0x66, 0x74, 0x3a];

/// The whole of a server query, `getinfo:`.
pub const GETINFO_TAG: [u8; 8] = [0x67, 0x65, 0x74, 0x69, 0x6e, 0x66, 0x6f, 0x3a];

/// Leading bytes of a clock request, `settck:`.
pub const SETTCK_TAG: [u8; 7] = [0x73, 0x65, 0x74, 0x74, 0x63, 0x6b, 0x3a];

/// Answer to `getinfo:`, the line `xvcServer_v1.0:196608`.
pub const GETINFO_RESPONSE: [u8; 22] = [
    0x78, 0x76, 0x63, 0x53, 0x65, 0x72, 0x76, 0x65, 0x72, 0x5f, 0x76, 0x31, 0x2e, 0x30, 0x3a,
    0x31, 0x39, 0x36, 0x36, 0x30, 0x38, 0x0a,
];

/// Value of four bytes, least significant first.
pub open spec fn le_value(bytes: Seq<u8>) -> nat {
    (bytes[0] + 256 * bytes[1] + 65_536 * bytes[2] + 16_777_216 * bytes[3]) as nat
}

/// The four bytes of a value, least significant first.
pub open spec fn le_bytes(value: u32) -> Seq<u8> {
    seq![
        (value % 256) as u8,
        (value / 256 % 256) as u8,
        (value / 65_536 % 256) as u8,
        (value / 16_777_216) as u8,
    ]
}

/// A request as the client means it.
pub enum Request {
    GetInfo,
    SetTck { requested_period_ns: u32 },
    Shift { bit_count: nat, tms: Seq<u8>, tdi: Seq<u8> },
}

/// What the bytes received so far amount to.
pub enum Frame {
    NeedMore,
    Command { request: Request, consumed: nat },
    StreamingShift { bit_count: nat, consumed: nat },
    ProtocolError,
}

/// Bytes of a complete buffered shift frame of `bit_count` bits.
pub open spec fn shift_frame_len(bit_count: nat) -> nat {
    10 + 2 * byte_len(bit_count)
}

/// Reads a buffer that starts with `shift:`.
pub open spec fn shift_frame(data: Seq<u8>) -> Frame {
    let bit_count = le_value(data.subrange(6, 10));
    let bytes = byte_len(bit_count) as int;
    if data.len() < 10 {
        Frame::NeedMore
    } else if bit_count > BUFFERED_SHIFT_MAX_BITS {
        Frame::StreamingShift { bit_count, consumed: 10 }
    } else if data.len() < shift_frame_len(bit_count) {
        Frame::NeedMore
    } else {
        Frame::Command {
            request: Request::Shift {
                bit_count,
                tms: data.subrange(10, 10 + bytes),
                tdi: data.subrange(10 + bytes, 10 + 2 * bytes),
            },
            consumed: shift_frame_len(bit_count),
        }
    }
}

/// The frame at the start of `data`.
pub open spec fn frame(data: Seq<u8>) -> Frame {
    if SHIFT_TAG@.is_prefix_of(data) {
        shift_frame(data)
    } else if data.len() < 8 {
        Frame::NeedMore
    } else if GETINFO_TAG@.is_prefix_of(data) {
        Frame::Command { request: Request::GetInfo, consumed: 8 }
    } else if SETTCK_TAG@.is_prefix_of(data) {
        if data.len() < 11 {
            Frame::NeedMore
        } else {
            Frame::Command {
                request: Request::SetTck {
                    requested_period_ns: le_value(data.subrange(7, 11)) as u32,
                },
                consumed: 11,
            }
        }
    } else {
        Frame::ProtocolError
    }
}

/// A decoded request whose vectors lie in the receive buffer.
pub enum Command<'data> {
    GetInfo,
    SetTck { requested_period_ns: u32 },
    Shift(BufferedShift<'data>),
}

/// A shift small enough to be held in the receive buffer.
pub struct BufferedShift<'data> {
    pub bit_count: usize,
    pub tms: &'data [u8],
    pub tdi: &'data [u8],
}

/// Outcome of decoding the start of a buffer.
pub enum DecodeOutcome<'data> {
    NeedMore,
    Command { command: Command<'data>, consumed: usize },
    StreamingShift { bit_count: usize, consumed: usize },
    ProtocolError,
}

impl<'data> View for Command<'data> {
    type V = Request;

    open spec fn view(&self) -> Request {
        match *self {
            Command::GetInfo => Request::GetInfo,
            Command::SetTck { requested_period_ns } => Request::SetTck { requested_period_ns },
            Command::Shift(shift) => Request::Shift {
                bit_count: shift.bit_count as nat,
                tms: shift.tms@,
                tdi: shift.tdi@,
            },
        }
    }
}

impl<'data> View for DecodeOutcome<'data> {
    type V = Frame;

    open spec fn view(&self) -> Frame {
        match *self {
            DecodeOutcome::NeedMore => Frame::NeedMore,
            DecodeOutcome::Command { command, consumed } => Frame::Command {
                request: command@,
                consumed: consumed as nat,
            },
            DecodeOutcome::StreamingShift { bit_count, consumed } => Frame::StreamingShift {
                bit_count: bit_count as nat,
                consumed: consumed as nat,
            },
            DecodeOutcome::ProtocolError => Frame::ProtocolError,
        }
    }
}

/// Whether `data` starts with `prefix`.
fn starts_with(data: &[u8], prefix: &[u8]) -> (found: bool)
    ensures
        found == prefix@.is_prefix_of(data@),
{
    if data.len() < prefix.len() {
        return false;
    }
    let mut index: usize = 0;
    while index < prefix.len()
        invariant
            index <= prefix@.len() <= data@.len(),
            forall|i: int| 0 <= i < index ==> prefix@[i] == data@[i],
        decreases prefix@.len() - index,
    {
        if data[index] != prefix[index] {
            return false;
        }
        index = index + 1;
    }
    assert(prefix@ =~= data@.subrange(0, prefix@.len() as int));
    true
}

/// Reads a little-endian value at `at`.
fn read_le(data: &[u8], at: usize) -> (value: u32)
    requires
        at + 4 <= data@.len(),
    ensures
        value == le_value(data@.subrange(at as int, at + 4)),
{
    data[at] as u32 + 256 * (data[at + 1] as u32) + 65_536 * (data[at + 2] as u32) + 16_777_216 * (
    data[at + 3] as u32)
}

/// The four bytes of `value`, least significant first.
pub fn to_le_bytes(value: u32) -> (bytes: [u8; 4])
    ensures
        bytes@ == le_bytes(value),
        le_value(bytes@) == value,
{
    let bytes = [
        (value % 256) as u8,
        (value / 256 % 256) as u8,
        (value / 65_536 % 256) as u8,
        (value / 16_777_216) as u8,
    ];
    assert(bytes@ =~= le_bytes(value));
    bytes
}

/// Decodes the frame at the start of `data`.
pub fn decode(data: &[u8]) -> (outcome: DecodeOutcome<'_>)
    ensures
        outcome@ == frame(data@),
{
    if starts_with(data, SHIFT_TAG.as_slice()) {
        if data.len() < 10 {
            return DecodeOutcome::NeedMore;
        }
        let bit_count: usize = read_le(data, 6) as usize;
        if bit_count > BUFFERED_SHIFT_MAX_BITS {
            return DecodeOutcome::StreamingShift { bit_count, consumed: 10 };
        }
        let byte_count: usize = bytes_for_bits(bit_count);
        let frame_len: usize = 10 + 2 * byte_count;
        if data.len() < frame_len {
            return DecodeOutcome::NeedMore;
        }
        return DecodeOutcome::Command {
            command: Command::Shift(
                BufferedShift {
                    bit_count,
                    tms: slice_subrange(data, 10, 10 + byte_count),
                    tdi: slice_subrange(data, 10 + byte_count, frame_len),
                },
            ),
            consumed: frame_len,
        };
    }
    if data.len() < 8 {
        return DecodeOutcome::NeedMore;
    }
    if starts_with(data, GETINFO_TAG.as_slice()) {
        return DecodeOutcome::Command { command: Command::GetInfo, consumed: 8 };
    }
    if starts_with(data, SETTCK_TAG.as_slice()) {
        if data.len() < 11 {
            return DecodeOutcome::NeedMore;
        }
        return DecodeOutcome::Command {
            command: Command::SetTck { requested_period_ns: read_le(data, 7) },
            consumed: 11,
        };
    }
    DecodeOutcome::ProtocolError
}

/// A request that fits in one frame: a shift is within the buffered limit and
/// has vectors of the length that its bit count asks for.
pub open spec fn is_frameable(request: Request) -> bool {
    match request {
        Request::Shift { bit_count, tms, tdi } => {
            &&& bit_count <= BUFFERED_SHIFT_MAX_BITS
            &&& tms.len() == byte_len(bit_count)
            &&& tdi.len() == byte_len(bit_count)
        },
        _ => true,
    }
}

/// The bytes by which a client sends a request.
pub open spec fn encode(request: Request) -> Seq<u8> {
    match request {
        Request::GetInfo => GETINFO_TAG@,
        Request::SetTck { requested_period_ns } => SETTCK_TAG@ + le_bytes(requested_period_ns),
        Request::Shift { bit_count, tms, tdi } => SHIFT_TAG@ + le_bytes(bit_count as u32) + tms
            + tdi,
    }
}

/// A number is read back from its little-endian bytes.
pub proof fn law_le_round_trip(value: u32)
    ensures
        le_value(le_bytes(value)) == value,
{
}

/// The tags differ within their first bytes.
pub proof fn lemma_tags_differ(data: Seq<u8>)
    ensures
        GETINFO_TAG@.is_prefix_of(data) ==> !SHIFT_TAG@.is_prefix_of(data)
            && !SETTCK_TAG@.is_prefix_of(data),
        SETTCK_TAG@.is_prefix_of(data) ==> !SHIFT_TAG@.is_prefix_of(data)
            && !GETINFO_TAG@.is_prefix_of(data),
{
    if GETINFO_TAG@.is_prefix_of(data) {
        assert(data[0] == GETINFO_TAG@[0]);
        if SHIFT_TAG@.is_prefix_of(data) {
            assert(data[0] == SHIFT_TAG@[0]);
        }
    }
    if SETTCK_TAG@.is_prefix_of(data) {
        assert(data[1] == SETTCK_TAG@[1]);
        assert(data[0] == SETTCK_TAG@[0]);
        if SHIFT_TAG@.is_prefix_of(data) {
            assert(data[1] == SHIFT_TAG@[1]);
        }
        if GETINFO_TAG@.is_prefix_of(data) {
            assert(data[0] == GETINFO_TAG@[0]);
        }
    }
}

/// A query is decoded as it was sent.
proof fn lemma_decodes_getinfo(rest: Seq<u8>)
    ensures
        frame(GETINFO_TAG@ + rest) == (Frame::Command { request: Request::GetInfo, consumed: 8 }),
{
    let data = GETINFO_TAG@ + rest;
    lemma_tags_differ(data);
    assert(GETINFO_TAG@ =~= data.subrange(0, 8));
}

/// A clock request is decoded as it was sent.
proof fn lemma_decodes_settck(requested_period_ns: u32, rest: Seq<u8>)
    ensures
        frame(SETTCK_TAG@ + le_bytes(requested_period_ns) + rest) == (Frame::Command {
            request: Request::SetTck { requested_period_ns },
            consumed: 11,
        }),
{
    let data = SETTCK_TAG@ + le_bytes(requested_period_ns) + rest;
    lemma_tags_differ(data);
    assert(SETTCK_TAG@ =~= data.subrange(0, 7));
    assert(data.subrange(7, 11) =~= le_bytes(requested_period_ns));
    law_le_round_trip(requested_period_ns);
}

/// A shift is decoded as it was sent.
proof fn lemma_decodes_shift(bit_count: u32, tms: Seq<u8>, tdi: Seq<u8>, rest: Seq<u8>)
    requires
        bit_count <= BUFFERED_SHIFT_MAX_BITS,
        tms.len() == byte_len(bit_count as nat),
        tdi.len() == byte_len(bit_count as nat),
    ensures
        frame(SHIFT_TAG@ + le_bytes(bit_count) + tms + tdi + rest) == (Frame::Command {
            request: Request::Shift { bit_count: bit_count as nat, tms, tdi },
            consumed: shift_frame_len(bit_count as nat),
        }),
{
    let data = SHIFT_TAG@ + le_bytes(bit_count) + tms + tdi + rest;
    let bytes = byte_len(bit_count as nat) as int;
    assert(SHIFT_TAG@ =~= data.subrange(0, 6));
    assert(data.subrange(6, 10) =~= le_bytes(bit_count));
    law_le_round_trip(bit_count);
    assert(data.subrange(10, 10 + bytes) =~= tms);
    assert(data.subrange(10 + bytes, 10 + 2 * bytes) =~= tdi);
}

/// Every request that fits in a frame is decoded as it was sent, whatever
/// follows it, and exactly its own bytes are consumed.
pub proof fn law_decodes_what_was_sent(request: Request, rest: Seq<u8>)
    requires
        is_frameable(request),
    ensures
        frame(encode(request) + rest) == (Frame::Command {
            request,
            consumed: encode(request).len(),
        }),
{
    match request {
        Request::GetInfo => {
            assert(encode(request) == GETINFO_TAG@);
            lemma_decodes_getinfo(rest);
        },
        Request::SetTck { requested_period_ns } => {
            assert(encode(request) == SETTCK_TAG@ + le_bytes(requested_period_ns));
            lemma_decodes_settck(requested_period_ns, rest);
        },
        Request::Shift { bit_count, tms, tdi } => {
            let count = bit_count as u32;
            assert(encode(request) == SHIFT_TAG@ + le_bytes(count) + tms + tdi);
            lemma_decodes_shift(count, tms, tdi, rest);
            assert(encode(request).len() == shift_frame_len(bit_count));
        },
    }
}

/// When a request is consumed, what is left in the window is what follows it.
pub proof fn law_next_request_follows(request: Request, rest: Seq<u8>)
    ensures
        (encode(request) + rest).skip(encode(request).len() as int) == rest,
{
    assert((encode(request) + rest).skip(encode(request).len() as int) =~= rest);
}

/// While a request is only partly received, more bytes are asked for.
pub proof fn law_partial_request_needs_more(request: Request, received: nat)
    requires
        is_frameable(request),
        received < encode(request).len(),
    ensures
        frame(encode(request).take(received as int)) == Frame::NeedMore,
{
    let data = encode(request).take(received as int);
    match request {
        Request::GetInfo => {
            if SHIFT_TAG@.is_prefix_of(data) {
                assert(data[0] == SHIFT_TAG@[0]);
                assert(data[0] == GETINFO_TAG@[0]);
            }
        },
        Request::SetTck { .. } => {
            if SHIFT_TAG@.is_prefix_of(data) {
                assert(data[1] == SHIFT_TAG@[1]);
                assert(data[1] == SETTCK_TAG@[1]);
            }
            if received >= 8 {
                if GETINFO_TAG@.is_prefix_of(data) {
                    assert(data[0] == GETINFO_TAG@[0]);
                    assert(data[0] == SETTCK_TAG@[0]);
                }
                assert(SETTCK_TAG@ =~= data.subrange(0, 7));
            }
        },
        Request::Shift { bit_count, .. } => {
            if received >= 6 {
                assert(SHIFT_TAG@ =~= data.subrange(0, 6));
                if received >= 10 {
                    assert(data.subrange(6, 10) =~= le_bytes(bit_count as u32));
                }
            }
        },
    }
}

/// A shift over the buffered limit is recognised from its ten header bytes
/// alone and is handed to the streaming path: it is never refused and never
/// waited for as a whole.
pub proof fn law_oversized_shift_is_streamed(bit_count: u32, rest: Seq<u8>)
    requires
        bit_count > BUFFERED_SHIFT_MAX_BITS,
    ensures
        frame(SHIFT_TAG@ + le_bytes(bit_count) + rest) == (Frame::StreamingShift {
            bit_count: bit_count as nat,
            consumed: 10,
        }),
{
    let data = SHIFT_TAG@ + le_bytes(bit_count) + rest;
    assert(SHIFT_TAG@ =~= data.subrange(0, 6));
    assert(data.subrange(6, 10) =~= le_bytes(bit_count));
}

/// More bytes are asked for only while fewer than one full frame are held.
pub proof fn law_waiting_is_bounded(data: Seq<u8>)
    ensures
        frame(data) is NeedMore ==> data.len() < shift_frame_len(BUFFERED_SHIFT_MAX_BITS as nat),
{
}

/// The size that `getinfo:` advertises, in bits, is the largest whose TMS vector
/// is kept as it is when a shift is streamed.
pub proof fn law_advertised_size_is_kept_raw(bit_count: nat)
    ensures
        all_digits(GETINFO_RESPONSE@.subrange(15, 21)),
        decimal_value(GETINFO_RESPONSE@.subrange(15, 21)) == 8 * RAW_TMS_MAX_BYTES,
        bit_count <= decimal_value(GETINFO_RESPONSE@.subrange(15, 21)) <==> byte_len(bit_count)
            <= RAW_TMS_MAX_BYTES,
{
    let digits = GETINFO_RESPONSE@.subrange(15, 21);
    let none = Seq::<u8>::empty();
    let d1 = none.push(0x31);
    let d2 = d1.push(0x39);
    let d3 = d2.push(0x36);
    let d4 = d3.push(0x36);
    let d5 = d4.push(0x30);
    let d6 = d5.push(0x38);
    assert(decimal_value(none) == 0);
    lemma_decimal_push(none, 0x31);
    lemma_decimal_push(d1, 0x39);
    lemma_decimal_push(d2, 0x36);
    lemma_decimal_push(d3, 0x36);
    lemma_decimal_push(d4, 0x30);
    lemma_decimal_push(d5, 0x38);
    assert(digits =~= d6);
}

/// Once a frame is recognised, bytes that arrive later do not change it.
pub proof fn law_later_bytes_change_nothing(data: Seq<u8>, more: Seq<u8>)
    requires
        !(frame(data) is NeedMore),
    ensures
        frame(data + more) == frame(data),
{
    let longer = data + more;
    assert(data.len() >= 8);
    assert(longer.subrange(0, 6) =~= data.subrange(0, 6));
    assert(longer.subrange(0, 7) =~= data.subrange(0, 7));
    assert(longer.subrange(0, 8) =~= data.subrange(0, 8));
    if SHIFT_TAG@.is_prefix_of(data) {
        let bytes = byte_len(le_value(data.subrange(6, 10))) as int;
        assert(longer.subrange(6, 10) =~= data.subrange(6, 10));
        if frame(data) is Command {
            assert(longer.subrange(10, 10 + bytes) =~= data.subrange(10, 10 + bytes));
            assert(longer.subrange(10 + bytes, 10 + 2 * bytes) =~= data.subrange(
                10 + bytes,
                10 + 2 * bytes,
            ));
        }
    } else if SETTCK_TAG@.is_prefix_of(data) {
        lemma_tags_differ(data);
        assert(longer.subrange(7, 11) =~= data.subrange(7, 11));
    }
}

/// Four bytes are those of the number that they stand for.
pub proof fn law_le_bytes_round_trip(bytes: Seq<u8>)
    requires
        bytes.len() == 4,
    ensures
        le_value(bytes) <= u32::MAX,
        le_bytes(le_value(bytes) as u32) == bytes,
{
    let b0 = bytes[0] as int;
    let b1 = bytes[1] as int;
    let b2 = bytes[2] as int;
    let b3 = bytes[3] as int;
    let value = b0 + 256 * b1 + 65_536 * b2 + 16_777_216 * b3;
    assert(value % 256 == b0);
    assert(value / 256 == b1 + 256 * b2 + 65_536 * b3);
    assert(value / 65_536 == b2 + 256 * b3);
    assert(value / 16_777_216 == b3);
    assert(le_bytes(le_value(bytes) as u32) =~= bytes);
}

/// A recognised request is one that fits in a frame, and the bytes that it
/// consumes are those by which a client sends it.
pub proof fn law_consumed_bytes_are_the_request(data: Seq<u8>)
    requires
        frame(data) is Command,
    ensures
        is_frameable(frame(data)->request),
        frame(data)->Command_consumed == encode(frame(data)->request).len(),
        data == encode(frame(data)->request) + data.skip(frame(data)->Command_consumed as int),
{
    let consumed = frame(data)->Command_consumed as int;
    let request = frame(data)->request;
    law_frame_lies_in_the_data(data);
    if SHIFT_TAG@.is_prefix_of(data) {
        let bit_count = le_value(data.subrange(6, 10));
        let bytes = byte_len(bit_count) as int;
        law_le_bytes_round_trip(data.subrange(6, 10));
        assert(data.take(consumed) =~= data.subrange(0, 6) + data.subrange(6, 10) + data.subrange(
            10,
            10 + bytes,
        ) + data.subrange(10 + bytes, 10 + 2 * bytes));
        assert(encode(request) == data.take(consumed));
    } else if GETINFO_TAG@.is_prefix_of(data) {
        assert(encode(request) == data.take(consumed));
    } else {
        law_le_bytes_round_trip(data.subrange(7, 11));
        assert(data.take(consumed) =~= data.subrange(0, 7) + data.subrange(7, 11));
        assert(encode(request) == data.take(consumed));
    }
    assert(data =~= data.take(consumed) + data.skip(consumed));
}

/// The header of a shift that is streamed is the one by which a client sends it.
pub proof fn law_consumed_header_is_the_shift(data: Seq<u8>)
    requires
        frame(data) is StreamingShift,
    ensures
        BUFFERED_SHIFT_MAX_BITS < frame(data)->bit_count <= u32::MAX,
        frame(data)->StreamingShift_consumed == 10,
        data == SHIFT_TAG@ + le_bytes(frame(data)->bit_count as u32) + data.skip(10),
{
    law_le_bytes_round_trip(data.subrange(6, 10));
    assert(data =~= data.subrange(0, 6) + data.subrange(6, 10) + data.skip(10));
}

/// A recognised frame consumes at least one byte and none that is not there.
pub proof fn law_frame_lies_in_the_data(data: Seq<u8>)
    ensures
        frame(data) matches Frame::Command { consumed, .. } ==> 0 < consumed <= data.len(),
        frame(data) matches Frame::StreamingShift { consumed, .. } ==> 0 < consumed <= data.len(),
{
}

/// The bytes of a number on the wire are its digits to the base 256, and the
/// first byte is the one that counts least.
pub proof fn law_first_byte_counts_least(bytes: Seq<u8>)
    requires
        bytes.len() == 4,
    ensures
        le_value(bytes) % 256 == bytes[0],
        le_value(bytes) / 256 % 256 == bytes[1],
        le_value(bytes) / 65_536 % 256 == bytes[2],
        le_value(bytes) / 16_777_216 == bytes[3],
{
    let b0 = bytes[0] as int;
    let b1 = bytes[1] as int;
    let b2 = bytes[2] as int;
    let b3 = bytes[3] as int;
    let value = b0 + 256 * b1 + 65_536 * b2 + 16_777_216 * b3;
    assert(value % 256 == b0);
    assert(value / 256 == b1 + 256 * b2 + 65_536 * b3);
    assert(value / 65_536 == b2 + 256 * b3);
    assert(value / 16_777_216 == b3);
}

/// The four bytes that a number is written as add up to it, each counting 256
/// times as much as the one before it.
pub proof fn law_written_bytes_add_up(value: u32)
    ensures
        le_bytes(value).len() == 4,
        le_bytes(value)[0] + 256 * le_bytes(value)[1] + 65_536 * le_bytes(value)[2] + 16_777_216
            * le_bytes(value)[3] == value,
{
}

/// `to_le_bytes` writes a number as four bytes that add up to it, each counting
/// 256 times as much as the one before it.
pub proof fn law_reply_bytes_add_up(value: u32, bytes: [u8; 4])
    requires
        call_ensures(to_le_bytes, (value,), bytes),
    ensures
        bytes@[0] + 256 * bytes@[1] + 65_536 * bytes@[2] + 16_777_216 * bytes@[3] == value,
{
    law_written_bytes_add_up(value);
}

/// What the first bytes say about the tags.
pub proof fn lemma_tag_bytes(data: Seq<u8>)
    ensures
        SHIFT_TAG@.is_prefix_of(data) <==> data.len() >= 6 && data.take(6) == seq![
            0x73u8,
            0x68,
            0x69,
            0x66,
            0x74,
            0x3a,
        ],
        GETINFO_TAG@.is_prefix_of(data) <==> data.len() >= 8 && data.take(8) == seq![
            0x67u8,
            0x65,
            0x74,
            0x69,
            0x6e,
            0x66,
            0x6f,
            0x3a,
        ],
        SETTCK_TAG@.is_prefix_of(data) <==> data.len() >= 7 && data.take(7) == seq![
            0x73u8,
            0x65,
            0x74,
            0x74,
            0x63,
            0x6b,
            0x3a,
        ],
{
    assert(SHIFT_TAG@ =~= seq![0x73u8, 0x68, 0x69, 0x66, 0x74, 0x3a]);
    assert(GETINFO_TAG@ =~= seq![0x67u8, 0x65, 0x74, 0x69, 0x6e, 0x66, 0x6f, 0x3a]);
    assert(SETTCK_TAG@ =~= seq![0x73u8, 0x65, 0x74, 0x74, 0x63, 0x6b, 0x3a]);
    if data.len() >= 6 {
        assert(data.take(6) =~= data.subrange(0, 6));
    }
    if data.len() >= 7 {
        assert(data.take(7) =~= data.subrange(0, 7));
    }
    if data.len() >= 8 {
        assert(data.take(8) =~= data.subrange(0, 8));
    }
}

/// A buffer that starts with `shift:` holds the number of bits in the next four
/// bytes, the lowest first. Up to 32768 bits, the TMS and the TDI vector follow,
/// each in as many bytes as the bits take, and nothing is decoded before both
/// are there. A longer shift is streamed as soon as its number of bits is there.
pub proof fn law_shift_is_decoded<'data>(data: &'data [u8], outcome: DecodeOutcome<'data>)
    requires
        call_ensures(decode, (data,), outcome),
        data@.len() >= 6,
        data@.take(6) == seq![0x73u8, 0x68, 0x69, 0x66, 0x74, 0x3a],
    ensures
        data@.len() < 10 ==> outcome is NeedMore,
        data@.len() >= 10 ==> {
            let bits = data@[6] + 256 * data@[7] + 65_536 * data@[8] + 16_777_216 * data@[9];
            let bytes = (bits + 7) / 8;
            if bits > 32_768 {
                &&& outcome matches DecodeOutcome::StreamingShift { bit_count, consumed }
                &&& bit_count == bits
                &&& consumed == 10
            } else if data@.len() < 10 + 2 * bytes {
                outcome is NeedMore
            } else {
                &&& outcome matches DecodeOutcome::Command {
                    command: Command::Shift(shift),
                    consumed,
                }
                &&& shift.bit_count == bits
                &&& shift.tms@ == data@.subrange(10, 10 + bytes)
                &&& shift.tdi@ == data@.subrange(10 + bytes, 10 + 2 * bytes)
                &&& consumed == 10 + 2 * bytes
            }
        },
{
    lemma_tag_bytes(data@);
}

/// A buffer that starts with `settck:` holds the requested period in the next
/// four bytes, the lowest first, and nothing is decoded before they are there.
pub proof fn law_clock_request_is_decoded<'data>(
    data: &'data [u8],
    outcome: DecodeOutcome<'data>,
)
    requires
        call_ensures(decode, (data,), outcome),
        data@.len() >= 7,
        data@.take(7) == seq![0x73u8, 0x65, 0x74, 0x74, 0x63, 0x6b, 0x3a],
    ensures
        data@.len() < 11 ==> outcome is NeedMore,
        data@.len() >= 11 ==> {
            &&& outcome matches DecodeOutcome::Command {
                command: Command::SetTck { requested_period_ns },
                consumed,
            }
            &&& requested_period_ns == data@[7] + 256 * data@[8] + 65_536 * data@[9] + 16_777_216
                * data@[10]
            &&& consumed == 11
        },
{
    lemma_tag_bytes(data@);
    lemma_tags_differ(data@);
}

/// A buffer that starts with `getinfo:` holds a query, and nothing but those
/// eight bytes belongs to it.
pub proof fn law_query_is_decoded<'data>(data: &'data [u8], outcome: DecodeOutcome<'data>)
    requires
        call_ensures(decode, (data,), outcome),
        data@.len() >= 8,
        data@.take(8) == seq![0x67u8, 0x65, 0x74, 0x69, 0x6e, 0x66, 0x6f, 0x3a],
    ensures
        outcome matches DecodeOutcome::Command { command: Command::GetInfo, consumed } && consumed
            == 8,
{
    lemma_tag_bytes(data@);
    lemma_tags_differ(data@);
}

/// Fewer than eight bytes that do not start with `shift:` may become any
/// request. Eight bytes or more that start with no tag are none.
pub proof fn law_other_bytes_are_refused<'data>(data: &'data [u8], outcome: DecodeOutcome<'data>)
    requires
        call_ensures(decode, (data,), outcome),
        data@.len() < 6 || data@.take(6) != seq![0x73u8, 0x68, 0x69, 0x66, 0x74, 0x3a],
    ensures
        data@.len() < 8 ==> outcome is NeedMore,
        data@.len() >= 8 && data@.take(7) != seq![0x73u8, 0x65, 0x74, 0x74, 0x63, 0x6b, 0x3a]
            && data@.take(8) != seq![0x67u8, 0x65, 0x74, 0x69, 0x6e, 0x66, 0x6f, 0x3a]
            ==> outcome is ProtocolError,
{
    lemma_tag_bytes(data@);
}

/// A client sends a query as `getinfo:`, a clock request as `settck:` and four
/// bytes that add up to the period, and a shift as `shift:`, four bytes that add
/// up to its number of bits, the TMS vector and the TDI vector.
pub proof fn law_requests_are_sent_tagged(request: Request)
    requires
        request matches Request::Shift { bit_count, .. } ==> bit_count <= u32::MAX,
    ensures
        match request {
            Request::GetInfo => encode(request) == seq![
                0x67u8,
                0x65,
                0x74,
                0x69,
                0x6e,
                0x66,
                0x6f,
                0x3a,
            ],
            Request::SetTck { requested_period_ns } => {
                let bytes = encode(request);
                &&& bytes.len() == 11
                &&& bytes.take(7) == seq![0x73u8, 0x65, 0x74, 0x74, 0x63, 0x6b, 0x3a]
                &&& bytes[7] + 256 * bytes[8] + 65_536 * bytes[9] + 16_777_216 * bytes[10]
                    == requested_period_ns
            },
            Request::Shift { bit_count, tms, tdi } => {
                let bytes = encode(request);
                &&& bytes.len() == 10 + tms.len() + tdi.len()
                &&& bytes.take(6) == seq![0x73u8, 0x68, 0x69, 0x66, 0x74, 0x3a]
                &&& bytes[6] + 256 * bytes[7] + 65_536 * bytes[8] + 16_777_216 * bytes[9]
                    == bit_count
                &&& bytes.subrange(10, (10 + tms.len()) as int) == tms
                &&& bytes.skip((10 + tms.len()) as int) == tdi
            },
        },
{
    let bytes = encode(request);
    match request {
        Request::GetInfo => {
            assert(bytes =~= seq![0x67u8, 0x65, 0x74, 0x69, 0x6e, 0x66, 0x6f, 0x3a]);
        },
        Request::SetTck { requested_period_ns } => {
            law_written_bytes_add_up(requested_period_ns);
            assert(bytes.take(7) =~= seq![0x73u8, 0x65, 0x74, 0x74, 0x63, 0x6b, 0x3a]);
        },
        Request::Shift { bit_count, tms, tdi } => {
            law_written_bytes_add_up(bit_count as u32);
            assert(bytes.take(6) =~= seq![0x73u8, 0x68, 0x69, 0x66, 0x74, 0x3a]);
            assert(bytes.subrange(10, (10 + tms.len()) as int) =~= tms);
            assert(bytes.skip((10 + tms.len()) as int) =~= tdi);
        },
    }
}

/// A shift fits in a frame exactly if it has at most 32768 bits and both vectors
/// have the bytes that these take; the other requests always do.
pub proof fn law_frames_hold_small_shifts(request: Request)
    ensures
        match request {
            Request::Shift { bit_count, tms, tdi } => is_frameable(request) <==> {
                &&& bit_count <= 32_768
                &&& tms.len() == (bit_count + 7) / 8
                &&& tdi.len() == (bit_count + 7) / 8
            },
            _ => is_frameable(request),
        },
{
}

} // verus!
