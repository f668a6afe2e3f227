//! Bounded-memory execution of shifts of any size up to a fixed maximum.
//!
//! A client may send shifts far larger than the receive buffer, whatever size
//! the server advertises. Such a shift is executed in chunks: the TMS vector is
//! retained first, then every TDI chunk is driven together with the matching
//! TMS bytes while the TDO bytes of the chunk before it are sent.

use std::collections::TryReserveError;

use vstd::prelude::*;
use vstd::slice::slice_subrange;

use crate::bits::{bit_at, byte_len, bytes_for_bits, lemma_bit_of_part};
use crate::jtag::shift::{JtagError, JtagShift, ShiftExecution};
use crate::xvc::error::{StreamError, TransportError};
use crate::xvc::report::{law_tail_comes_in_pieces, tail_of, TmsTail};
use crate::xvc::tms::{
    law_overflow_means_too_many_runs, lemma_stretches_grow, memory_is_refused, refused_at,
    stretch_count, StorageDescription, TmsStorage, MAX_RLE_RUNS, RAW_TMS_MAX_BYTES,
};
use crate::xvc::window::ReceiveWindow;

verus! {

/// Largest shift that is executed at all.
pub const ABSOLUTE_MAX_BITS: usize = 2_097_152;

/// Bits driven in one go.
pub const CHUNK_BITS: usize = 2_048;

/// Bytes of one vector of a chunk.
pub const CHUNK_BYTES: usize = 256;

/// One of the two TDO buffers.
#[derive(Debug, Clone, Copy, PartialEq, Eq, Structural)]
pub enum Slot {
    First,
    Second,
}

impl Slot {
    /// Place of the buffer in the pair.
    pub open spec fn place(self) -> int {
        match self {
            Slot::First => 0,
            Slot::Second => 1,
        }
    }

    /// The buffer that is not this one.
    pub open spec fn opposite(self) -> Slot {
        match self {
            Slot::First => Slot::Second,
            Slot::Second => Slot::First,
        }
    }

    /// Place of the buffer in the pair.
    pub fn index(self) -> (index: usize)
        ensures
            index == self.place(),
    {
        match self {
            Slot::First => 0,
            Slot::Second => 1,
        }
    }

    /// The buffer that is not this one.
    pub fn other(self) -> (other: Slot)
        ensures
            other == self.opposite(),
            other != self,
    {
        match self {
            Slot::First => Slot::Second,
            Slot::Second => Slot::First,
        }
    }
}

/// The buffer to fill, and the other one to send from.
pub fn split_tdo_buffers(buffers: &mut [[u8; CHUNK_BYTES]; 2], fill: Slot) -> (parts: (
    &mut [u8; CHUNK_BYTES],
    &[u8; CHUNK_BYTES],
))
    ensures
        *parts.0 == old(buffers)@[fill.place()],
        *parts.1 == old(buffers)@[fill.opposite().place()],
        final(buffers)@[fill.place()] == *final(parts.0),
        final(buffers)@[fill.opposite().place()] == old(buffers)@[fill.opposite().place()],
{
    let pair: &mut [[u8; CHUNK_BYTES]] = &mut *buffers;
    let (first, second) = pair.split_at_mut(1);
    match fill {
        Slot::First => (&mut first[0], &second[0]),
        Slot::Second => (&mut second[0], &first[0]),
    }
}

/// The bytes of a chunk between two positions.
fn middle_mut(chunk: &mut [u8; CHUNK_BYTES], from: usize, to: usize) -> (middle: &mut [u8])
    requires
        from <= to <= CHUNK_BYTES,
    ensures
        middle@ == old(chunk)@.subrange(from as int, to as int),
        final(chunk)@.take(from as int) == old(chunk)@.take(from as int),
        final(chunk)@.subrange(from as int, to as int) == final(middle)@,
{
    assert forall|a: Seq<u8>, b: Seq<u8>, c: Seq<u8>|
        a.len() == from && c.len() == CHUNK_BYTES - to && a.len() + b.len() + c.len()
            == CHUNK_BYTES implies (#[trigger] (a + b + c)).subrange(from as int, to as int) == b
        && (a + b + c).take(from as int) == a by {
        assert((a + b + c).subrange(from as int, to as int) =~= b);
        assert((a + b + c).take(from as int) =~= a);
    }
    let bytes: &mut [u8] = &mut *chunk;
    let (front, _) = bytes.split_at_mut(to);
    let (_, middle) = front.split_at_mut(from);
    middle
}

/// The buffers of a streamed shift.
pub struct StreamWorkspace {
    tms_storage: TmsStorage,
    raw_tms: [u8; RAW_TMS_MAX_BYTES],
    tms_chunk: [u8; CHUNK_BYTES],
    tdi_chunk: [u8; CHUNK_BYTES],
    tdo_buffers: [[u8; CHUNK_BYTES]; 2],
}

impl StreamWorkspace {
    /// All buffers are zero and no TMS byte is retained.
    pub closed spec fn is_clear(&self) -> bool {
        &&& self.tms_storage.sound()
        &&& self.tms_storage.is_rewound()
        &&& self.tms_storage.content(self.raw_tms@) == Seq::<u8>::empty()
        &&& forall|i: int| 0 <= i < RAW_TMS_MAX_BYTES ==> self.raw_tms@[i] == 0
        &&& forall|i: int| 0 <= i < CHUNK_BYTES ==> self.tms_chunk@[i] == 0
        &&& forall|i: int| 0 <= i < CHUNK_BYTES ==> self.tdi_chunk@[i] == 0
        &&& forall|slot: int, i: int|
            0 <= slot < 2 && 0 <= i < CHUNK_BYTES ==> self.tdo_buffers@[slot]@[i] == 0
    }

    /// Cleared buffers.
    pub fn new() -> (workspace: Self)
        ensures
            workspace.is_clear(),
    {
        StreamWorkspace {
            tms_storage: TmsStorage::new(),
            raw_tms: [0; RAW_TMS_MAX_BYTES],
            tms_chunk: [0; CHUNK_BYTES],
            tdi_chunk: [0; CHUNK_BYTES],
            tdo_buffers: [[0; CHUNK_BYTES]; 2],
        }
    }
}

/// A TDO chunk that was captured and is yet to be sent.
#[derive(Clone, Copy)]
pub struct PendingTdo {
    slot: Slot,
    length: usize,
}

/// What the shift does at the moment.
enum Phase {
    /// Reading a chunk of TMS.
    FillTms { length: usize, received: usize },
    /// Reading a chunk of TDI; the matching TMS bytes are laid out.
    FillTdi { length: usize, received: usize },
    /// Waiting for a chunk to be driven.
    Shifting { length: usize },
    /// Waiting for the last TDO chunk to be sent.
    Sending,
    /// Over.
    Finished,
}

/// Bytes that went through a streamed shift.
pub struct StreamLog {
    /// Bytes that were in the window at the start.
    pub offered: Seq<u8>,
    /// Bytes read from the client since then, in order.
    pub fetched: Seq<u8>,
    /// Bytes taken for the shift, in order.
    pub input: Seq<u8>,
    /// TDO bytes of the chunks that were driven, in order.
    pub captured: Seq<u8>,
    /// Bytes sent to the client, in order.
    pub sent: Seq<u8>,
}

/// What the caller does next for a streamed shift.
#[derive(Debug, Clone, Copy, PartialEq, Eq)]
pub enum StreamAction {
    /// Read into `fill_space` and report to `received`.
    Read,
    /// Drive `shift_parts` while sending `send` bytes of the chunk before it,
    /// if there is one, and report to `shifted`.
    Shift { bits: usize, send: Option<usize> },
    /// Send `last_tdo` and report to `sent`.
    Send { length: usize },
    /// The shift is over.
    Finished(Result<(), StreamError>),
}

/// Stages of a streamed shift.
pub enum StreamStage {
    Reading,
    Shifting,
    Sending,
    Finished,
}

/// Least of two numbers.
pub open spec fn lesser(a: nat, b: nat) -> nat {
    if a < b {
        a
    } else {
        b
    }
}

/// Where the last chunk of the TMS bytes taken so far starts.
pub open spec fn last_chunk_start(input: Seq<u8>) -> int {
    CHUNK_BYTES * ((input.len() - 1) / CHUNK_BYTES as int)
}

/// Whether the retention of these TMS bytes gives up in their last chunk, for
/// this reason.
pub open spec fn gives_up(input: Seq<u8>, error: StreamError) -> bool {
    exists|kept: int| last_chunk_start(input) <= kept && #[trigger] refused_at(input, kept, error)
}

/// A streamed shift in progress.
pub struct StreamShift<'w> {
    workspace: &'w mut StreamWorkspace,
    bit_count: usize,
    tms_remaining: usize,
    bits_remaining: usize,
    pending: Option<PendingTdo>,
    fill_slot: Slot,
    phase: Phase,
    tail: TmsTail,
    log: Ghost<StreamLog>,
}

impl<'w> StreamShift<'w> {
    /// Number of bits of the whole shift.
    pub closed spec fn bits(&self) -> nat {
        self.bit_count as nat
    }

    /// Number of bytes of each vector.
    pub open spec fn bytes(&self) -> nat {
        byte_len(self.bits())
    }

    /// Bytes taken from the client so far: first the TMS vector, then TDI.
    pub closed spec fn input(&self) -> Seq<u8> {
        self.log@.input
    }

    /// Bytes that were in the window at the start.
    pub closed spec fn offered(&self) -> Seq<u8> {
        self.log@.offered
    }

    /// Bytes read from the client since then.
    pub closed spec fn fetched(&self) -> Seq<u8> {
        self.log@.fetched
    }

    /// No byte was lost, added or reordered: what was offered and then fetched
    /// is what was taken for the shift and then is left in the window.
    pub open spec fn balanced(&self, window: Seq<u8>) -> bool {
        self.offered() + self.fetched() == self.input() + window
    }

    /// TDO bytes captured so far.
    pub closed spec fn captured(&self) -> Seq<u8> {
        self.log@.captured
    }

    /// TDO bytes sent so far.
    pub closed spec fn sent_bytes(&self) -> Seq<u8> {
        self.log@.sent
    }

    /// Number of bits driven and captured so far.
    pub closed spec fn bits_done(&self) -> nat {
        (self.bit_count - self.bits_remaining) as nat
    }

    /// Bits of the chunk that is being read or driven.
    pub open spec fn chunk_bits(&self) -> nat {
        lesser((self.bits() - self.bits_done()) as nat, CHUNK_BITS as nat)
    }

    /// Bytes of each vector of that chunk.
    pub open spec fn chunk_bytes(&self) -> nat {
        byte_len(self.chunk_bits())
    }

    /// Bytes of each vector that lie before that chunk.
    pub open spec fn offset(&self) -> nat {
        byte_len(self.bits_done())
    }

    /// What the shift waits for.
    pub closed spec fn stage(&self) -> StreamStage {
        match self.phase {
            Phase::FillTms { .. } => StreamStage::Reading,
            Phase::FillTdi { .. } => StreamStage::Reading,
            Phase::Shifting { .. } => StreamStage::Shifting,
            Phase::Sending => StreamStage::Sending,
            Phase::Finished => StreamStage::Finished,
        }
    }

    /// Contents of the room for the bytes that are to be read.
    pub closed spec fn fill_bytes(&self) -> Seq<u8> {
        match self.phase {
            Phase::FillTms { length, received } => self.workspace.tms_chunk@.subrange(
                received as int,
                length as int,
            ),
            Phase::FillTdi { length, received } => self.workspace.tdi_chunk@.subrange(
                received as int,
                length as int,
            ),
            _ => Seq::empty(),
        }
    }

    /// Contents of the TDO buffer of the chunk that is being driven.
    pub closed spec fn tdo_chunk(&self) -> Seq<u8> {
        self.workspace.tdo_buffers@[self.fill_slot.place()]@.take(self.chunk_bytes() as int)
    }

    /// Whether the TMS vector is kept as it is, not in runs.
    pub open spec fn keeps_raw_tms(&self) -> bool {
        self.bytes() <= RAW_TMS_MAX_BYTES
    }

    /// TDO bytes captured and not yet sent.
    spec fn pending_bytes(&self) -> Seq<u8> {
        match self.pending {
            Some(pending) => self.workspace.tdo_buffers@[pending.slot.place()]@.take(
                pending.length as int,
            ),
            None => Seq::empty(),
        }
    }

    /// TMS bytes that are retained.
    spec fn kept(&self) -> Seq<u8> {
        self.workspace.tms_storage.content(self.workspace.raw_tms@)
    }

    /// Facts that hold in every phase.
    spec fn base_ok(&self) -> bool {
        &&& self.bit_count <= ABSOLUTE_MAX_BITS
        &&& self.tms_remaining <= self.bytes()
        &&& self.tms_remaining > 0 ==> (self.bytes() - self.tms_remaining) % (CHUNK_BYTES as int)
            == 0
        &&& self.bits_remaining <= self.bit_count
        &&& self.bits_remaining > 0 ==> (self.bit_count - self.bits_remaining) % (CHUNK_BITS as int)
            == 0
        &&& self.pending matches Some(pending) ==> {
            &&& pending.slot == self.fill_slot.opposite()
            &&& pending.length <= CHUNK_BYTES
        }
        &&& self.log@.captured == self.log@.sent + self.pending_bytes()
        &&& self.log@.captured.len() == self.offset()
        &&& self.bits_remaining > 0 ==> (self.pending is None <==> self.bits_remaining
            == self.bit_count)
    }

    /// Facts about the retained TMS bytes.
    spec fn storage_ok(&self) -> bool {
        &&& self.workspace.tms_storage.wf(self.workspace.raw_tms@)
        &&& self.workspace.tms_storage.is_raw() <==> self.keeps_raw_tms()
        &&& self.kept() == self.log@.input.take(self.bytes() - self.tms_remaining)
        &&& self.log@.input.len() >= self.bytes() - self.tms_remaining
        &&& self.tail.wf()
        &&& self.tail@ == tail_of(self.kept())
    }

    /// Facts about the chunk whose TMS bytes are laid out.
    spec fn chunk_ok(&self, length: usize, received: usize) -> bool {
        let start = self.offset() as int;
        &&& self.storage_ok()
        &&& self.tms_remaining == 0
        &&& self.bits_remaining > 0
        &&& received <= length == self.chunk_bytes()
        &&& self.workspace.tms_storage.position() == start + length
        &&& self.log@.input.len() == self.bytes() + start + received
        &&& self.workspace.tms_chunk@.take(length as int) == self.log@.input.subrange(
            start,
            start + length,
        )
        &&& self.workspace.tdi_chunk@.take(received as int) == self.log@.input.skip(
            self.bytes() + start,
        )
    }

    /// The buffers hold what the log says.
    pub closed spec fn wf(&self) -> bool {
        &&& self.base_ok()
        &&& match self.phase {
            Phase::FillTms { length, received } => {
                &&& self.storage_ok()
                &&& self.tms_remaining > 0
                &&& self.bits_remaining == self.bit_count
                &&& received < length == lesser(self.tms_remaining as nat, CHUNK_BYTES as nat)
                &&& self.workspace.tms_storage.is_rewound()
                &&& self.log@.input.len() == self.bytes() - self.tms_remaining + received
                &&& self.workspace.tms_chunk@.take(received as int) == self.log@.input.skip(
                    self.bytes() - self.tms_remaining,
                )
            },
            Phase::FillTdi { length, received } => received < length && self.chunk_ok(
                length,
                received,
            ),
            Phase::Shifting { length } => self.chunk_ok(length, length),
            Phase::Sending => {
                &&& self.bits_remaining == 0
                &&& self.pending is Some
                &&& self.log@.input.len() == 2 * self.bytes()
            },
            Phase::Finished => true,
        }
    }

    /// Whether `action` is what the shift waits for, and what that says of it.
    pub open spec fn awaits(&self, action: StreamAction) -> bool {
        match action {
            StreamAction::Read => {
                &&& self.stage() is Reading
                &&& self.fill_bytes().len() > 0
            },
            StreamAction::Shift { bits, send } => {
                &&& self.stage() is Shifting
                &&& bits == self.chunk_bits()
                &&& bits > 0
                &&& self.input().len() == self.bytes() + self.offset() + self.chunk_bytes()
                &&& match send {
                    Some(length) => self.bits_done() > 0 && length == self.captured().len()
                        - self.sent_bytes().len(),
                    None => self.bits_done() == 0,
                }
            },
            StreamAction::Send { length } => {
                &&& self.stage() is Sending
                &&& self.bits_done() == self.bits()
                &&& self.input().len() == 2 * self.bytes()
                &&& length == self.captured().len() - self.sent_bytes().len()
            },
            StreamAction::Finished(outcome) => {
                &&& self.stage() is Finished
                &&& outcome is Ok ==> {
                    &&& self.bits_done() == self.bits()
                    &&& self.input().len() == 2 * self.bytes()
                    &&& self.captured().len() == self.bytes()
                    &&& self.sent_bytes() == self.captured()
                }
            },
        }
    }

    /// In every state the bytes sent are the first of the bytes captured, and
    /// those are as many as were driven.
    pub proof fn law_tdo_is_sent_in_order(&self)
        requires
            self.wf(),
        ensures
            self.sent_bytes().is_prefix_of(self.captured()),
            self.captured().len() == self.offset(),
            self.input().len() <= 2 * self.bytes() || self.stage() is Finished,
    {
        assert(self.captured().subrange(0, self.sent_bytes().len() as int) =~= self.sent_bytes());
    }

    /// A shift reads its TMS vector, then its TDI vector chunk by chunk, and no
    /// byte more: nothing is driven before all TMS bytes are there, the room for
    /// TDI ends with the chunk that is driven next, and no room goes past the end
    /// of both vectors.
    pub proof fn law_reading_stops_at_the_end(&self)
        requires
            self.wf(),
            self.stage() is Reading,
        ensures
            self.fill_bytes().len() > 0,
            self.input().len() + self.fill_bytes().len() <= 2 * self.bytes(),
            self.input().len() < self.bytes() ==> self.bits_done() == 0 && self.input().len()
                + self.fill_bytes().len() <= self.bytes(),
            self.input().len() >= self.bytes() ==> self.input().len() + self.fill_bytes().len()
                == self.bytes() + self.offset() + self.chunk_bytes(),
    {
    }

    /// All TMS bytes taken so far are retained.
    spec fn at_tms_boundary(&self) -> bool {
        &&& self.base_ok()
        &&& self.storage_ok()
        &&& self.bits_remaining == self.bit_count
        &&& self.pending is None
        &&& self.workspace.tms_storage.is_rewound()
        &&& self.log@.input.len() == self.bytes() - self.tms_remaining
    }

    /// All TMS bytes are retained and the next chunk is about to be laid out.
    spec fn at_chunk_boundary(&self) -> bool {
        &&& self.base_ok()
        &&& self.storage_ok()
        &&& self.tms_remaining == 0
        &&& self.workspace.tms_storage.position() == self.offset()
        &&& self.log@.input.len() == self.bytes() + self.offset()
        &&& self.bits_remaining == 0 ==> (self.pending is None <==> self.bit_count == 0)
    }

    /// The bytes that came are those of `before`.
    pub open spec fn same_source(&self, before: &Self) -> bool {
        &&& self.offered() == before.offered()
        &&& self.fetched() == before.fetched()
    }

    /// Bit count, driven bits and TDO bytes are those of `before`.
    pub open spec fn same_output(&self, before: &Self) -> bool {
        &&& self.bits() == before.bits()
        &&& self.bits_done() == before.bits_done()
        &&& self.captured() == before.captured()
        &&& self.sent_bytes() == before.sent_bytes()
    }

    /// What reading has led to, given the bytes left in the window: reading
    /// goes on only when the window is empty, and the TMS bytes are given up
    /// only when a new stretch of them is one too many or memory for it is not
    /// to be had.
    pub open spec fn settled(&self, action: StreamAction, window: Seq<u8>) -> bool {
        match action {
            StreamAction::Read => window.len() == 0,
            StreamAction::Shift { .. } => self.keeps_raw_tms() || stretch_count(
                self.input().take(self.bytes() as int),
            ) <= MAX_RLE_RUNS,
            StreamAction::Finished(Err(error)) => {
                &&& !self.keeps_raw_tms()
                &&& self.input().len() <= self.bytes()
                &&& gives_up(self.input(), error)
                &&& (error == StreamError::OutOfMemory && memory_is_refused()) || (error
                    == StreamError::TmsRleOverflow && stretch_count(self.input()) > MAX_RLE_RUNS)
            },
            _ => true,
        }
    }

    /// Lays out the TMS bytes of the next chunk and reads its TDI bytes, or
    /// sends the last TDO chunk if all bits are driven.
    fn start_chunk(&mut self, receive: &mut ReceiveWindow) -> (action: StreamAction)
        requires
            old(self).at_chunk_boundary(),
            old(receive).wf(),
        ensures
            final(self).wf(),
            final(receive).wf(),
            final(self).same_source(old(self)),
            final(self).same_output(old(self)),
            final(self).awaits(action),
            final(self).bits_remaining == old(self).bits_remaining,
            drained(
                old(receive)@,
                final(receive)@,
                old(self).log@.input,
                final(self).log@.input,
            ),
            final(self).log@.input.take(final(self).bytes() as int) == old(self).log@.input.take(
                final(self).bytes() as int,
            ),
            action is Read ==> final(receive)@.len() == 0,
            action matches StreamAction::Finished(outcome) ==> outcome is Ok && old(
                self,
            ).bit_count == 0,
            action is Send ==> old(self).bits_remaining == 0 && old(self).bit_count > 0,
    {
        if self.bits_remaining == 0 {
            assert(old(receive)@.take(0) =~= Seq::<u8>::empty());
            assert(self.log@.input =~= old(self).log@.input + old(receive)@.take(0));
            assert(old(receive)@.skip(0) =~= old(receive)@);
            match self.pending {
                Some(pending) => {
                    self.phase = Phase::Sending;
                    return StreamAction::Send { length: pending.length };
                },
                None => {
                    self.phase = Phase::Finished;
                    assert(self.log@.captured =~= self.log@.sent);
                    return StreamAction::Finished(Ok(()));
                },
            }
        }
        let bits: usize = if self.bits_remaining < CHUNK_BITS {
            self.bits_remaining
        } else {
            CHUNK_BITS
        };
        let length: usize = bytes_for_bits(bits);
        let ghost start = self.offset() as int;
        assert(length == self.chunk_bytes());
        assert(start + length <= self.bytes());
        let tms_chunk: &mut [u8] = &mut self.workspace.tms_chunk;
        let (tms_front, _) = tms_chunk.split_at_mut(length);
        match self.workspace.tms_storage.read_into(self.workspace.raw_tms.as_slice(), tms_front) {
            Ok(()) => {},
            Err(error) => {
                self.phase = Phase::Finished;
                return StreamAction::Finished(Err(error));
            },
        }
        let tdi_chunk: &mut [u8] = &mut self.workspace.tdi_chunk;
        let (tdi_front, _) = tdi_chunk.split_at_mut(length);
        let received: usize = receive.take_into(tdi_front);
        let ghost input = self.log@.input + old(receive)@.take(received as int);
        self.log = Ghost(StreamLog { input, ..self.log@ });
        proof {
            assert(self.workspace.tms_chunk@.take(length as int) =~= input.subrange(
                start,
                start + length,
            ));
            assert(self.workspace.tdi_chunk@.take(received as int) =~= input.skip(
                self.bytes() + start,
            ));
            assert(input.take(self.bytes() as int) =~= old(self).log@.input.take(
                self.bytes() as int,
            ));
        }
        if received < length {
            self.phase = Phase::FillTdi { length, received };
            StreamAction::Read
        } else {
            self.phase = Phase::Shifting { length };
            let send: Option<usize> = match self.pending {
                Some(pending) => Some(pending.length),
                None => None,
            };
            StreamAction::Shift { bits, send }
        }
    }

    /// Retains a full chunk of TMS.
    fn keep_chunk(&mut self, length: usize) -> (outcome: Result<(), StreamError>)
        requires
            old(self).base_ok(),
            old(self).storage_ok(),
            old(self).bits_remaining == old(self).bit_count,
            old(self).workspace.tms_storage.is_rewound(),
            0 < length == lesser(old(self).tms_remaining as nat, CHUNK_BYTES as nat),
            old(self).log@.input.len() == old(self).bytes() - old(self).tms_remaining + length,
            old(self).workspace.tms_chunk@.take(length as int) == old(self).log@.input.skip(
                old(self).bytes() - old(self).tms_remaining,
            ),
        ensures
            final(self).base_ok(),
            final(self).log == old(self).log,
            final(self).same_output(old(self)),
            final(self).bits_remaining == old(self).bits_remaining,
            outcome is Ok ==> final(self).at_tms_boundary() && final(self).tms_remaining == old(
                self,
            ).tms_remaining - length,
            outcome is Ok && !final(self).keeps_raw_tms() ==> stretch_count(
                final(self).log@.input,
            ) <= MAX_RLE_RUNS,
            outcome matches Err(error) ==> {
                &&& !final(self).keeps_raw_tms()
                &&& gives_up(final(self).log@.input, error)
                &&& (error == StreamError::OutOfMemory && memory_is_refused()) || (error
                    == StreamError::TmsRleOverflow && stretch_count(final(self).log@.input)
                    > MAX_RLE_RUNS)
            },
    {
        let ghost kept = self.kept();

        let raw: &mut [u8] = &mut self.workspace.raw_tms;
        let outcome = self.workspace.tms_storage.store(
            raw,
            slice_subrange(self.workspace.tms_chunk.as_slice(), 0, length),
        );
        assert(kept + self.workspace.tms_chunk@.take(length as int) =~= self.log@.input);
        proof {
            if let Err(error) = outcome {
                let input = self.log@.input;
                assert(last_chunk_start(input) == kept.len());
                let at = choose|at: int|
                    kept.len() <= at && #[trigger] refused_at(input, at, error);
                law_overflow_means_too_many_runs(input, at, error);
            }
        }
        if outcome.is_ok() {
            self.tail.absorb(slice_subrange(self.workspace.tms_chunk.as_slice(), 0, length));
            proof {
                law_tail_comes_in_pieces(kept, self.workspace.tms_chunk@.take(length as int));
            }
            self.tms_remaining = self.tms_remaining - length;
            assert(self.log@.input.take(self.bytes() - self.tms_remaining) =~= self.log@.input);
        }
        outcome
    }

    /// Reads and retains TMS chunks as long as the window provides them, and
    /// goes on with the first TDI chunk when all are there.
    fn fill_tms(&mut self, receive: &mut ReceiveWindow) -> (action: StreamAction)
        requires
            old(self).at_tms_boundary(),
            old(receive).wf(),
            old(self).tms_remaining == 0 && !old(self).keeps_raw_tms() ==> stretch_count(
                old(self).log@.input,
            ) <= MAX_RLE_RUNS,
        ensures
            final(self).wf(),
            final(receive).wf(),
            final(self).same_source(old(self)),
            final(self).same_output(old(self)),
            final(self).awaits(action),
            final(self).settled(action, final(receive)@),
            drained(
                old(receive)@,
                final(receive)@,
                old(self).log@.input,
                final(self).log@.input,
            ),
            action matches StreamAction::Finished(Ok(())) ==> old(self).bit_count == 0,
            !(action is Send),
    {
        proof {
            assert(old(receive)@.take(0) =~= Seq::<u8>::empty());
            assert(self.log@.input =~= old(self).log@.input + old(receive)@.take(0));
            assert(old(receive)@.skip(0) =~= old(receive)@);
        }
        while self.tms_remaining > 0
            invariant
                self.at_tms_boundary(),
                receive.wf(),
                self.same_source(old(self)),
                self.same_output(old(self)),
                self.bits_remaining == old(self).bits_remaining,
                drained(old(receive)@, receive@, old(self).log@.input, self.log@.input),
                self.tms_remaining == 0 && !self.keeps_raw_tms() ==> stretch_count(
                    self.log@.input,
                ) <= MAX_RLE_RUNS,
            decreases self.tms_remaining,
        {
            let length: usize = if self.tms_remaining < CHUNK_BYTES {
                self.tms_remaining
            } else {
                CHUNK_BYTES
            };
            let ghost window = receive@;
            let ghost before = self.log@.input;
            let chunk: &mut [u8] = &mut self.workspace.tms_chunk;
            let (front, _) = chunk.split_at_mut(length);
            let received: usize = receive.take_into(front);
            let ghost input = before + window.take(received as int);
            self.log = Ghost(StreamLog { input, ..self.log@ });
            proof {
                lemma_drained_on(
                    old(receive)@,
                    window,
                    receive@,
                    old(self).log@.input,
                    before,
                    input,
                );
                assert(self.workspace.tms_chunk@.take(received as int) =~= input.skip(
                    self.bytes() - self.tms_remaining,
                ));
                assert(input.take(self.bytes() - self.tms_remaining) =~= before.take(
                    self.bytes() - self.tms_remaining,
                ));
            }
            if received < length {
                self.phase = Phase::FillTms { length, received };
                return StreamAction::Read;
            }
            match self.keep_chunk(length) {
                Ok(()) => {},
                Err(error) => {
                    self.phase = Phase::Finished;
                    return StreamAction::Finished(Err(error));
                },
            }
        }
        self.workspace.tms_storage.rewind();
        let ghost window = receive@;
        let ghost before = self.log@.input;
        let action = self.start_chunk(receive);
        proof {
            lemma_drained_on(
                old(receive)@,
                window,
                receive@,
                old(self).log@.input,
                before,
                self.log@.input,
            );
            assert(before.take(self.bytes() as int) =~= before);
        }
        action
    }

    /// Starts a shift of `bit_count` bits, taking what the window holds of it.
    /// A shift over the fixed maximum is refused.
    pub fn start(
        bit_count: usize,
        workspace: &'w mut StreamWorkspace,
        receive: &mut ReceiveWindow,
    ) -> (started: Result<(Self, StreamAction), StreamError>)
        requires
            old(receive).wf(),
        ensures
            final(receive).wf(),
            started is Err <==> bit_count > ABSOLUTE_MAX_BITS,
            started matches Err(error) ==> {
                &&& error == StreamError::ShiftTooLarge
                &&& final(receive)@ == old(receive)@
                &&& *final(workspace) == *old(workspace)
            },
            started matches Ok((shift, action)) ==> {
                &&& shift.wf()
                &&& shift.bits() == bit_count
                &&& shift.bits_done() == 0
                &&& shift.captured() == Seq::<u8>::empty()
                &&& shift.sent_bytes() == Seq::<u8>::empty()
                &&& drained(old(receive)@, final(receive)@, Seq::empty(), shift.input())
                &&& shift.offered() == old(receive)@
                &&& shift.fetched() == Seq::<u8>::empty()
                &&& shift.balanced(final(receive)@)
                &&& shift.awaits(action)
                &&& shift.settled(action, final(receive)@)
                &&& action matches StreamAction::Finished(Ok(())) ==> bit_count == 0
                &&& !(action is Send)
            },
    {
        if bit_count > ABSOLUTE_MAX_BITS {
            return Err(StreamError::ShiftTooLarge);
        }
        let byte_count: usize = bytes_for_bits(bit_count);
        workspace.tms_storage.begin(byte_count);
        let mut shift = StreamShift {
            workspace,
            bit_count,
            tms_remaining: byte_count,
            bits_remaining: bit_count,
            pending: None,
            fill_slot: Slot::First,
            phase: Phase::Finished,
            tail: TmsTail::new(),
            log: Ghost(
                StreamLog {
                    offered: receive@,
                    fetched: Seq::empty(),
                    input: Seq::empty(),
                    captured: Seq::empty(),
                    sent: Seq::empty(),
                },
            ),
        };
        proof {
            shift.workspace.tms_storage.lemma_position(shift.workspace.raw_tms@);
            assert(shift.log@.input.take(0) =~= Seq::<u8>::empty());
            assert(shift.log@.sent + shift.pending_bytes() =~= shift.log@.captured);
        }
        let action = shift.fill_tms(receive);
        proof {
            lemma_drained_balances(old(receive)@, receive@, Seq::empty(), shift.log@.input);
            assert(shift.log@.offered + shift.log@.fetched =~= shift.log@.input + receive@);
        }
        Ok((shift, action))
    }

    /// Room for the bytes that are to be read.
    pub fn fill_space(&mut self) -> (space: &mut [u8])
        requires
            old(self).wf(),
            old(self).stage() is Reading,
        ensures
            space@ == old(self).fill_bytes(),
            space@.len() > 0,
            final(self).wf(),
            final(self).stage() is Reading,
            final(self).same_output(old(self)),
            final(self).same_source(old(self)),
            final(self).input() == old(self).input(),
            final(self).fill_bytes() == final(space)@,
            final(self).fill_bytes().len() == old(self).fill_bytes().len(),
    {
        match self.phase {
            Phase::FillTms { length, received } => {
                middle_mut(&mut self.workspace.tms_chunk, received, length)
            },
            Phase::FillTdi { length, received } => {
                middle_mut(&mut self.workspace.tdi_chunk, received, length)
            },
            _ => {
                let chunk: &mut [u8] = &mut self.workspace.tdi_chunk;
                chunk
            },
        }
    }

    /// Takes note of a read into `fill_space`: the number of bytes read, or why
    /// there are none.
    pub fn received(
        &mut self,
        receive: &mut ReceiveWindow,
        outcome: Result<usize, TransportError>,
    ) -> (action: StreamAction)
        requires
            old(self).wf(),
            old(self).stage() is Reading,
            old(receive).wf(),
            outcome matches Ok(count) ==> count <= old(self).fill_bytes().len(),
        ensures
            final(self).wf(),
            final(receive).wf(),
            final(self).same_output(old(self)),
            final(self).awaits(action),
            match outcome {
                Ok(count) => {
                    &&& drained(
                        old(receive)@,
                        final(receive)@,
                        old(self).input() + old(self).fill_bytes().take(count as int),
                        final(self).input(),
                    )
                    &&& final(self).offered() == old(self).offered()
                    &&& final(self).fetched() == old(self).fetched() + old(self).fill_bytes().take(
                        count as int,
                    )
                    &&& old(receive)@.len() == 0 && old(self).balanced(old(receive)@)
                        ==> final(self).balanced(final(receive)@)
                    &&& !(action is Send)
                    &&& !(action matches StreamAction::Finished(Ok(())))
                    &&& if count < old(self).fill_bytes().len() {
                        action == StreamAction::Read && final(receive)@ == old(receive)@
                    } else {
                        final(self).settled(action, final(receive)@)
                    }
                },
                Err(error) => {
                    &&& action == StreamAction::Finished(Err(StreamError::Transport(error)))
                    &&& final(receive)@ == old(receive)@
                    &&& final(self).same_source(old(self))
                    &&& final(self).input() == old(self).input()
                },
            },
    {
        let action = self.take_in(receive, outcome);
        proof {
            if let Ok(count) = outcome {
                let bytes = old(self).fill_bytes().take(count as int);
                lemma_drained_balances(
                    old(receive)@,
                    receive@,
                    old(self).log@.input + bytes,
                    self.log@.input,
                );
                if old(receive)@.len() == 0 && old(self).balanced(old(receive)@) {
                    let none = old(receive)@;
                    assert(old(self).log@.input + none =~= old(self).log@.input);
                    assert(old(self).log@.input + bytes + none =~= old(self).log@.input + bytes);
                    assert(self.log@.offered + self.log@.fetched =~= (old(self).log@.offered + old(
                        self,
                    ).log@.fetched) + bytes);
                }
            }
        }
        action
    }

    /// Takes note of a read and goes on as far as the window allows.
    fn take_in(
        &mut self,
        receive: &mut ReceiveWindow,
        outcome: Result<usize, TransportError>,
    ) -> (action: StreamAction)
        requires
            old(self).wf(),
            old(self).stage() is Reading,
            old(receive).wf(),
            outcome matches Ok(count) ==> count <= old(self).fill_bytes().len(),
        ensures
            final(self).wf(),
            final(receive).wf(),
            final(self).same_output(old(self)),
            final(self).awaits(action),
            match outcome {
                Ok(count) => {
                    &&& drained(
                        old(receive)@,
                        final(receive)@,
                        old(self).input() + old(self).fill_bytes().take(count as int),
                        final(self).input(),
                    )
                    &&& final(self).offered() == old(self).offered()
                    &&& final(self).fetched() == old(self).fetched() + old(self).fill_bytes().take(
                        count as int,
                    )
                    &&& !(action is Send)
                    &&& !(action matches StreamAction::Finished(Ok(())))
                    &&& if count < old(self).fill_bytes().len() {
                        action == StreamAction::Read && final(receive)@ == old(receive)@
                    } else {
                        final(self).settled(action, final(receive)@)
                    }
                },
                Err(error) => {
                    &&& action == StreamAction::Finished(Err(StreamError::Transport(error)))
                    &&& final(receive)@ == old(receive)@
                    &&& final(self).same_source(old(self))
                    &&& final(self).input() == old(self).input()
                },
            },
    {
        let count: usize = match outcome {
            Ok(count) => count,
            Err(error) => {
                self.phase = Phase::Finished;
                return StreamAction::Finished(Err(StreamError::Transport(error)));
            },
        };
        let ghost before = self.log@.input;
        let ghost input = before + self.fill_bytes().take(count as int);
        let ghost fetched = self.log@.fetched + self.fill_bytes().take(count as int);
        self.log = Ghost(StreamLog { fetched, input, ..self.log@ });
        proof {
            assert(receive@.take(0) =~= Seq::<u8>::empty());
            assert(input + receive@.take(0) =~= input);
            assert(receive@.skip(0) =~= receive@);
        }
        match self.phase {
            Phase::FillTms { length, received } => {
                let now: usize = received + count;
                proof {
                    assert(self.workspace.tms_chunk@.take(now as int) =~= input.skip(
                        self.bytes() - self.tms_remaining,
                    ));
                    assert(input.take(self.bytes() - self.tms_remaining) =~= before.take(
                        self.bytes() - self.tms_remaining,
                    ));
                }
                if now < length {
                    self.phase = Phase::FillTms { length, received: now };
                    return StreamAction::Read;
                }
                match self.keep_chunk(length) {
                    Ok(()) => self.fill_tms(receive),
                    Err(error) => {
                        self.phase = Phase::Finished;
                        StreamAction::Finished(Err(error))
                    },
                }
            },
            Phase::FillTdi { length, received } => {
                let now: usize = received + count;
                proof {
                    let start = self.offset() as int;
                    assert(self.workspace.tdi_chunk@.take(now as int) =~= input.skip(
                        self.bytes() + start,
                    ));
                    assert(input.subrange(start, start + length) =~= before.subrange(
                        start,
                        start + length,
                    ));
                    assert(input.take(self.bytes() as int) =~= before.take(self.bytes() as int));
                }
                if now < length {
                    self.phase = Phase::FillTdi { length, received: now };
                    return StreamAction::Read;
                }
                self.phase = Phase::Shifting { length };
                proof {
                    if !self.keeps_raw_tms() {
                        self.workspace.tms_storage.law_runs_follow_the_bytes(
                            self.workspace.raw_tms@,
                        );
                    }
                }
                let bits: usize = if self.bits_remaining < CHUNK_BITS {
                    self.bits_remaining
                } else {
                    CHUNK_BITS
                };
                let send: Option<usize> = match self.pending {
                    Some(pending) => Some(pending.length),
                    None => None,
                };
                StreamAction::Shift { bits, send }
            },
            _ => StreamAction::Read,
        }
    }

    /// The chunk to drive, and the TDO bytes of the chunk before it that are to
    /// be sent meanwhile.
    pub fn shift_parts(&mut self) -> (parts: Result<(JtagShift<'_>, &[u8]), StreamError>)
        requires
            old(self).wf(),
            old(self).stage() is Shifting,
        ensures
            parts is Ok,
            parts matches Ok((shift, previous)) ==> {
                &&& shift.wf()
                &&& shift.execution == ShiftExecution::StreamChunk
                &&& shift.bit_count == old(self).chunk_bits()
                &&& shift.tms@ == old(self).input().subrange(
                    old(self).offset() as int,
                    (old(self).offset() + old(self).chunk_bytes()) as int,
                )
                &&& shift.tdi@ == old(self).input().subrange(
                    (old(self).bytes() + old(self).offset()) as int,
                    (old(self).bytes() + old(self).offset() + old(self).chunk_bytes()) as int,
                )
                &&& shift.tdo@ == old(self).tdo_chunk()
                &&& previous@ == old(self).captured().skip(old(self).sent_bytes().len() as int)
                &&& final(self).tdo_chunk() == final(shift.tdo)@
            },
            final(self).wf(),
            final(self).stage() is Shifting,
            final(self).same_output(old(self)),
            final(self).same_source(old(self)),
            final(self).input() == old(self).input(),
    {
        let bits: usize = if self.bits_remaining < CHUNK_BITS {
            self.bits_remaining
        } else {
            CHUNK_BITS
        };
        let length: usize = bytes_for_bits(bits);
        let send: usize = match self.pending {
            Some(pending) => pending.length,
            None => 0,
        };
        proof {
            let start = self.offset() as int;
            let total = self.bytes() as int;
            let input = self.log@.input;
            assert(self.workspace.tms_chunk@.take(length as int) =~= input.subrange(
                start,
                start + length,
            ));
            assert(self.workspace.tdi_chunk@.take(length as int) =~= input.subrange(
                total + start,
                total + start + length,
            ));
            assert(self.log@.captured.skip(self.log@.sent.len() as int) =~= self.pending_bytes());
            assert(self.workspace.tdo_buffers@[self.fill_slot.opposite().place()]@.take(send as int)
                =~= self.pending_bytes());
        }
        let (current, previous) = split_tdo_buffers(
            &mut self.workspace.tdo_buffers,
            self.fill_slot,
        );
        let tdo = middle_mut(current, 0, length);
        match JtagShift::new(
            ShiftExecution::StreamChunk,
            bits,
            slice_subrange(self.workspace.tms_chunk.as_slice(), 0, length),
            slice_subrange(self.workspace.tdi_chunk.as_slice(), 0, length),
            tdo,
        ) {
            Ok(shift) => Ok((shift, slice_subrange(previous.as_slice(), 0, send))),
            Err(_) => Err(StreamError::JtagFailed),
        }
    }

    /// Number of bits driven and captured so far.
    pub fn bits_driven(&self) -> (bits: usize)
        requires
            self.wf(),
        ensures
            bits == self.bits_done(),
    {
        self.bit_count - self.bits_remaining
    }

    /// The last bytes of the TMS vector.
    pub fn tms_tail(&self) -> (bytes: &[u8])
        requires
            self.wf(),
            self.stage() is Shifting,
        ensures
            bytes@ == tail_of(self.input().take(self.bytes() as int)),
    {
        self.tail.last_bytes()
    }

    /// How the TMS vector is retained.
    pub fn tms_description(&self) -> (description: StorageDescription)
        requires
            self.wf(),
            self.stage() is Shifting,
        ensures
            description == (if self.keeps_raw_tms() {
                StorageDescription::Raw { length: self.bytes() as usize }
            } else {
                StorageDescription::Rle {
                    runs: stretch_count(self.input().take(self.bytes() as int)) as usize,
                }
            }),
    {
        proof {
            if !self.keeps_raw_tms() {
                self.workspace.tms_storage.law_runs_follow_the_bytes(self.workspace.raw_tms@);
            }
            assert(self.workspace.tms_storage.fits(self.workspace.raw_tms@.len()));
            assert(self.workspace.tms_storage.content(self.workspace.raw_tms@).len()
                == self.bytes());
        }
        self.workspace.tms_storage.description()
    }

    /// The chunks of a shift lie one after the other: the next one begins where
    /// the one that is driven ends, and none goes past the end.
    pub proof fn law_chunks_tile_the_vectors(&self)
        requires
            self.wf(),
            self.stage() is Shifting,
        ensures
            byte_len(self.bits_done() + self.chunk_bits()) == self.offset() + self.chunk_bytes(),
            self.offset() + self.chunk_bytes() <= self.bytes(),
            self.bits_done() + self.chunk_bits() <= self.bits(),
            self.chunk_bits() > 0,
    {
        assert(self.base_ok() && self.bits_remaining > 0);
        assert(self.bits_done() % 8 == 0);
        lemma_parts_of_bytes(self.bits_done(), self.chunk_bits(), self.bits());
    }

    /// Driving the chunks one after the other drives the whole vectors: bit `i`
    /// of a chunk is the bit of the vector that follows the bits driven before.
    pub proof fn law_chunk_bits_are_vector_bits(&self, i: int)
        requires
            self.wf(),
            self.stage() is Shifting,
            0 <= i < self.chunk_bits(),
        ensures
            bit_at(
                self.input().subrange(
                    self.offset() as int,
                    (self.offset() + self.chunk_bytes()) as int,
                ),
                i,
            ) == bit_at(self.input().take(self.bytes() as int), self.bits_done() + i),
            bit_at(
                self.input().subrange(
                    (self.bytes() + self.offset()) as int,
                    (self.bytes() + self.offset() + self.chunk_bytes()) as int,
                ),
                i,
            ) == bit_at(self.input().skip(self.bytes() as int), self.bits_done() + i),
    {
        let input = self.input();
        let done = self.bits_done() as int;
        let start = self.offset() as int;
        let length = self.chunk_bytes() as int;
        let total = self.bytes() as int;
        self.law_chunks_tile_the_vectors();
        assert(done == 8 * start);
        assert(i < 8 * length);
        assert(input.len() == total + start + length);
        lemma_bit_of_part(input, start, start + length, i);
        lemma_bit_of_part(input, total + start, total + start + length, i);
        lemma_bit_of_part(input, 0, total, done + i);
        lemma_bit_of_part(input, total, total + start + length, done + i);
    }

    /// Goes on after a chunk that was driven and sent.
    fn next_chunk(&mut self, receive: &mut ReceiveWindow) -> (action: StreamAction)
        requires
            old(self).wf(),
            old(self).stage() is Shifting,
            old(receive).wf(),
        ensures
            final(self).wf(),
            final(receive).wf(),
            final(self).bits() == old(self).bits(),
            final(self).same_source(old(self)),
            final(self).awaits(action),
            final(self).bits_done() == old(self).bits_done() + old(self).chunk_bits(),
            final(self).captured() == old(self).captured() + old(self).tdo_chunk(),
            final(self).sent_bytes() == old(self).captured(),
            drained(old(receive)@, final(receive)@, old(self).input(), final(self).input()),
            !(action is Finished),
            action is Send <==> old(self).bits_done() + old(self).chunk_bits() == old(self).bits(),
            action is Read ==> final(receive)@.len() == 0,
    {
        let bits: usize = if self.bits_remaining < CHUNK_BITS {
            self.bits_remaining
        } else {
            CHUNK_BITS
        };
        let length: usize = bytes_for_bits(bits);
        let ghost chunk = self.tdo_chunk();
        let ghost captured = self.log@.captured + chunk;
        let ghost sent = self.log@.captured;
        proof {
            self.law_chunks_tile_the_vectors();
        }
        self.log = Ghost(StreamLog { captured, sent, ..self.log@ });
        self.pending = Some(PendingTdo { slot: self.fill_slot, length });
        self.fill_slot = self.fill_slot.other();
        self.bits_remaining = self.bits_remaining - bits;
        assert(self.pending_bytes() == chunk);
        assert(self.kept() == old(self).kept());
        assert(self.offset() == old(self).offset() + length);
        assert(self.base_ok());
        assert(self.storage_ok());
        self.start_chunk(receive)
    }

    /// Takes note that the chunk was driven and the chunk before it was sent,
    /// or of what went wrong. A failed send is reported before a failed shift.
    pub fn shifted(
        &mut self,
        receive: &mut ReceiveWindow,
        send: Result<(), TransportError>,
        shift: Result<(), JtagError>,
    ) -> (action: StreamAction)
        requires
            old(self).wf(),
            old(self).stage() is Shifting,
            old(receive).wf(),
            send is Err ==> old(self).bits_done() > 0,
        ensures
            final(self).wf(),
            final(receive).wf(),
            final(self).bits() == old(self).bits(),
            final(self).same_source(old(self)),
            old(self).balanced(old(receive)@) ==> final(self).balanced(final(receive)@),
            final(self).awaits(action),
            send is Err || shift is Err ==> {
                &&& action == StreamAction::Finished(
                    Err(
                        match send {
                            Err(error) => StreamError::Transport(error),
                            Ok(()) => StreamError::JtagFailed,
                        },
                    ),
                )
                &&& final(self).input() == old(self).input()
                &&& final(self).same_output(old(self))
                &&& final(receive)@ == old(receive)@
            },
            send is Ok && shift is Ok ==> {
                &&& final(self).bits_done() == old(self).bits_done() + old(self).chunk_bits()
                &&& final(self).captured() == old(self).captured() + old(self).tdo_chunk()
                &&& final(self).sent_bytes() == old(self).captured()
                &&& drained(old(receive)@, final(receive)@, old(self).input(), final(self).input())
                &&& !(action is Finished)
                &&& action is Send <==> old(self).bits_done() + old(self).chunk_bits() == old(
                    self,
                ).bits()
                &&& action is Read ==> final(receive)@.len() == 0
            },
    {
        if let Err(error) = send {
            self.phase = Phase::Finished;
            return StreamAction::Finished(Err(StreamError::Transport(error)));
        }
        if shift.is_err() {
            self.phase = Phase::Finished;
            return StreamAction::Finished(Err(StreamError::JtagFailed));
        }
        let action = self.next_chunk(receive);
        proof {
            lemma_drained_balances(
                old(receive)@,
                receive@,
                old(self).log@.input,
                self.log@.input,
            );
        }
        action
    }

    /// The last TDO chunk.
    pub fn last_tdo(&self) -> (bytes: &[u8])
        requires
            self.wf(),
            self.stage() is Sending,
        ensures
            bytes@ == self.captured().skip(self.sent_bytes().len() as int),
    {
        match &self.pending {
            Some(pending) => {
                let bytes = slice_subrange(
                    self.workspace.tdo_buffers[pending.slot.index()].as_slice(),
                    0,
                    pending.length,
                );
                assert(bytes@ =~= self.captured().skip(self.sent_bytes().len() as int));
                bytes
            },
            None => slice_subrange(self.workspace.tdi_chunk.as_slice(), 0, 0),
        }
    }

    /// Takes note that the last TDO chunk was sent, or of what went wrong.
    pub fn sent(&mut self, outcome: Result<(), TransportError>) -> (action: StreamAction)
        requires
            old(self).wf(),
            old(self).stage() is Sending,
        ensures
            final(self).wf(),
            final(self).bits() == old(self).bits(),
            final(self).bits_done() == old(self).bits_done(),
            final(self).same_source(old(self)),
            final(self).input() == old(self).input(),
            final(self).captured() == old(self).captured(),
            final(self).awaits(action),
            match outcome {
                Ok(()) => {
                    &&& action == StreamAction::Finished(Ok(()))
                    &&& final(self).sent_bytes() == old(self).captured()
                },
                Err(error) => {
                    &&& action == StreamAction::Finished(Err(StreamError::Transport(error)))
                    &&& final(self).sent_bytes() == old(self).sent_bytes()
                },
            },
    {
        self.phase = Phase::Finished;
        match outcome {
            Ok(()) => {
                self.pending = None;
                self.log = Ghost(StreamLog { sent: self.log@.captured, ..self.log@ });
                assert(self.log@.sent + self.pending_bytes() =~= self.log@.captured);
                StreamAction::Finished(Ok(()))
            },
            Err(error) => StreamAction::Finished(Err(StreamError::Transport(error))),
        }
    }
}

/// Bits that follow whole bytes take whole bytes behind those.
proof fn lemma_parts_of_bytes(done: nat, more: nat, bits: nat)
    requires
        done % 8 == 0,
        done + more <= bits,
    ensures
        byte_len(done + more) == byte_len(done) + byte_len(more),
        byte_len(done) + byte_len(more) <= byte_len(bits),
{
}

/// Draining goes on where it stopped.
proof fn lemma_drained_on(
    window_first: Seq<u8>,
    window_then: Seq<u8>,
    window_now: Seq<u8>,
    input_first: Seq<u8>,
    input_then: Seq<u8>,
    input_now: Seq<u8>,
)
    requires
        drained(window_first, window_then, input_first, input_then),
        drained(window_then, window_now, input_then, input_now),
    ensures
        drained(window_first, window_now, input_first, input_now),
{
    let count = window_first.len() - window_now.len();
    assert(window_now =~= window_first.skip(count));
    assert(input_now =~= input_first + window_first.take(count));
}

/// Draining loses no byte.
proof fn lemma_drained_balances(
    window_before: Seq<u8>,
    window_after: Seq<u8>,
    input_before: Seq<u8>,
    input_after: Seq<u8>,
)
    requires
        drained(window_before, window_after, input_before, input_after),
    ensures
        input_after + window_after == input_before + window_before,
{
    assert(input_after + window_after =~= input_before + window_before);
}

/// The window gave its oldest bytes to the input.
pub open spec fn drained(
    window_before: Seq<u8>,
    window_after: Seq<u8>,
    input_before: Seq<u8>,
    input_after: Seq<u8>,
) -> bool {
    let count = window_before.len() - window_after.len();
    &&& count >= 0
    &&& window_after == window_before.skip(count)
    &&& input_after == input_before + window_before.take(count)
}

/// Draining keeps every byte in its order: the input grows at its end by what
/// the window loses at its front.
pub proof fn law_draining_keeps_the_order(
    window_before: Seq<u8>,
    window_after: Seq<u8>,
    input_before: Seq<u8>,
    input_after: Seq<u8>,
)
    requires
        drained(window_before, window_after, input_before, input_after),
    ensures
        input_after + window_after == input_before + window_before,
        input_after.len() >= input_before.len(),
        input_after.take(input_before.len() as int) == input_before,
{
    lemma_drained_balances(window_before, window_after, input_before, input_after);
    assert(input_after.take(input_before.len() as int) =~= input_before);
}

/// A streamed shift of more than 2097152 bits is refused, and no other is.
pub proof fn law_only_huge_shifts_are_refused<'w>(
    bit_count: usize,
    workspace: &'w mut StreamWorkspace,
    receive: &mut ReceiveWindow,
    started: Result<(StreamShift<'w>, StreamAction), StreamError>,
)
    requires
        receive.wf(),
        call_ensures(StreamShift::start, (bit_count, workspace, receive), started),
    ensures
        bit_count > 2_097_152 ==> started == Err::<(StreamShift<'w>, StreamAction), StreamError>(
            StreamError::ShiftTooLarge,
        ) && final(receive)@ == old(receive)@,
        bit_count <= 2_097_152 ==> started is Ok && started->Ok_0.0.bits() == bit_count,
{
}

/// A TMS vector of at most 1024 stretches of equal bytes is retained whenever
/// memory is granted: if the allocator grants every request for one more run,
/// the start of a shift is not given up.
pub proof fn law_start_retains_while_memory_is_granted<'w>(
    bit_count: usize,
    workspace: &'w mut StreamWorkspace,
    receive: &mut ReceiveWindow,
    started: Result<(StreamShift<'w>, StreamAction), StreamError>,
)
    requires
        receive.wf(),
        bit_count <= 2_097_152,
        forall|runs: &mut Vec<(u8, u32)>, answer: Result<(), TryReserveError>| #[trigger]
            call_ensures(Vec::<(u8, u32)>::try_reserve, (runs, 1usize), answer) ==> answer is Ok,
        call_ensures(StreamShift::start, (bit_count, workspace, receive), started),
    ensures
        started matches Ok((shift, action)) && (bit_count <= 196_608 || stretch_count(shift.input())
            <= 1_024 ==> !(action matches StreamAction::Finished(Err(_)))),
{
}

/// A TMS vector of at most 1024 stretches of equal bytes is retained whenever
/// memory is granted: if the allocator grants every request for one more run,
/// bytes that come in do not end the shift.
pub proof fn law_reading_retains_while_memory_is_granted<'w>(
    shift: &mut StreamShift<'w>,
    receive: &mut ReceiveWindow,
    count: usize,
    action: StreamAction,
)
    requires
        shift.wf(),
        shift.stage() is Reading,
        receive.wf(),
        count <= shift.fill_bytes().len(),
        forall|runs: &mut Vec<(u8, u32)>, answer: Result<(), TryReserveError>| #[trigger]
            call_ensures(Vec::<(u8, u32)>::try_reserve, (runs, 1usize), answer) ==> answer is Ok,
        call_ensures(StreamShift::received, (shift, receive, Ok(count)), action),
    ensures
        old(shift).bits() <= 196_608 || stretch_count(final(shift).input()) <= 1_024 ==> !(action
            is Finished),
{
}

/// Bytes that come in end a shift only while its TMS vector is read, kept in
/// runs, and refused: as an overflow if it has more than 1024 stretches of equal
/// bytes so far, else for want of memory. That is told with the first 256 bytes
/// that have too many stretches.
pub proof fn law_reading_gives_up_for_a_reason<'w>(
    shift: &mut StreamShift<'w>,
    receive: &mut ReceiveWindow,
    count: usize,
    action: StreamAction,
    error: StreamError,
)
    requires
        shift.wf(),
        shift.stage() is Reading,
        receive.wf(),
        count <= shift.fill_bytes().len(),
        call_ensures(StreamShift::received, (shift, receive, Ok(count)), action),
        action == StreamAction::Finished(Err(error)),
    ensures
        old(shift).bits() > 196_608,
        8 * final(shift).input().len() < old(shift).bits() + 8,
        error is TmsRleOverflow || error is OutOfMemory,
        error is TmsRleOverflow ==> stretch_count(final(shift).input()) > 1_024,
        final(shift).input().len() > 0,
        stretch_count(
            final(shift).input().take(256 * ((final(shift).input().len() - 1) / 256)),
        ) <= 1_024,
{
    let input = final(shift).input();
    let start = 256 * ((input.len() - 1) / 256);
    let kept = choose|kept: int|
        last_chunk_start(input) <= kept && #[trigger] refused_at(input, kept, error);
    lemma_stretches_grow(input.take(kept), start);
    assert(input.take(kept).take(start) =~= input.take(start));
}

/// A shift that drives its bits from runs has no more than 1024 of them.
pub proof fn law_driven_vector_was_retained<'w>(
    shift: &mut StreamShift<'w>,
    receive: &mut ReceiveWindow,
    count: usize,
    action: StreamAction,
)
    requires
        shift.wf(),
        shift.stage() is Reading,
        receive.wf(),
        count <= shift.fill_bytes().len(),
        call_ensures(StreamShift::received, (shift, receive, Ok(count)), action),
        action is Shift,
    ensures
        old(shift).bits() > 196_608 ==> stretch_count(
            final(shift).input().take((old(shift).bits() + 7) as int / 8),
        ) <= 1_024,
{
}

impl<'w> StreamShift<'w> {
    /// A shift is driven in chunks of 2048 bits, in order, and the last one has
    /// the bits that are left. The vectors have the bytes that their bits take,
    /// and those of the chunk lie behind the bytes of the bits driven before.
    pub proof fn law_chunks_are_of_one_size(&self)
        requires
            self.wf(),
            self.bits_done() < self.bits(),
        ensures
            self.bits() - self.bits_done() >= 2_048 ==> self.chunk_bits() == 2_048,
            self.bits() - self.bits_done() < 2_048 ==> self.chunk_bits() == self.bits()
                - self.bits_done(),
            self.bytes() == (self.bits() + 7) / 8,
            self.chunk_bytes() == (self.chunk_bits() + 7) / 8,
            !(self.stage() is Finished) ==> self.bits_done() % 2_048 == 0 && 8 * self.offset()
                == self.bits_done(),
    {
    }

    /// What each action that a shift waits for says of it. It reads only where
    /// there is room. It drives the next chunk when all TMS bytes and those TDI
    /// bytes are there, and sends meanwhile what was captured and not sent, which
    /// is nothing for the first chunk. It sends the last chunk when all bits are
    /// driven. It ends in success when all TDO bytes were sent.
    pub proof fn law_actions_mean_what_they_say(&self, action: StreamAction)
        requires
            self.wf(),
            self.awaits(action),
        ensures
            match action {
                StreamAction::Read => self.stage() is Reading && self.fill_bytes().len() > 0,
                StreamAction::Shift { bits, send } => {
                    &&& self.stage() is Shifting
                    &&& 0 < bits <= 2_048
                    &&& bits == 2_048 || self.bits_done() + bits == self.bits()
                    &&& self.bits_done() + bits <= self.bits()
                    &&& self.input().len() == (self.bits() + 7) / 8 + (self.bits_done() + bits + 7)
                        / 8
                    &&& send is None <==> self.bits_done() == 0
                    &&& send matches Some(length) ==> length == self.captured().len()
                        - self.sent_bytes().len()
                },
                StreamAction::Send { length } => {
                    &&& self.stage() is Sending
                    &&& self.bits_done() == self.bits()
                    &&& length == self.captured().len() - self.sent_bytes().len()
                    &&& self.input().len() == 2 * ((self.bits() + 7) / 8)
                },
                StreamAction::Finished(outcome) => {
                    &&& self.stage() is Finished
                    &&& outcome is Ok ==> {
                        &&& self.bits_done() == self.bits()
                        &&& self.sent_bytes() == self.captured()
                        &&& self.sent_bytes().len() == (self.bits() + 7) / 8
                        &&& self.input().len() == 2 * ((self.bits() + 7) / 8)
                    }
                },
            },
    {
        if action is Shift {
            self.law_chunks_tile_the_vectors();
        }
    }

    /// A shift whose output is unchanged has the same bits to drive, has driven
    /// as many of them, and has captured and sent the same bytes. One whose
    /// source is unchanged was offered and has fetched the same bytes.
    pub proof fn law_unchanged_parts(&self, before: &Self)
        ensures
            self.same_output(before) ==> {
                &&& self.bits() == before.bits()
                &&& self.bits_done() == before.bits_done()
                &&& self.captured() == before.captured()
                &&& self.sent_bytes() == before.sent_bytes()
            },
            self.same_source(before) ==> {
                &&& self.offered() == before.offered()
                &&& self.fetched() == before.fetched()
            },
    {
    }

    /// In a balanced shift the bytes taken so far are the first of those that
    /// were offered and then fetched, and the rest is left in the window.
    pub proof fn law_balance_is_in_order(&self, window: Seq<u8>)
        requires
            self.balanced(window),
        ensures
            ({
                let came = self.offered() + self.fetched();
                &&& came.len() == self.input().len() + window.len()
                &&& came.take(self.input().len() as int) == self.input()
                &&& came.skip(self.input().len() as int) == window
            }),
    {
        let taken = self.input().len() as int;
        assert((self.input() + window).take(taken) =~= self.input());
        assert((self.input() + window).skip(taken) =~= window);
    }
}

/// Bytes are asked for only when the window has no more of them: when a shift
/// starts, when its room is full, and when a chunk was driven.
pub proof fn law_window_is_used_up_first<'w>(
    bit_count: usize,
    workspace: &'w mut StreamWorkspace,
    shift: &mut StreamShift<'w>,
    receive: &mut ReceiveWindow,
    count: usize,
    started: Result<(StreamShift<'w>, StreamAction), StreamError>,
    action: StreamAction,
)
    ensures
        call_ensures(StreamShift::start, (bit_count, workspace, receive), started) ==> (
        started matches Ok((_, first)) ==> first is Read ==> final(receive)@.len() == 0),
        call_ensures(StreamShift::received, (shift, receive, Ok(count)), action) && count == old(
            shift,
        ).fill_bytes().len() ==> action is Read ==> final(receive)@.len() == 0,
        call_ensures(StreamShift::shifted, (shift, receive, Ok(()), Ok(())), action)
            ==> action is Read ==> final(receive)@.len() == 0,
{
}

/// A chunk that was driven while the one before it was sent adds its bits and its
/// TDO bytes, and everything captured before counts as sent.
pub proof fn law_driven_chunk_is_captured<'w>(
    shift: &mut StreamShift<'w>,
    receive: &mut ReceiveWindow,
    action: StreamAction,
)
    requires
        shift.wf(),
        shift.stage() is Shifting,
        receive.wf(),
        call_ensures(StreamShift::shifted, (shift, receive, Ok(()), Ok(())), action),
    ensures
        ({
            let left = old(shift).bits() - old(shift).bits_done();
            let bits = if left < 2_048 {
                left
            } else {
                2_048
            };
            &&& final(shift).bits() == old(shift).bits()
            &&& final(shift).bits_done() == old(shift).bits_done() + bits
            &&& final(shift).captured() == old(shift).captured() + old(shift).tdo_chunk()
            &&& final(shift).sent_bytes() == old(shift).captured()
            &&& action is Send <==> bits == left
            &&& !(action is Finished)
        }),
{
}

/// A chunk that could not be sent ends the shift as a failure of the transport,
/// even if driving failed too; else a failure of driving ends it.
pub proof fn law_failed_send_comes_first<'w>(
    shift: &mut StreamShift<'w>,
    receive: &mut ReceiveWindow,
    send: Result<(), TransportError>,
    driven: Result<(), JtagError>,
    action: StreamAction,
)
    requires
        shift.wf(),
        shift.stage() is Shifting,
        receive.wf(),
        send is Err ==> shift.bits_done() > 0,
        call_ensures(StreamShift::shifted, (shift, receive, send, driven), action),
    ensures
        send matches Err(error) ==> action == StreamAction::Finished(
            Err(StreamError::Transport(error)),
        ),
        send is Ok && driven is Err ==> action == StreamAction::Finished(
            Err(StreamError::JtagFailed),
        ),
        send is Err || driven is Err ==> final(receive)@ == old(receive)@
            && final(shift).sent_bytes() == old(shift).sent_bytes(),
{
}

/// The two TDO buffers are told apart by their places, and each is the other's
/// other one.
pub proof fn law_buffers_take_turns(slot: Slot, index: usize, other: Slot, back: Slot)
    requires
        call_ensures(Slot::index, (slot,), index),
        call_ensures(Slot::other, (slot,), other),
        call_ensures(Slot::other, (other,), back),
    ensures
        slot is First ==> index == 0 && other is Second,
        slot is Second ==> index == 1 && other is First,
        back == slot,
{
}

/// The chunk that is driven next carries the bits of both vectors that follow the
/// bits driven before, and what is sent meanwhile is what was captured and not
/// sent.
pub proof fn law_chunk_carries_its_bits<'s, 'w>(
    shift: &'s mut StreamShift<'w>,
    parts: Result<(JtagShift<'s>, &'s [u8]), StreamError>,
    i: int,
)
    requires
        shift.wf(),
        shift.stage() is Shifting,
        call_ensures(StreamShift::shift_parts, (shift,), parts),
    ensures
        parts matches Ok((chunk, previous)) && {
            let total = (old(shift).bits() + 7) as int / 8;
            let done = old(shift).bits_done();
            let vectors = old(shift).input();
            &&& chunk.execution is StreamChunk
            &&& chunk.bit_count == 2_048 || done + chunk.bit_count == old(shift).bits()
            &&& 0 < chunk.bit_count <= 2_048
            &&& 0 <= i < chunk.bit_count ==> {
                &&& bit_at(chunk.tms@, i) == bit_at(vectors.take(total), done + i)
                &&& bit_at(chunk.tdi@, i) == bit_at(vectors.skip(total), done + i)
            }
            &&& old(shift).sent_bytes() + previous@ == old(shift).captured()
        },
{
    shift.law_chunks_tile_the_vectors();
    shift.law_tdo_is_sent_in_order();
    if 0 <= i < shift.chunk_bits() {
        shift.law_chunk_bits_are_vector_bits(i);
    }
    let sent = shift.sent_bytes();
    let captured = shift.captured();
    assert(captured.take(sent.len() as int) =~= sent);
    assert(captured.take(sent.len() as int) + captured.skip(sent.len() as int) =~= captured);
}

} // verus!
