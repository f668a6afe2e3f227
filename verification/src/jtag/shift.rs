//! Validated shift requests.

use vstd::prelude::*;

use crate::bits::{bit_at, byte_len, bytes_for_bits, mask_tail};

verus! {

/// Why a JTAG operation failed.
#[derive(Debug, Clone, Copy, PartialEq, Eq, Structural)]
pub enum JtagError {
    Busy,
    WorkerFailed,
    InvalidShiftBuffers,
}

/// How a shift is part of its request, which decides how long it may take.
#[derive(Debug, Clone, Copy, PartialEq, Eq, Structural)]
pub enum ShiftExecution {
    BufferedCommand,
    StreamChunk,
}

impl ShiftExecution {
    /// How many times its nominal duration a shift may take.
    pub open spec fn multiplier(self) -> u64 {
        match self {
            ShiftExecution::BufferedCommand => 2,
            ShiftExecution::StreamChunk => 3,
        }
    }

    /// How many times its nominal duration a shift may take.
    pub fn timeout_multiplier(self) -> (multiplier: u64)
        ensures
            multiplier == self.multiplier(),
    {
        match self {
            ShiftExecution::BufferedCommand => 2,
            ShiftExecution::StreamChunk => 3,
        }
    }
}

/// A shift over buffers that `new` found to fit its bit count.
pub struct JtagShift<'a> {
    /// How the shift is part of its request.
    pub execution: ShiftExecution,
    /// Number of bits.
    pub bit_count: usize,
    /// Bytes driven on TMS.
    pub tms: &'a [u8],
    /// Bytes driven on TDI.
    pub tdi: &'a [u8],
    /// The buffer that receives TDO.
    pub tdo: &'a mut [u8],
}

/// Whether buffers of these lengths can take part in a shift of `bit_count` bits.
pub open spec fn buffers_fit(bit_count: nat, tms: nat, tdi: nat, tdo: nat) -> bool {
    &&& bit_count <= u32::MAX
    &&& tms == byte_len(bit_count)
    &&& tdi == byte_len(bit_count)
    &&& tdo == byte_len(bit_count)
}

impl<'a> JtagShift<'a> {
    /// The buffers fit the bit count.
    pub open spec fn wf(&self) -> bool {
        buffers_fit(
            self.bit_count as nat,
            self.tms@.len(),
            self.tdi@.len(),
            self.tdo@.len(),
        )
    }

    /// Everything but the contents of the TDO buffer is as in `before`.
    pub open spec fn same_request(&self, before: &Self) -> bool {
        &&& self.execution == before.execution
        &&& self.bit_count == before.bit_count
        &&& self.tms@ == before.tms@
        &&& self.tdi@ == before.tdi@
        &&& self.tdo@.len() == before.tdo@.len()
    }

    /// A shift of `bit_count` bits over these buffers, if their lengths fit.
    pub fn new(
        execution: ShiftExecution,
        bit_count: usize,
        tms: &'a [u8],
        tdi: &'a [u8],
        tdo: &'a mut [u8],
    ) -> (shift: Result<Self, JtagError>)
        ensures
            shift is Ok <==> buffers_fit(
                bit_count as nat,
                tms@.len(),
                tdi@.len(),
                old(tdo)@.len(),
            ),
            shift matches Ok(shift) ==> {
                &&& shift.wf()
                &&& shift.execution == execution
                &&& shift.bit_count == bit_count
                &&& shift.tms@ == tms@
                &&& shift.tdi@ == tdi@
                &&& shift.tdo@ == old(tdo)@
                &&& final(tdo)@ == final(shift.tdo)@
            },
            shift matches Err(error) ==> {
                &&& error == JtagError::InvalidShiftBuffers
                &&& final(tdo)@ == old(tdo)@
            },
    {
        let byte_count: usize = bytes_for_bits(bit_count);
        if bit_count > u32::MAX as usize || tms.len() != byte_count || tdi.len() != byte_count
            || tdo.len() != byte_count {
            return Err(JtagError::InvalidShiftBuffers);
        }
        Ok(JtagShift { execution, bit_count, tms, tdi, tdo })
    }

    /// Clears the bits of the TDO buffer that lie past the bit count.
    pub fn clear_unused_tdo(&mut self)
        requires
            old(self).wf(),
        ensures
            final(self).wf(),
            final(self).same_request(old(self)),
            final(final(self).tdo)@ == final(old(self).tdo)@,
            forall|i: int|
                0 <= i < 8 * old(self).tdo@.len() ==> #[trigger] bit_at(final(self).tdo@, i) == (
                bit_at(old(self).tdo@, i) && i < old(self).bit_count),
    {
        mask_tail(self.bit_count, self.tdo);
    }
}

/// A shift is accepted exactly if its bit count fits in 32 bits and every buffer
/// has the smallest number of bytes that holds that many bits. It then stands
/// for the buffers it was made of.
pub proof fn law_only_fitting_buffers_are_shifted<'a>(
    execution: ShiftExecution,
    bit_count: usize,
    tms: &'a [u8],
    tdi: &'a [u8],
    tdo: &'a mut [u8],
    shift: Result<JtagShift<'a>, JtagError>,
)
    requires
        call_ensures(JtagShift::new, (execution, bit_count, tms, tdi, tdo), shift),
    ensures
        shift is Ok <==> {
            &&& bit_count <= 0xffff_ffff
            &&& bit_count <= 8 * tms@.len() < bit_count + 8
            &&& tdi@.len() == tms@.len()
            &&& old(tdo)@.len() == tms@.len()
        },
        shift matches Ok(made) ==> {
            &&& made.execution == execution
            &&& made.bit_count == bit_count
            &&& made.tms@ == tms@
            &&& made.tdi@ == tdi@
            &&& made.tdo@ == old(tdo)@
        },
        shift matches Err(error) ==> error is InvalidShiftBuffers,
{
}

/// A buffered shift may take twice its nominal duration, and a chunk of a
/// streamed one three times.
pub proof fn law_chunks_are_given_more_time(execution: ShiftExecution, multiplier: u64)
    requires
        call_ensures(ShiftExecution::timeout_multiplier, (execution,), multiplier),
    ensures
        execution is BufferedCommand ==> multiplier == 2,
        execution is StreamChunk ==> multiplier == 3,
{
}

} // verus!
