//! Retention of the TMS vector of a streamed shift.
//!
//! The client sends all TMS bytes before the first TDI byte, so they are kept
//! until the TDI bytes arrive: as they are while they fit in a fixed buffer,
//! run-length encoded beyond that.

use std::collections::TryReserveError;

use vstd::prelude::*;
use vstd::slice::slice_subrange;

use crate::buffer::{copy_at, overwritten};
use crate::xvc::error::StreamError;

verus! {

/// Bytes of the fixed buffer.
pub const RAW_TMS_MAX_BYTES: usize = 24_576;

/// Most runs that are kept.
pub const MAX_RLE_RUNS: usize = 1_024;

/// `count` copies of `byte`.
pub open spec fn repeated(byte: u8, count: nat) -> Seq<u8> {
    Seq::new(count, |i: int| byte)
}

/// The bytes that a list of runs stands for.
pub open spec fn expand(runs: Seq<(u8, u32)>) -> Seq<u8>
    decreases runs.len(),
{
    if runs.len() == 0 {
        Seq::empty()
    } else {
        expand(runs.drop_last()) + repeated(runs.last().0, runs.last().1 as nat)
    }
}

/// Whether the last byte of `bytes` differs from the one before it.
pub open spec fn starts_run(bytes: Seq<u8>) -> bool {
    bytes.len() == 1 || bytes[bytes.len() - 1] != bytes[bytes.len() - 2]
}

/// Number of maximal stretches of equal bytes.
pub open spec fn stretch_count(bytes: Seq<u8>) -> nat
    decreases bytes.len(),
{
    if bytes.len() == 0 {
        0
    } else {
        stretch_count(bytes.drop_last()) + if starts_run(bytes) {
            1nat
        } else {
            0nat
        }
    }
}

/// Run `i` covers its place in the expansion.
proof fn lemma_expand_run(runs: Seq<(u8, u32)>, i: int)
    requires
        0 <= i < runs.len(),
    ensures
        expand(runs.take(i + 1)).len() == expand(runs.take(i)).len() + runs[i].1,
        expand(runs.take(i + 1)).len() <= expand(runs).len(),
        forall|j: int|
            expand(runs.take(i)).len() <= j < expand(runs.take(i + 1)).len() ==> expand(runs)[j]
                == runs[i].0,
    decreases runs.len(),
{
    assert(runs.take(i + 1).drop_last() =~= runs.take(i));
    if i == runs.len() - 1 {
        assert(runs.take(i + 1) =~= runs);
    } else {
        let shorter = runs.drop_last();
        assert(shorter.take(i) =~= runs.take(i));
        assert(shorter.take(i + 1) =~= runs.take(i + 1));
        lemma_expand_run(shorter, i);
    }
}

/// Appending `count` copies of `byte` starts at most one stretch.
proof fn lemma_stretches_of_run(bytes: Seq<u8>, byte: u8, count: nat)
    requires
        count > 0,
    ensures
        stretch_count(bytes + repeated(byte, count)) == stretch_count(bytes) + if bytes.len() == 0
            || bytes.last() != byte {
            1nat
        } else {
            0nat
        },
    decreases count,
{
    let longer = bytes + repeated(byte, count);
    if count == 1 {
        assert(longer.drop_last() =~= bytes);
    } else {
        assert(longer.drop_last() =~= bytes + repeated(byte, (count - 1) as nat));
        lemma_stretches_of_run(bytes, byte, (count - 1) as nat);
        assert(!starts_run(longer));
    }
}

/// A longer byte string has no fewer stretches.
pub proof fn lemma_stretches_grow(bytes: Seq<u8>, count: int)
    requires
        0 <= count <= bytes.len(),
    ensures
        stretch_count(bytes.take(count)) <= stretch_count(bytes),
    decreases bytes.len(),
{
    if count == bytes.len() {
        assert(bytes.take(count) =~= bytes);
    } else {
        assert(bytes.drop_last().take(count) =~= bytes.take(count));
        lemma_stretches_grow(bytes.drop_last(), count);
    }
}

/// Whether run-length encoding gives up at byte `kept`, and why: the bytes
/// before it have at most the runs that are kept, and it starts another one. If
/// that is one too many, this is an overflow, else memory for it was refused.
pub open spec fn refused_at(bytes: Seq<u8>, kept: int, error: StreamError) -> bool {
    let runs = stretch_count(bytes.take(kept));
    &&& 0 <= kept < bytes.len()
    &&& runs <= MAX_RLE_RUNS
    &&& stretch_count(bytes.take(kept + 1)) == runs + 1
    &&& error == (if runs + 1 > MAX_RLE_RUNS {
        StreamError::TmsRleOverflow
    } else {
        StreamError::OutOfMemory
    })
}

/// Bytes that are refused as an overflow have more stretches than there may be
/// runs, and without a refusal for want of memory the reverse holds too.
pub proof fn law_overflow_means_too_many_runs(bytes: Seq<u8>, kept: int, error: StreamError)
    requires
        refused_at(bytes, kept, error),
    ensures
        error == StreamError::TmsRleOverflow ==> stretch_count(bytes) > MAX_RLE_RUNS,
        error == StreamError::OutOfMemory ==> stretch_count(bytes.take(kept + 1)) <= MAX_RLE_RUNS,
        error == StreamError::TmsRleOverflow || error == StreamError::OutOfMemory,
        stretch_count(bytes) > stretch_count(bytes.take(kept)),
{
    lemma_stretches_grow(bytes, kept + 1);
}

/// Whether the allocator refuses memory for one more run: a call of
/// `Vec::try_reserve` for one more run can end in an error.
pub open spec fn memory_is_refused() -> bool {
    exists|runs: &mut Vec<(u8, u32)>, answer: Result<(), TryReserveError>|
        answer is Err && #[trigger] call_ensures(
            Vec::<(u8, u32)>::try_reserve,
            (runs, 1usize),
            answer,
        )
}

/// Runs that are not empty and whose neighbours differ, unless a run is as
/// long as its counter allows.
pub open spec fn runs_ok(runs: Seq<(u8, u32)>) -> bool {
    &&& forall|i: int| 0 <= i < runs.len() ==> (#[trigger] runs[i]).1 >= 1
    &&& forall|i: int, j: int|
        0 <= i && j == i + 1 && j < runs.len() ==> (#[trigger] runs[i]).0 != (#[trigger] runs[j]).0
            || runs[i].1 == u32::MAX
}

/// The last byte of an expansion is that of its last run.
proof fn lemma_expand_last(runs: Seq<(u8, u32)>)
    requires
        runs_ok(runs),
        runs.len() > 0,
    ensures
        expand(runs).len() >= runs.last().1,
        expand(runs).last() == runs.last().0,
{
}

/// Runs of at most `u32::MAX` bytes are as few as the bytes allow.
proof fn lemma_runs_are_stretches(runs: Seq<(u8, u32)>)
    requires
        runs_ok(runs),
        expand(runs).len() <= u32::MAX,
    ensures
        runs.len() == stretch_count(expand(runs)),
    decreases runs.len(),
{
    if runs.len() > 0 {
        let shorter = runs.drop_last();
        lemma_runs_are_stretches(shorter);
        lemma_stretches_of_run(expand(shorter), runs.last().0, runs.last().1 as nat);
        if shorter.len() > 0 {
            lemma_expand_last(shorter);
            assert(runs[runs.len() - 2].0 != runs[runs.len() - 1].0);
        }
    }
}

/// A run-length encoded byte string with a read cursor.
///
/// Its view is the encoded bytes.
pub struct TmsRle {
    runs: Vec<(u8, u32)>,
    run_index: usize,
    run_remaining: u32,
}

impl View for TmsRle {
    type V = Seq<u8>;

    closed spec fn view(&self) -> Seq<u8> {
        expand(self.runs@)
    }
}

impl TmsRle {
    /// The runs are in order and the cursor lies in them.
    pub closed spec fn wf(&self) -> bool {
        &&& runs_ok(self.runs@)
        &&& self.runs@.len() <= MAX_RLE_RUNS
        &&& self.run_index <= self.runs@.len()
        &&& self.run_remaining > 0 ==> self.run_index < self.runs@.len() && self.run_remaining
            <= self.runs@[self.run_index as int].1
    }

    /// Number of runs in use.
    pub closed spec fn run_count(&self) -> nat {
        self.runs@.len()
    }

    /// Whether the last run takes another `byte`.
    pub closed spec fn extends_with(&self, byte: u8) -> bool {
        &&& self.runs@.len() > 0
        &&& self.runs@.last().0 == byte
        &&& self.runs@.last().1 < u32::MAX
    }

    /// The run that is read next and what is left of it, if it was entered.
    pub closed spec fn cursor(&self) -> (usize, u32) {
        (self.run_index, self.run_remaining)
    }

    /// Number of bytes read.
    pub closed spec fn position(&self) -> nat {
        expand(self.runs@.take(self.run_index as int)).len() + if self.run_remaining == 0 {
            0nat
        } else {
            (self.runs@[self.run_index as int].1 - self.run_remaining) as nat
        }
    }

    /// The encoding depends on the encoded bytes alone: there are as many runs
    /// as there are stretches of equal bytes, within their limit, and a byte is
    /// taken by the last run exactly when it repeats the last byte. That last
    /// part leaves out a string as long as the counter of one run allows.
    pub proof fn law_runs_follow_the_bytes(&self, byte: u8)
        requires
            self.wf(),
            self@.len() <= u32::MAX,
        ensures
            self.run_count() == stretch_count(self@),
            self.run_count() <= MAX_RLE_RUNS,
            self@.len() < u32::MAX ==> (self.extends_with(byte) <==> self@.len() > 0
                && self@.last() == byte),
    {
        lemma_runs_are_stretches(self.runs@);
        if self.runs@.len() > 0 {
            lemma_expand_last(self.runs@);
        }
    }

    /// A cursor at the start has read nothing.
    pub proof fn lemma_rewound(&self)
        requires
            self.wf(),
            self.cursor() == (0usize, 0u32),
        ensures
            self.position() == 0,
    {
        assert(self.runs@.take(0) =~= Seq::<(u8, u32)>::empty());
    }

    /// The cursor never lies past the end.
    pub proof fn lemma_position(&self)
        requires
            self.wf(),
        ensures
            self.position() <= self@.len(),
    {
        let i = self.run_index as int;
        if i < self.runs@.len() {
            lemma_expand_run(self.runs@, i);
        } else {
            assert(self.runs@.take(i) =~= self.runs@);
        }
    }

    /// An empty string; memory for some runs is set aside if there is any.
    pub fn new() -> (rle: Self)
        ensures
            rle.wf(),
            rle@ == Seq::<u8>::empty(),
            rle.run_count() == 0,
            rle.cursor() == (0usize, 0u32),
            exists|runs: &mut Vec<(u8, u32)>, answer: Result<(), TryReserveError>|
                runs@.len() == 0 && #[trigger] call_ensures(
                    Vec::<(u8, u32)>::try_reserve,
                    (runs, 64usize),
                    answer,
                ),
    {
        let mut runs: Vec<(u8, u32)> = Vec::new();
        let reserve = Vec::<(u8, u32)>::try_reserve;
        let _ = reserve(&mut runs, 64);
        TmsRle { runs, run_index: 0, run_remaining: 0 }
    }

    /// Forgets all bytes.
    pub fn clear(&mut self)
        ensures
            final(self).wf(),
            final(self)@ == Seq::<u8>::empty(),
            final(self).run_count() == 0,
            final(self).cursor() == (0usize, 0u32),
    {
        self.runs.clear();
        self.run_index = 0;
        self.run_remaining = 0;
    }

    /// Number of runs in use.
    pub fn runs(&self) -> (count: usize)
        ensures
            count == self.run_count(),
    {
        self.runs.len()
    }

    /// Whether `byte` lengthens the last run.
    fn lengthens(&self, byte: u8) -> (yes: bool)
        ensures
            yes == self.extends_with(byte),
    {
        let count: usize = self.runs.len();
        count > 0 && self.runs[count - 1].0 == byte && self.runs[count - 1].1 < u32::MAX
    }

    /// Appends a byte. `reserved` says whether there is memory for a new run.
    pub fn push_reserved(&mut self, byte: u8, reserved: bool) -> (outcome: Result<(), StreamError>)
        requires
            old(self).wf(),
        ensures
            final(self).wf(),
            final(self).cursor() == old(self).cursor(),
            outcome == (if old(self).extends_with(byte) {
                Ok::<(), StreamError>(())
            } else if old(self).run_count() >= MAX_RLE_RUNS {
                Err(StreamError::TmsRleOverflow)
            } else if !reserved {
                Err(StreamError::OutOfMemory)
            } else {
                Ok(())
            }),
            outcome is Ok ==> final(self)@ == old(self)@.push(byte),
            outcome is Err ==> final(self)@ == old(self)@,
            old(self)@.len() < u32::MAX ==> {
                &&& outcome == Err::<(), StreamError>(StreamError::TmsRleOverflow)
                    <==> stretch_count(old(self)@) == MAX_RLE_RUNS && old(self)@.last() != byte
                &&& outcome is Ok ==> final(self).run_count() == stretch_count(
                    old(self)@.push(byte),
                ) <= MAX_RLE_RUNS
            },
    {
        let count: usize = self.runs.len();
        let ghost before = self.runs@;
        proof {
            if self@.len() < u32::MAX {
                self.law_runs_follow_the_bytes(byte);
            }
        }
        if self.lengthens(byte) {
            let length: u32 = self.runs[count - 1].1;
            self.runs.set(count - 1, (byte, length + 1));
            assert(self.runs@.drop_last() =~= before.drop_last());
            assert(repeated(byte, (length + 1) as nat) =~= repeated(byte, length as nat).push(
                byte,
            ));
            assert(self@ =~= old(self)@.push(byte));
            proof {
                if old(self)@.len() < u32::MAX {
                    self.law_runs_follow_the_bytes(byte);
                }
            }
            return Ok(());
        }
        if count >= MAX_RLE_RUNS {
            return Err(StreamError::TmsRleOverflow);
        }
        if !reserved {
            return Err(StreamError::OutOfMemory);
        }
        self.runs.push((byte, 1));
        assert(self.runs@.drop_last() =~= before);
        assert(self@ =~= old(self)@.push(byte));
        proof {
            if old(self)@.len() < u32::MAX {
                self.law_runs_follow_the_bytes(byte);
            }
        }
        Ok(())
    }

    /// Appends a byte, asking for memory when it starts a new run. Whether
    /// there is memory is up to the allocator, and only its refusal is reported
    /// as want of memory.
    pub fn push(&mut self, byte: u8) -> (outcome: Result<(), StreamError>)
        requires
            old(self).wf(),
        ensures
            final(self).wf(),
            final(self).cursor() == old(self).cursor(),
            old(self).extends_with(byte) ==> outcome is Ok,
            outcome == Err::<(), StreamError>(StreamError::TmsRleOverflow) <==> !old(
                self,
            ).extends_with(byte) && old(self).run_count() >= MAX_RLE_RUNS,
            outcome matches Err(error) ==> error == StreamError::TmsRleOverflow || error
                == StreamError::OutOfMemory,
            outcome == Err::<(), StreamError>(StreamError::OutOfMemory) ==> exists|
                runs: &mut Vec<(u8, u32)>,
                answer: Result<(), TryReserveError>,
            |
                answer is Err && runs@.len() == old(self).run_count() && #[trigger] call_ensures(
                    Vec::<(u8, u32)>::try_reserve,
                    (runs, 1usize),
                    answer,
                ),
            outcome is Ok && !old(self).extends_with(byte) ==> exists|
                runs: &mut Vec<(u8, u32)>,
                answer: Result<(), TryReserveError>,
            |
                answer is Ok && runs@.len() == old(self).run_count() && #[trigger] call_ensures(
                    Vec::<(u8, u32)>::try_reserve,
                    (runs, 1usize),
                    answer,
                ),
            outcome is Ok ==> final(self)@ == old(self)@.push(byte),
            outcome is Err ==> final(self)@ == old(self)@,
            old(self)@.len() < u32::MAX ==> {
                &&& outcome == Err::<(), StreamError>(StreamError::TmsRleOverflow)
                    <==> stretch_count(old(self)@) == MAX_RLE_RUNS && old(self)@.last() != byte
                &&& outcome is Ok ==> final(self).run_count() == stretch_count(
                    old(self)@.push(byte),
                ) <= MAX_RLE_RUNS
            },
    {
        let reserved: bool = if !self.lengthens(byte) && self.runs.len() < MAX_RLE_RUNS {
            let reserve = Vec::<(u8, u32)>::try_reserve;
            let answer = reserve(&mut self.runs, 1);
            answer.is_ok()
        } else {
            true
        };
        self.push_reserved(byte, reserved)
    }

    /// Appends bytes, with memory for `reserved` new runs, up to the first byte
    /// that needs a run too many or memory that is not there.
    pub fn push_all_reserved(&mut self, input: &[u8], reserved: usize) -> (outcome: Result<
        (),
        StreamError,
    >)
        requires
            old(self).wf(),
            old(self)@.len() + input@.len() <= u32::MAX,
        ensures
            final(self).wf(),
            final(self).cursor() == old(self).cursor(),
            outcome == (if stretch_count(old(self)@ + input@) <= MAX_RLE_RUNS && stretch_count(
                old(self)@ + input@,
            ) <= stretch_count(old(self)@) + reserved {
                Ok::<(), StreamError>(())
            } else if stretch_count(old(self)@) + reserved >= MAX_RLE_RUNS {
                Err(StreamError::TmsRleOverflow)
            } else {
                Err(StreamError::OutOfMemory)
            }),
            outcome is Ok ==> final(self)@ == old(self)@ + input@,
            outcome matches Err(error) ==> exists|kept: int|
                old(self)@.len() <= kept && #[trigger] refused_at(
                    old(self)@ + input@,
                    kept,
                    error,
                ) && final(self)@ == (old(self)@ + input@).take(kept),
    {
        let ghost before = self@;
        let ghost whole = before + input@;
        let total: usize = input.len();
        let mut stored: usize = 0;
        let mut left: usize = reserved;
        proof {
            self.law_runs_follow_the_bytes(0);
            assert(whole.take(before.len() as int) =~= before);
        }
        while stored < total
            invariant
                self.wf(),
                self.cursor() == old(self).cursor(),
                before == old(self)@,
                whole == before + input@,
                whole.len() <= u32::MAX,
                stored <= total == input@.len(),
                self@ == whole.take(before.len() + stored),
                stretch_count(self@) + left == stretch_count(before) + reserved,
                stretch_count(self@) <= MAX_RLE_RUNS,
            decreases total - stored,
        {
            let byte: u8 = input[stored];
            let ghost so_far = self@;
            let ghost place = before.len() + stored;
            proof {
                self.law_runs_follow_the_bytes(byte);
                assert(so_far.push(byte) =~= whole.take(place + 1));
                assert(so_far.push(byte).drop_last() =~= so_far);
                lemma_stretches_grow(whole, place + 1);
            }
            let new_run: bool = !self.lengthens(byte);
            match self.push_reserved(byte, left > 0) {
                Ok(()) => {},
                Err(error) => {
                    assert(refused_at(whole, place as int, error));
                    return Err(error);
                },
            }
            if new_run {
                left = left - 1;
            }
            stored = stored + 1;
        }
        assert(whole.take(whole.len() as int) =~= whole);
        Ok(())
    }

    /// Moves the cursor to the start.
    pub fn rewind(&mut self)
        requires
            old(self).wf(),
        ensures
            final(self).wf(),
            final(self)@ == old(self)@,
            final(self).run_count() == old(self).run_count(),
            final(self).cursor() == (0usize, 0u32),
            final(self).position() == 0,
    {
        self.run_index = 0;
        self.run_remaining = 0;
        proof {
            self.lemma_rewound();
        }
    }

    /// Reads bytes at the cursor until `output` is full. If the string ends
    /// before that, what is left of it is read and underflow is reported.
    pub fn read_into(&mut self, output: &mut [u8]) -> (outcome: Result<(), StreamError>)
        requires
            old(self).wf(),
        ensures
            final(self).wf(),
            final(self)@ == old(self)@,
            final(self).run_count() == old(self).run_count(),
            final(output)@.len() == old(output)@.len(),
            old(self).position() <= old(self)@.len(),
            outcome == (if old(self).position() + old(output)@.len() <= old(self)@.len() {
                Ok::<(), StreamError>(())
            } else {
                Err(StreamError::TmsUnderflow)
            }),
            outcome is Ok ==> {
                &&& final(output)@ == old(self)@.subrange(
                    old(self).position() as int,
                    (old(self).position() + old(output)@.len()) as int,
                )
                &&& final(self).position() == old(self).position() + old(output)@.len()
            },
            outcome is Err ==> {
                &&& final(output)@ == overwritten(
                    old(output)@,
                    0,
                    old(self)@.skip(old(self).position() as int),
                )
                &&& final(self).position() == old(self)@.len()
            },
    {
        let ghost whole = self@;
        let ghost start = self.position();
        let ghost before = output@;
        let count: usize = output.len();
        let mut filled: usize = 0;
        proof {
            self.lemma_position();
        }
        while filled < count
            invariant
                self.wf(),
                self.runs@ == old(self).runs@,
                whole == expand(self.runs@),
                filled <= count == before.len(),
                output@.len() == count,
                start + filled == self.position(),
                self.position() <= whole.len(),
                forall|i: int| 0 <= i < filled ==> #[trigger] output@[i] == whole[start + i],
                forall|i: int| filled <= i < count ==> #[trigger] output@[i] == before[i],
                start == old(self).position(),
                whole == old(self)@,
                before == old(output)@,
            decreases count - filled,
        {
            let ghost i = self.run_index as int;
            if self.run_remaining == 0 {
                if self.run_index >= self.runs.len() {
                    assert(self.runs@.take(i) =~= self.runs@);
                    assert(output@ =~= overwritten(before, 0, whole.skip(start as int)));
                    return Err(StreamError::TmsUnderflow);
                }
                self.run_remaining = self.runs[self.run_index].1;
            }
            proof {
                lemma_expand_run(self.runs@, i);
            }
            output[filled] = self.runs[self.run_index].0;
            self.run_remaining = self.run_remaining - 1;
            if self.run_remaining == 0 {
                self.run_index = self.run_index + 1;
            }
            filled = filled + 1;
        }
        assert(output@ =~= whole.subrange(start as int, (start + before.len()) as int));
        Ok(())
    }
}

/// Where the TMS bytes are kept.
pub enum TmsMode {
    Raw { length: usize, position: usize },
    Rle,
}

/// How much of a mode's capacity is in use.
#[derive(Debug, Clone, Copy, PartialEq, Eq, Structural)]
pub enum StorageDescription {
    Raw { length: usize },
    Rle { runs: usize },
}

/// The TMS bytes of one shift, kept in a raw buffer that the caller owns or in
/// runs, with a read cursor.
pub struct TmsStorage {
    mode: TmsMode,
    rle: TmsRle,
}

impl TmsStorage {
    /// Whether the bytes are kept as they are.
    pub closed spec fn is_raw(&self) -> bool {
        self.mode is Raw
    }

    /// The kept bytes, given the contents of the raw buffer.
    pub closed spec fn content(&self, raw: Seq<u8>) -> Seq<u8> {
        match self.mode {
            TmsMode::Raw { length, .. } => raw.take(length as int),
            TmsMode::Rle => self.rle@,
        }
    }

    /// Number of bytes read since the last rewind.
    pub closed spec fn position(&self) -> nat {
        match self.mode {
            TmsMode::Raw { position, .. } => position as nat,
            TmsMode::Rle => self.rle.position(),
        }
    }

    /// Whether the cursor is where `begin` and `rewind` put it.
    pub closed spec fn is_rewound(&self) -> bool {
        match self.mode {
            TmsMode::Raw { position, .. } => position == 0,
            TmsMode::Rle => self.rle.cursor() == (0usize, 0u32),
        }
    }

    /// Number of runs in use.
    pub closed spec fn run_count(&self) -> nat {
        self.rle.run_count()
    }

    /// The runs are in order and the cursor is not past the end.
    pub closed spec fn sound(&self) -> bool {
        &&& self.rle.wf()
        &&& self.mode matches TmsMode::Raw { length, position } ==> position <= length
    }

    /// The kept bytes lie in a raw buffer of this size.
    pub closed spec fn fits(&self, raw_size: nat) -> bool {
        self.mode matches TmsMode::Raw { length, .. } ==> length <= raw_size
    }

    /// The storage is in order and its bytes lie in the raw buffer.
    pub open spec fn wf(&self, raw: Seq<u8>) -> bool {
        self.sound() && self.fits(raw.len())
    }

    /// Nothing is read before the end of what is kept, nothing at the start.
    pub proof fn lemma_position(&self, raw: Seq<u8>)
        requires
            self.wf(raw),
        ensures
            self.position() <= self.content(raw).len(),
            self.is_rewound() ==> self.position() == 0,
    {
        self.rle.lemma_position();
        if self.rle.cursor() == (0usize, 0u32) {
            self.rle.lemma_rewound();
        }
    }

    /// While bytes are kept in runs, there are as many of those as there are
    /// stretches of equal bytes.
    pub proof fn law_runs_follow_the_bytes(&self, raw: Seq<u8>)
        requires
            self.wf(raw),
            !self.is_raw(),
            self.content(raw).len() <= u32::MAX,
        ensures
            self.run_count() == stretch_count(self.content(raw)),
            self.run_count() <= MAX_RLE_RUNS,
    {
        self.rle.law_runs_follow_the_bytes(0);
    }

    /// A read gives back what was stored: at the place of a stored piece, the
    /// bytes that `read_into` hands out for its length are that piece.
    pub proof fn law_reads_give_back_what_was_stored(
        &self,
        raw: Seq<u8>,
        before: Seq<u8>,
        piece: Seq<u8>,
        after: Seq<u8>,
    )
        requires
            self.content(raw) == before + piece + after,
            self.position() == before.len(),
        ensures
            self.position() + piece.len() <= self.content(raw).len(),
            self.content(raw).subrange(
                self.position() as int,
                (self.position() + piece.len()) as int,
            ) == piece,
    {
        assert((before + piece + after).subrange(
            before.len() as int,
            (before.len() + piece.len()) as int,
        ) =~= piece);
    }

    /// Empty storage.
    pub fn new() -> (storage: Self)
        ensures
            storage.sound(),
            forall|raw_size: nat| #[trigger] storage.fits(raw_size),
            forall|raw: Seq<u8>| #[trigger] storage.content(raw) == Seq::<u8>::empty(),
            storage.is_raw(),
            storage.is_rewound(),
            storage.position() == 0,
            storage.run_count() == 0,
    {
        let storage = TmsStorage {
            mode: TmsMode::Raw { length: 0, position: 0 },
            rle: TmsRle::new(),
        };
        assert forall|raw: Seq<u8>| #[trigger]
            storage.content(raw) == Seq::<u8>::empty() by {
            assert(raw.take(0) =~= Seq::<u8>::empty());
        }
        storage
    }

    /// Forgets all bytes and picks the mode for `byte_count` new ones.
    pub fn begin(&mut self, byte_count: usize)
        ensures
            final(self).sound(),
            forall|raw_size: nat| #[trigger] final(self).fits(raw_size),
            forall|raw: Seq<u8>| #[trigger] final(self).content(raw) == Seq::<u8>::empty(),
            final(self).is_raw() <==> byte_count <= RAW_TMS_MAX_BYTES,
            final(self).is_rewound(),
            final(self).run_count() == 0,
    {
        self.rle.clear();
        self.mode =
        if byte_count <= RAW_TMS_MAX_BYTES {
            TmsMode::Raw { length: 0, position: 0 }
        } else {
            TmsMode::Rle
        };
        assert forall|raw: Seq<u8>| #[trigger] self.content(raw) == Seq::<u8>::empty() by {
            assert(raw.take(0) =~= Seq::<u8>::empty());
        }
    }

    /// Appends `input`. In raw mode it is stored whole or, if the buffer is too
    /// small, not at all. In runs, bytes are stored up to the first that would
    /// need a run too many or memory that the allocator does not give; without
    /// a new run neither is needed.
    pub fn store(&mut self, raw: &mut [u8], input: &[u8]) -> (outcome: Result<(), StreamError>)
        requires
            old(self).wf(old(raw)@),
        ensures
            final(self).wf(final(raw)@),
            final(self).is_raw() == old(self).is_raw(),
            final(raw)@.len() == old(raw)@.len(),
            old(self).is_rewound() ==> final(self).is_rewound(),
            outcome is Ok ==> final(self).content(final(raw)@) == old(self).content(old(raw)@)
                + input@,
            old(self).is_raw() ==> {
                &&& outcome == (if old(self).content(old(raw)@).len() + input@.len() <= old(
                    raw,
                )@.len() {
                    Ok::<(), StreamError>(())
                } else {
                    Err(StreamError::ShiftTooLarge)
                })
                &&& outcome is Ok ==> final(raw)@ == overwritten(
                    old(raw)@,
                    old(self).content(old(raw)@).len() as int,
                    input@,
                )
                &&& outcome is Err ==> *final(self) == *old(self) && final(raw)@ == old(raw)@
                &&& final(self).position() == old(self).position()
            },
            !old(self).is_raw() ==> {
                &&& final(raw)@ == old(raw)@
                &&& outcome == Err::<(), StreamError>(StreamError::OutOfMemory)
                    ==> memory_is_refused()
                &&& outcome matches Err(error) ==> {
                    &&& error == StreamError::TmsRleOverflow || error == StreamError::OutOfMemory
                    &&& exists|kept: int|
                        0 <= kept < input@.len() && final(self).content(final(raw)@) == #[trigger] (
                        old(self).content(old(raw)@) + input@.take(kept))
                }
                &&& old(self).content(old(raw)@).len() + input@.len() <= u32::MAX ==> {
                    let whole = old(self).content(old(raw)@) + input@;
                    &&& outcome is Ok ==> stretch_count(whole) <= MAX_RLE_RUNS
                    &&& outcome matches Err(error) ==> exists|kept: int|
                        old(self).content(old(raw)@).len() <= kept && #[trigger] refused_at(
                            whole,
                            kept,
                            error,
                        ) && final(self).content(final(raw)@) == whole.take(kept)
                    &&& stretch_count(whole) == stretch_count(old(self).content(old(raw)@))
                        ==> outcome is Ok
                }
            },
    {
        let ghost kept_before = self.content(raw@);
        match &mut self.mode {
            TmsMode::Raw { length, .. } => {
                if input.len() > raw.len() - *length {
                    return Err(StreamError::ShiftTooLarge);
                }
                copy_at(raw, *length, input);
                *length = *length + input.len();
                assert(self.content(raw@) =~= kept_before + input@);
                Ok(())
            },
            TmsMode::Rle => {
                let mut stored: usize = 0;
                assert(input@.take(0) =~= Seq::<u8>::empty());
                assert(kept_before + input@.take(0) =~= kept_before);
                while stored < input.len()
                    invariant
                        self.mode is Rle,
                        old(self).mode is Rle,
                        self.rle.wf(),
                        self.rle.cursor() == old(self).rle.cursor(),
                        stored <= input@.len(),
                        kept_before == old(self).content(old(raw)@),
                        self.rle@ == kept_before + input@.take(stored as int),
                        raw@ == old(raw)@,
                    decreases input@.len() - stored,
                {
                    let byte: u8 = input[stored];
                    let ghost so_far = self.rle@;
                    proof {
                        if kept_before.len() + input@.len() <= u32::MAX {
                            self.rle.law_runs_follow_the_bytes(byte);
                            let whole = kept_before + input@;
                            assert(so_far.push(byte) =~= whole.take(so_far.len() as int + 1));
                            assert(so_far.push(byte).drop_last() =~= so_far);
                            lemma_stretches_grow(whole, so_far.len() as int + 1);
                            assert(so_far.take(kept_before.len() as int) =~= kept_before);
                            lemma_stretches_grow(so_far, kept_before.len() as int);
                        }
                    }
                    match self.rle.push(byte) {
                        Ok(()) => {},
                        Err(error) => {
                            assert(self.content(raw@) == kept_before + input@.take(stored as int));
                            proof {
                                if kept_before.len() + input@.len() <= u32::MAX {
                                    let whole = kept_before + input@;
                                    assert(so_far =~= whole.take(so_far.len() as int));
                                    assert(refused_at(whole, so_far.len() as int, error));
                                }
                            }
                            return Err(error);
                        },
                    }
                    assert(kept_before + input@.take(stored + 1) =~= so_far.push(byte));
                    stored = stored + 1;
                }
                assert(input@.take(stored as int) =~= input@);
                proof {
                    if kept_before.len() + input@.len() <= u32::MAX {
                        self.rle.law_runs_follow_the_bytes(0);
                    }
                }
                Ok(())
            },
        }
    }

    /// Moves the cursor to the start.
    pub fn rewind(&mut self)
        requires
            old(self).sound(),
        ensures
            final(self).sound(),
            forall|raw_size: nat| #[trigger]
                final(self).fits(raw_size) == old(self).fits(raw_size),
            forall|raw: Seq<u8>| #[trigger] final(self).content(raw) == old(self).content(raw),
            final(self).is_raw() == old(self).is_raw(),
            final(self).run_count() == old(self).run_count(),
            final(self).is_rewound(),
            final(self).position() == 0,
    {
        match &mut self.mode {
            TmsMode::Raw { position, .. } => {
                *position = 0;
            },
            TmsMode::Rle => {
                self.rle.rewind();
            },
        }
    }

    /// Reads bytes at the cursor until `output` is full. If fewer are kept,
    /// underflow is reported: in raw mode nothing is read then, in runs what
    /// is left is read.
    pub fn read_into(&mut self, raw: &[u8], output: &mut [u8]) -> (outcome: Result<
        (),
        StreamError,
    >)
        requires
            old(self).wf(raw@),
        ensures
            final(self).wf(raw@),
            final(self).content(raw@) == old(self).content(raw@),
            final(self).is_raw() == old(self).is_raw(),
            final(self).run_count() == old(self).run_count(),
            final(output)@.len() == old(output)@.len(),
            outcome == (if old(self).position() + old(output)@.len() <= old(self).content(
                raw@,
            ).len() {
                Ok::<(), StreamError>(())
            } else {
                Err(StreamError::TmsUnderflow)
            }),
            outcome is Ok ==> {
                &&& final(output)@ == old(self).content(raw@).subrange(
                    old(self).position() as int,
                    (old(self).position() + old(output)@.len()) as int,
                )
                &&& final(self).position() == old(self).position() + old(output)@.len()
            },
            outcome is Err && old(self).is_raw() ==> {
                &&& final(self).position() == old(self).position()
                &&& final(output)@ == old(output)@
            },
            outcome is Err && !old(self).is_raw() ==> {
                &&& final(self).position() == old(self).content(raw@).len()
                &&& final(output)@ == overwritten(
                    old(output)@,
                    0,
                    old(self).content(raw@).skip(old(self).position() as int),
                )
            },
    {
        match &mut self.mode {
            TmsMode::Raw { length, position } => {
                if output.len() > *length - *position {
                    return Err(StreamError::TmsUnderflow);
                }
                let end: usize = *position + output.len();
                copy_at(output, 0, slice_subrange(raw, *position, end));
                *position = end;
                assert(output@ =~= old(self).content(raw@).subrange(
                    old(self).position() as int,
                    (old(self).position() + old(output)@.len()) as int,
                ));
                Ok(())
            },
            TmsMode::Rle => self.rle.read_into(output),
        }
    }

    /// How much is in use.
    pub fn description(&self) -> (description: StorageDescription)
        ensures
            description is Raw <==> self.is_raw(),
            description matches StorageDescription::Raw { length } ==> forall|raw: Seq<u8>|
                self.fits(raw.len()) ==> length == #[trigger] self.content(raw).len(),
            description matches StorageDescription::Rle { runs } ==> runs == self.run_count(),
    {
        match self.mode {
            TmsMode::Raw { length, .. } => StorageDescription::Raw { length },
            TmsMode::Rle => StorageDescription::Rle { runs: self.rle.runs() },
        }
    }
}

/// No bytes have no stretch, and a further byte starts one exactly if it is the
/// first or differs from the byte before it.
pub proof fn law_change_starts_a_stretch(bytes: Seq<u8>, byte: u8)
    ensures
        stretch_count(Seq::<u8>::empty()) == 0,
        bytes.len() == 0 ==> stretch_count(bytes.push(byte)) == 1,
        bytes.len() > 0 && bytes.last() == byte ==> stretch_count(bytes.push(byte))
            == stretch_count(bytes),
        bytes.len() > 0 && bytes.last() != byte ==> stretch_count(bytes.push(byte))
            == stretch_count(bytes) + 1,
{
    assert(bytes.push(byte).drop_last() =~= bytes);
    if bytes.len() == 0 {
        assert(stretch_count(bytes) == 0);
    }
}

/// A byte is kept whenever memory is granted and no more than 1024 stretches of
/// equal bytes are kept with it: if the allocator grants every request for one
/// more run, `push` stores the byte.
pub proof fn law_byte_is_kept_while_memory_is_granted(
    rle: &mut TmsRle,
    byte: u8,
    outcome: Result<(), StreamError>,
)
    requires
        rle.wf(),
        rle@.len() < u32::MAX,
        stretch_count(rle@.push(byte)) <= 1_024,
        forall|runs: &mut Vec<(u8, u32)>, answer: Result<(), TryReserveError>| #[trigger]
            call_ensures(Vec::<(u8, u32)>::try_reserve, (runs, 1usize), answer) ==> answer is Ok,
        call_ensures(TmsRle::push, (rle, byte), outcome),
    ensures
        outcome is Ok,
        final(rle)@ == old(rle)@.push(byte),
{
    rle.law_runs_follow_the_bytes(byte);
    law_change_starts_a_stretch(rle@, byte);
}

/// A byte that lengthens the last stretch is kept without asking for memory, one
/// that would start the stretch after the 1024th is refused as an overflow, and
/// what was kept before is kept either way.
pub proof fn law_only_new_stretches_are_refused(
    rle: &mut TmsRle,
    byte: u8,
    outcome: Result<(), StreamError>,
)
    requires
        rle.wf(),
        rle@.len() < u32::MAX,
        call_ensures(TmsRle::push, (rle, byte), outcome),
    ensures
        old(rle)@.len() > 0 && old(rle)@.last() == byte ==> outcome is Ok,
        outcome == Err::<(), StreamError>(StreamError::TmsRleOverflow) <==> stretch_count(
            old(rle)@.push(byte),
        ) > 1_024,
        outcome is Ok ==> final(rle)@ == old(rle)@.push(byte),
        outcome is Err ==> final(rle)@ == old(rle)@,
{
    rle.law_runs_follow_the_bytes(byte);
    law_change_starts_a_stretch(rle@, byte);
}

/// A piece is kept whenever memory is granted and no more than 1024 stretches of
/// equal bytes are kept with it, whether it is kept as it is, for which there
/// must be room, or in runs.
pub proof fn law_piece_is_kept_while_memory_is_granted(
    storage: &mut TmsStorage,
    raw: &mut [u8],
    input: &[u8],
    outcome: Result<(), StreamError>,
)
    requires
        storage.wf(raw@),
        storage.content(raw@).len() + input@.len() <= u32::MAX,
        if storage.is_raw() {
            storage.content(raw@).len() + input@.len() <= raw@.len()
        } else {
            stretch_count(storage.content(raw@) + input@) <= 1_024
        },
        forall|runs: &mut Vec<(u8, u32)>, answer: Result<(), TryReserveError>| #[trigger]
            call_ensures(Vec::<(u8, u32)>::try_reserve, (runs, 1usize), answer) ==> answer is Ok,
        call_ensures(TmsStorage::store, (storage, raw, input), outcome),
    ensures
        outcome is Ok,
        final(storage).content(final(raw)@) == old(storage).content(old(raw)@) + input@,
{
    if !storage.is_raw() {
        if let Err(error) = outcome {
            let whole = storage.content(raw@) + input@;
            let kept = choose|kept: int|
                storage.content(raw@).len() <= kept && #[trigger] refused_at(whole, kept, error);
            law_overflow_means_too_many_runs(whole, kept, error);
        }
    }
}

/// Up to 24576 bytes are kept as they are, and more of them in runs.
pub proof fn law_long_vectors_are_kept_in_runs(storage: &mut TmsStorage, byte_count: usize)
    requires
        call_ensures(TmsStorage::begin, (storage, byte_count), ()),
    ensures
        final(storage).is_raw() <==> byte_count <= 24_576,
        forall|raw: Seq<u8>| #[trigger] final(storage).content(raw) == Seq::<u8>::empty(),
{
}

/// A read gives out the next bytes in their order and moves on behind them. If
/// fewer are left than are asked for, underflow is reported, and those that are
/// left are read.
pub proof fn law_runs_are_read_in_order(
    rle: &mut TmsRle,
    output: &mut [u8],
    outcome: Result<(), StreamError>,
    i: int,
)
    requires
        rle.wf(),
        call_ensures(TmsRle::read_into, (rle, output), outcome),
    ensures
        ({
            let left = old(rle)@.len() - old(rle).position();
            let count = final(output)@.len();
            &&& count == old(output)@.len()
            &&& final(rle)@ == old(rle)@
            &&& outcome is Ok <==> count <= left
            &&& outcome matches Err(error) ==> error is TmsUnderflow
            &&& final(rle).position() == old(rle).position() + if outcome is Ok {
                count as int
            } else {
                left
            }
            &&& 0 <= i < count && i < left ==> final(output)@[i] == old(rle)@[old(rle).position()
                + i]
            &&& left <= i < count ==> final(output)@[i] == old(output)@[i]
        }),
{
}

/// Stored bytes are read from the cursor on in their order, however they are
/// kept.
pub proof fn law_storage_is_read_in_order(
    storage: &mut TmsStorage,
    raw: &[u8],
    output: &mut [u8],
    outcome: Result<(), StreamError>,
    i: int,
)
    requires
        storage.wf(raw@),
        call_ensures(TmsStorage::read_into, (storage, raw, output), outcome),
    ensures
        ({
            let kept = old(storage).content(raw@);
            let at = old(storage).position();
            let count = old(output)@.len();
            &&& outcome is Ok <==> at + count <= kept.len()
            &&& outcome matches Err(error) ==> error is TmsUnderflow
            &&& final(storage).content(raw@) == kept
            &&& outcome is Ok ==> final(storage).position() == at + count
            &&& outcome is Ok && 0 <= i < count ==> final(output)@[i] == kept[at + i]
        }),
{
}

/// A new run needs room for it: a byte that repeats the last one is kept at once;
/// any other is refused as an overflow behind 1024 runs, and before that for want
/// of memory unless memory is set aside.
pub proof fn law_new_runs_need_memory(
    rle: &mut TmsRle,
    byte: u8,
    reserved: bool,
    outcome: Result<(), StreamError>,
)
    requires
        rle.wf(),
        rle@.len() < u32::MAX,
        call_ensures(TmsRle::push_reserved, (rle, byte, reserved), outcome),
    ensures
        outcome is Ok ==> final(rle)@ == old(rle)@.push(byte),
        outcome is Err ==> final(rle)@ == old(rle)@,
        stretch_count(old(rle)@.push(byte)) == stretch_count(old(rle)@) ==> outcome is Ok,
        stretch_count(old(rle)@.push(byte)) > stretch_count(old(rle)@) ==> {
            if stretch_count(old(rle)@) >= 1_024 {
                outcome == Err::<(), StreamError>(StreamError::TmsRleOverflow)
            } else if !reserved {
                outcome == Err::<(), StreamError>(StreamError::OutOfMemory)
            } else {
                outcome is Ok
            }
        },
{
    rle.law_runs_follow_the_bytes(byte);
    law_change_starts_a_stretch(rle@, byte);
}

} // verus!
