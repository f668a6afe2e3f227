//! The waveform of a shift: TMS and TDI bits driven, TDO bits sampled.

use vstd::arithmetic::div_mod::lemma_fundamental_div_mod_converse;
use vstd::prelude::*;

use crate::bits::{
    bit_at, bit_of, byte_len, bytes_for_bits, lemma_set_bit, lemma_zero_bit, test_bit,
};
use crate::jtag::pins::{
    events, high_us, lemma_events_append, lemma_events_push, lemma_masks, lemma_timeline_append,
    lemma_timeline_push, lines_after_all, low_us, rest_us, sample_us, tck_high_us, tck_low_us,
    tdo_sample_us, time_of_all, timeline, ClockEvent, Lines, PinOp, PinStep, TargetEvent, TCK_MASK,
    TDI_MASK, TMS_MASK,
};

verus! {

/// What a shift drives.
pub struct ScanPlan {
    pub tck_period_us: u32,
    pub bits: nat,
    pub tms: Seq<u8>,
    pub tdi: Seq<u8>,
}

/// `value`, moved up to `low` or down to `high` if it lies outside of them.
pub open spec fn between(low: int, value: int, high: int) -> int {
    if value < low {
        low
    } else if value > high {
        high
    } else {
        value
    }
}

/// Estimated duration of one bit.
pub open spec fn bit_us(tck_period_us: u32) -> int {
    high_us(tck_period_us) + low_us(tck_period_us) + 4
}

/// Number of bits from one poll for an abort to the next.
#[verifier::opaque]
pub open spec fn abort_every(tck_period_us: u32) -> int {
    between(1, 1_000int / bit_us(tck_period_us), 4_096)
}

/// Number of bits from one pause to the next.
#[verifier::opaque]
pub open spec fn pause_every(tck_period_us: u32) -> int {
    between(1, 50_000int / bit_us(tck_period_us), 32_768)
}

/// The poll for an abort that comes before bit `k`, if one does.
pub open spec fn poll_part(tck_period_us: u32, k: int) -> Seq<PinOp> {
    if (k + 1) % abort_every(tck_period_us) == 0 {
        seq![PinOp::PollAbort]
    } else {
        Seq::empty()
    }
}

/// The pause that comes before bit `k`, if one does; every eighth is longer.
pub open spec fn pause_part(tck_period_us: u32, k: int) -> Seq<PinOp> {
    let every = pause_every(tck_period_us);
    if (k + 1) % every == 0 {
        if (k + 1) / every % 8 == 0 {
            seq![PinOp::Sleep { ms: 1 }]
        } else {
            seq![PinOp::Yield]
        }
    } else {
        Seq::empty()
    }
}

/// The lines that are raised for a bit.
pub open spec fn raised(tms: bool, tdi: bool) -> u32 {
    (if tms {
        TMS_MASK
    } else {
        0
    }) | (if tdi {
        TDI_MASK
    } else {
        0
    })
}

/// Drives bit `k` and samples the answer: data before the rising edge of TCK,
/// sample while TCK is high.
pub open spec fn drive_part(plan: ScanPlan, k: int) -> Seq<PinOp> {
    let tms = bit_at(plan.tms, k);
    let tdi = bit_at(plan.tdi, k);
    seq![
        PinOp::SetPins { set_mask: raised(tms, tdi), clear_mask: raised(!tms, !tdi) },
        PinOp::SetHigh { mask: TCK_MASK },
        PinOp::Delay { us: sample_us(plan.tck_period_us) as u32 },
        PinOp::SampleTdo,
        PinOp::Delay { us: rest_us(plan.tck_period_us) as u32 },
        PinOp::SetLow { mask: TCK_MASK },
        PinOp::Delay { us: low_us(plan.tck_period_us) as u32 },
    ]
}

/// All operations of bit `k`.
pub open spec fn bit_ops(plan: ScanPlan, k: int) -> Seq<PinOp> {
    poll_part(plan.tck_period_us, k) + (pause_part(plan.tck_period_us, k) + drive_part(plan, k))
}

/// All operations from bit `k` on.
pub open spec fn ops_from(plan: ScanPlan, k: int) -> Seq<PinOp>
    decreases plan.bits - k,
{
    if k >= plan.bits {
        Seq::empty()
    } else {
        bit_ops(plan, k) + ops_from(plan, k + 1)
    }
}

/// All operations of a shift.
pub open spec fn scan_waveform(plan: ScanPlan) -> Seq<PinOp> {
    ops_from(plan, 0)
}

/// Where the waveform of a bit is.
enum ScanStage {
    Poll,
    Pause,
    Drive { index: u8 },
    Over,
}

/// The pause before a bit.
#[derive(Clone, Copy, PartialEq, Eq, Structural)]
enum Pause {
    Skip,
    Yield,
    Sleep,
}

/// The pause before bit `k`.
spec fn pause_before(tck_period_us: u32, k: int) -> Pause {
    let every = pause_every(tck_period_us);
    if (k + 1) % every != 0 {
        Pause::Skip
    } else if (k + 1) / every % 8 == 0 {
        Pause::Sleep
    } else {
        Pause::Yield
    }
}

/// Counters of bits agree with the number of bits that were started.
#[verifier::opaque]
spec fn counters_agree(
    tck_period_us: u32,
    abort_bits: usize,
    pause_bits: usize,
    abort_counter: usize,
    pause_counter: usize,
    watchdog_counter: u8,
    started: int,
) -> bool {
    &&& abort_bits > 0
    &&& pause_bits > 0
    &&& abort_bits == abort_every(tck_period_us)
    &&& pause_bits == pause_every(tck_period_us)
    &&& abort_counter == abort_bits - started % (abort_bits as int)
    &&& pause_counter == pause_bits - started % (pause_bits as int)
    &&& watchdog_counter == started / (pause_bits as int) % 256
}

/// A shift in progress.
pub struct ShiftBits<'a> {
    tck_period_us: u32,
    tms: &'a [u8],
    tdi: &'a [u8],
    bit_count: usize,
    abort_bits: usize,
    pause_bits: usize,
    abort_counter: usize,
    pause_counter: usize,
    watchdog_counter: u8,
    bit: usize,
    pause: Pause,
    tdo_byte: u8,
    stage: ScanStage,
    polling: bool,
    sampling: bool,
    aborted: bool,
}

/// Counting one further.
proof fn lemma_count_on(n: int, every: int)
    requires
        n >= 0,
        every > 0,
    ensures
        0 <= n % every < every,
        n % every == every - 1 ==> (n + 1) % every == 0 && (n + 1) / every == n / every + 1,
        n % every != every - 1 ==> (n + 1) % every == n % every + 1 && (n + 1) / every == n / every,
{
    let q = n / every;
    let r = n % every;
    assert(n == q * every + r && 0 <= r < every) by (nonlinear_arith)
        requires
            every > 0,
            q == n / every,
            r == n % every,
    ;
    if r == every - 1 {
        assert(n + 1 == (q + 1) * every + 0) by (nonlinear_arith)
            requires
                n == q * every + r,
                r == every - 1,
        ;
        lemma_fundamental_div_mod_converse(n + 1, every, q + 1, 0);
    } else {
        lemma_fundamental_div_mod_converse(n + 1, every, q, r + 1);
    }
}

impl<'a> ShiftBits<'a> {
    /// What the shift drives.
    pub closed spec fn plan(&self) -> ScanPlan {
        ScanPlan {
            tck_period_us: self.tck_period_us,
            bits: self.bit_count as nat,
            tms: self.tms@,
            tdi: self.tdi@,
        }
    }

    /// The operations that are still to be done.
    pub closed spec fn remaining(&self) -> Seq<PinOp> {
        let plan = self.plan();
        let k = self.bit as int;
        match self.stage {
            ScanStage::Poll => poll_part(self.tck_period_us, k) + (pause_part(
                self.tck_period_us,
                k,
            ) + (drive_part(plan, k) + ops_from(plan, k + 1))),
            ScanStage::Pause => pause_part(self.tck_period_us, k) + (drive_part(plan, k)
                + ops_from(plan, k + 1)),
            ScanStage::Drive { index } => drive_part(plan, k).skip(index as int) + ops_from(
                plan,
                k + 1,
            ),
            ScanStage::Over => Seq::empty(),
        }
    }

    /// Whether the next step is told if an abort is requested.
    pub closed spec fn polls(&self) -> bool {
        self.polling
    }

    /// Whether the next step is told the level of TDO.
    pub closed spec fn samples(&self) -> bool {
        self.sampling
    }

    /// Whether the shift was aborted.
    pub closed spec fn is_aborted(&self) -> bool {
        self.aborted
    }

    /// Number of TDO bits taken in.
    pub closed spec fn taken(&self) -> nat {
        match self.stage {
            ScanStage::Drive { index } => if index > 3 && !self.sampling {
                (self.bit + 1) as nat
            } else {
                self.bit as nat
            },
            _ => self.bit as nat,
        }
    }

    /// Number of TDO bytes written to their buffer.
    pub closed spec fn written(&self) -> nat {
        if self.stage is Over {
            byte_len(self.bit_count as nat)
        } else {
            self.bit as nat / 8
        }
    }

    /// The TDO bits taken in, given the contents of their buffer.
    pub open spec fn levels(&self, tdo: Seq<u8>) -> Seq<bool> {
        Seq::new(self.taken(), |i: int| self.level(tdo, i))
    }

    /// TDO bit `i`, given the contents of the buffer.
    pub closed spec fn level(&self, tdo: Seq<u8>, i: int) -> bool {
        if i / 8 < self.written() {
            bit_at(tdo, i)
        } else {
            bit_of(self.tdo_byte, i % 8)
        }
    }

    /// The counters agree with the number of bits that were started.
    spec fn counters_ok(&self, started: int) -> bool {
        counters_agree(
            self.tck_period_us,
            self.abort_bits,
            self.pause_bits,
            self.abort_counter,
            self.pause_counter,
            self.watchdog_counter,
            started,
        )
    }

    /// The place in the waveform, the counters and the TDO bits agree.
    pub closed spec fn wf(&self, tdo: Seq<u8>) -> bool {
        let bytes = byte_len(self.bit_count as nat);
        &&& self.tck_period_us <= u32::MAX - 4
        &&& self.tms@.len() >= bytes
        &&& self.tdi@.len() >= bytes
        &&& tdo.len() >= bytes
        &&& self.sampling ==> self.stage == (ScanStage::Drive { index: 4 })
        &&& match self.stage {
            ScanStage::Over => {
                &&& self.bit == self.bit_count
                &&& forall|i: int|
                    self.bit_count <= i < 8 * bytes ==> !#[trigger] bit_at(tdo, i)
            },
            _ => {
                &&& self.bit < self.bit_count
                &&& self.counters_ok(self.bit + 1)
                &&& self.pause == pause_before(self.tck_period_us, self.bit as int)
                &&& forall|j: int|
                    self.taken() - 8 * (self.bit as int / 8) <= j < 8 ==> !#[trigger] bit_of(
                        self.tdo_byte,
                        j,
                    )
                &&& self.stage is Poll ==> poll_part(self.tck_period_us, self.bit as int).len() > 0
                &&& self.stage is Pause ==> !(self.pause is Skip)
                &&& self.stage matches ScanStage::Drive { index } ==> index < 7
            },
        }
    }

    /// While a shift goes on, only bytes whose bits are all taken in are written,
    /// so an abort leaves the byte that it breaks off, and those after it, as
    /// they were. When a shift is through, all its bytes are written.
    pub proof fn law_whole_bytes_are_written(&self, tdo: Seq<u8>)
        requires
            self.wf(tdo),
        ensures
            self.remaining().len() > 0 ==> 8 * self.written() <= self.taken()
                && self.taken() <= 8 * self.written() + 8,
            self.remaining().len() == 0 ==> self.written() == byte_len(self.plan().bits),
            self.taken() <= self.plan().bits,
    {
    }

    /// Whether the shift was aborted.
    pub fn aborted(&self) -> (aborted: bool)
        ensures
            aborted == self.is_aborted(),
    {
        self.aborted
    }

    /// Counts a bit that is started: whether an abort is polled for before it.
    fn count_bit(&mut self) -> (poll: bool)
        requires
            old(self).bit < old(self).bit_count,
            old(self).counters_ok(old(self).bit as int),
        ensures
            final(self).counters_ok(old(self).bit + 1),
            final(self).same_but_counters(old(self)),
            final(self).stage == old(self).stage,
            poll == ((old(self).bit + 1) % abort_every(old(self).tck_period_us) == 0),
            final(self).pause == pause_before(old(self).tck_period_us, old(self).bit as int),
    {
        let ghost started = self.bit as int;
        proof {
            reveal(counters_agree);
            lemma_count_on(started, self.abort_bits as int);
            lemma_count_on(started, self.pause_bits as int);
        }
        self.abort_counter = self.abort_counter - 1;
        let poll: bool = self.abort_counter == 0;
        if poll {
            self.abort_counter = self.abort_bits;
        }
        self.pause_counter = self.pause_counter - 1;
        self.pause = if self.pause_counter == 0 {
            self.pause_counter = self.pause_bits;
            self.watchdog_counter = self.watchdog_counter.wrapping_add(1);
            let count: u8 = self.watchdog_counter;
            assert(count & 7u8 == count % 8) by (bit_vector);
            if count & 7 == 0 {
                Pause::Sleep
            } else {
                Pause::Yield
            }
        } else {
            Pause::Skip
        };
        poll
    }

    /// Everything but counters, pause and stage is as in `before`.
    spec fn same_but_counters(&self, before: &Self) -> bool {
        &&& self.tck_period_us == before.tck_period_us
        &&& self.tms == before.tms
        &&& self.tdi == before.tdi
        &&& self.bit_count == before.bit_count
        &&& self.bit == before.bit
        &&& self.tdo_byte == before.tdo_byte
        &&& self.polling == before.polling
        &&& self.sampling == before.sampling
        &&& self.aborted == before.aborted
    }

    /// Goes to the first operation of a bit.
    fn enter_bit(&mut self)
        requires
            old(self).bit < old(self).bit_count,
            old(self).counters_ok(old(self).bit as int),
        ensures
            final(self).counters_ok(old(self).bit + 1),
            final(self).same_but_counters(old(self)),
            final(self).remaining() == ops_from(final(self).plan(), final(self).bit as int),
            final(self).pause == pause_before(final(self).tck_period_us, final(self).bit as int),
            !(final(self).stage is Over),
            final(self).stage is Poll ==> poll_part(
                final(self).tck_period_us,
                final(self).bit as int,
            ).len() > 0,
            final(self).stage is Pause ==> !(final(self).pause is Skip),
            final(self).stage matches ScanStage::Drive { index } ==> index == 0,
    {
        let poll: bool = self.count_bit();
        let paused: bool = match self.pause {
            Pause::Skip => false,
            _ => true,
        };
        self.stage = if poll {
            ScanStage::Poll
        } else if paused {
            ScanStage::Pause
        } else {
            ScanStage::Drive { index: 0 }
        };
        proof {
            let started = self.bit as int;
            let plan = self.plan();
            let polls = poll_part(plan.tck_period_us, started);
            let pauses = pause_part(plan.tck_period_us, started);
            let drive = drive_part(plan, started);
            let rest = ops_from(plan, started + 1);
            assert(drive.skip(0) =~= drive);
            assert(ops_from(plan, started) =~= polls + (pauses + (drive + rest)));
            if !poll {
                assert(polls + (pauses + (drive + rest)) =~= pauses + (drive + rest));
                if !paused {
                    assert(pauses + (drive + rest) =~= drive + rest);
                }
            }
        }
    }

    /// Starts a shift of `bit_count` bits.
    pub fn new(
        tck_period_us: u32,
        tms: &'a [u8],
        tdi: &'a [u8],
        bit_count: usize,
    ) -> (shift: Self)
        requires
            tck_period_us <= u32::MAX - 4,
            tms@.len() >= byte_len(bit_count as nat),
            tdi@.len() >= byte_len(bit_count as nat),
        ensures
            forall|tdo: Seq<u8>|
                tdo.len() >= byte_len(bit_count as nat) ==> #[trigger] shift.wf(tdo),
            forall|tdo: Seq<u8>| #[trigger] shift.levels(tdo) == Seq::<bool>::empty(),
            shift.plan() == (ScanPlan {
                tck_period_us,
                bits: bit_count as nat,
                tms: tms@,
                tdi: tdi@,
            }),
            shift.remaining() == scan_waveform(shift.plan()),
            !shift.polls(),
            !shift.samples(),
            !shift.is_aborted(),
            shift.taken() == 0,
            shift.written() == 0,
    {
        let bit_duration: u32 = tck_high_us(tck_period_us) + tck_low_us(tck_period_us) + 4;
        let abort_bits: usize = bounded(1_000 / bit_duration, 4_096) as usize;
        let pause_bits: usize = bounded(50_000 / bit_duration, 32_768) as usize;
        proof {
            reveal(abort_every);
            reveal(pause_every);
            reveal(counters_agree);
        }
        let mut shift = ShiftBits {
            tck_period_us,
            tms,
            tdi,
            bit_count,
            abort_bits,
            pause_bits,
            abort_counter: abort_bits,
            pause_counter: pause_bits,
            watchdog_counter: 0,
            bit: 0,
            pause: Pause::Skip,
            tdo_byte: 0,
            stage: ScanStage::Over,
            polling: false,
            sampling: false,
            aborted: false,
        };
        proof {
            assert forall|j: int| 0 <= j < 8 implies !#[trigger] bit_of(0u8, j) by {
                lemma_zero_bit(j as u8);
            }
        }
        if bit_count > 0 {
            shift.enter_bit();
        }
        assert forall|tdo: Seq<u8>| #[trigger] shift.levels(tdo) == Seq::<bool>::empty() by {
            assert(shift.levels(tdo) =~= Seq::<bool>::empty());
        }
        shift
    }

    /// Ends a bit: a byte of TDO that is complete goes to its buffer, and the
    /// next bit is entered if there is one.
    fn finish_bit(&mut self, tdo: &mut [u8])
        requires
            old(self).wf(old(tdo)@),
            old(self).stage == (ScanStage::Drive { index: 6 }),
        ensures
            final(self).wf(final(tdo)@),
            final(self).plan() == old(self).plan(),
            final(self).polling == old(self).polling,
            final(self).sampling == old(self).sampling,
            final(self).aborted == old(self).aborted,
            final(self).levels(final(tdo)@) == old(self).levels(old(tdo)@),
            final(self).remaining() == ops_from(old(self).plan(), old(self).bit + 1),
            final(tdo)@.len() == old(tdo)@.len(),
            forall|i: int|
                0 <= i < old(tdo)@.len() && (i < old(self).written() || i >= final(self).written())
                    ==> final(tdo)@[i] == old(tdo)@[i],
    {
        let ghost before = tdo@;
        let ghost byte = self.tdo_byte;
        let next: usize = self.bit + 1;
        let index: usize = self.bit / 8;
        if next % 8 == 0 || next == self.bit_count {
            tdo[index] = self.tdo_byte;
        }
        if next % 8 == 0 {
            self.tdo_byte = 0;
        }
        self.bit = next;
        proof {
            assert forall|j: int| 0 <= j < 8 implies !#[trigger] bit_of(0u8, j) by {
                lemma_zero_bit(j as u8);
            }
        }
        if next == self.bit_count {
            self.stage = ScanStage::Over;
            let ghost end = 8 * byte_len(self.bit_count as nat);
            assert forall|i: int| self.bit_count <= i < end implies !#[trigger] bit_at(tdo@, i) by {
                assert(i / 8 == index);
                assert(!bit_of(byte, i % 8));
            }
        } else {
            self.enter_bit();
        }
        assert(self.levels(tdo@) =~= old(self).levels(before)) by {
            assert forall|i: int| 0 <= i < next implies self.level(tdo@, i) == old(self).level(
                before,
                i,
            ) by {
                if i / 8 < index {
                    assert(bit_at(tdo@, i) == bit_at(before, i));
                }
            }
        }
    }

    /// Takes a TDO bit in.
    fn take_sample(&mut self, tdo: Ghost<Seq<u8>>, high: bool)
        requires
            old(self).wf(tdo@),
            old(self).sampling,
        ensures
            final(self).wf(tdo@),
            final(self).plan() == old(self).plan(),
            final(self).remaining() == old(self).remaining(),
            final(self).written() == old(self).written(),
            final(self).polling == old(self).polling,
            final(self).aborted == old(self).aborted,
            !final(self).sampling,
            final(self).levels(tdo@) == old(self).levels(tdo@).push(high),
    {
        let index: u8 = (self.bit % 8) as u8;
        let ghost byte = self.tdo_byte;
        if high {
            self.tdo_byte = self.tdo_byte | (1u8 << index);
        }
        self.sampling = false;
        proof {
            assert forall|j: int| 0 <= j < 8 implies #[trigger] bit_of(self.tdo_byte, j) == (bit_of(
                byte,
                j,
            ) || (high && j == index)) by {
                lemma_set_bit(byte, index, j as u8);
            }
            assert(self.levels(tdo@) =~= old(self).levels(tdo@).push(high)) by {
                assert forall|i: int| 0 <= i < self.bit implies self.level(tdo@, i) == old(
                    self,
                ).level(tdo@, i) by {}
            }
        }
    }

    /// The operation of the current bit at `index`.
    fn drive_op(&self, index: u8) -> (op: PinOp)
        requires
            self.tms@.len() >= byte_len(self.bit_count as nat),
            self.tdi@.len() >= byte_len(self.bit_count as nat),
            self.bit < self.bit_count,
            index < 7,
        ensures
            op == drive_part(self.plan(), self.bit as int)[index as int],
    {
        if index == 0 {
            let byte: usize = self.bit / 8;
            let place: u8 = (self.bit % 8) as u8;
            let tms: bool = test_bit(self.tms[byte], place);
            let tdi: bool = test_bit(self.tdi[byte], place);
            PinOp::SetPins {
                set_mask: raised_mask(tms, tdi),
                clear_mask: raised_mask(!tms, !tdi),
            }
        } else if index == 1 {
            PinOp::SetHigh { mask: TCK_MASK }
        } else if index == 2 {
            PinOp::Delay { us: tdo_sample_us(self.tck_period_us) }
        } else if index == 3 {
            PinOp::SampleTdo
        } else if index == 4 {
            PinOp::Delay {
                us: tck_high_us(self.tck_period_us) - tdo_sample_us(self.tck_period_us),
            }
        } else if index == 5 {
            PinOp::SetLow { mask: TCK_MASK }
        } else {
            PinOp::Delay { us: tck_low_us(self.tck_period_us) }
        }
    }

    /// The next operation of a shift that is not over.
    fn next_op(&mut self, tdo: &mut [u8]) -> (op: PinOp)
        requires
            old(self).wf(old(tdo)@),
            !old(self).sampling,
            !(old(self).stage is Over),
        ensures
            final(self).wf(final(tdo)@),
            final(self).plan() == old(self).plan(),
            final(self).aborted == old(self).aborted,
            final(tdo)@.len() == old(tdo)@.len(),
            forall|i: int|
                0 <= i < old(tdo)@.len() && (i < old(self).written() || i >= final(self).written())
                    ==> final(tdo)@[i] == old(tdo)@[i],
            final(self).levels(final(tdo)@) == old(self).levels(old(tdo)@),
            old(self).remaining().len() > 0,
            op == old(self).remaining()[0],
            final(self).remaining() == old(self).remaining().drop_first(),
            final(self).polling == (op is PollAbort),
            final(self).sampling == (op is SampleTdo),
    {
        let ghost levels = self.levels(tdo@);
        let ghost plan = self.plan();
        let ghost k = self.bit as int;
        let ghost rest = ops_from(plan, k + 1);
        let ghost todo = self.remaining();
        self.polling = false;
        match self.stage {
            ScanStage::Poll => {
                self.polling = true;
                let paused: bool = match self.pause {
                    Pause::Skip => false,
                    _ => true,
                };
                self.stage = if paused {
                    ScanStage::Pause
                } else {
                    ScanStage::Drive { index: 0 }
                };
                proof {
                    let pauses = pause_part(plan.tck_period_us, k);
                    assert(drive_part(plan, k).skip(0) =~= drive_part(plan, k));
                    assert(todo.drop_first() =~= pauses + (drive_part(plan, k) + rest));
                    if !paused {
                        assert(pauses + (drive_part(plan, k) + rest) =~= drive_part(plan, k)
                            + rest);
                    }
                }
                PinOp::PollAbort
            },
            ScanStage::Pause => {
                self.stage = ScanStage::Drive { index: 0 };
                assert(drive_part(plan, k).skip(0) =~= drive_part(plan, k));
                assert(todo.drop_first() =~= drive_part(plan, k) + rest);
                match self.pause {
                    Pause::Sleep => PinOp::Sleep { ms: 1 },
                    _ => PinOp::Yield,
                }
            },
            ScanStage::Drive { index } => {
                let ghost drive = drive_part(plan, k);
                assert(todo[0] == drive[index as int]);
                assert(todo.drop_first() =~= drive.skip(index + 1) + rest);
                let op = self.drive_op(index);
                if index < 6 {
                    self.stage = ScanStage::Drive { index: index + 1 };
                    self.sampling = index == 3;
                    assert(self.levels(tdo@) =~= levels);
                } else {
                    assert(drive.skip(7) + rest =~= rest);
                    self.finish_bit(tdo);
                }
                op
            },
            ScanStage::Over => PinOp::Yield,
        }
    }

    /// The next operation, in order. `reply` answers the operation before it:
    /// whether an abort is requested, which ends the shift, or the level of
    /// TDO, which is taken in.
    pub fn step(&mut self, tdo: &mut [u8], reply: bool) -> (step: PinStep)
        requires
            old(self).wf(old(tdo)@),
        ensures
            final(self).wf(final(tdo)@),
            final(self).plan() == old(self).plan(),
            final(self).is_aborted() == (old(self).is_aborted() || (old(self).polls() && reply)),
            final(tdo)@.len() == old(tdo)@.len(),
            final(self).written() <= byte_len(final(self).plan().bits),
            forall|i: int|
                0 <= i < old(tdo)@.len() && (i < old(self).written() || i >= final(self).written())
                    ==> final(tdo)@[i] == old(tdo)@[i],
            if final(self).is_aborted() {
                &&& step == (PinStep::Done { succeeded: false })
                &&& final(tdo)@ == old(tdo)@
            } else {
                &&& final(self).levels(final(tdo)@) == (if old(self).samples() {
                    old(self).levels(old(tdo)@).push(reply)
                } else {
                    old(self).levels(old(tdo)@)
                })
                &&& if old(self).remaining().len() == 0 {
                    &&& step == (PinStep::Done { succeeded: true })
                    &&& final(self).remaining() == old(self).remaining()
                    &&& final(self).taken() == old(self).plan().bits
                    &&& forall|i: int|
                        0 <= i < 8 * byte_len(old(self).plan().bits) ==> #[trigger] bit_at(
                            final(tdo)@,
                            i,
                        ) == (i < old(self).plan().bits && final(self).levels(final(tdo)@)[i])
                } else {
                    &&& step == PinStep::Do(old(self).remaining()[0])
                    &&& final(self).remaining() == old(self).remaining().drop_first()
                    &&& final(self).polls() == (old(self).remaining()[0] is PollAbort)
                    &&& final(self).samples() == (old(self).remaining()[0] is SampleTdo)
                }
            },
    {
        if self.aborted || (self.polling && reply) {
            self.aborted = true;
            return PinStep::Done { succeeded: false };
        }
        if self.sampling {
            self.take_sample(Ghost(tdo@), reply);
        }
        match self.stage {
            ScanStage::Over => {
                self.polling = false;
                PinStep::Done { succeeded: true }
            },
            _ => PinStep::Do(self.next_op(tdo)),
        }
    }
}

/// The lines that are raised for a bit.
fn raised_mask(tms: bool, tdi: bool) -> (mask: u32)
    ensures
        mask == raised(tms, tdi),
{
    (if tms {
        TMS_MASK
    } else {
        0
    }) | (if tdi {
        TDI_MASK
    } else {
        0
    })
}

/// `value`, but at least one and at most `most`.
fn bounded(value: u32, most: u32) -> (result: u32)
    requires
        most >= 1,
    ensures
        result == between(1, value as int, most as int),
{
    if value < 1 {
        1
    } else if value > most {
        most
    } else {
        value
    }
}

/// What a target sees of a shift: for every bit, in order, a rising edge of TCK
/// with that bit of TMS and TDI, and then a sample of TDO while TCK is high.
pub open spec fn scan_seen(plan: ScanPlan, from: int) -> Seq<TargetEvent> {
    Seq::new(
        2 * (plan.bits - from) as nat,
        |i: int|
            if i % 2 == 0 {
                TargetEvent::Clock {
                    tms: bit_at(plan.tms, from + i / 2),
                    tdi: bit_at(plan.tdi, from + i / 2),
                }
            } else {
                TargetEvent::Sample { tck: true }
            },
    )
}

/// The masks of a bit raise and lower the data lines only.
proof fn lemma_raised(tms: bool, tdi: bool)
    ensures
        (raised(tms, tdi) & TMS_MASK != 0) == tms,
        (raised(tms, tdi) & TDI_MASK != 0) == tdi,
        raised(tms, tdi) & TCK_MASK == 0,
{
    assert((0x0080_0000u32 | 0x0008_0000u32) & 0x0080_0000 != 0 && (0x0080_0000u32
        | 0x0008_0000u32) & 0x0008_0000 != 0 && (0x0080_0000u32 | 0x0008_0000u32) & 0x0004_0000
        == 0) by (bit_vector);
    assert((0x0080_0000u32 | 0u32) & 0x0080_0000 != 0 && (0x0080_0000u32 | 0u32) & 0x0008_0000 == 0
        && (0x0080_0000u32 | 0u32) & 0x0004_0000 == 0) by (bit_vector);
    assert((0u32 | 0x0008_0000u32) & 0x0080_0000 == 0 && (0u32 | 0x0008_0000u32) & 0x0008_0000 != 0
        && (0u32 | 0x0008_0000u32) & 0x0004_0000 == 0) by (bit_vector);
    assert((0u32 | 0u32) & 0x0080_0000 == 0 && (0u32 | 0u32) & 0x0008_0000 == 0 && (0u32 | 0u32)
        & 0x0004_0000 == 0) by (bit_vector);
}

/// Operations that touch no line.
spec fn is_quiet(ops: Seq<PinOp>) -> bool {
    ops.len() == 0 || (ops.len() == 1 && (ops[0] is PollAbort || ops[0] is Yield
        || ops[0] is Sleep))
}

/// A target sees nothing of them.
proof fn lemma_quiet(lines: Lines, ops: Seq<PinOp>)
    requires
        is_quiet(ops),
    ensures
        events(lines, ops) == Seq::<TargetEvent>::empty(),
        lines_after_all(lines, ops) == lines,
{
    lemma_masks();
    if ops.len() == 1 {
        let none = Seq::<PinOp>::empty();
        lemma_events_push(lines, none, ops[0]);
        assert(ops =~= none.push(ops[0]));
        assert(events(lines, ops) =~= Seq::<TargetEvent>::empty());
    }
}

/// What a target sees of the driving of one bit.
proof fn lemma_drive(lines: Lines, plan: ScanPlan, k: int)
    requires
        !lines.tck,
    ensures
        events(lines, drive_part(plan, k)) == seq![
            TargetEvent::Clock { tms: bit_at(plan.tms, k), tdi: bit_at(plan.tdi, k) },
            TargetEvent::Sample { tck: true },
        ],
        lines_after_all(lines, drive_part(plan, k)) == (Lines {
            tck: false,
            tms: bit_at(plan.tms, k),
            tdi: bit_at(plan.tdi, k),
        }),
{
    let ops = drive_part(plan, k);
    let tms = bit_at(plan.tms, k);
    let tdi = bit_at(plan.tdi, k);
    lemma_masks();
    lemma_raised(tms, tdi);
    lemma_raised(!tms, !tdi);
    let p0 = Seq::<PinOp>::empty();
    let p1 = p0.push(ops[0]);
    let p2 = p1.push(ops[1]);
    let p3 = p2.push(ops[2]);
    let p4 = p3.push(ops[3]);
    let p5 = p4.push(ops[4]);
    let p6 = p5.push(ops[5]);
    lemma_events_push(lines, p0, ops[0]);
    lemma_events_push(lines, p1, ops[1]);
    lemma_events_push(lines, p2, ops[2]);
    lemma_events_push(lines, p3, ops[3]);
    lemma_events_push(lines, p4, ops[4]);
    lemma_events_push(lines, p5, ops[5]);
    lemma_events_push(lines, p6, ops[6]);
    assert(ops =~= p6.push(ops[6]));
    let low = Lines { tck: false, tms, tdi };
    let high = Lines { tck: true, tms, tdi };
    assert(lines_after_all(lines, p0) == lines);
    assert(lines_after_all(lines, p1) == low);
    assert(lines_after_all(lines, p2) == high);
    assert(lines_after_all(lines, p3) == high);
    assert(lines_after_all(lines, p4) == high);
    assert(lines_after_all(lines, p5) == high);
    assert(lines_after_all(lines, p6) == low);
    assert(events(lines, ops) =~= seq![
        TargetEvent::Clock { tms, tdi },
        TargetEvent::Sample { tck: true },
    ]);
}

/// What a target sees of the bits from `k` on.
proof fn lemma_ops_from(lines: Lines, plan: ScanPlan, k: int)
    requires
        !lines.tck,
        0 <= k <= plan.bits,
    ensures
        events(lines, ops_from(plan, k)) == scan_seen(plan, k),
        !lines_after_all(lines, ops_from(plan, k)).tck,
    decreases plan.bits - k,
{
    if k == plan.bits {
        assert(scan_seen(plan, k) =~= Seq::<TargetEvent>::empty());
    } else {
        let poll = poll_part(plan.tck_period_us, k);
        let pause = pause_part(plan.tck_period_us, k);
        let drive = drive_part(plan, k);
        let rest = ops_from(plan, k + 1);
        lemma_quiet(lines, poll);
        lemma_quiet(lines, pause);
        lemma_drive(lines, plan, k);
        lemma_events_append(lines, pause, drive);
        lemma_events_append(lines, poll, pause + drive);
        lemma_events_append(lines, bit_ops(plan, k), rest);
        let after = lines_after_all(lines, bit_ops(plan, k));
        lemma_ops_from(after, plan, k + 1);
        assert(events(lines, ops_from(plan, k)) =~= scan_seen(plan, k));
    }
}

/// A target sees every bit of a shift exactly once and in order: its TMS and
/// TDI levels at a rising edge of TCK, and its TDO is sampled while TCK is
/// still high. TCK is low after the shift.
pub proof fn law_shift_clocks_the_target(lines: Lines, plan: ScanPlan)
    requires
        !lines.tck,
    ensures
        events(lines, scan_waveform(plan)) == scan_seen(plan, 0),
        !lines_after_all(lines, scan_waveform(plan)).tck,
{
    lemma_ops_from(lines, plan, 0);
}

/// Polls for an abort are at most a millisecond of bits apart, and pauses at
/// most fifty, unless a single bit takes longer.
pub proof fn law_shift_stays_responsive(tck_period_us: u32)
    ensures
        abort_every(tck_period_us) >= 1,
        pause_every(tck_period_us) >= 1,
        abort_every(tck_period_us) == 1 || abort_every(tck_period_us) * bit_us(tck_period_us)
            <= 1_000,
        pause_every(tck_period_us) == 1 || pause_every(tck_period_us) * bit_us(tck_period_us)
            <= 50_000,
{
    reveal(abort_every);
    reveal(pause_every);
    let us = bit_us(tck_period_us);
    assert(us > 0);
    let polls = abort_every(tck_period_us);
    let pauses = pause_every(tck_period_us);
    if polls != 1 {
        assert(polls * us <= 1_000) by (nonlinear_arith)
            requires
                0 < polls <= 1_000int / us,
                us > 0,
        ;
    }
    if pauses != 1 {
        assert(pauses * us <= 50_000) by (nonlinear_arith)
            requires
                0 < pauses <= 50_000int / us,
                us > 0,
        ;
    }
}

/// The edges and the sample of bit `k`, which is driven from `start_us` on.
spec fn bit_timing(start_us: int, plan: ScanPlan, k: int) -> Seq<(int, ClockEvent)> {
    let rise = ClockEvent::Rise { tms: bit_at(plan.tms, k), tdi: bit_at(plan.tdi, k) };
    seq![
        (start_us, rise),
        (start_us + sample_us(plan.tck_period_us), ClockEvent::Sample),
        (start_us + high_us(plan.tck_period_us), ClockEvent::Fall),
    ]
}

/// The edges and the samples of the bits from `k` on.
spec fn scan_timing(start_us: int, plan: ScanPlan, k: int) -> Seq<(int, ClockEvent)>
    decreases plan.bits - k,
{
    if k >= plan.bits {
        Seq::empty()
    } else {
        bit_timing(start_us, plan, k) + scan_timing(
            start_us + high_us(plan.tck_period_us) + low_us(plan.tck_period_us),
            plan,
            k + 1,
        )
    }
}

/// Operations that touch no line take no time of the clock.
proof fn lemma_quiet_timing(start_us: int, lines: Lines, ops: Seq<PinOp>)
    requires
        is_quiet(ops),
    ensures
        timeline(start_us, lines, ops) == Seq::<(int, ClockEvent)>::empty(),
        time_of_all(ops) == 0,
        lines_after_all(lines, ops) == lines,
{
    lemma_masks();
    if ops.len() == 1 {
        let none = Seq::<PinOp>::empty();
        lemma_timeline_push(start_us, lines, none, ops[0]);
        assert(ops =~= none.push(ops[0]));
        assert(time_of_all(none) == 0);
        assert(timeline(start_us, lines, ops) =~= Seq::<(int, ClockEvent)>::empty());
    }
}

/// When the edges and the sample of one bit come.
proof fn lemma_drive_timing(start_us: int, lines: Lines, plan: ScanPlan, k: int)
    requires
        !lines.tck,
    ensures
        timeline(start_us, lines, drive_part(plan, k)) == bit_timing(start_us, plan, k),
        time_of_all(drive_part(plan, k)) == high_us(plan.tck_period_us) + low_us(
            plan.tck_period_us,
        ),
        !lines_after_all(lines, drive_part(plan, k)).tck,
{
    let ops = drive_part(plan, k);
    let tms = bit_at(plan.tms, k);
    let tdi = bit_at(plan.tdi, k);
    lemma_masks();
    lemma_raised(tms, tdi);
    lemma_raised(!tms, !tdi);
    let p0 = Seq::<PinOp>::empty();
    let p1 = p0.push(ops[0]);
    let p2 = p1.push(ops[1]);
    let p3 = p2.push(ops[2]);
    let p4 = p3.push(ops[3]);
    let p5 = p4.push(ops[4]);
    let p6 = p5.push(ops[5]);
    lemma_timeline_push(start_us, lines, p0, ops[0]);
    lemma_timeline_push(start_us, lines, p1, ops[1]);
    lemma_timeline_push(start_us, lines, p2, ops[2]);
    lemma_timeline_push(start_us, lines, p3, ops[3]);
    lemma_timeline_push(start_us, lines, p4, ops[4]);
    lemma_timeline_push(start_us, lines, p5, ops[5]);
    lemma_timeline_push(start_us, lines, p6, ops[6]);
    assert(ops =~= p6.push(ops[6]));
    let low = Lines { tck: false, tms, tdi };
    let high = Lines { tck: true, tms, tdi };
    assert(time_of_all(p0) == 0);
    assert(lines_after_all(lines, p0) == lines);
    assert(lines_after_all(lines, p1) == low);
    assert(lines_after_all(lines, p2) == high);
    assert(lines_after_all(lines, p3) == high);
    assert(lines_after_all(lines, p4) == high);
    assert(lines_after_all(lines, p5) == high);
    assert(lines_after_all(lines, p6) == low);
    assert(timeline(start_us, lines, ops) =~= bit_timing(start_us, plan, k));
}

/// When the edges and the samples of the bits from `k` on come.
proof fn lemma_ops_timing(start_us: int, lines: Lines, plan: ScanPlan, k: int)
    requires
        !lines.tck,
        0 <= k <= plan.bits,
    ensures
        timeline(start_us, lines, ops_from(plan, k)) == scan_timing(start_us, plan, k),
        time_of_all(ops_from(plan, k)) == (plan.bits - k) * (high_us(plan.tck_period_us) + low_us(
            plan.tck_period_us,
        )),
    decreases plan.bits - k,
{
    let period = high_us(plan.tck_period_us) + low_us(plan.tck_period_us);
    if k < plan.bits {
        let poll = poll_part(plan.tck_period_us, k);
        let pause = pause_part(plan.tck_period_us, k);
        let drive = drive_part(plan, k);
        let rest = ops_from(plan, k + 1);
        lemma_quiet_timing(start_us, lines, poll);
        lemma_quiet_timing(start_us, lines, pause);
        lemma_drive_timing(start_us, lines, plan, k);
        lemma_timeline_append(start_us, lines, pause, drive);
        lemma_timeline_append(start_us, lines, poll, pause + drive);
        lemma_timeline_append(start_us, lines, bit_ops(plan, k), rest);
        let after = lines_after_all(lines, bit_ops(plan, k));
        lemma_ops_timing(start_us + period, after, plan, k + 1);
        assert(timeline(start_us, lines, ops_from(plan, k)) =~= scan_timing(start_us, plan, k));
        assert((plan.bits - k) * period == (plan.bits - (k + 1)) * period + period)
            by (nonlinear_arith);
    } else {
        assert((plan.bits - k) * period == 0) by (nonlinear_arith)
            requires
                plan.bits == k,
        ;
    }
}

/// The timing of bit `k` among that of the bits from `from` on.
proof fn lemma_timing_of_bit(start_us: int, plan: ScanPlan, from: int, k: int)
    requires
        0 <= from <= k < plan.bits,
    ensures
        ({
            let period = high_us(plan.tck_period_us) + low_us(plan.tck_period_us);
            let timing = scan_timing(start_us, plan, from);
            let own = bit_timing(start_us + (k - from) * period, plan, k);
            &&& timing.len() == 3 * (plan.bits - from)
            &&& timing[3 * (k - from)] == own[0]
            &&& timing[3 * (k - from) + 1] == own[1]
            &&& timing[3 * (k - from) + 2] == own[2]
        }),
    decreases plan.bits - from,
{
    let period = high_us(plan.tck_period_us) + low_us(plan.tck_period_us);
    let rest = scan_timing(start_us + period, plan, from + 1);
    if from + 1 < plan.bits {
        if from < k {
            lemma_timing_of_bit(start_us + period, plan, from + 1, k);
            assert(start_us + period + (k - (from + 1)) * period == start_us + (k - from) * period)
                by (nonlinear_arith);
        } else {
            lemma_timing_of_bit(start_us + period, plan, from + 1, from + 1);
        }
    }
    if from == k {
        assert((k - from) * period == 0) by (nonlinear_arith)
            requires
                from == k,
        ;
    }
}

/// A shift keeps the time of its clock. TCK rises once in every period, with the
/// TMS and TDI levels of the bit whose turn it is; TDO is sampled once while TCK
/// is high, halfway through; TCK falls after the first half of the period, which
/// gets the odd microsecond; and the second half passes before it rises again.
/// The whole shift takes one period for every bit.
pub proof fn law_shift_keeps_time(lines: Lines, plan: ScanPlan, k: int)
    requires
        !lines.tck,
        0 <= k < plan.bits,
    ensures
        ({
            let seen = timeline(0, lines, scan_waveform(plan));
            let period = if plan.tck_period_us == 0 {
                1
            } else {
                plan.tck_period_us as int
            };
            let high = (period + 1) / 2;
            let sample = if high < 2 {
                1
            } else {
                high / 2
            };
            &&& seen.len() == 3 * plan.bits
            &&& seen[3 * k] == (
                k * period,
                ClockEvent::Rise { tms: bit_at(plan.tms, k), tdi: bit_at(plan.tdi, k) },
            )
            &&& seen[3 * k + 1] == (k * period + sample, ClockEvent::Sample)
            &&& seen[3 * k + 2] == (k * period + high, ClockEvent::Fall)
            &&& time_of_all(scan_waveform(plan)) == plan.bits * period
        }),
{
    lemma_ops_timing(0, lines, plan, 0);
    lemma_timing_of_bit(0, plan, 0, k);
}

/// A shift with one bit more.
proof fn lemma_one_bit_more(plan: ScanPlan, longer: ScanPlan, k: int)
    requires
        longer == (ScanPlan { bits: plan.bits + 1, ..plan }),
        0 <= k <= plan.bits,
    ensures
        ops_from(longer, k) == ops_from(plan, k) + bit_ops(longer, plan.bits as int),
    decreases plan.bits - k,
{
    let last = bit_ops(longer, plan.bits as int);
    if k == plan.bits {
        assert(ops_from(longer, k + 1) =~= Seq::<PinOp>::empty());
        assert(ops_from(longer, k) =~= ops_from(plan, k) + last);
    } else {
        lemma_one_bit_more(plan, longer, k + 1);
        assert(bit_ops(longer, k) == bit_ops(plan, k));
        assert(ops_from(longer, k) =~= ops_from(plan, k) + last);
    }
}

/// How many bits lie between two polls or pauses, told from the time they take.
proof fn lemma_bits_within(every: int, us: int, limit: int, most: int)
    requires
        us >= 5,
        0 <= limit <= 5 * most,
        1 <= every,
        every == 1 || every * us <= limit,
        (every + 1) * us > limit,
    ensures
        every == between(1, limit / us, most),
{
    assert((every + 1) * us == every * us + us) by (nonlinear_arith);
    if every * us <= limit {
        lemma_fundamental_div_mod_converse(limit, us, every, limit - every * us);
        assert(every * us >= every * 5) by (nonlinear_arith)
            requires
                every >= 1,
                us >= 5,
        ;
    } else {
        assert(limit / us == 0) by (nonlinear_arith)
            requires
                0 <= limit < us,
        ;
    }
}

/// The lines that are raised for a bit, as the number that is written.
proof fn lemma_raised_number(tms: bool, tdi: bool)
    ensures
        raised(tms, tdi) == (if tms {
            8_388_608int
        } else {
            0
        }) + (if tdi {
            524_288int
        } else {
            0
        }),
{
    assert((0x0080_0000u32 | 0x0008_0000u32) == 0x0088_0000u32 && (0x0080_0000u32 | 0u32)
        == 0x0080_0000u32 && (0u32 | 0x0008_0000u32) == 0x0008_0000u32 && (0u32 | 0u32) == 0u32)
        by (bit_vector);
}

/// One bit more appends the operations of that bit to a shift and changes none
/// before them. An abort is polled for before every bit that ends a group of
/// `polls` bits, which take a millisecond at most; other tasks run before every
/// bit that ends a group of `pauses` bits, which take fifty at most, and for a
/// millisecond at every eighth of these. Both groups are as large as they can be,
/// of one bit at least, where a bit counts four microseconds more than its
/// period. Then the data lines are set, TCK rises, TDO is sampled and TCK falls.
pub proof fn law_shift_grows_bit_by_bit(plan: ScanPlan, polls: int, pauses: int)
    requires
        polls >= 1,
        pauses >= 1,
        ({
            let us = if plan.tck_period_us == 0 {
                5
            } else {
                plan.tck_period_us + 4
            };
            &&& polls == 1 || polls * us <= 1_000
            &&& (polls + 1) * us > 1_000
            &&& pauses == 1 || pauses * us <= 50_000
            &&& (pauses + 1) * us > 50_000
        }),
    ensures
        scan_waveform(ScanPlan { bits: 0, ..plan }) == Seq::<PinOp>::empty(),
        ({
            let count = plan.bits + 1;
            let period = if plan.tck_period_us == 0 {
                1
            } else {
                plan.tck_period_us as int
            };
            let high = (period + 1) / 2;
            let sample = if high < 2 {
                1
            } else {
                high / 2
            };
            let tms = bit_at(plan.tms, plan.bits as int);
            let tdi = bit_at(plan.tdi, plan.bits as int);
            let polled = if count as int % polls == 0 {
                seq![PinOp::PollAbort]
            } else {
                Seq::empty()
            };
            let paused = if count as int % pauses != 0 {
                Seq::empty()
            } else if count as int / pauses % 8 == 0 {
                seq![PinOp::Sleep { ms: 1 }]
            } else {
                seq![PinOp::Yield]
            };
            let driven = seq![
                PinOp::SetPins {
                    set_mask: ((if tms {
                        8_388_608int
                    } else {
                        0
                    }) + (if tdi {
                        524_288int
                    } else {
                        0
                    })) as u32,
                    clear_mask: ((if tms {
                        0
                    } else {
                        8_388_608int
                    }) + (if tdi {
                        0
                    } else {
                        524_288int
                    })) as u32,
                },
                PinOp::SetHigh { mask: 262_144 },
                PinOp::Delay { us: sample as u32 },
                PinOp::SampleTdo,
                PinOp::Delay { us: (high - sample) as u32 },
                PinOp::SetLow { mask: 262_144 },
                PinOp::Delay { us: (period - high) as u32 },
            ];
            scan_waveform(ScanPlan { bits: count, ..plan }) == scan_waveform(plan) + polled + paused
                + driven
        }),
{
    let longer = ScanPlan { bits: plan.bits + 1, ..plan };
    let k = plan.bits as int;
    let tms = bit_at(plan.tms, k);
    let tdi = bit_at(plan.tdi, k);
    let us = bit_us(plan.tck_period_us);
    reveal(abort_every);
    reveal(pause_every);
    lemma_bits_within(polls, us, 1_000, 4_096);
    lemma_bits_within(pauses, us, 50_000, 32_768);
    lemma_one_bit_more(plan, longer, 0);
    lemma_raised_number(tms, tdi);
    lemma_raised_number(!tms, !tdi);
    let poll = poll_part(plan.tck_period_us, k);
    let pause = pause_part(plan.tck_period_us, k);
    let drive = drive_part(longer, k);
    assert(scan_waveform(longer) =~= scan_waveform(plan) + poll + pause + drive);
}

/// A shift that is told to abort after a poll ends in failure and leaves the TDO
/// buffer as it is; once aborted, it stays so. Nothing else aborts it.
pub proof fn law_abort_ends_the_shift<'a>(
    shift: &mut ShiftBits<'a>,
    tdo: &mut [u8],
    reply: bool,
    step: PinStep,
)
    requires
        shift.wf(tdo@),
        call_ensures(ShiftBits::step, (shift, tdo, reply), step),
    ensures
        old(shift).is_aborted() || (old(shift).polls() && reply) ==> {
            &&& step == (PinStep::Done { succeeded: false })
            &&& final(shift).is_aborted()
            &&& final(tdo)@ == old(tdo)@
        },
        !old(shift).is_aborted() && !(old(shift).polls() && reply) ==> {
            &&& !final(shift).is_aborted()
            &&& old(shift).remaining().len() > 0 ==> step == PinStep::Do(old(shift).remaining()[0])
            &&& old(shift).remaining().len() == 0 ==> step == (PinStep::Done { succeeded: true })
        },
{
}

/// A new shift drives its own bits from its own buffers, from the start of its
/// waveform on.
pub proof fn law_new_shift_drives_its_buffers<'a>(
    tck_period_us: u32,
    tms: &'a [u8],
    tdi: &'a [u8],
    bit_count: usize,
    shift: ShiftBits<'a>,
)
    requires
        tck_period_us <= u32::MAX - 4,
        tms@.len() >= byte_len(bit_count as nat),
        tdi@.len() >= byte_len(bit_count as nat),
        call_ensures(ShiftBits::new, (tck_period_us, tms, tdi, bit_count), shift),
    ensures
        shift.plan().tck_period_us == tck_period_us,
        shift.plan().bits == bit_count,
        shift.plan().tms == tms@,
        shift.plan().tdi == tdi@,
        shift.remaining() == scan_waveform(shift.plan()),
        !shift.is_aborted(),
        !shift.polls(),
        shift.taken() == 0,
{
}

/// When a shift is through, bit `i` of the TDO buffer is what sample `i` told, and
/// the bits past the last sample are low.
pub proof fn law_samples_become_bits<'a>(
    shift: &mut ShiftBits<'a>,
    tdo: &mut [u8],
    reply: bool,
    step: PinStep,
    i: int,
)
    requires
        shift.wf(tdo@),
        call_ensures(ShiftBits::step, (shift, tdo, reply), step),
        step == (PinStep::Done { succeeded: true }),
        0 <= i < 8 * byte_len(shift.plan().bits),
    ensures
        i < old(shift).plan().bits ==> bit_at(final(tdo)@, i) == final(shift).levels(
            final(tdo)@,
        )[i],
        i >= old(shift).plan().bits ==> !bit_at(final(tdo)@, i),
        final(shift).levels(final(tdo)@).len() == old(shift).plan().bits,
{
}

/// The answer to a sample is taken in behind the levels sampled before, and no
/// other answer is.
pub proof fn law_answers_are_taken_in_order<'a>(
    shift: &mut ShiftBits<'a>,
    tdo: &mut [u8],
    reply: bool,
    step: PinStep,
)
    requires
        shift.wf(tdo@),
        call_ensures(ShiftBits::step, (shift, tdo, reply), step),
        !(step == (PinStep::Done { succeeded: false })),
    ensures
        old(shift).samples() ==> final(shift).levels(final(tdo)@) == old(shift).levels(
            old(tdo)@,
        ).push(reply),
        !old(shift).samples() ==> final(shift).levels(final(tdo)@) == old(shift).levels(
            old(tdo)@,
        ),
        step matches PinStep::Do(op) ==> {
            &&& final(shift).samples() <==> op is SampleTdo
            &&& final(shift).polls() <==> op is PollAbort
            &&& final(shift).remaining() == old(shift).remaining().drop_first()
        },
{
}

} // verus!
