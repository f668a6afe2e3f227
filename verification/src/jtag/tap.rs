//! The TAP reset waveform and the test access port it is meant for.

use vstd::prelude::*;

use crate::jtag::pins::{
    events, high_us, lemma_events_append, lemma_events_push, lemma_masks, lemma_timeline_append,
    lemma_timeline_push, lines_after_all, low_us, tck_high_us, tck_low_us, time_of_all, timeline,
    ClockEvent, Lines, PinOp, PinStep, TargetEvent, TCK_MASK, TDI_MASK, TMS_MASK,
};

verus! {

/// Clock cycles with TMS high.
pub const RESET_CYCLES: u8 = 8;

/// Time to settle before the lines are touched.
pub const SETTLE_US: u32 = 50;

/// Sets the lines up: TMS high, TDI low.
pub open spec fn reset_opening() -> Seq<PinOp> {
    seq![
        PinOp::Delay { us: SETTLE_US },
        PinOp::SetHigh { mask: TMS_MASK },
        PinOp::SetLow { mask: TDI_MASK },
    ]
}

/// One clock cycle.
pub open spec fn pulse(tck_period_us: u32) -> Seq<PinOp> {
    seq![
        PinOp::SetHigh { mask: TCK_MASK },
        PinOp::Delay { us: high_us(tck_period_us) as u32 },
        PinOp::SetLow { mask: TCK_MASK },
        PinOp::Delay { us: low_us(tck_period_us) as u32 },
    ]
}

/// One clock cycle with TMS high. An abort is possible before each, and slow
/// clocks let other tasks run after every second.
pub open spec fn reset_cycle(tck_period_us: u32, cycle: int) -> Seq<PinOp> {
    let cycle_ops = seq![PinOp::PollAbort] + pulse(tck_period_us);
    if tck_period_us > 100 && cycle % 2 == 1 {
        cycle_ops.push(PinOp::Yield)
    } else {
        cycle_ops
    }
}

/// The cycles from `cycle` on.
pub open spec fn reset_cycles(tck_period_us: u32, cycle: int) -> Seq<PinOp>
    decreases RESET_CYCLES - cycle,
{
    if cycle >= RESET_CYCLES {
        Seq::empty()
    } else {
        reset_cycle(tck_period_us, cycle) + reset_cycles(tck_period_us, cycle + 1)
    }
}

/// One clock cycle with TMS low.
pub open spec fn reset_closing(tck_period_us: u32) -> Seq<PinOp> {
    seq![PinOp::SetLow { mask: TMS_MASK }] + pulse(tck_period_us)
}

/// All operations of a TAP reset.
pub open spec fn reset_waveform(tck_period_us: u32) -> Seq<PinOp> {
    reset_opening() + (reset_cycles(tck_period_us, 0) + reset_closing(tck_period_us))
}

/// Where a reset waveform is.
enum ResetStage {
    Opening { index: u8 },
    Cycle { cycle: u8, index: u8 },
    Closing { index: u8 },
    Over,
}

/// A TAP reset in progress.
pub struct ResetTap {
    tck_period_us: u32,
    stage: ResetStage,
    polling: bool,
    aborted: bool,
}

impl ResetTap {
    /// The TCK period.
    pub closed spec fn period(&self) -> u32 {
        self.tck_period_us
    }

    /// The operations that are still to be done.
    pub closed spec fn remaining(&self) -> Seq<PinOp> {
        let period = self.tck_period_us;
        match self.stage {
            ResetStage::Opening { index } => reset_opening().skip(index as int) + (reset_cycles(
                period,
                0,
            ) + reset_closing(period)),
            ResetStage::Cycle { cycle, index } => reset_cycle(period, cycle as int).skip(
                index as int,
            ) + (reset_cycles(period, cycle + 1) + reset_closing(period)),
            ResetStage::Closing { index } => reset_closing(period).skip(index as int),
            ResetStage::Over => Seq::empty(),
        }
    }

    /// Whether the next step is told if an abort is requested.
    pub closed spec fn polls(&self) -> bool {
        self.polling
    }

    /// Whether the reset was aborted.
    pub closed spec fn is_aborted(&self) -> bool {
        self.aborted
    }

    /// The place in the waveform exists.
    pub closed spec fn wf(&self) -> bool {
        match self.stage {
            ResetStage::Opening { index } => index < 3,
            ResetStage::Cycle { cycle, index } => cycle < RESET_CYCLES && index < reset_cycle(
                self.tck_period_us,
                cycle as int,
            ).len(),
            ResetStage::Closing { index } => index < 5,
            ResetStage::Over => true,
        }
    }

    /// Starts a TAP reset.
    pub fn new(tck_period_us: u32) -> (reset: Self)
        ensures
            reset.wf(),
            reset.period() == tck_period_us,
            reset.remaining() == reset_waveform(tck_period_us),
            !reset.polls(),
            !reset.is_aborted(),
    {
        let reset = ResetTap {
            tck_period_us,
            stage: ResetStage::Opening { index: 0 },
            polling: false,
            aborted: false,
        };
        assert(reset_opening().skip(0) =~= reset_opening());
        reset
    }

    /// Whether the reset was aborted.
    pub fn aborted(&self) -> (aborted: bool)
        ensures
            aborted == self.is_aborted(),
    {
        self.aborted
    }

    /// One operation was taken from the waveform and nothing else changed.
    spec fn advanced(&self, before: &Self, op: PinOp) -> bool {
        &&& self.wf()
        &&& self.tck_period_us == before.tck_period_us
        &&& self.polling == before.polling
        &&& self.aborted == before.aborted
        &&& before.remaining().len() > 0
        &&& op == before.remaining()[0]
        &&& self.remaining() == before.remaining().drop_first()
    }

    /// The next operation of the opening.
    fn opening_op(&mut self, index: u8) -> (op: PinOp)
        requires
            old(self).wf(),
            old(self).stage == (ResetStage::Opening { index }),
        ensures
            final(self).advanced(old(self), op),
    {
        let ghost period = self.tck_period_us;
        let ghost opening = reset_opening();
        let ghost rest = reset_cycles(period, 0) + reset_closing(period);
        assert(self.remaining()[0] == opening[index as int]);
        assert(self.remaining().drop_first() =~= opening.skip(index + 1) + rest);
        if index < 2 {
            self.stage = ResetStage::Opening { index: index + 1 };
        } else {
            self.stage = ResetStage::Cycle { cycle: 0, index: 0 };
            assert(reset_cycle(period, 0).skip(0) =~= reset_cycle(period, 0));
            assert(opening.skip(3) + rest =~= self.remaining());
        }
        if index == 0 {
            PinOp::Delay { us: SETTLE_US }
        } else if index == 1 {
            PinOp::SetHigh { mask: TMS_MASK }
        } else {
            PinOp::SetLow { mask: TDI_MASK }
        }
    }

    /// The next operation of a cycle.
    fn cycle_op(&mut self, cycle: u8, index: u8) -> (op: PinOp)
        requires
            old(self).wf(),
            old(self).stage == (ResetStage::Cycle { cycle, index }),
        ensures
            final(self).advanced(old(self), op),
    {
        let period: u32 = self.tck_period_us;
        let ghost ops = reset_cycle(period, cycle as int);
        let ghost rest = reset_cycles(period, cycle + 1) + reset_closing(period);
        let last: u8 = if period > 100 && cycle % 2 == 1 {
            5
        } else {
            4
        };
        assert(ops.len() == last + 1);
        assert(self.remaining()[0] == ops[index as int]);
        assert(self.remaining().drop_first() =~= ops.skip(index + 1) + rest);
        if index < last {
            self.stage = ResetStage::Cycle { cycle, index: index + 1 };
        } else if cycle + 1 < RESET_CYCLES {
            self.stage = ResetStage::Cycle { cycle: cycle + 1, index: 0 };
            assert(reset_cycle(period, cycle + 1).skip(0) =~= reset_cycle(period, cycle + 1));
            assert(ops.skip(index + 1) + rest =~= self.remaining());
        } else {
            self.stage = ResetStage::Closing { index: 0 };
            assert(reset_closing(period).skip(0) =~= reset_closing(period));
            assert(ops.skip(index + 1) + rest =~= self.remaining());
        }
        if index == 0 {
            PinOp::PollAbort
        } else if index < 5 {
            pulse_op(period, index - 1)
        } else {
            PinOp::Yield
        }
    }

    /// The next operation of the closing.
    fn closing_op(&mut self, index: u8) -> (op: PinOp)
        requires
            old(self).wf(),
            old(self).stage == (ResetStage::Closing { index }),
        ensures
            final(self).advanced(old(self), op),
    {
        let period: u32 = self.tck_period_us;
        let ghost closing = reset_closing(period);
        assert(self.remaining()[0] == closing[index as int]);
        assert(self.remaining().drop_first() =~= closing.skip(index + 1));
        if index < 4 {
            self.stage = ResetStage::Closing { index: index + 1 };
        } else {
            self.stage = ResetStage::Over;
            assert(closing.skip(5) =~= self.remaining());
        }
        if index == 0 {
            PinOp::SetLow { mask: TMS_MASK }
        } else {
            pulse_op(period, index - 1)
        }
    }

    /// The next operation, in order. `reply` answers a poll for an abort, and
    /// an affirmative one ends the reset.
    pub fn step(&mut self, reply: bool) -> (step: PinStep)
        requires
            old(self).wf(),
        ensures
            final(self).wf(),
            final(self).period() == old(self).period(),
            final(self).is_aborted() == (old(self).is_aborted() || (old(self).polls() && reply)),
            if final(self).is_aborted() {
                step == (PinStep::Done { succeeded: false })
            } else if old(self).remaining().len() == 0 {
                &&& step == (PinStep::Done { succeeded: true })
                &&& final(self).remaining() == old(self).remaining()
            } else {
                &&& step == PinStep::Do(old(self).remaining()[0])
                &&& final(self).remaining() == old(self).remaining().drop_first()
                &&& final(self).polls() == (old(self).remaining()[0] is PollAbort)
            },
    {
        if self.aborted || (self.polling && reply) {
            self.aborted = true;
            return PinStep::Done { succeeded: false };
        }
        let op = match self.stage {
            ResetStage::Opening { index } => self.opening_op(index),
            ResetStage::Cycle { cycle, index } => self.cycle_op(cycle, index),
            ResetStage::Closing { index } => self.closing_op(index),
            ResetStage::Over => {
                return PinStep::Done { succeeded: true };
            },
        };
        self.polling = match op {
            PinOp::PollAbort => true,
            _ => false,
        };
        PinStep::Do(op)
    }
}

/// The operation of a clock cycle at `index`.
fn pulse_op(tck_period_us: u32, index: u8) -> (op: PinOp)
    requires
        index < 4,
    ensures
        op == pulse(tck_period_us)[index as int],
{
    if index == 0 {
        PinOp::SetHigh { mask: TCK_MASK }
    } else if index == 1 {
        PinOp::Delay { us: tck_high_us(tck_period_us) }
    } else if index == 2 {
        PinOp::SetLow { mask: TCK_MASK }
    } else {
        PinOp::Delay { us: tck_low_us(tck_period_us) }
    }
}

/// States of a test access port.
pub enum TapState {
    TestLogicReset,
    RunTestIdle,
    SelectDrScan,
    CaptureDr,
    ShiftDr,
    Exit1Dr,
    PauseDr,
    Exit2Dr,
    UpdateDr,
    SelectIrScan,
    CaptureIr,
    ShiftIr,
    Exit1Ir,
    PauseIr,
    Exit2Ir,
    UpdateIr,
}

/// The state that follows at a rising edge of TCK.
pub open spec fn tap_next(state: TapState, tms: bool) -> TapState {
    if tms {
        match state {
            TapState::TestLogicReset => TapState::TestLogicReset,
            TapState::RunTestIdle => TapState::SelectDrScan,
            TapState::SelectDrScan => TapState::SelectIrScan,
            TapState::CaptureDr => TapState::Exit1Dr,
            TapState::ShiftDr => TapState::Exit1Dr,
            TapState::Exit1Dr => TapState::UpdateDr,
            TapState::PauseDr => TapState::Exit2Dr,
            TapState::Exit2Dr => TapState::UpdateDr,
            TapState::UpdateDr => TapState::SelectDrScan,
            TapState::SelectIrScan => TapState::TestLogicReset,
            TapState::CaptureIr => TapState::Exit1Ir,
            TapState::ShiftIr => TapState::Exit1Ir,
            TapState::Exit1Ir => TapState::UpdateIr,
            TapState::PauseIr => TapState::Exit2Ir,
            TapState::Exit2Ir => TapState::UpdateIr,
            TapState::UpdateIr => TapState::SelectDrScan,
        }
    } else {
        match state {
            TapState::TestLogicReset => TapState::RunTestIdle,
            TapState::RunTestIdle => TapState::RunTestIdle,
            TapState::SelectDrScan => TapState::CaptureDr,
            TapState::CaptureDr => TapState::ShiftDr,
            TapState::ShiftDr => TapState::ShiftDr,
            TapState::Exit1Dr => TapState::PauseDr,
            TapState::PauseDr => TapState::PauseDr,
            TapState::Exit2Dr => TapState::ShiftDr,
            TapState::UpdateDr => TapState::RunTestIdle,
            TapState::SelectIrScan => TapState::CaptureIr,
            TapState::CaptureIr => TapState::ShiftIr,
            TapState::ShiftIr => TapState::ShiftIr,
            TapState::Exit1Ir => TapState::PauseIr,
            TapState::PauseIr => TapState::PauseIr,
            TapState::Exit2Ir => TapState::ShiftIr,
            TapState::UpdateIr => TapState::RunTestIdle,
        }
    }
}

/// The state after a number of rising edges with TMS high.
pub open spec fn tap_held_high(state: TapState, edges: nat) -> TapState
    decreases edges,
{
    if edges == 0 {
        state
    } else {
        tap_next(tap_held_high(state, (edges - 1) as nat), true)
    }
}

/// The state after what a target has seen.
pub open spec fn tap_after(state: TapState, seen: Seq<TargetEvent>) -> TapState
    decreases seen.len(),
{
    if seen.len() == 0 {
        state
    } else {
        let before = tap_after(state, seen.drop_last());
        match seen.last() {
            TargetEvent::Clock { tms, .. } => tap_next(before, tms),
            TargetEvent::Sample { .. } => before,
        }
    }
}

/// One clock cycle with both data lines as given.
pub open spec fn clocked(tms: bool, tdi: bool) -> Seq<TargetEvent> {
    seq![TargetEvent::Clock { tms, tdi }]
}

/// A number of clock cycles with TMS high and TDI low.
pub open spec fn clocked_high(cycles: nat) -> Seq<TargetEvent> {
    Seq::new(cycles, |i: int| TargetEvent::Clock { tms: true, tdi: false })
}

/// A pulse is one rising edge and leaves the lines as they were.
proof fn lemma_pulse(lines: Lines, tck_period_us: u32)
    requires
        !lines.tck,
    ensures
        events(lines, pulse(tck_period_us)) == clocked(lines.tms, lines.tdi),
        lines_after_all(lines, pulse(tck_period_us)) == lines,
{
    let ops = pulse(tck_period_us);
    lemma_masks();
    let none = Seq::<PinOp>::empty();
    lemma_events_push(lines, none, ops[0]);
    lemma_events_push(lines, none.push(ops[0]), ops[1]);
    lemma_events_push(lines, none.push(ops[0]).push(ops[1]), ops[2]);
    lemma_events_push(lines, none.push(ops[0]).push(ops[1]).push(ops[2]), ops[3]);
    assert(ops =~= none.push(ops[0]).push(ops[1]).push(ops[2]).push(ops[3]));
    assert(events(lines, ops) =~= clocked(lines.tms, lines.tdi));
}

/// A cycle is one rising edge and leaves the lines as they were.
proof fn lemma_reset_cycle(lines: Lines, tck_period_us: u32, cycle: int)
    requires
        !lines.tck,
    ensures
        events(lines, reset_cycle(tck_period_us, cycle)) == clocked(lines.tms, lines.tdi),
        lines_after_all(lines, reset_cycle(tck_period_us, cycle)) == lines,
{
    lemma_masks();
    let none = Seq::<PinOp>::empty();
    let poll = none.push(PinOp::PollAbort);
    let ops = poll + pulse(tck_period_us);
    lemma_events_push(lines, none, PinOp::PollAbort);
    assert(events(lines, poll) =~= Seq::<TargetEvent>::empty());
    lemma_events_append(lines, poll, pulse(tck_period_us));
    lemma_pulse(lines, tck_period_us);
    assert(seq![PinOp::PollAbort] =~= poll);
    assert(events(lines, ops) =~= clocked(lines.tms, lines.tdi));
    lemma_events_push(lines, ops, PinOp::Yield);
    assert(events(lines, ops.push(PinOp::Yield)) =~= clocked(lines.tms, lines.tdi));
}

/// The cycles from `cycle` on are as many rising edges.
proof fn lemma_reset_cycles(lines: Lines, tck_period_us: u32, cycle: int)
    requires
        !lines.tck,
        lines.tms,
        !lines.tdi,
        0 <= cycle <= RESET_CYCLES,
    ensures
        events(lines, reset_cycles(tck_period_us, cycle)) == clocked_high(
            (RESET_CYCLES - cycle) as nat,
        ),
        lines_after_all(lines, reset_cycles(tck_period_us, cycle)) == lines,
    decreases RESET_CYCLES - cycle,
{
    if cycle < RESET_CYCLES {
        lemma_reset_cycle(lines, tck_period_us, cycle);
        lemma_reset_cycles(lines, tck_period_us, cycle + 1);
        lemma_events_append(
            lines,
            reset_cycle(tck_period_us, cycle),
            reset_cycles(tck_period_us, cycle + 1),
        );
    }
    assert(events(lines, reset_cycles(tck_period_us, cycle)) =~= clocked_high(
        (RESET_CYCLES - cycle) as nat,
    ));
}

/// A target sees a TAP reset as eight clock cycles with TMS high and one with
/// TMS low, and all output lines are low after it.
pub proof fn law_reset_clocks_the_target(lines: Lines, tck_period_us: u32)
    requires
        !lines.tck,
    ensures
        events(lines, reset_waveform(tck_period_us)) == clocked_high(RESET_CYCLES as nat) + clocked(
            false,
            false,
        ),
        lines_after_all(lines, reset_waveform(tck_period_us)) == (Lines {
            tck: false,
            tms: false,
            tdi: false,
        }),
{
    lemma_masks();
    let none = Seq::<PinOp>::empty();
    let opening = reset_opening();
    let set = none.push(opening[0]).push(opening[1]).push(opening[2]);
    lemma_events_push(lines, none, opening[0]);
    lemma_events_push(lines, none.push(opening[0]), opening[1]);
    lemma_events_push(lines, none.push(opening[0]).push(opening[1]), opening[2]);
    assert(opening =~= set);
    assert(events(lines, opening) =~= Seq::<TargetEvent>::empty());
    let ready = Lines { tck: false, tms: true, tdi: false };
    assert(lines_after_all(lines, opening) == ready);
    let cycles = reset_cycles(tck_period_us, 0);
    lemma_reset_cycles(ready, tck_period_us, 0);
    let lower = none.push(PinOp::SetLow { mask: TMS_MASK });
    lemma_events_push(ready, none, PinOp::SetLow { mask: TMS_MASK });
    assert(seq![PinOp::SetLow { mask: TMS_MASK }] =~= lower);
    assert(events(ready, lower) =~= Seq::<TargetEvent>::empty());
    let low = Lines { tck: false, tms: false, tdi: false };
    assert(lines_after_all(ready, lower) == low);
    lemma_pulse(low, tck_period_us);
    lemma_events_append(ready, lower, pulse(tck_period_us));
    let closing = reset_closing(tck_period_us);
    assert(events(ready, closing) =~= clocked(false, false));
    lemma_events_append(ready, cycles, closing);
    lemma_events_append(lines, opening, cycles + closing);
    assert(events(lines, reset_waveform(tck_period_us)) =~= clocked_high(RESET_CYCLES as nat)
        + clocked(false, false));
}

/// Rising edges with TMS high, seen by a target.
proof fn lemma_tap_clocked_high(state: TapState, cycles: nat)
    ensures
        tap_after(state, clocked_high(cycles)) == tap_held_high(state, cycles),
    decreases cycles,
{
    if cycles > 0 {
        assert(clocked_high(cycles).drop_last() =~= clocked_high((cycles - 1) as nat));
        lemma_tap_clocked_high(state, (cycles - 1) as nat);
    }
}

/// Whatever state a target was in, a TAP reset takes it through its reset state
/// and leaves it idle.
pub proof fn law_reset_leaves_the_target_idle(state: TapState, lines: Lines, tck_period_us: u32)
    requires
        !lines.tck,
    ensures
        tap_held_high(state, RESET_CYCLES as nat) == TapState::TestLogicReset,
        tap_after(state, events(lines, reset_waveform(tck_period_us))) == TapState::RunTestIdle,
{
    reveal_with_fuel(tap_held_high, 9);
    law_reset_clocks_the_target(lines, tck_period_us);
    lemma_tap_clocked_high(state, RESET_CYCLES as nat);
    let seen = clocked_high(RESET_CYCLES as nat) + clocked(false, false);
    assert(seen.drop_last() =~= clocked_high(RESET_CYCLES as nat));
}

/// The edges of one clock cycle that starts at `start_us`.
spec fn pulse_timing(start_us: int, lines: Lines, tck_period_us: u32) -> Seq<(int, ClockEvent)> {
    seq![
        (start_us, ClockEvent::Rise { tms: lines.tms, tdi: lines.tdi }),
        (start_us + high_us(tck_period_us), ClockEvent::Fall),
    ]
}

/// When the edges of a clock cycle come.
proof fn lemma_pulse_timing(start_us: int, lines: Lines, tck_period_us: u32)
    requires
        !lines.tck,
    ensures
        timeline(start_us, lines, pulse(tck_period_us)) == pulse_timing(
            start_us,
            lines,
            tck_period_us,
        ),
        time_of_all(pulse(tck_period_us)) == high_us(tck_period_us) + low_us(tck_period_us),
        lines_after_all(lines, pulse(tck_period_us)) == lines,
{
    let ops = pulse(tck_period_us);
    lemma_masks();
    let none = Seq::<PinOp>::empty();
    assert(time_of_all(none) == 0);
    lemma_timeline_push(start_us, lines, none, ops[0]);
    lemma_timeline_push(start_us, lines, none.push(ops[0]), ops[1]);
    lemma_timeline_push(start_us, lines, none.push(ops[0]).push(ops[1]), ops[2]);
    lemma_timeline_push(start_us, lines, none.push(ops[0]).push(ops[1]).push(ops[2]), ops[3]);
    assert(ops =~= none.push(ops[0]).push(ops[1]).push(ops[2]).push(ops[3]));
    assert(timeline(start_us, lines, ops) =~= pulse_timing(start_us, lines, tck_period_us));
}

/// An operation that touches no line and lets no time pass.
proof fn lemma_still_timing(start_us: int, lines: Lines, op: PinOp)
    requires
        op is PollAbort || op is Yield,
    ensures
        timeline(start_us, lines, seq![op]) == Seq::<(int, ClockEvent)>::empty(),
        time_of_all(seq![op]) == 0,
        lines_after_all(lines, seq![op]) == lines,
{
    lemma_masks();
    let none = Seq::<PinOp>::empty();
    assert(time_of_all(none) == 0);
    lemma_timeline_push(start_us, lines, none, op);
    assert(seq![op] =~= none.push(op));
    assert(timeline(start_us, lines, seq![op]) =~= Seq::<(int, ClockEvent)>::empty());
}

/// When the edges of a cycle with TMS high come.
proof fn lemma_reset_cycle_timing(start_us: int, lines: Lines, tck_period_us: u32, cycle: int)
    requires
        !lines.tck,
    ensures
        timeline(start_us, lines, reset_cycle(tck_period_us, cycle)) == pulse_timing(
            start_us,
            lines,
            tck_period_us,
        ),
        time_of_all(reset_cycle(tck_period_us, cycle)) == high_us(tck_period_us) + low_us(
            tck_period_us,
        ),
        lines_after_all(lines, reset_cycle(tck_period_us, cycle)) == lines,
{
    let poll = seq![PinOp::PollAbort];
    let rest = seq![PinOp::Yield];
    let ops = poll + pulse(tck_period_us);
    let edges = pulse_timing(start_us, lines, tck_period_us);
    lemma_still_timing(start_us, lines, PinOp::PollAbort);
    lemma_pulse_timing(start_us, lines, tck_period_us);
    lemma_timeline_append(start_us, lines, poll, pulse(tck_period_us));
    assert(timeline(start_us, lines, ops) =~= edges);
    lemma_still_timing(start_us + time_of_all(ops), lines, PinOp::Yield);
    lemma_timeline_append(start_us, lines, ops, rest);
    assert(ops + rest =~= ops.push(PinOp::Yield));
    assert(timeline(start_us, lines, ops + rest) =~= edges);
}

/// When the edges of the cycles from `cycle` on come.
proof fn lemma_reset_cycles_timing(
    start_us: int,
    lines: Lines,
    tck_period_us: u32,
    cycle: int,
    i: int,
)
    requires
        !lines.tck,
        0 <= cycle <= RESET_CYCLES,
        cycle <= i < RESET_CYCLES || i == cycle,
    ensures
        ({
            let period = high_us(tck_period_us) + low_us(tck_period_us);
            let edges = timeline(start_us, lines, reset_cycles(tck_period_us, cycle));
            let own = pulse_timing(start_us + (i - cycle) * period, lines, tck_period_us);
            &&& edges.len() == 2 * (RESET_CYCLES - cycle)
            &&& i < RESET_CYCLES ==> edges[2 * (i - cycle)] == own[0]
            &&& i < RESET_CYCLES ==> edges[2 * (i - cycle) + 1] == own[1]
        }),
        time_of_all(reset_cycles(tck_period_us, cycle)) == (RESET_CYCLES - cycle) * (high_us(
            tck_period_us,
        ) + low_us(tck_period_us)),
        lines_after_all(lines, reset_cycles(tck_period_us, cycle)) == lines,
    decreases RESET_CYCLES - cycle,
{
    let period = high_us(tck_period_us) + low_us(tck_period_us);
    if cycle < RESET_CYCLES {
        let then = start_us + period;
        let next = if i > cycle {
            i
        } else {
            cycle + 1
        };
        lemma_reset_cycle_timing(start_us, lines, tck_period_us, cycle);
        lemma_reset_cycles_timing(then, lines, tck_period_us, cycle + 1, next);
        lemma_timeline_append(
            start_us,
            lines,
            reset_cycle(tck_period_us, cycle),
            reset_cycles(tck_period_us, cycle + 1),
        );
        assert((RESET_CYCLES - cycle) * period == (RESET_CYCLES - (cycle + 1)) * period + period)
            by (nonlinear_arith);
        if i > cycle {
            assert(then + (i - (cycle + 1)) * period == start_us + (i - cycle) * period)
                by (nonlinear_arith)
                requires
                    then == start_us + period,
            ;
        } else {
            assert((i - cycle) * period == 0) by (nonlinear_arith)
                requires
                    i == cycle,
            ;
        }
    } else {
        assert((RESET_CYCLES - cycle) * period == 0) by (nonlinear_arith)
            requires
                RESET_CYCLES == cycle,
        ;
    }
}

/// When the lines are set up.
proof fn lemma_opening_timing(lines: Lines)
    requires
        !lines.tck,
    ensures
        timeline(0, lines, reset_opening()) == Seq::<(int, ClockEvent)>::empty(),
        time_of_all(reset_opening()) == 50,
        lines_after_all(lines, reset_opening()) == (Lines { tck: false, tms: true, tdi: false }),
{
    let ops = reset_opening();
    let none = Seq::<PinOp>::empty();
    lemma_masks();
    assert(time_of_all(none) == 0);
    lemma_timeline_push(0, lines, none, ops[0]);
    lemma_timeline_push(0, lines, none.push(ops[0]), ops[1]);
    lemma_timeline_push(0, lines, none.push(ops[0]).push(ops[1]), ops[2]);
    assert(ops =~= none.push(ops[0]).push(ops[1]).push(ops[2]));
    assert(timeline(0, lines, ops) =~= Seq::<(int, ClockEvent)>::empty());
}

/// When the edges of the last cycle come.
proof fn lemma_closing_timing(start_us: int, tck_period_us: u32)
    ensures
        ({
            let ready = Lines { tck: false, tms: true, tdi: false };
            let low = Lines { tck: false, tms: false, tdi: false };
            timeline(start_us, ready, reset_closing(tck_period_us)) == pulse_timing(
                start_us,
                low,
                tck_period_us,
            )
        }),
        time_of_all(reset_closing(tck_period_us)) == high_us(tck_period_us) + low_us(tck_period_us),
{
    let ready = Lines { tck: false, tms: true, tdi: false };
    let low = Lines { tck: false, tms: false, tdi: false };
    let none = Seq::<PinOp>::empty();
    let lower = seq![PinOp::SetLow { mask: TMS_MASK }];
    lemma_masks();
    assert(time_of_all(none) == 0);
    lemma_timeline_push(start_us, ready, none, PinOp::SetLow { mask: TMS_MASK });
    assert(lower =~= none.push(PinOp::SetLow { mask: TMS_MASK }));
    assert(lines_after_all(ready, lower) == low);
    assert(timeline(start_us, ready, lower) =~= Seq::<(int, ClockEvent)>::empty());
    lemma_pulse_timing(start_us, low, tck_period_us);
    lemma_timeline_append(start_us, ready, lower, pulse(tck_period_us));
    assert(timeline(start_us, ready, reset_closing(tck_period_us)) =~= pulse_timing(
        start_us,
        low,
        tck_period_us,
    ));
}

/// A TAP reset keeps the time of its clock. After fifty microseconds TCK rises
/// nine times, once in every period, with TDI low and with TMS high but for the
/// last time. It falls after the first half of the period, which gets the odd
/// microsecond, and the second half passes before it rises again.
pub proof fn law_reset_keeps_time(lines: Lines, tck_period_us: u32, i: int)
    requires
        !lines.tck,
        0 <= i < 9,
    ensures
        ({
            let seen = timeline(0, lines, reset_waveform(tck_period_us));
            let period = if tck_period_us == 0 {
                1
            } else {
                tck_period_us as int
            };
            let high = (period + 1) / 2;
            &&& seen.len() == 18
            &&& seen[2 * i] == (50 + i * period, ClockEvent::Rise { tms: i < 8, tdi: false })
            &&& seen[2 * i + 1] == (50 + i * period + high, ClockEvent::Fall)
            &&& time_of_all(reset_waveform(tck_period_us)) == 50 + 9 * period
        }),
{
    let ready = Lines { tck: false, tms: true, tdi: false };
    let opening = reset_opening();
    let cycles = reset_cycles(tck_period_us, 0);
    let closing = reset_closing(tck_period_us);
    let period = high_us(tck_period_us) + low_us(tck_period_us);
    lemma_opening_timing(lines);
    lemma_reset_cycles_timing(
        50,
        ready,
        tck_period_us,
        0,
        if i < 8 {
            i
        } else {
            0
        },
    );
    lemma_closing_timing(50 + 8 * period, tck_period_us);
    lemma_timeline_append(50, ready, cycles, closing);
    lemma_timeline_append(0, lines, opening, cycles + closing);
    assert((RESET_CYCLES - 0) * period == 8 * period);
    if i == 8 {
        assert(i * period == 8 * period);
    }
}

/// Cycle `i` among the cycles from `cycle` on.
proof fn lemma_reset_cycles_at(tck_period_us: u32, cycle: int, i: int)
    requires
        0 <= cycle <= i < RESET_CYCLES,
    ensures
        ({
            let ops = reset_cycles(tck_period_us, cycle);
            let before = cycles_len(tck_period_us, cycle, i);
            let own = reset_cycle(tck_period_us, i);
            &&& ops.len() == cycles_len(tck_period_us, cycle, RESET_CYCLES as int)
            &&& 0 <= before
            &&& before + own.len() <= ops.len()
            &&& ops.subrange(before, before + own.len()) == own
        }),
    decreases i - cycle,
{
    let ops = reset_cycles(tck_period_us, cycle);
    let first = reset_cycle(tck_period_us, cycle);
    let rest = reset_cycles(tck_period_us, cycle + 1);
    lemma_reset_cycles_len(tck_period_us, cycle);
    lemma_reset_cycles_len(tck_period_us, cycle + 1);
    if cycle == i {
        assert(ops.subrange(0, first.len() as int) =~= first);
    } else {
        let before = cycles_len(tck_period_us, cycle + 1, i);
        let own = reset_cycle(tck_period_us, i);
        lemma_reset_cycles_at(tck_period_us, cycle + 1, i);
        let at = first.len() + before;
        assert(ops.subrange(at, at + own.len()) =~= rest.subrange(before, before + own.len()));
    }
}

/// Number of operations of the cycles from `cycle` up to `to`.
spec fn cycles_len(tck_period_us: u32, cycle: int, to: int) -> int
    decreases to - cycle,
{
    if cycle >= to {
        0
    } else {
        reset_cycle(tck_period_us, cycle).len() + cycles_len(tck_period_us, cycle + 1, to)
    }
}

/// Number of operations of the cycles from `cycle` on.
proof fn lemma_reset_cycles_len(tck_period_us: u32, cycle: int)
    requires
        0 <= cycle <= RESET_CYCLES,
    ensures
        reset_cycles(tck_period_us, cycle).len() == cycles_len(
            tck_period_us,
            cycle,
            RESET_CYCLES as int,
        ),
    decreases RESET_CYCLES - cycle,
{
    if cycle < RESET_CYCLES {
        lemma_reset_cycles_len(tck_period_us, cycle + 1);
    }
}

/// Number of operations before cycle `to`.
proof fn lemma_cycles_len(tck_period_us: u32, cycle: int, to: int)
    requires
        0 <= cycle <= to,
    ensures
        tck_period_us <= 100 ==> cycles_len(tck_period_us, cycle, to) == 5 * (to - cycle),
        tck_period_us > 100 ==> cycles_len(tck_period_us, cycle, to) == 5 * (to - cycle) + to / 2
            - cycle / 2,
    decreases to - cycle,
{
    if cycle < to {
        lemma_cycles_len(tck_period_us, cycle + 1, to);
        assert(reset_cycle(tck_period_us, cycle).len() == 5 + if tck_period_us > 100 && cycle % 2
            == 1 {
            1int
        } else {
            0
        });
    }
}

/// The operations of a TAP reset, by their places. It waits, raises TMS and
/// lowers TDI. Each of eight cycles polls for an abort and pulses TCK; if the
/// period is over a hundred microseconds, other tasks run after every second
/// cycle. At last TMS is lowered for one more pulse.
pub proof fn law_reset_polls_before_each_cycle(tck_period_us: u32, i: int)
    requires
        0 <= i < 8,
    ensures
        ({
            let ops = reset_waveform(tck_period_us);
            let period = if tck_period_us == 0 {
                1
            } else {
                tck_period_us as int
            };
            let high = PinOp::Delay { us: ((period + 1) / 2) as u32 };
            let low = PinOp::Delay { us: (period / 2) as u32 };
            let rise = PinOp::SetHigh { mask: 262_144 };
            let fall = PinOp::SetLow { mask: 262_144 };
            let slow = tck_period_us > 100;
            let at = if slow {
                3 + 5 * i + i / 2
            } else {
                3 + 5 * i
            };
            let end = if slow {
                47int
            } else {
                43
            };
            &&& ops.len() == end + 5
            &&& ops.take(3) == seq![
                PinOp::Delay { us: 50 },
                PinOp::SetHigh { mask: 8_388_608 },
                PinOp::SetLow { mask: 524_288 },
            ]
            &&& ops.subrange(at, at + 5) == seq![PinOp::PollAbort, rise, high, fall, low]
            &&& slow && i % 2 == 1 ==> ops[at + 5] == PinOp::Yield
            &&& ops.skip(end) == seq![PinOp::SetLow { mask: 8_388_608 }, rise, high, fall, low]
        }),
{
    let ops = reset_waveform(tck_period_us);
    let cycles = reset_cycles(tck_period_us, 0);
    let closing = reset_closing(tck_period_us);
    let own = reset_cycle(tck_period_us, i);
    let before = cycles_len(tck_period_us, 0, i);
    lemma_reset_cycles_at(tck_period_us, 0, i);
    lemma_cycles_len(tck_period_us, 0, i);
    lemma_cycles_len(tck_period_us, 0, 8);
    let at = 3 + before;
    let poll = seq![PinOp::PollAbort] + pulse(tck_period_us);
    assert(ops.take(3) =~= reset_opening());
    assert(ops.subrange(at, at + own.len()) =~= cycles.subrange(before, before + own.len()));
    assert(ops.subrange(at, at + own.len()) == own);
    assert(ops.subrange(at, at + 5) =~= own.take(5));
    assert(own.take(5) =~= poll);
    if own.len() == 6 {
        assert(ops.subrange(at, at + 6)[5] == own[5]);
    }
    assert(ops.skip((3 + cycles.len()) as int) =~= closing);
}

/// A TAP reset starts with the period it is given. It goes through its waveform
/// operation by operation and succeeds at the end. If it is told to abort after
/// a poll, it ends in failure and stays so.
pub proof fn law_reset_goes_through_its_waveform(
    tck_period_us: u32,
    fresh: ResetTap,
    reset: &mut ResetTap,
    reply: bool,
    step: PinStep,
)
    requires
        reset.wf(),
        call_ensures(ResetTap::new, (tck_period_us,), fresh),
        call_ensures(ResetTap::step, (reset, reply), step),
    ensures
        fresh.period() == tck_period_us,
        fresh.remaining() == reset_waveform(tck_period_us),
        !fresh.is_aborted(),
        !fresh.polls(),
        old(reset).is_aborted() || (old(reset).polls() && reply) ==> {
            &&& step == (PinStep::Done { succeeded: false })
            &&& final(reset).is_aborted()
        },
        !old(reset).is_aborted() && !(old(reset).polls() && reply) ==> {
            let todo = old(reset).remaining();
            &&& !final(reset).is_aborted()
            &&& todo.len() == 0 ==> step == (PinStep::Done { succeeded: true })
            &&& todo.len() > 0 ==> {
                &&& step == PinStep::Do(todo[0])
                &&& final(reset).remaining() == todo.drop_first()
                &&& final(reset).polls() <==> todo[0] is PollAbort
            }
        },
{
}

} // verus!
