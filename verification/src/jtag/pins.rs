//! Pin operations, their timing, and what they do to the lines.

use vstd::prelude::*;

verus! {

/// The TCK line in the output registers.
pub const TCK_MASK: u32 = 0x0004_0000;

/// The TDI line in the output registers.
pub const TDI_MASK: u32 = 0x0008_0000;

/// The TMS line in the output registers.
pub const TMS_MASK: u32 = 0x0080_0000;

/// The TDO line in the register of the upper inputs.
pub const TDO_MASK: u32 = 0x0000_0004;

/// The input enable of a pin in its multiplexer register.
pub const INPUT_ENABLE: u32 = 0x0000_0200;

/// One thing that the pin-driving core does.
#[derive(Debug, Clone, Copy, PartialEq, Eq, Structural)]
pub enum PinOp {
    /// Raise these lines.
    SetHigh { mask: u32 },
    /// Lower these lines.
    SetLow { mask: u32 },
    /// Lower some lines, then raise others; an empty mask is not written.
    SetPins { set_mask: u32, clear_mask: u32 },
    /// Let this time pass.
    Delay { us: u32 },
    /// Let other tasks run.
    Yield,
    /// Let other tasks run for at least this time.
    Sleep { ms: u32 },
    /// Look whether an abort is requested; the answer goes to the next step.
    PollAbort,
    /// Read the TDO line; the answer goes to the next step.
    SampleTdo,
}

/// Result of one step of a waveform.
#[derive(Debug, Clone, Copy, PartialEq, Eq, Structural)]
pub enum PinStep {
    /// Do this and step again.
    Do(PinOp),
    /// The waveform is over; it succeeded unless it was aborted.
    Done { succeeded: bool },
}

/// Time for which TCK is high.
pub open spec fn high_us(tck_period_us: u32) -> int {
    let half = (tck_period_us + 1) / 2;
    if half < 1 {
        1
    } else {
        half
    }
}

/// Time for which TCK is low.
pub open spec fn low_us(tck_period_us: u32) -> int {
    tck_period_us as int / 2
}

/// Time from the rising edge of TCK to the sampling of TDO.
pub open spec fn sample_us(tck_period_us: u32) -> int {
    let half = high_us(tck_period_us) / 2;
    if half < 1 {
        1
    } else {
        half
    }
}

/// Time from the sampling of TDO to the falling edge of TCK.
pub open spec fn rest_us(tck_period_us: u32) -> int {
    high_us(tck_period_us) - sample_us(tck_period_us)
}

/// Time for which TCK is high.
pub fn tck_high_us(tck_period_us: u32) -> (us: u32)
    ensures
        us == high_us(tck_period_us),
{
    if tck_period_us == 0 {
        1
    } else {
        tck_period_us / 2 + tck_period_us % 2
    }
}

/// Time for which TCK is low.
pub fn tck_low_us(tck_period_us: u32) -> (us: u32)
    ensures
        us == low_us(tck_period_us),
{
    tck_period_us / 2
}

/// Time from the rising edge of TCK to the sampling of TDO.
pub fn tdo_sample_us(tck_period_us: u32) -> (us: u32)
    ensures
        us == sample_us(tck_period_us),
        us <= high_us(tck_period_us),
{
    let half: u32 = tck_high_us(tck_period_us) / 2;
    if half == 0 {
        1
    } else {
        half
    }
}

/// The delays of one TCK cycle add up to the period, but for a period of zero,
/// which is driven as one microsecond.
pub proof fn law_cycle_takes_one_period(tck_period_us: u32)
    ensures
        sample_us(tck_period_us) + rest_us(tck_period_us) == high_us(tck_period_us),
        high_us(tck_period_us) + low_us(tck_period_us) == if tck_period_us == 0 {
            1
        } else {
            tck_period_us as int
        },
        sample_us(tck_period_us) >= 1,
        rest_us(tck_period_us) >= 0,
{
}

/// Level of the TDO line in a reading of the register of the upper inputs.
pub fn read_tdo(reading: u32) -> (high: bool)
    ensures
        high == (reading & TDO_MASK != 0),
{
    reading & TDO_MASK != 0
}

/// What to write to the multiplexer register of the TDO pin, given a reading of
/// it, so that the pin is an input; nothing if it is one.
pub fn configure_tdo_input(reading: u32) -> (write: Option<u32>)
    ensures
        write == (if reading & INPUT_ENABLE == 0 {
            Some(reading | INPUT_ENABLE)
        } else {
            None
        }),
{
    if reading & INPUT_ENABLE == 0 {
        Some(reading | INPUT_ENABLE)
    } else {
        None
    }
}

/// After it is configured, the pin is an input, and configuring it once more
/// writes nothing.
pub proof fn law_configured_pin_is_input(reading: u32)
    ensures
        (reading | INPUT_ENABLE) & INPUT_ENABLE != 0,
{
    assert((reading | 0x0000_0200u32) & 0x0000_0200u32 != 0) by (bit_vector);
}

/// Levels of the output lines.
pub struct Lines {
    pub tck: bool,
    pub tms: bool,
    pub tdi: bool,
}

/// Level of a line after lines were lowered and then others raised.
pub open spec fn level_after(before: bool, line: u32, set_mask: u32, clear_mask: u32) -> bool {
    if set_mask & line != 0 {
        true
    } else if clear_mask & line != 0 {
        false
    } else {
        before
    }
}

/// The lines after an operation.
pub open spec fn lines_after(lines: Lines, op: PinOp) -> Lines {
    let (set_mask, clear_mask) = match op {
        PinOp::SetHigh { mask } => (mask, 0u32),
        PinOp::SetLow { mask } => (0u32, mask),
        PinOp::SetPins { set_mask, clear_mask } => (set_mask, clear_mask),
        _ => (0u32, 0u32),
    };
    Lines {
        tck: level_after(lines.tck, TCK_MASK, set_mask, clear_mask),
        tms: level_after(lines.tms, TMS_MASK, set_mask, clear_mask),
        tdi: level_after(lines.tdi, TDI_MASK, set_mask, clear_mask),
    }
}

/// What a target sees: the levels of TMS and TDI at a rising edge of TCK, or
/// that its TDO is sampled.
pub enum TargetEvent {
    Clock { tms: bool, tdi: bool },
    Sample { tck: bool },
}

/// What the target sees of one operation.
pub open spec fn event_of(lines: Lines, op: PinOp) -> Seq<TargetEvent> {
    let after = lines_after(lines, op);
    if op is SampleTdo {
        seq![TargetEvent::Sample { tck: lines.tck }]
    } else if !lines.tck && after.tck {
        seq![TargetEvent::Clock { tms: after.tms, tdi: after.tdi }]
    } else {
        Seq::empty()
    }
}

/// The lines after a list of operations.
pub open spec fn lines_after_all(lines: Lines, ops: Seq<PinOp>) -> Lines
    decreases ops.len(),
{
    if ops.len() == 0 {
        lines
    } else {
        lines_after(lines_after_all(lines, ops.drop_last()), ops.last())
    }
}

/// What the target sees of a list of operations.
pub open spec fn events(lines: Lines, ops: Seq<PinOp>) -> Seq<TargetEvent>
    decreases ops.len(),
{
    if ops.len() == 0 {
        Seq::empty()
    } else {
        events(lines, ops.drop_last()) + event_of(
            lines_after_all(lines, ops.drop_last()),
            ops.last(),
        )
    }
}

/// Operations one after the other.
pub proof fn lemma_events_append(lines: Lines, first: Seq<PinOp>, second: Seq<PinOp>)
    ensures
        lines_after_all(lines, first + second) == lines_after_all(
            lines_after_all(lines, first),
            second,
        ),
        events(lines, first + second) == events(lines, first) + events(
            lines_after_all(lines, first),
            second,
        ),
    decreases second.len(),
{
    if second.len() == 0 {
        assert(first + second =~= first);
        assert(events(lines, first) + Seq::<TargetEvent>::empty() =~= events(lines, first));
    } else {
        assert((first + second).drop_last() =~= first + second.drop_last());
        lemma_events_append(lines, first, second.drop_last());
        let before = lines_after_all(lines, first + second.drop_last());
        assert(events(lines, first + second) =~= events(lines, first) + (events(
            lines_after_all(lines, first),
            second.drop_last(),
        ) + event_of(before, second.last())));
    }
}

/// One operation more.
pub proof fn lemma_events_push(lines: Lines, ops: Seq<PinOp>, op: PinOp)
    ensures
        lines_after_all(lines, ops.push(op)) == lines_after(lines_after_all(lines, ops), op),
        events(lines, ops.push(op)) == events(lines, ops) + event_of(
            lines_after_all(lines, ops),
            op,
        ),
{
    assert(ops.push(op).drop_last() =~= ops);
}

/// The masks tell the lines apart.
pub proof fn lemma_masks()
    ensures
        TCK_MASK & TCK_MASK != 0,
        TMS_MASK & TMS_MASK != 0,
        TDI_MASK & TDI_MASK != 0,
        TCK_MASK & TMS_MASK == 0,
        TCK_MASK & TDI_MASK == 0,
        TMS_MASK & TCK_MASK == 0,
        TMS_MASK & TDI_MASK == 0,
        TDI_MASK & TCK_MASK == 0,
        TDI_MASK & TMS_MASK == 0,
        0u32 & TCK_MASK == 0,
        0u32 & TMS_MASK == 0,
        0u32 & TDI_MASK == 0,
{
    assert(0x0004_0000u32 & 0x0004_0000 != 0 && 0x0080_0000u32 & 0x0080_0000 != 0 && 0x0008_0000u32
        & 0x0008_0000 != 0 && 0x0004_0000u32 & 0x0080_0000 == 0 && 0x0004_0000u32 & 0x0008_0000
        == 0 && 0x0080_0000u32 & 0x0004_0000 == 0 && 0x0080_0000u32 & 0x0008_0000 == 0
        && 0x0008_0000u32 & 0x0004_0000 == 0 && 0x0008_0000u32 & 0x0080_0000 == 0 && 0u32
        & 0x0004_0000 == 0 && 0u32 & 0x0080_0000 == 0 && 0u32 & 0x0008_0000 == 0) by (bit_vector);
}

/// An edge of TCK, with the levels of TMS and TDI at a rising one, or a sample
/// of TDO.
pub enum ClockEvent {
    Rise { tms: bool, tdi: bool },
    Sample,
    Fall,
}

/// The time that an operation lets pass. Other tasks may run for longer.
pub open spec fn time_of(op: PinOp) -> int {
    match op {
        PinOp::Delay { us } => us as int,
        _ => 0,
    }
}

/// The time that operations let pass.
pub open spec fn time_of_all(ops: Seq<PinOp>) -> int
    decreases ops.len(),
{
    if ops.len() == 0 {
        0
    } else {
        time_of_all(ops.drop_last()) + time_of(ops.last())
    }
}

/// What an operation at `now_us` does to TCK and TDO.
pub open spec fn clock_event(now_us: int, lines: Lines, op: PinOp) -> Seq<(int, ClockEvent)> {
    let after = lines_after(lines, op);
    if op is SampleTdo {
        seq![(now_us, ClockEvent::Sample)]
    } else if !lines.tck && after.tck {
        seq![(now_us, ClockEvent::Rise { tms: after.tms, tdi: after.tdi })]
    } else if lines.tck && !after.tck {
        seq![(now_us, ClockEvent::Fall)]
    } else {
        Seq::empty()
    }
}

/// The edges of TCK and the samples of TDO in a list of operations that starts at
/// `start_us`, each with its time.
pub open spec fn timeline(start_us: int, lines: Lines, ops: Seq<PinOp>) -> Seq<(int, ClockEvent)>
    decreases ops.len(),
{
    if ops.len() == 0 {
        Seq::empty()
    } else {
        timeline(start_us, lines, ops.drop_last()) + clock_event(
            start_us + time_of_all(ops.drop_last()),
            lines_after_all(lines, ops.drop_last()),
            ops.last(),
        )
    }
}

/// One operation more.
pub proof fn lemma_timeline_push(start_us: int, lines: Lines, ops: Seq<PinOp>, op: PinOp)
    ensures
        time_of_all(ops.push(op)) == time_of_all(ops) + time_of(op),
        lines_after_all(lines, ops.push(op)) == lines_after(lines_after_all(lines, ops), op),
        timeline(start_us, lines, ops.push(op)) == timeline(start_us, lines, ops) + clock_event(
            start_us + time_of_all(ops),
            lines_after_all(lines, ops),
            op,
        ),
{
    assert(ops.push(op).drop_last() =~= ops);
}

/// Operations one after the other.
pub proof fn lemma_timeline_append(
    start_us: int,
    lines: Lines,
    first: Seq<PinOp>,
    second: Seq<PinOp>,
)
    ensures
        time_of_all(first + second) == time_of_all(first) + time_of_all(second),
        lines_after_all(lines, first + second) == lines_after_all(
            lines_after_all(lines, first),
            second,
        ),
        timeline(start_us, lines, first + second) == timeline(start_us, lines, first) + timeline(
            start_us + time_of_all(first),
            lines_after_all(lines, first),
            second,
        ),
    decreases second.len(),
{
    if second.len() == 0 {
        assert(first + second =~= first);
        assert(timeline(start_us, lines, first) + Seq::<(int, ClockEvent)>::empty() =~= timeline(
            start_us,
            lines,
            first,
        ));
    } else {
        let shorter = second.drop_last();
        let middle = lines_after_all(lines, first);
        assert((first + second).drop_last() =~= first + shorter);
        lemma_timeline_append(start_us, lines, first, shorter);
        assert(timeline(start_us, lines, first + second) =~= timeline(start_us, lines, first) + (
        timeline(start_us + time_of_all(first), middle, shorter) + clock_event(
            start_us + time_of_all(first) + time_of_all(shorter),
            lines_after_all(middle, shorter),
            second.last(),
        )));
    }
}

/// TCK is high for half of its period and low for the other half, where an odd
/// microsecond goes to the high half. A period of zero is one microsecond, all
/// of it high.
pub proof fn law_clock_halves(tck_period_us: u32, high: u32, low: u32)
    requires
        call_ensures(tck_high_us, (tck_period_us,), high),
        call_ensures(tck_low_us, (tck_period_us,), low),
    ensures
        tck_period_us > 0 ==> high + low == tck_period_us,
        tck_period_us == 0 ==> high == 1 && low == 0,
        low <= high <= low + 1,
        high == high_us(tck_period_us),
        low == low_us(tck_period_us),
{
}

/// TDO is sampled halfway through the high half of TCK, rounded down, but not
/// before a microsecond has passed.
pub proof fn law_sample_lies_halfway(tck_period_us: u32, sample: u32, high: u32)
    requires
        call_ensures(tdo_sample_us, (tck_period_us,), sample),
        call_ensures(tck_high_us, (tck_period_us,), high),
    ensures
        sample >= 1,
        high >= 2 ==> 2 * sample <= high <= 2 * sample + 1,
        high == 1 ==> sample == 1,
        sample == sample_us(tck_period_us),
{
}

/// The level of TDO is the binary digit of a reading that counts four.
pub proof fn law_tdo_is_the_third_digit(reading: u32, high: bool)
    requires
        call_ensures(read_tdo, (reading,), high),
    ensures
        high <==> reading / 4 % 2 == 1,
{
    assert((reading & 0x0000_0004u32 != 0) == (reading / 4 % 2 == 1)) by (bit_vector);
}

/// A pin whose input enable, the digit that counts 512, is off has it switched
/// on and keeps all other digits; one whose input enable is on is left alone.
pub proof fn law_input_enable_is_switched_on(reading: u32, write: Option<u32>)
    requires
        call_ensures(configure_tdo_input, (reading,), write),
    ensures
        reading / 512 % 2 == 1 ==> write is None,
        reading / 512 % 2 == 0 ==> write is Some && write->0 == reading + 512,
{
    assert((reading & 0x0000_0200u32 == 0) == (reading / 512 % 2 == 0)) by (bit_vector);
    assert(reading & 0x0000_0200u32 == 0 ==> (reading | 0x0000_0200u32) == reading + 512)
        by (bit_vector);
}

/// Every output line is a single digit of the output registers: TCK counts two
/// to the eighteenth, TDI two to the nineteenth, TMS two to the twenty-third.
/// Raising a line sets its level, lowering it clears it, and a line that is
/// raised and lowered at once ends up high.
pub proof fn law_lines_follow_their_digits(before: bool, line: u32, set: u32, clear: u32)
    requires
        line == TCK_MASK || line == TDI_MASK || line == TMS_MASK,
    ensures
        TCK_MASK == 262_144,
        TDI_MASK == 524_288,
        TMS_MASK == 8_388_608,
        level_after(before, line, set, clear) == (set / line % 2 == 1 || (before && clear / line % 2
            == 0)),
{
    assert((set & 0x0004_0000u32 != 0) == (set / 0x0004_0000u32 % 2 == 1) && (set & 0x0008_0000u32
        != 0) == (set / 0x0008_0000u32 % 2 == 1) && (set & 0x0080_0000u32 != 0) == (set
        / 0x0080_0000u32 % 2 == 1)) by (bit_vector);
    assert((clear & 0x0004_0000u32 != 0) == (clear / 0x0004_0000u32 % 2 == 1) && (clear
        & 0x0008_0000u32 != 0) == (clear / 0x0008_0000u32 % 2 == 1) && (clear & 0x0080_0000u32
        != 0) == (clear / 0x0080_0000u32 % 2 == 1)) by (bit_vector);
}

} // verus!
