//! The JTAG service: clock period, and commands from publication to their end.
//!
//! A command is waited for step by step. The caller looks at the connection and
//! at the clock, calls the step, and does what it answers.

use vstd::prelude::*;

use crate::bits::bit_at;
use crate::jtag::ipc::{
    active_sequence, clear_abort, publish_outcome, publish_reset, publish_shift, request_abort,
    sequence_after, sequence_completed, signalled, ActiveCommand, Completion, Mailbox,
    MailboxState, PublishError, COMMAND_NONE, COMMAND_RESET, COMMAND_SHIFT, MIN_TCK_PERIOD_US,
    STATE_DONE,
};
use crate::jtag::shift::{JtagError, JtagShift, ShiftExecution};
use crate::time::{clamped, later};

verus! {

/// Longest TCK period.
pub const MAX_TCK_PERIOD_US: u32 = 1_000;

/// How long a TAP reset may take before it is aborted.
pub const RESET_TIMEOUT_MS: i64 = 2_000;

/// How long an aborted command may take before the device is reset.
pub const HARD_TIMEOUT_GRACE_MS: i64 = 2_000;

/// What a publisher does about a command that was not published.
#[derive(Debug, Clone, Copy, PartialEq, Eq, Structural)]
pub enum PublishFailure {
    /// Report the error.
    Report(JtagError),
    /// The pin-driving core no longer takes commands: reset the device.
    ResetDevice,
}

/// What a publisher does about a command that was not published.
pub open spec fn failure_of(error: PublishError) -> PublishFailure {
    match error {
        PublishError::Busy => PublishFailure::Report(JtagError::Busy),
        PublishError::WorkerCommandOccupied => PublishFailure::ResetDevice,
    }
}

/// What a publisher does about a command that was not published.
pub fn map_publish_error(error: PublishError) -> (failure: PublishFailure)
    ensures
        failure == failure_of(error),
{
    match error {
        PublishError::Busy => PublishFailure::Report(JtagError::Busy),
        PublishError::WorkerCommandOccupied => PublishFailure::ResetDevice,
    }
}

/// The TCK period in microseconds that a request in nanoseconds leads to: the
/// shortest whole one that is not shorter, within the limits.
pub open spec fn applied_period_us(requested_ns: u32) -> u32 {
    let whole = (requested_ns + 999) / 1_000;
    if whole < MIN_TCK_PERIOD_US {
        MIN_TCK_PERIOD_US
    } else if whole > MAX_TCK_PERIOD_US {
        MAX_TCK_PERIOD_US
    } else {
        whole as u32
    }
}

/// Nominal duration of a shift in whole milliseconds, rounded up.
pub open spec fn expected_ms(bit_count: nat, tck_period_us: u32) -> nat {
    (bit_count * tck_period_us + 999) as nat / 1_000
}

/// How long a shift may take before it is aborted.
pub open spec fn shift_timeout_ms(
    bit_count: nat,
    tck_period_us: u32,
    execution: ShiftExecution,
) -> nat {
    expected_ms(bit_count, tck_period_us) * execution.multiplier() as nat + 200
}

/// The JTAG service. It keeps the TCK period that commands are published with.
pub struct JtagService {
    tck_period_us: u32,
}

impl JtagService {
    /// The current TCK period in microseconds.
    pub closed spec fn tck(&self) -> u32 {
        self.tck_period_us
    }

    /// The period is within its limits.
    pub open spec fn wf(&self) -> bool {
        MIN_TCK_PERIOD_US <= self.tck() <= MAX_TCK_PERIOD_US
    }

    /// A service with the shortest period.
    pub fn new() -> (service: Self)
        ensures
            service.wf(),
            service.tck() == MIN_TCK_PERIOD_US,
    {
        JtagService { tck_period_us: MIN_TCK_PERIOD_US }
    }

    /// Goes back to the shortest period.
    pub fn restore_min_period(&mut self)
        ensures
            final(self).wf(),
            final(self).tck() == MIN_TCK_PERIOD_US,
    {
        self.tck_period_us = MIN_TCK_PERIOD_US;
    }

    /// Applies a requested period and returns the one that is in force.
    pub fn set_period_ns(&mut self, requested_ns: u32) -> (applied_ns: u32)
        ensures
            final(self).wf(),
            final(self).tck() == applied_period_us(requested_ns),
            applied_ns == applied_period_us(requested_ns) * 1_000,
    {
        let whole: u32 = requested_ns.saturating_add(999) / 1_000;
        self.tck_period_us = if whole < MIN_TCK_PERIOD_US {
            MIN_TCK_PERIOD_US
        } else if whole > MAX_TCK_PERIOD_US {
            MAX_TCK_PERIOD_US
        } else {
            whole
        };
        self.period_ns()
    }

    /// The period in nanoseconds.
    pub fn period_ns(&self) -> (period_ns: u32)
        requires
            self.wf(),
        ensures
            period_ns == self.tck() * 1_000,
    {
        self.tck_period_us * 1_000
    }

    /// Publishes a TAP reset and starts to wait for it.
    pub fn reset(
        &self,
        mailbox: &mut Mailbox,
        completion: &mut Completion,
        now_ms: i64,
    ) -> (started: Result<CommandWait, PublishFailure>)
        ensures
            match publish_outcome(old(mailbox)@) {
                Ok(sequence) => {
                    &&& started matches Ok(wait)
                    &&& wait.number() == sequence
                    &&& !wait.timed_out()
                    &&& wait.soft_deadline() == clamped(now_ms + RESET_TIMEOUT_MS)
                    &&& wait.hard_deadline() == clamped(
                        wait.soft_deadline() + HARD_TIMEOUT_GRACE_MS,
                    )
                    &&& final(mailbox)@ == old(mailbox)@.published(
                        COMMAND_RESET,
                        self.tck(),
                        0,
                        0,
                        0,
                        0,
                    )
                    &&& signalled(*final(completion)) is None
                },
                Err(error) => {
                    &&& started == Err::<CommandWait, PublishFailure>(failure_of(error))
                    &&& final(mailbox)@ == old(mailbox)@.refused(error, self.tck(), 0, 0, 0, 0)
                    &&& *final(completion) == *old(completion)
                },
            },
    {
        let command = match publish_reset(mailbox, completion, self.tck_period_us) {
            Ok(command) => command,
            Err(error) => {
                return Err(map_publish_error(error));
            },
        };
        let soft_deadline: i64 = later(now_ms, RESET_TIMEOUT_MS);
        let hard_deadline: i64 = later(soft_deadline, HARD_TIMEOUT_GRACE_MS);
        Ok(CommandWait { command, soft_deadline, hard_deadline, soft_timeout: false })
    }

    /// Publishes a shift, whose buffers lie at these addresses, and starts to
    /// wait for it.
    pub fn shift(
        &self,
        mailbox: &mut Mailbox,
        completion: &mut Completion,
        shift: &JtagShift<'_>,
        tms_ptr: usize,
        tdi_ptr: usize,
        tdo_ptr: usize,
        now_us: i64,
    ) -> (started: Result<CommandWait, PublishFailure>)
        requires
            self.wf(),
            shift.wf(),
            now_us + 1_000 * (shift_timeout_ms(shift.bit_count as nat, self.tck(), shift.execution)
                + HARD_TIMEOUT_GRACE_MS) <= i64::MAX,
        ensures
            match publish_outcome(old(mailbox)@) {
                Ok(sequence) => {
                    &&& started matches Ok(wait)
                    &&& wait.number() == sequence
                    &&& !wait.timed_out()
                    &&& wait.soft_deadline() == now_us + 1_000 * shift_timeout_ms(
                        shift.bit_count as nat,
                        self.tck(),
                        shift.execution,
                    )
                    &&& wait.hard_deadline() == wait.soft_deadline() + 1_000 * HARD_TIMEOUT_GRACE_MS
                    &&& final(mailbox)@ == old(mailbox)@.published(
                        COMMAND_SHIFT,
                        self.tck(),
                        shift.bit_count as u32,
                        tms_ptr,
                        tdi_ptr,
                        tdo_ptr,
                    )
                    &&& signalled(*final(completion)) is None
                },
                Err(error) => {
                    &&& started == Err::<CommandWait, PublishFailure>(failure_of(error))
                    &&& final(mailbox)@ == old(mailbox)@.refused(
                        error,
                        self.tck(),
                        shift.bit_count as u32,
                        tms_ptr,
                        tdi_ptr,
                        tdo_ptr,
                    )
                    &&& *final(completion) == *old(completion)
                },
            },
    {
        let bit_count: usize = shift.bit_count;
        let command = match publish_shift(
            mailbox,
            completion,
            self.tck_period_us,
            bit_count,
            tms_ptr,
            tdi_ptr,
            tdo_ptr,
        ) {
            Ok(command) => command,
            Err(error) => {
                return Err(map_publish_error(error));
            },
        };
        assert(bit_count as u64 * self.tck_period_us as u64 <= 0xffff_ffff * 1_000)
            by (nonlinear_arith)
            requires
                bit_count <= 0xffff_ffff,
                self.tck_period_us <= 1_000,
        ;
        let duration_us: u64 = bit_count as u64 * self.tck_period_us as u64;
        let expected: u64 = (duration_us + 999) / 1_000;
        let multiplier: u64 = shift.execution.timeout_multiplier();
        assert(expected * multiplier <= 0x3_0000_0000) by (nonlinear_arith)
            requires
                expected <= 0x1_0000_0000,
                multiplier <= 3,
        ;
        let timeout: u64 = expected * multiplier + 200;
        let soft_deadline: i64 = now_us + 1_000 * (timeout as i64);
        let hard_deadline: i64 = soft_deadline + 1_000 * HARD_TIMEOUT_GRACE_MS;
        Ok(CommandWait { command, soft_deadline, hard_deadline, soft_timeout: false })
    }

    /// Aborts the command in flight, if there is one.
    pub fn abort_and_wait(&self, mailbox: &mut Mailbox, now_ms: i64) -> (started: Option<AbortWait>)
        ensures
            started is None <==> old(mailbox)@.owner == 0,
            started is None ==> final(mailbox)@ == old(mailbox)@,
            started matches Some(wait) ==> {
                &&& wait.number() == old(mailbox)@.owner
                &&& wait.deadline() == clamped(now_ms + HARD_TIMEOUT_GRACE_MS)
                &&& final(mailbox)@ == (MailboxState { abort: true, ..old(mailbox)@ })
            },
    {
        match active_sequence(mailbox) {
            None => None,
            Some(sequence) => {
                request_abort(mailbox);
                Some(AbortWait { sequence, deadline: later(now_ms, HARD_TIMEOUT_GRACE_MS) })
            },
        }
    }
}

/// A command that is being waited for, with the clock readings at which it is
/// aborted and at which the device is reset.
pub struct CommandWait {
    command: ActiveCommand,
    soft_deadline: i64,
    hard_deadline: i64,
    soft_timeout: bool,
}

/// Result of one step of waiting.
pub enum WaitStep {
    /// Not done: yield and step again.
    Waiting(CommandWait),
    /// Done, with this result.
    Finished(Result<(), JtagError>),
    /// The pin-driving core is stuck: reset the device.
    ResetDevice,
}

/// Result that the mailbox reports for a completed command.
pub open spec fn result_of(mailbox: MailboxState) -> Result<(), JtagError> {
    if mailbox.state == STATE_DONE {
        Ok(())
    } else {
        Err(JtagError::WorkerFailed)
    }
}

impl CommandWait {
    /// Sequence number of the command.
    pub closed spec fn number(&self) -> u32 {
        self.command.number()
    }

    /// When the command is aborted.
    pub closed spec fn soft_deadline(&self) -> i64 {
        self.soft_deadline
    }

    /// When the device is reset.
    pub closed spec fn hard_deadline(&self) -> i64 {
        self.hard_deadline
    }

    /// Whether the command was aborted because of its deadline.
    pub closed spec fn timed_out(&self) -> bool {
        self.soft_timeout
    }

    /// Whether a look at the connection and at the clock leads to an abort.
    pub open spec fn aborts(&self, alive: bool, now: i64) -> bool {
        !alive || (now > self.soft_deadline() && !self.timed_out())
    }

    /// The mailbox after a look that did not find the command completed.
    pub open spec fn nudged(&self, mailbox: MailboxState, alive: bool, now: i64) -> MailboxState {
        MailboxState { abort: mailbox.abort || self.aborts(alive, now), ..mailbox }
    }

    /// One look at a published command. A completed one gives the mailbox up
    /// and reports its result. A lost connection or the soft deadline aborts
    /// the command; the hard deadline calls for a reset of the device.
    pub fn step(self, mailbox: &mut Mailbox, alive: bool, now: i64) -> (step: WaitStep)
        requires
            old(mailbox)@.owner == self.number(),
        ensures
            if old(mailbox)@.completed_sequence == self.number() {
                &&& step == WaitStep::Finished(result_of(old(mailbox)@))
                &&& final(mailbox)@ == old(mailbox)@.released()
            } else {
                &&& final(mailbox)@ == self.nudged(old(mailbox)@, alive, now)
                &&& match step {
                    WaitStep::Waiting(next) => {
                        &&& now <= self.hard_deadline()
                        &&& next.number() == self.number()
                        &&& next.soft_deadline() == self.soft_deadline()
                        &&& next.hard_deadline() == self.hard_deadline()
                        &&& next.timed_out() == (self.timed_out() || now > self.soft_deadline())
                    },
                    WaitStep::Finished(_) => false,
                    WaitStep::ResetDevice => now > self.hard_deadline(),
                }
            },
    {
        if self.command.is_complete(mailbox) {
            let succeeded: bool = self.command.finish(mailbox);
            if succeeded {
                return WaitStep::Finished(Ok(()));
            }
            return WaitStep::Finished(Err(JtagError::WorkerFailed));
        }
        if !alive {
            request_abort(mailbox);
        }
        let mut next = self;
        if now > next.soft_deadline && !next.soft_timeout {
            request_abort(mailbox);
            next.soft_timeout = true;
        }
        if now > next.hard_deadline {
            return WaitStep::ResetDevice;
        }
        WaitStep::Waiting(next)
    }

    /// As `step`, for a shift: when it succeeded, the bits of its TDO buffer
    /// that lie past the bit count are cleared.
    pub fn step_shift(
        self,
        mailbox: &mut Mailbox,
        shift: &mut JtagShift<'_>,
        alive: bool,
        now: i64,
    ) -> (step: WaitStep)
        requires
            old(mailbox)@.owner == self.number(),
            old(shift).wf(),
        ensures
            final(shift).wf(),
            final(shift).same_request(old(shift)),
            final(final(shift).tdo)@ == final(old(shift).tdo)@,
            forall|i: int|
                0 <= i < 8 * old(shift).tdo@.len() ==> #[trigger] bit_at(final(shift).tdo@, i) == (
                bit_at(old(shift).tdo@, i) && (i < old(shift).bit_count || !(step
                    == WaitStep::Finished(Ok(()))))),
            if old(mailbox)@.completed_sequence == self.number() {
                &&& step == WaitStep::Finished(result_of(old(mailbox)@))
                &&& final(mailbox)@ == old(mailbox)@.released()
            } else {
                &&& final(mailbox)@ == self.nudged(old(mailbox)@, alive, now)
                &&& match step {
                    WaitStep::Waiting(next) => {
                        &&& now <= self.hard_deadline()
                        &&& next.number() == self.number()
                        &&& next.soft_deadline() == self.soft_deadline()
                        &&& next.hard_deadline() == self.hard_deadline()
                        &&& next.timed_out() == (self.timed_out() || now > self.soft_deadline())
                    },
                    WaitStep::Finished(_) => false,
                    WaitStep::ResetDevice => now > self.hard_deadline(),
                }
            },
    {
        let step = self.step(mailbox, alive, now);
        if let WaitStep::Finished(Ok(())) = step {
            shift.clear_unused_tdo();
        }
        step
    }
}

/// Result of one step of waiting for an aborted command to end.
#[derive(Debug, Clone, Copy, PartialEq, Eq, Structural)]
pub enum AbortStep {
    /// Not done: yield and step again.
    Waiting,
    /// The command is over.
    Over,
    /// The pin-driving core is stuck: reset the device.
    ResetDevice,
}

/// A command that is being aborted, whoever published it.
pub struct AbortWait {
    sequence: u32,
    deadline: i64,
}

impl AbortWait {
    /// Sequence number of the command.
    pub closed spec fn number(&self) -> u32 {
        self.sequence
    }

    /// When the device is reset.
    pub closed spec fn deadline(&self) -> i64 {
        self.deadline
    }

    /// One look at the aborted command. When it is completed, the request to
    /// abort is withdrawn.
    pub fn step(&self, mailbox: &mut Mailbox, now_ms: i64) -> (step: AbortStep)
        ensures
            step == (if old(mailbox)@.completed_sequence == self.number() {
                AbortStep::Over
            } else if now_ms > self.deadline() {
                AbortStep::ResetDevice
            } else {
                AbortStep::Waiting
            }),
            final(mailbox)@ == (if step == AbortStep::Over {
                MailboxState { abort: false, ..old(mailbox)@ }
            } else {
                old(mailbox)@
            }),
    {
        if sequence_completed(mailbox, self.sequence) {
            clear_abort(mailbox);
            AbortStep::Over
        } else if now_ms > self.deadline {
            AbortStep::ResetDevice
        } else {
            AbortStep::Waiting
        }
    }
}

/// A command whose publisher no longer waits for its result.
pub struct CancelWait {
    command: ActiveCommand,
    deadline: i64,
}

impl CancelWait {
    /// Sequence number of the command.
    pub closed spec fn number(&self) -> u32 {
        self.command.number()
    }

    /// When the device is reset.
    pub closed spec fn deadline(&self) -> i64 {
        self.deadline
    }

    /// Aborts a command. Its buffers are in use until the cancellation is over.
    pub fn cancel(wait: CommandWait, mailbox: &mut Mailbox, now_ms: i64) -> (cancelled: CancelWait)
        ensures
            cancelled.number() == wait.number(),
            cancelled.deadline() == clamped(now_ms + HARD_TIMEOUT_GRACE_MS),
            final(mailbox)@ == (MailboxState { abort: true, ..old(mailbox)@ }),
    {
        request_abort(mailbox);
        CancelWait { command: wait.command, deadline: later(now_ms, HARD_TIMEOUT_GRACE_MS) }
    }

    /// One look at the cancelled command. When it is completed, the mailbox is
    /// given up.
    pub fn step(&self, mailbox: &mut Mailbox, now_ms: i64) -> (step: AbortStep)
        requires
            old(mailbox)@.owner == self.number(),
        ensures
            step == (if old(mailbox)@.completed_sequence == self.number() {
                AbortStep::Over
            } else if now_ms >= self.deadline() {
                AbortStep::ResetDevice
            } else {
                AbortStep::Waiting
            }),
            final(mailbox)@ == (if step == AbortStep::Over {
                old(mailbox)@.released()
            } else {
                old(mailbox)@
            }),
    {
        if self.command.is_complete(mailbox) {
            self.command.release(mailbox);
            AbortStep::Over
        } else if now_ms >= self.deadline {
            AbortStep::ResetDevice
        } else {
            AbortStep::Waiting
        }
    }
}

/// The period in force is never shorter than the requested one, unless that
/// exceeds the longest, and exceeds it by less than a microsecond, unless that
/// falls short of the shortest.
pub proof fn law_period_covers_the_request(requested_ns: u32)
    ensures
        requested_ns <= 1_000 * MAX_TCK_PERIOD_US ==> 1_000 * applied_period_us(requested_ns)
            >= requested_ns,
        requested_ns >= 1_000 * MIN_TCK_PERIOD_US ==> 1_000 * applied_period_us(requested_ns)
            < requested_ns + 1_000,
        MIN_TCK_PERIOD_US <= applied_period_us(requested_ns) <= MAX_TCK_PERIOD_US,
{
}

/// Asking for the period that is in force changes nothing.
pub proof fn law_period_is_stable(requested_ns: u32)
    ensures
        applied_period_us((1_000 * applied_period_us(requested_ns)) as u32) == applied_period_us(
            requested_ns,
        ),
{
}

/// A longer request never leads to a shorter period.
pub proof fn law_period_is_monotone(shorter_ns: u32, longer_ns: u32)
    requires
        shorter_ns <= longer_ns,
    ensures
        applied_period_us(shorter_ns) <= applied_period_us(longer_ns),
{
}

/// A shift is aborted no earlier than after twice its nominal duration.
pub proof fn law_timeout_allows_the_shift(
    bit_count: nat,
    tck_period_us: u32,
    execution: ShiftExecution,
)
    ensures
        1_000 * shift_timeout_ms(bit_count, tck_period_us, execution) >= 2 * (bit_count
            * tck_period_us) + 200_000,
{
    let expected = expected_ms(bit_count, tck_period_us);
    assert(expected * execution.multiplier() as nat >= expected * 2) by (nonlinear_arith)
        requires
            execution.multiplier() >= 2,
    ;
}

/// A lost connection aborts the command at the next look, and the abort lasts
/// until the command is completed and released.
pub proof fn law_lost_connection_aborts(wait: CommandWait, mailbox: MailboxState, now: i64)
    ensures
        wait.nudged(mailbox, false, now).abort,
        forall|alive: bool, then_now: i64| #[trigger]
            wait.nudged(wait.nudged(mailbox, false, now), alive, then_now).abort,
        !mailbox.released().abort,
{
}

/// A command that is published, taken, completed and waited for ends with the
/// result that the pin-driving core reported, and the mailbox is free again.
pub proof fn law_command_comes_back(
    mailbox: MailboxState,
    command: u32,
    tck_period_us: u32,
    bit_count: u32,
    tms_ptr: usize,
    tdi_ptr: usize,
    tdo_ptr: usize,
    succeeded: bool,
)
    requires
        publish_outcome(mailbox) is Ok,
        command != COMMAND_NONE,
    ensures
        ({
            let published = mailbox.published(
                command,
                tck_period_us,
                bit_count,
                tms_ptr,
                tdi_ptr,
                tdo_ptr,
            );
            let number = sequence_after(mailbox.next_sequence);
            let done = published.taken().completed(number, succeeded);
            &&& published.waiting() is Some
            &&& published.owner == number
            &&& done.owner == number
            &&& done.completed_sequence == number
            &&& result_of(done) == (if succeeded {
                Ok::<(), JtagError>(())
            } else {
                Err(JtagError::WorkerFailed)
            })
            &&& publish_outcome(done.released()) is Ok
        }),
{
}

/// A requested period is applied in whole microseconds: the shortest that is not
/// shorter than the request, but at least one and at most a thousand. What is
/// returned is that period.
pub proof fn law_request_is_rounded_up(
    service: &mut JtagService,
    requested_ns: u32,
    applied_ns: u32,
)
    requires
        call_ensures(JtagService::set_period_ns, (service, requested_ns), applied_ns),
    ensures
        applied_ns == 1_000 * final(service).tck(),
        1 <= final(service).tck() <= 1_000,
        requested_ns <= 1_000 ==> applied_ns == 1_000,
        1_000 <= requested_ns <= 1_000_000 ==> requested_ns <= applied_ns < requested_ns + 1_000,
        requested_ns > 1_000_000 ==> applied_ns == 1_000_000,
{
}

/// A service starts with a period of one microsecond and goes back to it, and
/// reports its period in nanoseconds.
pub proof fn law_shortest_period_is_a_microsecond(
    service: &mut JtagService,
    other: JtagService,
    period_ns: u32,
)
    ensures
        call_ensures(JtagService::new, (), other) ==> other.tck() == 1,
        call_ensures(JtagService::restore_min_period, (service,), ()) ==> final(service).tck() == 1,
        call_ensures(JtagService::period_ns, (&other,), period_ns) ==> period_ns == 1_000
            * other.tck(),
{
}

/// A shift may take its nominal duration, rounded up to whole milliseconds, twice
/// if it is buffered and three times if it is a chunk, and two hundred
/// milliseconds more.
pub proof fn law_timeout_follows_the_duration(
    bit_count: nat,
    tck_period_us: u32,
    execution: ShiftExecution,
    duration_ms: int,
)
    requires
        bit_count * tck_period_us <= 1_000 * duration_ms < bit_count * tck_period_us + 1_000,
    ensures
        execution is BufferedCommand ==> shift_timeout_ms(bit_count, tck_period_us, execution) == 2
            * duration_ms + 200,
        execution is StreamChunk ==> shift_timeout_ms(bit_count, tck_period_us, execution) == 3
            * duration_ms + 200,
{
    let us = (bit_count * tck_period_us) as int;
    assert(us >= 0) by (nonlinear_arith)
        requires
            us == bit_count * tck_period_us,
            tck_period_us >= 0,
    ;
    assert(expected_ms(bit_count, tck_period_us) == duration_ms);
}

/// A shift that is published is aborted after its time and the device is reset
/// two seconds later.
pub proof fn law_shift_has_its_deadlines(
    service: &JtagService,
    mailbox: &mut Mailbox,
    completion: &mut Completion,
    shift: &JtagShift<'_>,
    tms_ptr: usize,
    tdi_ptr: usize,
    tdo_ptr: usize,
    now_us: i64,
    started: Result<CommandWait, PublishFailure>,
    duration_ms: int,
)
    requires
        service.wf(),
        shift.wf(),
        now_us + 1_000 * (3 * duration_ms + 2_200) <= i64::MAX,
        shift.bit_count * service.tck() <= 1_000 * duration_ms < shift.bit_count * service.tck()
            + 1_000,
        mailbox@.owner == 0,
        mailbox@.command == 0,
        call_ensures(
            JtagService::shift,
            (service, mailbox, completion, shift, tms_ptr, tdi_ptr, tdo_ptr, now_us),
            started,
        ),
    ensures
        started matches Ok(wait) && {
            let after = final(mailbox)@;
            &&& wait.soft_deadline() == now_us + 1_000 * ((if shift.execution is StreamChunk {
                3 * duration_ms
            } else {
                2 * duration_ms
            }) + 200)
            &&& wait.hard_deadline() == wait.soft_deadline() + 2_000_000
            &&& !wait.timed_out()
            &&& wait.number() == after.owner == after.active_sequence
            &&& after.command == 1
            &&& after.tck_period_us == service.tck()
            &&& after.bit_count == shift.bit_count
            &&& after.tms_ptr == tms_ptr
            &&& after.tdi_ptr == tdi_ptr
            &&& after.tdo_ptr == tdo_ptr
        },
{
    law_timeout_follows_the_duration(
        shift.bit_count as nat,
        service.tck(),
        shift.execution,
        duration_ms,
    );
}

/// A TAP reset that is published is aborted after two seconds and the device is
/// reset two seconds later.
pub proof fn law_reset_has_its_deadlines(
    service: &JtagService,
    mailbox: &mut Mailbox,
    completion: &mut Completion,
    now_ms: i64,
    started: Result<CommandWait, PublishFailure>,
)
    requires
        now_ms <= i64::MAX - 4_000,
        mailbox@.owner == 0,
        mailbox@.command == 0,
        call_ensures(JtagService::reset, (service, mailbox, completion, now_ms), started),
    ensures
        started matches Ok(wait) && {
            let after = final(mailbox)@;
            &&& wait.soft_deadline() == now_ms + 2_000
            &&& wait.hard_deadline() == now_ms + 4_000
            &&& !wait.timed_out()
            &&& wait.number() == after.owner == after.active_sequence
            &&& after.command == 2
            &&& after.tck_period_us == service.tck()
        },
{
}

/// A busy mailbox is reported as busy, and one whose command was never taken
/// calls for a reset of the device.
pub proof fn law_untaken_command_resets_the_device(error: PublishError, failure: PublishFailure)
    requires
        call_ensures(map_publish_error, (error,), failure),
    ensures
        error is Busy ==> failure == PublishFailure::Report(JtagError::Busy),
        error is WorkerCommandOccupied ==> failure is ResetDevice,
{
}

/// A reset or a shift that cannot be published fails as its mailbox says: as
/// busy while the mailbox is owned, with a reset of the device while it holds a
/// command that nobody owns.
pub proof fn law_refused_commands_fail(
    service: &JtagService,
    mailbox: &mut Mailbox,
    completion: &mut Completion,
    now_ms: i64,
    started: Result<CommandWait, PublishFailure>,
)
    requires
        call_ensures(JtagService::reset, (service, mailbox, completion, now_ms), started),
    ensures
        old(mailbox)@.owner != 0 ==> started == Err::<CommandWait, PublishFailure>(
            PublishFailure::Report(JtagError::Busy),
        ),
        old(mailbox)@.owner == 0 && old(mailbox)@.command != 0 ==> started == Err::<
            CommandWait,
            PublishFailure,
        >(PublishFailure::ResetDevice),
        final(mailbox)@.command == old(mailbox)@.command || started is Ok,
        started is Ok <==> old(mailbox)@.owner == 0 && old(mailbox)@.command == 0,
{
}

/// A look at a completed command ends it with its result, success or failure of
/// the pin-driving core, and frees the mailbox, whatever the clock and the
/// connection say.
pub proof fn law_completed_command_ends(
    wait: CommandWait,
    mailbox: &mut Mailbox,
    alive: bool,
    now: i64,
    step: WaitStep,
)
    requires
        mailbox@.owner == wait.number(),
        mailbox@.completed_sequence == wait.number(),
        call_ensures(CommandWait::step, (wait, mailbox, alive, now), step),
    ensures
        old(mailbox)@.state == 2 ==> step == WaitStep::Finished(Ok(())),
        old(mailbox)@.state != 2 ==> step == WaitStep::Finished(Err(JtagError::WorkerFailed)),
        final(mailbox)@ == (MailboxState { abort: false, owner: 0, ..old(mailbox)@ }),
{
}

/// A look at a command that is not completed changes nothing in the mailbox but
/// a request to abort, which it makes if the connection is lost or if the soft
/// deadline has passed since the last look. Past the hard deadline it calls for
/// a reset of the device; before that the wait goes on.
pub proof fn law_incomplete_command_is_waited_for(
    wait: CommandWait,
    mailbox: &mut Mailbox,
    alive: bool,
    now: i64,
    step: WaitStep,
)
    requires
        mailbox@.owner == wait.number(),
        mailbox@.completed_sequence != wait.number(),
        call_ensures(CommandWait::step, (wait, mailbox, alive, now), step),
    ensures
        final(mailbox)@ == (MailboxState { abort: final(mailbox)@.abort, ..old(mailbox)@ }),
        final(mailbox)@.abort <==> old(mailbox)@.abort || !alive || (now > wait.soft_deadline()
            && !wait.timed_out()),
        now > wait.hard_deadline() ==> step is ResetDevice,
        now <= wait.hard_deadline() ==> step is Waiting && {
            let next = step->Waiting_0;
            &&& next.number() == wait.number()
            &&& next.soft_deadline() == wait.soft_deadline()
            &&& next.hard_deadline() == wait.hard_deadline()
            &&& next.timed_out() == (wait.timed_out() || now > wait.soft_deadline())
        },
{
}

/// An abort that nobody waits for gets two seconds. It is over once the command
/// is completed, which withdraws the request; past the two seconds it calls for
/// a reset of the device.
pub proof fn law_abort_is_waited_for(
    service: &JtagService,
    mailbox: &mut Mailbox,
    now_ms: i64,
    started: Option<AbortWait>,
    wait: AbortWait,
    step: AbortStep,
)
    requires
        now_ms <= i64::MAX - 2_000,
    ensures
        call_ensures(JtagService::abort_and_wait, (service, mailbox, now_ms), started) ==> {
            &&& old(mailbox)@.owner == 0 ==> started is None && final(mailbox)@ == old(mailbox)@
            &&& old(mailbox)@.owner != 0 ==> {
                &&& started is Some
                &&& started->0.number() == old(mailbox)@.owner
                &&& started->0.deadline() == now_ms + 2_000
                &&& final(mailbox)@ == (MailboxState { abort: true, ..old(mailbox)@ })
            }
        },
        call_ensures(AbortWait::step, (&wait, mailbox, now_ms), step) ==> {
            &&& old(mailbox)@.completed_sequence == wait.number() ==> step is Over
                && final(mailbox)@ == (MailboxState { abort: false, ..old(mailbox)@ })
            &&& old(mailbox)@.completed_sequence != wait.number() ==> {
                &&& final(mailbox)@ == old(mailbox)@
                &&& now_ms > wait.deadline() ==> step is ResetDevice
                &&& now_ms <= wait.deadline() ==> step is Waiting
            }
        },
{
}

/// A cancelled command gets two seconds. Its mailbox is freed once it is
/// completed; when the two seconds are over, the device is to be reset.
pub proof fn law_cancelled_command_frees_the_mailbox(
    command: CommandWait,
    mailbox: &mut Mailbox,
    now_ms: i64,
    wait: CancelWait,
    step: AbortStep,
)
    requires
        now_ms <= i64::MAX - 2_000,
    ensures
        call_ensures(CancelWait::cancel, (command, mailbox, now_ms), wait) ==> {
            &&& wait.number() == command.number()
            &&& wait.deadline() == now_ms + 2_000
            &&& final(mailbox)@ == (MailboxState { abort: true, ..old(mailbox)@ })
        },
        call_ensures(CancelWait::step, (&wait, mailbox, now_ms), step) ==> {
            &&& old(mailbox)@.completed_sequence == wait.number() ==> step is Over
                && final(mailbox)@ == (MailboxState { abort: false, owner: 0, ..old(mailbox)@ })
            &&& old(mailbox)@.completed_sequence != wait.number() ==> {
                &&& final(mailbox)@ == old(mailbox)@
                &&& now_ms >= wait.deadline() ==> step is ResetDevice
                &&& now_ms < wait.deadline() ==> step is Waiting
            }
        },
{
}

} // verus!
