//! Command transport from the serving core to the pin-driving core.
//!
//! One core publishes a command and waits for its completion; the other one
//! takes it, executes it and completes it. Every operation on the mailbox is
//! one step: the cores share it under a lock.

use embassy_sync::blocking_mutex::raw::CriticalSectionRawMutex;
use embassy_sync::signal::Signal;
use vstd::prelude::*;

verus! {

/// Shortest TCK period.
pub const MIN_TCK_PERIOD_US: u32 = 1;

/// No command is waiting.
pub const COMMAND_NONE: u32 = 0;

/// A shift is waiting.
pub const COMMAND_SHIFT: u32 = 1;

/// A TAP reset is waiting.
pub const COMMAND_RESET: u32 = 2;

/// The command was not taken yet.
pub const STATE_IDLE: u32 = 0;

/// The command is being executed.
pub const STATE_BUSY: u32 = 1;

/// The command succeeded.
pub const STATE_DONE: u32 = 2;

/// The command failed.
pub const STATE_ERROR: u32 = 3;

/// Wakes the core that waits for a completion: a slot that holds the sequence
/// number of the latest completion until it is taken.
#[verifier::external_body]
pub struct Completion {
    signal: Signal<CriticalSectionRawMutex, u32>,
}

/// The value that is waiting in the slot, if there is one.
pub uninterp spec fn signalled(completion: Completion) -> Option<u32>;

impl Completion {
    /// `Signal::new` of embassy-sync: the slot is empty.
    #[verifier::external_body]
    fn empty() -> (completion: Completion)
        ensures
            signalled(completion) is None,
    {
        Completion { signal: Signal::new() }
    }

    /// `Signal::reset` of embassy-sync: whatever was in the slot is dropped.
    #[verifier::external_body]
    fn reset(&mut self)
        ensures
            signalled(*final(self)) is None,
    {
        self.signal.reset()
    }

    /// `Signal::signal` of embassy-sync: the slot holds the value, in place of
    /// what was there, and a waiting task is woken.
    #[verifier::external_body]
    fn signal(&mut self, sequence: u32)
        ensures
            signalled(*final(self)) == Some(sequence),
    {
        self.signal.signal(sequence)
    }

    /// `Signal::try_take` of embassy-sync: the value in the slot is handed out
    /// and the slot is empty after it.
    #[verifier::external_body]
    fn try_take(&mut self) -> (value: Option<u32>)
        ensures
            value == signalled(*old(self)),
            signalled(*final(self)) is None,
    {
        self.signal.try_take()
    }

    /// No completion was signalled yet.
    pub fn new() -> (completion: Completion)
        ensures
            signalled(completion) is None,
    {
        Completion::empty()
    }
}

/// Contents of the mailbox.
pub struct MailboxState {
    /// Progress of the command.
    pub state: u32,
    /// The command that is waiting.
    pub command: u32,
    /// The last sequence number that was handed out.
    pub next_sequence: u32,
    /// Sequence number of the command that was published last.
    pub active_sequence: u32,
    /// Sequence number of the command that was completed last.
    pub completed_sequence: u32,
    /// Bits of the shift.
    pub bit_count: u32,
    /// TCK period of the command.
    pub tck_period_us: u32,
    /// Address of the TMS bytes.
    pub tms_ptr: usize,
    /// Address of the TDI bytes.
    pub tdi_ptr: usize,
    /// Address of the TDO bytes.
    pub tdo_ptr: usize,
    /// Whether the command is to be given up.
    pub abort: bool,
    /// Sequence number of the command that owns the buffers, zero if none does.
    pub owner: u32,
}

/// The mailbox that the cores share.
pub struct Mailbox {
    state: u32,
    command: u32,
    next_sequence: u32,
    active_sequence: u32,
    completed_sequence: u32,
    bit_count: u32,
    tck_period_us: u32,
    tms_ptr: usize,
    tdi_ptr: usize,
    tdo_ptr: usize,
    abort: bool,
    owner: u32,
}

impl View for Mailbox {
    type V = MailboxState;

    closed spec fn view(&self) -> MailboxState {
        MailboxState {
            state: self.state,
            command: self.command,
            next_sequence: self.next_sequence,
            active_sequence: self.active_sequence,
            completed_sequence: self.completed_sequence,
            bit_count: self.bit_count,
            tck_period_us: self.tck_period_us,
            tms_ptr: self.tms_ptr,
            tdi_ptr: self.tdi_ptr,
            tdo_ptr: self.tdo_ptr,
            abort: self.abort,
            owner: self.owner,
        }
    }
}

/// An idle mailbox that was never used.
pub open spec fn fresh_mailbox() -> MailboxState {
    MailboxState {
        state: STATE_IDLE,
        command: COMMAND_NONE,
        next_sequence: 0,
        active_sequence: 0,
        completed_sequence: 0,
        bit_count: 0,
        tck_period_us: MIN_TCK_PERIOD_US,
        tms_ptr: 0,
        tdi_ptr: 0,
        tdo_ptr: 0,
        abort: false,
        owner: 0,
    }
}

/// The sequence number that follows `last`; zero is left out.
pub open spec fn sequence_after(last: u32) -> u32 {
    if last == u32::MAX {
        1
    } else {
        (last + 1) as u32
    }
}

impl MailboxState {
    /// The mailbox after a sequence number was handed out.
    pub open spec fn numbered(self) -> MailboxState {
        MailboxState { next_sequence: sequence_after(self.next_sequence), ..self }
    }

    /// The mailbox after the parameters of a new command were written.
    pub open spec fn addressed(
        self,
        tck_period_us: u32,
        bit_count: u32,
        tms_ptr: usize,
        tdi_ptr: usize,
        tdo_ptr: usize,
    ) -> MailboxState {
        MailboxState {
            state: STATE_IDLE,
            abort: false,
            tck_period_us,
            bit_count,
            tms_ptr,
            tdi_ptr,
            tdo_ptr,
            active_sequence: sequence_after(self.next_sequence),
            ..self.numbered()
        }
    }

    /// The mailbox after a new command was published.
    pub open spec fn published(
        self,
        command: u32,
        tck_period_us: u32,
        bit_count: u32,
        tms_ptr: usize,
        tdi_ptr: usize,
        tdo_ptr: usize,
    ) -> MailboxState {
        MailboxState {
            command,
            owner: sequence_after(self.next_sequence),
            ..self.addressed(tck_period_us, bit_count, tms_ptr, tdi_ptr, tdo_ptr)
        }
    }

    /// The mailbox after a new command was refused.
    pub open spec fn refused(
        self,
        error: PublishError,
        tck_period_us: u32,
        bit_count: u32,
        tms_ptr: usize,
        tdi_ptr: usize,
        tdo_ptr: usize,
    ) -> MailboxState {
        match error {
            PublishError::Busy => self.numbered(),
            PublishError::WorkerCommandOccupied => self.addressed(
                tck_period_us,
                bit_count,
                tms_ptr,
                tdi_ptr,
                tdo_ptr,
            ),
        }
    }

    /// The mailbox after the waiting command was taken.
    pub open spec fn taken(self) -> MailboxState {
        MailboxState { command: COMMAND_NONE, state: STATE_BUSY, ..self }
    }

    /// The mailbox after a command was completed.
    pub open spec fn completed(self, sequence: u32, succeeded: bool) -> MailboxState {
        MailboxState {
            state: if succeeded {
                STATE_DONE
            } else {
                STATE_ERROR
            },
            completed_sequence: sequence,
            ..self
        }
    }

    /// The mailbox after its owner gave it up.
    pub open spec fn released(self) -> MailboxState {
        MailboxState { abort: false, owner: 0, ..self }
    }

    /// The command that the pin-driving core finds, if there is one.
    pub open spec fn waiting(self) -> Option<WorkerCommand> {
        if self.command == COMMAND_NONE {
            None
        } else if self.command == COMMAND_RESET {
            Some(
                WorkerCommand::Reset {
                    sequence: self.active_sequence,
                    tck_period_us: self.tck_period_us,
                },
            )
        } else if self.command == COMMAND_SHIFT {
            Some(
                WorkerCommand::Shift {
                    sequence: self.active_sequence,
                    tck_period_us: self.tck_period_us,
                    bit_count: self.bit_count as usize,
                    tms_ptr: self.tms_ptr,
                    tdi_ptr: self.tdi_ptr,
                    tdo_ptr: self.tdo_ptr,
                },
            )
        } else {
            Some(WorkerCommand::Invalid { sequence: self.active_sequence })
        }
    }
}

impl Mailbox {
    /// An idle mailbox.
    pub fn new() -> (mailbox: Mailbox)
        ensures
            mailbox@ == fresh_mailbox(),
    {
        Mailbox {
            state: STATE_IDLE,
            command: COMMAND_NONE,
            next_sequence: 0,
            active_sequence: 0,
            completed_sequence: 0,
            bit_count: 0,
            tck_period_us: MIN_TCK_PERIOD_US,
            tms_ptr: 0,
            tdi_ptr: 0,
            tdo_ptr: 0,
            abort: false,
            owner: 0,
        }
    }
}

/// Why a command was not published.
#[derive(Debug, Clone, Copy, PartialEq, Eq, Structural)]
pub enum PublishError {
    Busy,
    WorkerCommandOccupied,
}

/// A command that was published and that its publisher waits for.
pub struct ActiveCommand {
    sequence: u32,
}

impl ActiveCommand {
    /// Sequence number of the command.
    pub closed spec fn number(&self) -> u32 {
        self.sequence
    }

    /// Sequence number of the command.
    pub fn sequence(&self) -> (sequence: u32)
        ensures
            sequence == self.number(),
    {
        self.sequence
    }

    /// Whether the pin-driving core is done with the command.
    pub fn is_complete(&self, mailbox: &Mailbox) -> (complete: bool)
        ensures
            complete == (mailbox@.completed_sequence == self.number()),
    {
        mailbox.completed_sequence == self.sequence
    }

    /// Whether the mailbox reports success.
    pub fn succeeded(&self, mailbox: &Mailbox) -> (succeeded: bool)
        ensures
            succeeded == (mailbox@.state == STATE_DONE),
    {
        mailbox.state == STATE_DONE
    }

    /// One look while waiting: whether the wait is over, because the mailbox
    /// shows the completion or because it was signalled. A signal is taken out
    /// of its slot unless the mailbox already shows the completion.
    pub fn wait_for_completion(&self, mailbox: &Mailbox, completion: &mut Completion) -> (over:
        bool)
        ensures
            over == (mailbox@.completed_sequence == self.number() || signalled(*old(completion))
                == Some(self.number())),
            mailbox@.completed_sequence == self.number() ==> signalled(*final(completion))
                == signalled(*old(completion)),
            mailbox@.completed_sequence != self.number() ==> signalled(*final(completion)) is None,
    {
        if self.is_complete(mailbox) {
            return true;
        }
        match completion.try_take() {
            Some(sequence) => sequence == self.sequence,
            None => false,
        }
    }

    /// Gives the mailbox up and withdraws a request to abort.
    pub fn release(&self, mailbox: &mut Mailbox)
        requires
            old(mailbox)@.owner == self.number(),
        ensures
            final(mailbox)@ == old(mailbox)@.released(),
    {
        clear_abort(mailbox);
        if mailbox.owner == self.sequence {
            mailbox.owner = 0;
        }
    }

    /// Ends a completed command: reports whether it succeeded and gives the
    /// mailbox up.
    pub fn finish(self, mailbox: &mut Mailbox) -> (succeeded: bool)
        requires
            old(mailbox)@.completed_sequence == self.number(),
            old(mailbox)@.owner == self.number(),
        ensures
            succeeded == (old(mailbox)@.state == STATE_DONE),
            final(mailbox)@ == old(mailbox)@.released(),
    {
        let succeeded: bool = self.succeeded(mailbox);
        self.release(mailbox);
        succeeded
    }
}

/// A command as the pin-driving core gets it.
#[derive(Debug, Clone, Copy, PartialEq, Eq, Structural)]
pub enum WorkerCommand {
    Reset { sequence: u32, tck_period_us: u32 },
    Shift {
        sequence: u32,
        tck_period_us: u32,
        bit_count: usize,
        tms_ptr: usize,
        tdi_ptr: usize,
        tdo_ptr: usize,
    },
    Invalid { sequence: u32 },
}

/// What publishing a command leads to, given the mailbox before it.
pub open spec fn publish_outcome(before: MailboxState) -> Result<u32, PublishError> {
    if before.owner != 0 {
        Err(PublishError::Busy)
    } else if before.command != COMMAND_NONE {
        Err(PublishError::WorkerCommandOccupied)
    } else {
        Ok(sequence_after(before.next_sequence))
    }
}

/// The number of the published command, or why there is none.
pub open spec fn number_of(outcome: Result<ActiveCommand, PublishError>) -> Result<
    u32,
    PublishError,
> {
    match outcome {
        Ok(command) => Ok(command.number()),
        Err(error) => Err(error),
    }
}

/// Publishes a TAP reset.
pub fn publish_reset(
    mailbox: &mut Mailbox,
    completion: &mut Completion,
    tck_period_us: u32,
) -> (outcome: Result<ActiveCommand, PublishError>)
    ensures
        number_of(outcome) == publish_outcome(old(mailbox)@),
        outcome is Ok ==> {
            &&& final(mailbox)@ == old(mailbox)@.published(COMMAND_RESET, tck_period_us, 0, 0, 0, 0)
            &&& signalled(*final(completion)) is None
        },
        outcome matches Err(error) ==> {
            &&& final(mailbox)@ == old(mailbox)@.refused(error, tck_period_us, 0, 0, 0, 0)
            &&& *final(completion) == *old(completion)
        },
{
    publish(mailbox, completion, COMMAND_RESET, tck_period_us, 0, 0, 0, 0)
}

/// Publishes a shift over buffers at these addresses.
pub fn publish_shift(
    mailbox: &mut Mailbox,
    completion: &mut Completion,
    tck_period_us: u32,
    bit_count: usize,
    tms_ptr: usize,
    tdi_ptr: usize,
    tdo_ptr: usize,
) -> (outcome: Result<ActiveCommand, PublishError>)
    ensures
        number_of(outcome) == publish_outcome(old(mailbox)@),
        outcome is Ok ==> {
            &&& final(mailbox)@ == old(mailbox)@.published(
                COMMAND_SHIFT,
                tck_period_us,
                bit_count as u32,
                tms_ptr,
                tdi_ptr,
                tdo_ptr,
            )
            &&& signalled(*final(completion)) is None
        },
        outcome matches Err(error) ==> {
            &&& final(mailbox)@ == old(mailbox)@.refused(
                error,
                tck_period_us,
                bit_count as u32,
                tms_ptr,
                tdi_ptr,
                tdo_ptr,
            )
            &&& *final(completion) == *old(completion)
        },
{
    publish(
        mailbox,
        completion,
        COMMAND_SHIFT,
        tck_period_us,
        bit_count,
        tms_ptr,
        tdi_ptr,
        tdo_ptr,
    )
}

/// Publishes a command, unless another one owns the mailbox or the last one
/// was never taken. A number is used up either way.
pub fn publish(
    mailbox: &mut Mailbox,
    completion: &mut Completion,
    command: u32,
    tck_period_us: u32,
    bit_count: usize,
    tms_ptr: usize,
    tdi_ptr: usize,
    tdo_ptr: usize,
) -> (outcome: Result<ActiveCommand, PublishError>)
    ensures
        number_of(outcome) == publish_outcome(old(mailbox)@),
        outcome is Ok ==> {
            &&& final(mailbox)@ == old(mailbox)@.published(
                command,
                tck_period_us,
                bit_count as u32,
                tms_ptr,
                tdi_ptr,
                tdo_ptr,
            )
            &&& signalled(*final(completion)) is None
        },
        outcome matches Err(error) ==> {
            &&& final(mailbox)@ == old(mailbox)@.refused(
                error,
                tck_period_us,
                bit_count as u32,
                tms_ptr,
                tdi_ptr,
                tdo_ptr,
            )
            &&& *final(completion) == *old(completion)
        },
{
    let sequence: u32 = next_sequence(mailbox);
    if mailbox.owner != 0 {
        return Err(PublishError::Busy);
    }
    mailbox.owner = sequence;
    mailbox.state = STATE_IDLE;
    mailbox.abort = false;
    mailbox.tck_period_us = tck_period_us;
    mailbox.bit_count = #[verifier::truncate] (bit_count as u32);
    mailbox.tms_ptr = tms_ptr;
    mailbox.tdi_ptr = tdi_ptr;
    mailbox.tdo_ptr = tdo_ptr;
    mailbox.active_sequence = sequence;
    if mailbox.command != COMMAND_NONE {
        mailbox.owner = 0;
        return Err(PublishError::WorkerCommandOccupied);
    }
    mailbox.command = command;
    completion.reset();
    Ok(ActiveCommand { sequence })
}

/// Hands out the next sequence number, which is never zero.
pub fn next_sequence(mailbox: &mut Mailbox) -> (sequence: u32)
    ensures
        sequence == sequence_after(old(mailbox)@.next_sequence),
        sequence != 0,
        final(mailbox)@ == old(mailbox)@.numbered(),
{
    let mut sequence: u32 = mailbox.next_sequence.wrapping_add(1);
    if sequence == 0 {
        sequence = 1;
    }
    mailbox.next_sequence = sequence;
    sequence
}

/// Asks the pin-driving core to give its command up.
pub fn request_abort(mailbox: &mut Mailbox)
    ensures
        final(mailbox)@ == (MailboxState { abort: true, ..old(mailbox)@ }),
{
    mailbox.abort = true;
}

/// Withdraws a request to give a command up.
pub fn clear_abort(mailbox: &mut Mailbox)
    ensures
        final(mailbox)@ == (MailboxState { abort: false, ..old(mailbox)@ }),
{
    mailbox.abort = false;
}

/// Whether the command is to be given up.
pub fn abort_requested(mailbox: &Mailbox) -> (requested: bool)
    ensures
        requested == mailbox@.abort,
{
    mailbox.abort
}

/// Sequence number of the command that owns the mailbox, if one does.
pub fn active_sequence(mailbox: &Mailbox) -> (sequence: Option<u32>)
    ensures
        sequence == (if mailbox@.owner == 0 {
            None
        } else {
            Some(mailbox@.owner)
        }),
{
    if mailbox.owner == 0 {
        None
    } else {
        Some(mailbox.owner)
    }
}

/// Whether the command with this number was the last to be completed.
pub fn sequence_completed(mailbox: &Mailbox, sequence: u32) -> (completed: bool)
    ensures
        completed == (mailbox@.completed_sequence == sequence),
{
    mailbox.completed_sequence == sequence
}

/// Takes the waiting command, if there is one.
pub fn take_worker_command(mailbox: &mut Mailbox) -> (command: Option<WorkerCommand>)
    ensures
        command == old(mailbox)@.waiting(),
        final(mailbox)@ == (if command is None {
            old(mailbox)@
        } else {
            old(mailbox)@.taken()
        }),
{
    let command: u32 = mailbox.command;
    mailbox.command = COMMAND_NONE;
    if command == COMMAND_NONE {
        return None;
    }
    let sequence: u32 = mailbox.active_sequence;
    mailbox.state = STATE_BUSY;
    Some(
        if command == COMMAND_RESET {
            WorkerCommand::Reset { sequence, tck_period_us: mailbox.tck_period_us }
        } else if command == COMMAND_SHIFT {
            WorkerCommand::Shift {
                sequence,
                tck_period_us: mailbox.tck_period_us,
                bit_count: mailbox.bit_count as usize,
                tms_ptr: mailbox.tms_ptr,
                tdi_ptr: mailbox.tdi_ptr,
                tdo_ptr: mailbox.tdo_ptr,
            }
        } else {
            WorkerCommand::Invalid { sequence }
        },
    )
}

/// Reports that a command is done and wakes its publisher.
pub fn complete(mailbox: &mut Mailbox, completion: &mut Completion, sequence: u32, succeeded: bool)
    ensures
        final(mailbox)@ == old(mailbox)@.completed(sequence, succeeded),
        signalled(*final(completion)) == Some(sequence),
{
    mailbox.state = if succeeded {
        STATE_DONE
    } else {
        STATE_ERROR
    };
    mailbox.completed_sequence = sequence;
    completion.signal(sequence);
}

/// How the mailbox and the pin-driving core agree. `running` is the command
/// that this core took and has not completed.
///
/// Without an owner nothing waits and nothing runs. The owner's command is
/// waiting, running or completed, and in one of these states only.
pub open spec fn in_step(mailbox: MailboxState, running: Option<u32>) -> bool {
    if mailbox.owner == 0 {
        mailbox.command == COMMAND_NONE && running is None
    } else {
        let waits = mailbox.command != COMMAND_NONE;
        let runs = running == Some(mailbox.owner);
        let done = mailbox.completed_sequence == mailbox.owner;
        &&& mailbox.active_sequence == mailbox.owner
        &&& running is None || runs
        &&& waits ==> !runs && !done
        &&& runs ==> !done
        &&& waits || runs || done
    }
}

/// The cores start in step.
pub proof fn law_starts_in_step()
    ensures
        in_step(fresh_mailbox(), None),
{
}

/// Publishing keeps the cores in step. It fails only because another command
/// is in flight, which it leaves as it is; a command that was not consumed is
/// never met. Left out is a new number equal to that of the last completion,
/// which takes all other numbers to have been used up in between.
pub proof fn law_publishing_keeps_step(
    mailbox: MailboxState,
    running: Option<u32>,
    command: u32,
    tck_period_us: u32,
    bit_count: u32,
    tms_ptr: usize,
    tdi_ptr: usize,
    tdo_ptr: usize,
)
    requires
        in_step(mailbox, running),
        command != COMMAND_NONE,
        sequence_after(mailbox.next_sequence) != mailbox.completed_sequence,
    ensures
        publish_outcome(mailbox) is Ok <==> mailbox.owner == 0,
        publish_outcome(mailbox) is Err ==> {
            &&& publish_outcome(mailbox) == Err::<u32, PublishError>(PublishError::Busy)
            &&& in_step(mailbox.numbered(), running)
            &&& mailbox.numbered().waiting() == mailbox.waiting()
            &&& mailbox.numbered().owner == mailbox.owner
        },
        publish_outcome(mailbox) is Ok ==> in_step(
            mailbox.published(command, tck_period_us, bit_count, tms_ptr, tdi_ptr, tdo_ptr),
            running,
        ),
{
}

/// The pin-driving core gets a shift with the parameters it was published with.
pub proof fn law_shift_arrives_as_published(
    mailbox: MailboxState,
    tck_period_us: u32,
    bit_count: u32,
    tms_ptr: usize,
    tdi_ptr: usize,
    tdo_ptr: usize,
)
    ensures
        mailbox.published(
            COMMAND_SHIFT,
            tck_period_us,
            bit_count,
            tms_ptr,
            tdi_ptr,
            tdo_ptr,
        ).waiting() == Some(
            WorkerCommand::Shift {
                sequence: sequence_after(mailbox.next_sequence),
                tck_period_us,
                bit_count: bit_count as usize,
                tms_ptr,
                tdi_ptr,
                tdo_ptr,
            },
        ),
{
}

/// The pin-driving core gets a reset with the period it was published with.
pub proof fn law_reset_arrives_as_published(mailbox: MailboxState, tck_period_us: u32)
    ensures
        mailbox.published(COMMAND_RESET, tck_period_us, 0, 0, 0, 0).waiting() == Some(
            WorkerCommand::Reset {
                sequence: sequence_after(mailbox.next_sequence),
                tck_period_us,
            },
        ),
{
}

/// Taking a command keeps the cores in step: what is taken belongs to the
/// owner, and nothing is left to take.
pub proof fn law_taking_keeps_step(mailbox: MailboxState, running: Option<u32>)
    requires
        in_step(mailbox, running),
        mailbox.waiting() is Some,
    ensures
        running is None,
        in_step(mailbox.taken(), Some(mailbox.owner)),
        mailbox.taken().waiting() is None,
        mailbox.active_sequence == mailbox.owner,
{
}

/// Completing the running command keeps the cores in step, and its publisher
/// sees the completion together with the result that was reported.
pub proof fn law_completing_keeps_step(mailbox: MailboxState, sequence: u32, succeeded: bool)
    requires
        in_step(mailbox, Some(sequence)),
    ensures
        in_step(mailbox.completed(sequence, succeeded), None),
        mailbox.completed(sequence, succeeded).completed_sequence == mailbox.owner,
        mailbox.completed(sequence, succeeded).state == STATE_DONE <==> succeeded,
{
}

/// Once its publisher sees a command completed, the pin-driving core neither
/// runs it nor can still take it: the buffers are free.
pub proof fn law_completed_command_is_over(mailbox: MailboxState, running: Option<u32>)
    requires
        in_step(mailbox, running),
        mailbox.owner != 0,
        mailbox.completed_sequence == mailbox.owner,
    ensures
        running is None,
        mailbox.waiting() is None,
        in_step(mailbox.released(), running),
        publish_outcome(mailbox.released()) is Ok,
{
}

/// Before a command is completed it is waiting or running, so its publisher
/// still has to keep the buffers.
pub proof fn law_incomplete_command_is_pending(mailbox: MailboxState, running: Option<u32>)
    requires
        in_step(mailbox, running),
        mailbox.owner != 0,
        mailbox.completed_sequence != mailbox.owner,
    ensures
        mailbox.waiting() is Some || running == Some(mailbox.owner),
{
}

/// Sequence numbers count up by one; after the largest comes one.
pub proof fn law_numbers_count_up(mailbox: &mut Mailbox, sequence: u32)
    requires
        call_ensures(next_sequence, (mailbox,), sequence),
    ensures
        old(mailbox)@.next_sequence < u32::MAX ==> sequence == old(mailbox)@.next_sequence + 1,
        old(mailbox)@.next_sequence == u32::MAX ==> sequence == 1,
        final(mailbox)@ == (MailboxState { next_sequence: sequence, ..old(mailbox)@ }),
{
}

/// A command that finds the mailbox free and empty is published: the mailbox
/// holds it, its own new number and every parameter in its place, with no
/// progress, no request to abort and no completion left over.
pub proof fn law_published_command_is_complete(
    mailbox: &mut Mailbox,
    completion: &mut Completion,
    command: u32,
    tck_period_us: u32,
    bit_count: usize,
    tms_ptr: usize,
    tdi_ptr: usize,
    tdo_ptr: usize,
    outcome: Result<ActiveCommand, PublishError>,
)
    requires
        bit_count <= u32::MAX,
        mailbox@.owner == 0,
        mailbox@.command == 0,
        call_ensures(
            publish,
            (
                mailbox,
                completion,
                command,
                tck_period_us,
                bit_count,
                tms_ptr,
                tdi_ptr,
                tdo_ptr,
            ),
            outcome,
        ),
    ensures
        outcome matches Ok(active) && {
            let number = active.number();
            &&& number == (if old(mailbox)@.next_sequence == u32::MAX {
                1int
            } else {
                old(mailbox)@.next_sequence + 1
            })
            &&& final(mailbox)@ == (MailboxState {
                state: 0,
                command,
                next_sequence: number,
                active_sequence: number,
                completed_sequence: old(mailbox)@.completed_sequence,
                bit_count: bit_count as u32,
                tck_period_us,
                tms_ptr,
                tdi_ptr,
                tdo_ptr,
                abort: false,
                owner: number,
            })
            &&& signalled(*final(completion)) is None
        },
{
}

/// A mailbox that is owned refuses every command as busy and keeps all that it
/// holds, but for the number that is used up.
pub proof fn law_owned_mailbox_is_busy(
    mailbox: &mut Mailbox,
    completion: &mut Completion,
    command: u32,
    tck_period_us: u32,
    bit_count: usize,
    tms_ptr: usize,
    tdi_ptr: usize,
    tdo_ptr: usize,
    outcome: Result<ActiveCommand, PublishError>,
)
    requires
        mailbox@.owner != 0,
        call_ensures(
            publish,
            (
                mailbox,
                completion,
                command,
                tck_period_us,
                bit_count,
                tms_ptr,
                tdi_ptr,
                tdo_ptr,
            ),
            outcome,
        ),
    ensures
        outcome == Err::<ActiveCommand, PublishError>(PublishError::Busy),
        final(mailbox)@ == (MailboxState {
            next_sequence: final(mailbox)@.next_sequence,
            ..old(mailbox)@
        }),
        signalled(*final(completion)) == signalled(*old(completion)),
{
}

/// A mailbox without an owner that still holds a command refuses every other
/// one, keeps the command it holds and stays without an owner.
pub proof fn law_occupied_mailbox_keeps_its_command(
    mailbox: &mut Mailbox,
    completion: &mut Completion,
    command: u32,
    tck_period_us: u32,
    bit_count: usize,
    tms_ptr: usize,
    tdi_ptr: usize,
    tdo_ptr: usize,
    outcome: Result<ActiveCommand, PublishError>,
)
    requires
        mailbox@.owner == 0,
        mailbox@.command != 0,
        call_ensures(
            publish,
            (
                mailbox,
                completion,
                command,
                tck_period_us,
                bit_count,
                tms_ptr,
                tdi_ptr,
                tdo_ptr,
            ),
            outcome,
        ),
    ensures
        outcome == Err::<ActiveCommand, PublishError>(PublishError::WorkerCommandOccupied),
        final(mailbox)@.command == old(mailbox)@.command,
        final(mailbox)@.owner == 0,
        final(mailbox)@.completed_sequence == old(mailbox)@.completed_sequence,
        signalled(*final(completion)) == signalled(*old(completion)),
{
}

/// Every kind of command is published under its own code: a shift as one, with
/// its bits and the addresses of TMS, TDI and TDO, and a reset as two, without.
pub proof fn law_kinds_of_commands_are_told_apart(
    mailbox: &mut Mailbox,
    completion: &mut Completion,
    tck_period_us: u32,
    bit_count: usize,
    tms_ptr: usize,
    tdi_ptr: usize,
    tdo_ptr: usize,
    outcome: Result<ActiveCommand, PublishError>,
)
    requires
        bit_count <= u32::MAX,
        mailbox@.owner == 0,
        mailbox@.command == 0,
    ensures
        call_ensures(
            publish_shift,
            (mailbox, completion, tck_period_us, bit_count, tms_ptr, tdi_ptr, tdo_ptr),
            outcome,
        ) ==> {
            let after = final(mailbox)@;
            &&& outcome is Ok
            &&& after.command == 1
            &&& after.tck_period_us == tck_period_us
            &&& after.bit_count == bit_count
            &&& after.tms_ptr == tms_ptr
            &&& after.tdi_ptr == tdi_ptr
            &&& after.tdo_ptr == tdo_ptr
            &&& after.owner == after.active_sequence == after.next_sequence
        },
        call_ensures(publish_reset, (mailbox, completion, tck_period_us), outcome) ==> {
            let after = final(mailbox)@;
            &&& outcome is Ok
            &&& after.command == 2
            &&& after.tck_period_us == tck_period_us
            &&& after.bit_count == 0
            &&& after.owner == after.active_sequence == after.next_sequence
        },
{
}

/// Taking empties the mailbox, marks it busy and hands out what it held under
/// the active number: a shift with its own bits, period and addresses, a reset
/// with its period, or a command of no known kind. An empty mailbox is left
/// alone.
pub proof fn law_taken_command_is_what_was_held(
    mailbox: &mut Mailbox,
    command: Option<WorkerCommand>,
)
    requires
        call_ensures(take_worker_command, (mailbox,), command),
    ensures
        old(mailbox)@.command == 0 ==> command is None && final(mailbox)@ == old(mailbox)@,
        old(mailbox)@.command != 0 ==> final(mailbox)@ == (MailboxState {
            command: 0,
            state: 1,
            ..old(mailbox)@
        }),
        old(mailbox)@.command == 1 ==> command == Some(
            WorkerCommand::Shift {
                sequence: old(mailbox)@.active_sequence,
                tck_period_us: old(mailbox)@.tck_period_us,
                bit_count: old(mailbox)@.bit_count as usize,
                tms_ptr: old(mailbox)@.tms_ptr,
                tdi_ptr: old(mailbox)@.tdi_ptr,
                tdo_ptr: old(mailbox)@.tdo_ptr,
            },
        ),
        old(mailbox)@.command == 2 ==> command == Some(
            WorkerCommand::Reset {
                sequence: old(mailbox)@.active_sequence,
                tck_period_us: old(mailbox)@.tck_period_us,
            },
        ),
        old(mailbox)@.command > 2 ==> command == Some(
            WorkerCommand::Invalid { sequence: old(mailbox)@.active_sequence },
        ),
{
}

/// Completing a command touches its result and its number only, and the number
/// is signalled.
pub proof fn law_completion_reports_the_result(
    mailbox: &mut Mailbox,
    completion: &mut Completion,
    sequence: u32,
    succeeded: bool,
)
    requires
        call_ensures(complete, (mailbox, completion, sequence, succeeded), ()),
    ensures
        final(mailbox)@ == (MailboxState {
            state: if succeeded {
                2
            } else {
                3
            },
            completed_sequence: sequence,
            ..old(mailbox)@
        }),
        signalled(*final(completion)) == Some(sequence),
{
}

/// A publisher that ends its completed command learns its result and leaves the
/// mailbox without an owner and without a request to abort, and otherwise as it
/// was.
pub proof fn law_finished_command_frees_the_mailbox(
    command: ActiveCommand,
    mailbox: &mut Mailbox,
    succeeded: bool,
)
    requires
        mailbox@.completed_sequence == command.number(),
        mailbox@.owner == command.number(),
        call_ensures(ActiveCommand::finish, (command, mailbox), succeeded),
    ensures
        succeeded <==> old(mailbox)@.state == 2,
        final(mailbox)@ == (MailboxState { abort: false, owner: 0, ..old(mailbox)@ }),
{
}

/// A publisher sees a command as complete when the last completion carries its
/// number, and as successful when the mailbox says so. A signal with its number
/// ends a wait too.
pub proof fn law_completion_is_seen_by_number(
    command: ActiveCommand,
    mailbox: Mailbox,
    completion: &mut Completion,
    seen: bool,
)
    ensures
        call_ensures(ActiveCommand::is_complete, (&command, &mailbox), seen) ==> (seen
            <==> mailbox@.completed_sequence == command.number()),
        call_ensures(ActiveCommand::succeeded, (&command, &mailbox), seen) ==> (seen
            <==> mailbox@.state == 2),
        call_ensures(ActiveCommand::wait_for_completion, (&command, &mailbox, completion), seen)
            ==> (seen <==> mailbox@.completed_sequence == command.number() || signalled(
            *old(completion),
        ) == Some(command.number())),
        call_ensures(sequence_completed, (&mailbox, command.number()), seen) ==> (seen
            <==> mailbox@.completed_sequence == command.number()),
{
}

/// A request to abort is what the pin-driving core is told, until it is
/// withdrawn; neither touches anything else.
pub proof fn law_abort_is_told(mailbox: &mut Mailbox, other: Mailbox, requested: bool)
    ensures
        call_ensures(request_abort, (mailbox,), ()) ==> final(mailbox)@ == (MailboxState {
            abort: true,
            ..old(mailbox)@
        }),
        call_ensures(clear_abort, (mailbox,), ()) ==> final(mailbox)@ == (MailboxState {
            abort: false,
            ..old(mailbox)@
        }),
        call_ensures(abort_requested, (&other,), requested) ==> requested == other@.abort,
{
}

/// A mailbox has an active command exactly if its owner is not zero, and then
/// the owner is its number.
pub proof fn law_owner_is_the_active_command(mailbox: Mailbox, sequence: Option<u32>)
    requires
        call_ensures(active_sequence, (&mailbox,), sequence),
    ensures
        sequence is None <==> mailbox@.owner == 0,
        sequence matches Some(number) ==> number == mailbox@.owner,
{
}

/// A new mailbox is free and empty, and has handed out and completed nothing.
pub proof fn law_new_mailbox_is_free(mailbox: Mailbox)
    requires
        call_ensures(Mailbox::new, (), mailbox),
    ensures
        mailbox@.state == 0,
        mailbox@.command == 0,
        mailbox@.owner == 0,
        mailbox@.next_sequence == 0,
        mailbox@.active_sequence == 0,
        mailbox@.completed_sequence == 0,
        mailbox@.tck_period_us == 1,
        !mailbox@.abort,
{
}

} // verus!
