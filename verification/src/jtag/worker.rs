//! The loop of the pin-driving core.

use vstd::prelude::*;

use crate::bits::{byte_len, bytes_for_bits};
use crate::jtag::ipc::{
    complete, in_step, signalled, take_worker_command, Completion, Mailbox, MailboxState,
    WorkerCommand,
};
use crate::jtag::scan::ShiftBits;
use crate::jtag::tap::ResetTap;

verus! {

/// Looks at an empty mailbox before the core starts to sleep between them.
pub const IDLE_SPINS: u32 = 200;

/// How long the core sleeps between two looks.
pub const IDLE_SLEEP_MS: u32 = 1;

/// What the pin-driving core does next.
#[derive(Debug, Clone, Copy, PartialEq, Eq, Structural)]
pub enum WorkerAction {
    /// Nothing waits: let other tasks run.
    Yield,
    /// Nothing has waited for a while: sleep.
    Sleep { ms: u32 },
    /// Reset the TAP and report to `finish_reset`.
    Reset { sequence: u32, tck_period_us: u32 },
    /// Drive a shift over buffers of `byte_count` bytes and report to
    /// `finish_shift`.
    Shift {
        sequence: u32,
        tck_period_us: u32,
        bit_count: usize,
        byte_count: usize,
        tms_ptr: usize,
        tdi_ptr: usize,
        tdo_ptr: usize,
    },
    /// The command was of no known kind and is completed as failed.
    Rejected,
}

/// What an idle core does after it found the mailbox empty `spins` times.
pub open spec fn idle_action(spins: nat) -> WorkerAction {
    if spins < IDLE_SPINS {
        WorkerAction::Yield
    } else {
        WorkerAction::Sleep { ms: IDLE_SLEEP_MS }
    }
}

/// What the core does about a command that it took.
pub open spec fn action_for(command: WorkerCommand) -> WorkerAction {
    match command {
        WorkerCommand::Reset { sequence, tck_period_us } => WorkerAction::Reset {
            sequence,
            tck_period_us,
        },
        WorkerCommand::Shift { sequence, tck_period_us, bit_count, tms_ptr, tdi_ptr, tdo_ptr } =>
        WorkerAction::Shift {
            sequence,
            tck_period_us,
            bit_count,
            byte_count: byte_len(bit_count as nat) as usize,
            tms_ptr,
            tdi_ptr,
            tdo_ptr,
        },
        WorkerCommand::Invalid { .. } => WorkerAction::Rejected,
    }
}

/// Sequence number of a command.
pub open spec fn number_of(command: WorkerCommand) -> u32 {
    match command {
        WorkerCommand::Reset { sequence, .. } => sequence,
        WorkerCommand::Shift { sequence, .. } => sequence,
        WorkerCommand::Invalid { sequence } => sequence,
    }
}

/// A command that was completed, and the result that was reported for it.
pub struct Completed {
    pub command: WorkerCommand,
    pub sequence: u32,
    pub succeeded: bool,
}

/// What the core has taken and completed.
pub struct WorkerLog {
    /// Commands taken from the mailbox, in order.
    pub taken: Seq<WorkerCommand>,
    /// Completions reported to the mailbox, in order.
    pub completed: Seq<Completed>,
}

/// The pin-driving core.
pub struct Worker {
    idle_spins: u32,
    running: Option<WorkerCommand>,
    log: Ghost<WorkerLog>,
}

impl Worker {
    /// How many times in a row the mailbox was found empty, up to the number at
    /// which the core starts to sleep.
    pub closed spec fn spins(&self) -> nat {
        self.idle_spins as nat
    }

    /// The command that was taken and is not completed, if there is one.
    pub closed spec fn running(&self) -> Option<WorkerCommand> {
        self.running
    }

    /// Commands taken so far.
    pub closed spec fn taken(&self) -> Seq<WorkerCommand> {
        self.log@.taken
    }

    /// Completions reported so far.
    pub closed spec fn completed(&self) -> Seq<Completed> {
        self.log@.completed
    }

    /// Completions are those of the commands that were taken, but for the one
    /// that is running.
    pub closed spec fn wf(&self) -> bool {
        let taken = self.log@.taken;
        let completed = self.log@.completed;
        &&& match self.running {
            None => taken.len() == completed.len(),
            Some(command) => {
                &&& taken.len() == completed.len() + 1
                &&& taken.last() == command
                &&& !(command is Invalid)
            },
        }
        &&& forall|i: int|
            0 <= i < completed.len() ==> (#[trigger] completed[i]).command == taken[i]
                && completed[i].sequence == number_of(taken[i]) && (taken[i] is Invalid
                ==> !completed[i].succeeded)
    }

    /// Every command that was taken is completed exactly once, in order and with
    /// its own number, but for the one that is running; one of no known kind is
    /// completed as failed.
    pub proof fn law_commands_are_completed_once(&self)
        requires
            self.wf(),
        ensures
            self.running() is None ==> self.completed().len() == self.taken().len(),
            self.running() matches Some(command) ==> self.completed().len() + 1
                == self.taken().len() && self.taken().last() == command,
            forall|i: int|
                0 <= i < self.completed().len() ==> (#[trigger] self.completed()[i]).command
                    == self.taken()[i] && self.completed()[i].sequence == number_of(
                    self.taken()[i],
                ) && (self.taken()[i] is Invalid ==> !self.completed()[i].succeeded),
    {
    }

    /// A core that has not looked yet.
    pub fn new() -> (worker: Self)
        ensures
            worker.wf(),
            worker.spins() == 0,
            worker.running() is None,
            worker.taken() == Seq::<WorkerCommand>::empty(),
            worker.completed() == Seq::<Completed>::empty(),
    {
        Worker {
            idle_spins: 0,
            running: None,
            log: Ghost(WorkerLog { taken: Seq::empty(), completed: Seq::empty() }),
        }
    }

    /// One look at the mailbox by a core that runs no command.
    pub fn poll(&mut self, mailbox: &mut Mailbox, completion: &mut Completion) -> (action:
        WorkerAction)
        requires
            old(self).wf(),
            old(self).running() is None,
        ensures
            final(self).wf(),
            match old(mailbox)@.waiting() {
                None => {
                    &&& action == idle_action(old(self).spins())
                    &&& final(self).spins() == old(self).spins() + (if action is Yield {
                        1int
                    } else {
                        0int
                    })
                    &&& final(self).running() is None
                    &&& final(self).taken() == old(self).taken()
                    &&& final(self).completed() == old(self).completed()
                    &&& final(mailbox)@ == old(mailbox)@
                    &&& *final(completion) == *old(completion)
                },
                Some(command) => {
                    &&& action == action_for(command)
                    &&& final(self).spins() == 0
                    &&& final(self).taken() == old(self).taken().push(command)
                    &&& match command {
                        WorkerCommand::Invalid { sequence } => {
                            &&& final(self).running() is None
                            &&& final(self).completed() == old(self).completed().push(
                                Completed { command, sequence, succeeded: false },
                            )
                            &&& final(mailbox)@ == old(mailbox)@.taken().completed(sequence, false)
                            &&& signalled(*final(completion)) == Some(sequence)
                        },
                        _ => {
                            &&& final(self).running() == Some(command)
                            &&& final(self).completed() == old(self).completed()
                            &&& final(mailbox)@ == old(mailbox)@.taken()
                            &&& *final(completion) == *old(completion)
                        },
                    }
                },
            },
    {
        let command = match take_worker_command(mailbox) {
            Some(command) => command,
            None => {
                if self.idle_spins < IDLE_SPINS {
                    self.idle_spins = self.idle_spins + 1;
                    return WorkerAction::Yield;
                }
                return WorkerAction::Sleep { ms: IDLE_SLEEP_MS };
            },
        };
        self.idle_spins = 0;
        self.log = Ghost(
            WorkerLog { taken: self.log@.taken.push(command), completed: self.log@.completed },
        );
        match command {
            WorkerCommand::Reset { sequence, tck_period_us } => {
                self.running = Some(command);
                WorkerAction::Reset { sequence, tck_period_us }
            },
            WorkerCommand::Shift {
                sequence,
                tck_period_us,
                bit_count,
                tms_ptr,
                tdi_ptr,
                tdo_ptr,
            } => {
                self.running = Some(command);
                WorkerAction::Shift {
                    sequence,
                    tck_period_us,
                    bit_count,
                    byte_count: bytes_for_bits(bit_count),
                    tms_ptr,
                    tdi_ptr,
                    tdo_ptr,
                }
            },
            WorkerCommand::Invalid { sequence } => {
                self.report(mailbox, completion, Ghost(command), sequence, false);
                WorkerAction::Rejected
            },
        }
    }

    /// Completes the command that was taken last.
    fn report(
        &mut self,
        mailbox: &mut Mailbox,
        completion: &mut Completion,
        command: Ghost<WorkerCommand>,
        sequence: u32,
        succeeded: bool,
    )
        requires
            old(self).log@.taken.len() == old(self).log@.completed.len() + 1,
            old(self).log@.taken.last() == command@,
            sequence == number_of(command@),
            command@ is Invalid ==> !succeeded,
            forall|i: int|
                0 <= i < old(self).log@.completed.len() ==> (#[trigger] old(
                    self,
                ).log@.completed[i]).command == old(self).log@.taken[i] && old(
                    self,
                ).log@.completed[i].sequence == number_of(old(self).log@.taken[i]) && (old(
                    self,
                ).log@.taken[i] is Invalid ==> !old(self).log@.completed[i].succeeded),
        ensures
            final(self).wf(),
            final(self).running() is None,
            final(self).spins() == old(self).spins(),
            final(self).taken() == old(self).taken(),
            final(self).completed() == old(self).completed().push(
                Completed { command: command@, sequence, succeeded },
            ),
            final(mailbox)@ == old(mailbox)@.completed(sequence, succeeded),
            signalled(*final(completion)) == Some(sequence),
    {
        complete(mailbox, completion, sequence, succeeded);
        self.running = None;
        self.log = Ghost(
            WorkerLog {
                taken: self.log@.taken,
                completed: self.log@.completed.push(
                    Completed { command: command@, sequence, succeeded },
                ),
            },
        );
    }

    /// Completes a TAP reset with the result of its waveform, which is over.
    pub fn finish_reset(
        &mut self,
        mailbox: &mut Mailbox,
        completion: &mut Completion,
        reset: &ResetTap,
    )
        requires
            old(self).wf(),
            old(self).running() matches Some(WorkerCommand::Reset { tck_period_us, .. })
                && reset.period() == tck_period_us,
            reset.is_aborted() || reset.remaining().len() == 0,
        ensures
            final(self).wf(),
            final(self).running() is None,
            final(self).spins() == old(self).spins(),
            final(self).taken() == old(self).taken(),
            old(self).running() matches Some(command) ==> {
                &&& final(self).completed() == old(self).completed().push(
                    Completed {
                        command,
                        sequence: number_of(command),
                        succeeded: !reset.is_aborted(),
                    },
                )
                &&& final(mailbox)@ == old(mailbox)@.completed(
                    number_of(command),
                    !reset.is_aborted(),
                )
                &&& signalled(*final(completion)) == Some(number_of(command))
            },
    {
        let succeeded: bool = !reset.aborted();
        if let Some(WorkerCommand::Reset { sequence, tck_period_us }) = self.running {
            let ghost command = WorkerCommand::Reset { sequence, tck_period_us };
            self.report(mailbox, completion, Ghost(command), sequence, succeeded);
        }
    }

    /// Completes a shift with the result of its waveform, which is over.
    pub fn finish_shift(
        &mut self,
        mailbox: &mut Mailbox,
        completion: &mut Completion,
        shift: &ShiftBits<'_>,
    )
        requires
            old(self).wf(),
            old(self).running() matches Some(
                WorkerCommand::Shift { tck_period_us, bit_count, .. },
            ) && shift.plan().tck_period_us == tck_period_us && shift.plan().bits == bit_count,
            shift.is_aborted() || shift.remaining().len() == 0,
        ensures
            final(self).wf(),
            final(self).running() is None,
            final(self).spins() == old(self).spins(),
            final(self).taken() == old(self).taken(),
            old(self).running() matches Some(command) ==> {
                &&& final(self).completed() == old(self).completed().push(
                    Completed {
                        command,
                        sequence: number_of(command),
                        succeeded: !shift.is_aborted(),
                    },
                )
                &&& final(mailbox)@ == old(mailbox)@.completed(
                    number_of(command),
                    !shift.is_aborted(),
                )
                &&& signalled(*final(completion)) == Some(number_of(command))
            },
    {
        let succeeded: bool = !shift.aborted();
        if let Some(
            WorkerCommand::Shift { sequence, tck_period_us, bit_count, tms_ptr, tdi_ptr, tdo_ptr },
        ) = self.running {
            let ghost command = WorkerCommand::Shift {
                sequence,
                tck_period_us,
                bit_count,
                tms_ptr,
                tdi_ptr,
                tdo_ptr,
            };
            self.report(mailbox, completion, Ghost(command), sequence, succeeded);
        }
    }
}

/// A command that waits in a mailbox in step carries the number of the owner.
/// Taken and completed under that number, it is over for both cores: the owner
/// sees its own completion with the result that was reported, and there is
/// nothing left to take or to complete.
pub proof fn law_taken_command_is_completed(mailbox: MailboxState, succeeded: bool)
    requires
        in_step(mailbox, None),
        mailbox.waiting() is Some,
    ensures
        mailbox.waiting() matches Some(command) ==> {
            let number = number_of(command);
            let done = mailbox.taken().completed(number, succeeded);
            &&& number == mailbox.owner
            &&& mailbox.completed_sequence != number
            &&& in_step(mailbox.taken(), Some(number))
            &&& mailbox.taken().waiting() is None
            &&& in_step(done, None)
            &&& done.completed_sequence == mailbox.owner
            &&& done.waiting() is None
        },
        mailbox.waiting() matches Some(WorkerCommand::Shift { bit_count, .. }) ==> action_for(
            mailbox.waiting()->0,
        )->byte_count == byte_len(bit_count as nat),
{
}

/// The pin-driving core drives a shift exactly as the mailbox holds it: under
/// its number, with its period and bits, the bytes that these take, TMS from the
/// address of TMS, TDI from that of TDI, and TDO to that of TDO.
pub proof fn law_shift_is_driven_as_held(
    worker: &mut Worker,
    mailbox: &mut Mailbox,
    completion: &mut Completion,
    action: WorkerAction,
)
    requires
        worker.wf(),
        worker.running() is None,
        mailbox@.command == 1,
        call_ensures(Worker::poll, (worker, mailbox, completion), action),
    ensures
        action == (WorkerAction::Shift {
            sequence: old(mailbox)@.active_sequence,
            tck_period_us: old(mailbox)@.tck_period_us,
            bit_count: old(mailbox)@.bit_count as usize,
            byte_count: ((old(mailbox)@.bit_count + 7) / 8) as usize,
            tms_ptr: old(mailbox)@.tms_ptr,
            tdi_ptr: old(mailbox)@.tdi_ptr,
            tdo_ptr: old(mailbox)@.tdo_ptr,
        }),
        final(mailbox)@ == (MailboxState { command: 0, state: 1, ..old(mailbox)@ }),
        final(worker).spins() == 0,
        signalled(*final(completion)) == signalled(*old(completion)),
{
}

/// The pin-driving core resets the TAP under the number and with the period that
/// the mailbox holds.
pub proof fn law_reset_is_driven_as_held(
    worker: &mut Worker,
    mailbox: &mut Mailbox,
    completion: &mut Completion,
    action: WorkerAction,
)
    requires
        worker.wf(),
        worker.running() is None,
        mailbox@.command == 2,
        call_ensures(Worker::poll, (worker, mailbox, completion), action),
    ensures
        action == (WorkerAction::Reset {
            sequence: old(mailbox)@.active_sequence,
            tck_period_us: old(mailbox)@.tck_period_us,
        }),
        final(mailbox)@ == (MailboxState { command: 0, state: 1, ..old(mailbox)@ }),
        final(worker).spins() == 0,
        signalled(*final(completion)) == signalled(*old(completion)),
{
}

/// A command of no known kind is completed as failed under its own number.
pub proof fn law_unknown_command_fails(
    worker: &mut Worker,
    mailbox: &mut Mailbox,
    completion: &mut Completion,
    action: WorkerAction,
)
    requires
        worker.wf(),
        worker.running() is None,
        mailbox@.command > 2,
        call_ensures(Worker::poll, (worker, mailbox, completion), action),
    ensures
        action is Rejected,
        final(mailbox)@ == (MailboxState {
            command: 0,
            state: 3,
            completed_sequence: old(mailbox)@.active_sequence,
            ..old(mailbox)@
        }),
        signalled(*final(completion)) == Some(old(mailbox)@.active_sequence),
        final(worker).running() is None,
        final(worker).spins() == 0,
{
}

/// A core that finds nothing lets other tasks run for two hundred looks in a
/// row, and from then on sleeps for a millisecond between two looks.
pub proof fn law_idle_core_comes_to_rest(
    worker: &mut Worker,
    mailbox: &mut Mailbox,
    completion: &mut Completion,
    action: WorkerAction,
)
    requires
        worker.wf(),
        worker.running() is None,
        mailbox@.command == 0,
        call_ensures(Worker::poll, (worker, mailbox, completion), action),
    ensures
        old(worker).spins() < 200 ==> action is Yield && final(worker).spins() == old(
            worker,
        ).spins() + 1,
        old(worker).spins() >= 200 ==> action == (WorkerAction::Sleep { ms: 1 })
            && final(worker).spins() == old(worker).spins(),
        final(mailbox)@ == old(mailbox)@,
        final(worker).running() is None,
{
}

/// A shift that is published into a free mailbox is what the pin-driving core
/// finds there and drives, with every parameter in its place.
pub proof fn law_published_shift_is_driven(
    mailbox: MailboxState,
    tck_period_us: u32,
    bit_count: u32,
    tms_ptr: usize,
    tdi_ptr: usize,
    tdo_ptr: usize,
    sequence: u32,
)
    requires
        sequence == (if mailbox.next_sequence == u32::MAX {
            1int
        } else {
            mailbox.next_sequence + 1
        }),
    ensures
        mailbox.published(1, tck_period_us, bit_count, tms_ptr, tdi_ptr, tdo_ptr).waiting()
            matches Some(command) && action_for(command) == (WorkerAction::Shift {
            sequence,
            tck_period_us,
            bit_count: bit_count as usize,
            byte_count: ((bit_count + 7) / 8) as usize,
            tms_ptr,
            tdi_ptr,
            tdo_ptr,
        }),
{
}

/// A reset that is published into a free mailbox is what the pin-driving core
/// finds there and drives, with its period.
pub proof fn law_published_reset_is_driven(
    mailbox: MailboxState,
    tck_period_us: u32,
    sequence: u32,
)
    requires
        sequence == (if mailbox.next_sequence == u32::MAX {
            1int
        } else {
            mailbox.next_sequence + 1
        }),
    ensures
        mailbox.published(2, tck_period_us, 0, 0, 0, 0).waiting() matches Some(command)
            && action_for(command) == (WorkerAction::Reset { sequence, tck_period_us }),
{
}

/// A reset that is over is completed under the number it was taken with, and
/// counts as successful unless it was aborted.
pub proof fn law_reset_is_completed_with_its_result(
    worker: &mut Worker,
    mailbox: &mut Mailbox,
    completion: &mut Completion,
    reset: &ResetTap,
    sequence: u32,
    tck_period_us: u32,
)
    requires
        worker.wf(),
        worker.running() == Some(WorkerCommand::Reset { sequence, tck_period_us }),
        call_ensures(Worker::finish_reset, (worker, mailbox, completion, reset), ()),
    ensures
        final(worker).running() is None,
        final(mailbox)@ == (MailboxState {
            state: if reset.is_aborted() {
                3
            } else {
                2
            },
            completed_sequence: sequence,
            ..old(mailbox)@
        }),
        signalled(*final(completion)) == Some(sequence),
{
}

/// A shift that is over is completed under the number it was taken with, and
/// counts as successful unless it was aborted.
pub proof fn law_shift_is_completed_with_its_result(
    worker: &mut Worker,
    mailbox: &mut Mailbox,
    completion: &mut Completion,
    shift: &ShiftBits<'_>,
    command: WorkerCommand,
)
    requires
        worker.wf(),
        worker.running() == Some(command),
        command is Shift,
        call_ensures(Worker::finish_shift, (worker, mailbox, completion, shift), ()),
    ensures
        final(worker).running() is None,
        final(mailbox)@ == (MailboxState {
            state: if shift.is_aborted() {
                3
            } else {
                2
            },
            completed_sequence: command->Shift_sequence,
            ..old(mailbox)@
        }),
        signalled(*final(completion)) == Some(command->Shift_sequence),
{
}

} // verus!
