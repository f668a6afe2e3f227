//! Reading from and writing to the client, with a limit on the time that passes
//! without progress.

use vstd::prelude::*;

use crate::time::{clamped, elapsed};
use crate::xvc::error::{StreamError, TransportError};

verus! {

/// Longest wait for bytes from the client.
pub const RECEIVE_PROGRESS_TIMEOUT_MS: i64 = 30_000;

/// Longest wait for the client to take bytes of a reply.
pub const SEND_PROGRESS_TIMEOUT_MS: i64 = 10_000;

/// Longest wait for the client to take TDO bytes of a streamed shift.
pub const STREAM_PROGRESS_TIMEOUT_MS: i64 = 30_000;

/// Longest wait for the end of a connection to be sent.
pub const ABORT_FLUSH_TIMEOUT_MS: i64 = 1_000;

/// Whether a session can go on: bytes can flow both ways.
pub fn session_alive(may_receive: bool, may_send: bool) -> (alive: bool)
    ensures
        alive == (may_receive && may_send),
{
    may_receive && may_send
}

/// Result of a socket operation that was given a limited time.
#[derive(Debug, Clone, Copy, PartialEq, Eq, Structural)]
pub enum IoOutcome {
    /// This many bytes were transferred; none means that the peer is done.
    Transferred(usize),
    /// The socket reported an error.
    Failed,
    /// The time was up.
    TimedOut,
}

/// What the caller does about a socket operation.
#[derive(Debug, Clone, Copy, PartialEq, Eq, Structural)]
pub enum IoStep {
    /// The socket is ready: transfer.
    Transfer,
    /// Let the network run and look again.
    Wait,
    /// The operation is over without a transfer.
    Over(IoOutcome),
}

/// A socket operation that waits until the socket is ready.
pub struct IoWait {
    started_ms: i64,
    timeout_ms: i64,
}

impl IoWait {
    /// When the wait began.
    pub closed spec fn started(&self) -> i64 {
        self.started_ms
    }

    /// How long it may last.
    pub closed spec fn timeout(&self) -> i64 {
        self.timeout_ms
    }

    /// Starts to wait for at most `timeout_ms`.
    pub fn new(now_ms: i64, timeout_ms: i64) -> (wait: Self)
        ensures
            wait.started() == now_ms,
            wait.timeout() == timeout_ms,
    {
        IoWait { started_ms: now_ms, timeout_ms }
    }

    /// One look at the socket: whether it is ready, and whether it can become
    /// so. Readiness comes before the end of the connection, and that before
    /// the end of the time.
    pub fn step(&self, ready: bool, open: bool, now_ms: i64) -> (step: IoStep)
        ensures
            step == (if ready {
                IoStep::Transfer
            } else if !open {
                IoStep::Over(IoOutcome::Failed)
            } else if clamped(now_ms - self.started()) >= self.timeout() {
                IoStep::Over(IoOutcome::TimedOut)
            } else {
                IoStep::Wait
            }),
    {
        if ready {
            IoStep::Transfer
        } else if !open {
            IoStep::Over(IoOutcome::Failed)
        } else if elapsed(now_ms, self.started_ms) >= self.timeout_ms {
            IoStep::Over(IoOutcome::TimedOut)
        } else {
            IoStep::Wait
        }
    }
}

/// What a socket operation amounts to.
pub open spec fn progress_of(outcome: IoOutcome) -> Result<usize, TransportError> {
    match outcome {
        IoOutcome::Transferred(count) => if count == 0 {
            Err(TransportError::Disconnected)
        } else {
            Ok(count)
        },
        IoOutcome::Failed => Err(TransportError::Disconnected),
        IoOutcome::TimedOut => Err(TransportError::Timeout),
    }
}

/// What a read amounts to: the number of bytes, which is not zero, or an error.
pub fn read_progress(outcome: IoOutcome) -> (progress: Result<usize, TransportError>)
    ensures
        progress == progress_of(outcome),
{
    match outcome {
        IoOutcome::Transferred(count) => {
            if count == 0 {
                Err(TransportError::Disconnected)
            } else {
                Ok(count)
            }
        },
        IoOutcome::Failed => Err(TransportError::Disconnected),
        IoOutcome::TimedOut => Err(TransportError::Timeout),
    }
}

/// What the caller does to send all of a buffer.
#[derive(Debug, Clone, Copy, PartialEq, Eq)]
pub enum WriteStep {
    /// Write from this position on and report the outcome.
    Write { from: usize },
    /// All was written, or why not.
    Over(Result<(), TransportError>),
}

/// The sending of all of a buffer.
pub struct WriteAll {
    length: usize,
    sent: usize,
}

impl WriteAll {
    /// Bytes of the buffer.
    pub closed spec fn total(&self) -> nat {
        self.length as nat
    }

    /// Bytes written so far.
    pub closed spec fn written(&self) -> nat {
        self.sent as nat
    }

    /// No more was written than there is, and that is no more than a buffer can
    /// hold.
    pub open spec fn wf(&self) -> bool {
        self.written() <= self.total() <= usize::MAX
    }

    /// The step that follows from what was written.
    pub open spec fn due(&self) -> WriteStep {
        if self.written() < self.total() {
            WriteStep::Write { from: self.written() as usize }
        } else {
            WriteStep::Over(Ok(()))
        }
    }

    /// Starts to send a buffer of `length` bytes.
    pub fn start(length: usize) -> (started: (Self, WriteStep))
        ensures
            started.0.wf(),
            started.0.total() == length,
            started.0.written() == 0,
            started.1 == started.0.due(),
    {
        let write = WriteAll { length, sent: 0 };
        let step = write.next();
        (write, step)
    }

    /// The step that follows from what was written.
    fn next(&self) -> (step: WriteStep)
        ensures
            step == self.due(),
    {
        if self.sent < self.length {
            WriteStep::Write { from: self.sent }
        } else {
            WriteStep::Over(Ok(()))
        }
    }

    /// Takes note of a write of what was left.
    pub fn wrote(&mut self, outcome: IoOutcome) -> (step: WriteStep)
        requires
            old(self).wf(),
            outcome matches IoOutcome::Transferred(count) ==> old(self).written() + count <= old(
                self,
            ).total(),
        ensures
            final(self).wf(),
            final(self).total() == old(self).total(),
            match progress_of(outcome) {
                Ok(count) => {
                    &&& final(self).written() == old(self).written() + count
                    &&& step == final(self).due()
                },
                Err(error) => {
                    &&& final(self).written() == old(self).written()
                    &&& step == WriteStep::Over(Err(error))
                },
            },
    {
        match read_progress(outcome) {
            Ok(count) => {
                self.sent = self.sent + count;
                self.next()
            },
            Err(error) => WriteStep::Over(Err(error)),
        }
    }

    /// A buffer counts as sent only when all of it was written, and every
    /// report that is no failure brings that nearer.
    pub proof fn law_success_means_all_was_written(&self, count: usize)
        requires
            self.wf(),
            count > 0,
            self.written() + count <= self.total(),
        ensures
            self.due() == WriteStep::Over(Ok(())) <==> self.written() == self.total(),
            progress_of(IoOutcome::Transferred(count)) == Ok::<usize, TransportError>(count),
            self.total() - (self.written() + count) < self.total() - self.written(),
    {
    }
}

/// What sending a TDO chunk amounts to while the next one is driven. If it
/// failed, the connection no longer counts as alive, which aborts the driving.
pub fn send_with_liveness(sent: Result<(), TransportError>, alive: &mut bool) -> (outcome: Result<
    (),
    StreamError,
>)
    ensures
        *final(alive) == (*old(alive) && sent is Ok),
        outcome == (match sent {
            Ok(()) => Ok::<(), StreamError>(()),
            Err(error) => Err(StreamError::Transport(error)),
        }),
{
    match sent {
        Ok(()) => Ok(()),
        Err(error) => {
            *alive = false;
            Err(StreamError::from(error))
        },
    }
}

/// A session goes on as long as bytes can flow both ways.
pub proof fn law_session_needs_both_ways(may_receive: bool, may_send: bool, alive: bool)
    requires
        call_ensures(session_alive, (may_receive, may_send), alive),
    ensures
        alive <==> may_receive && may_send,
{
}

/// A read that brings bytes succeeds with their number. One that brings none,
/// or that the socket fails, means that the client is gone, and one that takes
/// too long is a timeout.
pub proof fn law_silence_is_told_from_the_end(
    outcome: IoOutcome,
    progress: Result<usize, TransportError>,
)
    requires
        call_ensures(read_progress, (outcome,), progress),
    ensures
        outcome matches IoOutcome::Transferred(count) ==> if count > 0 {
            progress == Ok::<usize, TransportError>(count)
        } else {
            progress == Err::<usize, TransportError>(TransportError::Disconnected)
        },
        outcome is Failed ==> progress == Err::<usize, TransportError>(
            TransportError::Disconnected,
        ),
        outcome is TimedOut ==> progress == Err::<usize, TransportError>(TransportError::Timeout),
{
}

/// A wait ends with a transfer as soon as the socket is ready, else in failure if
/// it can no longer become so, else in a timeout when the time is up.
pub proof fn law_wait_ends_in_time(
    wait: IoWait,
    ready: bool,
    open: bool,
    now_ms: i64,
    step: IoStep,
)
    requires
        wait.timeout() > i64::MIN,
        call_ensures(IoWait::step, (&wait, ready, open, now_ms), step),
    ensures
        ready ==> step is Transfer,
        !ready && !open ==> step == IoStep::Over(IoOutcome::Failed),
        !ready && open && now_ms - wait.started() >= wait.timeout() ==> step == IoStep::Over(
            IoOutcome::TimedOut,
        ),
        !ready && open && now_ms - wait.started() < wait.timeout() ==> step is Wait,
{
}

/// A buffer is written from its start on, and an empty one is written at once.
pub proof fn law_writing_starts_at_the_start(length: usize, started: (WriteAll, WriteStep))
    requires
        call_ensures(WriteAll::start, (length,), started),
    ensures
        started.0.total() == length,
        started.0.written() == 0,
        length > 0 ==> started.1 == (WriteStep::Write { from: 0 }),
        length == 0 ==> started.1 == WriteStep::Over(Ok(())),
{
}

/// After some bytes were written, writing goes on behind them, until all are
/// written. A write of no bytes or a failed one ends it as a lost connection,
/// one that takes too long as a timeout, and then no byte more counts as
/// written.
pub proof fn law_writing_goes_on_behind(
    write: &mut WriteAll,
    outcome: IoOutcome,
    step: WriteStep,
)
    requires
        write.wf(),
        outcome matches IoOutcome::Transferred(count) ==> write.written() + count <= write.total(),
        call_ensures(WriteAll::wrote, (write, outcome), step),
    ensures
        final(write).total() == old(write).total(),
        outcome matches IoOutcome::Transferred(count) ==> {
            let written = old(write).written() + count;
            &&& final(write).written() == written
            &&& count == 0 ==> step == WriteStep::Over(Err(TransportError::Disconnected))
            &&& count > 0 && written < old(write).total() ==> step == (WriteStep::Write {
                from: written as usize,
            })
            &&& count > 0 && written == old(write).total() ==> step == WriteStep::Over(Ok(()))
        },
        outcome is Failed ==> step == WriteStep::Over(Err(TransportError::Disconnected)),
        outcome is TimedOut ==> step == WriteStep::Over(Err(TransportError::Timeout)),
        !(outcome is Transferred) ==> final(write).written() == old(write).written(),
{
}

/// A chunk that could not be sent ends the stream for the same reason and marks
/// the connection as lost; one that was sent changes nothing.
pub proof fn law_failed_send_marks_the_connection(
    sent: Result<(), TransportError>,
    alive: &mut bool,
    outcome: Result<(), StreamError>,
)
    requires
        call_ensures(send_with_liveness, (sent, alive), outcome),
    ensures
        sent is Ok ==> outcome is Ok && *final(alive) == *old(alive),
        sent matches Err(error) ==> outcome == Err::<(), StreamError>(
            StreamError::Transport(error),
        ) && !*final(alive),
{
}

/// A client may be silent for half a minute. It is given ten seconds to take
/// bytes of a reply, half a minute to take TDO bytes of a streamed shift, and a
/// second to take the end of its connection.
pub proof fn law_progress_limits()
    ensures
        RECEIVE_PROGRESS_TIMEOUT_MS == 30_000,
        SEND_PROGRESS_TIMEOUT_MS == 10_000,
        STREAM_PROGRESS_TIMEOUT_MS == 30_000,
        ABORT_FLUSH_TIMEOUT_MS == 1_000,
{
}

} // verus!
