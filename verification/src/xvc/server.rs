//! The server: one client at a time, one request at a time.
//!
//! The server is driven step by step. Every operation answers with an action;
//! the caller performs it and reports the outcome to the operation that the
//! action names.

use vstd::prelude::*;
use vstd::slice::slice_subrange;

use crate::bits::{byte_len, bytes_for_bits};
use crate::jtag::ipc::MIN_TCK_PERIOD_US;
use crate::jtag::service::{applied_period_us, JtagService};
use crate::jtag::shift::{JtagError, JtagShift, ShiftExecution};
use crate::xvc::error::{SessionError, StreamError, TransportError};
use crate::xvc::session::{action_on, advances, moves_to, SessionEvent, SessionState};
use crate::xvc::stream::StreamWorkspace;
use crate::xvc::window::{ReceiveWindow, RECEIVE_BUFFER_SIZE};
use crate::xvc::wire::{
    decode, encode, frame, is_frameable, law_decodes_what_was_sent, law_frame_lies_in_the_data,
    law_le_round_trip, law_next_request_follows, law_oversized_shift_is_streamed,
    law_waiting_is_bounded, law_written_bytes_add_up, le_bytes, le_value, lemma_tag_bytes,
    lemma_tags_differ, to_le_bytes, Command, DecodeOutcome, Frame, Request,
    BUFFERED_SHIFT_MAX_BITS, GETINFO_RESPONSE, SHIFT_TAG,
};

verus! {

/// The TCP port that clients connect to.
pub const XVC_PORT: u16 = 2_542;

/// Pause after a connection could not be accepted.
pub const ACCEPT_RETRY_MS: u32 = 100;

/// Bytes of the largest TDO vector that is sent in one reply.
pub const RESPONSE_BUFFER_SIZE: usize = 4_096;

/// Most bytes that are reported of a request that makes no sense.
pub const PROTOCOL_LOG_BYTES: usize = 16;

/// Why a connection is closed.
#[derive(Debug, Clone, Copy, PartialEq, Eq, Structural)]
pub enum CloseReason {
    AcceptFailed,
    ResetFailed(JtagError),
    Session(SessionError),
}

/// What the caller does next.
#[derive(Debug, Clone, Copy, PartialEq, Eq, Structural)]
pub enum ServerAction {
    /// Wait for a client on this port and report to `accepted`.
    Accept { port: u16 },
    /// Reset the TAP and report to `tap_reset`.
    ResetTap,
    /// Read into `read_space` and report to `received`.
    Read,
    /// Send all of `reply` and report to `sent`.
    Send { length: usize },
    /// Drive `shift_request` and report to `shifted`.
    Shift { bits: usize },
    /// Execute a streamed shift over `stream_parts` and report to `streamed`.
    Stream { bit_count: usize },
    /// Close the connection, pause, and go on with `listen`.
    Close { reason: CloseReason, pause_ms: u32 },
}

/// What the server waits for.
pub enum ServerStage {
    /// Nothing: there is no client.
    Closed,
    /// A client.
    Accepting,
    /// The TAP reset for a new client.
    Resetting,
    /// More bytes of a request.
    Reading,
    /// A reply to be sent; the request is consumed after it.
    Replying { consumed: nat },
    /// A shift to be driven; the request is consumed after its reply.
    Driving { bits: nat, consumed: nat },
    /// A streamed shift; its header is consumed.
    Streaming { bit_count: nat },
}

/// The reply that is being sent.
#[derive(Clone, Copy)]
enum Reply {
    Info,
    Period { bytes: [u8; 4] },
    Tdo { bits: usize },
}

/// What the server does at the moment.
#[derive(Clone, Copy)]
enum Activity {
    Closed,
    Accepting,
    Resetting,
    Reading,
    Replying { reply: Reply, consumed: usize },
    Driving { bits: usize, consumed: usize },
    Streaming { bit_count: usize },
}

/// The server and its buffers.
pub struct XvcServer {
    receive: ReceiveWindow,
    response: &'static mut [u8; RESPONSE_BUFFER_SIZE],
    stream: &'static mut StreamWorkspace,
    activity: Activity,
}

/// A close for a reason that ended a session.
pub open spec fn session_over(error: SessionError) -> ServerAction {
    ServerAction::Close { reason: CloseReason::Session(error), pause_ms: 0 }
}

/// The first bytes of the response buffer.
fn front_mut(buffer: &mut [u8; RESPONSE_BUFFER_SIZE], count: usize) -> (front: &mut [u8])
    requires
        count <= RESPONSE_BUFFER_SIZE,
    ensures
        front@ == old(buffer)@.take(count as int),
        final(buffer)@.take(count as int) == final(front)@,
{
    assert forall|a: Seq<u8>, b: Seq<u8>|
        b.len() == RESPONSE_BUFFER_SIZE - count && a.len() + b.len()
            == RESPONSE_BUFFER_SIZE implies (#[trigger] (a + b)).take(count as int) == a by {
        assert((a + b).take(count as int) =~= a);
    }
    let bytes: &mut [u8] = &mut *buffer;
    let (front, _) = bytes.split_at_mut(count);
    front
}

impl XvcServer {
    /// The bytes received and not yet consumed.
    pub closed spec fn window(&self) -> Seq<u8> {
        self.receive@
    }

    /// Contents of the room behind them.
    pub closed spec fn slack(&self) -> Seq<u8> {
        self.receive.slack()
    }

    /// Contents of the buffer for a TDO vector of `bits` bits.
    pub closed spec fn tdo_vector(&self, bits: nat) -> Seq<u8> {
        self.response@.take(byte_len(bits) as int)
    }

    /// What the server waits for.
    pub closed spec fn stage(&self) -> ServerStage {
        match self.activity {
            Activity::Closed => ServerStage::Closed,
            Activity::Accepting => ServerStage::Accepting,
            Activity::Resetting => ServerStage::Resetting,
            Activity::Reading => ServerStage::Reading,
            Activity::Replying { consumed, .. } => ServerStage::Replying {
                consumed: consumed as nat,
            },
            Activity::Driving { bits, consumed } => ServerStage::Driving {
                bits: bits as nat,
                consumed: consumed as nat,
            },
            Activity::Streaming { bit_count } => ServerStage::Streaming {
                bit_count: bit_count as nat,
            },
        }
    }

    /// The reply that is being sent.
    pub closed spec fn reply_bytes(&self) -> Seq<u8> {
        match self.activity {
            Activity::Replying { reply, .. } => match reply {
                Reply::Info => GETINFO_RESPONSE@,
                Reply::Period { bytes } => bytes@,
                Reply::Tdo { bits } => self.tdo_vector(bits as nat),
            },
            _ => Seq::empty(),
        }
    }

    /// The window fits what the server waits for.
    pub closed spec fn wf(&self) -> bool {
        &&& self.receive.wf()
        &&& match self.activity {
            Activity::Closed => true,
            Activity::Accepting => self.window().len() == 0,
            Activity::Resetting => self.window().len() == 0,
            Activity::Reading => frame(self.window()) is NeedMore,
            Activity::Replying { reply, consumed } => {
                &&& consumed <= self.window().len()
                &&& reply matches Reply::Tdo { bits } ==> bits <= BUFFERED_SHIFT_MAX_BITS
            },
            Activity::Driving { bits, consumed } => {
                &&& frame(self.window()) matches Frame::Command { request, consumed: length }
                &&& length == consumed
                &&& request matches Request::Shift { bit_count, .. }
                &&& bit_count == bits
            },
            Activity::Streaming { .. } => true,
        }
    }

    /// What a client can tell of the server, together with the TCK period.
    pub open spec fn session(&self, tck: u32) -> SessionState {
        SessionState {
            window: self.window(),
            stage: self.stage(),
            reply: self.reply_bytes(),
            tck,
        }
    }

    /// What the server does about the bytes in its window, given that window
    /// and the TCK period before and the period after it.
    pub open spec fn decided(
        &self,
        window: Seq<u8>,
        tck_before: u32,
        tck_after: u32,
        action: ServerAction,
    ) -> bool {
        &&& action == action_on(window)
        &&& moves_to(window, tck_before, self.session(tck_after))
    }

    /// A request that fits in a frame is answered as it asks, whatever follows
    /// it, and what follows it is what is left when it is consumed: a query with
    /// the server's name and size, a clock request with the period that is in
    /// force from then on, a shift by driving it.
    pub proof fn law_request_is_answered(
        &self,
        request: Request,
        rest: Seq<u8>,
        tck_before: u32,
        tck_after: u32,
        action: ServerAction,
    )
        requires
            is_frameable(request),
            self.decided(encode(request) + rest, tck_before, tck_after, action),
        ensures
            match request {
                Request::GetInfo => {
                    &&& action == (ServerAction::Send { length: 22 })
                    &&& self.reply_bytes() == GETINFO_RESPONSE@
                    &&& self.stage() is Replying
                    &&& self.window().skip(self.stage()->Replying_consumed as int) == rest
                    &&& tck_after == tck_before
                },
                Request::SetTck { requested_period_ns } => {
                    &&& action == (ServerAction::Send { length: 4 })
                    &&& le_value(self.reply_bytes()) == 1_000 * tck_after
                    &&& self.stage() is Replying
                    &&& self.window().skip(self.stage()->Replying_consumed as int) == rest
                    &&& tck_after == applied_period_us(requested_period_ns)
                },
                Request::Shift { bit_count, .. } => {
                    &&& action == (ServerAction::Shift { bits: bit_count as usize })
                    &&& self.stage() is Driving
                    &&& self.window().skip(self.stage()->Driving_consumed as int) == rest
                    &&& tck_after == tck_before
                },
            },
    {
        law_decodes_what_was_sent(request, rest);
        law_next_request_follows(request, rest);
        if let Request::SetTck { requested_period_ns } = request {
            law_le_round_trip((applied_period_us(requested_period_ns) * 1_000) as u32);
        }
    }

    /// A shift over the buffered limit is streamed as soon as its header is
    /// there, and the bytes that follow the header are left to the stream.
    pub proof fn law_oversized_shift_is_accepted(
        &self,
        bit_count: u32,
        rest: Seq<u8>,
        tck_before: u32,
        tck_after: u32,
        action: ServerAction,
    )
        requires
            bit_count > BUFFERED_SHIFT_MAX_BITS,
            self.decided(SHIFT_TAG@ + le_bytes(bit_count) + rest, tck_before, tck_after, action),
        ensures
            action == (ServerAction::Stream { bit_count: bit_count as usize }),
            self.window() == rest,
    {
        law_oversized_shift_is_streamed(bit_count, rest);
        assert((SHIFT_TAG@ + le_bytes(bit_count) + rest).skip(10) =~= rest);
    }

    /// A server over these buffers, without a client.
    pub fn new(
        receive: &'static mut [u8; RECEIVE_BUFFER_SIZE],
        response: &'static mut [u8; RESPONSE_BUFFER_SIZE],
        stream: &'static mut StreamWorkspace,
    ) -> (server: Self)
        ensures
            server.wf(),
            server.stage() is Closed,
            server.window() == Seq::<u8>::empty(),
    {
        XvcServer {
            receive: ReceiveWindow::new(receive),
            response,
            stream,
            activity: Activity::Closed,
        }
    }

    /// Waits for a client, with an empty window and the shortest TCK period.
    pub fn listen(&mut self, jtag: &mut JtagService) -> (action: ServerAction)
        requires
            old(self).wf(),
        ensures
            final(self).wf(),
            final(self).stage() is Accepting,
            final(self).window() == Seq::<u8>::empty(),
            final(jtag).wf(),
            final(jtag).tck() == MIN_TCK_PERIOD_US,
            action == (ServerAction::Accept { port: XVC_PORT }),
    {
        self.receive.clear();
        jtag.restore_min_period();
        self.activity = Activity::Accepting;
        ServerAction::Accept { port: XVC_PORT }
    }

    /// Takes note that a client connected, or that none could be accepted.
    pub fn accepted(&mut self, connected: bool) -> (action: ServerAction)
        requires
            old(self).wf(),
            old(self).stage() is Accepting,
        ensures
            final(self).wf(),
            final(self).window() == old(self).window(),
            if connected {
                &&& action == ServerAction::ResetTap
                &&& final(self).stage() is Resetting
            } else {
                &&& action == (ServerAction::Close {
                    reason: CloseReason::AcceptFailed,
                    pause_ms: ACCEPT_RETRY_MS,
                })
                &&& final(self).stage() is Closed
            },
    {
        if connected {
            self.activity = Activity::Resetting;
            ServerAction::ResetTap
        } else {
            self.activity = Activity::Closed;
            ServerAction::Close { reason: CloseReason::AcceptFailed, pause_ms: ACCEPT_RETRY_MS }
        }
    }

    /// Takes note of the TAP reset for a new client.
    pub fn tap_reset(&mut self, outcome: Result<(), JtagError>) -> (action: ServerAction)
        requires
            old(self).wf(),
            old(self).stage() is Resetting,
        ensures
            final(self).wf(),
            final(self).window() == Seq::<u8>::empty(),
            match outcome {
                Ok(()) => {
                    &&& action == ServerAction::Read
                    &&& final(self).stage() is Reading
                },
                Err(error) => {
                    &&& action == (ServerAction::Close {
                        reason: CloseReason::ResetFailed(error),
                        pause_ms: 0,
                    })
                    &&& final(self).stage() is Closed
                },
            },
    {
        match outcome {
            Ok(()) => {
                self.activity = Activity::Reading;
                assert(frame(self.window()) is NeedMore);
                ServerAction::Read
            },
            Err(error) => {
                self.activity = Activity::Closed;
                ServerAction::Close { reason: CloseReason::ResetFailed(error), pause_ms: 0 }
            },
        }
    }

    /// Ends the session.
    fn fail(&mut self, error: SessionError) -> (action: ServerAction)
        requires
            old(self).receive.wf(),
        ensures
            final(self).wf(),
            final(self).stage() is Closed,
            final(self).window() == old(self).window(),
            action == session_over(error),
    {
        self.activity = Activity::Closed;
        ServerAction::Close { reason: CloseReason::Session(error), pause_ms: 0 }
    }

    /// Decides about the bytes in the window.
    fn decide(&mut self, jtag: &mut JtagService) -> (action: ServerAction)
        requires
            old(self).receive.wf(),
            old(jtag).wf(),
        ensures
            final(self).wf(),
            final(jtag).wf(),
            final(self).decided(old(self).window(), old(jtag).tck(), final(jtag).tck(), action),
    {
        proof {
            law_frame_lies_in_the_data(self.window());
        }
        match decode(self.receive.data()) {
            DecodeOutcome::NeedMore => {
                self.activity = Activity::Reading;
                ServerAction::Read
            },
            DecodeOutcome::ProtocolError => self.fail(SessionError::Protocol),
            DecodeOutcome::StreamingShift { bit_count, consumed } => {
                self.receive.consume(consumed);
                self.activity = Activity::Streaming { bit_count };
                ServerAction::Stream { bit_count }
            },
            DecodeOutcome::Command { command, consumed } => match command {
                Command::GetInfo => {
                    self.activity = Activity::Replying { reply: Reply::Info, consumed };
                    ServerAction::Send { length: 22 }
                },
                Command::SetTck { requested_period_ns } => {
                    let applied: u32 = jtag.set_period_ns(requested_period_ns);
                    let bytes = to_le_bytes(applied);
                    self.activity = Activity::Replying { reply: Reply::Period { bytes }, consumed };
                    ServerAction::Send { length: 4 }
                },
                Command::Shift(shift) => {
                    let bits: usize = shift.bit_count;
                    self.activity = Activity::Driving { bits, consumed };
                    ServerAction::Shift { bits }
                },
            },
        }
    }

    /// Room for more bytes of a request. There always is some.
    pub fn read_space(&mut self) -> (space: Result<&mut [u8], SessionError>)
        requires
            old(self).wf(),
            old(self).stage() is Reading,
        ensures
            space is Ok,
            final(self).wf(),
            final(self).stage() is Reading,
            final(self).window() == old(self).window(),
            space matches Ok(bytes) ==> {
                &&& bytes@.len() > 0
                &&& old(self).window().len() == 0 ==> bytes@.len() == RECEIVE_BUFFER_SIZE
                &&& final(self).slack() == final(bytes)@
            },
    {
        proof {
            law_waiting_is_bounded(self.window());
        }
        match self.receive.writable() {
            Some(space) => Ok(space),
            None => Err(SessionError::ReceiveOverflow),
        }
    }

    /// Takes note of a read into `read_space`: the number of bytes, or why there
    /// are none.
    pub fn received(
        &mut self,
        jtag: &mut JtagService,
        outcome: Result<usize, TransportError>,
    ) -> (action: ServerAction)
        requires
            old(self).wf(),
            old(self).stage() is Reading,
            old(jtag).wf(),
            outcome matches Ok(count) ==> count <= old(self).slack().len(),
        ensures
            final(self).wf(),
            final(jtag).wf(),
            match outcome {
                Ok(count) => {
                    &&& final(self).decided(
                        old(self).window() + old(self).slack().take(count as int),
                        old(jtag).tck(),
                        final(jtag).tck(),
                        action,
                    )
                    &&& advances(
                        old(self).session(old(jtag).tck()),
                        SessionEvent::Received { bytes: old(self).slack().take(count as int) },
                        final(self).session(final(jtag).tck()),
                    )
                },
                Err(error) => {
                    &&& action == session_over(SessionError::Transport(error))
                    &&& final(self).stage() is Closed
                    &&& final(self).window() == old(self).window()
                    &&& final(jtag).tck() == old(jtag).tck()
                },
            },
    {
        match outcome {
            Ok(count) => {
                self.receive.commit(count);
                self.decide(jtag)
            },
            Err(error) => self.fail(SessionError::from(error)),
        }
    }

    /// The shift of the request, from the window into the response buffer.
    pub fn shift_request(&mut self) -> (request: Result<JtagShift<'_>, SessionError>)
        requires
            old(self).wf(),
            old(self).stage() is Driving,
        ensures
            request is Ok,
            request matches Ok(shift) ==> {
                &&& shift.wf()
                &&& shift.execution == ShiftExecution::BufferedCommand
                &&& frame(old(self).window()) == (Frame::Command {
                    request: Request::Shift {
                        bit_count: shift.bit_count as nat,
                        tms: shift.tms@,
                        tdi: shift.tdi@,
                    },
                    consumed: old(self).stage()->Driving_consumed,
                })
                &&& shift.bit_count == old(self).stage()->bits
                &&& shift.tdo@ == old(self).tdo_vector(shift.bit_count as nat)
                &&& final(self).tdo_vector(shift.bit_count as nat) == final(shift.tdo)@
            },
            final(self).wf(),
            final(self).stage() == old(self).stage(),
            final(self).window() == old(self).window(),
    {
        let bits: usize = match self.activity {
            Activity::Driving { bits, .. } => bits,
            _ => 0,
        };
        let byte_count: usize = bytes_for_bits(bits);
        let data = self.receive.data();
        let tms = slice_subrange(data, 10, 10 + byte_count);
        let tdi = slice_subrange(data, 10 + byte_count, 10 + 2 * byte_count);
        let tdo = front_mut(self.response, byte_count);
        match JtagShift::new(ShiftExecution::BufferedCommand, bits, tms, tdi, tdo) {
            Ok(shift) => Ok(shift),
            Err(error) => Err(SessionError::from(error)),
        }
    }

    /// Takes note of a shift that was driven.
    pub fn shifted(&mut self, outcome: Result<(), JtagError>) -> (action: ServerAction)
        requires
            old(self).wf(),
            old(self).stage() is Driving,
        ensures
            final(self).wf(),
            final(self).window() == old(self).window(),
            match outcome {
                Ok(()) => {
                    let bits = old(self).stage()->bits;
                    &&& action == (ServerAction::Send { length: byte_len(bits) as usize })
                    &&& final(self).stage() == (ServerStage::Replying {
                        consumed: old(self).stage()->Driving_consumed,
                    })
                    &&& final(self).reply_bytes() == old(self).tdo_vector(bits)
                    &&& final(self).reply_bytes().len() == byte_len(bits)
                    &&& forall|tck: u32|
                        advances(
                            old(self).session(tck),
                            SessionEvent::Driven {
                                request: frame(old(self).window())->request,
                                tdo: old(self).tdo_vector(bits),
                            },
                            #[trigger] final(self).session(tck),
                        )
                },
                Err(error) => {
                    &&& action == session_over(SessionError::Jtag(error))
                    &&& final(self).stage() is Closed
                },
            },
    {
        let (bits, consumed): (usize, usize) = match self.activity {
            Activity::Driving { bits, consumed } => (bits, consumed),
            _ => (0, 0),
        };
        proof {
            law_frame_lies_in_the_data(self.window());
        }
        match outcome {
            Ok(()) => {
                self.activity = Activity::Replying { reply: Reply::Tdo { bits }, consumed };
                ServerAction::Send { length: bytes_for_bits(bits) }
            },
            Err(error) => self.fail(SessionError::from(error)),
        }
    }

    /// The reply to send.
    pub fn reply(&self) -> (bytes: &[u8])
        requires
            self.wf(),
            self.stage() is Replying,
        ensures
            bytes@ == self.reply_bytes(),
    {
        match &self.activity {
            Activity::Replying { reply, .. } => match reply {
                Reply::Info => GETINFO_RESPONSE.as_slice(),
                Reply::Period { bytes } => bytes.as_slice(),
                Reply::Tdo { bits } => slice_subrange(
                    self.response.as_slice(),
                    0,
                    bytes_for_bits(*bits),
                ),
            },
            _ => slice_subrange(self.response.as_slice(), 0, 0),
        }
    }

    /// Takes note that the reply was sent, or why not. The request is consumed
    /// only when it was.
    pub fn sent(
        &mut self,
        jtag: &mut JtagService,
        outcome: Result<(), TransportError>,
    ) -> (action: ServerAction)
        requires
            old(self).wf(),
            old(self).stage() is Replying,
            old(jtag).wf(),
        ensures
            final(self).wf(),
            final(jtag).wf(),
            match outcome {
                Ok(()) => {
                    &&& final(self).decided(
                        old(self).window().skip(old(self).stage()->Replying_consumed as int),
                        old(jtag).tck(),
                        final(jtag).tck(),
                        action,
                    )
                    &&& advances(
                        old(self).session(old(jtag).tck()),
                        SessionEvent::Sent { reply: old(self).reply_bytes() },
                        final(self).session(final(jtag).tck()),
                    )
                },
                Err(error) => {
                    &&& action == session_over(SessionError::Transport(error))
                    &&& final(self).stage() is Closed
                    &&& final(self).window() == old(self).window()
                    &&& final(jtag).tck() == old(jtag).tck()
                },
            },
    {
        match outcome {
            Ok(()) => {
                let consumed: usize = match self.activity {
                    Activity::Replying { consumed, .. } => consumed,
                    _ => 0,
                };
                self.receive.consume(consumed);
                self.decide(jtag)
            },
            Err(error) => self.fail(SessionError::from(error)),
        }
    }

    /// The window and the buffers for a streamed shift.
    pub fn stream_parts(&mut self) -> (parts: (&mut ReceiveWindow, &mut StreamWorkspace))
        requires
            old(self).wf(),
            old(self).stage() is Streaming,
        ensures
            parts.0.wf(),
            parts.0@ == old(self).window(),
            final(parts.0).wf() ==> final(self).wf(),
            final(self).stage() == old(self).stage(),
            final(self).window() == final(parts.0)@,
    {
        (&mut self.receive, &mut *self.stream)
    }

    /// Takes note of a streamed shift.
    pub fn streamed(
        &mut self,
        jtag: &mut JtagService,
        outcome: Result<(), StreamError>,
    ) -> (action: ServerAction)
        requires
            old(self).wf(),
            old(self).stage() is Streaming,
            old(jtag).wf(),
        ensures
            final(self).wf(),
            final(jtag).wf(),
            match outcome {
                Ok(()) => final(self).decided(
                    old(self).window(),
                    old(jtag).tck(),
                    final(jtag).tck(),
                    action,
                ),
                Err(error) => {
                    &&& action == session_over(SessionError::Stream(error))
                    &&& final(self).stage() is Closed
                    &&& final(self).window() == old(self).window()
                    &&& final(jtag).tck() == old(jtag).tck()
                },
            },
    {
        match outcome {
            Ok(()) => self.decide(jtag),
            Err(error) => self.fail(SessionError::from(error)),
        }
    }

    /// The bytes to report of a request that makes no sense.
    pub fn log_protocol_error(&self) -> (bytes: &[u8])
        requires
            self.wf(),
        ensures
            bytes@ == self.window().take(
                if self.window().len() < PROTOCOL_LOG_BYTES {
                    self.window().len() as int
                } else {
                    PROTOCOL_LOG_BYTES as int
                },
            ),
    {
        let data = self.receive.data();
        let count: usize = if data.len() < PROTOCOL_LOG_BYTES {
            data.len()
        } else {
            PROTOCOL_LOG_BYTES
        };
        slice_subrange(data, 0, count)
    }
}

/// The answer to a query, byte by byte.
proof fn lemma_info_bytes()
    ensures
        GETINFO_RESPONSE@ == seq![
            0x78u8,
            0x76,
            0x63,
            0x53,
            0x65,
            0x72,
            0x76,
            0x65,
            0x72,
            0x5f,
            0x76,
            0x31,
            0x2e,
            0x30,
            0x3a,
            0x31,
            0x39,
            0x36,
            0x36,
            0x30,
            0x38,
            0x0a,
        ],
{
    assert(GETINFO_RESPONSE@ =~= seq![
        0x78u8,
        0x76,
        0x63,
        0x53,
        0x65,
        0x72,
        0x76,
        0x65,
        0x72,
        0x5f,
        0x76,
        0x31,
        0x2e,
        0x30,
        0x3a,
        0x31,
        0x39,
        0x36,
        0x36,
        0x30,
        0x38,
        0x0a,
    ]);
}

impl XvcServer {
    /// A window that starts with `getinfo:` is answered with the line
    /// `xvcServer_v1.0:196608`. These eight bytes are consumed after it, and
    /// nothing else changes.
    pub proof fn law_query_is_answered(
        &self,
        window: Seq<u8>,
        tck_before: u32,
        tck_after: u32,
        action: ServerAction,
    )
        requires
            self.decided(window, tck_before, tck_after, action),
            window.len() >= 8,
            window.take(8) == seq![0x67u8, 0x65, 0x74, 0x69, 0x6e, 0x66, 0x6f, 0x3a],
        ensures
            action == (ServerAction::Send { length: 22 }),
            self.stage() == (ServerStage::Replying { consumed: 8 }),
            self.reply_bytes() == seq![
                0x78u8,
                0x76,
                0x63,
                0x53,
                0x65,
                0x72,
                0x76,
                0x65,
                0x72,
                0x5f,
                0x76,
                0x31,
                0x2e,
                0x30,
                0x3a,
                0x31,
                0x39,
                0x36,
                0x36,
                0x30,
                0x38,
                0x0a,
            ],
            self.window() == window,
            tck_after == tck_before,
    {
        lemma_tag_bytes(window);
        lemma_tags_differ(window);
        lemma_info_bytes();
    }

    /// A window that starts with `settck:` and four bytes that add up to a period
    /// in nanoseconds is answered with four bytes that add up to the period in
    /// force from then on: the shortest of whole microseconds that is not
    /// shorter, between one and a thousand. These eleven bytes are consumed after
    /// it.
    pub proof fn law_clock_request_is_answered(
        &self,
        window: Seq<u8>,
        tck_before: u32,
        tck_after: u32,
        action: ServerAction,
    )
        requires
            self.decided(window, tck_before, tck_after, action),
            window.len() >= 11,
            window.take(7) == seq![0x73u8, 0x65, 0x74, 0x74, 0x63, 0x6b, 0x3a],
        ensures
            ({
                let requested = window[7] + 256 * window[8] + 65_536 * window[9] + 16_777_216
                    * window[10];
                let reply = self.reply_bytes();
                &&& action == (ServerAction::Send { length: 4 })
                &&& self.stage() == (ServerStage::Replying { consumed: 11 })
                &&& reply.len() == 4
                &&& reply[0] + 256 * reply[1] + 65_536 * reply[2] + 16_777_216 * reply[3] == 1_000
                    * tck_after
                &&& requested <= 1_000 ==> tck_after == 1
                &&& 1_000 <= requested <= 1_000_000 ==> requested <= 1_000 * tck_after < requested
                    + 1_000
                &&& requested > 1_000_000 ==> tck_after == 1_000
                &&& self.window() == window
            }),
    {
        lemma_tag_bytes(window);
        lemma_tags_differ(window);
        law_written_bytes_add_up((tck_after * 1_000) as u32);
    }

    /// A window that starts with `shift:`, four bytes that add up to at most
    /// 32768 bits, and both vectors has the shift driven. All of it is consumed
    /// after the reply.
    pub proof fn law_shift_is_driven(
        &self,
        window: Seq<u8>,
        tck_before: u32,
        tck_after: u32,
        action: ServerAction,
        bits: int,
    )
        requires
            self.decided(window, tck_before, tck_after, action),
            window.len() >= 10 + 2 * ((bits + 7) / 8),
            window.take(6) == seq![0x73u8, 0x68, 0x69, 0x66, 0x74, 0x3a],
            bits == window[6] + 256 * window[7] + 65_536 * window[8] + 16_777_216 * window[9],
            bits <= 32_768,
        ensures
            action == (ServerAction::Shift { bits: bits as usize }),
            self.stage() == (ServerStage::Driving {
                bits: bits as nat,
                consumed: (10 + 2 * ((bits + 7) / 8)) as nat,
            }),
            self.window() == window,
            tck_after == tck_before,
    {
        lemma_tag_bytes(window);
    }

    /// A window that starts with `shift:` and four bytes that add up to more than
    /// 32768 bits has the shift streamed. These ten bytes are consumed, and what
    /// follows them is left to the stream.
    pub proof fn law_long_shift_is_streamed(
        &self,
        window: Seq<u8>,
        tck_before: u32,
        tck_after: u32,
        action: ServerAction,
        bits: int,
    )
        requires
            self.decided(window, tck_before, tck_after, action),
            window.len() >= 10,
            window.take(6) == seq![0x73u8, 0x68, 0x69, 0x66, 0x74, 0x3a],
            bits == window[6] + 256 * window[7] + 65_536 * window[8] + 16_777_216 * window[9],
            bits > 32_768,
        ensures
            action == (ServerAction::Stream { bit_count: bits as usize }),
            self.stage() == (ServerStage::Streaming { bit_count: bits as nat }),
            self.window() == window.skip(10),
            tck_after == tck_before,
    {
        lemma_tag_bytes(window);
    }

    /// More bytes are read, and nothing changes, while the window holds fewer
    /// than eight bytes and no shift, or fewer bytes than its shift or its clock
    /// request takes.
    pub proof fn law_unfinished_request_is_read_on(
        &self,
        window: Seq<u8>,
        tck_before: u32,
        tck_after: u32,
        action: ServerAction,
    )
        requires
            self.decided(window, tck_before, tck_after, action),
            if window.len() >= 6 && window.take(6) == seq![0x73u8, 0x68, 0x69, 0x66, 0x74, 0x3a] {
                window.len() < 10 || {
                    let bits = window[6] + 256 * window[7] + 65_536 * window[8] + 16_777_216
                        * window[9];
                    bits <= 32_768 && window.len() < 10 + 2 * ((bits + 7) / 8)
                }
            } else if window.len() >= 7 && window.take(7) == seq![
                0x73u8,
                0x65,
                0x74,
                0x74,
                0x63,
                0x6b,
                0x3a,
            ] {
                window.len() < 11
            } else {
                window.len() < 8
            },
        ensures
            action is Read,
            self.stage() is Reading,
            self.window() == window,
            tck_after == tck_before,
    {
        lemma_tag_bytes(window);
        lemma_tags_differ(window);
    }

    /// Eight bytes or more that start with no tag end the session at once, as a
    /// violation of the protocol.
    pub proof fn law_nonsense_ends_the_session(
        &self,
        window: Seq<u8>,
        tck_before: u32,
        tck_after: u32,
        action: ServerAction,
    )
        requires
            self.decided(window, tck_before, tck_after, action),
            window.len() >= 8,
            window.take(6) != seq![0x73u8, 0x68, 0x69, 0x66, 0x74, 0x3a],
            window.take(7) != seq![0x73u8, 0x65, 0x74, 0x74, 0x63, 0x6b, 0x3a],
            window.take(8) != seq![0x67u8, 0x65, 0x74, 0x69, 0x6e, 0x66, 0x6f, 0x3a],
        ensures
            action == (ServerAction::Close {
                reason: CloseReason::Session(SessionError::Protocol),
                pause_ms: 0,
            }),
            self.stage() is Closed,
            self.window() == window,
            tck_after == tck_before,
    {
        lemma_tag_bytes(window);
    }

    /// The bytes in the window are decided about after every read, with the bytes
    /// read behind those that were there; after every reply, without the bytes of
    /// the request; and after every streamed shift.
    pub proof fn law_window_is_decided_about(
        server: &mut XvcServer,
        jtag: &mut JtagService,
        count: usize,
        action: ServerAction,
    )
        ensures
            call_ensures(XvcServer::received, (server, jtag, Ok(count)), action)
                ==> final(server).decided(
                old(server).window() + old(server).slack().take(count as int),
                old(jtag).tck(),
                final(jtag).tck(),
                action,
            ),
            call_ensures(XvcServer::sent, (server, jtag, Ok(())), action)
                ==> final(server).decided(
                old(server).window().skip(old(server).stage()->Replying_consumed as int),
                old(jtag).tck(),
                final(jtag).tck(),
                action,
            ),
            call_ensures(XvcServer::streamed, (server, jtag, Ok(())), action)
                ==> final(server).decided(
                old(server).window(),
                old(jtag).tck(),
                final(jtag).tck(),
                action,
            ),
    {
    }

    /// A failure ends the session for the reason that was reported, without a
    /// pause, and is not mistaken for another.
    pub proof fn law_failures_end_the_session(
        server: &mut XvcServer,
        jtag: &mut JtagService,
        action: ServerAction,
        transport: TransportError,
        stream: StreamError,
        driving: JtagError,
    )
        ensures
            call_ensures(XvcServer::received, (server, jtag, Err(transport)), action) ==> {
                &&& action == (ServerAction::Close {
                    reason: CloseReason::Session(SessionError::Transport(transport)),
                    pause_ms: 0,
                })
                &&& final(server).stage() is Closed
            },
            call_ensures(XvcServer::sent, (server, jtag, Err(transport)), action) ==> {
                &&& action == (ServerAction::Close {
                    reason: CloseReason::Session(SessionError::Transport(transport)),
                    pause_ms: 0,
                })
                &&& final(server).stage() is Closed
            },
            call_ensures(XvcServer::streamed, (server, jtag, Err(stream)), action) ==> {
                &&& action == (ServerAction::Close {
                    reason: CloseReason::Session(SessionError::Stream(stream)),
                    pause_ms: 0,
                })
                &&& final(server).stage() is Closed
            },
            call_ensures(XvcServer::shifted, (server, Err(driving)), action) ==> {
                &&& action == (ServerAction::Close {
                    reason: CloseReason::Session(SessionError::Jtag(driving)),
                    pause_ms: 0,
                })
                &&& final(server).stage() is Closed
            },
    {
    }

    /// A client is waited for on port 2542 with an empty window and a period of a
    /// microsecond. The TAP is reset for it before its first byte is read; a
    /// client that cannot be accepted costs a pause of a hundred milliseconds.
    pub proof fn law_clients_start_afresh(
        server: &mut XvcServer,
        jtag: &mut JtagService,
        action: ServerAction,
        error: JtagError,
    )
        ensures
            call_ensures(XvcServer::listen, (server, jtag), action) ==> {
                &&& action == (ServerAction::Accept { port: 2_542 })
                &&& final(server).window().len() == 0
                &&& final(server).stage() is Accepting
                &&& final(jtag).tck() == 1
            },
            call_ensures(XvcServer::accepted, (server, true), action) ==> {
                &&& action is ResetTap
                &&& final(server).stage() is Resetting
            },
            call_ensures(XvcServer::accepted, (server, false), action) ==> {
                &&& action == (ServerAction::Close {
                    reason: CloseReason::AcceptFailed,
                    pause_ms: 100,
                })
                &&& final(server).stage() is Closed
            },
            call_ensures(XvcServer::tap_reset, (server, Ok(())), action) ==> {
                &&& action is Read
                &&& final(server).stage() is Reading
                &&& final(server).window().len() == 0
            },
            call_ensures(XvcServer::tap_reset, (server, Err(error)), action) ==> {
                &&& action == (ServerAction::Close {
                    reason: CloseReason::ResetFailed(error),
                    pause_ms: 0,
                })
                &&& final(server).stage() is Closed
            },
    {
    }

    /// A shift that was driven is answered with the TDO vector that it gave, in
    /// the bytes that its bits take.
    pub proof fn law_driven_shift_is_answered(server: &mut XvcServer, action: ServerAction)
        requires
            server.wf(),
            server.stage() is Driving,
            call_ensures(XvcServer::shifted, (server, Ok(())), action),
        ensures
            ({
                let bits = old(server).stage()->bits as int;
                &&& action == (ServerAction::Send { length: ((bits + 7) / 8) as usize })
                &&& final(server).reply_bytes() == old(server).tdo_vector(bits as nat)
                &&& final(server).reply_bytes().len() == (bits + 7) / 8
                &&& final(server).stage() == (ServerStage::Replying {
                    consumed: old(server).stage()->Driving_consumed,
                })
                &&& final(server).window() == old(server).window()
            }),
    {
    }

    /// At most sixteen bytes, the first ones, are reported of a request that makes
    /// no sense.
    pub proof fn law_report_is_short(server: &XvcServer, bytes: &[u8])
        requires
            server.wf(),
            call_ensures(XvcServer::log_protocol_error, (server,), bytes),
        ensures
            server.window().len() <= 16 ==> bytes@ == server.window(),
            server.window().len() > 16 ==> bytes@ == server.window().take(16),
    {
        if server.window().len() <= 16 {
            assert(bytes@ =~= server.window());
        }
    }
}

/// The buffers hold the TDO vector of every shift that is driven in one go, and
/// its frame: up to 32768 bits.
pub proof fn law_buffers_hold_one_shift(bits: nat)
    requires
        bits <= 32_768,
    ensures
        (bits + 7) / 8 <= RESPONSE_BUFFER_SIZE,
        10 + 2 * ((bits + 7) / 8) <= RECEIVE_BUFFER_SIZE,
{
}

} // verus!
