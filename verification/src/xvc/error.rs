//! Failures of the transport, of a streamed shift, and of a session.

use vstd::prelude::*;

use crate::jtag::shift::JtagError;

verus! {

/// Why bytes could not be exchanged with the client.
#[derive(Debug, Clone, Copy, PartialEq, Eq, Structural)]
pub enum TransportError {
    Disconnected,
    Timeout,
}

/// Why a streamed shift was given up.
#[derive(Debug, Clone, Copy, PartialEq, Eq, Structural)]
pub enum StreamError {
    Transport(TransportError),
    JtagFailed,
    ShiftTooLarge,
    TmsRleOverflow,
    TmsUnderflow,
    OutOfMemory,
}

impl From<TransportError> for StreamError {
    fn from(error: TransportError) -> (wrapped: Self) {
        StreamError::Transport(error)
    }
}

impl vstd::std_specs::convert::FromSpecImpl<TransportError> for StreamError {
    open spec fn obeys_from_spec() -> bool {
        true
    }

    open spec fn from_spec(error: TransportError) -> Self {
        StreamError::Transport(error)
    }
}

/// Why a session ended.
#[derive(Debug, Clone, Copy, PartialEq, Eq, Structural)]
pub enum SessionError {
    Transport(TransportError),
    Stream(StreamError),
    Jtag(JtagError),
    Protocol,
    ReceiveOverflow,
}

impl From<TransportError> for SessionError {
    fn from(error: TransportError) -> (wrapped: Self) {
        SessionError::Transport(error)
    }
}

impl vstd::std_specs::convert::FromSpecImpl<TransportError> for SessionError {
    open spec fn obeys_from_spec() -> bool {
        true
    }

    open spec fn from_spec(error: TransportError) -> Self {
        SessionError::Transport(error)
    }
}

impl From<StreamError> for SessionError {
    fn from(error: StreamError) -> (wrapped: Self) {
        SessionError::Stream(error)
    }
}

impl vstd::std_specs::convert::FromSpecImpl<StreamError> for SessionError {
    open spec fn obeys_from_spec() -> bool {
        true
    }

    open spec fn from_spec(error: StreamError) -> Self {
        SessionError::Stream(error)
    }
}

impl From<JtagError> for SessionError {
    fn from(error: JtagError) -> (wrapped: Self) {
        SessionError::Jtag(error)
    }
}

impl vstd::std_specs::convert::FromSpecImpl<JtagError> for SessionError {
    open spec fn obeys_from_spec() -> bool {
        true
    }

    open spec fn from_spec(error: JtagError) -> Self {
        SessionError::Jtag(error)
    }
}

/// A failure is wrapped as what it is: no failure of the transport, of a stream
/// or of driving the pins turns into another one on its way to the session.
pub proof fn law_failures_keep_their_cause(
    transport: TransportError,
    stream: StreamError,
    driving: JtagError,
    wrapped: SessionError,
    streamed: StreamError,
)
    ensures
        call_ensures(<StreamError as From<TransportError>>::from, (transport,), streamed)
            ==> streamed == StreamError::Transport(transport),
        call_ensures(<SessionError as From<TransportError>>::from, (transport,), wrapped)
            ==> wrapped == SessionError::Transport(transport),
        call_ensures(<SessionError as From<StreamError>>::from, (stream,), wrapped) ==> wrapped
            == SessionError::Stream(stream),
        call_ensures(<SessionError as From<JtagError>>::from, (driving,), wrapped) ==> wrapped
            == SessionError::Jtag(driving),
{
}

} // verus!
