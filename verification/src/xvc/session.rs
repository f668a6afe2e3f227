//! What a client sees of a whole session.

use vstd::prelude::*;

use crate::bits::byte_len;
use crate::jtag::service::applied_period_us;
use crate::xvc::error::SessionError;
use crate::xvc::server::{session_over, ServerAction, ServerStage};
use crate::xvc::stream::{StreamAction, StreamShift};
use crate::xvc::wire::{
    encode, frame, is_frameable, law_consumed_bytes_are_the_request,
    law_consumed_header_is_the_shift, law_decodes_what_was_sent, law_next_request_follows,
    law_oversized_shift_is_streamed, law_written_bytes_add_up, le_bytes, Frame, Request,
    BUFFERED_SHIFT_MAX_BITS, GETINFO_RESPONSE, SHIFT_TAG,
};

verus! {

/// What a client can tell of the server.
pub struct SessionState {
    /// The bytes received and not yet consumed.
    pub window: Seq<u8>,
    /// What the server waits for.
    pub stage: ServerStage,
    /// The reply that is being sent.
    pub reply: Seq<u8>,
    /// The TCK period.
    pub tck: u32,
}

/// One step of a session.
pub enum SessionEvent {
    /// These bytes came from the client.
    Received { bytes: Seq<u8> },
    /// A buffered shift was driven and gave this TDO vector.
    Driven { request: Request, tdo: Seq<u8> },
    /// All of this reply was sent.
    Sent { reply: Seq<u8> },
    /// A streamed shift was executed. `fetched` came from the client meanwhile,
    /// `left` is what is left in the window, and `tdo` was sent.
    Streamed { request: Request, fetched: Seq<u8>, left: Seq<u8>, tdo: Seq<u8> },
}

/// What the server does about the bytes in its window.
pub open spec fn action_on(window: Seq<u8>) -> ServerAction {
    match frame(window) {
        Frame::NeedMore => ServerAction::Read,
        Frame::ProtocolError => session_over(SessionError::Protocol),
        Frame::StreamingShift { bit_count, .. } => ServerAction::Stream {
            bit_count: bit_count as usize,
        },
        Frame::Command { request, .. } => match request {
            Request::GetInfo => ServerAction::Send { length: 22 },
            Request::SetTck { .. } => ServerAction::Send { length: 4 },
            Request::Shift { bit_count, .. } => ServerAction::Shift { bits: bit_count as usize },
        },
    }
}

/// Where the server goes from these bytes in its window and this TCK period.
pub open spec fn moves_to(window: Seq<u8>, tck: u32, after: SessionState) -> bool {
    match frame(window) {
        Frame::NeedMore => {
            &&& after.stage is Reading
            &&& after.window == window
            &&& after.tck == tck
        },
        Frame::ProtocolError => {
            &&& after.stage is Closed
            &&& after.window == window
            &&& after.tck == tck
        },
        Frame::StreamingShift { bit_count, consumed } => {
            &&& after.stage == (ServerStage::Streaming { bit_count })
            &&& after.window == window.skip(consumed as int)
            &&& after.tck == tck
        },
        Frame::Command { request, consumed } => {
            &&& after.window == window
            &&& match request {
                Request::GetInfo => {
                    &&& after.stage == (ServerStage::Replying { consumed })
                    &&& after.reply == GETINFO_RESPONSE@
                    &&& after.tck == tck
                },
                Request::SetTck { requested_period_ns } => {
                    let applied = applied_period_us(requested_period_ns);
                    &&& after.stage == (ServerStage::Replying { consumed })
                    &&& after.reply == le_bytes((applied * 1_000) as u32)
                    &&& after.tck == applied
                },
                Request::Shift { bit_count, .. } => {
                    &&& after.stage == (ServerStage::Driving { bits: bit_count, consumed })
                    &&& after.tck == tck
                },
            }
        },
    }
}

/// How a step that does not fail takes the server on.
pub open spec fn advances(before: SessionState, event: SessionEvent, after: SessionState) -> bool {
    match event {
        SessionEvent::Received { bytes } => {
            &&& before.stage is Reading
            &&& moves_to(before.window + bytes, before.tck, after)
        },
        SessionEvent::Driven { request, tdo } => {
            &&& before.stage matches ServerStage::Driving { bits, consumed }
            &&& frame(before.window) == (Frame::Command { request, consumed })
            &&& request matches Request::Shift { bit_count, .. }
            &&& bit_count == bits
            &&& tdo.len() == byte_len(bits)
            &&& after.window == before.window
            &&& after.stage == (ServerStage::Replying { consumed })
            &&& after.reply == tdo
            &&& after.tck == before.tck
        },
        SessionEvent::Sent { reply } => {
            &&& before.stage matches ServerStage::Replying { consumed }
            &&& reply == before.reply
            &&& moves_to(before.window.skip(consumed as int), before.tck, after)
        },
        SessionEvent::Streamed { request, fetched, left, tdo } => {
            &&& before.stage matches ServerStage::Streaming { bit_count: bits }
            &&& request matches Request::Shift { bit_count, tms, tdi }
            &&& bit_count == bits
            &&& tms.len() == byte_len(bits)
            &&& tdi.len() == byte_len(bits)
            &&& tdo.len() == byte_len(bits)
            &&& before.window + fetched == tms + tdi + left
            &&& moves_to(left, before.tck, after)
        },
    }
}

/// A request with the reply that was sent for it.
pub struct Answer {
    pub request: Request,
    pub reply: Seq<u8>,
}

/// A request that a client can send: the vectors of a shift have the length that
/// its bit count asks for. It may be too large for a frame.
pub open spec fn is_sendable(request: Request) -> bool {
    match request {
        Request::Shift { bit_count, tms, tdi } => {
            &&& bit_count <= u32::MAX
            &&& tms.len() == byte_len(bit_count)
            &&& tdi.len() == byte_len(bit_count)
        },
        _ => true,
    }
}

/// A reply that answers its request: the server's name and size, the period in
/// force, or a TDO vector of the length of the shift.
pub open spec fn is_answer(answer: Answer) -> bool {
    match answer.request {
        Request::GetInfo => answer.reply == GETINFO_RESPONSE@,
        Request::SetTck { requested_period_ns } => answer.reply == le_bytes(
            (applied_period_us(requested_period_ns) * 1_000) as u32,
        ),
        Request::Shift { bit_count, .. } => answer.reply.len() == byte_len(bit_count),
    }
}

/// The bytes by which a client sends requests one after the other.
pub open spec fn encode_all(requests: Seq<Request>) -> Seq<u8>
    decreases requests.len(),
{
    if requests.len() == 0 {
        Seq::empty()
    } else {
        encode(requests[0]) + encode_all(requests.drop_first())
    }
}

/// The requests of answers.
pub open spec fn requests_of(answers: Seq<Answer>) -> Seq<Request> {
    Seq::new(answers.len(), |i: int| answers[i].request)
}

/// The replies of answers, one after the other.
pub open spec fn replies_of(answers: Seq<Answer>) -> Seq<u8>
    decreases answers.len(),
{
    if answers.len() == 0 {
        Seq::empty()
    } else {
        replies_of(answers.drop_last()) + answers.last().reply
    }
}

/// Those answers that answer shifts.
pub open spec fn shifts_in(answers: Seq<Answer>) -> Seq<Answer>
    decreases answers.len(),
{
    if answers.len() == 0 {
        Seq::empty()
    } else if answers.last().request is Shift {
        shifts_in(answers.drop_last()).push(answers.last())
    } else {
        shifts_in(answers.drop_last())
    }
}

/// The bytes that came from the client in a step.
pub open spec fn received_in(event: SessionEvent) -> Seq<u8> {
    match event {
        SessionEvent::Received { bytes } => bytes,
        SessionEvent::Streamed { fetched, .. } => fetched,
        _ => Seq::empty(),
    }
}

/// The bytes that were sent to the client in a step.
pub open spec fn sent_in(event: SessionEvent) -> Seq<u8> {
    match event {
        SessionEvent::Sent { reply } => reply,
        SessionEvent::Streamed { tdo, .. } => tdo,
        _ => Seq::empty(),
    }
}

/// The shift that was driven in a step, with the TDO vector that it gave.
pub open spec fn driven_in(event: SessionEvent) -> Seq<Answer> {
    match event {
        SessionEvent::Driven { request, tdo } => seq![Answer { request, reply: tdo }],
        SessionEvent::Streamed { request, tdo, .. } => seq![Answer { request, reply: tdo }],
        _ => Seq::empty(),
    }
}

/// The request that was served in a step that started in `before`.
pub open spec fn answered_in(before: SessionState, event: SessionEvent) -> Seq<Answer> {
    match event {
        SessionEvent::Sent { reply } => seq![
            Answer { request: frame(before.window)->request, reply },
        ],
        SessionEvent::Streamed { request, tdo, .. } => seq![Answer { request, reply: tdo }],
        _ => Seq::empty(),
    }
}

/// All bytes from the client in the first `n` steps.
pub open spec fn received_by(events: Seq<SessionEvent>, n: nat) -> Seq<u8>
    decreases n,
{
    if n == 0 {
        Seq::empty()
    } else {
        received_by(events, (n - 1) as nat) + received_in(events[n - 1])
    }
}

/// All bytes to the client in the first `n` steps.
pub open spec fn sent_by(events: Seq<SessionEvent>, n: nat) -> Seq<u8>
    decreases n,
{
    if n == 0 {
        Seq::empty()
    } else {
        sent_by(events, (n - 1) as nat) + sent_in(events[n - 1])
    }
}

/// All shifts that were driven in the first `n` steps.
pub open spec fn driven_by(events: Seq<SessionEvent>, n: nat) -> Seq<Answer>
    decreases n,
{
    if n == 0 {
        Seq::empty()
    } else {
        driven_by(events, (n - 1) as nat) + driven_in(events[n - 1])
    }
}

/// All requests that were served in the first `n` steps.
pub open spec fn answered_by(
    states: Seq<SessionState>,
    events: Seq<SessionEvent>,
    n: nat,
) -> Seq<Answer>
    decreases n,
{
    if n == 0 {
        Seq::empty()
    } else {
        answered_by(states, events, (n - 1) as nat) + answered_in(states[n - 1], events[n - 1])
    }
}

/// A session without a failure: it starts with an empty window, and every step
/// takes the server on.
pub open spec fn is_session(states: Seq<SessionState>, events: Seq<SessionEvent>) -> bool {
    &&& states.len() == events.len() + 1
    &&& states[0].stage is Reading
    &&& states[0].window.len() == 0
    &&& forall|i: int|
        0 <= i < events.len() ==> advances(states[i], #[trigger] events[i], states[i + 1])
}

/// A shift that was driven and whose reply is not sent yet.
spec fn pending(state: SessionState) -> Seq<Answer> {
    let request = frame(state.window)->request;
    if state.stage is Replying && request is Shift {
        seq![Answer { request, reply: state.reply }]
    } else {
        Seq::empty()
    }
}

/// The state agrees with the requests that were served and the bytes that came.
spec fn agrees(served: Seq<Request>, received: Seq<u8>, state: SessionState) -> bool {
    match state.stage {
        ServerStage::Reading => {
            &&& frame(state.window) is NeedMore
            &&& received == encode_all(served) + state.window
        },
        ServerStage::Replying { consumed } => {
            &&& frame(state.window) matches Frame::Command { request, consumed: length }
            &&& length == consumed
            &&& is_answer(Answer { request, reply: state.reply })
            &&& received == encode_all(served) + state.window
        },
        ServerStage::Driving { bits, consumed } => {
            &&& frame(state.window) matches Frame::Command { request, consumed: length }
            &&& length == consumed
            &&& received == encode_all(served) + state.window
        },
        ServerStage::Streaming { bit_count } => {
            &&& BUFFERED_SHIFT_MAX_BITS < bit_count <= u32::MAX
            &&& received == encode_all(served) + (SHIFT_TAG@ + le_bytes(bit_count as u32)
                + state.window)
        },
        _ => true,
    }
}

/// One request more.
proof fn lemma_encode_push(requests: Seq<Request>, request: Request)
    ensures
        encode_all(requests.push(request)) == encode_all(requests) + encode(request),
    decreases requests.len(),
{
    let longer = requests.push(request);
    if requests.len() == 0 {
        assert(longer.drop_first() =~= requests);
        assert(encode_all(longer) =~= encode_all(requests) + encode(request));
    } else {
        assert(longer.drop_first() =~= requests.drop_first().push(request));
        lemma_encode_push(requests.drop_first(), request);
        assert(encode_all(longer) =~= encode_all(requests) + encode(request));
    }
}

/// A move keeps the agreement.
proof fn lemma_move_agrees(
    served: Seq<Request>,
    received: Seq<u8>,
    window: Seq<u8>,
    tck: u32,
    after: SessionState,
)
    requires
        received == encode_all(served) + window,
        moves_to(window, tck, after),
    ensures
        agrees(served, received, after),
        pending(after) == Seq::<Answer>::empty(),
{
    if frame(window) is StreamingShift {
        law_consumed_header_is_the_shift(window);
    }
}

/// One step keeps the agreement.
proof fn lemma_step_agrees(
    answers: Seq<Answer>,
    received: Seq<u8>,
    before: SessionState,
    event: SessionEvent,
    after: SessionState,
)
    requires
        agrees(requests_of(answers), received, before),
        advances(before, event, after),
    ensures
        agrees(
            requests_of(answers + answered_in(before, event)),
            received + received_in(event),
            after,
        ),
        forall|i: int|
            0 <= i < answered_in(before, event).len() ==> is_sendable(
                (#[trigger] answered_in(before, event)[i]).request,
            ) && is_answer(answered_in(before, event)[i]),
        pending(before) + driven_in(event) == shifts_in(answered_in(before, event)) + pending(
            after,
        ),
        replies_of(answered_in(before, event)) == sent_in(event),
        answered_in(before, event).len() <= 1,
{
    let none = Seq::<Answer>::empty();
    assert(answers + none =~= answers);
    assert(none + none =~= none);
    assert(received + Seq::<u8>::empty() =~= received);
    let served = requests_of(answers);
    assert(shifts_in(none) =~= none);
    match event {
        SessionEvent::Received { bytes } => {
            assert(received + bytes =~= encode_all(served) + (before.window + bytes));
            lemma_move_agrees(
                served,
                received + bytes,
                before.window + bytes,
                before.tck,
                after,
            );
        },
        SessionEvent::Driven { request, tdo } => {
            let drive = seq![Answer { request, reply: tdo }];
            assert(none + drive =~= drive);
        },
        SessionEvent::Sent { reply } => {
            let request = frame(before.window)->request;
            let answer = Answer { request, reply };
            let consumed = frame(before.window)->Command_consumed as int;
            let rest = before.window.skip(consumed);
            law_consumed_bytes_are_the_request(before.window);
            lemma_encode_push(served, request);
            assert(requests_of(answers + seq![answer]) =~= served.push(request));
            assert(received =~= encode_all(served.push(request)) + rest);
            lemma_move_agrees(served.push(request), received, rest, before.tck, after);
            lemma_single(answer);
            assert(pending(before) + none =~= pending(before));
            assert(pending(before) =~= shifts_in(seq![answer]) + pending(after));
        },
        SessionEvent::Streamed { request, fetched, left, tdo } => {
            let answer = Answer { request, reply: tdo };
            let count = before.stage->bit_count as u32;
            let header = SHIFT_TAG@ + le_bytes(count);
            let tms = request->tms;
            let tdi = request->tdi;
            lemma_encode_push(served, request);
            assert(requests_of(answers + seq![answer]) =~= served.push(request));
            assert(encode(request) =~= header + (tms + tdi));
            assert(received + fetched =~= encode_all(served) + header + (before.window + fetched));
            assert(received + fetched =~= encode_all(served.push(request)) + left);
            lemma_move_agrees(served.push(request), received + fetched, left, before.tck, after);
            lemma_single(answer);
            assert(none + seq![answer] =~= seq![answer] + none);
        },
    }
}

/// A single answer.
proof fn lemma_single(answer: Answer)
    ensures
        replies_of(seq![answer]) == answer.reply,
        shifts_in(seq![answer]) == if answer.request is Shift {
            seq![answer]
        } else {
            Seq::<Answer>::empty()
        },
{
    let one = seq![answer];
    let none = Seq::<Answer>::empty();
    assert(one.drop_last() =~= none);
    assert(replies_of(none) == Seq::<u8>::empty());
    assert(shifts_in(none) == none);
    assert(replies_of(one) =~= answer.reply);
    assert(shifts_in(one) =~= if answer.request is Shift {
        one
    } else {
        none
    });
}

/// Answers one after the other.
proof fn lemma_answers_append(first: Seq<Answer>, second: Seq<Answer>)
    requires
        second.len() <= 1,
    ensures
        replies_of(first + second) == replies_of(first) + replies_of(second),
        shifts_in(first + second) == shifts_in(first) + shifts_in(second),
{
    if second.len() == 0 {
        assert(first + second =~= first);
        assert(replies_of(first) + replies_of(second) =~= replies_of(first));
        assert(shifts_in(first) + shifts_in(second) =~= shifts_in(first));
    } else {
        assert(second =~= seq![second[0]]);
        lemma_single(second[0]);
        assert((first + second).drop_last() =~= first);
        assert(shifts_in(first + second) =~= shifts_in(first) + shifts_in(second));
    }
}

/// The state after `n` steps agrees with what happened in them.
proof fn lemma_session_agrees(states: Seq<SessionState>, events: Seq<SessionEvent>, n: nat)
    requires
        is_session(states, events),
        n <= events.len(),
    ensures
        agrees(
            requests_of(answered_by(states, events, n)),
            received_by(events, n),
            states[n as int],
        ),
        forall|i: int|
            0 <= i < answered_by(states, events, n).len() ==> is_sendable(
                (#[trigger] answered_by(states, events, n)[i]).request,
            ) && is_answer(answered_by(states, events, n)[i]),
        driven_by(events, n) == shifts_in(answered_by(states, events, n)) + pending(
            states[n as int],
        ),
        sent_by(events, n) == replies_of(answered_by(states, events, n)),
    decreases n,
{
    if n == 0 {
        assert(states[0].window =~= Seq::<u8>::empty());
        assert(requests_of(Seq::<Answer>::empty()) =~= Seq::<Request>::empty());
        assert(encode_all(Seq::<Request>::empty()) =~= Seq::<u8>::empty());
        assert(received_by(events, 0) =~= encode_all(Seq::<Request>::empty()) + states[0].window);
        assert(frame(states[0].window) is NeedMore);
        assert(shifts_in(Seq::<Answer>::empty()) =~= Seq::<Answer>::empty());
        assert(replies_of(Seq::<Answer>::empty()) =~= Seq::<u8>::empty());
    } else {
        let m = (n - 1) as nat;
        let before = states[m as int];
        let event = events[m as int];
        let answers = answered_by(states, events, m);
        let more = answered_in(before, event);
        lemma_session_agrees(states, events, m);
        lemma_step_agrees(answers, received_by(events, m), before, event, states[n as int]);
        lemma_answers_append(answers, more);
        assert(driven_by(events, n) =~= shifts_in(answers) + (pending(before) + driven_in(event)));
        assert(driven_by(events, n) =~= shifts_in(answers + more) + pending(states[n as int]));
        assert forall|i: int| 0 <= i < (answers + more).len() implies is_sendable(
            (#[trigger] (answers + more)[i]).request,
        ) && is_answer((answers + more)[i]) by {
            if i >= answers.len() {
                assert((answers + more)[i] == more[i - answers.len()]);
            }
        }
    }
}

/// What a client has sent at the start of some bytes can be told from them.
proof fn lemma_request_is_unique(a: Request, b: Request, after_a: Seq<u8>, after_b: Seq<u8>)
    requires
        is_sendable(a),
        is_sendable(b),
        encode(a) + after_a == encode(b) + after_b,
    ensures
        a == b,
        after_a == after_b,
{
    lemma_request_is_recognised(a, after_a);
    lemma_request_is_recognised(b, after_b);
    let data = encode(a) + after_a;
    if !is_frameable(a) {
        let bytes = byte_len(a->Shift_bit_count) as int;
        assert(a->tms =~= data.subrange(10, 10 + bytes));
        assert(a->tdi =~= data.subrange(10 + bytes, 10 + 2 * bytes));
        assert(b->tms =~= data.subrange(10, 10 + bytes));
        assert(b->tdi =~= data.subrange(10 + bytes, 10 + 2 * bytes));
    }
    law_next_request_follows(a, after_a);
    law_next_request_follows(b, after_b);
}

/// A request that was sent is recognised.
proof fn lemma_request_is_recognised(request: Request, rest: Seq<u8>)
    requires
        is_sendable(request),
    ensures
        is_frameable(request) ==> frame(encode(request) + rest) == (Frame::Command {
            request,
            consumed: encode(request).len(),
        }),
        !is_frameable(request) ==> request is Shift && frame(encode(request) + rest) == (
        Frame::StreamingShift { bit_count: request->Shift_bit_count, consumed: 10 }),
        !(frame(encode(request) + rest) is NeedMore),
        encode(request).len() > 0,
{
    if is_frameable(request) {
        law_decodes_what_was_sent(request, rest);
    } else {
        let count = request->Shift_bit_count as u32;
        let tail = request->tms + request->tdi + rest;
        assert(encode(request) + rest =~= SHIFT_TAG@ + le_bytes(count) + tail);
        law_oversized_shift_is_streamed(count, tail);
    }
}

/// Requests can be told from their bytes.
proof fn lemma_requests_are_unique(served: Seq<Request>, window: Seq<u8>, requests: Seq<Request>)
    requires
        encode_all(served) + window == encode_all(requests),
        frame(window) is NeedMore,
        forall|i: int| 0 <= i < served.len() ==> is_sendable(#[trigger] served[i]),
        forall|i: int| 0 <= i < requests.len() ==> is_sendable(#[trigger] requests[i]),
    ensures
        served == requests,
        window.len() == 0,
    decreases requests.len(),
{
    if served.len() == 0 {
        assert(encode_all(served) + window =~= window);
        if requests.len() > 0 {
            assert(is_sendable(requests[0]));
            lemma_request_is_recognised(requests[0], encode_all(requests.drop_first()));
        }
        assert(served =~= requests);
    } else {
        assert(is_sendable(served[0]));
        lemma_request_is_recognised(served[0], Seq::empty());
        if requests.len() > 0 {
            assert(is_sendable(requests[0]));
            let rest = served.drop_first();
            let others = requests.drop_first();
            assert(encode(served[0]) + (encode_all(rest) + window) =~= encode_all(served) + window);
            lemma_request_is_unique(
                served[0],
                requests[0],
                encode_all(rest) + window,
                encode_all(others),
            );
            assert forall|i: int| 0 <= i < rest.len() implies is_sendable(#[trigger] rest[i]) by {
                assert(rest[i] == served[i + 1]);
            }
            assert forall|i: int| 0 <= i < others.len() implies is_sendable(
                #[trigger] others[i],
            ) by {
                assert(others[i] == requests[i + 1]);
            }
            lemma_requests_are_unique(rest, window, others);
            assert(served =~= requests) by {
                assert forall|i: int| 0 < i < served.len() implies served[i] == requests[i] by {
                    assert(served[i] == rest[i - 1]);
                    assert(requests[i] == others[i - 1]);
                }
            }
        }
    }
}

/// A streamed shift that succeeded is one step of a session: the bytes that it
/// took are the two vectors of the request, and the bytes that it sent are the
/// TDO vector.
pub proof fn law_streamed_shift_is_one_step(
    shift: &StreamShift<'_>,
    before: SessionState,
    left: Seq<u8>,
    after: SessionState,
)
    requires
        shift.awaits(StreamAction::Finished(Ok(()))),
        shift.balanced(left),
        before.stage == (ServerStage::Streaming { bit_count: shift.bits() }),
        before.window == shift.offered(),
        moves_to(left, before.tck, after),
    ensures
        advances(
            before,
            SessionEvent::Streamed {
                request: Request::Shift {
                    bit_count: shift.bits(),
                    tms: shift.input().take(shift.bytes() as int),
                    tdi: shift.input().skip(shift.bytes() as int),
                },
                fetched: shift.fetched(),
                left,
                tdo: shift.sent_bytes(),
            },
            after,
        ),
{
    let bytes = shift.bytes() as int;
    assert(shift.input().take(bytes) + shift.input().skip(bytes) =~= shift.input());
}

/// However a client's bytes are cut, its requests are answered one by one and in
/// order. When all bytes of `requests` have come, nothing has failed and the
/// server waits for more, then those requests were served and no others, the
/// bytes sent are their replies one after the other, every reply answers its
/// request, and every shift, buffered or streamed, was driven once, with its own
/// vectors, and answered with the TDO vector that it gave.
pub proof fn law_session_answers_in_order(
    states: Seq<SessionState>,
    events: Seq<SessionEvent>,
    requests: Seq<Request>,
)
    requires
        is_session(states, events),
        forall|i: int| 0 <= i < requests.len() ==> is_sendable(#[trigger] requests[i]),
        received_by(events, events.len()) == encode_all(requests),
        states.last().stage is Reading,
    ensures
        ({
            let answers = answered_by(states, events, events.len());
            &&& requests_of(answers) == requests
            &&& forall|i: int| 0 <= i < answers.len() ==> is_answer(#[trigger] answers[i])
            &&& sent_by(events, events.len()) == replies_of(answers)
            &&& driven_by(events, events.len()) == shifts_in(answers)
            &&& states.last().window.len() == 0
        }),
{
    let answers = answered_by(states, events, events.len());
    let last = states.last();
    lemma_session_agrees(states, events, events.len());
    assert forall|i: int| 0 <= i < requests_of(answers).len() implies is_sendable(
        #[trigger] requests_of(answers)[i],
    ) by {
        assert(is_sendable(answers[i].request));
    }
    lemma_requests_are_unique(requests_of(answers), last.window, requests);
    assert(shifts_in(answers) + pending(last) =~= shifts_in(answers));
}

/// An answer fits its request: a query is answered with the line
/// `xvcServer_v1.0:196608`, a clock request with four bytes that add up to the
/// shortest period of whole microseconds that is not shorter, between one and a
/// thousand, and a shift with as many bytes as its bits take.
pub proof fn law_answers_fit_their_requests(answer: Answer)
    requires
        is_answer(answer),
    ensures
        match answer.request {
            Request::GetInfo => answer.reply == seq![
                0x78u8,
                0x76,
                0x63,
                0x53,
                0x65,
                0x72,
                0x76,
                0x65,
                0x72,
                0x5f,
                0x76,
                0x31,
                0x2e,
                0x30,
                0x3a,
                0x31,
                0x39,
                0x36,
                0x36,
                0x30,
                0x38,
                0x0a,
            ],
            Request::SetTck { requested_period_ns } => {
                let reply = answer.reply;
                let applied = reply[0] + 256 * reply[1] + 65_536 * reply[2] + 16_777_216 * reply[3];
                &&& reply.len() == 4
                &&& applied % 1_000 == 0
                &&& requested_period_ns <= 1_000 ==> applied == 1_000
                &&& 1_000 <= requested_period_ns <= 1_000_000 ==> requested_period_ns <= applied
                    < requested_period_ns + 1_000
                &&& requested_period_ns > 1_000_000 ==> applied == 1_000_000
            },
            Request::Shift { bit_count, .. } => bit_count <= 8 * answer.reply.len() < bit_count + 8,
        },
{
    match answer.request {
        Request::GetInfo => {
            assert(GETINFO_RESPONSE@ =~= seq![
                0x78u8,
                0x76,
                0x63,
                0x53,
                0x65,
                0x72,
                0x76,
                0x65,
                0x72,
                0x5f,
                0x76,
                0x31,
                0x2e,
                0x30,
                0x3a,
                0x31,
                0x39,
                0x36,
                0x36,
                0x30,
                0x38,
                0x0a,
            ]);
        },
        Request::SetTck { requested_period_ns } => {
            law_written_bytes_add_up((applied_period_us(requested_period_ns) * 1_000) as u32);
        },
        Request::Shift { .. } => {},
    }
}

} // verus!
