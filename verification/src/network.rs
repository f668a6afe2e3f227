//! Wi-Fi link recovery and the states of the TCP connection.
//!
//! The link is maintained step by step. The caller looks at the clock and, when
//! a check is due, at the radio, calls `observe`, does what it answers, and
//! reports an attempt to reconnect to `attempted`.

use vstd::prelude::*;

use crate::time::{clamped, elapsed};

verus! {

/// Time from one check of the link to the next.
pub const LINK_CHECK_INTERVAL_MS: i64 = 10_000;

/// Time from one failed attempt to reconnect to the next attempt.
pub const RECONNECT_COOLDOWN_MS: i64 = 5_000;

/// Failed attempts in a row after which the device is reset.
pub const MAX_RECONNECT_RETRIES: u32 = 10;

/// Time from one failed attempt of the first connection to the next.
pub const CONNECT_RETRY_MS: u64 = 2_000;

/// Time that a new link is given to settle.
pub const LINK_SETTLE_MS: u64 = 1_000;

/// What the server distinguishes of the state of its socket.
#[derive(Debug, Clone, Copy, PartialEq, Eq, Structural)]
pub enum ConnectionState {
    Closed,
    Listening,
    Established,
    Transitioning,
}

/// States of a TCP connection.
#[derive(Debug, Clone, Copy, PartialEq, Eq, Structural)]
pub enum TcpState {
    Closed,
    Listen,
    SynSent,
    SynReceived,
    Established,
    FinWait1,
    FinWait2,
    CloseWait,
    Closing,
    LastAck,
    TimeWait,
}

/// What maintaining the link means for a session.
#[derive(Debug, Clone, Copy, PartialEq, Eq, Structural)]
pub enum LinkEvent {
    Stable,
    SessionInvalidated,
}

/// Why a socket operation failed.
#[derive(Debug, Clone, Copy, PartialEq, Eq, Structural)]
pub enum NetworkError {
    Disconnected,
    ListenFailed,
}

/// State of the Wi-Fi link.
#[derive(Debug, Clone, Copy, PartialEq, Eq, Structural)]
pub enum WifiLinkState {
    Connected,
    Disconnected,
    Connecting { retry_count: u32, last_attempt_ms: i64 },
}

/// What the caller does to the link.
#[derive(Debug, Clone, Copy, PartialEq, Eq, Structural)]
pub enum LinkAction {
    /// Nothing.
    Keep,
    /// Try to reconnect and report the result.
    Connect,
    /// The link cannot be recovered: reset the device.
    ResetDevice,
}

/// What the server distinguishes of a TCP state.
pub fn connection_state(state: TcpState) -> (connection: ConnectionState)
    ensures
        connection == ConnectionState::Closed <==> state == TcpState::Closed,
        connection == ConnectionState::Listening <==> state == TcpState::Listen,
        connection == ConnectionState::Established <==> state == TcpState::Established,
{
    match state {
        TcpState::Closed => ConnectionState::Closed,
        TcpState::Listen => ConnectionState::Listening,
        TcpState::Established => ConnectionState::Established,
        _ => ConnectionState::Transitioning,
    }
}

/// Whether bytes can still flow in one of the directions.
pub fn connection_alive(may_receive: bool, may_send: bool) -> (alive: bool)
    ensures
        alive == (may_receive || may_send),
{
    may_receive || may_send
}

/// The link after a check that found it connected or not.
pub open spec fn checked(link: WifiLinkState, connected: bool) -> WifiLinkState {
    if connected {
        WifiLinkState::Connected
    } else if link is Connected {
        WifiLinkState::Disconnected
    } else {
        link
    }
}

/// The link after an observation, which holds what a check found if one was due.
pub open spec fn observed(link: WifiLinkState, check: Option<bool>) -> WifiLinkState {
    match check {
        Some(connected) => checked(link, connected),
        None => link,
    }
}

/// What an observation means for a session: it is over exactly when a link that
/// was up is found down.
pub open spec fn link_event(link: WifiLinkState, check: Option<bool>) -> LinkEvent {
    if link is Connected && check == Some(false) {
        LinkEvent::SessionInvalidated
    } else {
        LinkEvent::Stable
    }
}

/// What is done to a link at a clock reading.
pub open spec fn link_action(link: WifiLinkState, now_ms: i64) -> LinkAction {
    match link {
        WifiLinkState::Connected => LinkAction::Keep,
        WifiLinkState::Disconnected => LinkAction::Connect,
        WifiLinkState::Connecting { retry_count, last_attempt_ms } => if clamped(
            now_ms - last_attempt_ms,
        ) < RECONNECT_COOLDOWN_MS {
            LinkAction::Keep
        } else if retry_count >= MAX_RECONNECT_RETRIES {
            LinkAction::ResetDevice
        } else {
            LinkAction::Connect
        },
    }
}

/// Failed attempts in a row.
pub open spec fn failed_attempts(link: WifiLinkState) -> nat {
    match link {
        WifiLinkState::Connecting { retry_count, .. } => retry_count as nat,
        _ => 0,
    }
}

/// The link after an attempt to reconnect.
pub open spec fn attempted_link(
    link: WifiLinkState,
    now_ms: i64,
    reconnected: bool,
) -> WifiLinkState {
    if reconnected {
        WifiLinkState::Connected
    } else {
        WifiLinkState::Connecting {
            retry_count: (failed_attempts(link) + 1) as u32,
            last_attempt_ms: now_ms,
        }
    }
}

/// Counted attempts lie within their limit.
pub open spec fn link_ok(link: WifiLinkState) -> bool {
    link matches WifiLinkState::Connecting { retry_count, .. } ==> 1 <= retry_count
        <= MAX_RECONNECT_RETRIES
}

/// Keeps the Wi-Fi link up.
pub struct LinkMonitor {
    link_state: WifiLinkState,
    last_link_check_ms: i64,
}

impl LinkMonitor {
    /// State of the link.
    pub closed spec fn link(&self) -> WifiLinkState {
        self.link_state
    }

    /// When the link was checked last.
    pub closed spec fn last_check(&self) -> i64 {
        self.last_link_check_ms
    }

    /// Counted attempts lie within their limit.
    pub open spec fn wf(&self) -> bool {
        link_ok(self.link())
    }

    /// Whether a check is due.
    pub open spec fn is_due(&self, now_ms: i64) -> bool {
        clamped(now_ms - self.last_check()) >= LINK_CHECK_INTERVAL_MS
    }

    /// A link that has just come up.
    pub fn new(now_ms: i64) -> (monitor: Self)
        ensures
            monitor.wf(),
            monitor.link() == WifiLinkState::Connected,
            monitor.last_check() == now_ms,
    {
        LinkMonitor { link_state: WifiLinkState::Connected, last_link_check_ms: now_ms }
    }

    /// State of the link.
    pub fn state(&self) -> (state: WifiLinkState)
        ensures
            state == self.link(),
    {
        self.link_state
    }

    /// Whether a check is due.
    pub fn check_due(&self, now_ms: i64) -> (due: bool)
        ensures
            due == self.is_due(now_ms),
    {
        elapsed(now_ms, self.last_link_check_ms) >= LINK_CHECK_INTERVAL_MS
    }

    /// Takes note of what a check found, if one was due, and decides what is
    /// done to the link.
    pub fn observe(&mut self, now_ms: i64, check: Option<bool>) -> (outcome: (
        LinkEvent,
        LinkAction,
    ))
        requires
            old(self).wf(),
            check is Some <==> old(self).is_due(now_ms),
        ensures
            final(self).wf(),
            final(self).link() == observed(old(self).link(), check),
            final(self).last_check() == (if check is Some {
                now_ms
            } else {
                old(self).last_check()
            }),
            outcome.0 == link_event(old(self).link(), check),
            outcome.1 == link_action(final(self).link(), now_ms),
    {
        let mut event = LinkEvent::Stable;
        if let Some(connected) = check {
            self.last_link_check_ms = now_ms;
            match self.link_state {
                WifiLinkState::Connected => {
                    if !connected {
                        self.link_state = WifiLinkState::Disconnected;
                        event = LinkEvent::SessionInvalidated;
                    }
                },
                _ => {
                    if connected {
                        self.link_state = WifiLinkState::Connected;
                    }
                },
            }
        }
        let action = match self.link_state {
            WifiLinkState::Connected => LinkAction::Keep,
            WifiLinkState::Disconnected => LinkAction::Connect,
            WifiLinkState::Connecting { retry_count, last_attempt_ms } => {
                if elapsed(now_ms, last_attempt_ms) < RECONNECT_COOLDOWN_MS {
                    LinkAction::Keep
                } else if retry_count >= MAX_RECONNECT_RETRIES {
                    LinkAction::ResetDevice
                } else {
                    LinkAction::Connect
                }
            },
        };
        (event, action)
    }

    /// Takes note of an attempt to reconnect at `now_ms`. Whether the socket is
    /// polled at once.
    pub fn attempted(&mut self, now_ms: i64, reconnected: bool) -> (poll: bool)
        requires
            old(self).wf(),
            link_action(old(self).link(), now_ms) == LinkAction::Connect,
        ensures
            final(self).wf(),
            final(self).link() == attempted_link(old(self).link(), now_ms, reconnected),
            final(self).last_check() == old(self).last_check(),
            poll == reconnected,
    {
        let retry_count: u32 = match self.link_state {
            WifiLinkState::Connecting { retry_count, .. } => retry_count + 1,
            _ => 1,
        };
        self.link_state = if reconnected {
            WifiLinkState::Connected
        } else {
            WifiLinkState::Connecting { retry_count, last_attempt_ms: now_ms }
        };
        reconnected
    }
}

/// The device is reset only after the full number of failed attempts, and never
/// while the link is up.
pub proof fn law_reset_is_the_last_resort(link: WifiLinkState, now_ms: i64)
    requires
        link_ok(link),
    ensures
        link_action(link, now_ms) == LinkAction::ResetDevice ==> failed_attempts(link)
            == MAX_RECONNECT_RETRIES,
        link_action(link, now_ms) == LinkAction::Connect ==> failed_attempts(link)
            < MAX_RECONNECT_RETRIES,
        link is Connected ==> link_action(link, now_ms) == LinkAction::Keep,
{
}

/// A failed attempt counts one, the next comes no earlier than after the
/// cooldown, and then one does come, until their number is used up.
pub proof fn law_attempts_are_spaced(link: WifiLinkState, now_ms: i64, then_ms: i64)
    requires
        link_ok(link),
        link_action(link, now_ms) == LinkAction::Connect,
    ensures
        link_ok(attempted_link(link, now_ms, false)),
        failed_attempts(attempted_link(link, now_ms, false)) == failed_attempts(link) + 1,
        then_ms - now_ms < RECONNECT_COOLDOWN_MS ==> link_action(
            attempted_link(link, now_ms, false),
            then_ms,
        ) == LinkAction::Keep,
        then_ms - now_ms >= RECONNECT_COOLDOWN_MS ==> link_action(
            attempted_link(link, now_ms, false),
            then_ms,
        ) == (if failed_attempts(link) + 1 < MAX_RECONNECT_RETRIES {
            LinkAction::Connect
        } else {
            LinkAction::ResetDevice
        }),
{
}

/// However the link was, it counts as up after a successful attempt and after a
/// check that found it up, with no failed attempts left to count.
pub proof fn law_recovery_is_complete(link: WifiLinkState, now_ms: i64)
    ensures
        attempted_link(link, now_ms, true) == WifiLinkState::Connected,
        observed(link, Some(true)) == WifiLinkState::Connected,
        failed_attempts(WifiLinkState::Connected) == 0,
{
}

/// A lost link invalidates a session once: checks that find it still down do
/// not do so again.
pub proof fn law_session_is_invalidated_once(link: WifiLinkState)
    ensures
        link_event(link, Some(false)) == LinkEvent::SessionInvalidated <==> link is Connected,
        link_event(observed(link, Some(false)), Some(false)) == LinkEvent::Stable,
        link_event(link, None) == LinkEvent::Stable,
        link_event(link, Some(true)) == LinkEvent::Stable,
{
}

/// A link that is down is reconnected at once, whatever the clock shows: an
/// observation that leaves it down asks for an attempt, and one that finds a
/// link down that was up ends the session and asks for an attempt in one step.
pub proof fn law_lost_link_is_reconnected_at_once(
    monitor: &mut LinkMonitor,
    now_ms: i64,
    check: Option<bool>,
    outcome: (LinkEvent, LinkAction),
)
    requires
        monitor.wf(),
        check is Some <==> now_ms - monitor.last_check() >= 10_000,
        call_ensures(LinkMonitor::observe, (monitor, now_ms, check), outcome),
    ensures
        final(monitor).link() is Disconnected ==> outcome.1 == LinkAction::Connect,
        old(monitor).link() is Connected && check == Some(false) ==> {
            &&& final(monitor).link() is Disconnected
            &&& outcome == (LinkEvent::SessionInvalidated, LinkAction::Connect)
        },
        old(monitor).link() is Disconnected && check != Some(true) ==> {
            &&& final(monitor).link() is Disconnected
            &&& outcome == (LinkEvent::Stable, LinkAction::Connect)
        },
{
}

/// An observation that finds the link up, or finds it up before and looks not
/// again, leaves it up and asks for nothing.
pub proof fn law_link_that_is_up_is_kept(
    monitor: &mut LinkMonitor,
    now_ms: i64,
    check: Option<bool>,
    outcome: (LinkEvent, LinkAction),
)
    requires
        monitor.wf(),
        check is Some <==> now_ms - monitor.last_check() >= 10_000,
        call_ensures(LinkMonitor::observe, (monitor, now_ms, check), outcome),
    ensures
        check == Some(true) || (check is None && old(monitor).link() is Connected) ==> {
            &&& final(monitor).link() is Connected
            &&& outcome == (LinkEvent::Stable, LinkAction::Keep)
        },
        check is Some ==> final(monitor).last_check() == now_ms,
        check is None ==> {
            &&& final(monitor).last_check() == old(monitor).last_check()
            &&& final(monitor).link() == old(monitor).link()
            &&& outcome.0 == LinkEvent::Stable
        },
{
}

/// While attempts fail, an observation asks for nothing until five seconds after
/// the last of them; then it asks for another one, or after ten for a reset.
pub proof fn law_failing_link_is_retried(
    monitor: &mut LinkMonitor,
    now_ms: i64,
    check: Option<bool>,
    outcome: (LinkEvent, LinkAction),
    retry_count: u32,
    last_attempt_ms: i64,
)
    requires
        monitor.wf(),
        check is Some <==> now_ms - monitor.last_check() >= 10_000,
        call_ensures(LinkMonitor::observe, (monitor, now_ms, check), outcome),
        monitor.link() == (WifiLinkState::Connecting { retry_count, last_attempt_ms }),
        check != Some(true),
    ensures
        final(monitor).link() == old(monitor).link(),
        outcome.0 == LinkEvent::Stable,
        now_ms - last_attempt_ms < 5_000 ==> outcome.1 == LinkAction::Keep,
        now_ms - last_attempt_ms >= 5_000 && retry_count < 10 ==> outcome.1 == LinkAction::Connect,
        now_ms - last_attempt_ms >= 5_000 && retry_count >= 10 ==> outcome.1
            == LinkAction::ResetDevice,
{
}

/// An attempt that succeeds brings the link up and has the socket polled. One
/// that fails is counted, as the first unless attempts failed before, and its
/// time is kept.
pub proof fn law_attempts_are_counted(
    monitor: &mut LinkMonitor,
    now_ms: i64,
    reconnected: bool,
    poll: bool,
)
    requires
        monitor.wf(),
        link_action(monitor.link(), now_ms) == LinkAction::Connect,
        call_ensures(LinkMonitor::attempted, (monitor, now_ms, reconnected), poll),
    ensures
        poll == reconnected,
        final(monitor).last_check() == old(monitor).last_check(),
        reconnected ==> final(monitor).link() is Connected,
        !reconnected ==> final(monitor).link() == (WifiLinkState::Connecting {
            retry_count: match old(monitor).link() {
                WifiLinkState::Connecting { retry_count, .. } => (retry_count + 1) as u32,
                _ => 1,
            },
            last_attempt_ms: now_ms,
        }),
{
}

/// A check is due ten seconds after the last one, and no earlier.
pub proof fn law_checks_are_ten_seconds_apart(monitor: LinkMonitor, now_ms: i64, due: bool)
    requires
        call_ensures(LinkMonitor::check_due, (&monitor, now_ms), due),
    ensures
        due <==> now_ms - monitor.last_check() >= 10_000,
{
}

/// The server tells apart a socket that is closed, listens or is connected, and
/// takes every other state for one that passes.
pub proof fn law_other_states_are_transitions(state: TcpState, connection: ConnectionState)
    requires
        call_ensures(connection_state, (state,), connection),
    ensures
        state is Closed ==> connection is Closed,
        state is Listen ==> connection is Listening,
        state is Established ==> connection is Established,
        !(state is Closed || state is Listen || state is Established)
            ==> connection is Transitioning,
{
}

/// A connection is alive as long as one direction is open.
pub proof fn law_half_open_is_alive(may_receive: bool, may_send: bool, alive: bool)
    requires
        call_ensures(connection_alive, (may_receive, may_send), alive),
    ensures
        may_receive ==> alive,
        may_send ==> alive,
        alive ==> may_receive || may_send,
{
}

/// The first connection is tried every two seconds, and a new link is given a
/// second to settle. A monitor starts with a link that is up and was just
/// checked.
pub proof fn law_connection_starts_up(now_ms: i64, monitor: LinkMonitor, state: WifiLinkState)
    requires
        call_ensures(LinkMonitor::new, (now_ms,), monitor),
        call_ensures(LinkMonitor::state, (&monitor,), state),
    ensures
        CONNECT_RETRY_MS == 2_000,
        LINK_SETTLE_MS == 1_000,
        state is Connected,
        monitor.last_check() == now_ms,
{
}

} // verus!
