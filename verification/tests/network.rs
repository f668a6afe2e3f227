use esp32_xvc::network::{
    connection_alive, connection_state, ConnectionState, LinkAction, LinkEvent, LinkMonitor,
    TcpState, WifiLinkState,
};

#[test]
fn tcp_states_are_grouped() {
    assert_eq!(connection_state(TcpState::Closed), ConnectionState::Closed);
    assert_eq!(connection_state(TcpState::Listen), ConnectionState::Listening);
    assert_eq!(connection_state(TcpState::Established), ConnectionState::Established);
    for state in [
        TcpState::SynSent,
        TcpState::SynReceived,
        TcpState::FinWait1,
        TcpState::FinWait2,
        TcpState::CloseWait,
        TcpState::Closing,
        TcpState::LastAck,
        TcpState::TimeWait,
    ] {
        assert_eq!(connection_state(state), ConnectionState::Transitioning);
    }
}

#[test]
fn one_direction_keeps_a_connection_alive() {
    assert!(connection_alive(true, false));
    assert!(connection_alive(false, true));
    assert!(!connection_alive(false, false));
}

#[test]
fn checks_are_ten_seconds_apart() {
    let mut monitor = LinkMonitor::new(1_000);
    assert!(!monitor.check_due(10_999));
    assert!(monitor.check_due(11_000));
    assert_eq!(monitor.observe(10_999, None), (LinkEvent::Stable, LinkAction::Keep));
    assert_eq!(monitor.observe(11_000, Some(true)), (LinkEvent::Stable, LinkAction::Keep));
    assert!(!monitor.check_due(20_999));
}

#[test]
fn lost_link_invalidates_the_session_and_reconnects() {
    let mut monitor = LinkMonitor::new(0);
    assert_eq!(
        monitor.observe(10_000, Some(false)),
        (LinkEvent::SessionInvalidated, LinkAction::Connect)
    );
    assert!(monitor.attempted(10_000, true));
    assert_eq!(monitor.state(), WifiLinkState::Connected);
}

#[test]
fn failed_attempts_are_spaced_and_counted() {
    let mut monitor = LinkMonitor::new(0);
    let (_, action) = monitor.observe(10_000, Some(false));
    assert_eq!(action, LinkAction::Connect);
    assert!(!monitor.attempted(10_000, false));
    assert_eq!(
        monitor.state(),
        WifiLinkState::Connecting { retry_count: 1, last_attempt_ms: 10_000 }
    );
    assert_eq!(monitor.observe(14_999, None).1, LinkAction::Keep);
    assert_eq!(monitor.observe(15_000, None).1, LinkAction::Connect);
    assert!(!monitor.attempted(15_000, false));
    assert_eq!(
        monitor.state(),
        WifiLinkState::Connecting { retry_count: 2, last_attempt_ms: 15_000 }
    );
}

#[test]
fn ten_failures_reset_the_device() {
    let mut monitor = LinkMonitor::new(0);
    let mut now = 10_000;
    let (event, mut action) = monitor.observe(now, Some(false));
    assert_eq!(event, LinkEvent::SessionInvalidated);
    for _ in 0..10 {
        assert_eq!(action, LinkAction::Connect);
        assert!(!monitor.attempted(now, false));
        now += 5_000;
        let check = if monitor.check_due(now) { Some(false) } else { None };
        let (event, next) = monitor.observe(now, check);
        assert_eq!(event, LinkEvent::Stable);
        action = next;
    }
    assert_eq!(action, LinkAction::ResetDevice);
}

#[test]
fn link_that_comes_back_by_itself_counts_as_up() {
    let mut monitor = LinkMonitor::new(0);
    monitor.observe(10_000, Some(false));
    monitor.attempted(10_000, false);
    assert_eq!(monitor.observe(20_000, Some(true)), (LinkEvent::Stable, LinkAction::Keep));
    assert_eq!(monitor.state(), WifiLinkState::Connected);
}
