use sshx::transport::{backoff_delay, ConnState, Link, LinkAction, LinkEvent, MAX_DELAY_MS};

#[test]
fn backoff_values() {
    assert_eq!(backoff_delay(0, 0), 500);
    assert_eq!(backoff_delay(1, 0), 1000);
    assert_eq!(backoff_delay(2, 999), 2999);
    assert_eq!(backoff_delay(2, 2001), 2001);
    assert_eq!(backoff_delay(10, 0), MAX_DELAY_MS);
    assert_eq!(backoff_delay(u32::MAX, u64::MAX), MAX_DELAY_MS);
}

#[test]
fn startup_connects_and_resumes() {
    let mut l = Link::new();
    assert_eq!(l.state, ConnState::Disconnected);
    assert_eq!(l.step(LinkEvent::Start, 0), LinkAction::Connect);
    assert_eq!(l.state, ConnState::Connecting);
    assert_eq!(l.step(LinkEvent::ConnectOk, 0), LinkAction::Resume);
    assert_eq!(l.state, ConnState::Connected);
}

#[test]
fn three_drops_reconnect_with_growing_delays() {
    let mut l = Link::new();
    l.step(LinkEvent::Start, 0);
    l.step(LinkEvent::ConnectOk, 0);
    let mut last = 0u64;
    for jitter in [499u64, 0, 3999] {
        let delay = match l.step(LinkEvent::Dropped, jitter) {
            LinkAction::Wait(d) => d,
            other => panic!("unexpected {:?}", other),
        };
        assert!(delay > last);
        last = delay;
        assert_eq!(l.state, ConnState::Reconnecting);
        assert_eq!(l.step(LinkEvent::RetryDue, 0), LinkAction::Connect);
        assert_eq!(l.step(LinkEvent::ConnectOk, 0), LinkAction::Resume);
        assert_eq!(l.state, ConnState::Connected);
    }
    assert_eq!(l.failures, 3);
    l.step(LinkEvent::Stable, 0);
    assert_eq!(l.failures, 0);
}

#[test]
fn failed_attempts_keep_retrying() {
    let mut l = Link::new();
    l.step(LinkEvent::Start, 0);
    for _ in 0..20 {
        assert!(matches!(l.step(LinkEvent::ConnectFailed, 7), LinkAction::Wait(_)));
        assert_eq!(l.step(LinkEvent::RetryDue, 0), LinkAction::Connect);
    }
    assert_eq!(l.state, ConnState::Connecting);
}

#[test]
fn close_when_connected_is_graceful() {
    let mut l = Link::new();
    l.step(LinkEvent::Start, 0);
    l.step(LinkEvent::ConnectOk, 0);
    assert_eq!(l.step(LinkEvent::CloseRequested, 0), LinkAction::SendClose);
    assert_eq!(l.state, ConnState::Closing);
    assert_eq!(l.step(LinkEvent::Dropped, 0), LinkAction::Nothing);
    assert_eq!(l.step(LinkEvent::CloseDone, 0), LinkAction::Release);
    assert_eq!(l.state, ConnState::Closed);
    assert_eq!(l.step(LinkEvent::Start, 0), LinkAction::Nothing);
    assert_eq!(l.state, ConnState::Closed);
}

#[test]
fn close_while_reconnecting_ends_at_once() {
    let mut l = Link::new();
    l.step(LinkEvent::Start, 0);
    l.step(LinkEvent::ConnectFailed, 0);
    assert_eq!(l.step(LinkEvent::CloseRequested, 0), LinkAction::Release);
    assert_eq!(l.state, ConnState::Closed);
}
