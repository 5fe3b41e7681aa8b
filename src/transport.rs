use vstd::prelude::*;

verus! {

/// First reconnect delay, in milliseconds.
pub const BASE_DELAY_MS: u64 = 500;

/// Longest reconnect delay, in milliseconds.
pub const MAX_DELAY_MS: u64 = 30000;

/// Doublings of the base delay beyond which the cap applies anyway.
pub const MAX_DOUBLINGS: u32 = 16;

/// Connection state of the link to the relay.
#[derive(Clone, Copy, Debug, PartialEq, Eq, Structural)]
pub enum ConnState {
    Disconnected,
    Connecting,
    Connected,
    Reconnecting,
    Closing,
    Closed,
}

/// What happened on the link, as reported by whoever drives it.
#[derive(Clone, Copy, Debug, PartialEq, Eq, Structural)]
pub enum LinkEvent {
    /// The controller starts up.
    Start,
    /// A connection attempt succeeded.
    ConnectOk,
    /// A connection attempt failed.
    ConnectFailed,
    /// A live connection was lost.
    Dropped,
    /// The backoff delay has passed.
    RetryDue,
    /// The relay acknowledged a heartbeat: the connection is stable.
    Stable,
    /// The controller asks to shut down.
    CloseRequested,
    /// The graceful close was acknowledged, or its wait ran out.
    CloseDone,
}

/// What the driver of the link must do next.
#[derive(Clone, Copy, Debug, PartialEq, Eq, Structural)]
pub enum LinkAction {
    Nothing,
    /// Open a connection to the relay.
    Connect,
    /// Register the session (or resume it) and resend each pane's output
    /// from what the relay has acknowledged.
    Resume,
    /// Sleep this many milliseconds, then report `RetryDue`.
    Wait(u64),
    /// Send the graceful termination frame, wait a bounded time, then report
    /// `CloseDone`.
    SendClose,
    /// Release the runners: the session is over.
    Release,
}

pub open spec fn pow2(n: nat) -> nat
    decreases n,
{
    if n == 0 {
        1
    } else {
        2 * pow2((n - 1) as nat)
    }
}

/// The unjittered delay before retry number `n` (counting from 0).
pub open spec fn base_delay(n: nat) -> nat {
    (BASE_DELAY_MS * pow2(if n > MAX_DOUBLINGS { MAX_DOUBLINGS as nat } else { n })) as nat
}

/// The delay before retry `n`: the base delay plus a jitter below it, capped.
pub open spec fn backoff_spec(n: nat, jitter: nat) -> nat {
    let b = base_delay(n);
    let d = (b + jitter % b) as nat;
    if d > MAX_DELAY_MS { MAX_DELAY_MS as nat } else { d }
}

proof fn lemma_pow2_bounds(n: nat)
    ensures
        1 <= pow2(n),
        n <= MAX_DOUBLINGS ==> pow2(n) <= 65536,
{
    lemma_pow2_monotone(0, n);
    if n <= MAX_DOUBLINGS {
        lemma_pow2_monotone(n, MAX_DOUBLINGS as nat);
        reveal_with_fuel(pow2, 17);
        assert(pow2(16) == 65536);
    }
}

proof fn lemma_pow2_monotone(a: nat, b: nat)
    requires
        a <= b,
    ensures
        pow2(a) <= pow2(b),
    decreases b,
{
    if a < b {
        lemma_pow2_monotone(a, (b - 1) as nat);
    }
}

/// Delay before retry `n`, with `jitter` drawn by the caller at random.
pub fn backoff_delay(n: u32, jitter: u64) -> (r: u64)
    ensures
        r == backoff_spec(n as nat, jitter as nat),
        BASE_DELAY_MS <= r <= MAX_DELAY_MS,
{
    let m: u32 = if n > MAX_DOUBLINGS { MAX_DOUBLINGS } else { n };
    let mut b: u64 = BASE_DELAY_MS;
    let mut i: u32 = 0;
    proof {
        lemma_pow2_bounds(m as nat);
    }
    while i < m
        invariant
            i <= m <= MAX_DOUBLINGS,
            pow2(m as nat) <= 65536,
            b == BASE_DELAY_MS * pow2(i as nat),
        decreases m - i,
    {
        proof {
            lemma_pow2_monotone((i + 1) as nat, m as nat);
        }
        b = b * 2;
        i = i + 1;
    }
    proof {
        lemma_pow2_bounds(m as nat);
    }
    let d = b + jitter % b;
    if d > MAX_DELAY_MS { MAX_DELAY_MS } else { d }
}

/// The link state: where the connection stands, and how many times in a
/// row it was lost without becoming stable in between.
pub struct Link {
    pub state: ConnState,
    pub failures: u32,
}

/// One step of the link: the next link and what to do. An event that does
/// not apply in the current state changes nothing.
pub open spec fn step_spec(l: Link, e: LinkEvent, jitter: nat) -> (Link, LinkAction) {
    let fail = if l.failures == u32::MAX { l.failures } else { (l.failures + 1) as u32 };
    let wait = LinkAction::Wait(backoff_spec(l.failures as nat, jitter) as u64);
    match (l.state, e) {
        (ConnState::Closed, _) => (l, LinkAction::Nothing),
        (ConnState::Closing, LinkEvent::CloseDone) => (Link { state: ConnState::Closed, ..l }, LinkAction::Release),
        (ConnState::Closing, _) => (l, LinkAction::Nothing),
        (ConnState::Connected, LinkEvent::CloseRequested) => (Link { state: ConnState::Closing, ..l }, LinkAction::SendClose),
        (_, LinkEvent::CloseRequested) => (Link { state: ConnState::Closed, ..l }, LinkAction::Release),
        (ConnState::Disconnected, LinkEvent::Start) => (Link { state: ConnState::Connecting, ..l }, LinkAction::Connect),
        (ConnState::Connecting, LinkEvent::ConnectOk) => (Link { state: ConnState::Connected, ..l }, LinkAction::Resume),
        (ConnState::Connecting, LinkEvent::ConnectFailed) => (Link { state: ConnState::Reconnecting, failures: fail }, wait),
        (ConnState::Connected, LinkEvent::Dropped) => (Link { state: ConnState::Reconnecting, failures: fail }, wait),
        (ConnState::Connected, LinkEvent::Stable) => (Link { state: ConnState::Connected, failures: 0 }, LinkAction::Nothing),
        (ConnState::Reconnecting, LinkEvent::RetryDue) => (Link { state: ConnState::Connecting, ..l }, LinkAction::Connect),
        _ => (l, LinkAction::Nothing),
    }
}

impl Link {
    pub fn new() -> (r: Link)
        ensures
            r.state == ConnState::Disconnected,
            r.failures == 0,
    {
        Link { state: ConnState::Disconnected, failures: 0 }
    }

    /// Applies `e`; `jitter` is a random number that spreads reconnects.
    pub fn step(&mut self, e: LinkEvent, jitter: u64) -> (r: LinkAction)
        ensures
            (*final(self), r) == step_spec(*old(self), e, jitter as nat),
    {
        let fail = if self.failures == u32::MAX { self.failures } else { self.failures + 1 };
        match (self.state, e) {
            (ConnState::Closed, _) => LinkAction::Nothing,
            (ConnState::Closing, LinkEvent::CloseDone) => {
                self.state = ConnState::Closed;
                LinkAction::Release
            },
            (ConnState::Closing, _) => LinkAction::Nothing,
            (ConnState::Connected, LinkEvent::CloseRequested) => {
                self.state = ConnState::Closing;
                LinkAction::SendClose
            },
            (_, LinkEvent::CloseRequested) => {
                self.state = ConnState::Closed;
                LinkAction::Release
            },
            (ConnState::Disconnected, LinkEvent::Start) => {
                self.state = ConnState::Connecting;
                LinkAction::Connect
            },
            (ConnState::Connecting, LinkEvent::ConnectOk) => {
                self.state = ConnState::Connected;
                LinkAction::Resume
            },
            (ConnState::Connecting, LinkEvent::ConnectFailed) | (ConnState::Connected, LinkEvent::Dropped) => {
                let d = backoff_delay(self.failures, jitter);
                self.state = ConnState::Reconnecting;
                self.failures = fail;
                LinkAction::Wait(d)
            },
            (ConnState::Connected, LinkEvent::Stable) => {
                self.failures = 0;
                LinkAction::Nothing
            },
            (ConnState::Reconnecting, LinkEvent::RetryDue) => {
                self.state = ConnState::Connecting;
                LinkAction::Connect
            },
            _ => LinkAction::Nothing,
        }
    }
}

/// Each backoff delay is longer than the one before, as long as the doubled
/// base delay stays under the cap.
pub proof fn lemma_backoff_increases(n: nat, j1: nat, j2: nat)
    requires
        base_delay(n + 1) <= MAX_DELAY_MS,
    ensures
        backoff_spec(n, j1) < backoff_spec(n + 1, j2),
{
    let m = if n > MAX_DOUBLINGS { MAX_DOUBLINGS as nat } else { n };
    lemma_pow2_bounds(m);
    if n >= MAX_DOUBLINGS {
        reveal_with_fuel(pow2, 8);
        assert(pow2(7) == 128);
        lemma_pow2_monotone(7, MAX_DOUBLINGS as nat);
    }
    assert(pow2(n + 1) == 2 * pow2(n));
}

/// A lost connection is retried until it is back: dropped, waited out and
/// reconnected, the link is connected again with one more failure counted,
/// having waited the backoff for the failures before; it never closes on
/// its own.
pub proof fn lemma_drop_and_recover(l: Link, j: nat, j2: nat, j3: nat)
    requires
        l.state == ConnState::Connected,
        l.failures < u32::MAX,
    ensures
        ({
            let (l1, a1) = step_spec(l, LinkEvent::Dropped, j);
            let (l2, a2) = step_spec(l1, LinkEvent::RetryDue, j2);
            let (l3, a3) = step_spec(l2, LinkEvent::ConnectOk, j3);
            &&& l1.state == ConnState::Reconnecting
            &&& a1 == LinkAction::Wait(backoff_spec(l.failures as nat, j) as u64)
            &&& l2.state == ConnState::Connecting
            &&& a2 == LinkAction::Connect
            &&& l3.state == ConnState::Connected
            &&& a3 == LinkAction::Resume
            &&& l3.failures == l.failures + 1
        }),
{
}

/// Three connection losses in a row, each waited out and reconnected,
/// bring the link back to `Connected` every time, with a longer wait before
/// each retry than before the last (while the doubled delays stay under the
/// cap).
pub proof fn lemma_three_drops(l: Link, j: Seq<nat>)
    requires
        l.state == ConnState::Connected,
        l.failures + 3 < u32::MAX,
        base_delay((l.failures + 2) as nat) <= MAX_DELAY_MS,
        j.len() == 3,
    ensures
        ({
            let (a, wa) = step_spec(l, LinkEvent::Dropped, j[0]);
            let b = step_spec(step_spec(a, LinkEvent::RetryDue, 0).0, LinkEvent::ConnectOk, 0).0;
            let (c, wb) = step_spec(b, LinkEvent::Dropped, j[1]);
            let d = step_spec(step_spec(c, LinkEvent::RetryDue, 0).0, LinkEvent::ConnectOk, 0).0;
            let (e, wc) = step_spec(d, LinkEvent::Dropped, j[2]);
            let f = step_spec(step_spec(e, LinkEvent::RetryDue, 0).0, LinkEvent::ConnectOk, 0).0;
            &&& b.state == ConnState::Connected
            &&& d.state == ConnState::Connected
            &&& f.state == ConnState::Connected
            &&& wa == LinkAction::Wait(backoff_spec(l.failures as nat, j[0]) as u64)
            &&& wb == LinkAction::Wait(backoff_spec((l.failures + 1) as nat, j[1]) as u64)
            &&& wc == LinkAction::Wait(backoff_spec((l.failures + 2) as nat, j[2]) as u64)
            &&& backoff_spec(l.failures as nat, j[0]) < backoff_spec((l.failures + 1) as nat, j[1])
            &&& backoff_spec((l.failures + 1) as nat, j[1]) < backoff_spec((l.failures + 2) as nat, j[2])
        }),
{
    let n = l.failures as nat;
    assert(base_delay(n + 1) <= MAX_DELAY_MS) by {
        let m1 = if n + 1 > MAX_DOUBLINGS { MAX_DOUBLINGS as nat } else { (n + 1) as nat };
        let m2 = if n + 2 > MAX_DOUBLINGS { MAX_DOUBLINGS as nat } else { (n + 2) as nat };
        lemma_pow2_monotone(m1, m2);
    }
    lemma_backoff_increases(n, j[0], j[1]);
    lemma_backoff_increases(n + 1, j[1], j[2]);
    lemma_drop_and_recover(l, j[0], 0, 0);
}

/// Only a close request leads out of the connection cycle: no other event
/// moves a live link to `Closing` or `Closed`.
pub proof fn lemma_only_close_request_ends(l: Link, e: LinkEvent, j: nat)
    requires
        l.state != ConnState::Closing,
        l.state != ConnState::Closed,
        e != LinkEvent::CloseRequested,
    ensures
        step_spec(l, e, j).0.state != ConnState::Closing,
        step_spec(l, e, j).0.state != ConnState::Closed,
{
}

} // verus!
