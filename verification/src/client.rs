//! Staying connected to the panel: when to connect, and how long to wait between
//! attempts.

use vstd::prelude::*;
use vstd::arithmetic::power2;

verus! {

/// The shortest wait, in seconds.
pub const MIN_BACKOFF: u64 = 1;

/// The longest wait, in seconds.
pub const MAX_BACKOFF: u64 = 30;

/// How long to wait before the next attempt to connect. The wait doubles from
/// attempt to attempt, up to a limit.
#[derive(Debug, Clone, Copy)]
pub struct Backoff {
    secs: u64,
}

/// The wait that follows another one.
pub open spec fn next_wait(secs: int) -> int {
    if 2 * secs < MAX_BACKOFF {
        2 * secs
    } else {
        MAX_BACKOFF as int
    }
}

impl Backoff {
    #[verifier::type_invariant]
    spec fn within_limits(self) -> bool {
        MIN_BACKOFF <= self.secs <= MAX_BACKOFF
    }

    /// How long the next wait is, in seconds.
    pub closed spec fn wait(&self) -> int {
        self.secs as int
    }

    /// The shortest wait comes first.
    pub fn new() -> (out: Self)
        ensures
            out.wait() == MIN_BACKOFF,
    {
        Backoff { secs: MIN_BACKOFF }
    }

    /// Starts over with the shortest wait, once a connection has been made.
    pub fn connected(&mut self)
        ensures
            final(self).wait() == MIN_BACKOFF,
    {
        self.secs = MIN_BACKOFF;
    }

    /// Returns how long to wait, and prepares the wait after it.
    pub fn next(&mut self) -> (secs: u64)
        ensures
            secs == old(self).wait(),
            MIN_BACKOFF <= secs <= MAX_BACKOFF,
            final(self).wait() == next_wait(old(self).wait()),
    {
        proof {
            use_type_invariant(&*self);
        }
        let secs: u64 = self.secs;
        self.secs = if secs < MAX_BACKOFF / 2 {
            secs * 2
        } else {
            MAX_BACKOFF
        };
        secs
    }
}

/// The wait after so many attempts that failed in a row.
pub open spec fn wait_after(failures: nat) -> int
    decreases failures,
{
    if failures == 0 {
        MIN_BACKOFF as int
    } else {
        next_wait(wait_after((failures - 1) as nat))
    }
}

/// The wait grows exponentially up to its limit: after so many failures in a row
/// it is that power of two, or the limit where that is less.
pub proof fn law_backoff_is_capped_exponential(failures: nat)
    ensures
        wait_after(failures) == (if power2::pow2(failures) < MAX_BACKOFF {
            power2::pow2(failures) as int
        } else {
            MAX_BACKOFF as int
        }),
    decreases failures,
{
    power2::lemma2_to64();
    if failures > 0 {
        let fewer = (failures - 1) as nat;
        law_backoff_is_capped_exponential(fewer);
        power2::lemma_pow2_unfold(failures);
        power2::lemma_pow2_strictly_increases(fewer, failures);
    }
}

/// How an attempt to stay connected went on.
#[derive(Debug, Clone, Copy, PartialEq, Eq, Structural)]
pub enum ClientEvent {
    /// The daemon has started.
    Started,
    /// The panel could not be reached.
    DialFailed,
    /// A connection was made, and has ended.
    SessionEnded,
    /// The wait is over, or was broken off.
    Waited,
}

/// What to do to stay connected.
#[derive(Debug, Clone, Copy, PartialEq, Eq, Structural)]
pub enum ClientAction {
    /// Connect to the panel, and keep the connection until it ends.
    Dial,
    /// Wait for so many seconds, or until the daemon shuts down.
    Wait(u64),
    /// Stop.
    Return,
}

/// Whether an event ends an attempt to connect.
pub open spec fn ends_attempt(event: ClientEvent) -> bool {
    event == ClientEvent::DialFailed || event == ClientEvent::SessionEnded
}

/// How long the wait after an attempt is: the shortest once a connection has
/// been made, and else the one that was next.
pub open spec fn wait_of(next: int, event: ClientEvent) -> int {
    if event == ClientEvent::SessionEnded {
        MIN_BACKOFF as int
    } else {
        next
    }
}

/// Staying connected.
#[derive(Debug, Clone, Copy)]
pub struct Client {
    backoff: Backoff,
}

impl Client {
    /// How long the wait after a failed attempt is, in seconds.
    pub closed spec fn next(&self) -> int {
        self.backoff.wait()
    }

    /// No attempt has been made.
    pub fn new() -> (out: Self)
        ensures
            out.next() == MIN_BACKOFF,
    {
        Client { backoff: Backoff::new() }
    }

    /// Decides what to do. `cancelled` tells whether the daemon shuts down: that,
    /// and nothing else, ends the attempts.
    pub fn react(&mut self, event: ClientEvent, cancelled: bool) -> (action: ClientAction)
        ensures
            keeps_connected(action, event, cancelled, old(self).next()),
            action == ClientAction::Return <==> cancelled,
            cancelled ==> final(self).next() == old(self).next(),
            !cancelled && !ends_attempt(event) ==> {
                &&& action == ClientAction::Dial
                &&& final(self).next() == old(self).next()
            },
            !cancelled && ends_attempt(event) ==> {
                let wait = wait_of(old(self).next(), event);
                &&& action is Wait
                &&& action->Wait_0 == wait
                &&& MIN_BACKOFF <= wait <= MAX_BACKOFF
                &&& final(self).next() == next_wait(wait)
            },
    {
        if cancelled {
            return ClientAction::Return;
        }
        match event {
            ClientEvent::Started | ClientEvent::Waited => ClientAction::Dial,
            ClientEvent::DialFailed => ClientAction::Wait(self.backoff.next()),
            ClientEvent::SessionEnded => {
                self.backoff.connected();
                ClientAction::Wait(self.backoff.next())
            },
        }
    }
}

/// The waits of a series of attempts, of each of which is told whether a
/// connection was made, where the next wait would be `next`.
pub open spec fn waits(next: int, attempts: Seq<bool>) -> Seq<int>
    decreases attempts.len(),
{
    if attempts.len() == 0 {
        seq![]
    } else {
        let event = if attempts[0] {
            ClientEvent::SessionEnded
        } else {
            ClientEvent::DialFailed
        };
        let wait = wait_of(next, event);
        seq![wait] + waits(next_wait(wait), attempts.drop_first())
    }
}

/// The waits between attempts: the first is the shortest, so is each after a
/// connection that was made, and each after a failed attempt doubles the one
/// before it up to the limit. All lie between the two limits.
pub proof fn law_waits_between_attempts(next: int, attempts: Seq<bool>, n: int)
    requires
        MIN_BACKOFF <= next <= MAX_BACKOFF,
        0 <= n < attempts.len(),
    ensures
        waits(next, attempts).len() == attempts.len(),
        MIN_BACKOFF <= waits(next, attempts)[n] <= MAX_BACKOFF,
        attempts[n] ==> waits(next, attempts)[n] == MIN_BACKOFF,
        !attempts[n] ==> waits(next, attempts)[n] == (if n == 0 {
            next
        } else {
            next_wait(waits(next, attempts)[n - 1])
        }),
    decreases attempts.len(),
{
    let event = if attempts[0] {
        ClientEvent::SessionEnded
    } else {
        ClientEvent::DialFailed
    };
    let after = next_wait(wait_of(next, event));
    let rest = attempts.drop_first();
    lemma_waits_len(after, rest);
    if n > 0 {
        law_waits_between_attempts(after, rest, n - 1);
        assert(waits(next, attempts)[n] == waits(after, rest)[n - 1]);
    }
}

/// There is one wait for each attempt.
proof fn lemma_waits_len(next: int, attempts: Seq<bool>)
    ensures
        waits(next, attempts).len() == attempts.len(),
    decreases attempts.len(),
{
    if attempts.len() > 0 {
        let event = if attempts[0] {
            ClientEvent::SessionEnded
        } else {
            ClientEvent::DialFailed
        };
        lemma_waits_len(next_wait(wait_of(next, event)), attempts.drop_first());
    }
}

/// The waits are in seconds: the first is one, each later one is twice the one
/// before it, and thirty at most; after a connection it is one again.
pub proof fn law_waits_in_seconds(secs: int)
    requires
        1 <= secs <= 30,
    ensures
        wait_after(0) == 1,
        secs < 15 ==> next_wait(secs) == secs + secs,
        secs >= 15 ==> next_wait(secs) == 30,
        wait_of(secs, ClientEvent::SessionEnded) == 1,
        wait_of(secs, ClientEvent::DialFailed) == secs,
        ends_attempt(ClientEvent::DialFailed),
        ends_attempt(ClientEvent::SessionEnded),
        !ends_attempt(ClientEvent::Started),
        !ends_attempt(ClientEvent::Waited),
{
}

/// Whether an action is right about an event.
pub open spec fn keeps_connected(action: ClientAction, event: ClientEvent, cancelled: bool, next: int) -> bool {
    if cancelled {
        action == ClientAction::Return
    } else if ends_attempt(event) {
        action matches ClientAction::Wait(secs) && secs == wait_of(next, event)
    } else {
        action == ClientAction::Dial
    }
}

/// Only a shutdown ends the attempts to connect. Until then an attempt that failed is
/// followed by the wait that was next, a connection that ended by a second of wait,
/// and a start and a wait by an attempt.
pub proof fn law_attempts_go_on(action: ClientAction, event: ClientEvent, cancelled: bool, next: int)
    requires
        keeps_connected(action, event, cancelled, next),
    ensures
        action == ClientAction::Return <==> cancelled,
        !cancelled && (event == ClientEvent::Started || event == ClientEvent::Waited) ==> action == ClientAction::Dial,
        !cancelled && event == ClientEvent::DialFailed ==> (action matches ClientAction::Wait(secs) && secs == next),
        !cancelled && event == ClientEvent::SessionEnded ==> action == ClientAction::Wait(1),
{
}

} // verus!
