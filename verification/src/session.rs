//! One live connection to the panel: what is sent, and what is done with what
//! arrives.
//!
//! Every message that arrives must be signed with the node's token, fresh, and
//! not a replay; one that is not ends the connection. What is not a command is
//! passed over.

use vstd::prelude::*;
use vstd::string::*;

use crate::envelope;
use crate::envelope::{Envelope, EnvelopeError};
use crate::envelope_type;
use crate::nonce_cache;
use crate::nonce_cache::NonceCache;
use crate::outbox;
use crate::outbox::{Outbox, Outgoing};
use crate::payloads::{AckPayload, CommandPayload, EventPayload, HelloPayload, CAP_PULL_IMAGE};
use crate::text;

verus! {

/// The version that the daemon reports.
pub const AGENT_VERSION: &'static str = "0.4.9";

/// How long the nonce of an incoming envelope is remembered, in nanoseconds:
/// comfortably more than twice the accepted clock skew, so that a message can
/// never both pass the freshness check and have its nonce forgotten before a
/// replay would be caught.
pub const NONCE_CACHE_TTL: u128 = 120_000_000_000;

/// What becomes of a message that arrived.
#[derive(Debug, Clone, Copy, PartialEq, Eq, Structural)]
pub enum Verdict {
    /// Its signature is invalid or its timestamp stale; the connection ends.
    Unverified,
    /// Its nonce was seen before; the connection ends.
    Replayed,
    /// It is genuine, but no command; it is passed over.
    NotCommand,
    /// It is a genuine command.
    Command,
}

/// What becomes of an envelope that arrives at `now_unix` seconds, which is
/// `now` nanoseconds on the monotonic clock.
pub open spec fn judged(
    seen: Map<Seq<char>, int>,
    ttl: int,
    token: Seq<char>,
    message: Envelope,
    now_unix: int,
    now: int,
) -> Verdict {
    if !(envelope::fresh(message.timestamp as int, now_unix) && message.authentic(vstd::utf8::encode_utf8(token))) {
        Verdict::Unverified
    } else if !nonce_cache::accepts(seen, ttl, message.nonce@, now) {
        Verdict::Replayed
    } else if message.kind@ != envelope_type::COMMAND@ {
        Verdict::NotCommand
    } else {
        Verdict::Command
    }
}

/// The remembered nonces once an envelope has arrived.
pub open spec fn remembered(
    seen: Map<Seq<char>, int>,
    ttl: int,
    token: Seq<char>,
    message: Envelope,
    now_unix: int,
    now: int,
) -> Map<Seq<char>, int> {
    if judged(seen, ttl, token, message, now_unix, now) == Verdict::Unverified {
        seen
    } else {
        nonce_cache::checked(seen, ttl, message.nonce@, now)
    }
}

/// Something that the connection has to react to.
pub enum SessionEvent {
    /// The connection has been made.
    Opened,
    /// The first message has been sent.
    HelloDelivered,
    /// What was first in the outbox has been sent.
    Delivered,
    /// The daemon is shutting down.
    Cancelled,
    /// It is time for a heartbeat.
    HeartbeatDue,
    /// The dispatcher reports something, or will report nothing any more.
    Report(Option<EventPayload>),
    /// A text message arrived; it holds an envelope, or is malformed.
    Text(Option<Envelope>),
    /// The payload of a command was decoded, or could not be.
    Decoded(Option<CommandPayload>),
    /// A command has been executed.
    Executed(AckPayload),
    /// The peer closed the connection.
    Closed,
    /// Reading from the connection failed.
    Failed(String),
    /// A frame arrived that needs no handling.
    OtherFrame,
}

/// How the connection reacts.
pub enum SessionAction {
    /// Wait for what comes next.
    Wait,
    /// End the connection.
    Stop,
    /// End the connection with an error.
    Fail(String),
    /// Send the first message.
    SendHello(HelloPayload),
    /// Send a heartbeat.
    SendHeartbeat,
    /// Send what is first in the outbox.
    SendNext,
    /// Decode the payload of a command.
    Decode(String),
    /// Execute a command.
    Dispatch(CommandPayload),
}

/// What a connection sends.
#[derive(Debug, Clone, Copy, PartialEq, Eq, Structural)]
pub enum Sending {
    Hello,
    Heartbeat,
    /// What is first in the outbox.
    Next,
}

/// What an action sends.
pub open spec fn sending_of(action: SessionAction) -> Option<Sending> {
    match action {
        SessionAction::SendHello(_) => Some(Sending::Hello),
        SessionAction::SendHeartbeat => Some(Sending::Heartbeat),
        SessionAction::SendNext => Some(Sending::Next),
        _ => None,
    }
}

/// What waits to be sent once an event has occurred.
pub open spec fn queued(queue: Seq<Outgoing>, event: SessionEvent) -> Seq<Outgoing> {
    match event {
        SessionEvent::Report(Some(report)) => queue.push(Outgoing::Event(report)),
        SessionEvent::Executed(ack) => queue.push(Outgoing::Ack(ack)),
        SessionEvent::Delivered => outbox::without_first(queue),
        _ => queue,
    }
}

/// What a connection sends on an event, given whether it had been opened and what
/// waits to be sent.
pub open spec fn sends(opened: bool, queue: Seq<Outgoing>, event: SessionEvent) -> Option<Sending> {
    let next = if opened && queue.len() > 0 {
        Some(Sending::Next)
    } else {
        None
    };
    match event {
        SessionEvent::Opened => if opened {
            None
        } else {
            Some(Sending::Hello)
        },
        SessionEvent::HeartbeatDue => if opened {
            Some(Sending::Heartbeat)
        } else {
            None
        },
        SessionEvent::HelloDelivered => next,
        SessionEvent::Delivered => next,
        SessionEvent::Report(Some(_)) => next,
        SessionEvent::Executed(_) => next,
        _ => None,
    }
}

/// Whether a payload is that of the first message.
pub open spec fn is_hello(hello: HelloPayload, token: Seq<char>) -> bool {
    &&& hello.node_token@ == token
    &&& hello.agent_version@ == AGENT_VERSION@
    &&& text::texts(hello.capabilities@) == seq![CAP_PULL_IMAGE@]
}

/// The error that ends a connection over an envelope that does not verify.
pub open spec fn unverified_text(kind: Seq<char>) -> Seq<char> {
    "rejecting envelope with invalid signature or stale timestamp (type="@ + kind + ")"@
}

/// The error that ends a connection over a replayed envelope.
pub open spec fn replayed_text(kind: Seq<char>) -> Seq<char> {
    "rejecting replayed nonce (type="@ + kind + ")"@
}

/// The state of one connection.
pub struct Session {
    node_token: String,
    incoming_nonces: NonceCache,
    opened: bool,
}

impl Session {
    /// The key of the connection.
    pub closed spec fn token(&self) -> Seq<char> {
        self.node_token@
    }

    /// The nonces that have been seen, and when.
    pub closed spec fn seen(&self) -> Map<Seq<char>, int> {
        self.incoming_nonces@
    }

    /// How long a nonce is remembered.
    pub closed spec fn ttl(&self) -> int {
        self.incoming_nonces.ttl()
    }

    /// Whether the first message has been handed out.
    pub closed spec fn opened(&self) -> bool {
        self.opened
    }

    /// A connection that has received nothing.
    pub fn new(node_token: String) -> (out: Self)
        ensures
            out.token() == node_token@,
            !out.opened(),
            out.seen() == Map::<Seq<char>, int>::empty(),
            out.ttl() == NONCE_CACHE_TTL,
    {
        Session { node_token, incoming_nonces: NonceCache::new(NONCE_CACHE_TTL), opened: false }
    }

    /// The payload of the first message.
    pub fn hello(&self) -> (out: HelloPayload)
        ensures
            is_hello(out, self.token()),
    {
        let mut capabilities: Vec<String> = Vec::new();
        capabilities.push(CAP_PULL_IMAGE.to_owned());
        assert(text::texts(capabilities@) =~= seq![CAP_PULL_IMAGE@]);
        HelloPayload { node_token: self.node_token.clone(), agent_version: AGENT_VERSION.to_owned(), capabilities }
    }

    /// Signs a message with the connection's key.
    pub fn send_signed(&self, kind: &str, payload: &str) -> (out: Result<Envelope, EnvelopeError>)
        ensures
            match out {
                Ok(message) => {
                    &&& envelope::is_json(payload@)
                    &&& message.payload@ == text::trim(payload@)
                    &&& envelope::carries(message, kind@, payload@)
                    &&& message.kind@ == kind@
                    &&& message.authentic(vstd::utf8::encode_utf8(self.token()))
                    &&& envelope::is_moment(message.timestamp as int)
                    &&& envelope::is_nonce(message.nonce@)
                    &&& message.nonce@.len() == 32
                    &&& !message.nonce@.contains('.')
                },
                Err(_) => !envelope::is_json(payload@),
            },
    {
        Envelope::signed(self.node_token.as_str().as_bytes(), kind, payload)
    }

    /// Decides what becomes of an envelope, and remembers its nonce if it is
    /// genuine.
    pub fn judge(&mut self, message: &Envelope, now_unix: i64, now: u128) -> (verdict: Verdict)
        ensures
            verdict == judged(
                old(self).seen(),
                old(self).ttl(),
                old(self).token(),
                *message,
                now_unix as int,
                now as int,
            ),
            final(self).seen() == remembered(
                old(self).seen(),
                old(self).ttl(),
                old(self).token(),
                *message,
                now_unix as int,
                now as int,
            ),
            final(self).token() == old(self).token(),
            final(self).ttl() == old(self).ttl(),
            final(self).opened() == old(self).opened(),
    {
        if !message.verify_at(self.node_token.as_str().as_bytes(), now_unix) {
            return Verdict::Unverified;
        }
        if !self.incoming_nonces.check_and_record_at(message.nonce.as_str(), now) {
            return Verdict::Replayed;
        }
        if text::same_text(message.kind.as_str(), envelope_type::COMMAND) {
            Verdict::Command
        } else {
            Verdict::NotCommand
        }
    }

    /// Decides how the connection reacts to an event that occurs at `now_unix`
    /// seconds, which is `now` nanoseconds on the monotonic clock. Nothing is sent
    /// before the first message. What is reported and what is answered goes
    /// through the outbox, which outlives the connection.
    pub fn react(&mut self, outbox: &mut Outbox, event: SessionEvent, now_unix: i64, now: u128) -> (action:
        SessionAction)
        ensures
            final(self).token() == old(self).token(),
            final(self).ttl() == old(self).ttl(),
            final(self).opened() == (old(self).opened() || event is Opened),
            final(self).opened() == opened_after(old(self).opened(), event),
            final(outbox)@ == queued(old(outbox)@, event),
            sending_of(action) == sends(old(self).opened(), final(outbox)@, event),
            action matches SessionAction::SendHello(hello) ==> is_hello(hello, old(self).token()),
            !(event is Text) ==> final(self).seen() == old(self).seen(),
            reacts(
                action,
                event,
                judged(
                    old(self).seen(),
                    old(self).ttl(),
                    old(self).token(),
                    event->Text_0->0,
                    now_unix as int,
                    now as int,
                ),
            ),
            match event {
                SessionEvent::Cancelled => action is Stop,
                SessionEvent::Text(None) => action is Wait && final(self).seen() == old(self).seen(),
                SessionEvent::Text(Some(message)) => {
                    let verdict = judged(
                        old(self).seen(),
                        old(self).ttl(),
                        old(self).token(),
                        message,
                        now_unix as int,
                        now as int,
                    );
                    &&& final(self).seen() == remembered(
                        old(self).seen(),
                        old(self).ttl(),
                        old(self).token(),
                        message,
                        now_unix as int,
                        now as int,
                    )
                    &&& match verdict {
                        Verdict::Unverified => action matches SessionAction::Fail(error) && error@ == unverified_text(
                            message.kind@,
                        ),
                        Verdict::Replayed => action matches SessionAction::Fail(error) && error@ == replayed_text(
                            message.kind@,
                        ),
                        Verdict::NotCommand => action is Wait,
                        Verdict::Command => action == SessionAction::Decode(message.payload),
                    }
                },
                SessionEvent::Decoded(Some(command)) => action == SessionAction::Dispatch(command),
                SessionEvent::Decoded(None) => action is Wait,
                SessionEvent::Closed => action is Stop,
                SessionEvent::Failed(error) => action == SessionAction::Fail(error),
                SessionEvent::OtherFrame => action is Wait,
                _ => action is Wait || sending_of(action) is Some,
            },
    {
        match event {
            SessionEvent::Opened => {
                if self.opened {
                    SessionAction::Wait
                } else {
                    self.opened = true;
                    SessionAction::SendHello(self.hello())
                }
            },
            SessionEvent::HelloDelivered => self.send_next(outbox),
            SessionEvent::Delivered => {
                outbox.delivered();
                self.send_next(outbox)
            },
            SessionEvent::Cancelled => SessionAction::Stop,
            SessionEvent::HeartbeatDue => {
                if self.opened {
                    SessionAction::SendHeartbeat
                } else {
                    SessionAction::Wait
                }
            },
            SessionEvent::Report(Some(report)) => {
                outbox.push(Outgoing::Event(report));
                self.send_next(outbox)
            },
            SessionEvent::Report(None) => SessionAction::Wait,
            SessionEvent::Text(None) => SessionAction::Wait,
            SessionEvent::Text(Some(message)) => {
                let verdict: Verdict = self.judge(&message, now_unix, now);
                match verdict {
                    Verdict::Unverified => SessionAction::Fail(
                        text::concat3(
                            "rejecting envelope with invalid signature or stale timestamp (type=",
                            message.kind.as_str(),
                            ")",
                        ),
                    ),
                    Verdict::Replayed => SessionAction::Fail(
                        text::concat3("rejecting replayed nonce (type=", message.kind.as_str(), ")"),
                    ),
                    Verdict::NotCommand => SessionAction::Wait,
                    Verdict::Command => SessionAction::Decode(message.payload),
                }
            },
            SessionEvent::Decoded(Some(command)) => SessionAction::Dispatch(command),
            SessionEvent::Decoded(None) => SessionAction::Wait,
            SessionEvent::Executed(ack) => {
                outbox.push(Outgoing::Ack(ack));
                self.send_next(outbox)
            },
            SessionEvent::Closed => SessionAction::Stop,
            SessionEvent::Failed(error) => SessionAction::Fail(error),
            SessionEvent::OtherFrame => SessionAction::Wait,
        }
    }

    /// Sends what is first in the outbox, if the connection is open and something
    /// waits.
    fn send_next(&self, outbox: &Outbox) -> (action: SessionAction)
        ensures
            action == (if self.opened() && outbox@.len() > 0 {
                SessionAction::SendNext
            } else {
                SessionAction::Wait
            }),
    {
        if self.opened && !outbox.is_empty() {
            SessionAction::SendNext
        } else {
            SessionAction::Wait
        }
    }
}

/// What a connection sends over a series of events, given whether it has been
/// opened and what waits to be sent at its start.
pub open spec fn all_sendings(opened: bool, queue: Seq<Outgoing>, events: Seq<SessionEvent>) -> Seq<Sending>
    decreases events.len(),
{
    if events.len() == 0 {
        seq![]
    } else {
        let event = events[0];
        let after = queued(queue, event);
        let rest = all_sendings(opened || event is Opened, after, events.drop_first());
        match sends(opened, after, event) {
            Some(sending) => seq![sending] + rest,
            None => rest,
        }
    }
}

/// A connection that has been opened does not send its first message again.
proof fn lemma_no_second_hello(queue: Seq<Outgoing>, events: Seq<SessionEvent>)
    ensures
        forall|i: int|
            0 <= i < all_sendings(true, queue, events).len() ==> #[trigger] all_sendings(true, queue, events)[i]
                != Sending::Hello,
    decreases events.len(),
{
    if events.len() > 0 {
        let after = queued(queue, events[0]);
        let rest = all_sendings(true, after, events.drop_first());
        lemma_no_second_hello(after, events.drop_first());
        let all = all_sendings(true, queue, events);
        assert forall|i: int| 0 <= i < all.len() implies #[trigger] all[i] != Sending::Hello by {
            if sends(true, after, events[0]) is Some {
                if i > 0 {
                    assert(all[i] == rest[i - 1]);
                }
            } else {
                assert(all[i] == rest[i]);
            }
        }
    }
}

/// Whatever occurs on a new connection, the first thing that it sends is the
/// hello, and it sends it once.
pub proof fn law_hello_goes_first_and_once(queue: Seq<Outgoing>, events: Seq<SessionEvent>, i: int)
    requires
        0 <= i < all_sendings(false, queue, events).len(),
    ensures
        all_sendings(false, queue, events)[i] == Sending::Hello <==> i == 0,
    decreases events.len(),
{
    let event = events[0];
    let after = queued(queue, event);
    let rest = events.drop_first();
    if event is Opened {
        lemma_no_second_hello(after, rest);
        if i > 0 {
            assert(all_sendings(false, queue, events)[i] == all_sendings(true, after, rest)[i - 1]);
        }
    } else {
        law_hello_goes_first_and_once(after, rest, i);
    }
}

/// What waits to be sent after a series of events, over as many connections as
/// they may have occurred on.
pub open spec fn left_after(queue: Seq<Outgoing>, events: Seq<SessionEvent>) -> Seq<Outgoing>
    decreases events.len(),
{
    if events.len() == 0 {
        queue
    } else {
        queued(left_after(queue, events.drop_last()), events.last())
    }
}

/// What has been delivered of the outbox over a series of events, in order.
pub open spec fn delivered_by(queue: Seq<Outgoing>, events: Seq<SessionEvent>) -> Seq<Outgoing>
    decreases events.len(),
{
    if events.len() == 0 {
        seq![]
    } else {
        let before = delivered_by(queue, events.drop_last());
        let left = left_after(queue, events.drop_last());
        if events.last() is Delivered && left.len() > 0 {
            before.push(left[0])
        } else {
            before
        }
    }
}

/// What was reported and answered over a series of events, in order.
pub open spec fn put_in(events: Seq<SessionEvent>) -> Seq<Outgoing>
    decreases events.len(),
{
    if events.len() == 0 {
        seq![]
    } else {
        let before = put_in(events.drop_last());
        match events.last() {
            SessionEvent::Report(Some(report)) => before.push(Outgoing::Event(report)),
            SessionEvent::Executed(ack) => before.push(Outgoing::Ack(ack)),
            _ => before,
        }
    }
}

/// Nothing that is to be told the panel is lost, doubled or reordered, however
/// often the connection drops: what has been delivered and what still waits are
/// together what was put in, in order.
pub proof fn law_nothing_is_lost(queue: Seq<Outgoing>, events: Seq<SessionEvent>)
    ensures
        delivered_by(queue, events) + left_after(queue, events) == queue + put_in(events),
    decreases events.len(),
{
    if events.len() == 0 {
        assert(delivered_by(queue, events) + left_after(queue, events) =~= queue + put_in(events));
    } else {
        let init = events.drop_last();
        law_nothing_is_lost(queue, init);
        let done = delivered_by(queue, init);
        let left = left_after(queue, init);
        match events.last() {
            SessionEvent::Report(Some(report)) => {
                let item = Outgoing::Event(report);
                assert(done + left.push(item) =~= (done + left).push(item));
                assert(queue + put_in(init).push(item) =~= (queue + put_in(init)).push(item));
            },
            SessionEvent::Executed(ack) => {
                let item = Outgoing::Ack(ack);
                assert(done + left.push(item) =~= (done + left).push(item));
                assert(queue + put_in(init).push(item) =~= (queue + put_in(init)).push(item));
            },
            SessionEvent::Delivered => {
                if left.len() > 0 {
                    assert(done.push(left[0]) + left.drop_first() =~= done + left);
                }
            },
            _ => {},
        }
    }
}

/// The events among what is told the panel, in order.
pub open spec fn events_in(items: Seq<Outgoing>) -> Seq<EventPayload>
    decreases items.len(),
{
    if items.len() == 0 {
        seq![]
    } else {
        let before = events_in(items.drop_last());
        match items.last() {
            Outgoing::Event(event) => before.push(event),
            Outgoing::Ack(_) => before,
        }
    }
}

/// What was reported over a series of events, in order.
pub open spec fn reported(events: Seq<SessionEvent>) -> Seq<EventPayload>
    decreases events.len(),
{
    if events.len() == 0 {
        seq![]
    } else {
        let before = reported(events.drop_last());
        match events.last() {
            SessionEvent::Report(Some(report)) => before.push(report),
            _ => before,
        }
    }
}

/// The events of two stretches, one after the other, are those of the first and
/// then those of the second.
proof fn lemma_events_in_concat(a: Seq<Outgoing>, b: Seq<Outgoing>)
    ensures
        events_in(a + b) == events_in(a) + events_in(b),
    decreases b.len(),
{
    if b.len() == 0 {
        assert(a + b =~= a);
        assert(events_in(a) + events_in(b) =~= events_in(a));
    } else {
        assert((a + b).drop_last() =~= a + b.drop_last());
        lemma_events_in_concat(a, b.drop_last());
        match b.last() {
            Outgoing::Event(event) => {
                assert((events_in(a) + events_in(b.drop_last())).push(event) =~= events_in(a) + events_in(
                    b.drop_last(),
                ).push(event));
            },
            Outgoing::Ack(_) => {},
        }
    }
}

/// What is reported is what is put into the outbox as events.
proof fn lemma_reported_is_put_in(events: Seq<SessionEvent>)
    ensures
        events_in(put_in(events)) == reported(events),
    decreases events.len(),
{
    if events.len() > 0 {
        lemma_reported_is_put_in(events.drop_last());
        let before = put_in(events.drop_last());
        match events.last() {
            SessionEvent::Report(Some(report)) => {
                assert(before.push(Outgoing::Event(report)).drop_last() =~= before);
            },
            SessionEvent::Executed(ack) => {
                assert(before.push(Outgoing::Ack(ack)).drop_last() =~= before);
            },
            _ => {},
        }
    }
}

/// No event that the node reports is lost over a reconnect: whatever occurs, on
/// however many connections, the first so many of the reported events have been
/// delivered, in order, and the others still wait, in order.
pub proof fn law_no_event_is_lost(events: Seq<SessionEvent>) -> (k: int)
    ensures
        0 <= k <= reported(events).len(),
        events_in(delivered_by(seq![], events)) == reported(events).take(k),
        events_in(left_after(seq![], events)) == reported(events).skip(k),
{
    let none: Seq<Outgoing> = seq![];
    law_nothing_is_lost(none, events);
    assert(none + put_in(events) =~= put_in(events));
    lemma_reported_is_put_in(events);
    let done = events_in(delivered_by(none, events));
    let left = events_in(left_after(none, events));
    lemma_events_in_concat(delivered_by(none, events), left_after(none, events));
    assert(reported(events).take(done.len() as int) =~= done);
    assert(reported(events).skip(done.len() as int) =~= left);
    done.len() as int
}

/// Envelopes that arrive one after the other, each at its moment: the Unix
/// second and the nanosecond of the monotonic clock.
pub open spec fn after_arrivals(
    seen: Map<Seq<char>, int>,
    ttl: int,
    token: Seq<char>,
    arrivals: Seq<(Envelope, int, int)>,
) -> Map<Seq<char>, int>
    decreases arrivals.len(),
{
    if arrivals.len() == 0 {
        seen
    } else {
        let last = arrivals.last();
        remembered(after_arrivals(seen, ttl, token, arrivals.drop_last()), ttl, token, last.0, last.1, last.2)
    }
}

/// A remembered nonce stays remembered through arrivals before its time is up.
proof fn lemma_stays_remembered(
    seen: Map<Seq<char>, int>,
    ttl: int,
    token: Seq<char>,
    nonce: Seq<char>,
    arrivals: Seq<(Envelope, int, int)>,
)
    requires
        seen.dom().contains(nonce),
        forall|i: int| 0 <= i < arrivals.len() ==> nonce_cache::age(seen[nonce], (#[trigger] arrivals[i]).2) < ttl,
    ensures
        after_arrivals(seen, ttl, token, arrivals).dom().contains(nonce),
        after_arrivals(seen, ttl, token, arrivals)[nonce] == seen[nonce],
    decreases arrivals.len(),
{
    if arrivals.len() > 0 {
        let init = arrivals.drop_last();
        assert forall|i: int| 0 <= i < init.len() implies nonce_cache::age(seen[nonce], (#[trigger] init[i]).2)
            < ttl by {
            assert(init[i] == arrivals[i]);
        }
        lemma_stays_remembered(seen, ttl, token, nonce, init);
        assert(arrivals.last() == arrivals[arrivals.len() - 1]);
    }
}

/// A message never takes effect twice: once it has been accepted, it is
/// refused whenever it arrives again, whatever arrives in between. It is
/// refused as stale once its timestamp has left the accepted skew, and as a
/// replay until then, since its nonce is remembered for longer than that. The
/// two clocks need agree only to within a second on how much time has passed.
pub proof fn law_replay_is_refused(
    seen: Map<Seq<char>, int>,
    token: Seq<char>,
    message: Envelope,
    first_unix: int,
    first: int,
    between: Seq<(Envelope, int, int)>,
    again_unix: int,
    again: int,
)
    requires
        judged(seen, NONCE_CACHE_TTL as int, token, message, first_unix, first) == Verdict::Command || judged(
            seen,
            NONCE_CACHE_TTL as int,
            token,
            message,
            first_unix,
            first,
        ) == Verdict::NotCommand,
        first <= again,
        again - first <= (again_unix - first_unix + 1) * 1_000_000_000,
        forall|i: int| 0 <= i < between.len() ==> first <= (#[trigger] between[i]).2 <= again,
    ensures
        ({
            let seen_again = after_arrivals(
                remembered(seen, NONCE_CACHE_TTL as int, token, message, first_unix, first),
                NONCE_CACHE_TTL as int,
                token,
                between,
            );
            judged(seen_again, NONCE_CACHE_TTL as int, token, message, again_unix, again) == (if envelope::fresh(
                message.timestamp as int,
                again_unix,
            ) {
                Verdict::Replayed
            } else {
                Verdict::Unverified
            })
        }),
{
    let ttl = NONCE_CACHE_TTL as int;
    let recorded = remembered(seen, ttl, token, message, first_unix, first);
    if envelope::fresh(message.timestamp as int, again_unix) {
        assert(again_unix - first_unix <= 60);
        assert(again - first < ttl);
        lemma_stays_remembered(recorded, ttl, token, message.nonce@, between);
    }
}

/// Only a genuine message is acted on: a command is decoded only if it is
/// signed with the connection's key, fresh, and carries a nonce that is not
/// remembered.
pub proof fn law_only_genuine_commands_are_decoded(
    seen: Map<Seq<char>, int>,
    ttl: int,
    token: Seq<char>,
    message: Envelope,
    now_unix: int,
    now: int,
)
    ensures
        judged(seen, ttl, token, message, now_unix, now) == Verdict::Command <==> {
            &&& message.authentic(vstd::utf8::encode_utf8(token))
            &&& envelope::fresh(message.timestamp as int, now_unix)
            &&& nonce_cache::accepts(seen, ttl, message.nonce@, now)
            &&& message.kind@ == envelope_type::COMMAND@
        },
{
}

/// An open connection sends what there is to send: a heartbeat whenever one is due,
/// and what is first in the outbox whenever something is put in or has been
/// delivered and something waits. The first thing is the hello, when the connection
/// is made.
pub proof fn law_open_connection_sends(queue: Seq<Outgoing>, event: SessionEvent)
    ensures
        sends(false, queue, SessionEvent::Opened) == Some(Sending::Hello),
        sends(true, queue, SessionEvent::HeartbeatDue) == Some(Sending::Heartbeat),
        queue.len() > 0 && (event is HelloDelivered || event is Delivered || event is Executed || (event is Report
            && event->Report_0 is Some)) ==> sends(true, queue, event) == Some(Sending::Next),
        queue.len() == 0 && !(event is Opened) && !(event is HeartbeatDue) ==> sends(true, queue, event) is None,
        !(event is Opened) ==> sends(false, queue, event) is None,
{
}

/// Once the hello is out, all that waits is sent, one after the other: as long as
/// each is delivered, so many deliveries empty the outbox, and before each but the
/// last the next one is sent.
pub proof fn law_outbox_is_emptied(queue: Seq<Outgoing>)
    ensures
        queue.len() > 0 ==> queued(queue, SessionEvent::Delivered).len() == queue.len() - 1,
        queue.len() > 1 ==> sends(true, queued(queue, SessionEvent::Delivered), SessionEvent::Delivered) == Some(
            Sending::Next,
        ),
        queue.len() > 1 ==> queued(queue, SessionEvent::Delivered)[0] == queue[1],
{
}

/// What is put into the outbox goes behind what waits, and nothing but a delivery
/// takes anything out.
pub proof fn law_outbox_keeps_its_order(queue: Seq<Outgoing>, event: SessionEvent)
    ensures
        event matches SessionEvent::Report(Some(report)) ==> queued(queue, event) == queue.push(
            Outgoing::Event(report),
        ),
        event matches SessionEvent::Executed(ack) ==> queued(queue, event) == queue.push(Outgoing::Ack(ack)),
        event is Delivered && queue.len() > 0 ==> queued(queue, event) == queue.skip(1),
        !(event is Delivered) ==> queue.is_prefix_of(queued(queue, event)),
        !(event is Delivered) && !(event is Report) && !(event is Executed) ==> queued(queue, event) == queue,
{
    if event is Delivered && queue.len() > 0 {
        assert(queue.drop_first() =~= queue.skip(1));
    }
}

/// The hello presents the node by its own token, the daemon by its version, and
/// says that images can be pulled ahead of time.
pub proof fn law_hello_presents_the_node(hello: HelloPayload, token: Seq<char>)
    requires
        is_hello(hello, token),
    ensures
        hello.node_token@ == token,
        hello.agent_version@ == seq!['0', '.', '4', '.', '9'],
        hello.capabilities@.len() == 1,
        hello.capabilities@[0]@ == seq!['p', 'u', 'l', 'l', '_', 'i', 'm', 'a', 'g', 'e'],
{
    reveal_strlit("0.4.9");
    reveal_strlit("pull_image");
    assert(AGENT_VERSION@ =~= seq!['0', '.', '4', '.', '9']);
    assert(CAP_PULL_IMAGE@ =~= seq!['p', 'u', 'l', 'l', '_', 'i', 'm', 'a', 'g', 'e']);
    let list = hello.capabilities@;
    assert(text::texts(list).len() == list.len());
    assert(text::texts(list)[0] == list[0]@);
}

/// A message is taken for what it is: one that is not signed with the node's token
/// or not within thirty seconds of the present is unverified, of the others one
/// whose nonce is remembered is a replay, and of the rest those of type `command`
/// are commands. Only unverified messages leave no trace.
pub proof fn law_messages_are_taken_for_what_they_are(
    seen: Map<Seq<char>, int>,
    ttl: int,
    token: Seq<char>,
    message: Envelope,
    now_unix: int,
    now: int,
)
    ensures
        ({
            let genuine = message.authentic(vstd::utf8::encode_utf8(token)) && -30 <= now_unix - message.timestamp
                <= 30;
            let new = nonce_cache::accepts(seen, ttl, message.nonce@, now);
            let command = message.kind@ == seq!['c', 'o', 'm', 'm', 'a', 'n', 'd'];
            let verdict = judged(seen, ttl, token, message, now_unix, now);
            &&& verdict == Verdict::Unverified <==> !genuine
            &&& verdict == Verdict::Replayed <==> genuine && !new
            &&& verdict == Verdict::NotCommand <==> genuine && new && !command
            &&& verdict == Verdict::Command <==> genuine && new && command
            &&& !genuine ==> remembered(seen, ttl, token, message, now_unix, now) == seen
            &&& genuine ==> remembered(seen, ttl, token, message, now_unix, now) == nonce_cache::checked(
                seen,
                ttl,
                message.nonce@,
                now,
            )
        }),
{
    envelope_type::law_types_have_their_names();
}

/// A connection that ends over a message says which kind of message it was, and
/// whether it was not genuine or a replay.
pub proof fn law_rejections_name_the_type(kind: Seq<char>)
    ensures
        unverified_text(kind) == "rejecting envelope with invalid signature or stale timestamp (type="@ + kind.push(
            ')',
        ),
        replayed_text(kind) == "rejecting replayed nonce (type="@ + kind.push(')'),
{
    reveal_strlit(")");
    let a = "rejecting envelope with invalid signature or stale timestamp (type="@;
    let b = "rejecting replayed nonce (type="@;
    assert(a + kind + ")"@ =~= a + kind.push(')'));
    assert(b + kind + ")"@ =~= b + kind.push(')'));
}

/// Nonces are remembered for two minutes, which is longer than a message stays
/// fresh by any clock that agrees with the node's.
pub proof fn law_nonces_are_remembered_long_enough(timestamp: int, first: int, again: int)
    requires
        envelope::fresh(timestamp, first),
        envelope::fresh(timestamp, again),
    ensures
        NONCE_CACHE_TTL == 120 * 1_000_000_000,
        (again - first + 1) * 1_000_000_000 < NONCE_CACHE_TTL,
{
}

/// Whether an action is right about an event that is not something to send, given
/// what a message was taken for.
pub open spec fn reacts(action: SessionAction, event: SessionEvent, verdict: Verdict) -> bool {
    match event {
        SessionEvent::Cancelled => action is Stop,
        SessionEvent::Closed => action is Stop,
        SessionEvent::Failed(error) => action == SessionAction::Fail(error),
        SessionEvent::Text(None) => action is Wait,
        SessionEvent::Text(Some(message)) => match verdict {
            Verdict::Unverified => action matches SessionAction::Fail(error) && error@ == unverified_text(
                message.kind@,
            ),
            Verdict::Replayed => action matches SessionAction::Fail(error) && error@ == replayed_text(message.kind@),
            Verdict::NotCommand => action is Wait,
            Verdict::Command => action == SessionAction::Decode(message.payload),
        },
        SessionEvent::Decoded(Some(command)) => action == SessionAction::Dispatch(command),
        SessionEvent::Decoded(None) => action is Wait,
        SessionEvent::OtherFrame => action is Wait,
        _ => true,
    }
}

/// A command that arrives is carried out as it is: a genuine one has its whole
/// payload decoded, and what it decodes to is dispatched. What cannot be decoded,
/// is malformed or is no command is passed over; a message that is not genuine or a
/// replay ends the connection, and so do its end, its failure and a shutdown,
/// nothing else.
pub proof fn law_commands_are_carried_out(action: SessionAction, event: SessionEvent, verdict: Verdict)
    requires
        reacts(action, event, verdict),
    ensures
        event matches SessionEvent::Decoded(Some(command)) ==> (action matches SessionAction::Dispatch(given) && given
            == command),
        event matches SessionEvent::Text(Some(message)) ==> {
            &&& verdict == Verdict::Command <==> action is Decode
            &&& verdict == Verdict::Command ==> action->Decode_0@ == message.payload@
            &&& verdict == Verdict::Unverified || verdict == Verdict::Replayed <==> action is Fail
        },
        event is OtherFrame || (event matches SessionEvent::Text(None)) || (event matches SessionEvent::Decoded(None))
            ==> action is Wait,
        event is Cancelled || event is Closed ==> action is Stop,
        event matches SessionEvent::Failed(error) ==> (action matches SessionAction::Fail(given) && given@ == error@),
{
}

/// Whether the first message has been handed out once an event has occurred.
pub open spec fn opened_after(opened: bool, event: SessionEvent) -> bool {
    opened || event is Opened
}

/// A connection that is opened hands out its first message once: from then on it is
/// open, whatever occurs, and sends what waits; before it sends nothing else.
pub proof fn law_connection_opens_once(event: SessionEvent, opened: bool, queue: Seq<Outgoing>)
    ensures
        opened_after(opened, SessionEvent::Opened),
        opened ==> opened_after(opened, event),
        !(event is Opened) ==> opened_after(opened, event) == opened,
        sends(false, queue, SessionEvent::Opened) == Some(Sending::Hello),
        sends(opened_after(opened, SessionEvent::Opened), queue, SessionEvent::Opened) is None,
        queue.len() > 0 ==> sends(
            opened_after(opened, SessionEvent::Opened),
            queue,
            SessionEvent::HelloDelivered,
        ) == Some(Sending::Next),
        sends(opened_after(opened, SessionEvent::Opened), queue, SessionEvent::HeartbeatDue) == Some(
            Sending::Heartbeat,
        ),
        !opened && !(event is Opened) ==> sends(opened, queue, event) is None,
{
}

} // verus!
