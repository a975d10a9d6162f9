//! The decisions of the publisher: the single worker that takes accepted
//! messages off the hand-off queue one at a time, connects to the broker with
//! a bounded number of attempts, publishes with confirmation, and writes a
//! message to the overflow store whenever it cannot be delivered.
//!
//! The worker's outside work (receiving, connecting, waiting, publishing,
//! writing files) is done by its caller, which performs each action that
//! `Publisher::step` returns and reports what came of it as the next event.

use vstd::prelude::*;
use vstd::multiset::*;
use vstd::utf8::encode_utf8;
use crate::message::{payload_text, Email, EmailView};

verus! {

broadcast use group_multiset_axioms;

/// Where the publisher stands.
#[derive(Debug, Clone, Copy, PartialEq, Eq, Structural)]
pub enum Phase {
    /// Waiting for the next message from the queue.
    Idle,
    /// Asking whether the connection it holds is still usable.
    Checking,
    /// Making connection attempt number `n` (from 1).
    Connecting(u32),
    /// Waiting before the attempt after attempt number `n`.
    BackingOff(u32),
    /// Waiting for the broker to confirm a publish.
    Publishing,
    /// Handing a message that has been dealt with back to the caller.
    Disposing,
    /// The queue is closed and drained.
    Stopped,
}

/// What the caller reports back after performing an action.
#[derive(Debug)]
pub enum PublisherEvent {
    /// `Receive` gave a message.
    Delivered(Email),
    /// `Receive` found the queue closed and empty.
    QueueClosed,
    /// `CheckConnection` found the held connection usable or not.
    ConnectionStatus(bool),
    /// `Connect` opened a connection and a channel.
    ConnectSucceeded,
    /// `Connect` failed.
    ConnectFailed,
    /// `Backoff` waited its interval.
    BackoffElapsed,
    /// `Publish` was confirmed by the broker.
    Confirmed,
    /// `Publish` failed or the broker refused to confirm it.
    Rejected,
    /// `Overflow` or `Published` was carried out.
    Disposed,
}

/// What the caller is to do next.
#[derive(Debug)]
pub enum PublisherAction {
    /// Take the next message off the queue, waiting for one.
    Receive,
    /// Tell whether the held connection and channel are still open.
    CheckConnection,
    /// Drop any held connection, then open a connection and a channel.
    Connect,
    /// Wait the fixed backoff interval.
    Backoff,
    /// Publish these bytes to the configured exchange and routing key and
    /// wait for the confirmation.
    Publish(Vec<u8>),
    /// Drop any held connection, then write the message to the overflow store.
    Overflow(Email),
    /// The message was delivered to the broker.
    Published(Email),
    /// Close the held connection where the flag is set, then stop.
    Shutdown(bool),
}

pub enum EventModel {
    Delivered(EmailView),
    QueueClosed,
    ConnectionStatus(bool),
    ConnectSucceeded,
    ConnectFailed,
    BackoffElapsed,
    Confirmed,
    Rejected,
    Disposed,
}

pub enum ActionModel {
    Receive,
    CheckConnection,
    Connect,
    Backoff,
    Publish(Seq<u8>),
    Overflow(EmailView),
    Published(EmailView),
    Shutdown(bool),
}

impl View for PublisherEvent {
    type V = EventModel;

    open spec fn view(&self) -> EventModel {
        match self {
            PublisherEvent::Delivered(m) => EventModel::Delivered(m@),
            PublisherEvent::QueueClosed => EventModel::QueueClosed,
            PublisherEvent::ConnectionStatus(b) => EventModel::ConnectionStatus(*b),
            PublisherEvent::ConnectSucceeded => EventModel::ConnectSucceeded,
            PublisherEvent::ConnectFailed => EventModel::ConnectFailed,
            PublisherEvent::BackoffElapsed => EventModel::BackoffElapsed,
            PublisherEvent::Confirmed => EventModel::Confirmed,
            PublisherEvent::Rejected => EventModel::Rejected,
            PublisherEvent::Disposed => EventModel::Disposed,
        }
    }
}

impl View for PublisherAction {
    type V = ActionModel;

    open spec fn view(&self) -> ActionModel {
        match self {
            PublisherAction::Receive => ActionModel::Receive,
            PublisherAction::CheckConnection => ActionModel::CheckConnection,
            PublisherAction::Connect => ActionModel::Connect,
            PublisherAction::Backoff => ActionModel::Backoff,
            PublisherAction::Publish(b) => ActionModel::Publish(b@),
            PublisherAction::Overflow(m) => ActionModel::Overflow(m@),
            PublisherAction::Published(m) => ActionModel::Published(m@),
            PublisherAction::Shutdown(c) => ActionModel::Shutdown(*c),
        }
    }
}

/// The publisher's state.
pub struct Publisher {
    phase: Phase,
    connected: bool,
    inflight: Option<Email>,
    max_attempts: u32,
}

pub struct PublisherView {
    pub phase: Phase,
    /// Whether the caller holds a connection and channel.
    pub connected: bool,
    /// The message being dealt with.
    pub inflight: Option<EmailView>,
    /// Connection attempts made for one message before it goes to the
    /// overflow store; one attempt is always made.
    pub max_attempts: nat,
}

impl View for Publisher {
    type V = PublisherView;

    closed spec fn view(&self) -> PublisherView {
        PublisherView {
            phase: self.phase,
            connected: self.connected,
            inflight: match self.inflight {
                Some(m) => Some(m@),
                None => None,
            },
            max_attempts: self.max_attempts as nat,
        }
    }
}

/// The states that the publisher can reach.
pub open spec fn publisher_wf(s: PublisherView) -> bool {
    &&& s.max_attempts <= u32::MAX
    &&& (s.inflight is Some <==> (s.phase is Checking || s.phase is Connecting
        || s.phase is BackingOff || s.phase is Publishing))
    &&& (s.phase is Checking ==> s.connected)
    &&& (s.phase is Publishing ==> s.connected)
    &&& (s.phase is Stopped ==> !s.connected)
    &&& (s.phase matches Phase::Connecting(n) ==> 1 <= n)
    &&& (s.phase matches Phase::BackingOff(n) ==> 1 <= n && n < s.max_attempts)
}

/// The events that answer the action the publisher last asked for.
pub open spec fn expects(s: PublisherView, e: EventModel) -> bool {
    match s.phase {
        Phase::Idle => e is Delivered || e is QueueClosed,
        Phase::Checking => e is ConnectionStatus,
        Phase::Connecting(_) => e is ConnectSucceeded || e is ConnectFailed,
        Phase::BackingOff(_) => e is BackoffElapsed,
        Phase::Publishing => e is Confirmed || e is Rejected,
        Phase::Disposing => e is Disposed,
        Phase::Stopped => false,
    }
}

/// The broker payload of a message.
pub open spec fn payload_of(m: EmailView) -> Seq<u8> {
    encode_utf8(payload_text(m))
}

/// The publisher's next state and action after an event that it expects.
pub open spec fn publisher_next(s: PublisherView, e: EventModel) -> (PublisherView, ActionModel) {
    let m = s.inflight->Some_0;
    match e {
        EventModel::Delivered(d) => if s.connected {
            (PublisherView { phase: Phase::Checking, inflight: Some(d), ..s }, ActionModel::CheckConnection)
        } else {
            (PublisherView { phase: Phase::Connecting(1), inflight: Some(d), ..s }, ActionModel::Connect)
        },
        EventModel::QueueClosed => (
            PublisherView { phase: Phase::Stopped, connected: false, ..s },
            ActionModel::Shutdown(s.connected),
        ),
        EventModel::ConnectionStatus(live) => if live {
            (PublisherView { phase: Phase::Publishing, ..s }, ActionModel::Publish(payload_of(m)))
        } else {
            (
                PublisherView { phase: Phase::Connecting(1), connected: false, ..s },
                ActionModel::Connect,
            )
        },
        EventModel::ConnectSucceeded => (
            PublisherView { phase: Phase::Publishing, connected: true, ..s },
            ActionModel::Publish(payload_of(m)),
        ),
        EventModel::ConnectFailed => {
            let n = s.phase->Connecting_0;
            if (n as nat) < s.max_attempts {
                (PublisherView { phase: Phase::BackingOff(n), connected: false, ..s }, ActionModel::Backoff)
            } else {
                (
                    PublisherView { phase: Phase::Disposing, connected: false, inflight: None, ..s },
                    ActionModel::Overflow(m),
                )
            }
        },
        EventModel::BackoffElapsed => (
            PublisherView { phase: Phase::Connecting((s.phase->BackingOff_0 + 1) as u32), ..s },
            ActionModel::Connect,
        ),
        EventModel::Confirmed => (
            PublisherView { phase: Phase::Disposing, inflight: None, ..s },
            ActionModel::Published(m),
        ),
        EventModel::Rejected => (
            PublisherView { phase: Phase::Disposing, connected: false, inflight: None, ..s },
            ActionModel::Overflow(m),
        ),
        EventModel::Disposed => (PublisherView { phase: Phase::Idle, ..s }, ActionModel::Receive),
    }
}

/// The states and actions along a run of events, from state `s`.
pub open spec fn publisher_run(s: PublisherView, evs: Seq<EventModel>) -> (PublisherView, Seq<ActionModel>)
    decreases evs.len(),
{
    if evs.len() == 0 {
        (s, seq![])
    } else {
        let (s1, a) = publisher_next(s, evs[0]);
        let (s2, acts) = publisher_run(s1, evs.drop_first());
        (s2, seq![a] + acts)
    }
}

/// A run in which every event answers the action before it.
pub open spec fn valid_run(s: PublisherView, evs: Seq<EventModel>) -> bool
    decreases evs.len(),
{
    evs.len() == 0 || (expects(s, evs[0]) && valid_run(publisher_next(s, evs[0]).0, evs.drop_first()))
}

/// The messages that a run of events hands to the publisher.
pub open spec fn delivered(evs: Seq<EventModel>) -> Multiset<EmailView>
    decreases evs.len(),
{
    if evs.len() == 0 {
        Multiset::empty()
    } else {
        let rest = delivered(evs.drop_first());
        match evs[0] {
            EventModel::Delivered(m) => rest.insert(m),
            _ => rest,
        }
    }
}

/// The messages that a run of actions writes to the overflow store.
pub open spec fn overflowed(acts: Seq<ActionModel>) -> Multiset<EmailView>
    decreases acts.len(),
{
    if acts.len() == 0 {
        Multiset::empty()
    } else {
        let rest = overflowed(acts.drop_first());
        match acts[0] {
            ActionModel::Overflow(m) => rest.insert(m),
            _ => rest,
        }
    }
}

/// The messages that a run of actions reports as delivered to the broker.
pub open spec fn published(acts: Seq<ActionModel>) -> Multiset<EmailView>
    decreases acts.len(),
{
    if acts.len() == 0 {
        Multiset::empty()
    } else {
        let rest = published(acts.drop_first());
        match acts[0] {
            ActionModel::Published(m) => rest.insert(m),
            _ => rest,
        }
    }
}

/// The message the publisher holds, if any.
pub open spec fn held(s: PublisherView) -> Multiset<EmailView> {
    match s.inflight {
        Some(m) => Multiset::singleton(m),
        None => Multiset::empty(),
    }
}

/// A step from a reachable state on an expected event reaches a reachable state.
pub proof fn lemma_next_wf(s: PublisherView, e: EventModel)
    requires
        publisher_wf(s),
        expects(s, e),
    ensures
        publisher_wf(publisher_next(s, e).0),
{
}

/// Every message handed to the publisher is dealt with exactly once: it is
/// either reported as published or written to the overflow store, never
/// both, never twice, and none is lost. Counted with multiplicity, what the
/// publisher held at the start plus what it was handed equals what it holds
/// at the end plus what it overflowed plus what it published.
pub proof fn lemma_each_message_disposed_once(s: PublisherView, evs: Seq<EventModel>)
    requires
        publisher_wf(s),
        valid_run(s, evs),
    ensures
        publisher_wf(publisher_run(s, evs).0),
        held(s).add(delivered(evs)) =~= held(publisher_run(s, evs).0).add(overflowed(publisher_run(s, evs).1)).add(
            published(publisher_run(s, evs).1),
        ),
    decreases evs.len(),
{
    if evs.len() > 0 {
        let (s1, a) = publisher_next(s, evs[0]);
        let rest = evs.drop_first();
        lemma_next_wf(s, evs[0]);
        lemma_each_message_disposed_once(s1, rest);
        let acts = publisher_run(s, evs).1;
        let (sf, tail) = publisher_run(s1, rest);
        assert(acts.drop_first() =~= tail);
        assert(acts[0] == a);
        lemma_step_conserves(s, evs[0]);
        let d1 = match evs[0] {
            EventModel::Delivered(m) => Multiset::singleton(m),
            _ => Multiset::empty(),
        };
        let o1 = match a {
            ActionModel::Overflow(m) => Multiset::singleton(m),
            _ => Multiset::empty(),
        };
        let p1 = match a {
            ActionModel::Published(m) => Multiset::singleton(m),
            _ => Multiset::empty(),
        };
        assert(delivered(evs) =~= delivered(rest).add(d1));
        assert(overflowed(acts) =~= overflowed(tail).add(o1));
        assert(published(acts) =~= published(tail).add(p1));
        assert(publisher_run(s, evs).0 == sf);
        let lhs = held(s).add(delivered(evs));
        let rhs = held(sf).add(overflowed(acts)).add(published(acts));
        assert forall|x: EmailView| lhs.count(x) == rhs.count(x) by {
            assert(held(s).add(d1).count(x) == held(s1).add(o1).add(p1).count(x));
            assert(held(s1).add(delivered(rest)).count(x) == held(sf).add(overflowed(tail)).add(
                published(tail),
            ).count(x));
        }
        assert(lhs =~= rhs);
    }
}

proof fn lemma_step_conserves(s: PublisherView, e: EventModel)
    requires
        publisher_wf(s),
        expects(s, e),
    ensures
        ({
            let (s1, a) = publisher_next(s, e);
            let d1 = match e {
                EventModel::Delivered(m) => Multiset::singleton(m),
                _ => Multiset::empty(),
            };
            let o1 = match a {
                ActionModel::Overflow(m) => Multiset::singleton(m),
                _ => Multiset::empty(),
            };
            let p1 = match a {
                ActionModel::Published(m) => Multiset::singleton(m),
                _ => Multiset::empty(),
            };
            held(s).add(d1) =~= held(s1).add(o1).add(p1)
        }),
{
}

/// With a broker that never accepts a connection, starting without one,
/// nothing is ever reported as published, and every message handed to the
/// publisher is written to the overflow store exactly once (but for the one
/// it may still hold when the run ends).
pub proof fn lemma_unreachable_broker_overflows_all(s: PublisherView, evs: Seq<EventModel>)
    requires
        publisher_wf(s),
        !s.connected,
        valid_run(s, evs),
        forall|i: int| 0 <= i < evs.len() ==> !(#[trigger] evs[i] is ConnectSucceeded),
    ensures
        !publisher_run(s, evs).0.connected,
        published(publisher_run(s, evs).1) =~= Multiset::empty(),
        held(s).add(delivered(evs)) =~= held(publisher_run(s, evs).0).add(overflowed(publisher_run(s, evs).1)),
    decreases evs.len(),
{
    lemma_each_message_disposed_once(s, evs);
    if evs.len() > 0 {
        let (s1, a) = publisher_next(s, evs[0]);
        let rest = evs.drop_first();
        lemma_next_wf(s, evs[0]);
        assert(!(evs[0] is ConnectSucceeded));
        assert forall|i: int| 0 <= i < rest.len() implies !(#[trigger] rest[i] is ConnectSucceeded) by {
            assert(rest[i] == evs[i + 1]);
        }
        lemma_unreachable_broker_overflows_all(s1, rest);
        let acts = publisher_run(s, evs).1;
        assert(acts.drop_first() =~= publisher_run(s1, rest).1);
        assert(acts[0] == a);
    }
}

/// A message whose publish the broker refuses is written to the overflow
/// store exactly once and never reported as published, whatever the broker
/// does afterwards (provided the same message is not handed over again).
pub proof fn lemma_rejected_message_overflowed_once(s: PublisherView, evs: Seq<EventModel>)
    requires
        publisher_wf(s),
        s.phase == Phase::Publishing,
        valid_run(s, evs),
        evs.len() >= 1,
        evs[0] is Rejected,
        delivered(evs).count(s.inflight->Some_0) == 0,
    ensures
        overflowed(publisher_run(s, evs).1).count(s.inflight->Some_0) == 1,
        published(publisher_run(s, evs).1).count(s.inflight->Some_0) == 0,
{
    let m = s.inflight->Some_0;
    lemma_each_message_disposed_once(s, evs);
    let acts = publisher_run(s, evs).1;
    assert(acts[0] == ActionModel::Overflow(m));
    assert(overflowed(acts) == overflowed(acts.drop_first()).insert(m));
    assert(held(s).add(delivered(evs)).count(m) == 1);
}

impl Publisher {
    /// A publisher without a connection, about to ask for its first message
    /// (its first action is `Receive`).
    pub fn new(max_attempts: u32) -> (r: Publisher)
        ensures
            publisher_wf(r@),
            r@.phase == Phase::Idle,
            !r@.connected,
            r@.max_attempts == max_attempts as nat,
    {
        Publisher { phase: Phase::Idle, connected: false, inflight: None, max_attempts }
    }

    /// Whether `event` answers the action last asked for.
    pub fn accepts(&self, event: &PublisherEvent) -> (r: bool)
        ensures
            r == expects(self@, event@),
    {
        match self.phase {
            Phase::Idle => matches!(event, PublisherEvent::Delivered(_) | PublisherEvent::QueueClosed),
            Phase::Checking => matches!(event, PublisherEvent::ConnectionStatus(_)),
            Phase::Connecting(_) => matches!(
                event,
                PublisherEvent::ConnectSucceeded | PublisherEvent::ConnectFailed
            ),
            Phase::BackingOff(_) => matches!(event, PublisherEvent::BackoffElapsed),
            Phase::Publishing => matches!(event, PublisherEvent::Confirmed | PublisherEvent::Rejected),
            Phase::Disposing => matches!(event, PublisherEvent::Disposed),
            Phase::Stopped => false,
        }
    }

    /// Whether the caller is to hold a connection.
    pub fn is_connected(&self) -> (r: bool)
        ensures
            r == self@.connected,
    {
        self.connected
    }

    pub fn phase(&self) -> (r: Phase)
        ensures
            r == self@.phase,
    {
        self.phase
    }

    /// Takes the outcome of the last action and decides the next one.
    pub fn step(&mut self, event: PublisherEvent) -> (r: PublisherAction)
        requires
            publisher_wf(old(self)@),
            expects(old(self)@, event@),
        ensures
            publisher_wf(final(self)@),
            (final(self)@, r@) == publisher_next(old(self)@, event@),
    {
        match event {
            PublisherEvent::Delivered(m) => {
                self.inflight = Some(m);
                if self.connected {
                    self.phase = Phase::Checking;
                    PublisherAction::CheckConnection
                } else {
                    self.phase = Phase::Connecting(1);
                    PublisherAction::Connect
                }
            },
            PublisherEvent::QueueClosed => {
                let held = self.connected;
                self.phase = Phase::Stopped;
                self.connected = false;
                PublisherAction::Shutdown(held)
            },
            PublisherEvent::ConnectionStatus(live) => {
                if live {
                    self.phase = Phase::Publishing;
                    PublisherAction::Publish(self.payload())
                } else {
                    self.phase = Phase::Connecting(1);
                    self.connected = false;
                    PublisherAction::Connect
                }
            },
            PublisherEvent::ConnectSucceeded => {
                self.phase = Phase::Publishing;
                self.connected = true;
                PublisherAction::Publish(self.payload())
            },
            PublisherEvent::ConnectFailed => {
                let n = match self.phase {
                    Phase::Connecting(n) => n,
                    _ => 1,
                };
                self.connected = false;
                if n < self.max_attempts {
                    self.phase = Phase::BackingOff(n);
                    PublisherAction::Backoff
                } else {
                    self.phase = Phase::Disposing;
                    PublisherAction::Overflow(self.take_inflight())
                }
            },
            PublisherEvent::BackoffElapsed => {
                let n = match self.phase {
                    Phase::BackingOff(n) => n,
                    _ => 0,
                };
                self.phase = Phase::Connecting(n + 1);
                PublisherAction::Connect
            },
            PublisherEvent::Confirmed => {
                self.phase = Phase::Disposing;
                PublisherAction::Published(self.take_inflight())
            },
            PublisherEvent::Rejected => {
                self.phase = Phase::Disposing;
                self.connected = false;
                PublisherAction::Overflow(self.take_inflight())
            },
            PublisherEvent::Disposed => {
                self.phase = Phase::Idle;
                PublisherAction::Receive
            },
        }
    }

    fn payload(&self) -> (r: Vec<u8>)
        requires
            self@.inflight is Some,
        ensures
            r@ == payload_of(self@.inflight->Some_0),
    {
        match &self.inflight {
            Some(m) => m.serialize(),
            None => Vec::new(),
        }
    }

    fn take_inflight(&mut self) -> (r: Email)
        requires
            old(self)@.inflight is Some,
        ensures
            r@ == old(self)@.inflight->Some_0,
            final(self)@ == (PublisherView { inflight: None, ..old(self)@ }),
    {
        match self.inflight.take() {
            Some(m) => m,
            None => Email::empty(),
        }
    }
}

} // verus!
