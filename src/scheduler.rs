//! The broadcast scheduler and request listener: what to do on each event
//! of the daemon's life, and the payload of each broadcast. Running the
//! timer, the transport and the queue is left to the caller, which performs
//! each returned action and hands back what happened.
use vstd::prelude::*;
use vstd::utf8::encode_utf8;
use crate::catalog::{Catalog, Quote};
use crate::protocol::{
    decode_request_spec, decode_stoic_spec, encode_stoic_spec, lemma_stoic_round_trip,
    DailyStoic, DailyStoicRequest, DecodeError, StoicView,
};
use crate::topic::{ContentTopic, REQUEST_NAME};

verus! {

/// What became of one message that the transport delivered.
#[derive(Debug)]
pub enum Inbound {
    /// It was not on the request topic; it was not decoded.
    Ignored,
    /// A well-formed request.
    Request(DailyStoicRequest),
    /// It was on the request topic but did not decode.
    Malformed(DecodeError),
}

/// `Inbound` as contracts see it.
pub ghost enum InboundView {
    Ignored,
    Request(u64),
    Malformed,
}

/// What a delivery on `topic` carrying `payload` amounts to.
pub open spec fn classify_spec(topic: ContentTopic, payload: Seq<u8>) -> InboundView {
    if !topic.is_named(REQUEST_NAME@) {
        InboundView::Ignored
    } else {
        match decode_request_spec(payload) {
            Some(t) => InboundView::Request(t),
            None => InboundView::Malformed,
        }
    }
}

impl Inbound {
    pub open spec fn view_spec(&self) -> InboundView {
        match self {
            Inbound::Ignored => InboundView::Ignored,
            Inbound::Request(q) => InboundView::Request(q@),
            Inbound::Malformed(_) => InboundView::Malformed,
        }
    }
}

/// Filters a delivery by topic and decodes it if it is on the request topic.
/// Nothing on another topic reaches the decoder.
pub fn classify_inbound(topic: &ContentTopic, payload: &[u8]) -> (r: Inbound)
    ensures
        r.view_spec() == classify_spec(*topic, payload@),
        !topic.is_named(REQUEST_NAME@) ==> r is Ignored,
{
    let request = ContentTopic::request();
    if !topic.same_as(&request) {
        return Inbound::Ignored;
    }
    match DailyStoicRequest::decode(payload) {
        Ok(q) => Inbound::Request(q),
        Err(e) => Inbound::Malformed(e),
    }
}

/// The phases of the daemon's life.
#[derive(Clone, Copy, Debug, PartialEq, Eq)]
pub enum Phase {
    Initializing,
    /// Waiting for enough peers; `attempts` checks have failed so far.
    Connecting { attempts: u64 },
    /// Enough peers: the timer and the listener are being started.
    Ready,
    /// Timer and listener both active.
    Running,
    ShuttingDown,
    /// Enough peers never came; terminal.
    Failed,
}

/// What happens to the daemon.
#[derive(Debug)]
pub enum Event {
    /// The transport node is up.
    NodeStarted,
    /// The transport answered whether it has enough peers.
    PeersChecked { enough: bool },
    /// The timer and the listener are running.
    ActivitiesStarted,
    /// An interval has elapsed.
    TimerFired,
    /// A message arrived from the transport.
    Delivered { topic: ContentTopic, payload: Vec<u8> },
    /// The process is asked to stop.
    Terminate,
}

/// What the caller is to do next.
#[derive(Clone, Copy, Debug, PartialEq, Eq)]
pub enum Action {
    Nothing,
    /// Ask the transport whether it has enough peers.
    CheckPeers,
    /// Start the timer and the listener.
    StartActivities,
    /// Publish one quote on the broadcast topic.
    Broadcast,
    /// A request did not decode: report it and carry on.
    ReportMalformed,
    /// End the process, successfully or not.
    Exit { success: bool },
}

/// The next phase and the action for `event` in `phase`, where at most
/// `budget` peer checks are made before giving up.
pub open spec fn step_spec(phase: Phase, budget: u64, event: Event) -> (Phase, Action) {
    if event is Terminate {
        match phase {
            Phase::Failed => (Phase::Failed, Action::Nothing),
            _ => (Phase::ShuttingDown, Action::Exit { success: true }),
        }
    } else {
        match phase {
            Phase::Initializing => if event is NodeStarted {
                (Phase::Connecting { attempts: 0 }, Action::CheckPeers)
            } else {
                (phase, Action::Nothing)
            },
            Phase::Connecting { attempts } => match event {
                Event::PeersChecked { enough } => if enough {
                    (Phase::Ready, Action::StartActivities)
                } else if attempts + 1 < budget {
                    (Phase::Connecting { attempts: (attempts + 1) as u64 }, Action::CheckPeers)
                } else {
                    (Phase::Failed, Action::Exit { success: false })
                },
                _ => (phase, Action::Nothing),
            },
            Phase::Ready => if event is ActivitiesStarted {
                (Phase::Running, Action::Nothing)
            } else {
                (phase, Action::Nothing)
            },
            Phase::Running => match event {
                Event::TimerFired => (phase, Action::Broadcast),
                Event::Delivered { topic, payload } => match classify_spec(topic, payload@) {
                    InboundView::Request(_) => (phase, Action::Broadcast),
                    InboundView::Malformed => (phase, Action::ReportMalformed),
                    InboundView::Ignored => (phase, Action::Nothing),
                },
                _ => (phase, Action::Nothing),
            },
            _ => (phase, Action::Nothing),
        }
    }
}

/// The phase after `events` from `phase`, and the actions they called for.
pub open spec fn run_spec(phase: Phase, budget: u64, events: Seq<Event>) -> (Phase, Seq<Action>)
    decreases events.len(),
{
    if events.len() == 0 {
        (phase, Seq::empty())
    } else {
        let (next, a) = step_spec(phase, budget, events[0]);
        let (last, rest) = run_spec(next, budget, events.drop_first());
        (last, seq![a] + rest)
    }
}

/// The decisions of the daemon: its phase, and how many peer checks it
/// makes before giving up.
pub struct Scheduler {
    phase: Phase,
    retry_budget: u64,
}

impl Scheduler {
    pub closed spec fn phase_spec(&self) -> Phase {
        self.phase
    }

    pub closed spec fn budget(&self) -> u64 {
        self.retry_budget
    }

    /// A scheduler that has not started, and makes at most `retry_budget`
    /// peer checks (at least one).
    pub fn new(retry_budget: u64) -> (r: Self)
        ensures
            r.phase_spec() == Phase::Initializing,
            r.budget() == retry_budget,
    {
        Scheduler { phase: Phase::Initializing, retry_budget }
    }

    pub fn phase(&self) -> (r: Phase)
        ensures
            r == self.phase_spec(),
    {
        self.phase
    }

    /// Moves to the next phase on `event` and says what to do.
    pub fn step(&mut self, event: &Event) -> (r: Action)
        ensures
            (final(self).phase_spec(), r) == step_spec(old(self).phase_spec(), old(self).budget(), *event),
            final(self).budget() == old(self).budget(),
    {
        if let Event::Terminate = event {
            return match self.phase {
                Phase::Failed => Action::Nothing,
                _ => {
                    self.phase = Phase::ShuttingDown;
                    Action::Exit { success: true }
                },
            };
        }
        match self.phase {
            Phase::Initializing => {
                if let Event::NodeStarted = event {
                    self.phase = Phase::Connecting { attempts: 0 };
                    Action::CheckPeers
                } else {
                    Action::Nothing
                }
            },
            Phase::Connecting { attempts } => match event {
                Event::PeersChecked { enough } => {
                    if *enough {
                        self.phase = Phase::Ready;
                        Action::StartActivities
                    } else if attempts < self.retry_budget && attempts + 1 < self.retry_budget {
                        self.phase = Phase::Connecting { attempts: attempts + 1 };
                        Action::CheckPeers
                    } else {
                        self.phase = Phase::Failed;
                        Action::Exit { success: false }
                    }
                },
                _ => Action::Nothing,
            },
            Phase::Ready => {
                if let Event::ActivitiesStarted = event {
                    self.phase = Phase::Running;
                }
                Action::Nothing
            },
            Phase::Running => match event {
                Event::TimerFired => Action::Broadcast,
                Event::Delivered { topic, payload } => match classify_inbound(topic, payload.as_slice()) {
                    Inbound::Request(_) => Action::Broadcast,
                    Inbound::Malformed(_) => Action::ReportMalformed,
                    Inbound::Ignored => Action::Nothing,
                },
                _ => Action::Nothing,
            },
            _ => Action::Nothing,
        }
    }
}

/// The broadcast of quote `q` stamped with `timestamp`.
pub open spec fn quote_broadcast(q: Quote, timestamp: u64) -> StoicView {
    StoicView { timestamp, author: q.author@, content: encode_utf8(q.text@) }
}

/// The broadcast that the random value `random` selects from `c`.
pub open spec fn selected_broadcast(c: &Catalog, random: usize, timestamp: u64) -> StoicView {
    quote_broadcast(c.quotes()[c.index_for(random)], timestamp)
}

/// The wire form of the broadcast that `random` selects from `c`, stamped
/// with `timestamp`.
pub fn broadcast_payload(c: &Catalog, random: usize, timestamp: u64) -> (r: Vec<u8>)
    requires
        c.wf(),
    ensures
        r@ == encode_stoic_spec(selected_broadcast(c, random, timestamp)),
{
    let q = c.pick(random);
    let m = DailyStoic::with_timestamp(q.author.as_str(), q.text.as_str(), timestamp);
    m.encode()
}

/// The wire form of one broadcast: a quote drawn at random from `c`, stamped
/// with the current time.
pub fn broadcast_once(c: &Catalog) -> (r: Vec<u8>)
    requires
        c.wf(),
    ensures
        exists|i: int, timestamp: u64|
            0 <= i < c.quotes().len() && r@ == encode_stoic_spec(
                #[trigger] quote_broadcast(c.quotes()[i], timestamp),
            ),
{
    let q = c.pick_random();
    let m = DailyStoic::new(q.author.as_str(), q.text.clone());
    let r = m.encode();
    proof {
        let i = choose|i: int| 0 <= i < c.quotes().len() && *q == c.quotes()[i];
        assert(m@ == quote_broadcast(c.quotes()[i], m@.timestamp));
    }
    r
}


/// The phases before enough peers were seen.
pub open spec fn before_ready(p: Phase) -> bool {
    match p {
        Phase::Initializing | Phase::Connecting { .. } | Phase::Failed | Phase::ShuttingDown => true,
        _ => false,
    }
}

/// Startup gating: unless the transport reports enough peers, nothing is
/// started and nothing is broadcast, whatever else happens.
pub proof fn lemma_no_broadcast_without_peers(phase: Phase, budget: u64, events: Seq<Event>)
    requires
        before_ready(phase),
        forall|i: int| 0 <= i < events.len() ==> !((#[trigger] events[i]) matches Event::PeersChecked { enough } && enough),
    ensures
        before_ready(run_spec(phase, budget, events).0),
        forall|i: int| 0 <= i < run_spec(phase, budget, events).1.len() ==> {
            let a = #[trigger] run_spec(phase, budget, events).1[i];
            a != Action::Broadcast && a != Action::StartActivities
        },
    decreases events.len(),
{
    if events.len() > 0 {
        let (next, a) = step_spec(phase, budget, events[0]);
        assert forall|i: int| 0 <= i < events.drop_first().len() implies !((#[trigger] events.drop_first()[i]) matches Event::PeersChecked { enough } && enough) by {
            assert(events.drop_first()[i] == events[i + 1]);
        }
        lemma_no_broadcast_without_peers(next, budget, events.drop_first());
        let rest = run_spec(next, budget, events.drop_first()).1;
        assert forall|i: int| 0 <= i < run_spec(phase, budget, events).1.len() implies {
            let a = #[trigger] run_spec(phase, budget, events).1[i];
            a != Action::Broadcast && a != Action::StartActivities
        } by {
            if i > 0 {
                assert(run_spec(phase, budget, events).1[i] == rest[i - 1]);
            }
        }
    }
}

/// `n` timer events.
pub open spec fn ticks(n: nat) -> Seq<Event> {
    Seq::new(n, |i: int| Event::TimerFired)
}

/// Timer independence: while running, `n` elapsed intervals call for exactly
/// `n` broadcasts and leave the daemon running.
pub proof fn lemma_ticks_broadcast(budget: u64, n: nat)
    ensures
        run_spec(Phase::Running, budget, ticks(n)) == (Phase::Running, Seq::new(n, |i: int| Action::Broadcast)),
    decreases n,
{
    if n > 0 {
        assert(ticks(n).drop_first() =~= ticks((n - 1) as nat));
        lemma_ticks_broadcast(budget, (n - 1) as nat);
        assert(seq![Action::Broadcast] + Seq::new((n - 1) as nat, |i: int| Action::Broadcast) =~= Seq::new(n, |i: int| Action::Broadcast));
    }
}

/// A delivery on the request topic whose payload is not a request.
pub open spec fn is_malformed_request(e: Event) -> bool {
    e matches Event::Delivered { topic, payload } && topic.is_named(REQUEST_NAME@)
        && decode_request_spec(payload@) is None
}

/// Malformed-request resilience: while running, requests that do not decode
/// call for no broadcast, only a report each, and leave the daemon running.
pub proof fn lemma_malformed_requests_ignored(budget: u64, events: Seq<Event>)
    requires
        forall|i: int| 0 <= i < events.len() ==> is_malformed_request(#[trigger] events[i]),
    ensures
        run_spec(Phase::Running, budget, events) == (Phase::Running, Seq::new(events.len(), |i: int| Action::ReportMalformed)),
    decreases events.len(),
{
    if events.len() > 0 {
        assert(is_malformed_request(events[0]));
        assert forall|i: int| 0 <= i < events.drop_first().len() implies is_malformed_request(#[trigger] events.drop_first()[i]) by {
            assert(events.drop_first()[i] == events[i + 1]);
        }
        lemma_malformed_requests_ignored(budget, events.drop_first());
        assert(seq![Action::ReportMalformed] + Seq::new(events.drop_first().len(), |i: int| Action::ReportMalformed) =~= Seq::new(events.len(), |i: int| Action::ReportMalformed));
    }
}

/// Request-triggered broadcast: while running, one well-formed request on
/// the request topic calls for exactly one broadcast.
pub proof fn lemma_request_triggers_broadcast(budget: u64, topic: ContentTopic, payload: Vec<u8>)
    requires
        topic.is_named(REQUEST_NAME@),
        decode_request_spec(payload@) is Some,
    ensures
        run_spec(Phase::Running, budget, seq![Event::Delivered { topic, payload }]) == (Phase::Running, seq![Action::Broadcast]),
{
    let events = seq![Event::Delivered { topic, payload }];
    assert(events.drop_first() =~= Seq::<Event>::empty());
    assert(classify_spec(topic, payload@) is Request);
    assert(step_spec(Phase::Running, budget, events[0]) == (Phase::Running, Action::Broadcast));
    assert(run_spec(Phase::Running, budget, events.drop_first()) == (Phase::Running, Seq::<Action>::empty()));
    assert(seq![Action::Broadcast] + Seq::<Action>::empty() =~= seq![Action::Broadcast]);
}

/// A broadcast from a catalog of one quote carries that quote, whatever
/// random value selected it.
pub proof fn lemma_single_quote_broadcast(c: &Catalog, random: usize, timestamp: u64)
    requires
        c.wf(),
        c.quotes().len() == 1,
        encode_utf8(c.quotes()[0].author@).len() < 0x1_0000_0000_0000_0000,
        encode_utf8(c.quotes()[0].text@).len() < 0x1_0000_0000_0000_0000,
    ensures
        decode_stoic_spec(encode_stoic_spec(selected_broadcast(c, random, timestamp))) == Some(
            quote_broadcast(c.quotes()[0], timestamp),
        ),
{
    assert(c.index_for(random) == 0);
    lemma_stoic_round_trip(quote_broadcast(c.quotes()[0], timestamp));
}


/// `n` answers that there are not enough peers.
pub open spec fn failed_checks(n: nat) -> Seq<Event> {
    Seq::new(n, |i: int| Event::PeersChecked { enough: false })
}

/// How many peer checks are made before giving up: the budget, and at
/// least one.
pub open spec fn checks_allowed(budget: u64) -> nat {
    if budget == 0 {
        1
    } else {
        budget as nat
    }
}

proof fn lemma_fail_after(budget: u64, attempts: u64, k: nat)
    requires
        k >= 1,
        attempts + k == checks_allowed(budget),
    ensures
        run_spec(Phase::Connecting { attempts }, budget, failed_checks(k)).0 == Phase::Failed,
        run_spec(Phase::Connecting { attempts }, budget, failed_checks(k)).1.len() == k,
        run_spec(Phase::Connecting { attempts }, budget, failed_checks(k)).1.last() == (Action::Exit { success: false }),
    decreases k,
{
    let evs = failed_checks(k);
    assert(evs.drop_first() =~= failed_checks((k - 1) as nat));
    if k == 1 {
        assert(run_spec(Phase::Failed, budget, evs.drop_first()) == (Phase::Failed, Seq::<Action>::empty()));
    } else {
        lemma_fail_after(budget, (attempts + 1) as u64, (k - 1) as nat);
    }
}

/// The node starting, then every peer check allowed by `budget` failing.
pub open spec fn give_up_events(budget: u64) -> Seq<Event> {
    seq![Event::NodeStarted] + failed_checks(checks_allowed(budget))
}

/// Startup gating: when every peer check fails, the daemon gives up after
/// its budget of checks, in the failed phase, and ends the process
/// unsuccessfully.
pub proof fn lemma_startup_gives_up(budget: u64)
    ensures
        run_spec(Phase::Initializing, budget, give_up_events(budget)).0 == Phase::Failed,
        run_spec(Phase::Initializing, budget, give_up_events(budget)).1.last() == (Action::Exit {
            success: false,
        }),
{
    let evs = give_up_events(budget);
    assert(evs.drop_first() =~= failed_checks(checks_allowed(budget)));
    lemma_fail_after(budget, 0, checks_allowed(budget));
}

} // verus!
