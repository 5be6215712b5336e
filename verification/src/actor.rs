//! Actor lifecycle: linking, monitoring, exits and their propagation.
//!
//! The runtime feeds events into [`ActorLoop`] and performs the steps that it
//! answers.

use crate::monitor::{errored, finished, panicked, timed_out, ActorStats};
use crate::text::{concat3, debug_quote, decimal, push_decimal, quoted};
use crate::time::Duration;
use vstd::prelude::*;

verus! {

/// Unique actor identifier.
#[derive(Debug, Clone, Copy, PartialEq, Eq, Structural, Hash)]
pub struct ActorId(pub u64);

/// Numbers actors, starting at one.
pub struct ActorCounter {
    pub upcoming: u64,
}

impl ActorCounter {
    /// A fresh counter.
    pub fn new() -> (c: Self)
        ensures
            c.upcoming == 1,
    {
        ActorCounter { upcoming: 1 }
    }
}

impl ActorId {
    /// Sentinel id for a child slot whose last restart attempt failed.
    pub fn dead() -> (id: ActorId)
        ensures
            id == ActorId(0),
    {
        ActorId(0)
    }

    /// The next id; the count wraps around.
    pub fn new(counter: &mut ActorCounter) -> (id: ActorId)
        ensures
            id == ActorId(old(counter).upcoming),
            final(counter).upcoming == (if old(counter).upcoming == u64::MAX {
                0
            } else {
                (old(counter).upcoming + 1) as u64
            }),
    {
        let id: u64 = counter.upcoming;
        counter.upcoming = if id == u64::MAX {
            0
        } else {
            id + 1
        };
        ActorId(id)
    }

    /// Whether this is the sentinel.
    pub fn is_dead(self) -> (r: bool)
        ensures
            r == (self == ActorId(0)),
    {
        self.0 == 0
    }

    /// The text shown for the id.
    pub fn to_string(&self) -> (s: String)
        ensures
            s@ == "actor#"@ + decimal(self.0 as nat),
    {
        let mut s = "actor#".to_string();
        push_decimal(&mut s, self.0);
        s
    }
}

/// Why an actor exited.
#[derive(Debug, PartialEq, Eq)]
pub enum ExitReason {
    Normal,
    Shutdown,
    Error(String),
    /// Handling one message took too long.
    HandleTimeout { elapsed_ms: u64, limit_ms: u64 },
    Linked(ActorId, Box<ExitReason>),
    Killed,
}

impl Clone for ExitReason {
    fn clone(&self) -> (r: Self)
        ensures
            r == *self,
        decreases self,
    {
        match self {
            ExitReason::Normal => ExitReason::Normal,
            ExitReason::Shutdown => ExitReason::Shutdown,
            ExitReason::Error(e) => ExitReason::Error(e.clone()),
            ExitReason::HandleTimeout { elapsed_ms, limit_ms } => ExitReason::HandleTimeout {
                elapsed_ms: *elapsed_ms,
                limit_ms: *limit_ms,
            },
            ExitReason::Linked(peer, reason) => ExitReason::Linked(
                *peer,
                Box::new((&**reason).clone()),
            ),
            ExitReason::Killed => ExitReason::Killed,
        }
    }
}

impl ExitReason {
    /// The text that a supervisor is told.
    pub open spec fn text(&self) -> Seq<char>
        decreases self,
    {
        match self {
            ExitReason::Normal => "Normal"@,
            ExitReason::Shutdown => "Shutdown"@,
            ExitReason::Error(e) => "Error("@ + quoted(e@) + ")"@,
            ExitReason::HandleTimeout { elapsed_ms, limit_ms } => "HandleTimeout { elapsed_ms: "@
                + decimal(*elapsed_ms as nat) + ", limit_ms: "@ + decimal(*limit_ms as nat) + " }"@,
            ExitReason::Linked(peer, reason) => "Linked(ActorId("@ + decimal(peer.0 as nat)
                + "), "@ + reason.text() + ")"@,
            ExitReason::Killed => "Killed"@,
        }
    }

    /// The text that a supervisor is told.
    pub fn to_text(&self) -> (s: String)
        ensures
            s@ == self.text(),
        decreases self,
    {
        match self {
            ExitReason::Normal => "Normal".to_string(),
            ExitReason::Shutdown => "Shutdown".to_string(),
            ExitReason::Error(e) => {
                let q = debug_quote(e.as_str());
                concat3("Error(", q.as_str(), ")")
            },
            ExitReason::HandleTimeout { elapsed_ms, limit_ms } => {
                let mut s = "HandleTimeout { elapsed_ms: ".to_string();
                push_decimal(&mut s, *elapsed_ms);
                s.push_str(", limit_ms: ");
                push_decimal(&mut s, *limit_ms);
                s.push_str(" }");
                s
            },
            ExitReason::Linked(peer, reason) => {
                let mut s = "Linked(ActorId(".to_string();
                push_decimal(&mut s, peer.0);
                s.push_str("), ");
                let inner = reason.to_text();
                s.push_str(inner.as_str());
                s.push_str(")");
                s
            },
            ExitReason::Killed => "Killed".to_string(),
        }
    }
}

/// Context handed to an actor whose handle ran out of time.
#[derive(Debug, Clone, Copy, PartialEq, Eq, Structural)]
pub struct HandleStuckContext {
    pub actor_id: ActorId,
    pub elapsed: Duration,
    pub limit: Duration,
}

/// What a supervisor is told about a failed child.
#[derive(Debug, PartialEq, Eq)]
pub struct RestartSignal {
    pub child_id: ActorId,
    pub reason: String,
}

/// Whether an exit reaches the linked actors.
pub open spec fn propagates(reason: ExitReason) -> bool {
    !(reason is Normal || reason is Shutdown)
}

/// Whether an exit reaches the linked actors.
pub fn should_propagate_linked_exit(reason: &ExitReason) -> (r: bool)
    ensures
        r == propagates(*reason),
{
    !matches!(reason, ExitReason::Normal | ExitReason::Shutdown)
}

/// The exit that a linked actor's exit causes; a trapping actor goes on.
pub fn linked_exit_reason(peer: ActorId, reason: ExitReason, trap: bool) -> (r: Option<ExitReason>)
    ensures
        r == (if trap {
            None
        } else {
            Some(ExitReason::Linked(peer, Box::new(reason)))
        }),
{
    if trap {
        None
    } else {
        Some(ExitReason::Linked(peer, Box::new(reason)))
    }
}

/// How handling one message ended.
#[derive(Debug, PartialEq, Eq)]
pub enum HandleOutcome {
    /// The hook before the handle failed.
    BeginFailed(String),
    /// The handle ran out of time.
    TimedOut { elapsed: Duration, limit: Duration },
    /// The handle succeeded.
    Done,
    /// The handle failed.
    Failed(String),
    /// The handle panicked.
    Panicked,
}

/// The exit that an outcome causes.
pub open spec fn outcome_exit(outcome: HandleOutcome, r: Option<ExitReason>) -> bool {
    match outcome {
        HandleOutcome::BeginFailed(e) => r == Some(ExitReason::Error(e)),
        HandleOutcome::TimedOut { elapsed, limit } => r == Some(
            ExitReason::HandleTimeout {
                elapsed_ms: crate::monitor::clamped_ms(elapsed),
                limit_ms: crate::monitor::clamped_ms(limit),
            },
        ),
        HandleOutcome::Done => r is None,
        HandleOutcome::Failed(e) => r == Some(ExitReason::Error(e)),
        HandleOutcome::Panicked => r matches Some(ExitReason::Error(e)) && e@
            == "panic in handle"@,
    }
}

/// The exit that an outcome causes, if any.
pub fn handle_exit(outcome: HandleOutcome) -> (r: Option<ExitReason>)
    ensures
        outcome_exit(outcome, r),
{
    match outcome {
        HandleOutcome::BeginFailed(e) => Some(ExitReason::Error(e)),
        HandleOutcome::TimedOut { elapsed, limit } => Some(
            ExitReason::HandleTimeout {
                elapsed_ms: elapsed.millis_clamped(),
                limit_ms: limit.millis_clamped(),
            },
        ),
        HandleOutcome::Done => None,
        HandleOutcome::Failed(e) => Some(ExitReason::Error(e)),
        HandleOutcome::Panicked => Some(ExitReason::Error("panic in handle".to_string())),
    }
}

/// The counters of an actor after one more outcome.
pub open spec fn outcome_counted(
    s: ActorStats,
    outcome: HandleOutcome,
    elapsed: Duration,
    slow_threshold: Option<Duration>,
) -> ActorStats {
    match outcome {
        HandleOutcome::BeginFailed(_) | HandleOutcome::Failed(_) => errored(s),
        HandleOutcome::TimedOut { elapsed, limit } => timed_out(s, elapsed),
        HandleOutcome::Done => finished(s, elapsed, slow_threshold),
        HandleOutcome::Panicked => panicked(s),
    }
}

/// Counts an outcome.
pub fn record_outcome(
    monitor: &mut crate::monitor::ActorMonitor,
    id: ActorId,
    outcome: &HandleOutcome,
    elapsed: Duration,
    slow_threshold: Option<Duration>,
)
    requires
        old(monitor).wf(),
    ensures
        final(monitor).wf(),
        final(monitor).post_mortem == old(monitor).post_mortem,
        final(monitor).cells@ == (if old(monitor).cells@.contains_key(id.0) {
            old(monitor).cells@.insert(
                id.0,
                outcome_counted(old(monitor).cells@[id.0], *outcome, elapsed, slow_threshold),
            )
        } else {
            old(monitor).cells@
        }),
{
    match outcome {
        HandleOutcome::BeginFailed(_) => monitor.record_error(id),
        HandleOutcome::Failed(_) => monitor.record_error(id),
        HandleOutcome::TimedOut { elapsed, limit: _ } => monitor.record_timeout(id, *elapsed),
        HandleOutcome::Done => monitor.finish_handle(id, elapsed, slow_threshold),
        HandleOutcome::Panicked => monitor.record_panic(id),
    }
}

/// The notice for the supervisor of an actor that failed.
pub fn restart_signal(id: ActorId, reason: &ExitReason) -> (s: RestartSignal)
    ensures
        s.child_id == id,
        s.reason@ == reason.text(),
{
    RestartSignal { child_id: id, reason: reason.to_text() }
}

/// What reaches a running actor.
#[derive(Debug, PartialEq, Eq)]
pub enum LoopEvent {
    /// The control channel or the mailbox closed.
    Closed,
    /// Another actor links up.
    Link(ActorId),
    /// Another actor unlinks.
    Unlink(ActorId),
    /// A linked actor exited; `trap` says whether this one goes on regardless.
    LinkedExit { peer: ActorId, reason: ExitReason, trap: bool },
    /// A message was handled.
    Handled(HandleOutcome),
    /// An observer wants to hear of the exit through the numbered channel.
    Monitor { observer: ActorId, notify: u64 },
    /// An observer no longer wants to hear of the exit.
    Demonitor(ActorId),
    /// The implementation was replaced; the upgrade hook may have failed.
    Upgraded(Result<(), String>),
    /// The actor is asked to stop.
    Stop,
    /// The actor is told to exit at once.
    Kill,
}

/// What the runtime does next.
#[derive(Debug, PartialEq, Eq)]
pub enum LoopStep {
    /// Wait for the next event.
    Continue,
    /// Tell the peer to link back, then wait.
    LinkBack(ActorId),
    /// Leave the loop.
    Exit(ExitReason),
}

/// The links and observers of a running actor.
pub struct ActorLoop {
    /// Linked actors, each once.
    pub links: Vec<ActorId>,
    /// Observers with their channels, in order of subscription.
    pub monitors: Vec<(ActorId, u64)>,
}

/// The observers other than `observer`, in order.
pub open spec fn without_observer(m: Seq<(ActorId, u64)>, observer: ActorId) -> Seq<
    (ActorId, u64),
> {
    m.filter(not_from(observer))
}

/// Subscriptions of others than `observer`.
pub open spec fn not_from(observer: ActorId) -> spec_fn((ActorId, u64)) -> bool {
    |e: (ActorId, u64)| e.0 != observer
}

/// The links after an event.
pub open spec fn links_after(linked: Set<ActorId>, event: LoopEvent) -> Set<ActorId> {
    match event {
        LoopEvent::Link(peer) => linked.insert(peer),
        LoopEvent::Unlink(peer) => linked.remove(peer),
        _ => linked,
    }
}

/// The answer to a request for a link: the first one is returned.
pub open spec fn link_answer(linked: Set<ActorId>, peer: ActorId) -> LoopStep {
    if linked.contains(peer) {
        LoopStep::Continue
    } else {
        LoopStep::LinkBack(peer)
    }
}

/// What an event does to a running actor, and the answer to it.
pub open spec fn event_taken(
    before: ActorLoop,
    event: LoopEvent,
    step: LoopStep,
    after: ActorLoop,
) -> bool {
    &&& after.linked() == links_after(before.linked(), event)
    &&& after.monitors@ == (match event {
        LoopEvent::Monitor { observer, notify } => before.monitors@.push((observer, notify)),
        LoopEvent::Demonitor(observer) => without_observer(before.monitors@, observer),
        _ => before.monitors@,
    })
    &&& match event {
        LoopEvent::Closed => step == LoopStep::Exit(ExitReason::Normal),
        LoopEvent::Link(peer) => step == link_answer(before.linked(), peer),
        LoopEvent::LinkedExit { peer, reason, trap } => step == (if trap {
            LoopStep::Continue
        } else {
            LoopStep::Exit(ExitReason::Linked(peer, Box::new(reason)))
        }),
        LoopEvent::Handled(outcome) => match step {
            LoopStep::Exit(reason) => outcome_exit(outcome, Some(reason)),
            LoopStep::Continue => outcome is Done,
            _ => false,
        },
        LoopEvent::Upgraded(Err(e)) => step == LoopStep::Exit(ExitReason::Error(e)),
        LoopEvent::Stop => step == LoopStep::Exit(ExitReason::Shutdown),
        LoopEvent::Kill => step == LoopStep::Exit(ExitReason::Killed),
        _ => step == LoopStep::Continue,
    }
}

/// Who is told of the exit of an actor: the channels of its observers, and the
/// linked actors where the exit reaches them.
pub open spec fn exit_told(
    actor: ActorLoop,
    reason: ExitReason,
    r: (Vec<u64>, Vec<ActorId>),
) -> bool {
    &&& r.0@.len() == actor.monitors@.len()
    &&& forall|i: int| 0 <= i < r.0@.len() ==> #[trigger] r.0@[i] == actor.monitors@[i].1
    &&& r.1@.no_duplicates()
    &&& r.1@.to_set() == (if propagates(reason) {
        actor.linked()
    } else {
        Set::empty()
    })
}

impl ActorLoop {
    /// No actor is linked twice.
    pub open spec fn wf(&self) -> bool {
        self.links@.no_duplicates()
    }

    /// The linked actors.
    pub open spec fn linked(&self) -> Set<ActorId> {
        self.links@.to_set()
    }

    /// No links and no observers.
    pub fn new() -> (l: Self)
        ensures
            l.wf(),
            l.linked() == Set::<ActorId>::empty(),
            l.monitors@.len() == 0,
    {
        let l = ActorLoop { links: Vec::new(), monitors: Vec::new() };
        assert(l.linked() =~= Set::<ActorId>::empty());
        l
    }

    /// The position of a link.
    fn find_link(&self, peer: ActorId) -> (r: Option<usize>)
        ensures
            match r {
                Some(i) => i < self.links@.len() && self.links@[i as int] == peer,
                None => !self.linked().contains(peer),
            },
    {
        let mut i: usize = 0;
        while i < self.links.len()
            invariant
                i <= self.links@.len(),
                forall|j: int| 0 <= j < i ==> self.links@[j] != peer,
            decreases self.links@.len() - i,
        {
            if self.links[i] == peer {
                return Some(i);
            }
            i += 1;
        }
        None
    }

    /// Links an actor; says whether it was not linked before.
    fn add_link(&mut self, peer: ActorId) -> (fresh: bool)
        requires
            old(self).wf(),
        ensures
            final(self).wf(),
            final(self).linked() == old(self).linked().insert(peer),
            fresh == !old(self).linked().contains(peer),
            final(self).monitors == old(self).monitors,
    {
        let ghost was = self.links@;
        match self.find_link(peer) {
            Some(i) => {
                assert(was.contains(was[i as int]));
                assert(self.linked() =~= was.to_set().insert(peer));
                false
            },
            None => {
                self.links.push(peer);
                proof {
                    Seq::<ActorId>::lemma_to_set_insert_commutes(was, peer);
                    assert(self.links@ =~= was + seq![peer]);
                    assert forall|a: int, b: int|
                        0 <= a < b < self.links@.len() implies self.links@[a] != self.links@[b] by {
                        assert(was.contains(was[a]));
                    }
                }
                true
            },
        }
    }

    /// Unlinks an actor.
    fn drop_link(&mut self, peer: ActorId)
        requires
            old(self).wf(),
        ensures
            final(self).wf(),
            final(self).linked() == old(self).linked().remove(peer),
            final(self).monitors == old(self).monitors,
    {
        let ghost was = self.links@;
        match self.find_link(peer) {
            None => {
                assert(self.linked() =~= was.to_set().remove(peer));
            },
            Some(i) => {
                let _ = self.links.remove(i);
                proof {
                    let now = self.links@;
                    assert(now =~= was.remove(i as int));
                    assert forall|a: int, b: int| 0 <= a < b < now.len() implies now[a] != now[b] by {
                        let a2 = if a < i {
                            a
                        } else {
                            a + 1
                        };
                        let b2 = if b < i {
                            b
                        } else {
                            b + 1
                        };
                        assert(was[a2] != was[b2]);
                    }
                    assert forall|x: ActorId|
                        now.contains(x) <==> (was.contains(x) && x != peer) by {
                        if was.contains(x) && x != peer {
                            let j = was.index_of(x);
                            let j2 = if j < i {
                                j
                            } else {
                                j - 1
                            };
                            assert(now[j2] == x);
                        }
                        if now.contains(x) {
                            let j = now.index_of(x);
                            let j2 = if j < i {
                                j
                            } else {
                                j + 1
                            };
                            assert(was[j2] == x);
                        }
                    }
                    assert(self.linked() =~= was.to_set().remove(peer));
                }
            },
        }
    }

    /// Drops every subscription of an observer.
    fn drop_observer(&mut self, observer: ActorId)
        ensures
            final(self).links == old(self).links,
            final(self).monitors@ == without_observer(old(self).monitors@, observer),
    {
        let ghost all = self.monitors@;
        let ghost pred = not_from(observer);
        let mut kept: Vec<(ActorId, u64)> = Vec::new();
        let mut i: usize = 0;
        proof {
            reveal(Seq::filter);
            assert(all.take(0).filter(pred) =~= Seq::<(ActorId, u64)>::empty());
        }
        while i < self.monitors.len()
            invariant
                *self == *old(self),
                all == self.monitors@,
                pred == not_from(observer),
                i <= all.len(),
                kept@ == all.take(i as int).filter(pred),
            decreases all.len() - i,
        {
            proof {
                crate::distributed::lemma_filter_step(all, pred, i as int);
            }
            let e: (ActorId, u64) = self.monitors[i];
            if e.0 != observer {
                kept.push(e);
            }
            i += 1;
        }
        proof {
            assert(all.take(all.len() as int) =~= all);
        }
        self.monitors = kept;
    }

    /// Takes in one event and answers what to do.
    pub fn on_event(&mut self, event: LoopEvent) -> (step: LoopStep)
        requires
            old(self).wf(),
        ensures
            final(self).wf(),
            event_taken(*old(self), event, step, *final(self)),
    {
        match event {
            LoopEvent::Closed => LoopStep::Exit(ExitReason::Normal),
            LoopEvent::Link(peer) => if self.add_link(peer) {
                LoopStep::LinkBack(peer)
            } else {
                LoopStep::Continue
            },
            LoopEvent::Unlink(peer) => {
                self.drop_link(peer);
                LoopStep::Continue
            },
            LoopEvent::LinkedExit { peer, reason, trap } => match linked_exit_reason(
                peer,
                reason,
                trap,
            ) {
                Some(r) => LoopStep::Exit(r),
                None => LoopStep::Continue,
            },
            LoopEvent::Handled(outcome) => match handle_exit(outcome) {
                Some(r) => LoopStep::Exit(r),
                None => LoopStep::Continue,
            },
            LoopEvent::Monitor { observer, notify } => {
                self.monitors.push((observer, notify));
                LoopStep::Continue
            },
            LoopEvent::Demonitor(observer) => {
                self.drop_observer(observer);
                LoopStep::Continue
            },
            LoopEvent::Upgraded(r) => match r {
                Ok(_) => LoopStep::Continue,
                Err(e) => LoopStep::Exit(ExitReason::Error(e)),
            },
            LoopEvent::Stop => LoopStep::Exit(ExitReason::Shutdown),
            LoopEvent::Kill => LoopStep::Exit(ExitReason::Killed),
        }
    }

    /// Whom to tell of the exit: first the channels of the observers, each
    /// subscription once, and then the linked actors where the exit reaches
    /// them.
    pub fn finish(self, reason: &ExitReason) -> (r: (Vec<u64>, Vec<ActorId>))
        requires
            self.wf(),
        ensures
            exit_told(self, *reason, r),
    {
        let mut notify: Vec<u64> = Vec::new();
        let mut i: usize = 0;
        while i < self.monitors.len()
            invariant
                i <= self.monitors@.len(),
                notify@.len() == i,
                forall|j: int| 0 <= j < i ==> #[trigger] notify@[j] == self.monitors@[j].1,
            decreases self.monitors@.len() - i,
        {
            notify.push(self.monitors[i].1);
            i += 1;
        }
        if should_propagate_linked_exit(reason) {
            (notify, self.links)
        } else {
            let none: Vec<ActorId> = Vec::new();
            assert(none@.to_set() =~= Set::<ActorId>::empty());
            (notify, none)
        }
    }
}

/// One request links both sides and then falls silent: `a` takes in the request
/// and returns it, `b` links back, and whatever `b` returns to `a` in turn is
/// not answered again. Links of third actors stay as they were.
pub proof fn law_links_are_mutual(of_a: Set<ActorId>, of_b: Set<ActorId>, a: ActorId, b: ActorId)
    requires
        !of_a.contains(b),
    ensures
        ({
            let a1 = links_after(of_a, LoopEvent::Link(b));
            let b1 = links_after(of_b, LoopEvent::Link(a));
            &&& link_answer(of_a, b) == LoopStep::LinkBack(b)
            &&& a1.contains(b)
            &&& b1.contains(a)
            &&& link_answer(a1, b) == LoopStep::Continue
            &&& links_after(a1, LoopEvent::Link(b)) == a1
            &&& forall|c: ActorId| c != b ==> (#[trigger] a1.contains(c) <==> of_a.contains(c))
            &&& forall|c: ActorId| c != a ==> (#[trigger] b1.contains(c) <==> of_b.contains(c))
        }),
{
    let a1 = links_after(of_a, LoopEvent::Link(b));
    assert(links_after(a1, LoopEvent::Link(b)) =~= a1);
}

/// A crash travels along links for as long as no actor traps it: the exit that
/// it causes reaches the links of the next actor as well.
pub proof fn law_linked_exits_travel_on(peer: ActorId, reason: ExitReason)
    ensures
        propagates(ExitReason::Linked(peer, Box::new(reason))),
{
}

/// An actor that ends on its own account, because it was asked to stop or its
/// channels closed, leaves its linked actors alone. Every other end reaches all
/// of them, each once: a handle that failed, panicked or ran out of time, a
/// failed upgrade, a kill, and the end of a linked actor that was not trapped.
pub proof fn law_abnormal_ends_reach_every_link(
    actor: ActorLoop,
    event: LoopEvent,
    reason: ExitReason,
    after: ActorLoop,
    told: (Vec<u64>, Vec<ActorId>),
)
    requires
        event_taken(actor, event, LoopStep::Exit(reason), after),
        exit_told(after, reason, told),
    ensures
        told.1@.no_duplicates(),
        match event {
            LoopEvent::Closed | LoopEvent::Stop => forall|peer: ActorId|
                !(#[trigger] told.1@.contains(peer)),
            _ => forall|peer: ActorId| #[trigger]
                told.1@.contains(peer) <==> actor.links@.contains(peer),
        },
        event matches LoopEvent::Handled(outcome) ==> !(outcome is Done),
        event matches LoopEvent::Upgraded(r) ==> r is Err,
        event matches LoopEvent::LinkedExit { peer, reason: cause, trap } ==> !trap && reason
            == ExitReason::Linked(peer, Box::new(cause)),
        event is Closed <==> reason is Normal,
        event is Stop <==> reason is Shutdown,
        event is Kill <==> reason is Killed,
        !(event is Link || event is Unlink || event is Monitor || event is Demonitor),
{
    assert forall|peer: ActorId| #[trigger] told.1@.contains(peer) <==> told.1@.to_set().contains(
        peer,
    ) by {}
    assert forall|peer: ActorId| #[trigger] actor.links@.contains(peer)
        <==> actor.linked().contains(peer) by {}
}

/// Whatever the exit, a reason other than a normal end or a shutdown reaches
/// every linked actor, and those two reach none.
pub proof fn law_only_normal_ends_are_kept_quiet(
    actor: ActorLoop,
    reason: ExitReason,
    told: (Vec<u64>, Vec<ActorId>),
    peer: ActorId,
)
    requires
        exit_told(actor, reason, told),
    ensures
        match reason {
            ExitReason::Normal => !told.1@.contains(peer),
            ExitReason::Shutdown => !told.1@.contains(peer),
            ExitReason::Error(_) => told.1@.contains(peer) <==> actor.links@.contains(peer),
            ExitReason::HandleTimeout { .. } => told.1@.contains(peer) <==> actor.links@.contains(
                peer,
            ),
            ExitReason::Linked(_, _) => told.1@.contains(peer) <==> actor.links@.contains(peer),
            ExitReason::Killed => told.1@.contains(peer) <==> actor.links@.contains(peer),
        },
{
    assert(told.1@.contains(peer) <==> told.1@.to_set().contains(peer));
    assert(actor.links@.contains(peer) <==> actor.linked().contains(peer));
}

/// Every observer is told of every exit, normal or not, once for each time it
/// subscribed and did not withdraw, in the order of the subscriptions.
pub proof fn law_observers_hear_of_every_exit(
    actor: ActorLoop,
    reason: ExitReason,
    told: (Vec<u64>, Vec<ActorId>),
    i: int,
)
    requires
        exit_told(actor, reason, told),
        0 <= i < actor.monitors@.len(),
    ensures
        told.0@.len() == actor.monitors@.len(),
        told.0@[i] == actor.monitors@[i].1,
{
}

/// A handle that succeeds lets the actor go on. One that does not ends it with a
/// reason that says what happened, and that is neither a normal end nor a
/// shutdown.
pub proof fn law_failed_handles_end_the_actor(
    actor: ActorLoop,
    outcome: HandleOutcome,
    step: LoopStep,
    after: ActorLoop,
)
    requires
        event_taken(actor, LoopEvent::Handled(outcome), step, after),
    ensures
        match outcome {
            HandleOutcome::Done => step == LoopStep::Continue,
            HandleOutcome::Failed(e) => step == LoopStep::Exit(ExitReason::Error(e)),
            HandleOutcome::BeginFailed(e) => step == LoopStep::Exit(ExitReason::Error(e)),
            HandleOutcome::Panicked => step matches LoopStep::Exit(ExitReason::Error(e)) && e@
                == "panic in handle"@,
            HandleOutcome::TimedOut { elapsed, limit } => {
                &&& step matches LoopStep::Exit(ExitReason::HandleTimeout { elapsed_ms, limit_ms })
                &&& elapsed.wf() && elapsed.total_nanos() / 1_000_000 <= u64::MAX ==> elapsed_ms
                    == elapsed.total_nanos() / 1_000_000
                &&& limit.wf() && limit.total_nanos() / 1_000_000 <= u64::MAX ==> limit_ms
                    == limit.total_nanos() / 1_000_000
            },
        },
        forall|peer: ActorId| #[trigger]
            after.links@.contains(peer) <==> actor.links@.contains(peer),
        after.monitors@ == actor.monitors@,
{
    assert forall|peer: ActorId| #[trigger] after.links@.contains(peer)
        <==> actor.links@.contains(peer) by {
        assert(after.links@.contains(peer) <==> after.linked().contains(peer));
        assert(actor.links@.contains(peer) <==> actor.linked().contains(peer));
    }
}

/// A trapping actor outlives its linked actors; one that does not trap dies with
/// them, for a reason that names the actor and its end.
pub proof fn law_trapping_decides_over_linked_ends(
    actor: ActorLoop,
    peer: ActorId,
    reason: ExitReason,
    trap: bool,
    step: LoopStep,
    after: ActorLoop,
)
    requires
        event_taken(actor, LoopEvent::LinkedExit { peer, reason, trap }, step, after),
    ensures
        trap ==> step == LoopStep::Continue,
        !trap ==> step == LoopStep::Exit(ExitReason::Linked(peer, Box::new(reason))),
{
}

/// Whether a history is one of a running actor: each event was taken in the
/// state that the one before it left.
pub open spec fn is_history(
    states: Seq<ActorLoop>,
    events: Seq<LoopEvent>,
    steps: Seq<LoopStep>,
) -> bool {
    &&& states.len() == events.len() + 1
    &&& steps.len() == events.len()
    &&& forall|i: int|
        0 <= i < events.len() ==> event_taken(
            #[trigger] states[i],
            events[i],
            steps[i],
            states[i + 1],
        )
}

/// An actor is linked exactly if it linked up and did not unlink since; nothing
/// else changes the links.
pub proof fn law_linked_until_unlinked(
    states: Seq<ActorLoop>,
    events: Seq<LoopEvent>,
    steps: Seq<LoopStep>,
    peer: ActorId,
)
    requires
        is_history(states, events, steps),
        states[0].links@.len() == 0,
    ensures
        states.last().links@.contains(peer) <==> exists|i: int|
            0 <= i < events.len() && #[trigger] events[i] == LoopEvent::Link(peer) && forall|j: int|
                i < j < events.len() ==> #[trigger] events[j] != LoopEvent::Unlink(peer),
    decreases events.len(),
{
    let n = events.len() as int;
    if n > 0 {
        let s2 = states.drop_last();
        let e2 = events.drop_last();
        let t2 = steps.drop_last();
        assert forall|i: int| 0 <= i < e2.len() implies event_taken(
            #[trigger] s2[i],
            e2[i],
            t2[i],
            s2[i + 1],
        ) by {
            assert(event_taken(states[i], events[i], steps[i], states[i + 1]));
        }
        law_linked_until_unlinked(s2, e2, t2, peer);
        assert(event_taken(states[n - 1], events[n - 1], steps[n - 1], states[n - 1 + 1]));
        let before = s2.last();
        let after = states.last();
        assert(before.links@.contains(peer) <==> before.linked().contains(peer));
        assert(after.links@.contains(peer) <==> after.linked().contains(peer));
        if after.links@.contains(peer) {
            if events[n - 1] == LoopEvent::Link(peer) {
                assert(forall|j: int| n - 1 < j < n ==> events[j] != LoopEvent::Unlink(peer));
            } else {
                assert(before.links@.contains(peer));
                let i = choose|i: int|
                    0 <= i < e2.len() && #[trigger] e2[i] == LoopEvent::Link(peer) && forall|
                        j: int,
                    |
                        i < j < e2.len() ==> #[trigger] e2[j] != LoopEvent::Unlink(peer);
                assert(events[i] == LoopEvent::Link(peer));
                assert forall|j: int| i < j < n implies #[trigger] events[j] != LoopEvent::Unlink(
                    peer,
                ) by {
                    if j < n - 1 {
                        assert(e2[j] == events[j]);
                    }
                }
            }
        }
        if exists|i: int|
            0 <= i < events.len() && #[trigger] events[i] == LoopEvent::Link(peer) && forall|j: int|
                i < j < events.len() ==> #[trigger] events[j] != LoopEvent::Unlink(peer) {
            let i = choose|i: int|
                0 <= i < events.len() && #[trigger] events[i] == LoopEvent::Link(peer) && forall|
                    j: int,
                |
                    i < j < events.len() ==> #[trigger] events[j] != LoopEvent::Unlink(peer);
            if i < n - 1 {
                assert(e2[i] == LoopEvent::Link(peer));
                assert forall|j: int| i < j < e2.len() implies #[trigger] e2[j]
                    != LoopEvent::Unlink(peer) by {
                    assert(events[j] != LoopEvent::Unlink(peer));
                }
                assert(before.links@.contains(peer));
                assert(events[n - 1] != LoopEvent::Unlink(peer));
            }
        }
    }
}

/// A subscription stands exactly until its observer withdraws: it is listed as
/// soon as it is made, withdrawing takes every subscription of the observer and
/// no other, and nothing else changes the subscriptions.
pub proof fn law_subscribed_until_withdrawn(
    actor: ActorLoop,
    event: LoopEvent,
    step: LoopStep,
    after: ActorLoop,
    observer: ActorId,
    notify: u64,
)
    requires
        event_taken(actor, event, step, after),
    ensures
        match event {
            LoopEvent::Monitor { observer: o, notify: n } => {
                &&& after.monitors@.len() == actor.monitors@.len() + 1
                &&& after.monitors@.last() == (o, n)
                &&& forall|i: int|
                    0 <= i < actor.monitors@.len() ==> #[trigger] after.monitors@[i]
                        == actor.monitors@[i]
            },
            LoopEvent::Demonitor(o) => after.monitors@.contains((observer, notify)) <==> (
            actor.monitors@.contains((observer, notify)) && observer != o),
            _ => after.monitors@ == actor.monitors@,
        },
        event is Monitor || event is Demonitor ==> step == LoopStep::Continue,
{
    if let LoopEvent::Demonitor(o) = event {
        lemma_kept_by_filter(actor.monitors@, not_from(o), (observer, notify));
    }
}

/// What a filter keeps was there and passes, and what was there and passes is
/// kept.
proof fn lemma_kept_by_filter(
    s: Seq<(ActorId, u64)>,
    p: spec_fn((ActorId, u64)) -> bool,
    x: (ActorId, u64),
)
    ensures
        s.filter(p).contains(x) <==> s.contains(x) && p(x),
    decreases s.len(),
{
    reveal(Seq::filter);
    if s.len() > 0 {
        let d = s.drop_last();
        let f = d.filter(p);
        let all = s.filter(p);
        lemma_kept_by_filter(d, p, x);
        if all.contains(x) {
            let k = all.index_of(x);
            if k < f.len() {
                assert(f[k] == x);
                assert(d.contains(x));
                assert(s[d.index_of(x)] == x);
            } else {
                assert(s[s.len() - 1] == x);
            }
        }
        if s.contains(x) && p(x) {
            let k = s.index_of(x);
            if k < d.len() {
                assert(d[k] == x);
                assert(f.contains(x));
                assert(all[f.index_of(x)] == x);
            } else {
                assert(all[all.len() - 1] == x);
            }
        }
    }
}

/// Every outcome of a handle is counted once: a success as a message handled, a
/// failure as an error, a panic as a panic, a time-out as a time-out. No other
/// of these counters moves.
pub proof fn law_outcomes_are_counted_apart(
    s: ActorStats,
    outcome: HandleOutcome,
    elapsed: Duration,
    slow_threshold: Option<Duration>,
)
    requires
        s.messages_handled < u64::MAX,
        s.handle_errors < u64::MAX,
        s.panics < u64::MAX,
        s.handle_timeouts < u64::MAX,
    ensures
        ({
            let t = outcome_counted(s, outcome, elapsed, slow_threshold);
            &&& t.actor_id == s.actor_id
            &&& t.messages_handled - s.messages_handled == (if outcome is Done {
                1int
            } else {
                0
            })
            &&& t.handle_errors - s.handle_errors == (if outcome is Failed || outcome is BeginFailed {
                1int
            } else {
                0
            })
            &&& t.panics - s.panics == (if outcome is Panicked {
                1int
            } else {
                0
            })
            &&& t.handle_timeouts - s.handle_timeouts == (if outcome is TimedOut {
                1int
            } else {
                0
            })
            &&& s.in_flight > 0 ==> t.in_flight == s.in_flight - 1
            &&& t.max_handle_ms >= s.max_handle_ms
            &&& outcome is Done ==> t.max_handle_ms >= t.last_handle_ms
            &&& !(outcome is Done) ==> t.total_handle_ms == s.total_handle_ms && t.slow_handles
                == s.slow_handles
        }),
{
}

} // verus!
