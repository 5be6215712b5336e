//! Per-actor runtime counters.

use crate::actor::ActorId;
use crate::collections::IdMap;
use crate::time::Duration;
use vstd::prelude::*;

verus! {

/// One actor's runtime counters. Counters wrap around.
#[derive(Debug, Clone, Copy, PartialEq, Eq, Structural)]
pub struct ActorStats {
    pub actor_id: ActorId,
    pub messages_handled: u64,
    pub handle_errors: u64,
    pub panics: u64,
    pub handle_timeouts: u64,
    pub in_flight: u64,
    pub last_handle_ms: u64,
    pub max_handle_ms: u64,
    /// Sum of all successful handle durations.
    pub total_handle_ms: u64,
    pub slow_handles: u64,
}

/// Counters of an actor that has done nothing.
pub open spec fn fresh_stats(id: u64) -> ActorStats {
    ActorStats {
        actor_id: ActorId(id),
        messages_handled: 0,
        handle_errors: 0,
        panics: 0,
        handle_timeouts: 0,
        in_flight: 0,
        last_handle_ms: 0,
        max_handle_ms: 0,
        total_handle_ms: 0,
        slow_handles: 0,
    }
}

/// One less, but never below zero.
pub open spec fn one_less(n: u64) -> u64 {
    if n > 0 {
        (n - 1) as u64
    } else {
        0
    }
}

/// Milliseconds, clamped to the range of `u64`.
pub open spec fn clamped_ms(d: Duration) -> u64 {
    if d.total_millis() <= u64::MAX {
        d.total_millis() as u64
    } else {
        u64::MAX
    }
}

/// Whether `d` is longer than `limit`.
pub open spec fn longer(d: Duration, limit: Duration) -> bool {
    d.secs > limit.secs || (d.secs == limit.secs && d.nanos > limit.nanos)
}

/// A handle has begun.
pub open spec fn begun(s: ActorStats) -> ActorStats {
    ActorStats { in_flight: s.in_flight.wrapping_add(1), ..s }
}

/// A handle has succeeded after `elapsed`.
pub open spec fn finished(
    s: ActorStats,
    elapsed: Duration,
    slow_threshold: Option<Duration>,
) -> ActorStats {
    let ms = clamped_ms(elapsed);
    ActorStats {
        in_flight: one_less(s.in_flight),
        messages_handled: s.messages_handled.wrapping_add(1),
        last_handle_ms: ms,
        total_handle_ms: s.total_handle_ms.wrapping_add(ms),
        max_handle_ms: if ms > s.max_handle_ms {
            ms
        } else {
            s.max_handle_ms
        },
        slow_handles: match slow_threshold {
            Some(t) => if longer(elapsed, t) {
                s.slow_handles.wrapping_add(1)
            } else {
                s.slow_handles
            },
            None => s.slow_handles,
        },
        ..s
    }
}

/// A handle has failed.
pub open spec fn errored(s: ActorStats) -> ActorStats {
    ActorStats {
        handle_errors: s.handle_errors.wrapping_add(1),
        in_flight: one_less(s.in_flight),
        ..s
    }
}

/// A handle has panicked.
pub open spec fn panicked(s: ActorStats) -> ActorStats {
    ActorStats { panics: s.panics.wrapping_add(1), in_flight: one_less(s.in_flight), ..s }
}

/// A handle has run out of time after `elapsed`.
pub open spec fn timed_out(s: ActorStats, elapsed: Duration) -> ActorStats {
    ActorStats {
        handle_timeouts: s.handle_timeouts.wrapping_add(1),
        in_flight: one_less(s.in_flight),
        last_handle_ms: clamped_ms(elapsed),
        ..s
    }
}

/// Counters of every registered actor, and the last counters of those that
/// stopped.
pub struct ActorMonitor {
    pub cells: IdMap<ActorStats>,
    pub post_mortem: IdMap<ActorStats>,
}

impl ActorMonitor {
    /// Counters are stored under the id they carry, and no actor has both live
    /// counters and kept ones.
    pub open spec fn wf(&self) -> bool {
        &&& forall|k: u64|
            !((#[trigger] self.cells@.contains_key(k)) && self.post_mortem@.contains_key(k))
        &&& self.cells.wf()
        &&& self.post_mortem.wf()
        &&& forall|k: u64|
            self.cells@.contains_key(k) ==> (#[trigger] self.cells@[k]).actor_id == ActorId(k)
        &&& forall|k: u64|
            self.post_mortem@.contains_key(k) ==> (#[trigger] self.post_mortem@[k]).actor_id
                == ActorId(k)
    }

    /// The counters of a running or recently stopped actor.
    pub open spec fn stats_of(&self, id: ActorId) -> Option<ActorStats> {
        if self.cells@.contains_key(id.0) {
            Some(self.cells@[id.0])
        } else if self.post_mortem@.contains_key(id.0) {
            Some(self.post_mortem@[id.0])
        } else {
            None
        }
    }

    /// Whether a sequence holds the counters of every running actor, ascending
    /// by id, and nothing else.
    pub open spec fn lists(&self, all: Seq<ActorStats>) -> bool {
        &&& all.len() == self.cells@.dom().len()
        &&& forall|i: int|
            0 <= i < all.len() ==> self.cells@.contains_key((#[trigger] all[i]).actor_id.0)
                && all[i] == self.cells@[all[i].actor_id.0]
        &&& forall|i: int, j: int|
            0 <= i < j < all.len() ==> (#[trigger] all[i]).actor_id.0 < (
            #[trigger] all[j]).actor_id.0
    }

    /// Nothing is monitored.
    pub fn new() -> (m: Self)
        ensures
            m.wf(),
            m.cells@ == Map::<u64, ActorStats>::empty(),
            m.post_mortem@ == Map::<u64, ActorStats>::empty(),
    {
        ActorMonitor { cells: IdMap::new(), post_mortem: IdMap::new() }
    }

    /// Starts counting for an actor; one that is counted already keeps its
    /// counters.
    pub fn register(&mut self, id: ActorId)
        requires
            old(self).wf(),
        ensures
            final(self).wf(),
            enrolled(*old(self), id, *final(self)),
    {
        let _ = self.post_mortem.remove(id.0);
        if !self.cells.contains_key(id.0) {
            let _ = self.cells.insert(
                id.0,
                ActorStats {
                    actor_id: id,
                    messages_handled: 0,
                    handle_errors: 0,
                    panics: 0,
                    handle_timeouts: 0,
                    in_flight: 0,
                    last_handle_ms: 0,
                    max_handle_ms: 0,
                    total_handle_ms: 0,
                    slow_handles: 0,
                },
            );
        }
    }

    /// Stops counting for an actor and keeps its last counters, with nothing
    /// in flight.
    pub fn unregister(&mut self, id: ActorId)
        requires
            old(self).wf(),
        ensures
            final(self).wf(),
            retired(*old(self), id, *final(self)),
    {
        match self.cells.remove(id.0) {
            Some(cell) => {
                let mut snapshot = cell;
                snapshot.in_flight = 0;
                let _ = self.post_mortem.insert(id.0, snapshot);
            },
            None => {},
        }
    }

    /// Takes an actor's last counters, kept or live; nothing is left of the
    /// actor, and every other actor is as before.
    pub fn snapshot_and_unregister(&mut self, id: ActorId) -> (r: Option<ActorStats>)
        requires
            old(self).wf(),
        ensures
            final(self).wf(),
            r == old(self).stats_of(id),
            final(self).post_mortem@ == old(self).post_mortem@.remove(id.0),
            final(self).cells@ == old(self).cells@.remove(id.0),
            final(self).stats_of(id) is None,
            forall|other: ActorId|
                other != id ==> #[trigger] final(self).stats_of(other) == old(self).stats_of(
                    other,
                ),
    {
        match self.post_mortem.remove(id.0) {
            Some(s) => Some(s),
            None => self.cells.remove(id.0),
        }
    }

    /// Drops an actor's kept counters.
    pub fn purge(&mut self, id: ActorId)
        requires
            old(self).wf(),
        ensures
            final(self).wf(),
            purged_of(*old(self), id, *final(self)),
    {
        let _ = self.post_mortem.remove(id.0);
    }

    /// The counters of a running or recently stopped actor.
    pub fn get(&self, id: ActorId) -> (r: Option<ActorStats>)
        requires
            self.wf(),
        ensures
            r == self.stats_of(id),
    {
        match self.cells.get(id.0) {
            Some(s) => Some(*s),
            None => match self.post_mortem.get(id.0) {
                Some(s) => Some(*s),
                None => None,
            },
        }
    }

    /// The counters of the running actors, ascending by id.
    pub fn all(&self) -> (r: Vec<ActorStats>)
        requires
            self.wf(),
        ensures
            self.lists(r@),
    {
        let mut out: Vec<ActorStats> = Vec::new();
        let mut i: usize = 0;
        proof {
            self.cells.lemma_len();
        }
        while i < self.cells.entries.len()
            invariant
                self.wf(),
                i <= self.cells.entries@.len(),
                out@.len() == i,
                forall|j: int|
                    0 <= j < i ==> (#[trigger] out@[j]) == self.cells.entries@[j].1
                        && out@[j].actor_id.0 == self.cells.entries@[j].0,
            decreases self.cells.entries@.len() - i,
        {
            proof {
                self.cells.lemma_entry(i as int);
                assert(self.cells@[self.cells.entries@[i as int].0].actor_id == ActorId(
                    self.cells.entries@[i as int].0,
                ));
            }
            out.push(self.cells.entries[i].1);
            i += 1;
        }
        proof {
            assert forall|j: int| 0 <= j < out@.len() implies self.cells@.contains_key(
                (#[trigger] out@[j]).actor_id.0,
            ) && out@[j] == self.cells@[out@[j].actor_id.0] by {
                self.cells.lemma_entry(j);
            }
            assert forall|a: int, b: int| 0 <= a < b < out@.len() implies (
            #[trigger] out@[a]).actor_id.0 < (#[trigger] out@[b]).actor_id.0 by {
                assert(self.cells.entries@[a].0 < self.cells.entries@[b].0);
            }
        }
        out
    }

    /// Counts the start of a handle.
    pub fn begin_handle(&mut self, id: ActorId)
        requires
            old(self).wf(),
        ensures
            final(self).wf(),
            final(self).post_mortem == old(self).post_mortem,
            final(self).cells@ == (if old(self).cells@.contains_key(id.0) {
                old(self).cells@.insert(id.0, begun(old(self).cells@[id.0]))
            } else {
                old(self).cells@
            }),
    {
        match self.cells.get_mut(id.0) {
            Some(c) => {
                c.in_flight = c.in_flight.wrapping_add(1);
            },
            None => {},
        }
    }

    /// Counts a successful handle.
    pub fn finish_handle(
        &mut self,
        id: ActorId,
        elapsed: Duration,
        slow_threshold: Option<Duration>,
    )
        requires
            old(self).wf(),
        ensures
            final(self).wf(),
            final(self).post_mortem == old(self).post_mortem,
            final(self).cells@ == (if old(self).cells@.contains_key(id.0) {
                old(self).cells@.insert(
                    id.0,
                    finished(old(self).cells@[id.0], elapsed, slow_threshold),
                )
            } else {
                old(self).cells@
            }),
    {
        let ms: u64 = elapsed.millis_clamped();
        let slow: bool = match slow_threshold {
            Some(t) => elapsed.secs > t.secs || (elapsed.secs == t.secs && elapsed.nanos
                > t.nanos),
            None => false,
        };
        match self.cells.get_mut(id.0) {
            Some(c) => {
                c.in_flight = c.in_flight.saturating_sub(1);
                c.messages_handled = c.messages_handled.wrapping_add(1);
                c.last_handle_ms = ms;
                c.total_handle_ms = c.total_handle_ms.wrapping_add(ms);
                if ms > c.max_handle_ms {
                    c.max_handle_ms = ms;
                }
                if slow {
                    c.slow_handles = c.slow_handles.wrapping_add(1);
                }
            },
            None => {},
        }
    }

    /// Counts a failed handle.
    pub fn record_error(&mut self, id: ActorId)
        requires
            old(self).wf(),
        ensures
            final(self).wf(),
            final(self).post_mortem == old(self).post_mortem,
            final(self).cells@ == (if old(self).cells@.contains_key(id.0) {
                old(self).cells@.insert(id.0, errored(old(self).cells@[id.0]))
            } else {
                old(self).cells@
            }),
    {
        match self.cells.get_mut(id.0) {
            Some(c) => {
                c.handle_errors = c.handle_errors.wrapping_add(1);
                c.in_flight = c.in_flight.saturating_sub(1);
            },
            None => {},
        }
    }

    /// Counts a panicking handle.
    pub fn record_panic(&mut self, id: ActorId)
        requires
            old(self).wf(),
        ensures
            final(self).wf(),
            final(self).post_mortem == old(self).post_mortem,
            final(self).cells@ == (if old(self).cells@.contains_key(id.0) {
                old(self).cells@.insert(id.0, panicked(old(self).cells@[id.0]))
            } else {
                old(self).cells@
            }),
    {
        match self.cells.get_mut(id.0) {
            Some(c) => {
                c.panics = c.panics.wrapping_add(1);
                c.in_flight = c.in_flight.saturating_sub(1);
            },
            None => {},
        }
    }

    /// Counts a handle that ran out of time.
    pub fn record_timeout(&mut self, id: ActorId, elapsed: Duration)
        requires
            old(self).wf(),
        ensures
            final(self).wf(),
            final(self).post_mortem == old(self).post_mortem,
            final(self).cells@ == (if old(self).cells@.contains_key(id.0) {
                old(self).cells@.insert(id.0, timed_out(old(self).cells@[id.0], elapsed))
            } else {
                old(self).cells@
            }),
    {
        let ms: u64 = elapsed.millis_clamped();
        match self.cells.get_mut(id.0) {
            Some(c) => {
                c.handle_timeouts = c.handle_timeouts.wrapping_add(1);
                c.in_flight = c.in_flight.saturating_sub(1);
                c.last_handle_ms = ms;
            },
            None => {},
        }
    }
}

impl Default for ActorMonitor {
    fn default() -> (m: Self)
        ensures
            m.wf(),
            m.cells@ == Map::<u64, ActorStats>::empty(),
            m.post_mortem@ == Map::<u64, ActorStats>::empty(),
    {
        Self::new()
    }
}

/// An actor whose counters were taken is gone: it is not listed any more, and
/// no second taking finds it, whatever was listed or kept of it before.
pub proof fn law_taken_counters_are_gone(
    before: ActorMonitor,
    after: ActorMonitor,
    id: ActorId,
    all: Seq<ActorStats>,
)
    requires
        before.wf(),
        after.wf(),
        after.cells@ == before.cells@.remove(id.0),
        after.post_mortem@ == before.post_mortem@.remove(id.0),
        after.lists(all),
    ensures
        after.stats_of(id) is None,
        forall|i: int| 0 <= i < all.len() ==> (#[trigger] all[i]).actor_id != id,
        forall|other: ActorId|
            other != id ==> #[trigger] after.stats_of(other) == before.stats_of(other),
{
}

/// Every handle that began and ended, however it ended, leaves the number in
/// flight as it was, short of the wrap-around of the counter.
pub proof fn law_handles_balance(
    s: ActorStats,
    elapsed: Duration,
    slow_threshold: Option<Duration>,
)
    requires
        s.in_flight < u64::MAX,
    ensures
        finished(begun(s), elapsed, slow_threshold).in_flight == s.in_flight,
        errored(begun(s)).in_flight == s.in_flight,
        panicked(begun(s)).in_flight == s.in_flight,
        timed_out(begun(s), elapsed).in_flight == s.in_flight,
{
}

/// An actor was enrolled: its counters start at zero unless they run already.
pub open spec fn enrolled(before: ActorMonitor, id: ActorId, after: ActorMonitor) -> bool {
    &&& after.post_mortem@ == before.post_mortem@.remove(id.0)
    &&& after.cells@ == (if before.cells@.contains_key(id.0) {
        before.cells@
    } else {
        before.cells@.insert(id.0, fresh_stats(id.0))
    })
}

/// An actor was retired: its counters are kept, and no longer run.
pub open spec fn retired(before: ActorMonitor, id: ActorId, after: ActorMonitor) -> bool {
    &&& after.cells@ == before.cells@.remove(id.0)
    &&& after.post_mortem@ == (if before.cells@.contains_key(id.0) {
        before.post_mortem@.insert(
            id.0,
            (ActorStats { in_flight: 0, ..before.cells@[id.0] }),
        )
    } else {
        before.post_mortem@
    })
}

/// What was kept of a retired actor is dropped.
pub open spec fn purged_of(before: ActorMonitor, id: ActorId, after: ActorMonitor) -> bool {
    &&& after.cells == before.cells
    &&& after.post_mortem@ == before.post_mortem@.remove(id.0)
}

/// Counters outlive their actor until they are purged: an enrolled actor has
/// some, starting at zero; once it is retired they can still be read, as they
/// were but with nothing under way; after the purge they cannot. No other actor's counters are touched.
pub proof fn law_counters_outlive_the_actor(
    before: ActorMonitor,
    id: ActorId,
    running: ActorMonitor,
    stopped: ActorMonitor,
    after: ActorMonitor,
    other: ActorId,
)
    requires
        before.wf(),
        enrolled(before, id, running),
        running.wf(),
        retired(running, id, stopped),
        purged_of(stopped, id, after),
        other != id,
    ensures
        running.stats_of(id) is Some,
        !before.cells@.contains_key(id.0) ==> {
            let s = running.stats_of(id)->0;
            &&& s.actor_id == id
            &&& s.messages_handled == 0
            &&& s.handle_errors == 0
            &&& s.panics == 0
            &&& s.handle_timeouts == 0
            &&& s.in_flight == 0
            &&& s.last_handle_ms == 0
            &&& s.max_handle_ms == 0
            &&& s.total_handle_ms == 0
            &&& s.slow_handles == 0
        },
        before.cells@.contains_key(id.0) ==> running.stats_of(id) == before.stats_of(id),
        !stopped.cells@.contains_key(id.0),
        stopped.stats_of(id) == Some(ActorStats { in_flight: 0, ..running.stats_of(id)->0 }),
        after.stats_of(id) is None,
        running.stats_of(other) == before.stats_of(other),
        stopped.stats_of(other) == before.stats_of(other),
        after.stats_of(other) == before.stats_of(other),
{
    assert(other.0 != id.0);
}

/// A handled message counts once, with the time that it took: the last time is
/// that one, the longest one is at least that and at least what it was, and the
/// sum grows by it. It counts as slow where there is a limit that it took longer
/// than, and only there. Errors, panics and timeouts are not touched.
pub proof fn law_handled_messages_are_timed(
    s: ActorStats,
    elapsed: Duration,
    slow_threshold: Option<Duration>,
)
    requires
        s.messages_handled < u64::MAX,
        s.slow_handles < u64::MAX,
        s.total_handle_ms + elapsed.total_millis() <= u64::MAX,
        elapsed.wf(),
        slow_threshold matches Some(t) ==> t.wf(),
    ensures
        ({
            let f = finished(s, elapsed, slow_threshold);
            let ms = elapsed.secs * 1000 + elapsed.nanos / 1_000_000;
            let slow = slow_threshold is Some && elapsed.secs * 1_000_000_000 + elapsed.nanos
                > slow_threshold->0.secs * 1_000_000_000 + slow_threshold->0.nanos;
            &&& f.messages_handled == s.messages_handled + 1
            &&& f.last_handle_ms == ms
            &&& f.total_handle_ms == s.total_handle_ms + ms
            &&& f.max_handle_ms >= ms
            &&& f.max_handle_ms >= s.max_handle_ms
            &&& f.max_handle_ms == ms || f.max_handle_ms == s.max_handle_ms
            &&& f.slow_handles == s.slow_handles + (if slow {
                1int
            } else {
                0
            })
            &&& f.handle_errors == s.handle_errors
            &&& f.panics == s.panics
            &&& f.handle_timeouts == s.handle_timeouts
            &&& f.actor_id == s.actor_id
        }),
{
}

} // verus!
