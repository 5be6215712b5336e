//! Limits of a gateway: connections per source address, and the price of
//! failed logins.
//!
//! Moments are nanoseconds of a clock that never runs backwards.

use crate::collections::StrMap;
use crate::time::Duration;
use vstd::arithmetic::power2::pow2;
use vstd::prelude::*;

verus! {

/// Length of the window over which connections are counted: one minute.
pub const WINDOW_NANOS: u64 = 60_000_000_000;

/// Above this many known addresses, those without a recent connection are
/// dropped.
pub const MAX_KNOWN_ADDRESSES: usize = 10_000;

/// Whether a moment is less than a window ago.
pub open spec fn in_window(t: u64, now: u64) -> bool {
    t + WINDOW_NANOS > now
}

/// Those of some moments that are less than a window ago.
pub open spec fn recent(times: Seq<u64>, now: u64) -> Seq<u64> {
    times.filter(|t: u64| in_window(t, now))
}

/// Whether all of some moments are a window ago or more.
pub open spec fn is_over(times: Vec<u64>, now: u64) -> bool {
    recent(times@, now).len() == 0
}

/// Whether one more connection is within the limit, after those that were let in
/// at these moments.
pub open spec fn allowed(times: Seq<u64>, limit: u32, now: u64) -> bool {
    limit == 0 || recent(times, now).len() < limit
}

/// The moments to remember after one more connection.
pub open spec fn remembered(times: Seq<u64>, limit: u32, now: u64) -> Seq<u64> {
    if allowed(times, limit, now) {
        recent(times, now).push(now)
    } else {
        recent(times, now)
    }
}

/// The moments that are remembered of an address.
pub open spec fn times_at(m: Map<Seq<char>, Vec<u64>>, ip: Seq<char>) -> Seq<u64> {
    if m.contains_key(ip) {
        m[ip]@
    } else {
        Seq::empty()
    }
}

/// Those of some moments that are less than a window ago.
fn keep_recent(times: &Vec<u64>, now: u64) -> (r: Vec<u64>)
    ensures
        r@ == recent(times@, now),
{
    let mut r: Vec<u64> = Vec::new();
    let mut i: usize = 0;
    proof {
        reveal(Seq::filter);
        assert(times@.take(0) =~= Seq::<u64>::empty());
    }
    while i < times.len()
        invariant
            i <= times@.len(),
            r@ == recent(times@.take(i as int), now),
        decreases times@.len() - i,
    {
        proof {
            reveal(Seq::filter);
            assert(times@.take(i as int + 1).drop_last() =~= times@.take(i as int));
        }
        let t: u64 = times[i];
        if t > now || now - t < WINDOW_NANOS {
            r.push(t);
        }
        i += 1;
    }
    assert(times@.take(i as int) =~= times@);
    r
}

/// Whether all of some moments are a window ago or more.
fn over(times: &Vec<u64>, now: u64) -> (r: bool)
    ensures
        r == is_over(*times, now),
{
    keep_recent(times, now).len() == 0
}

/// Connections per source address that were let in: their moments.
pub struct ConnLimiter {
    pub windows: StrMap<Vec<u64>>,
}

impl ConnLimiter {
    /// No connection yet.
    pub fn new() -> (l: Self)
        ensures
            l.windows.wf(),
            l.windows@ == Map::<Seq<char>, Vec<u64>>::empty(),
    {
        ConnLimiter { windows: StrMap::new() }
    }

    /// The addresses that are remembered after old ones were dropped.
    pub open spec fn purged(m: Map<Seq<char>, Vec<u64>>, now: u64) -> Map<Seq<char>, Vec<u64>> {
        Map::new(|k: Seq<char>| m.contains_key(k) && !is_over(m[k], now), |k: Seq<char>| m[k])
    }

    /// Drops the addresses without a recent connection.
    fn purge(&mut self, now: u64)
        requires
            old(self).windows.wf(),
        ensures
            final(self).windows.wf(),
            final(self).windows@ == Self::purged(old(self).windows@, now),
    {
        let ghost was = self.windows@;
        let mut stale: Vec<String> = Vec::new();
        let mut i: usize = 0;
        while i < self.windows.entries.len()
            invariant
                *self == *old(self),
                was == self.windows@,
                self.windows.wf(),
                i <= self.windows.entries@.len(),
                forall|j: int|
                    0 <= j < stale@.len() ==> was.contains_key((#[trigger] stale@[j])@) && is_over(
                        was[stale@[j]@],
                        now,
                    ),
                forall|j: int|
                    0 <= j < i && is_over((#[trigger] self.windows.entries@[j]).1, now)
                        ==> exists|k: int|
                        0 <= k < stale@.len() && (#[trigger] stale@[k])@
                            == self.windows.entries@[j].0@,
            decreases self.windows.entries@.len() - i,
        {
            let ghost before = stale@;
            proof {
                self.windows.lemma_entry(i as int);
            }
            if over(&self.windows.entries[i].1, now) {
                stale.push(self.windows.entries[i].0.clone());
                assert(stale@[before.len() as int]@ == self.windows.entries@[i as int].0@);
            }
            proof {
                assert forall|j: int|
                    0 <= j < i + 1 && is_over(
                        (#[trigger] self.windows.entries@[j]).1,
                        now,
                    ) implies exists|k: int|
                    0 <= k < stale@.len() && (#[trigger] stale@[k])@
                        == self.windows.entries@[j].0@ by {
                    if j < i {
                        let k = choose|k: int|
                            0 <= k < before.len() && (#[trigger] before[k])@
                                == self.windows.entries@[j].0@;
                        assert(stale@[k] == before[k]);
                    }
                }
            }
            i += 1;
        }
        proof {
            assert forall|k: Seq<char>|
                #[trigger] was.contains_key(k) && is_over(was[k], now) implies exists|j: int|
                0 <= j < stale@.len() && (#[trigger] stale@[j])@ == k by {
                self.windows.lemma_key_has_entry(k);
                let e = choose|e: int|
                    0 <= e < self.windows.entries@.len() && #[trigger] self.windows.entries@[e].0@
                        == k && self.windows.entries@[e].1 == was[k];
                assert(is_over(self.windows.entries@[e].1, now));
            }
        }
        let mut d: usize = 0;
        while d < stale.len()
            invariant
                self.windows.wf(),
                d <= stale@.len(),
                forall|j: int|
                    0 <= j < stale@.len() ==> was.contains_key((#[trigger] stale@[j])@) && is_over(
                        was[stale@[j]@],
                        now,
                    ),
                forall|k: Seq<char>| #[trigger]
                    self.windows@.contains_key(k) ==> was.contains_key(k) && self.windows@[k]
                        == was[k],
                forall|k: Seq<char>| #[trigger]
                    was.contains_key(k) && !is_over(was[k], now) ==> self.windows@.contains_key(k),
                forall|j: int|
                    0 <= j < d ==> !self.windows@.contains_key((#[trigger] stale@[j])@),
            decreases stale@.len() - d,
        {
            let ghost before = self.windows@;
            let _ = self.windows.remove(stale[d].as_str());
            assert forall|k: Seq<char>| #[trigger] self.windows@.contains_key(k) implies before[k]
                == self.windows@[k] && before.contains_key(k) by {}
            d += 1;
        }
        proof {
            let p = Self::purged(was, now);
            assert forall|k: Seq<char>| #[trigger] self.windows@.contains_key(
                k,
            ) <==> p.contains_key(k) by {
                if was.contains_key(k) && is_over(was[k], now) {
                    let j = choose|j: int| 0 <= j < stale@.len() && (#[trigger] stale@[j])@ == k;
                    assert(!self.windows@.contains_key(stale@[j]@));
                }
            }
            assert(self.windows@ =~= p);
        }
    }

    /// Says whether a connection of `ip` is within the address's budget for the
    /// last minute, and remembers it if it is. Without a limit nothing is
    /// remembered.
    pub fn admit_connection(&mut self, ip: &str, limit: u32, now: u64) -> (r: bool)
        requires
            old(self).windows.wf(),
        ensures
            final(self).windows.wf(),
            judged(old(self).windows@, ip@, limit, now, final(self).windows@, r),
    {
        if limit == 0 {
            return true;
        }
        let ghost was = self.windows@;
        if self.windows.len() > MAX_KNOWN_ADDRESSES {
            self.purge(now);
        }
        let ghost kept = self.windows@;
        let mut times: Vec<u64> = match self.windows.get(ip) {
            None => Vec::new(),
            Some(w) => keep_recent(w, now),
        };
        proof {
            reveal(Seq::filter);
            if !kept.contains_key(ip@) {
                assert(times@ =~= Seq::<u64>::empty());
                if was.contains_key(ip@) {
                    assert(recent(was[ip@]@, now) =~= times@);
                } else {
                    assert(recent(Seq::<u64>::empty(), now) =~= times@);
                }
            }
            assert(times@ == recent(times_at(was, ip@), now));
        }
        let r: bool = (times.len() as u64) < limit as u64;
        if r {
            times.push(now);
        }
        let _ = self.windows.insert(ip.to_string(), times);
        proof {
            assert forall|k: Seq<char>| k != ip@ implies #[trigger] times_at(self.windows@, k)
                == times_at(kept, k) by {}
        }
        r
    }
}

/// What is remembered of an address after connections at these moments.
pub open spec fn remembered_after(times: Seq<u64>, limit: u32) -> Seq<u64>
    decreases times.len(),
{
    if times.len() == 0 {
        Seq::empty()
    } else {
        remembered(remembered_after(times.drop_last(), limit), limit, times.last())
    }
}

/// The moments at which a connection was let in, of connections at these
/// moments.
pub open spec fn let_in(times: Seq<u64>, limit: u32) -> Seq<u64>
    decreases times.len(),
{
    if times.len() == 0 {
        Seq::empty()
    } else {
        let before = times.drop_last();
        if allowed(remembered_after(before, limit), limit, times.last()) {
            let_in(before, limit).push(times.last())
        } else {
            let_in(before, limit)
        }
    }
}

/// Moments that are old stay old.
proof fn lemma_recent_again(times: Seq<u64>, now: u64, later: u64)
    requires
        now <= later,
    ensures
        recent(recent(times, now), later) == recent(times, later),
    decreases times.len(),
{
    reveal(Seq::filter);
    if times.len() > 0 {
        let d = times.drop_last();
        lemma_recent_again(d, now, later);
        if in_window(times.last(), now) {
            assert(recent(times, now).drop_last() =~= recent(d, now));
        }
    }
}

/// A list of moments that are all recent is kept whole.
proof fn lemma_all_recent(times: Seq<u64>, now: u64)
    requires
        forall|i: int| 0 <= i < times.len() ==> in_window(#[trigger] times[i], now),
    ensures
        recent(times, now) == times,
    decreases times.len(),
{
    reveal(Seq::filter);
    if times.len() > 0 {
        let d = times.drop_last();
        assert forall|i: int| 0 <= i < d.len() implies in_window(#[trigger] d[i], now) by {
            assert(d[i] == times[i]);
        }
        lemma_all_recent(d, now);
        assert(in_window(times[times.len() - 1], now));
        assert(recent(times, now) =~= times);
    } else {
        assert(recent(times, now) =~= times);
    }
}

/// What is kept of two lists is what is kept of each.
proof fn lemma_recent_of_both(a: Seq<u64>, b: Seq<u64>, now: u64)
    ensures
        recent(a + b, now) == recent(a, now) + recent(b, now),
    decreases b.len(),
{
    reveal(Seq::filter);
    if b.len() > 0 {
        assert((a + b).drop_last() =~= a + b.drop_last());
        assert((a + b).last() == b.last());
        lemma_recent_of_both(a, b.drop_last(), now);
        assert(recent(a + b, now) =~= recent(a, now) + recent(b, now));
    } else {
        assert(a + b =~= a);
        assert(recent(a, now) + recent(b, now) =~= recent(a, now));
    }
}

/// What is remembered is what was let in less than a window ago.
proof fn lemma_remembered_after(times: Seq<u64>, limit: u32)
    requires
        forall|i: int, j: int| 0 <= i <= j < times.len() ==> times[i] <= times[j],
    ensures
        times.len() > 0 ==> remembered_after(times, limit) == recent(
            let_in(times, limit),
            times.last(),
        ),
        let_in(times, limit).len() <= times.len(),
        forall|i: int|
            0 <= i < let_in(times, limit).len() ==> #[trigger] let_in(times, limit)[i]
                <= times.last(),
        forall|i: int, j: int|
            0 <= i <= j < let_in(times, limit).len() ==> let_in(times, limit)[i] <= let_in(
                times,
                limit,
            )[j],
    decreases times.len(),
{
    reveal(Seq::filter);
    if times.len() > 0 {
        let before = times.drop_last();
        let now = times.last();
        assert forall|i: int, j: int| 0 <= i <= j < before.len() implies before[i] <= before[j] by {
            assert(times[i] <= times[j]);
        }
        lemma_remembered_after(before, limit);
        let kept = remembered_after(before, limit);
        let a = let_in(before, limit);
        if before.len() > 0 {
            assert(times[times.len() - 2] <= times[times.len() - 1]);
            assert(before.last() <= now);
            lemma_recent_again(a, before.last(), now);
            assert forall|i: int| 0 <= i < a.len() implies #[trigger] a[i] <= now by {
                assert(a[i] <= before.last());
            }
        } else {
            assert(kept =~= a);
        }
        assert(recent(kept, now) == recent(a, now));
        if allowed(kept, limit, now) {
            assert(a.push(now).drop_last() =~= a);
            assert(recent(a.push(now), now) =~= recent(a, now).push(now));
        }
    }
}

/// In no minute are more connections of an address let in than the limit: of
/// those that are let in, each comes at least a minute after the one that is
/// `limit` places before it.
pub proof fn law_budget_in_any_minute(times: Seq<u64>, limit: u32, i: int)
    requires
        limit > 0,
        forall|i: int, j: int| 0 <= i <= j < times.len() ==> times[i] <= times[j],
        0 <= i,
        i + limit < let_in(times, limit).len(),
    ensures
        let_in(times, limit)[i + limit] >= let_in(times, limit)[i] + WINDOW_NANOS,
    decreases times.len(),
{
    let before = times.drop_last();
    let now = times.last();
    let a = let_in(before, limit);
    assert forall|i: int, j: int| 0 <= i <= j < before.len() implies before[i] <= before[j] by {
        assert(times[i] <= times[j]);
    }
    lemma_remembered_after(times, limit);
    lemma_remembered_after(before, limit);
    if i + limit < a.len() {
        law_budget_in_any_minute(before, limit, i);
    } else {
        let kept = remembered_after(before, limit);
        assert(before.len() > 0);
        assert(times[times.len() - 2] <= times[times.len() - 1]);
        lemma_recent_again(a, before.last(), now);
        if in_window(a[i], now) {
            let tail = a.skip(i);
            assert forall|k: int| 0 <= k < tail.len() implies in_window(#[trigger] tail[k], now) by {
                assert(a[i] <= a[i + k]);
            }
            lemma_all_recent(tail, now);
            assert(a =~= a.take(i) + tail);
            lemma_recent_of_both(a.take(i), tail, now);
            assert(recent(a, now).len() >= limit);
        }
    }
}

/// As long as an address has let in fewer than the limit within the last
/// minute, its next connection is let in.
pub proof fn law_budget_is_owed(times: Seq<u64>, limit: u32, now: u64)
    requires
        limit > 0,
        forall|i: int, j: int| 0 <= i <= j < times.len() ==> times[i] <= times[j],
        times.len() > 0 ==> times.last() <= now,
    ensures
        allowed(remembered_after(times, limit), limit, now) <==> recent(
            let_in(times, limit),
            now,
        ).len() < limit,
{
    reveal(Seq::filter);
    lemma_remembered_after(times, limit);
    if times.len() > 0 {
        lemma_recent_again(let_in(times, limit), times.last(), now);
    }
}

/// Dropping an address without a recent connection never changes what is
/// decided next.
pub proof fn law_purging_is_invisible(times: Vec<u64>, limit: u32, now: u64, later: u64)
    requires
        is_over(times, now),
        now <= later,
    ensures
        remembered(times@, limit, later) == remembered(Seq::empty(), limit, later),
        allowed(times@, limit, later) == allowed(Seq::empty(), limit, later),
{
    reveal(Seq::filter);
    lemma_recent_again(times@, now, later);
    assert(recent(times@, now) =~= Seq::<u64>::empty());
    assert(recent(times@, later) =~= recent(Seq::empty(), later));
}

/// How many doublings a number of consecutive failures is worth.
pub open spec fn doublings(failures: u32) -> nat {
    if failures == 0 {
        0
    } else if failures - 1 > 20 {
        20
    } else {
        (failures - 1) as nat
    }
}

/// The delay, in nanoseconds, before a failed login is answered: the base
/// delay doubled for each failure before, up to the maximum.
pub open spec fn backoff_nanos(base: Duration, max: Duration, failures: u32) -> nat {
    let d = base.total_nanos() * pow2(doublings(failures));
    if d <= max.total_nanos() {
        d
    } else {
        max.total_nanos()
    }
}

/// The delay before a failed login is answered.
pub fn auth_backoff(base: Duration, max: Duration, failures: u32) -> (d: Duration)
    requires
        base.wf(),
        max.wf(),
    ensures
        d.wf(),
        d.total_nanos() == backoff_nanos(base, max, failures),
{
    let times: u32 = if failures == 0 {
        0
    } else if failures - 1 > 20 {
        20
    } else {
        failures - 1
    };
    let b: u128 = base.as_nanos();
    let m: u128 = max.as_nanos();
    let mut d: u128 = b;
    let mut i: u32 = 0;
    proof {
        vstd::arithmetic::power2::lemma_pow2(0);
        vstd::arithmetic::power2::lemma2_to64();
        assert(b * pow2(0) == b) by (nonlinear_arith)
            requires
                pow2(0) == 1,
        ;
    }
    while i < times
        invariant
            times <= 20,
            i <= times,
            b < 0x1_0000_0000_0000_0000u128 * 1_000_000_000,
            d == b * pow2(i as nat),
            pow2(i as nat) <= 1_048_576,
        decreases times - i,
    {
        proof {
            vstd::arithmetic::power2::lemma_pow2_unfold(i as nat + 1);
            vstd::arithmetic::power2::lemma2_to64();
            assert(pow2(i as nat + 1) == 2 * pow2(i as nat));
            if i as nat + 1 < 20 {
                vstd::arithmetic::power2::lemma_pow2_strictly_increases(i as nat + 1, 20);
            }
            assert(pow2(i as nat + 1) <= 1_048_576);
            assert(d + d == b * pow2(i as nat + 1)) by (nonlinear_arith)
                requires
                    d == b * pow2(i as nat),
                    pow2(i as nat + 1) == 2 * pow2(i as nat),
            ;
            assert(b * pow2(i as nat + 1) <= b * 1_048_576) by (nonlinear_arith)
                requires
                    pow2(i as nat + 1) <= 1_048_576,
                    b >= 0,
            ;
        }
        d = d + d;
        i += 1;
    }
    if d <= m {
        Duration::from_nanos(d)
    } else {
        max
    }
}

/// Consecutive login failures per user.
pub struct AuthFailures {
    pub counts: StrMap<u32>,
}

/// The failures of a user.
pub open spec fn failures_at(m: Map<Seq<char>, u32>, user: Seq<char>) -> u32 {
    if m.contains_key(user) {
        m[user]
    } else {
        0
    }
}

impl AuthFailures {
    /// No failure yet.
    pub fn new() -> (f: Self)
        ensures
            f.counts.wf(),
            f.counts@ == Map::<Seq<char>, u32>::empty(),
    {
        AuthFailures { counts: StrMap::new() }
    }

    /// Counts a failure; the count stays at its maximum. Gives the new count.
    pub fn record(&mut self, user: &str) -> (n: u32)
        requires
            old(self).counts.wf(),
        ensures
            final(self).counts.wf(),
            ({
                let before = failures_at(old(self).counts@, user@);
                n == (if before < u32::MAX {
                    (before + 1) as u32
                } else {
                    before
                })
            }),
            final(self).counts@ == old(self).counts@.insert(user@, n),
    {
        let before: u32 = match self.counts.get(user) {
            Some(n) => *n,
            None => 0,
        };
        let n: u32 = if before < u32::MAX {
            before + 1
        } else {
            before
        };
        let _ = self.counts.insert(user.to_string(), n);
        n
    }

    /// Forgets the failures of a user who logged in.
    pub fn clear(&mut self, user: &str)
        requires
            old(self).counts.wf(),
        ensures
            final(self).counts.wf(),
            final(self).counts@ == old(self).counts@.remove(user@),
    {
        let _ = self.counts.remove(user);
    }
}

/// Each further failure waits at least as long as the one before, and never
/// longer than the maximum.
pub proof fn law_backoff_grows(base: Duration, max: Duration, failures: u32)
    requires
        failures < u32::MAX,
    ensures
        backoff_nanos(base, max, failures) <= backoff_nanos(base, max, (failures + 1) as u32),
        backoff_nanos(base, max, failures) <= max.total_nanos(),
{
    let a = doublings(failures);
    let b = doublings((failures + 1) as u32);
    if a < b {
        vstd::arithmetic::power2::lemma_pow2_strictly_increases(a, b);
    }
    assert(base.total_nanos() * pow2(a) <= base.total_nanos() * pow2(b)) by (nonlinear_arith)
        requires
            pow2(a) <= pow2(b),
    ;
}

/// A connection counts against its address for sixty seconds, to the
/// nanosecond, and a limit of zero turns nobody away. With a limit, an address
/// with fewer connections than that in the last sixty seconds gets in.
pub proof fn law_connections_count_for_a_minute(times: Seq<u64>, limit: u32, now: u64, t: u64)
    ensures
        recent(times, now).contains(t) <==> times.contains(t) && now < t + 60_000_000_000,
        recent(times, now).len() <= times.len(),
        allowed(times, 0, now),
        limit > 0 && recent(times, now).len() < limit ==> {
            &&& allowed(times, limit, now)
            &&& remembered(times, limit, now).contains(now)
            &&& remembered(times, limit, now).len() == recent(times, now).len() + 1
        },
        limit > 0 && recent(times, now).len() >= limit ==> {
            &&& !allowed(times, limit, now)
            &&& remembered(times, limit, now).len() == recent(times, now).len()
        },
{
    let p = |t: u64| in_window(t, now);
    times.lemma_filter_len(p);
    if recent(times, now).contains(t) {
        let i = recent(times, now).index_of(t);
        times.lemma_filter_pred(p, i);
        times.lemma_filter_contains_rev(p, t);
    }
    if times.contains(t) && in_window(t, now) {
        times.lemma_filter_contains(p, times.index_of(t));
    }
    if limit > 0 && recent(times, now).len() < limit {
        assert(remembered(times, limit, now).last() == now);
    }
}

/// The first failure waits for the base delay, and each one after it twice as
/// long as the one before, until the longest delay or the twentieth doubling is
/// reached.
pub proof fn law_backoff_doubles(base: Duration, max: Duration, failures: u32)
    requires
        1 <= failures <= 20,
    ensures
        backoff_nanos(base, max, 1) == (if base.total_nanos() <= max.total_nanos() {
            base.total_nanos()
        } else {
            max.total_nanos()
        }),
        backoff_nanos(base, max, (failures + 1) as u32) == (if 2 * backoff_nanos(
            base,
            max,
            failures,
        ) <= max.total_nanos() {
            2 * backoff_nanos(base, max, failures)
        } else {
            max.total_nanos()
        }),
        forall|n: u32| n > 21 ==> #[trigger] backoff_nanos(base, max, n) == backoff_nanos(base, max, 21),
{
    let a = doublings(failures);
    vstd::arithmetic::power2::lemma_pow2_unfold(a + 1);
    vstd::arithmetic::power2::lemma2_to64();
    assert(base.total_nanos() * pow2(a + 1) == 2 * (base.total_nanos() * pow2(a)))
        by (nonlinear_arith)
        requires
            pow2(a + 1) == 2 * pow2(a),
    ;
    assert(base.total_nanos() * pow2(0) == base.total_nanos()) by (nonlinear_arith)
        requires
            pow2(0) == 1,
    ;
}

/// A connection from an address was let in or turned away.
pub open spec fn judged(
    before: Map<Seq<char>, Vec<u64>>,
    ip: Seq<char>,
    limit: u32,
    now: u64,
    after: Map<Seq<char>, Vec<u64>>,
    r: bool,
) -> bool {
    &&& r == allowed(times_at(before, ip), limit, now)
    &&& limit == 0 ==> after == before
    &&& limit > 0 ==> {
        &&& times_at(after, ip) == remembered(
            times_at(before, ip),
            limit,
            now,
        )
        &&& forall|k: Seq<char>|
            k != ip ==> #[trigger] times_at(after, k) == (if before.dom().len() > MAX_KNOWN_ADDRESSES {
                times_at(ConnLimiter::purged(before, now), k)
            } else {
                times_at(before, k)
            })
    }
}

/// Each address is judged on its own: a connection from one, let in or not,
/// changes nothing for another one, then or later, not even where old addresses
/// are dropped.
pub proof fn law_addresses_are_judged_apart(
    before: Map<Seq<char>, Vec<u64>>,
    ip: Seq<char>,
    limit: u32,
    now: u64,
    after: Map<Seq<char>, Vec<u64>>,
    r: bool,
    other: Seq<char>,
    later: u64,
)
    requires
        judged(before, ip, limit, now, after, r),
        other != ip,
        now <= later,
    ensures
        recent(times_at(after, other), later) == recent(times_at(before, other), later),
        allowed(times_at(after, other), limit, later) == allowed(
            times_at(before, other),
            limit,
            later,
        ),
        limit == 0 ==> r,
        limit > 0 ==> (r <==> recent(times_at(before, ip), now).len() < limit),
        limit > 0 && r ==> times_at(after, ip).contains(now),
        limit > 0 ==> times_at(after, ip).len() == recent(times_at(before, ip), now).len() + (if r {
            1int
        } else {
            0
        }),
{
    let p = ConnLimiter::purged(before, now);
    if limit > 0 {
        assert(times_at(after, other) == (if before.dom().len() > MAX_KNOWN_ADDRESSES {
            times_at(p, other)
        } else {
            times_at(before, other)
        }));
        if before.contains_key(other) && is_over(before[other], now) {
            reveal(Seq::filter);
            lemma_recent_again(before[other]@, now, later);
            assert(recent(before[other]@, now) =~= Seq::<u64>::empty());
            assert(recent(before[other]@, later) =~= recent(Seq::empty(), later));
        }
        if r {
            assert(times_at(after, ip).last() == now);
        }
    }
}

} // verus!
