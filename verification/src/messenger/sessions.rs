//! Live sessions of a gateway.
//!
//! Moments are nanoseconds of a clock that never runs backwards.

use crate::collections::StrMap;
use crate::distributed::lemma_filter_step;
use crate::text::same;
use crate::time::Duration;
use vstd::prelude::*;

verus! {

/// A connected device.
pub struct SessionEntry {
    pub session_id: u64,
    pub device_id: String,
    pub last_seen: u64,
}

/// What a [`SessionEntry`] holds.
#[verifier::ext_equal]
pub struct SessionView {
    pub session_id: u64,
    pub device_id: Seq<char>,
    pub last_seen: u64,
}

impl View for SessionEntry {
    type V = SessionView;

    open spec fn view(&self) -> SessionView {
        SessionView {
            session_id: self.session_id,
            device_id: self.device_id@,
            last_seen: self.last_seen,
        }
    }
}

/// The sessions by their views.
pub open spec fn session_views(v: Seq<SessionEntry>) -> Seq<SessionView> {
    Seq::new(v.len(), |i: int| v[i]@)
}

/// Which sessions are on other devices.
pub open spec fn other_device(device: Seq<char>) -> spec_fn(SessionView) -> bool {
    |s: SessionView| s.device_id != device
}

/// Which sessions are other ones.
pub open spec fn other_session(session_id: u64) -> spec_fn(SessionView) -> bool {
    |s: SessionView| s.session_id != session_id
}

/// No device has two sessions.
pub open spec fn devices_distinct(s: Seq<SessionView>) -> bool {
    forall|i: int, j: int|
        0 <= i < j < s.len() ==> (#[trigger] s[i]).device_id != (#[trigger] s[j]).device_id
}

/// Whether a device has the session with this number.
pub open spec fn has_session(s: Seq<SessionView>, device: Seq<char>, session_id: u64) -> bool {
    exists|i: int|
        0 <= i < s.len() && (#[trigger] s[i]).device_id == device && s[i].session_id == session_id
}

/// Whether a device has no session.
pub open spec fn has_no_session(s: Seq<SessionView>, device: Seq<char>) -> bool {
    forall|i: int| 0 <= i < s.len() ==> (#[trigger] s[i]).device_id != device
}

/// The session was last heard of too long ago.
pub open spec fn is_idle(s: SessionView, now: u64, timeout: Duration) -> bool {
    now - s.last_seen > timeout.total_nanos()
}

/// The sessions of all users.
pub struct SessionTable {
    pub users: StrMap<Vec<SessionEntry>>,
}

/// The sessions of one user.
pub open spec fn sessions_at(m: Map<Seq<char>, Vec<SessionEntry>>, user: Seq<char>) -> Seq<SessionView> {
    if m.contains_key(user) {
        session_views(m[user]@)
    } else {
        Seq::empty()
    }
}

/// A session was registered: it comes behind the user's sessions on other
/// devices. The session that it replaced, if any, is given.
pub open spec fn attached(
    before: SessionTable,
    user: Seq<char>,
    session: SessionView,
    after: SessionTable,
    kicked: Option<u64>,
) -> bool {
    &&& forall|u: Seq<char>| #[trigger]
        after.at(u) == (if u == user {
            before.at(u).filter(other_device(session.device_id)).push(session)
        } else {
            before.at(u)
        })
    &&& match kicked {
        Some(id) => has_session(before.at(user), session.device_id, id),
        None => has_no_session(before.at(user), session.device_id),
    }
}

/// A session was detached, which may have been the last one of the user.
pub open spec fn detached(
    before: SessionTable,
    user: Seq<char>,
    session_id: u64,
    after: SessionTable,
    now_offline: bool,
) -> bool {
    &&& forall|u: Seq<char>| #[trigger]
        after.at(u) == (if u == user {
            before.at(u).filter(other_session(session_id))
        } else {
            before.at(u)
        })
    &&& now_offline == (before.at(user).len() > 0 && after.at(user).len() == 0)
}

/// A session was heard of.
pub open spec fn heard_of(
    before: SessionTable,
    user: Seq<char>,
    session_id: u64,
    now: u64,
    after: SessionTable,
) -> bool {
    forall|u: Seq<char>| #[trigger]
        after.at(u) == (if u == user {
            before.at(u).map_values(
                |s: SessionView|
                    if s.session_id == session_id {
                        SessionView { last_seen: now, ..s }
                    } else {
                        s
                    },
            )
        } else {
            before.at(u)
        })
}

/// Filtering keeps devices distinct and keeps exactly what passes.
proof fn lemma_filter_devices(s: Seq<SessionView>, p: spec_fn(SessionView) -> bool)
    requires
        devices_distinct(s),
    ensures
        devices_distinct(s.filter(p)),
        forall|x: SessionView| #[trigger] s.filter(p).contains(x) <==> s.contains(x) && p(x),
    decreases s.len(),
{
    reveal(Seq::filter);
    if s.len() > 0 {
        let d = s.drop_last();
        assert forall|i: int, j: int| 0 <= i < j < d.len() implies (#[trigger] d[i]).device_id != (
        #[trigger] d[j]).device_id by {
            assert(s[i].device_id != s[j].device_id);
        }
        lemma_filter_devices(d, p);
        let e = d.filter(p);
        let f = s.filter(p);
        assert forall|x: SessionView| #[trigger] f.contains(x) <==> s.contains(x) && p(x) by {
            if f.contains(x) {
                let k = f.index_of(x);
                if k < e.len() {
                    assert(e[k] == x);
                    assert(e.contains(x));
                    assert(s[d.index_of(x)] == x);
                } else {
                    assert(s[s.len() - 1] == x);
                }
            }
            if s.contains(x) && p(x) {
                let k = s.index_of(x);
                if k < d.len() {
                    assert(d[k] == x);
                    assert(e.contains(x));
                    assert(f[e.index_of(x)] == x);
                } else {
                    assert(f[e.len() as int] == x);
                }
            }
        }
        assert forall|i: int, j: int| 0 <= i < j < f.len() implies (#[trigger] f[i]).device_id != (
        #[trigger] f[j]).device_id by {
            if j < e.len() {
                assert(f[i] == e[i] && f[j] == e[j]);
            } else {
                assert(f[i] == e[i]);
                assert(e.contains(e[i]));
                let k = d.index_of(e[i]);
                assert(s[k].device_id != s[s.len() - 1].device_id);
            }
        }
    }
}

/// Takes the sessions of a device, or one session, out of a list. Gives the
/// first one that left.
fn take_out(list: &mut Vec<SessionEntry>, device: Option<&str>, session_id: u64) -> (r: Option<u64>)
    ensures
        device matches Some(d) ==> session_views(final(list)@) == session_views(
            old(list)@,
        ).filter(other_device(d@)),
        device is None ==> session_views(final(list)@) == session_views(old(list)@).filter(
            other_session(session_id),
        ),
        device matches Some(d) ==> match r {
            Some(id) => exists|i: int|
                0 <= i < old(list)@.len() && (#[trigger] session_views(old(list)@)[i]).device_id
                    == d@ && session_views(old(list)@)[i].session_id == id,
            None => forall|i: int|
                0 <= i < old(list)@.len() ==> (#[trigger] session_views(old(list)@)[i]).device_id
                    != d@,
        },
{
    let ghost all = session_views(list@);
    let ghost pred = match device {
        Some(d) => other_device(d@),
        None => other_session(session_id),
    };
    let ghost mut done: int = 0;
    let mut left: Option<u64> = None;
    let mut i: usize = 0;
    proof {
        reveal(Seq::filter);
        assert(all.take(0).filter(pred) =~= Seq::<SessionView>::empty());
        assert(all.take(0).filter(pred) + all.skip(0) =~= all);
    }
    while i < list.len()
        invariant
            all == session_views(old(list)@),
            pred == (match device {
                Some(d) => other_device(d@),
                None => other_session(session_id),
            }),
            0 <= done <= all.len(),
            i == all.take(done).filter(pred).len(),
            i <= list@.len(),
            session_views(list@) == all.take(done).filter(pred) + all.skip(done),
            device matches Some(d) ==> match left {
                Some(id) => exists|j: int|
                    0 <= j < done && (#[trigger] all[j]).device_id == d@ && all[j].session_id == id,
                None => forall|j: int| 0 <= j < done ==> (#[trigger] all[j]).device_id != d@,
            },
        decreases all.len() - done,
    {
        let ghost before = list@;
        let ghost kept = all.take(done).filter(pred);
        proof {
            lemma_filter_step(all, pred, done);
            assert(session_views(before)[i as int] == all[done]);
            assert(all.skip(done) =~= seq![all[done]] + all.skip(done + 1));
        }
        let leaves = match device {
            Some(d) => same(list[i].device_id.as_str(), d),
            None => list[i].session_id == session_id,
        };
        if leaves {
            let gone = list.remove(i);
            if left.is_none() {
                left = Some(gone.session_id);
                assert(all[done].session_id == gone.session_id);
            }
            assert(list@ =~= before.remove(i as int));
            assert(session_views(list@) =~= session_views(before).remove(i as int));
            assert((kept + all.skip(done)).remove(i as int) =~= kept + all.skip(done + 1));
        } else {
            i += 1;
            assert(session_views(list@) =~= kept.push(all[done]) + all.skip(done + 1));
        }
        proof {
            done = done + 1;
        }
    }
    proof {
        assert(all.take(done) =~= all);
        assert(session_views(list@) =~= all.filter(pred));
    }
    left
}

impl SessionTable {
    /// A listed user has a session, and no device of a user has two.
    pub open spec fn wf(&self) -> bool {
        &&& self.users.wf()
        &&& forall|u: Seq<char>|
            self.users@.contains_key(u) ==> (#[trigger] self.users@[u])@.len() > 0
                && devices_distinct(session_views(self.users@[u]@))
    }

    /// The sessions of a user.
    pub open spec fn at(&self, user: Seq<char>) -> Seq<SessionView> {
        sessions_at(self.users@, user)
    }

    /// No session.
    pub fn new() -> (t: Self)
        ensures
            t.wf(),
            forall|u: Seq<char>| #[trigger] t.at(u) == Seq::<SessionView>::empty(),
    {
        SessionTable { users: StrMap::new() }
    }

    /// Registers a session. An earlier session of the same device is replaced;
    /// its number is given back.
    pub fn register(&mut self, user: &str, session: SessionEntry) -> (kicked: Option<u64>)
        requires
            old(self).wf(),
        ensures
            final(self).wf(),
            attached(*old(self), user@, session@, *final(self), kicked),
    {
        let ghost was = self.at(user@);
        let ghost sv = session@;
        let mut list: Vec<SessionEntry> = match self.users.remove(user) {
            Some(l) => l,
            None => Vec::new(),
        };
        assert(session_views(list@) =~= was);
        let kicked = take_out(&mut list, Some(session.device_id.as_str()), 0);
        proof {
            match kicked {
                Some(id) => {
                    assert(has_session(was, sv.device_id, id));
                },
                None => {
                    assert(has_no_session(was, sv.device_id));
                },
            }
        }
        let ghost kept = session_views(list@);
        proof {
            lemma_filter_devices(was, other_device(sv.device_id));
        }
        list.push(session);
        assert(session_views(list@) =~= kept.push(sv));
        proof {
            let s = session_views(list@);
            assert forall|i: int, j: int| 0 <= i < j < s.len() implies (
            #[trigger] s[i]).device_id != (#[trigger] s[j]).device_id by {
                if j == kept.len() {
                    assert(kept.contains(kept[i]));
                }
            }
        }
        let _ = self.users.insert(user.to_string(), list);
        kicked
    }

    /// Detaches a session. Says whether that was the last one of the user.
    pub fn remove(&mut self, user: &str, session_id: u64) -> (now_offline: bool)
        requires
            old(self).wf(),
        ensures
            final(self).wf(),
            detached(*old(self), user@, session_id, *final(self), now_offline),
    {
        let ghost was = self.at(user@);
        let ghost before = self.users@;
        match self.users.remove(user) {
            None => {
                proof {
                    reveal(Seq::filter);
                    assert(self.users@ =~= before);
                    assert(was.filter(other_session(session_id)) =~= was);
                }
                false
            },
            Some(l) => {
                let mut list = l;
                proof {
                    lemma_filter_devices(was, other_session(session_id));
                }
                let _ = take_out(&mut list, None, session_id);
                if list.len() == 0 {
                    assert(session_views(list@) =~= Seq::<SessionView>::empty());
                    true
                } else {
                    let _ = self.users.insert(user.to_string(), list);
                    false
                }
            },
        }
    }

    /// Notes that a session was heard of.
    pub fn touch(&mut self, user: &str, session_id: u64, now: u64)
        requires
            old(self).wf(),
        ensures
            final(self).wf(),
            heard_of(*old(self), user@, session_id, now, *final(self)),
    {
        let ghost was = self.at(user@);
        let ghost before = self.users@;
        match self.users.remove(user) {
            None => {
                proof {
                    assert(self.users@ =~= before);
                    assert(was.map_values(
                        |s: SessionView|
                            if s.session_id == session_id {
                                SessionView { last_seen: now, ..s }
                            } else {
                                s
                            },
                    ) =~= was);
                }
            },
            Some(l) => {
                let mut list = l;
                let n: usize = list.len();
                let mut i: usize = 0;
                while i < n
                    invariant
                        n == was.len(),
                        i <= n,
                        list@.len() == n,
                        forall|j: int|
                            0 <= j < i ==> (#[trigger] list@[j])@ == (if was[j].session_id
                                == session_id {
                                SessionView { last_seen: now, ..was[j] }
                            } else {
                                was[j]
                            }),
                        forall|j: int| i <= j < n ==> (#[trigger] list@[j])@ == was[j],
                    decreases n - i,
                {
                    if list[i].session_id == session_id {
                        list[i].last_seen = now;
                    }
                    i += 1;
                }
                proof {
                    let s = session_views(list@);
                    assert forall|i: int, j: int| 0 <= i < j < s.len() implies (
                    #[trigger] s[i]).device_id != (#[trigger] s[j]).device_id by {
                        assert(was[i].device_id != was[j].device_id);
                    }
                    assert(s =~= was.map_values(
                        |s: SessionView|
                            if s.session_id == session_id {
                                SessionView { last_seen: now, ..s }
                            } else {
                                s
                            },
                    ));
                }
                let _ = self.users.insert(user.to_string(), list);
            },
        }
    }

    /// The numbers of a user's sessions, in order of login.
    pub fn session_ids(&self, user: &str) -> (v: Vec<u64>)
        requires
            self.wf(),
        ensures
            v@ == self.at(user@).map_values(|s: SessionView| s.session_id),
    {
        let mut out: Vec<u64> = Vec::new();
        match self.users.get(user) {
            None => {},
            Some(list) => {
                let mut i: usize = 0;
                while i < list.len()
                    invariant
                        i <= list@.len(),
                        out@.len() == i,
                        forall|j: int| 0 <= j < i ==> out@[j] == (#[trigger] list@[j]).session_id,
                    decreases list@.len() - i,
                {
                    out.push(list[i].session_id);
                    i += 1;
                }
            },
        }
        assert(out@ =~= self.at(user@).map_values(|s: SessionView| s.session_id));
        out
    }

    /// Whether a user has a session.
    pub fn is_online(&self, user: &str) -> (r: bool)
        requires
            self.wf(),
        ensures
            r == (self.at(user@).len() > 0),
    {
        self.users.contains_key(user)
    }

    /// The sessions that were last heard of longer ago than `timeout`: for each
    /// user those, each once, in order of login.
    pub fn idle(&self, now: u64, timeout: Duration) -> (v: Vec<(String, u64)>)
        requires
            self.wf(),
        ensures
            forall|u: Seq<char>| #[trigger]
                named(v@, u) == idle_ids(self.at(u), now, timeout),
            (forall|u: Seq<char>| #[trigger] ids_distinct(self.at(u))) ==> pairs_distinct(v@),
    {
        let limit: u128 = timeout.as_nanos();
        let mut out: Vec<(String, u64)> = Vec::new();
        let mut a: usize = 0;
        while a < self.users.entries.len()
            invariant
                self.wf(),
                limit == timeout.total_nanos(),
                a <= self.users.entries@.len(),
                forall|u: Seq<char>| #[trigger]
                    named(out@, u) == (if self.users.keys().take(a as int).contains(u) {
                        idle_ids(self.at(u), now, timeout)
                    } else {
                        Seq::empty()
                    }),
            decreases self.users.entries@.len() - a,
        {
            let ghost user = self.users.entries@[a as int].0@;
            let ghost keys = self.users.keys();
            let ghost start = out@;
            proof {
                self.users.lemma_entry(a as int);
                assert(keys[a as int] == user);
                assert(!keys.take(a as int).contains(user)) by {
                    if keys.take(a as int).contains(user) {
                        let b = keys.take(a as int).index_of(user);
                        assert(keys[b] == keys[a as int]);
                    }
                }
                assert(named(start, user) == Seq::<u64>::empty());
            }
            assert(self.at(user) == session_views(self.users.entries@[a as int].1@));
            let list = &self.users.entries[a].1;
            let mut j: usize = 0;
            assert(self.at(user).take(0) =~= Seq::<SessionView>::empty());
            while j < list.len()
                invariant
                    self.wf(),
                    limit == timeout.total_nanos(),
                    a < self.users.entries@.len(),
                    *list == self.users.entries@[a as int].1,
                    user == self.users.entries@[a as int].0@,
                    self.at(user) == session_views(list@),
                    j <= list@.len(),
                    named(out@, user) == idle_ids(self.at(user).take(j as int), now, timeout),
                    forall|u: Seq<char>|
                        u != user ==> #[trigger] named(out@, u) == named(start, u),
                decreases list@.len() - j,
            {
                let ghost was = out@;
                let seen: u64 = list[j].last_seen;
                proof {
                    let t = self.at(user).take(j as int + 1);
                    assert(t.drop_last() =~= self.at(user).take(j as int));
                    assert(t.last() == list@[j as int]@);
                }
                if now >= seen && (now - seen) as u128 > limit {
                    out.push((self.users.entries[a].0.clone(), list[j].session_id));
                    assert(out@.drop_last() =~= was);
                    assert forall|u: Seq<char>| u != user implies #[trigger] named(out@, u)
                        == named(start, u) by {
                        assert(named(was, u) == named(start, u));
                    }
                }
                j += 1;
            }
            proof {
                assert(self.at(user).take(j as int) =~= self.at(user));
                assert forall|u: Seq<char>| #[trigger]
                    named(out@, u) == (if keys.take(a as int + 1).contains(u) {
                        idle_ids(self.at(u), now, timeout)
                    } else {
                        Seq::empty()
                    }) by {
                    let t = keys.take(a as int + 1);
                    assert(t[a as int] == user);
                    if u != user {
                        assert(named(out@, u) == named(start, u));
                        if t.contains(u) {
                            let b = t.index_of(u);
                            assert(keys.take(a as int)[b] == u);
                        }
                        if keys.take(a as int).contains(u) {
                            let b = keys.take(a as int).index_of(u);
                            assert(t[b] == u);
                        }
                    }
                }
            }
            a += 1;
        }
        proof {
            let keys = self.users.keys();
            assert(keys.take(a as int) =~= keys);
            assert forall|u: Seq<char>| #[trigger] named(out@, u) == idle_ids(
                self.at(u),
                now,
                timeout,
            ) by {
                if !keys.contains(u) {
                    assert(!self.users@.contains_key(u));
                    assert(self.at(u) =~= Seq::<SessionView>::empty());
                }
            }
            if forall|u: Seq<char>| #[trigger] ids_distinct(self.at(u)) {
                assert forall|u: Seq<char>| #[trigger] named(out@, u).no_duplicates() by {
                    assert(ids_distinct(self.at(u)));
                    lemma_idle_ids_distinct(self.at(u), now, timeout);
                }
                lemma_pairs_distinct(out@);
            }
        }
        out
    }
}

/// The numbers of those sessions that were last heard of too long ago.
pub open spec fn idle_ids(s: Seq<SessionView>, now: u64, timeout: Duration) -> Seq<u64>
    decreases s.len(),
{
    if s.len() == 0 {
        Seq::empty()
    } else if is_idle(s.last(), now, timeout) {
        idle_ids(s.drop_last(), now, timeout).push(s.last().session_id)
    } else {
        idle_ids(s.drop_last(), now, timeout)
    }
}

/// The numbers that are listed for a user, in order.
pub open spec fn named(v: Seq<(String, u64)>, user: Seq<char>) -> Seq<u64>
    decreases v.len(),
{
    if v.len() == 0 {
        Seq::empty()
    } else if v.last().0@ == user {
        named(v.drop_last(), user).push(v.last().1)
    } else {
        named(v.drop_last(), user)
    }
}

/// No two sessions have one number.
pub open spec fn ids_distinct(s: Seq<SessionView>) -> bool {
    forall|i: int, j: int|
        0 <= i < j < s.len() ==> (#[trigger] s[i]).session_id != (#[trigger] s[j]).session_id
}

/// No session of a user is listed twice.
pub open spec fn pairs_distinct(v: Seq<(String, u64)>) -> bool {
    forall|i: int, j: int|
        0 <= i < j < v.len() ==> !((#[trigger] v[i]).0@ == (#[trigger] v[j]).0@ && v[i].1 == v[j].1)
}

/// Sessions with numbers of their own are listed once.
proof fn lemma_idle_ids_distinct(s: Seq<SessionView>, now: u64, timeout: Duration)
    requires
        ids_distinct(s),
    ensures
        idle_ids(s, now, timeout).no_duplicates(),
        forall|id: u64| #[trigger]
            idle_ids(s, now, timeout).contains(id) ==> exists|i: int|
                0 <= i < s.len() && (#[trigger] s[i]).session_id == id,
    decreases s.len(),
{
    if s.len() > 0 {
        let d = s.drop_last();
        assert forall|i: int, j: int| 0 <= i < j < d.len() implies (#[trigger] d[i]).session_id != (
        #[trigger] d[j]).session_id by {
            assert(s[i].session_id != s[j].session_id);
        }
        lemma_idle_ids_distinct(d, now, timeout);
        let before = idle_ids(d, now, timeout);
        let all = idle_ids(s, now, timeout);
        let last = s[s.len() - 1];
        if before.contains(last.session_id) {
            let i = choose|i: int| 0 <= i < d.len() && (#[trigger] d[i]).session_id
                == last.session_id;
            assert(s[i].session_id == last.session_id);
        }
        assert forall|i: int, j: int| 0 <= i < all.len() && 0 <= j < all.len() && i != j implies all[i]
            != all[j] by {
            if i < before.len() {
                assert(before.contains(before[i]));
            }
            if j < before.len() {
                assert(before.contains(before[j]));
            }
        }
        assert forall|id: u64| #[trigger] all.contains(id) implies exists|i: int|
            0 <= i < s.len() && (#[trigger] s[i]).session_id == id by {
            let k = all.index_of(id);
            if k < before.len() {
                assert(before[k] == id);
                assert(before.contains(id));
                let i = choose|i: int| 0 <= i < d.len() && (#[trigger] d[i]).session_id == id;
                assert(s[i].session_id == id);
            } else {
                assert(last.session_id == id);
            }
        }
    }
}

/// What is listed for a user is listed.
proof fn lemma_named(v: Seq<(String, u64)>, i: int)
    requires
        0 <= i < v.len(),
    ensures
        named(v, v[i].0@).contains(v[i].1),
    decreases v.len(),
{
    let user = v[i].0@;
    let d = v.drop_last();
    let all = named(v, user);
    if i < d.len() {
        lemma_named(d, i);
        let before = named(d, user);
        assert(d[i] == v[i]);
        let k = before.index_of(v[i].1);
        assert(all[k] == v[i].1);
    } else {
        assert(all.last() == v[i].1);
    }
}

/// Without repeats for any user there are none at all.
proof fn lemma_pairs_distinct(v: Seq<(String, u64)>)
    requires
        forall|u: Seq<char>| #[trigger] named(v, u).no_duplicates(),
    ensures
        pairs_distinct(v),
    decreases v.len(),
{
    if v.len() > 0 {
        let d = v.drop_last();
        let n = d.len() as int;
        assert forall|u: Seq<char>| #[trigger] named(d, u).no_duplicates() by {
            let before = named(d, u);
            let all = named(v, u);
            assert(all.no_duplicates());
            assert forall|i: int, j: int|
                0 <= i < before.len() && 0 <= j < before.len() && i != j implies before[i]
                != before[j] by {
                assert(all[i] == before[i] && all[j] == before[j]);
            }
        }
        lemma_pairs_distinct(d);
        assert forall|i: int, j: int| 0 <= i < j < v.len() implies !((#[trigger] v[i]).0@ == (
        #[trigger] v[j]).0@ && v[i].1 == v[j].1) by {
            if j < n {
                assert(d[i] == v[i] && d[j] == v[j]);
            } else if v[i].0@ == v[j].0@ && v[i].1 == v[j].1 {
                let u = v[n].0@;
                lemma_named(d, i);
                assert(d[i] == v[i]);
                let k = named(d, u).index_of(v[i].1);
                let all = named(v, u);
                assert(all.no_duplicates());
                assert(all[k] == all[all.len() - 1]);
            }
        }
    }
}

/// A device that logs in again has one session, the new one, and sessions of
/// other devices stay.
pub proof fn law_one_session_per_device(s: Seq<SessionView>, new: SessionView)
    requires
        devices_distinct(s),
    ensures
        ({
            let r = s.filter(other_device(new.device_id)).push(new);
            &&& devices_distinct(r)
            &&& r.contains(new)
            &&& forall|x: SessionView|
                x.device_id != new.device_id ==> (#[trigger] r.contains(x) <==> s.contains(x))
        }),
{
    let f = s.filter(other_device(new.device_id));
    let r = f.push(new);
    lemma_filter_devices(s, other_device(new.device_id));
    assert(r[f.len() as int] == new);
    assert forall|i: int, j: int| 0 <= i < j < r.len() implies (#[trigger] r[i]).device_id != (
    #[trigger] r[j]).device_id by {
        if j == f.len() {
            assert(f.contains(f[i]));
        } else {
            assert(r[i] == f[i] && r[j] == f[j]);
        }
    }
    assert forall|x: SessionView| x.device_id != new.device_id implies (#[trigger] r.contains(x)
        <==> s.contains(x)) by {
        if s.contains(x) {
            assert(f.contains(x));
            assert(r[f.index_of(x)] == x);
        }
        if r.contains(x) {
            let k = r.index_of(x);
            assert(f[k] == x);
            assert(f.contains(x));
        }
    }
}

/// Once a session is registered, it is the only one of its device, and the
/// user's sessions on other devices are those that were there before; nobody
/// else's sessions change. A session is reported as replaced where the device
/// had one, and only there.
pub proof fn law_login_replaces_the_device(
    before: SessionTable,
    user: Seq<char>,
    session: SessionView,
    after: SessionTable,
    kicked: Option<u64>,
    x: SessionView,
    other: Seq<char>,
)
    requires
        before.wf(),
        attached(before, user, session, after, kicked),
        other != user,
    ensures
        after.at(user).contains(x) <==> x == session || (before.at(user).contains(x) && x.device_id
            != session.device_id),
        after.at(user).len() > 0,
        after.at(other) == before.at(other),
        kicked matches Some(id) ==> exists|i: int|
            0 <= i < before.at(user).len() && (#[trigger] before.at(user)[i]).device_id
                == session.device_id && before.at(user)[i].session_id == id,
        kicked is None ==> !(before.at(user).contains(x) && x.device_id == session.device_id),
{
    let s = before.at(user);
    lemma_at_distinct(before, user);
    law_one_session_per_device(s, session);
    let f = s.filter(other_device(session.device_id));
    lemma_filter_devices(s, other_device(session.device_id));
    if after.at(user).contains(x) {
        let k = after.at(user).index_of(x);
        if k < f.len() {
            assert(f[k] == x);
            assert(f.contains(x));
        }
    }
}

/// The devices of a user are distinct.
proof fn lemma_at_distinct(t: SessionTable, user: Seq<char>)
    requires
        t.wf(),
    ensures
        devices_distinct(t.at(user)),
{
}

/// Detaching a session takes away that session and no other, of that user and no
/// other. The user is reported to be offline where that was the last one.
pub proof fn law_logout_ends_one_session(
    before: SessionTable,
    user: Seq<char>,
    session_id: u64,
    after: SessionTable,
    now_offline: bool,
    x: SessionView,
    other: Seq<char>,
)
    requires
        before.wf(),
        detached(before, user, session_id, after, now_offline),
        other != user,
    ensures
        after.at(user).contains(x) <==> before.at(user).contains(x) && x.session_id != session_id,
        after.at(other) == before.at(other),
        now_offline ==> before.at(user).len() > 0 && !after.at(user).contains(x),
        before.at(user).contains(x) && !now_offline ==> after.at(user).len() > 0,
        before.at(user).len() == 0 ==> !now_offline,
{
    lemma_at_distinct(before, user);
    lemma_filter_devices(before.at(user), other_session(session_id));
}

/// A session that logs in and out leaves the user's sessions on other devices.
pub proof fn law_logout_undoes_login(
    before: SessionTable,
    user: Seq<char>,
    session: SessionView,
    between: SessionTable,
    kicked: Option<u64>,
    after: SessionTable,
    now_offline: bool,
    x: SessionView,
)
    requires
        before.wf(),
        between.wf(),
        attached(before, user, session, between, kicked),
        detached(between, user, session.session_id, after, now_offline),
        !before.at(user).contains(SessionView { session_id: session.session_id, ..x }),
        x.device_id != session.device_id,
    ensures
        after.at(user).contains(x) <==> before.at(user).contains(x),
        now_offline <==> after.at(user).len() == 0,
{
    let other = user.push('a');
    assert(other.len() != user.len());
    law_login_replaces_the_device(before, user, session, between, kicked, x, other);
    law_logout_ends_one_session(between, user, session.session_id, after, now_offline, x, other);
    if x.session_id == session.session_id {
        assert(x == SessionView { session_id: session.session_id, ..x });
    }
}

/// Hearing of a session changes the moment at which it was last heard of, and
/// nothing else: not its device, not its place, not any other session.
pub proof fn law_hearing_renews_one_session(
    before: SessionTable,
    user: Seq<char>,
    session_id: u64,
    now: u64,
    after: SessionTable,
    other: Seq<char>,
    k: int,
)
    requires
        heard_of(before, user, session_id, now, after),
        other != user,
    ensures
        after.at(other) == before.at(other),
        after.at(user).len() == before.at(user).len(),
        0 <= k < before.at(user).len() ==> {
            &&& after.at(user)[k].session_id == before.at(user)[k].session_id
            &&& after.at(user)[k].device_id == before.at(user)[k].device_id
            &&& after.at(user)[k].last_seen == (if before.at(user)[k].session_id == session_id {
                now
            } else {
                before.at(user)[k].last_seen
            })
        },
{
}

/// A session is idle where it was last heard of longer ago than the timeout,
/// and every idle one is found. One that was heard of just now never is.
pub proof fn law_idle_sessions_are_found(
    s: Seq<SessionView>,
    now: u64,
    timeout: Duration,
    id: u64,
)
    ensures
        idle_ids(s, now, timeout).contains(id) <==> exists|i: int|
            0 <= i < s.len() && (#[trigger] s[i]).session_id == id && now > s[i].last_seen
                + timeout.secs * 1_000_000_000 + timeout.nanos,
    decreases s.len(),
{
    if s.len() > 0 {
        let d = s.drop_last();
        let n = s.len() - 1;
        law_idle_sessions_are_found(d, now, timeout, id);
        let before = idle_ids(d, now, timeout);
        let all = idle_ids(s, now, timeout);
        if before.contains(id) {
            let i = choose|i: int|
                0 <= i < d.len() && (#[trigger] d[i]).session_id == id && now > d[i].last_seen
                    + timeout.secs * 1_000_000_000 + timeout.nanos;
            assert(s[i] == d[i]);
            assert(all[before.index_of(id)] == id);
        }
        if s[n].session_id == id && now > s[n].last_seen + timeout.secs * 1_000_000_000
            + timeout.nanos {
            assert(all.last() == id);
        }
        if all.contains(id) && !before.contains(id) {
            let k = all.index_of(id);
            if k < before.len() {
                assert(before[k] == id);
            }
            assert(s[n].session_id == id);
        }
        if exists|i: int|
            0 <= i < s.len() && (#[trigger] s[i]).session_id == id && now > s[i].last_seen
                + timeout.secs * 1_000_000_000 + timeout.nanos {
            let i = choose|i: int|
                0 <= i < s.len() && (#[trigger] s[i]).session_id == id && now > s[i].last_seen
                    + timeout.secs * 1_000_000_000 + timeout.nanos;
            if i < n {
                assert(d[i] == s[i]);
            }
        }
    }
}

} // verus!
