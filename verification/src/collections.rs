//! Maps and sets keyed by text.
//!
//! Both are association lists without repeated keys, viewed as a mathematical
//! map or set. Walking one visits each key exactly once, in no promised order.

use crate::text::{same, strs};
use vstd::prelude::*;

verus! {

/// A map from text to `V`.
pub struct StrMap<V> {
    /// The entries, one per key.
    pub entries: Vec<(String, V)>,
}

impl<V> View for StrMap<V> {
    type V = Map<Seq<char>, V>;

    open spec fn view(&self) -> Map<Seq<char>, V> {
        Map::new(
            |k: Seq<char>| self.keys().contains(k),
            |k: Seq<char>| self.entries@[self.keys().index_of(k)].1,
        )
    }
}

impl<V> StrMap<V> {
    /// The keys in storage order.
    pub open spec fn keys(&self) -> Seq<Seq<char>> {
        Seq::new(self.entries@.len(), |i: int| self.entries@[i].0@)
    }

    /// No key occurs twice.
    pub open spec fn wf(&self) -> bool {
        self.keys().no_duplicates()
    }

    /// The entry at `i` is what the map holds under its key.
    pub proof fn lemma_entry(&self, i: int)
        requires
            self.wf(),
            0 <= i < self.entries@.len(),
        ensures
            self@.contains_key(self.entries@[i].0@),
            self@[self.entries@[i].0@] == self.entries@[i].1,
    {
        let k = self.entries@[i].0@;
        assert(self.keys()[i] == k);
        assert(self.keys().contains(k));
        let j = self.keys().index_of(k);
        assert(self.keys()[j] == k);
        assert(i == j);
    }

    /// Every key of the map has an entry.
    pub proof fn lemma_key_has_entry(&self, k: Seq<char>)
        requires
            self.wf(),
            self@.contains_key(k),
        ensures
            exists|i: int|
                0 <= i < self.entries@.len() && #[trigger] self.entries@[i].0@ == k
                    && self.entries@[i].1 == self@[k],
    {
        let i = self.keys().index_of(k);
        assert(self.keys()[i] == k);
        assert(self.entries@[i].0@ == k);
    }

    /// The number of keys is the number of entries.
    pub proof fn lemma_len(&self)
        requires
            self.wf(),
        ensures
            self@.dom().finite(),
            self@.dom().len() == self.entries@.len(),
            self@.dom() == self.keys().to_set(),
    {
        self.keys().unique_seq_to_set();
        assert(self@.dom() =~= self.keys().to_set());
    }

    /// An empty map.
    pub fn new() -> (m: Self)
        ensures
            m.wf(),
            m@ == Map::<Seq<char>, V>::empty(),
            m.entries@.len() == 0,
    {
        let m = StrMap { entries: Vec::new() };
        assert(m@ =~= Map::<Seq<char>, V>::empty());
        m
    }

    /// The position of the entry under `k`.
    pub fn find(&self, k: &str) -> (r: Option<usize>)
        requires
            self.wf(),
        ensures
            match r {
                Some(i) => i < self.entries@.len() && self.entries@[i as int].0@ == k@
                    && self@.contains_key(k@) && self@[k@] == self.entries@[i as int].1,
                None => !self@.contains_key(k@),
            },
    {
        let mut i: usize = 0;
        while i < self.entries.len()
            invariant
                self.wf(),
                i <= self.entries@.len(),
                forall|j: int| 0 <= j < i ==> self.entries@[j].0@ != k@,
            decreases self.entries@.len() - i,
        {
            if same(self.entries[i].0.as_str(), k) {
                proof {
                    self.lemma_entry(i as int);
                }
                return Some(i);
            }
            i += 1;
        }
        assert(!self.keys().contains(k@));
        None
    }

    /// Whether `k` is a key.
    pub fn contains_key(&self, k: &str) -> (r: bool)
        requires
            self.wf(),
        ensures
            r == self@.contains_key(k@),
    {
        self.find(k).is_some()
    }

    /// The value under `k`.
    pub fn get(&self, k: &str) -> (r: Option<&V>)
        requires
            self.wf(),
        ensures
            match r {
                Some(v) => self@.contains_key(k@) && *v == self@[k@],
                None => !self@.contains_key(k@),
            },
    {
        match self.find(k) {
            Some(i) => Some(&self.entries[i].1),
            None => None,
        }
    }

    /// The value under `k`, for changing it in place.
    pub fn get_mut(&mut self, k: &str) -> (r: Option<&mut V>)
        requires
            old(self).wf(),
        ensures
            final(self).wf(),
            match r {
                Some(v) => old(self)@.contains_key(k@) && *v == old(self)@[k@] && final(self)@
                    == old(self)@.insert(k@, *final(v)),
                None => !old(self)@.contains_key(k@) && *final(self) == *old(self),
            },
    {
        match self.find(k) {
            Some(i) => {
                let ghost before = *self;
                let r = &mut self.entries[i].1;
                proof {
                    let after = StrMap {
                        entries: after_borrow(self).entries,
                    };
                    assert(after.keys() =~= before.keys());
                    assert forall|q: Seq<char>| after.keys().contains(q) implies after@[q]
                        == before@.insert(k@, *final(r))[q] by {
                        let j = after.keys().index_of(q);
                        assert(after.keys()[j] == q);
                        before.lemma_entry(j);
                        after.lemma_entry(j);
                        if j == i {
                            assert(q == k@);
                        } else {
                            assert(after.keys()[j] != after.keys()[i as int]);
                        }
                    }
                    assert(after@ =~= before@.insert(k@, *final(r)));
                }
                Some(r)
            },
            None => None,
        }
    }

    /// Puts `v` under `k` and returns what was there.
    pub fn insert(&mut self, k: String, v: V) -> (r: Option<V>)
        requires
            old(self).wf(),
        ensures
            final(self).wf(),
            final(self)@ == old(self)@.insert(k@, v),
            match r {
                Some(w) => old(self)@.contains_key(k@) && w == old(self)@[k@],
                None => !old(self)@.contains_key(k@),
            },
    {
        let ghost before = *self;
        match self.find(k.as_str()) {
            Some(i) => {
                let mut w = v;
                std::mem::swap(&mut w, &mut self.entries[i].1);
                proof {
                    assert(self.keys() =~= before.keys());
                    self.lemma_entry(i as int);
                    assert forall|q: Seq<char>| self.keys().contains(q) implies self@[q]
                        == before@.insert(k@, v)[q] by {
                        let j = before.keys().index_of(q);
                        assert(before.keys()[j] == q);
                    }
                    assert(self@ =~= before@.insert(k@, v));
                }
                Some(w)
            },
            None => {
                self.entries.push((k, v));
                proof {
                    let n = before.entries@.len() as int;
                    assert forall|a: int, b: int|
                        0 <= a < b < self.entries@.len() implies self.keys()[a] != self.keys()[b] by {
                        if b == n {
                            assert(before.keys()[a] == self.keys()[a]);
                            assert(before.keys().contains(self.keys()[a]));
                        } else {
                            assert(before.keys()[a] != before.keys()[b]);
                        }
                    }
                    assert(self.keys().no_duplicates());
                    self.lemma_entry(n);
                    assert forall|q: Seq<char>|
                        self.keys().contains(q) <==> (before.keys().contains(q) || q == k@) by {
                        if before.keys().contains(q) {
                            let j = before.keys().index_of(q);
                            assert(self.keys()[j] == q);
                        }
                        if self.keys().contains(q) {
                            let j = self.keys().index_of(q);
                            if j < n {
                                assert(before.keys()[j] == q);
                            }
                        }
                        assert(self.keys()[n] == k@);
                    }
                    assert forall|q: Seq<char>| self.keys().contains(q) implies self@[q]
                        == before@.insert(k@, v)[q] by {
                        if q != k@ {
                            let j = self.keys().index_of(q);
                            assert(self.keys()[j] == q);
                            assert(j != n);
                            before.lemma_entry(j);
                            self.lemma_entry(j);
                        }
                    }
                    assert(self@ =~= before@.insert(k@, v));
                }
                None
            },
        }
    }

    /// Takes the value under `k` out.
    pub fn remove(&mut self, k: &str) -> (r: Option<V>)
        requires
            old(self).wf(),
        ensures
            final(self).wf(),
            final(self)@ == old(self)@.remove(k@),
            match r {
                Some(w) => old(self)@.contains_key(k@) && w == old(self)@[k@],
                None => !old(self)@.contains_key(k@),
            },
    {
        let ghost before = *self;
        match self.find(k) {
            Some(i) => {
                let e = self.entries.remove(i);
                proof {
                    assert(self.keys() =~= before.keys().remove(i as int));
                    assert forall|a: int, b: int|
                        0 <= a < b < self.entries@.len() implies self.keys()[a] != self.keys()[b] by {
                        let a2 = if a < i {
                            a
                        } else {
                            a + 1
                        };
                        let b2 = if b < i {
                            b
                        } else {
                            b + 1
                        };
                        assert(before.keys()[a2] != before.keys()[b2]);
                    }
                    assert forall|q: Seq<char>|
                        self.keys().contains(q) <==> (before.keys().contains(q) && q != k@) by {
                        if before.keys().contains(q) && q != k@ {
                            let j = before.keys().index_of(q);
                            assert(before.keys()[j] == q);
                            let j2 = if j < i {
                                j
                            } else {
                                j - 1
                            };
                            assert(self.keys()[j2] == q);
                        }
                        if self.keys().contains(q) {
                            let j = self.keys().index_of(q);
                            assert(self.keys()[j] == q);
                            let j2 = if j < i {
                                j
                            } else {
                                j + 1
                            };
                            assert(before.keys()[j2] == q);
                            assert(before.keys()[i as int] == k@);
                        }
                    }
                    assert forall|q: Seq<char>| self.keys().contains(q) implies self@[q]
                        == before@.remove(k@)[q] by {
                        let j = self.keys().index_of(q);
                        assert(self.keys()[j] == q);
                        let j2 = if j < i {
                            j
                        } else {
                            j + 1
                        };
                        before.lemma_entry(j2);
                        self.lemma_entry(j);
                    }
                    assert(self@ =~= before@.remove(k@));
                }
                Some(e.1)
            },
            None => {
                assert(self@ =~= before@.remove(k@));
                None
            },
        }
    }

    /// The number of keys.
    pub fn len(&self) -> (n: usize)
        requires
            self.wf(),
        ensures
            n == self@.dom().len(),
            n == self.entries@.len(),
    {
        proof {
            self.lemma_len();
        }
        self.entries.len()
    }
}

/// A set of texts.
pub struct StrSet {
    /// The members, each once.
    pub items: Vec<String>,
}

impl View for StrSet {
    type V = Set<Seq<char>>;

    open spec fn view(&self) -> Set<Seq<char>> {
        strs(self.items@).to_set()
    }
}

impl Clone for StrSet {
    fn clone(&self) -> (r: Self)
        ensures
            r@ == self@,
            self.wf() ==> r.wf(),
            r.items@ == self.items@,
    {
        StrSet { items: crate::text::clone_strings(&self.items) }
    }
}

impl StrSet {
    /// No member is stored twice.
    pub open spec fn wf(&self) -> bool {
        strs(self.items@).no_duplicates()
    }

    /// The number of members is the number of stored items.
    pub proof fn lemma_len(&self)
        requires
            self.wf(),
        ensures
            self@.finite(),
            self@.len() == self.items@.len(),
    {
        strs(self.items@).unique_seq_to_set();
    }

    /// An empty set.
    pub fn new() -> (s: Self)
        ensures
            s.wf(),
            s@ == Set::<Seq<char>>::empty(),
            s.items@.len() == 0,
    {
        let s = StrSet { items: Vec::new() };
        assert(s@ =~= Set::<Seq<char>>::empty());
        s
    }

    /// Whether `k` is a member.
    pub fn contains(&self, k: &str) -> (r: bool)
        ensures
            r == self@.contains(k@),
    {
        crate::text::contains_str(&self.items, k)
    }

    /// Adds `k`; says whether it was absent.
    pub fn insert(&mut self, k: String) -> (fresh: bool)
        requires
            old(self).wf(),
        ensures
            final(self).wf(),
            final(self)@ == old(self)@.insert(k@),
            fresh == !old(self)@.contains(k@),
            fresh ==> final(self).items@ == old(self).items@.push(k),
            !fresh ==> final(self).items@ == old(self).items@,
    {
        let ghost before = *self;
        if self.contains(k.as_str()) {
            assert(self@ =~= before@.insert(k@));
            false
        } else {
            self.items.push(k);
            proof {
                let n = before.items@.len() as int;
                let a = strs(before.items@);
                let b = strs(self.items@);
                assert(b =~= a.push(k@));
                assert(b.no_duplicates());
                assert forall|q: Seq<char>| b.contains(q) <==> (a.contains(q) || q == k@) by {
                    if a.contains(q) {
                        assert(b[a.index_of(q)] == q);
                    }
                    assert(b[n] == k@);
                }
                assert(self@ =~= before@.insert(k@));
            }
            true
        }
    }

    /// Takes `k` out; says whether it was a member.
    pub fn remove(&mut self, k: &str) -> (was: bool)
        requires
            old(self).wf(),
        ensures
            final(self).wf(),
            final(self)@ == old(self)@.remove(k@),
            was == old(self)@.contains(k@),
    {
        let ghost before = *self;
        let mut i: usize = 0;
        while i < self.items.len()
            invariant
                *self == before,
                before == *old(self),
                before.wf(),
                i <= self.items@.len(),
                forall|j: int| 0 <= j < i ==> self.items@[j]@ != k@,
            decreases self.items@.len() - i,
        {
            if same(self.items[i].as_str(), k) {
                let _ = self.items.remove(i);
                proof {
                    let a = strs(before.items@);
                    let b = strs(self.items@);
                    assert(b =~= a.remove(i as int));
                    assert(a[i as int] == k@);
                    assert forall|x: int, y: int| 0 <= x < y < b.len() implies b[x] != b[y] by {
                        let x2 = if x < i {
                            x
                        } else {
                            x + 1
                        };
                        let y2 = if y < i {
                            y
                        } else {
                            y + 1
                        };
                        assert(a[x2] != a[y2]);
                    }
                    assert forall|q: Seq<char>| b.contains(q) <==> (a.contains(q) && q != k@) by {
                        if a.contains(q) && q != k@ {
                            let j = a.index_of(q);
                            let j2 = if j < i {
                                j
                            } else {
                                j - 1
                            };
                            assert(b[j2] == q);
                        }
                        if b.contains(q) {
                            let j = b.index_of(q);
                            let j2 = if j < i {
                                j
                            } else {
                                j + 1
                            };
                            assert(a[j2] == q);
                        }
                    }
                    assert(self@ =~= before@.remove(k@));
                }
                return true;
            }
            i += 1;
        }
        assert(!strs(self.items@).contains(k@));
        assert(self@ =~= before@.remove(k@));
        false
    }

    /// The set of the given texts.
    pub fn from_vec(v: &Vec<String>) -> (s: Self)
        ensures
            s.wf(),
            s@ == strs(v@).to_set(),
    {
        let mut s = StrSet::new();
        let mut i: usize = 0;
        assert(strs(v@.take(0)).to_set() =~= Set::<Seq<char>>::empty());
        while i < v.len()
            invariant
                s.wf(),
                i <= v@.len(),
                s@ == strs(v@.take(i as int)).to_set(),
            decreases v@.len() - i,
        {
            proof {
                let a = strs(v@.take(i as int));
                let b = strs(v@.take(i as int + 1));
                assert(b =~= a.push(v@[i as int]@));
                assert forall|q: Seq<char>| b.contains(q) <==> (a.contains(q) || q == v@[i as int]@) by {
                    if a.contains(q) {
                        assert(b[a.index_of(q)] == q);
                    }
                    assert(b[i as int] == v@[i as int]@);
                }
                assert(b.to_set() =~= a.to_set().insert(v@[i as int]@));
            }
            let _ = s.insert(v[i].clone());
            i += 1;
        }
        assert(v@.take(v@.len() as int) == v@);
        s
    }

    /// The number of members.
    pub fn len(&self) -> (n: usize)
        requires
            self.wf(),
        ensures
            n == self@.len(),
            n == self.items@.len(),
    {
        proof {
            self.lemma_len();
        }
        self.items.len()
    }

    /// The members, each once.
    pub fn to_vec(&self) -> (v: Vec<String>)
        ensures
            strs(v@).to_set() == self@,
            self.wf() ==> strs(v@).no_duplicates(),
            v@ == self.items@,
    {
        crate::text::clone_strings(&self.items)
    }
}

/// A map from numbers to `V`, walked in ascending order of the numbers.
pub struct IdMap<V> {
    /// The entries, ascending by number.
    pub entries: Vec<(u64, V)>,
}

impl<V> View for IdMap<V> {
    type V = Map<u64, V>;

    open spec fn view(&self) -> Map<u64, V> {
        Map::new(
            |k: u64| self.keys().contains(k),
            |k: u64| self.entries@[self.keys().index_of(k)].1,
        )
    }
}

impl<V> IdMap<V> {
    /// The numbers in storage order.
    pub open spec fn keys(&self) -> Seq<u64> {
        Seq::new(self.entries@.len(), |i: int| self.entries@[i].0)
    }

    /// The numbers ascend.
    pub open spec fn wf(&self) -> bool {
        forall|i: int, j: int|
            0 <= i < j < self.entries@.len() ==> (#[trigger] self.entries@[i]).0 < (
            #[trigger] self.entries@[j]).0
    }

    /// The entry at `i` is what the map holds under its number.
    pub proof fn lemma_entry(&self, i: int)
        requires
            self.wf(),
            0 <= i < self.entries@.len(),
        ensures
            self@.contains_key(self.entries@[i].0),
            self@[self.entries@[i].0] == self.entries@[i].1,
    {
        let k = self.entries@[i].0;
        assert(self.keys()[i] == k);
        let j = self.keys().index_of(k);
        assert(self.keys()[j] == k);
        if i < j {
            assert(self.entries@[i].0 < self.entries@[j].0);
        } else if j < i {
            assert(self.entries@[j].0 < self.entries@[i].0);
        }
    }

    /// The position of a number in the map.
    pub proof fn lemma_index(&self, k: u64) -> (i: int)
        requires
            self.wf(),
            self@.contains_key(k),
        ensures
            0 <= i < self.entries@.len(),
            self.entries@[i].0 == k,
            self.entries@[i].1 == self@[k],
    {
        let i = self.keys().index_of(k);
        assert(self.keys()[i] == k);
        i
    }

    /// The number of keys is the number of entries.
    pub proof fn lemma_len(&self)
        requires
            self.wf(),
        ensures
            self@.dom().finite(),
            self@.dom().len() == self.entries@.len(),
            self@.dom() == self.keys().to_set(),
    {
        assert forall|i: int, j: int| 0 <= i < j < self.keys().len() implies self.keys()[i]
            != self.keys()[j] by {
            assert(self.entries@[i].0 < self.entries@[j].0);
        }
        self.keys().unique_seq_to_set();
        assert(self@.dom() =~= self.keys().to_set());
    }

    /// An empty map.
    pub fn new() -> (m: Self)
        ensures
            m.wf(),
            m@ == Map::<u64, V>::empty(),
    {
        let m = IdMap { entries: Vec::new() };
        assert(m@ =~= Map::<u64, V>::empty());
        m
    }

    /// The first position whose number is not below `k`.
    fn position(&self, k: u64) -> (s: usize)
        requires
            self.wf(),
        ensures
            s <= self.entries@.len(),
            forall|i: int| 0 <= i < s ==> (#[trigger] self.entries@[i]).0 < k,
            forall|i: int| s <= i < self.entries@.len() ==> (#[trigger] self.entries@[i]).0 >= k,
            s < self.entries@.len() && self.entries@[s as int].0 == k ==> self@.contains_key(k)
                && self@[k] == self.entries@[s as int].1,
            s == self.entries@.len() || self.entries@[s as int].0 != k ==> !self@.contains_key(k),
    {
        let mut s: usize = 0;
        while s < self.entries.len() && self.entries[s].0 < k
            invariant
                s <= self.entries@.len(),
                forall|i: int| 0 <= i < s ==> (#[trigger] self.entries@[i]).0 < k,
            decreases self.entries@.len() - s,
        {
            s += 1;
        }
        proof {
            assert forall|i: int| s <= i < self.entries@.len() implies (
            #[trigger] self.entries@[i]).0 >= k by {
                if s < i {
                    assert(self.entries@[s as int].0 < self.entries@[i].0);
                }
            }
            if s < self.entries@.len() && self.entries@[s as int].0 == k {
                self.lemma_entry(s as int);
            } else if self@.contains_key(k) {
                let i = self.lemma_index(k);
                if i > s {
                    assert(self.entries@[s as int].0 < self.entries@[i].0);
                }
            }
        }
        s
    }

    /// Whether `k` is a key.
    pub fn contains_key(&self, k: u64) -> (r: bool)
        requires
            self.wf(),
        ensures
            r == self@.contains_key(k),
    {
        let s: usize = self.position(k);
        s < self.entries.len() && self.entries[s].0 == k
    }

    /// The value under `k`.
    pub fn get(&self, k: u64) -> (r: Option<&V>)
        requires
            self.wf(),
        ensures
            match r {
                Some(v) => self@.contains_key(k) && *v == self@[k],
                None => !self@.contains_key(k),
            },
    {
        let s: usize = self.position(k);
        if s < self.entries.len() && self.entries[s].0 == k {
            Some(&self.entries[s].1)
        } else {
            None
        }
    }

    /// The value under `k`, for changing it in place.
    pub fn get_mut(&mut self, k: u64) -> (r: Option<&mut V>)
        requires
            old(self).wf(),
        ensures
            final(self).wf(),
            match r {
                Some(v) => old(self)@.contains_key(k) && *v == old(self)@[k] && final(self)@ == old(self)@.insert(k, *final(v)),
                None => !old(self)@.contains_key(k) && *final(self) == *old(self),
            },
    {
        let s: usize = self.position(k);
        if s < self.entries.len() && self.entries[s].0 == k {
            let ghost before = *self;
            let r = &mut self.entries[s].1;
            proof {
                let after = IdMap { entries: after_borrow(self).entries };
                assert(after.keys() =~= before.keys());
                assert(after.wf()) by {
                    assert forall|i: int, j: int| 0 <= i < j < after.entries@.len() implies (
                    #[trigger] after.entries@[i]).0 < (#[trigger] after.entries@[j]).0 by {
                        assert(before.entries@[i].0 < before.entries@[j].0);
                    }
                }
                assert forall|q: u64| after@.contains_key(q) implies after@[q] == before@.insert(
                    k,
                    *final(r),
                )[q] by {
                    let j = after.lemma_index(q);
                    before.lemma_entry(j);
                    after.lemma_entry(j);
                    if j != s {
                        if j < s {
                            assert(before.entries@[j].0 < before.entries@[s as int].0);
                        } else {
                            assert(before.entries@[s as int].0 < before.entries@[j].0);
                        }
                    }
                }
                assert(after@ =~= before@.insert(k, *final(r)));
            }
            Some(r)
        } else {
            None
        }
    }

    /// Puts `v` under `k` and returns what was there.
    pub fn insert(&mut self, k: u64, v: V) -> (r: Option<V>)
        requires
            old(self).wf(),
        ensures
            final(self).wf(),
            final(self)@ == old(self)@.insert(k, v),
            match r {
                Some(w) => old(self)@.contains_key(k) && w == old(self)@[k],
                None => !old(self)@.contains_key(k),
            },
    {
        let ghost before = *self;
        let s: usize = self.position(k);
        if s < self.entries.len() && self.entries[s].0 == k {
            let mut w = v;
            std::mem::swap(&mut w, &mut self.entries[s].1);
            proof {
                assert(self.wf()) by {
                    assert forall|i: int, j: int| 0 <= i < j < self.entries@.len() implies (
                    #[trigger] self.entries@[i]).0 < (#[trigger] self.entries@[j]).0 by {
                        assert(before.entries@[i].0 < before.entries@[j].0);
                    }
                }
                assert(self.keys() =~= before.keys());
                assert forall|q: u64| self@.contains_key(q) implies self@[q] == before@.insert(
                    k,
                    v,
                )[q] by {
                    let j = self.lemma_index(q);
                    before.lemma_entry(j);
                    self.lemma_entry(j);
                    if j != s {
                        if j < s {
                            assert(before.entries@[j].0 < before.entries@[s as int].0);
                        } else {
                            assert(before.entries@[s as int].0 < before.entries@[j].0);
                        }
                    }
                }
                assert(self@ =~= before@.insert(k, v));
            }
            Some(w)
        } else {
            self.entries.insert(s, (k, v));
            proof {
                let p = before.entries@;
                let q = self.entries@;
                assert(q =~= p.insert(s as int, (k, v)));
                assert forall|i: int, j: int| 0 <= i < j < q.len() implies (#[trigger] q[i]).0 < (
                #[trigger] q[j]).0 by {
                    let i2 = if i < s {
                        i
                    } else {
                        i - 1
                    };
                    let j2 = if j < s {
                        j
                    } else {
                        j - 1
                    };
                    if i == s {
                        assert(p[j2].0 >= k);
                        if j2 > s {
                            assert(p[s as int].0 < p[j2].0);
                        }
                    } else if j == s {
                        assert(p[i2].0 < k);
                    } else {
                        assert(p[i2].0 < p[j2].0);
                    }
                }
                assert forall|x: u64|
                    self@.contains_key(x) <==> (before@.contains_key(x) || x == k) by {
                    if self@.contains_key(x) {
                        let i = self.lemma_index(x);
                        if i < s {
                            before.lemma_entry(i);
                        } else if i > s {
                            before.lemma_entry(i - 1);
                        }
                    }
                    if before@.contains_key(x) {
                        let i = before.lemma_index(x);
                        if i < s {
                            self.lemma_entry(i);
                        } else {
                            self.lemma_entry(i + 1);
                        }
                    }
                    self.lemma_entry(s as int);
                }
                assert forall|x: u64| self@.contains_key(x) implies self@[x] == before@.insert(
                    k,
                    v,
                )[x] by {
                    let i = self.lemma_index(x);
                    if i < s {
                        before.lemma_entry(i);
                        assert(q[i].0 < q[s as int].0);
                    } else if i > s {
                        before.lemma_entry(i - 1);
                        assert(q[s as int].0 < q[i].0);
                    }
                }
                assert(self@ =~= before@.insert(k, v));
            }
            None
        }
    }

    /// Takes the value under `k` out.
    pub fn remove(&mut self, k: u64) -> (r: Option<V>)
        requires
            old(self).wf(),
        ensures
            final(self).wf(),
            final(self)@ == old(self)@.remove(k),
            match r {
                Some(w) => old(self)@.contains_key(k) && w == old(self)@[k],
                None => !old(self)@.contains_key(k),
            },
    {
        let ghost before = *self;
        let s: usize = self.position(k);
        if s < self.entries.len() && self.entries[s].0 == k {
            let e = self.entries.remove(s);
            proof {
                let p = before.entries@;
                let q = self.entries@;
                assert(q =~= p.remove(s as int));
                assert forall|i: int, j: int| 0 <= i < j < q.len() implies (#[trigger] q[i]).0 < (
                #[trigger] q[j]).0 by {
                    let i2 = if i < s {
                        i
                    } else {
                        i + 1
                    };
                    let j2 = if j < s {
                        j
                    } else {
                        j + 1
                    };
                    assert(p[i2].0 < p[j2].0);
                }
                assert forall|x: u64|
                    self@.contains_key(x) <==> (before@.contains_key(x) && x != k) by {
                    if self@.contains_key(x) {
                        let i = self.lemma_index(x);
                        if i < s {
                            before.lemma_entry(i);
                            assert(p[i].0 < p[s as int].0);
                        } else {
                            before.lemma_entry(i + 1);
                            assert(p[s as int].0 < p[i + 1].0);
                        }
                    }
                    if before@.contains_key(x) && x != k {
                        let i = before.lemma_index(x);
                        if i < s {
                            self.lemma_entry(i);
                        } else {
                            self.lemma_entry(i - 1);
                        }
                    }
                }
                assert forall|x: u64| self@.contains_key(x) implies self@[x] == before@.remove(
                    k,
                )[x] by {
                    let i = self.lemma_index(x);
                    if i < s {
                        before.lemma_entry(i);
                    } else {
                        before.lemma_entry(i + 1);
                    }
                }
                assert(self@ =~= before@.remove(k));
            }
            Some(e.1)
        } else {
            assert(self@ =~= before@.remove(k));
            None
        }
    }
}

} // verus!
