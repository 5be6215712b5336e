//! Cluster roster: which remote actors exist, which of them serve a key, and
//! how a send to one of them is retried.

use crate::collections::StrMap;
use crate::consistency::ConsistencyError;
use crate::error::{IoError, IoErrorKind};
use crate::hash_ring::{
    hash_key, host_port, key_hash, with_vnodes, without_vnodes, HashRing, RingNode,
};
use crate::text::{
    chars_of, concat2, lemma_text_le_total, lemma_text_le_transitive, same, strs, text_le,
    text_not_after,
};
use crate::time::Duration;
use vstd::prelude::*;

verus! {

/// Whether `s` starts with `p`.
pub open spec fn starts_with(s: Seq<char>, p: Seq<char>) -> bool {
    p.len() <= s.len() && s.take(p.len() as int) == p
}

/// Whether `s` starts with `p`.
pub fn has_prefix(s: &str, p: &str) -> (r: bool)
    ensures
        r == starts_with(s@, p@),
{
    let a = chars_of(s);
    let b = chars_of(p);
    if b.len() > a.len() {
        return false;
    }
    let mut i: usize = 0;
    while i < b.len()
        invariant
            a@ == s@,
            b@ == p@,
            i <= b@.len() <= a@.len(),
            forall|j: int| 0 <= j < i ==> a@[j] == b@[j],
        decreases b@.len() - i,
    {
        if a[i] != b[i] {
            assert(s@.take(p@.len() as int)[i as int] != p@[i as int]);
            return false;
        }
        i += 1;
    }
    assert(s@.take(p@.len() as int) =~= p@);
    true
}

/// The endpoint text for an address.
pub open spec fn data_endpoint(addr: Seq<char>, tls: bool) -> Seq<char> {
    if starts_with(addr, "http://"@) || starts_with(addr, "https://"@) {
        addr
    } else if tls {
        "https://"@ + addr
    } else {
        "http://"@ + addr
    }
}

/// HTTP(S) endpoint for an address; an address that names its scheme stays.
pub fn grpc_data_endpoint(addr: &str, tls: bool) -> (s: String)
    ensures
        s@ == data_endpoint(addr@, tls),
{
    if has_prefix(addr, "http://") || has_prefix(addr, "https://") {
        addr.to_string()
    } else if tls {
        concat2("https://", addr)
    } else {
        concat2("http://", addr)
    }
}

/// A node in a cluster roster.
#[derive(Debug, PartialEq, Eq)]
pub struct ClusterMember {
    pub name: String,
    pub node_addr: String,
    pub target: String,
    /// Datacenter tag; `None` is treated as the local datacenter.
    pub dc: Option<String>,
}

impl Clone for ClusterMember {
    fn clone(&self) -> (r: Self)
        ensures
            r == *self,
    {
        let dc: Option<String> = match &self.dc {
            Some(d) => Some(d.clone()),
            None => None,
        };
        ClusterMember {
            name: self.name.clone(),
            node_addr: self.node_addr.clone(),
            target: self.target.clone(),
            dc,
        }
    }
}

impl ClusterMember {
    /// A member without a datacenter tag.
    pub fn new(name: &str, node_addr: &str, target: &str) -> (m: Self)
        ensures
            m.name@ == name@,
            m.node_addr@ == node_addr@,
            m.target@ == target@,
            m.dc is None,
    {
        ClusterMember {
            name: name.to_string(),
            node_addr: node_addr.to_string(),
            target: target.to_string(),
            dc: None,
        }
    }

    /// The member, tagged with a datacenter.
    pub fn with_dc(self, dc: &str) -> (m: Self)
        ensures
            m.name == self.name,
            m.node_addr == self.node_addr,
            m.target == self.target,
            m.dc matches Some(d) && d@ == dc@,
    {
        ClusterMember {
            name: self.name,
            node_addr: self.node_addr,
            target: self.target,
            dc: Some(dc.to_string()),
        }
    }

    /// A reference to the member's actor.
    pub fn remote_ref(&self) -> (r: RemoteActorRef)
        ensures
            r.node_addr == self.node_addr,
            r.target == self.target,
    {
        RemoteActorRef { node_addr: self.node_addr.clone(), target: self.target.clone() }
    }

    /// The member as a ring node; its address has to be `host:port`.
    pub fn ring_node(&self) -> (n: RingNode)
        requires
            host_port(self.node_addr@) is Some,
        ensures
            n.id@ == self.name@,
            host_port(self.node_addr@) == Some((n.host@, n.port)),
    {
        RingNode::from_socket_addr(self.name.as_str(), self.node_addr.as_str())
    }

    /// The datacenter that the member counts for.
    pub open spec fn effective_dc(&self, local_dc: Seq<char>) -> Seq<char> {
        match self.dc {
            None => local_dc,
            Some(d) => d@,
        }
    }

    /// Whether the member counts as local.
    pub open spec fn is_local(&self, local_dc: Seq<char>) -> bool {
        match self.dc {
            None => true,
            Some(d) => d@ == local_dc,
        }
    }

    /// Whether the member is tagged with `dc`.
    pub open spec fn tagged(&self, dc: Seq<char>) -> bool {
        match self.dc {
            None => false,
            Some(d) => d@ == dc,
        }
    }
}

/// Reference to an actor on a remote node.
#[derive(Debug, PartialEq, Eq)]
pub struct RemoteActorRef {
    pub node_addr: String,
    pub target: String,
}

impl RemoteActorRef {
    /// A reference to `target` at `node_addr`.
    pub fn new(node_addr: &str, target: &str) -> (r: Self)
        ensures
            r.node_addr@ == node_addr@,
            r.target@ == target@,
    {
        RemoteActorRef { node_addr: node_addr.to_string(), target: target.to_string() }
    }

    /// The name of the actor on its node.
    pub fn target(&self) -> (s: &str)
        ensures
            s@ == self.target@,
    {
        self.target.as_str()
    }
}

/// The datacenter that `member` counts for.
pub fn member_effective_dc<'a>(member: &'a ClusterMember, local_dc: &'a str) -> (s: &'a str)
    ensures
        s@ == member.effective_dc(local_dc@),
{
    match &member.dc {
        None => local_dc,
        Some(dc) => dc.as_str(),
    }
}

/// Whether `member` counts as local.
pub fn member_is_local_dc(member: &ClusterMember, local_dc: &str) -> (r: bool)
    ensures
        r == member.is_local(local_dc@),
{
    match &member.dc {
        None => true,
        Some(dc) => same(dc.as_str(), local_dc),
    }
}

/// The first `n` elements, or all of them where there are fewer.
pub open spec fn at_most<A>(s: Seq<A>, n: nat) -> Seq<A> {
    if s.len() <= n {
        s
    } else {
        s.take(n as int)
    }
}

/// Filtering a longer prefix only adds at the end.
pub proof fn lemma_filter_prefix<A>(s: Seq<A>, pred: spec_fn(A) -> bool, n: int)
    requires
        0 <= n <= s.len(),
    ensures
        s.take(n).filter(pred).len() <= s.filter(pred).len(),
        s.filter(pred).take(s.take(n).filter(pred).len() as int) == s.take(n).filter(pred),
    decreases s.len(),
{
    reveal(Seq::filter);
    if n < s.len() {
        lemma_filter_prefix(s.drop_last(), pred, n);
        assert(s.drop_last().take(n) == s.take(n));
        let k = s.take(n).filter(pred).len() as int;
        assert(s.filter(pred).take(k) =~= s.drop_last().filter(pred).take(k));
    } else {
        assert(s.take(n) == s);
        assert(s.filter(pred).take(s.filter(pred).len() as int) == s.filter(pred));
    }
}

/// Filtering one more element.
pub proof fn lemma_filter_step<A>(s: Seq<A>, pred: spec_fn(A) -> bool, n: int)
    requires
        0 <= n < s.len(),
    ensures
        s.take(n + 1).filter(pred) == (if pred(s[n]) {
            s.take(n).filter(pred).push(s[n])
        } else {
            s.take(n).filter(pred)
        }),
{
    reveal(Seq::filter);
    assert(s.take(n + 1).drop_last() == s.take(n));
    assert(s.take(n + 1).last() == s[n]);
}

/// The numbers `0..n`.
pub open spec fn upto(n: nat) -> Seq<int> {
    Seq::new(n, |i: int| i)
}

/// Roster of remote actors, dispatched by hash ring or round-robin.
pub struct Cluster {
    pub members: Vec<ClusterMember>,
    /// One reference per member, at the same index.
    pub refs: Vec<RemoteActorRef>,
    /// The index of the member that answers for a name.
    pub refs_by_id: StrMap<usize>,
    pub ring: HashRing,
    /// Round-robin counter.
    pub next: usize,
}

/// A reference was given in turn: the turn moves on by one and nothing else
/// changes.
pub open spec fn took_turn(before: Cluster, given: RemoteActorRef, after: Cluster) -> bool {
    &&& before.refs@.len() > 0
    &&& given == before.refs@[(before.next as int) % (before.refs@.len() as int)]
    &&& after == (Cluster {
        next: if before.next == usize::MAX {
            0
        } else {
            (before.next + 1) as usize
        },
        ..before
    })
}

/// A member joined: it stands behind the others and on the ring.
pub open spec fn joined_by(before: Cluster, member: ClusterMember, after: Cluster) -> bool {
    &&& after.members@ == before.members@.push(member)
    &&& after.next == before.next
    &&& after.ring.virtual_nodes == before.ring.virtual_nodes
    &&& after.refs_by_id@ == before.refs_by_id@.insert(
        member.name@,
        before.members@.len() as usize,
    )
    &&& after.ring.nodes@ == before.ring.nodes@.insert(
        member.name@,
        after.ring.nodes@[member.name@],
    )
    &&& after.ring.nodes@[member.name@].id@ == member.name@
    &&& host_port(member.node_addr@) == Some(
        (
            after.ring.nodes@[member.name@].host@,
            after.ring.nodes@[member.name@].port,
        ),
    )
    &&& after.ring.occupied() == with_vnodes(
        before.ring.occupied(),
        member.name@,
        before.ring.virtual_nodes as nat,
    )
    &&& before.unique() && !before.has_member(member.name@) ==> after.unique()
        && after.roster() == before.roster().insert(member.name@, member)
}

/// A member left, if it was there: the last one takes its place, and its
/// positions on the ring are free.
pub open spec fn left_by(
    before: Cluster,
    node_id: Seq<char>,
    after: Cluster,
    r: Option<ClusterMember>,
) -> bool {
    &&& after.next == before.next
    &&& after.ring.virtual_nodes == before.ring.virtual_nodes
    &&& match r {
        Some(m) => {
            let i = before.refs_by_id@[node_id] as int;
            &&& before.ring.nodes@.contains_key(node_id)
            &&& before.refs_by_id@.contains_key(node_id)
            &&& 0 <= i < before.members@.len()
            &&& m == before.members@[i]
            &&& m.name@ == node_id
            &&& after.members@ == before.members@.update(
                i,
                before.members@.last(),
            ).drop_last()
            &&& after.refs_by_id@ == (if i < before.members@.len() - 1 {
                before.refs_by_id@.remove(node_id).insert(
                    before.members@.last().name@,
                    i as usize,
                )
            } else {
                before.refs_by_id@.remove(node_id)
            })
            &&& after.ring.nodes@ == before.ring.nodes@.remove(node_id)
            &&& after.ring.occupied() == without_vnodes(
                before.ring.occupied(),
                node_id,
                before.ring.virtual_nodes as nat,
            )
        },
        None => !before.ring.nodes@.contains_key(node_id) && after == before,
    }
    &&& before.unique() ==> after.unique()
    &&& before.unique() ==> (r is Some <==> before.has_member(node_id))
    &&& before.unique() && r is Some ==> !after.has_member(node_id) && after.roster()
        == before.roster().remove(node_id)
}

impl Cluster {
    /// References run parallel to members, every indexed name leads to a
    /// member of that name, and every ring node is indexed.
    pub open spec fn wf(&self) -> bool {
        &&& self.refs_by_id.wf()
        &&& self.ring.wf()
        &&& self.members@.len() == self.refs@.len()
        &&& forall|i: int|
            #![trigger self.members@[i]]
            #![trigger self.refs@[i]]
            0 <= i < self.members@.len() ==> self.refs@[i].node_addr == self.members@[i].node_addr
                && self.refs@[i].target == self.members@[i].target
        &&& forall|id: Seq<char>|
            self.refs_by_id@.contains_key(id) ==> (#[trigger] self.refs_by_id@[id])
                < self.members@.len() && self.members@[self.refs_by_id@[id] as int].name@ == id
        &&& forall|id: Seq<char>| #[trigger]
            self.ring.nodes@.contains_key(id) ==> self.refs_by_id@.contains_key(id)
    }

    /// No two members share a name, and names, index and ring agree.
    pub open spec fn unique(&self) -> bool {
        &&& forall|i: int, j: int|
            0 <= i < j < self.members@.len() ==> (#[trigger] self.members@[i]).name@ != (
            #[trigger] self.members@[j]).name@
        &&& forall|i: int|
            0 <= i < self.members@.len() ==> self.refs_by_id@.contains_key(
                (#[trigger] self.members@[i]).name@,
            ) && self.ring.nodes@.contains_key(self.members@[i].name@)
        &&& forall|id: Seq<char>| #[trigger]
            self.refs_by_id@.contains_key(id) ==> self.ring.nodes@.contains_key(id)
    }

    /// Whether a member has this name.
    pub open spec fn has_member(&self, name: Seq<char>) -> bool {
        exists|i: int| 0 <= i < self.members@.len() && (#[trigger] self.members@[i]).name@ == name
    }

    /// The members that answer for their names.
    pub open spec fn roster(&self) -> Map<Seq<char>, ClusterMember> {
        Map::new(
            |id: Seq<char>| self.refs_by_id@.contains_key(id),
            |id: Seq<char>| self.members@[self.refs_by_id@[id] as int],
        )
    }

    /// The members in their order, once the one that answers for a name left:
    /// the last one takes its place.
    pub open spec fn order_without(&self, name: Seq<char>) -> Seq<ClusterMember> {
        if self.refs_by_id@.contains_key(name) {
            self.members@.update(
                self.refs_by_id@[name] as int,
                self.members@.last(),
            ).drop_last()
        } else {
            self.members@
        }
    }

    /// Without shared names, every member answers for its name.
    pub proof fn lemma_roster(&self)
        requires
            self.wf(),
            self.unique(),
        ensures
            forall|id: Seq<char>| self.roster().contains_key(id) <==> self.has_member(id),
            forall|i: int|
                0 <= i < self.members@.len() ==> self.roster().contains_key(
                    (#[trigger] self.members@[i]).name@,
                ) && self.roster()[self.members@[i].name@] == self.members@[i]
                    && self.refs_by_id@[self.members@[i].name@] == i,
            self.roster().dom().finite(),
            self.roster().dom().len() == self.members@.len(),
            forall|id: Seq<char>|
                self.roster().contains_key(id) ==> (#[trigger] self.roster()[id]).name@ == id,
    {
        assert forall|i: int| 0 <= i < self.members@.len() implies self.roster().contains_key(
            (#[trigger] self.members@[i]).name@,
        ) && self.roster()[self.members@[i].name@] == self.members@[i]
            && self.refs_by_id@[self.members@[i].name@] == i by {
            let name = self.members@[i].name@;
            assert(self.refs_by_id@.contains_key(name));
            let j = self.refs_by_id@[name] as int;
            assert(self.members@[j].name@ == name);
            if i < j {
                assert(self.members@[i].name@ != self.members@[j].name@);
            } else if j < i {
                assert(self.members@[j].name@ != self.members@[i].name@);
            }
        }
        assert forall|id: Seq<char>| self.roster().contains_key(id) <==> self.has_member(id) by {
            if self.roster().contains_key(id) {
                let j = self.refs_by_id@[id] as int;
                assert(self.members@[j].name@ == id);
            }
            if self.has_member(id) {
                let i = choose|i: int|
                    0 <= i < self.members@.len() && (#[trigger] self.members@[i]).name@ == id;
                assert(self.roster().contains_key(self.members@[i].name@));
            }
        }
        let names = Seq::new(self.members@.len(), |i: int| self.members@[i].name@);
        assert forall|i: int, j: int| 0 <= i < j < names.len() implies names[i] != names[j] by {
            assert(self.members@[i].name@ != self.members@[j].name@);
        }
        names.unique_seq_to_set();
        assert forall|id: Seq<char>| names.to_set().contains(id) <==> self.roster().contains_key(
            id,
        ) by {
            if names.contains(id) {
                let i = names.index_of(id);
                assert(self.members@[i].name@ == id);
            }
            if self.roster().contains_key(id) {
                let j = self.refs_by_id@[id] as int;
                assert(names[j] == id);
            }
        }
        assert(names.to_set() =~= self.roster().dom());
        assert forall|id: Seq<char>| self.roster().contains_key(id) implies (
        #[trigger] self.roster()[id]).name@ == id by {
            assert(self.refs_by_id@[id] < self.members@.len());
        }
    }

    /// The member indices for a position in order of preference.
    pub open spec fn ranked_at(&self, h: u64) -> Seq<int> {
        Seq::new(
            self.ring.preference_at(h).len(),
            |i: int| self.refs_by_id@[self.ring.preference_at(h)[i]] as int,
        )
    }

    /// The member indices for a key in order of preference.
    pub open spec fn ranked(&self, key: Seq<char>) -> Seq<int> {
        self.ranked_at(key_hash(key))
    }

    /// Preferred indices are member indices, each at most once.
    pub proof fn lemma_ranked(&self, h: u64)
        requires
            self.wf(),
        ensures
            self.ranked_at(h).no_duplicates(),
            self.ranked_at(h).len() <= self.members@.len(),
            forall|i: int|
                0 <= i < self.ranked_at(h).len() ==> 0 <= #[trigger] self.ranked_at(h)[i]
                    < self.members@.len() && self.refs_by_id@.contains_key(
                    self.ring.preference_at(h)[i],
                ) && self.members@[self.ranked_at(h)[i]].name@ == self.ring.preference_at(h)[i],
    {
        self.ring.law_preference(h);
        let p = self.ring.preference_at(h);
        let r = self.ranked_at(h);
        assert forall|i: int| 0 <= i < r.len() implies 0 <= #[trigger] r[i] < self.members@.len()
            && self.refs_by_id@.contains_key(p[i]) && self.members@[r[i]].name@ == p[i] by {
            assert(self.ring.nodes@.contains_key(p[i]));
        }
        assert forall|i: int, j: int| 0 <= i < r.len() && 0 <= j < r.len() && i != j implies r[i]
            != r[j] by {
            assert(p[i] != p[j]);
            assert(self.members@[r[i]].name@ == p[i]);
            assert(self.members@[r[j]].name@ == p[j]);
        }
        r.unique_seq_to_set();
        let all = vstd::set_lib::set_int_range(0, self.members@.len() as int);
        vstd::set_lib::lemma_int_range(0, self.members@.len() as int);
        assert(r.to_set().subset_of(all));
        vstd::set_lib::lemma_len_subset(r.to_set(), all);
    }

    /// An empty roster with the usual number of virtual nodes.
    pub fn new() -> (c: Self)
        ensures
            c.wf(),
            c.unique(),
            c.members@.len() == 0,
            c.ring.virtual_nodes == 150,
            c.ring.occupied() == Map::<u64, Seq<char>>::empty(),
            c.next == 0,
    {
        Self::with_virtual_nodes(150)
    }

    /// An empty roster.
    pub fn with_virtual_nodes(virtual_nodes: u32) -> (c: Self)
        ensures
            c.wf(),
            c.unique(),
            c.members@.len() == 0,
            c.ring.virtual_nodes == virtual_nodes,
            c.ring.occupied() == Map::<u64, Seq<char>>::empty(),
            c.next == 0,
    {
        let c = Cluster {
            members: Vec::new(),
            refs: Vec::new(),
            refs_by_id: StrMap::new(),
            ring: HashRing::new(virtual_nodes),
            next: 0,
        };
        assert(c.ring.occupied() =~= Map::<u64, Seq<char>>::empty());
        c
    }

    /// The number of members.
    pub fn len(&self) -> (n: usize)
        requires
            self.wf(),
        ensures
            n == self.members@.len(),
    {
        self.refs.len()
    }

    /// Whether there are no members.
    pub fn is_empty(&self) -> (r: bool)
        requires
            self.wf(),
        ensures
            r == (self.members@.len() == 0),
    {
        self.refs.len() == 0
    }

    /// The members in roster order.
    pub fn members(&self) -> (r: &Vec<ClusterMember>)
        ensures
            *r == self.members,
    {
        &self.members
    }

    /// The ring over the members.
    pub fn ring(&self) -> (r: &HashRing)
        ensures
            *r == self.ring,
    {
        &self.ring
    }

    /// Adds a remote node to the roster and the hash ring.
    pub fn join(&mut self, member: ClusterMember)
        requires
            old(self).wf(),
            host_port(member.node_addr@) is Some,
        ensures
            final(self).wf(),
            joined_by(*old(self), member, *final(self)),
    {
        let ghost was = *self;
        let idx: usize = self.refs.len();
        self.ring.add_node(member.ring_node());
        let _ = self.refs_by_id.insert(member.name.clone(), idx);
        self.refs.push(member.remote_ref());
        self.members.push(member);
        proof {
            assert(self.ring.nodes@ =~= was.ring.nodes@.insert(
                member.name@,
                self.ring.nodes@[member.name@],
            ));
            assert forall|id: Seq<char>| self.refs_by_id@.contains_key(id) implies (
            #[trigger] self.refs_by_id@[id]) < self.members@.len()
                && self.members@[self.refs_by_id@[id] as int].name@ == id by {
                if id != member.name@ {
                    assert(was.refs_by_id@[id] < was.members@.len());
                    assert(self.members@[was.refs_by_id@[id] as int]
                        == was.members@[was.refs_by_id@[id] as int]);
                }
            }
            assert forall|i: int|
                #![trigger self.members@[i]]
                #![trigger self.refs@[i]]
                0 <= i < self.members@.len() implies self.refs@[i].node_addr
                == self.members@[i].node_addr && self.refs@[i].target == self.members@[i].target by {
                if i < was.members@.len() {
                    assert(was.refs@[i].node_addr == was.members@[i].node_addr);
                }
            }
            if was.unique() && !was.has_member(member.name@) {
                assert forall|i: int, j: int| 0 <= i < j < self.members@.len() implies (
                #[trigger] self.members@[i]).name@ != (#[trigger] self.members@[j]).name@ by {
                    assert(was.members@[i].name@ != member.name@);
                    if j < was.members@.len() {
                        assert(was.members@[i].name@ != was.members@[j].name@);
                    }
                }
                assert forall|i: int|
                    0 <= i < self.members@.len() implies self.refs_by_id@.contains_key(
                    (#[trigger] self.members@[i]).name@,
                ) && self.ring.nodes@.contains_key(self.members@[i].name@) by {
                    if i < was.members@.len() {
                        assert(was.refs_by_id@.contains_key(was.members@[i].name@));
                    }
                }
                assert forall|id: Seq<char>| self.roster().contains_key(id) implies self.roster()[id]
                    == was.roster().insert(member.name@, member)[id] by {
                    if id != member.name@ {
                        assert(was.refs_by_id@[id] < was.members@.len());
                    }
                }
                assert(self.roster() =~= was.roster().insert(member.name@, member));
            }
        }
    }

    /// Removes a node from the roster and the hash ring. The last member takes
    /// its place in the roster.
    pub fn leave(&mut self, node_id: &str) -> (r: Option<ClusterMember>)
        requires
            old(self).wf(),
        ensures
            final(self).wf(),
            left_by(*old(self), node_id@, *final(self), r),
    {
        let ghost was = *self;
        proof {
            if self.unique() {
                self.lemma_roster();
            }
        }
        match self.ring.remove_node(node_id) {
            None => {
                return None;
            },
            Some(_) => {},
        }
        match self.refs_by_id.remove(node_id) {
            None => {
                assert(false);
                None
            },
            Some(idx) => {
                assert(was.refs_by_id@[node_id@] == idx);
                let _ = self.refs.swap_remove(idx);
                let member = self.members.swap_remove(idx);
                let ghost n = self.members@.len() as int;
                assert(self.members@ =~= was.members@.update(
                    idx as int,
                    was.members@.last(),
                ).drop_last());
                if idx < self.members.len() {
                    let _ = self.refs_by_id.insert(self.members[idx].name.clone(), idx);
                    assert(self.members@[idx as int] == was.members@[n]);
                }
                proof {
                    assert forall|i: int|
                        #![trigger self.members@[i]]
                        #![trigger self.refs@[i]]
                        0 <= i < n implies self.refs@[i].node_addr == self.members@[i].node_addr
                        && self.refs@[i].target == self.members@[i].target by {
                        let k = if i == idx {
                            n
                        } else {
                            i
                        };
                        assert(was.refs@[k].node_addr == was.members@[k].node_addr);
                        assert(self.members@[i] == was.members@[k]);
                        assert(self.refs@[i] == was.refs@[k]);
                    }
                    assert forall|id: Seq<char>| self.refs_by_id@.contains_key(id) implies (
                    #[trigger] self.refs_by_id@[id]) < n
                        && self.members@[self.refs_by_id@[id] as int].name@ == id by {
                        if idx < n && id == self.members@[idx as int].name@ {
                        } else {
                            let k = was.refs_by_id@[id] as int;
                            assert(was.members@[k].name@ == id);
                            if k == idx {
                                assert(id == node_id@);
                            }
                            if k == n && idx < n {
                                assert(was.members@[n].name@ == id);
                            }
                        }
                    }
                    assert forall|id: Seq<char>| #[trigger]
                        self.ring.nodes@.contains_key(id) implies self.refs_by_id@.contains_key(
                        id,
                    ) by {
                        assert(was.ring.nodes@.contains_key(id));
                    }
                    if was.unique() {
                        self.lemma_leave_unique(was, node_id@, idx as int);
                    }
                }
                Some(member)
            },
        }
    }

    /// Leaving keeps names, index and ring in agreement.
    proof fn lemma_leave_unique(self, was: Cluster, node_id: Seq<char>, idx: int)
        requires
            was.wf(),
            was.unique(),
            was.refs_by_id@.contains_key(node_id),
            was.ring.nodes@.contains_key(node_id),
            idx == was.refs_by_id@[node_id],
            self.members@ == was.members@.update(idx, was.members@.last()).drop_last(),
            self.ring.nodes@ == was.ring.nodes@.remove(node_id),
            self.refs_by_id@ == (if idx < was.members@.len() - 1 {
                was.refs_by_id@.remove(node_id).insert(was.members@.last().name@, idx as usize)
            } else {
                was.refs_by_id@.remove(node_id)
            }),
        ensures
            self.unique(),
            !self.has_member(node_id),
            self.roster() == was.roster().remove(node_id),
    {
        was.lemma_roster();
        let n = self.members@.len() as int;
        assert(was.members@[idx].name@ == node_id);
        assert forall|i: int| 0 <= i < n implies (#[trigger] self.members@[i]).name@ != node_id && (
        self.members@[i] == was.members@[if i == idx {
            n
        } else {
            i
        }]) by {
            if i == idx {
                assert(was.members@[idx].name@ != was.members@[n].name@);
            } else if i < idx {
                assert(was.members@[i].name@ != was.members@[idx].name@);
            } else {
                assert(was.members@[idx].name@ != was.members@[i].name@);
            }
        }
        assert forall|i: int, j: int| 0 <= i < j < n implies (#[trigger] self.members@[i]).name@ != (
        #[trigger] self.members@[j]).name@ by {
            let a = if i == idx {
                n
            } else {
                i
            };
            let b = if j == idx {
                n
            } else {
                j
            };
            if a < b {
                assert(was.members@[a].name@ != was.members@[b].name@);
            } else {
                assert(was.members@[b].name@ != was.members@[a].name@);
            }
        }
        assert forall|i: int| 0 <= i < n implies self.refs_by_id@.contains_key(
            (#[trigger] self.members@[i]).name@,
        ) && self.ring.nodes@.contains_key(self.members@[i].name@) by {
            let k = if i == idx {
                n
            } else {
                i
            };
            assert(was.refs_by_id@.contains_key(was.members@[k].name@));
        }
        assert(self.refs_by_id@.dom() =~= was.refs_by_id@.dom().remove(node_id)) by {
            if idx < n {
                assert(was.refs_by_id@.contains_key(was.members@[n].name@));
                assert(self.members@[idx].name@ != node_id);
            }
        }
        assert forall|id: Seq<char>| self.roster().contains_key(id) implies self.roster()[id]
            == was.roster().remove(node_id)[id] by {
            if idx < n && id == was.members@[n].name@ {
                assert(self.roster()[id] == self.members@[idx]);
            } else {
                let k = was.refs_by_id@[id] as int;
                assert(was.members@[k].name@ == id);
                assert(self.refs_by_id@[id] == k);
                assert(self.members@[k] == was.members@[k]);
            }
        }
        assert(self.roster() =~= was.roster().remove(node_id));
    }

    /// The first member with the given name.
    fn first_named(&self, name: &str) -> (r: Option<&ClusterMember>)
        ensures
            match r {
                Some(m) => exists|i: int|
                    0 <= i < self.members@.len() && *m == #[trigger] self.members@[i] && m.name@
                        == name@ && forall|j: int|
                        0 <= j < i ==> (#[trigger] self.members@[j]).name@ != name@,
                None => !self.has_member(name@),
            },
    {
        let mut i: usize = 0;
        while i < self.members.len()
            invariant
                i <= self.members@.len(),
                forall|j: int| 0 <= j < i ==> (#[trigger] self.members@[j]).name@ != name@,
            decreases self.members@.len() - i,
        {
            if same(self.members[i].name.as_str(), name) {
                return Some(&self.members[i]);
            }
            i += 1;
        }
        None
    }

    /// The member that owns a position.
    pub fn member_at(&self, at: u64) -> (r: Option<&ClusterMember>)
        requires
            self.wf(),
        ensures
            match r {
                Some(m) => self.ring.owner_at(at) == Some(m.name@) && exists|i: int|
                    0 <= i < self.members@.len() && *m == #[trigger] self.members@[i] && forall|
                        j: int,
                    |
                        0 <= j < i ==> (#[trigger] self.members@[j]).name@ != m.name@,
                None => self.ring.owner_at(at) is None,
            },
    {
        match self.ring.get_node_at(at) {
            None => None,
            Some(node) => {
                proof {
                    self.ring.law_preference(at);
                    self.lemma_ranked(at);
                    let id = self.ring.owner_at(at)->0;
                    assert(self.ring.nodes@.contains_key(id));
                    assert(self.ring.nodes@[id].id@ == id);
                    assert(self.refs_by_id@[id] < self.members@.len());
                }
                self.first_named(node.id.as_str())
            },
        }
    }

    /// The member that owns a key.
    pub fn member_for_key(&self, key: &str) -> (r: Option<&ClusterMember>)
        requires
            self.wf(),
        ensures
            match r {
                Some(m) => self.ring.owner(key@) == Some(m.name@) && exists|i: int|
                    0 <= i < self.members@.len() && *m == #[trigger] self.members@[i] && forall|
                        j: int,
                    |
                        0 <= j < i ==> (#[trigger] self.members@[j]).name@ != m.name@,
                None => self.ring.owner(key@) is None,
            },
    {
        self.member_at(hash_key(key))
    }

    /// The reference for a node name that is on the ring.
    fn indexed(&self, id: &str) -> (i: usize)
        requires
            self.wf(),
            self.refs_by_id@.contains_key(id@),
        ensures
            i == self.refs_by_id@[id@],
            i < self.refs@.len(),
            i < self.members@.len(),
    {
        match self.refs_by_id.get(id) {
            Some(i) => {
                assert(self.refs_by_id@[id@] < self.members@.len());
                *i
            },
            None => 0,
        }
    }

    /// The reference to the actor that owns a position.
    pub fn ref_at(&self, at: u64) -> (r: Option<&RemoteActorRef>)
        requires
            self.wf(),
        ensures
            match r {
                Some(x) => self.ranked_at(at).len() > 0 && *x == self.refs@[self.ranked_at(at)[0]],
                None => self.ring.owner_at(at) is None,
            },
    {
        match self.ring.get_node_at(at) {
            None => None,
            Some(node) => {
                proof {
                    self.ring.law_preference(at);
                    let id = self.ring.owner_at(at)->0;
                    assert(self.ring.nodes@.contains_key(id));
                    assert(self.ring.nodes@[id].id@ == id);
                }
                let i: usize = self.indexed(node.id.as_str());
                Some(&self.refs[i])
            },
        }
    }

    /// The reference to the actor that owns a key.
    pub fn ref_for_key(&self, key: &str) -> (r: Option<&RemoteActorRef>)
        requires
            self.wf(),
        ensures
            match r {
                Some(x) => self.ranked(key@).len() > 0 && *x == self.refs@[self.ranked(key@)[0]],
                None => self.ring.owner(key@) is None,
            },
    {
        self.ref_at(hash_key(key))
    }

    /// The reference that a send by position goes to.
    pub fn target_at(&self, at: u64) -> (r: Result<&RemoteActorRef, IoError>)
        requires
            self.wf(),
        ensures
            match r {
                Ok(x) => self.ranked_at(at).len() > 0 && *x == self.refs@[self.ranked_at(at)[0]],
                Err(e) => self.ring.owner_at(at) is None && e.kind == IoErrorKind::NotConnected
                    && e.message@ == "cluster has no members"@,
            },
    {
        match self.ref_at(at) {
            Some(x) => Ok(x),
            None => Err(
                IoError::new(IoErrorKind::NotConnected, "cluster has no members".to_string()),
            ),
        }
    }

    /// The reference that a send by key goes to.
    pub fn target_for_key(&self, key: &str) -> (r: Result<&RemoteActorRef, IoError>)
        requires
            self.wf(),
        ensures
            match r {
                Ok(x) => self.ranked(key@).len() > 0 && *x == self.refs@[self.ranked(key@)[0]],
                Err(e) => self.ring.owner(key@) is None && e.kind == IoErrorKind::NotConnected
                    && e.message@ == "cluster has no members"@,
            },
    {
        self.target_at(hash_key(key))
    }

    /// The next reference in turn; the turn advances only where there is one.
    pub fn next(&mut self) -> (r: Result<&RemoteActorRef, IoError>)
        requires
            old(self).wf(),
        ensures
            final(self).wf(),
            match r {
                Ok(x) => took_turn(*old(self), *x, *final(self)),
                Err(e) => old(self).refs@.len() == 0 && *final(self) == *old(self) && e.kind
                    == IoErrorKind::NotConnected && e.message@ == "cluster has no members"@,
            },
    {
        if self.refs.len() == 0 {
            return Err(
                IoError::new(IoErrorKind::NotConnected, "cluster has no members".to_string()),
            );
        }
        let idx: usize = self.next % self.refs.len();
        if self.next == usize::MAX {
            self.next = 0;
        } else {
            self.next = self.next + 1;
        }
        Ok(&self.refs[idx])
    }

    /// The reference of the member that answers for a name.
    pub fn ref_by_name(&self, name: &str) -> (r: Option<&RemoteActorRef>)
        requires
            self.wf(),
        ensures
            match r {
                Some(x) => self.refs_by_id@.contains_key(name@) && *x
                    == self.refs@[self.refs_by_id@[name@] as int],
                None => !self.refs_by_id@.contains_key(name@),
            },
    {
        if self.refs_by_id.contains_key(name) {
            let i: usize = self.indexed(name);
            Some(&self.refs[i])
        } else {
            None
        }
    }

    /// The references of the named members, skipping unknown names.
    pub fn targets_named(&self, names: &Vec<String>) -> (r: Vec<(String, &RemoteActorRef)>)
        requires
            self.wf(),
        ensures
            r@.len() == strs(names@).filter(|n: Seq<char>| self.refs_by_id@.contains_key(n)).len(),
            forall|i: int|
                0 <= i < r@.len() ==> (#[trigger] r@[i]).0@ == strs(names@).filter(
                    |n: Seq<char>| self.refs_by_id@.contains_key(n),
                )[i] && *r@[i].1 == self.refs@[self.refs_by_id@[r@[i].0@] as int],
    {
        let mut r: Vec<(String, &RemoteActorRef)> = Vec::new();
        let mut i: usize = 0;
        let ghost all = strs(names@);
        let ghost pred = |n: Seq<char>| self.refs_by_id@.contains_key(n);
        proof {
            reveal(Seq::filter);
            assert(all.take(0).filter(pred).len() == 0);
        }
        while i < names.len()
            invariant
                self.wf(),
                i <= names@.len(),
                all == strs(names@),
                pred == (|n: Seq<char>| self.refs_by_id@.contains_key(n)),
                r@.len() == all.take(i as int).filter(pred).len(),
                forall|j: int|
                    0 <= j < r@.len() ==> (#[trigger] r@[j]).0@ == all.take(i as int).filter(
                        pred,
                    )[j] && *r@[j].1 == self.refs@[self.refs_by_id@[r@[j].0@] as int],
            decreases names@.len() - i,
        {
            proof {
                lemma_filter_step(all, pred, i as int);
                assert(all[i as int] == names@[i as int]@);
            }
            match self.ref_by_name(names[i].as_str()) {
                Some(x) => {
                    r.push((names[i].clone(), x));
                },
                None => {},
            }
            i += 1;
        }
        assert(all.take(all.len() as int) == all);
        r
    }

    /// Replica references for a position, walking the ring, up to `count`.
    pub fn replicas_at(&self, at: u64, count: usize) -> (r: Vec<&RemoteActorRef>)
        requires
            self.wf(),
        ensures
            r@.len() == at_most(self.ranked_at(at), count as nat).len(),
            forall|i: int|
                0 <= i < r@.len() ==> *(#[trigger] r@[i]) == self.refs@[self.ranked_at(at)[i]],
    {
        let nodes = self.ring.get_nodes_at(at, count);
        let mut out: Vec<&RemoteActorRef> = Vec::new();
        let mut i: usize = 0;
        proof {
            self.lemma_ranked(at);
        }
        while i < nodes.len()
            invariant
                self.wf(),
                i <= nodes@.len() <= self.ranked_at(at).len(),
                out@.len() == i,
                nodes@.len() == vstd::math::min(
                    count as int,
                    self.ring.preference_at(at).len() as int,
                ),
                forall|j: int|
                    0 <= j < nodes@.len() ==> #[trigger] self.ring.nodes@.contains_key(
                        self.ring.preference_at(at)[j],
                    ),
                forall|j: int|
                    0 <= j < nodes@.len() ==> *(#[trigger] nodes@[j])
                        == self.ring.nodes@[self.ring.preference_at(at)[j]],
                forall|j: int|
                    0 <= j < out@.len() ==> *(#[trigger] out@[j])
                        == self.refs@[self.ranked_at(at)[j]],
            decreases nodes@.len() - i,
        {
            proof {
                let id = self.ring.preference_at(at)[i as int];
                assert(self.ring.nodes@.contains_key(id));
                assert(self.ring.nodes@[id].id@ == id);
                assert(*nodes@[i as int] == self.ring.nodes@[id]);
            }
            let k: usize = self.indexed(nodes[i].id.as_str());
            out.push(&self.refs[k]);
            i += 1;
        }
        out
    }

    /// Replica references for a key, walking the ring, up to `count`.
    pub fn replicas_for_key(&self, key: &str, count: usize) -> (r: Vec<&RemoteActorRef>)
        requires
            self.wf(),
        ensures
            r@.len() == at_most(self.ranked(key@), count as nat).len(),
            forall|i: int|
                0 <= i < r@.len() ==> *(#[trigger] r@[i]) == self.refs@[self.ranked(key@)[i]],
    {
        self.replicas_at(hash_key(key), count)
    }

    /// Every replica reference for a position.
    pub fn all_replicas_at(&self, at: u64) -> (r: Vec<&RemoteActorRef>)
        requires
            self.wf(),
        ensures
            r@.len() == self.ranked_at(at).len(),
            forall|i: int|
                0 <= i < r@.len() ==> *(#[trigger] r@[i]) == self.refs@[self.ranked_at(at)[i]],
    {
        proof {
            self.lemma_ranked(at);
        }
        self.replicas_at(at, self.refs.len())
    }

    /// Every replica reference for a key.
    pub fn all_replicas_for_key(&self, key: &str) -> (r: Vec<&RemoteActorRef>)
        requires
            self.wf(),
        ensures
            r@.len() == self.ranked(key@).len(),
            forall|i: int|
                0 <= i < r@.len() ==> *(#[trigger] r@[i]) == self.refs@[self.ranked(key@)[i]],
    {
        self.all_replicas_at(hash_key(key))
    }

    /// The member indices for a position in order of preference.
    fn ranking(&self, at: u64) -> (r: Vec<usize>)
        requires
            self.wf(),
        ensures
            r@.len() == self.ranked_at(at).len(),
            forall|i: int|
                0 <= i < r@.len() ==> (#[trigger] r@[i]) == self.ranked_at(at)[i] && r@[i]
                    < self.members@.len(),
    {
        let nodes = self.ring.get_nodes_at(at, self.refs.len());
        let mut out: Vec<usize> = Vec::new();
        let mut i: usize = 0;
        proof {
            self.lemma_ranked(at);
        }
        while i < nodes.len()
            invariant
                self.wf(),
                i <= nodes@.len() == self.ranked_at(at).len(),
                out@.len() == i,
                forall|j: int|
                    0 <= j < nodes@.len() ==> #[trigger] self.ring.nodes@.contains_key(
                        self.ring.preference_at(at)[j],
                    ),
                forall|j: int|
                    0 <= j < nodes@.len() ==> *(#[trigger] nodes@[j])
                        == self.ring.nodes@[self.ring.preference_at(at)[j]],
                forall|j: int|
                    0 <= j < out@.len() ==> (#[trigger] out@[j]) == self.ranked_at(at)[j] && out@[j]
                        < self.members@.len(),
            decreases nodes@.len() - i,
        {
            proof {
                let id = self.ring.preference_at(at)[i as int];
                assert(self.ring.nodes@.contains_key(id));
                assert(self.ring.nodes@[id].id@ == id);
                assert(*nodes@[i as int] == self.ring.nodes@[id]);
            }
            out.push(self.indexed(nodes[i].id.as_str()));
            i += 1;
        }
        out
    }

    /// The preferred member indices for a position that count as local.
    pub open spec fn ranked_local_at(&self, h: u64, local_dc: Seq<char>) -> Seq<int> {
        self.ranked_at(h).filter(|i: int| self.members@[i].is_local(local_dc))
    }

    /// The preferred member indices for a key that count as local.
    pub open spec fn ranked_local(&self, key: Seq<char>, local_dc: Seq<char>) -> Seq<int> {
        self.ranked_local_at(key_hash(key), local_dc)
    }

    /// Replica references for a position limited to the local datacenter.
    pub fn local_replicas_at(&self, at: u64, count: usize, local_dc: &str) -> (r: Vec<
        &RemoteActorRef,
    >)
        requires
            self.wf(),
        ensures
            r@.len() == at_most(self.ranked_local_at(at, local_dc@), count as nat).len(),
            forall|i: int|
                0 <= i < r@.len() ==> *(#[trigger] r@[i]) == self.refs@[self.ranked_local_at(
                    at,
                    local_dc@,
                )[i]],
    {
        let order = self.ranking(at);
        let ghost ranked = self.ranked_at(at);
        let ghost pred = |i: int| self.members@[i].is_local(local_dc@);
        let mut out: Vec<&RemoteActorRef> = Vec::new();
        let mut i: usize = 0;
        proof {
            reveal(Seq::filter);
            assert(ranked.take(0).filter(pred).len() == 0);
        }
        while i < order.len() && out.len() < count
            invariant
                self.wf(),
                ranked == self.ranked_at(at),
                pred == (|i: int| self.members@[i].is_local(local_dc@)),
                i <= order@.len() == ranked.len(),
                forall|j: int|
                    0 <= j < order@.len() ==> (#[trigger] order@[j]) == ranked[j] && order@[j]
                        < self.members@.len(),
                out@.len() <= count,
                out@.len() == ranked.take(i as int).filter(pred).len(),
                forall|j: int|
                    0 <= j < out@.len() ==> *(#[trigger] out@[j]) == self.refs@[ranked.take(
                        i as int,
                    ).filter(pred)[j]],
            decreases order@.len() - i,
        {
            proof {
                lemma_filter_step(ranked, pred, i as int);
                assert(order@[i as int] == ranked[i as int]);
            }
            let k: usize = order[i];
            if member_is_local_dc(&self.members[k], local_dc) {
                out.push(&self.refs[k]);
            }
            i += 1;
        }
        proof {
            lemma_filter_prefix(ranked, pred, i as int);
            if i == order.len() {
                assert(ranked.take(i as int) == ranked);
            }
            let part = ranked.take(i as int).filter(pred);
            let whole = self.ranked_local_at(at, local_dc@);
            assert(whole == ranked.filter(pred));
            assert forall|j: int| 0 <= j < out@.len() implies *(#[trigger] out@[j])
                == self.refs@[whole[j]] by {
                assert(part[j] == whole.take(part.len() as int)[j]);
            }
        }
        out
    }

    /// Replica references for a key limited to the local datacenter.
    pub fn local_replicas_for_key(&self, key: &str, count: usize, local_dc: &str) -> (r: Vec<
        &RemoteActorRef,
    >)
        requires
            self.wf(),
        ensures
            r@.len() == at_most(self.ranked_local(key@, local_dc@), count as nat).len(),
            forall|i: int|
                0 <= i < r@.len() ==> *(#[trigger] r@[i]) == self.refs@[self.ranked_local(
                    key@,
                    local_dc@,
                )[i]],
    {
        self.local_replicas_at(hash_key(key), count, local_dc)
    }

    /// The roster indices of the members tagged with `dc`.
    pub open spec fn tagged_indices(&self, dc: Seq<char>) -> Seq<int> {
        upto(self.members@.len()).filter(|i: int| self.members@[i].tagged(dc))
    }

    /// References of the members tagged with datacenter `dc`, in roster order.
    pub fn dc_members(&self, dc: &str) -> (r: Vec<&RemoteActorRef>)
        requires
            self.wf(),
        ensures
            r@.len() == self.tagged_indices(dc@).len(),
            forall|i: int|
                0 <= i < r@.len() ==> *(#[trigger] r@[i]) == self.refs@[self.tagged_indices(
                    dc@,
                )[i]],
    {
        let ghost all = upto(self.members@.len());
        let ghost pred = |i: int| self.members@[i].tagged(dc@);
        let mut out: Vec<&RemoteActorRef> = Vec::new();
        let mut i: usize = 0;
        proof {
            reveal(Seq::filter);
            assert(all.take(0).filter(pred).len() == 0);
        }
        while i < self.members.len()
            invariant
                self.wf(),
                all == upto(self.members@.len()),
                pred == (|i: int| self.members@[i].tagged(dc@)),
                i <= self.members@.len(),
                out@.len() == all.take(i as int).filter(pred).len(),
                forall|j: int|
                    0 <= j < out@.len() ==> *(#[trigger] out@[j]) == self.refs@[all.take(
                        i as int,
                    ).filter(pred)[j]],
            decreases self.members@.len() - i,
        {
            proof {
                lemma_filter_step(all, pred, i as int);
            }
            let in_dc: bool = match &self.members[i].dc {
                Some(d) => same(d.as_str(), dc),
                None => false,
            };
            if in_dc {
                out.push(&self.refs[i]);
            }
            i += 1;
        }
        assert(all.take(all.len() as int) == all);
        out
    }

    /// The preferred member indices for a position in datacenter `dc`.
    pub open spec fn ranked_in_dc_at(
        &self,
        h: u64,
        dc: Seq<char>,
        local_dc: Seq<char>,
    ) -> Seq<int> {
        self.ranked_at(h).filter(|i: int| self.members@[i].effective_dc(local_dc) == dc)
    }

    /// The roster indices in datacenter `dc` that the ring does not yield.
    pub open spec fn rest_in_dc_at(
        &self,
        h: u64,
        dc: Seq<char>,
        local_dc: Seq<char>,
    ) -> Seq<int> {
        let found = self.ranked_in_dc_at(h, dc, local_dc);
        upto(self.members@.len()).filter(
            |i: int| self.members@[i].effective_dc(local_dc) == dc && !found.contains(i),
        )
    }

    /// The member indices for a position in datacenter `dc`: those that the ring
    /// yields, then the others in roster order.
    pub open spec fn dc_order_at(
        &self,
        h: u64,
        dc: Seq<char>,
        local_dc: Seq<char>,
    ) -> Seq<int> {
        self.ranked_in_dc_at(h, dc, local_dc) + self.rest_in_dc_at(h, dc, local_dc)
    }

    /// The member indices for a key in datacenter `dc`: those that the ring
    /// yields, then the others in roster order.
    pub open spec fn dc_order(
        &self,
        key: Seq<char>,
        dc: Seq<char>,
        local_dc: Seq<char>,
    ) -> Seq<int> {
        self.dc_order_at(key_hash(key), dc, local_dc)
    }

    /// Replica references for a position limited to datacenter `dc`, topped up
    /// from the roster where the ring yields fewer than `count`.
    pub fn dc_replicas_at(
        &self,
        at: u64,
        dc: &str,
        local_dc: &str,
        count: usize,
    ) -> (r: Vec<&RemoteActorRef>)
        requires
            self.wf(),
        ensures
            r@.len() == at_most(self.dc_order_at(at, dc@, local_dc@), count as nat).len(),
            forall|i: int|
                0 <= i < r@.len() ==> *(#[trigger] r@[i]) == self.refs@[self.dc_order_at(
                    at,
                    dc@,
                    local_dc@,
                )[i]],
    {
        let order = self.ranking(at);
        let ghost ranked = self.ranked_at(at);
        let ghost pred = |i: int| self.members@[i].effective_dc(local_dc@) == dc@;
        let ghost found = self.ranked_in_dc_at(at, dc@, local_dc@);
        let mut seen: Vec<usize> = Vec::new();
        let mut i: usize = 0;
        proof {
            reveal(Seq::filter);
            assert(ranked.take(0).filter(pred).len() == 0);
        }
        while i < order.len() && seen.len() < count
            invariant
                self.wf(),
                ranked == self.ranked_at(at),
                pred == (|i: int| self.members@[i].effective_dc(local_dc@) == dc@),
                i <= order@.len() == ranked.len(),
                forall|j: int|
                    0 <= j < order@.len() ==> (#[trigger] order@[j]) == ranked[j] && order@[j]
                        < self.members@.len(),
                seen@.len() <= count,
                seen@.len() == ranked.take(i as int).filter(pred).len(),
                forall|j: int|
                    0 <= j < seen@.len() ==> (#[trigger] seen@[j]) == ranked.take(i as int).filter(
                        pred,
                    )[j] && seen@[j] < self.members@.len(),
            decreases order@.len() - i,
        {
            proof {
                lemma_filter_step(ranked, pred, i as int);
                assert(order@[i as int] == ranked[i as int]);
            }
            let k: usize = order[i];
            if same(member_effective_dc(&self.members[k], local_dc), dc) {
                seen.push(k);
            }
            i += 1;
        }
        proof {
            lemma_filter_prefix(ranked, pred, i as int);
            if i == order.len() {
                assert(ranked.take(i as int) == ranked);
            }
            let part = ranked.take(i as int).filter(pred);
            assert forall|j: int| 0 <= j < seen@.len() implies (#[trigger] seen@[j]) == found[j] by {
                assert(part[j] == found.take(part.len() as int)[j]);
            }
            assert(seen@.len() == count || seen@.len() == found.len());
        }
        let from_ring: usize = seen.len();
        if from_ring < count {
            let ghost all = upto(self.members@.len());
            let ghost rest_pred = |i: int|
                self.members@[i].effective_dc(local_dc@) == dc@ && !found.contains(i);
            let mut m: usize = 0;
            proof {
                assert(all.take(0).filter(rest_pred).len() == 0);
            }
            while m < self.members.len() && seen.len() < count
                invariant
                    self.wf(),
                    all == upto(self.members@.len()),
                    rest_pred == (|i: int|
                        self.members@[i].effective_dc(local_dc@) == dc@ && !found.contains(i)),
                    m <= self.members@.len(),
                    from_ring == found.len(),
                    from_ring <= seen@.len() <= count,
                    seen@.len() == found.len() + all.take(m as int).filter(rest_pred).len(),
                    forall|j: int|
                        0 <= j < seen@.len() ==> (#[trigger] seen@[j]) < self.members@.len(),
                    forall|j: int|
                        0 <= j < from_ring ==> (#[trigger] seen@[j]) == found[j],
                    forall|j: int|
                        from_ring <= j < seen@.len() ==> (#[trigger] seen@[j]) == all.take(
                            m as int,
                        ).filter(rest_pred)[j - from_ring],
                decreases self.members@.len() - m,
            {
                proof {
                    lemma_filter_step(all, rest_pred, m as int);
                }
                if same(member_effective_dc(&self.members[m], local_dc), dc) {
                    let mut known: bool = false;
                    let mut q: usize = 0;
                    while q < from_ring
                        invariant
                            q <= from_ring <= seen@.len(),
                            from_ring == found.len(),
                            forall|j: int|
                                0 <= j < from_ring ==> (#[trigger] seen@[j]) == found[j],
                            known == (exists|j: int| 0 <= j < q && #[trigger] found[j] == m),
                        decreases from_ring - q,
                    {
                        if seen[q] == m {
                            assert(found[q as int] == m);
                            known = true;
                        }
                        q += 1;
                    }
                    assert(known == found.contains(m as int));
                    if !known {
                        seen.push(m);
                    }
                }
                m += 1;
            }
            proof {
                lemma_filter_prefix(all, rest_pred, m as int);
                if m == self.members.len() {
                    assert(all.take(m as int) == all);
                }
                let part = all.take(m as int).filter(rest_pred);
                let rest = self.rest_in_dc_at(at, dc@, local_dc@);
                assert(rest == all.filter(rest_pred));
                assert forall|j: int| from_ring <= j < seen@.len() implies (#[trigger] seen@[j])
                    == rest[j - from_ring] by {
                    assert(part[j - from_ring] == rest.take(part.len() as int)[j - from_ring]);
                }
            }
        }
        proof {
            let whole = self.dc_order_at(at, dc@, local_dc@);
            assert(seen@.len() == at_most(whole, count as nat).len());
            assert forall|j: int| 0 <= j < seen@.len() implies (#[trigger] seen@[j]) == whole[j] by {}
        }
        let mut out: Vec<&RemoteActorRef> = Vec::new();
        let mut k: usize = 0;
        while k < seen.len()
            invariant
                self.wf(),
                k <= seen@.len(),
                out@.len() == k,
                forall|j: int| 0 <= j < seen@.len() ==> (#[trigger] seen@[j]) < self.refs@.len(),
                forall|j: int| 0 <= j < k ==> *(#[trigger] out@[j]) == self.refs@[seen@[j] as int],
            decreases seen@.len() - k,
        {
            out.push(&self.refs[seen[k]]);
            k += 1;
        }
        out
    }

    /// Replica references for a key limited to datacenter `dc`, topped up from
    /// the roster where the ring yields fewer than `count`.
    pub fn dc_replicas_for_key(
        &self,
        key: &str,
        dc: &str,
        local_dc: &str,
        count: usize,
    ) -> (r: Vec<&RemoteActorRef>)
        requires
            self.wf(),
        ensures
            r@.len() == at_most(self.dc_order(key@, dc@, local_dc@), count as nat).len(),
            forall|i: int|
                0 <= i < r@.len() ==> *(#[trigger] r@[i]) == self.refs@[self.dc_order(
                    key@,
                    dc@,
                    local_dc@,
                )[i]],
    {
        self.dc_replicas_at(hash_key(key), dc, local_dc, count)
    }

    /// Distinct datacenter names in ascending order.
    pub fn datacenters(&self, local_dc: &str) -> (r: Vec<String>)
        ensures
            forall|i: int, j: int|
                0 <= i < j < r@.len() ==> text_le(#[trigger] strs(r@)[i], #[trigger] strs(r@)[j])
                    && strs(r@)[i] != strs(r@)[j],
            forall|d: Seq<char>|
                strs(r@).contains(d) <==> exists|i: int|
                    0 <= i < self.members@.len() && (#[trigger] self.members@[i]).effective_dc(
                        local_dc@,
                    ) == d,
    {
        let mut r: Vec<String> = Vec::new();
        let mut i: usize = 0;
        while i < self.members.len()
            invariant
                i <= self.members@.len(),
                forall|a: int, b: int|
                    0 <= a < b < r@.len() ==> text_le(
                        #[trigger] strs(r@)[a],
                        #[trigger] strs(r@)[b],
                    ) && strs(r@)[a] != strs(r@)[b],
                forall|d: Seq<char>|
                    strs(r@).contains(d) <==> exists|k: int|
                        0 <= k < i && (#[trigger] self.members@[k]).effective_dc(local_dc@) == d,
            decreases self.members@.len() - i,
        {
            let dc: &str = member_effective_dc(&self.members[i], local_dc);
            let ghost before = r@;
            insert_sorted(&mut r, dc);
            proof {
                assert forall|d: Seq<char>|
                    strs(r@).contains(d) <==> exists|k: int|
                        0 <= k < i + 1 && (#[trigger] self.members@[k]).effective_dc(local_dc@)
                            == d by {
                    if strs(before).contains(d) {
                        let k = choose|k: int|
                            0 <= k < i && (#[trigger] self.members@[k]).effective_dc(local_dc@)
                                == d;
                        assert(0 <= k < i + 1);
                    }
                    if d == dc@ {
                        assert(self.members@[i as int].effective_dc(local_dc@) == d);
                    }
                }
            }
            i += 1;
        }
        r
    }
}

/// Filtering a list without repeats leaves it without, and keeps exactly what
/// passes.
pub proof fn lemma_filter_members<A>(s: Seq<A>, pred: spec_fn(A) -> bool)
    requires
        s.no_duplicates(),
    ensures
        s.filter(pred).no_duplicates(),
        forall|x: A| #[trigger] s.filter(pred).contains(x) <==> s.contains(x) && pred(x),
    decreases s.len(),
{
    reveal(Seq::filter);
    if s.len() > 0 {
        let d = s.drop_last();
        let f = d.filter(pred);
        let x = s.last();
        assert forall|i: int, j: int| 0 <= i < d.len() && 0 <= j < d.len() && i != j implies d[i]
            != d[j] by {
            assert(s[i] != s[j]);
        }
        lemma_filter_members(d, pred);
        assert(!d.contains(x)) by {
            if d.contains(x) {
                let i = d.index_of(x);
                assert(s[i] == s[s.len() - 1]);
            }
        }
        assert forall|y: A| s.contains(y) <==> d.contains(y) || y == x by {
            if s.contains(y) {
                let i = s.index_of(y);
                if i < d.len() {
                    assert(d[i] == y);
                }
            }
            if d.contains(y) {
                assert(s[d.index_of(y)] == y);
            }
            assert(s[s.len() - 1] == x);
        }
        if pred(x) {
            let g = f.push(x);
            assert(s.filter(pred) == g);
            assert forall|y: A| #[trigger] g.contains(y) <==> f.contains(y) || y == x by {
                if g.contains(y) {
                    let i = g.index_of(y);
                    if i < f.len() {
                        assert(f[i] == y);
                    }
                }
                if f.contains(y) {
                    assert(g[f.index_of(y)] == y);
                }
                assert(g[f.len() as int] == x);
            }
            assert forall|i: int, j: int| 0 <= i < g.len() && 0 <= j < g.len() && i != j implies g[i]
                != g[j] by {
                assert(!f.contains(x));
                if i == f.len() {
                    assert(f.contains(f[j]));
                }
                if j == f.len() {
                    assert(f.contains(f[i]));
                }
            }
        }
    }
}

impl Cluster {
    /// No member is a replica twice, and none but local members are local
    /// replicas, so that there are no more of either than members.
    pub proof fn law_replicas_are_members(&self, h: u64, local_dc: Seq<char>)
        requires
            self.wf(),
        ensures
            self.ranked_at(h).len() <= self.members@.len(),
            self.ranked_local_at(h, local_dc).len() <= upto(self.members@.len()).filter(
                |i: int| self.members@[i].is_local(local_dc),
            ).len(),
    {
        self.lemma_ranked(h);
        let r = self.ranked_at(h);
        let all = upto(self.members@.len());
        let pred = |i: int| self.members@[i].is_local(local_dc);
        assert(all.no_duplicates());
        lemma_filter_members(r, pred);
        lemma_filter_members(all, pred);
        let a = r.filter(pred);
        let b = all.filter(pred);
        assert forall|i: int| a.to_set().contains(i) implies b.to_set().contains(i) by {
            assert(a.contains(i));
            let k = r.index_of(i);
            assert(0 <= r[k] < self.members@.len());
            assert(all[i] == i);
        }
        a.unique_seq_to_set();
        b.unique_seq_to_set();
        vstd::set_lib::lemma_len_subset(a.to_set(), b.to_set());
    }

    /// Where every virtual node has a ring position of its own, every member is
    /// a replica for every key, and every local member a local one.
    pub proof fn law_every_member_is_a_replica(&self, h: u64, local_dc: Seq<char>)
        requires
            self.wf(),
            self.unique(),
            self.ring.virtual_nodes > 0,
            self.ring.occupied().dom().len() == self.ring.nodes@.dom().len()
                * self.ring.virtual_nodes,
        ensures
            self.ranked_at(h).len() == self.members@.len(),
            self.ranked_at(h).to_set() == upto(self.members@.len()).to_set(),
            self.ranked_local_at(h, local_dc).len() == upto(self.members@.len()).filter(
                |i: int| self.members@[i].is_local(local_dc),
            ).len(),
    {
        self.ring.law_every_node_is_met(h);
        self.lemma_ranked(h);
        let r = self.ranked_at(h);
        let all = upto(self.members@.len());
        let p = self.ring.preference_at(h);
        assert forall|i: int| r.contains(i) <==> all.contains(i) by {
            if all.contains(i) {
                assert(0 <= i < self.members@.len());
                let name = self.members@[i].name@;
                assert(self.ring.nodes@.dom().contains(name));
                assert(p.to_set().contains(name));
                let k = p.index_of(name);
                assert(p[k] == name);
                self.lemma_roster();
                assert(self.refs_by_id@[self.members@[i].name@] == i);
                assert(r[k] == i);
            }
            if r.contains(i) {
                let k = r.index_of(i);
                assert(0 <= r[k] < self.members@.len());
                assert(all[i] == i);
            }
        }
        assert(r.to_set() =~= all.to_set());
        assert(all.no_duplicates());
        r.unique_seq_to_set();
        all.unique_seq_to_set();
        let pred = |i: int| self.members@[i].is_local(local_dc);
        lemma_filter_members(r, pred);
        lemma_filter_members(all, pred);
        let a = r.filter(pred);
        let b = all.filter(pred);
        assert(a.to_set() =~= b.to_set());
        a.unique_seq_to_set();
        b.unique_seq_to_set();
    }
}

/// Adds `s` to an ascending list without repeats.
pub fn insert_sorted(r: &mut Vec<String>, s: &str)
    requires
        forall|a: int, b: int|
            0 <= a < b < old(r)@.len() ==> text_le(
                #[trigger] strs(old(r)@)[a],
                #[trigger] strs(old(r)@)[b],
            ) && strs(old(r)@)[a] != strs(old(r)@)[b],
    ensures
        forall|a: int, b: int|
            0 <= a < b < final(r)@.len() ==> text_le(
                #[trigger] strs(final(r)@)[a],
                #[trigger] strs(final(r)@)[b],
            ) && strs(final(r)@)[a] != strs(final(r)@)[b],
        forall|d: Seq<char>|
            strs(final(r)@).contains(d) <==> (strs(old(r)@).contains(d) || d == s@),
{
    let ghost before = r@;
    let mut i: usize = 0;
    while i < r.len()
        invariant
            *r == *old(r),
            before == r@,
            i <= r@.len(),
            forall|a: int, b: int|
                0 <= a < b < r@.len() ==> text_le(#[trigger] strs(r@)[a], #[trigger] strs(r@)[b])
                    && strs(r@)[a] != strs(r@)[b],
            forall|j: int| 0 <= j < i ==> text_le(#[trigger] strs(r@)[j], s@) && strs(r@)[j] != s@,
        ensures
            i < r@.len() ==> text_le(s@, strs(r@)[i as int]) && s@ != strs(r@)[i as int],
        decreases r@.len() - i,
    {
        if same(r[i].as_str(), s) {
            assert(strs(before)[i as int] == s@);
            return;
        }
        if text_not_after(s, r[i].as_str()) {
            break;
        }
        proof {
            lemma_text_le_total(strs(r@)[i as int], s@);
        }
        i += 1;
    }
    let ghost at = i as int;
    proof {
        assert(at < before.len() ==> text_le(s@, strs(before)[at]) && s@ != strs(before)[at]);
    }
    r.insert(i, s.to_string());
    proof {
        let a0 = strs(before);
        let b0 = strs(r@);
        assert(b0 =~= a0.insert(at, s@));
        assert forall|j: int| at <= j < a0.len() implies text_le(s@, #[trigger] a0[j]) && a0[j]
            != s@ by {
            if j > at {
                assert(text_le(a0[at], a0[j]));
                lemma_text_le_transitive(s@, a0[at], a0[j]);
                if a0[j] == s@ {
                    lemma_text_le_total(a0[at], s@);
                }
            }
        }
        assert forall|x: int, y: int| 0 <= x < y < b0.len() implies text_le(
            #[trigger] b0[x],
            #[trigger] b0[y],
        ) && b0[x] != b0[y] by {
            let x2 = if x < at {
                x
            } else {
                x - 1
            };
            let y2 = if y < at {
                y
            } else {
                y - 1
            };
            if x == at {
                assert(b0[y] == a0[y2]);
            } else if y == at {
                assert(b0[x] == a0[x2]);
            } else {
                assert(text_le(a0[x2], a0[y2]));
            }
        }
        assert forall|d: Seq<char>| b0.contains(d) <==> (a0.contains(d) || d == s@) by {
            if a0.contains(d) {
                let j = a0.index_of(d);
                let j2 = if j < at {
                    j
                } else {
                    j + 1
                };
                assert(b0[j2] == d);
            }
            if b0.contains(d) {
                let j = b0.index_of(d);
                if j < at {
                    assert(a0[j] == d);
                } else if j > at {
                    assert(a0[j - 1] == d);
                }
            }
            assert(b0[at] == s@);
        }
    }
}

/// A message on its way to a remote actor.
#[derive(Debug, PartialEq, Eq)]
pub struct DeliverRequest {
    pub frame_id: u64,
    pub target: String,
    pub payload: Vec<u8>,
    pub expect_ack: bool,
}

/// What the remote node answers to a request that expects it.
#[derive(Debug, PartialEq, Eq)]
pub struct DeliverReply {
    pub frame_id: u64,
    pub ok: bool,
    pub error: String,
}

impl RemoteActorRef {
    /// The request that carries `payload` to this actor.
    pub fn deliver_request(&self, frame_id: u64, payload: Vec<u8>, expect_ack: bool) -> (r:
        DeliverRequest)
        ensures
            r.frame_id == frame_id,
            r.target == self.target,
            r.payload == payload,
            r.expect_ack == expect_ack,
    {
        DeliverRequest { frame_id, target: self.target.clone(), payload, expect_ack }
    }
}

/// Numbers outgoing frames, starting at one.
pub struct FrameCounter {
    pub upcoming: u64,
}

/// A number was handed out: the next one is one higher, and wraps around.
pub open spec fn allocated(before: FrameCounter, id: u64, after: FrameCounter) -> bool {
    &&& id == before.upcoming
    &&& after.upcoming == (if before.upcoming == u64::MAX {
        0
    } else {
        (before.upcoming + 1) as u64
    })
}

impl FrameCounter {
    /// A fresh counter.
    pub fn new() -> (c: Self)
        ensures
            c.upcoming == 1,
    {
        FrameCounter { upcoming: 1 }
    }

    /// The next number; the count wraps around.
    pub fn allocate(&mut self) -> (id: u64)
        ensures
            allocated(*old(self), id, *final(self)),
    {
        let id: u64 = self.upcoming;
        self.upcoming = if id == u64::MAX {
            0
        } else {
            id + 1
        };
        id
    }
}

/// How far one attempt to send without acknowledgement got.
#[derive(Debug, Clone, Copy, PartialEq, Eq, Structural)]
pub enum SendOutcome {
    /// The stream could not be opened.
    StreamFailed,
    /// There is no stream to send on.
    StreamMissing,
    /// The stream no longer takes requests.
    QueueClosed,
    /// The request was handed to the stream.
    Queued,
}

/// What to do after an attempt to send.
#[derive(Debug, PartialEq, Eq)]
pub enum SendStep {
    /// The send is complete.
    Sent,
    /// Drop the stream and try once more.
    Retry,
    /// Look for a stream all the same.
    Proceed,
    /// Give up.
    Fail(IoError),
}

/// What follows from an attempt to send.
pub open spec fn send_decided(attempt: u32, outcome: SendOutcome, s: SendStep) -> bool {
    &&& s is Sent <==> outcome == SendOutcome::Queued
    &&& s is Retry <==> attempt == 0 && (outcome == SendOutcome::StreamFailed || outcome
        == SendOutcome::QueueClosed)
    &&& s is Proceed <==> attempt != 0 && outcome == SendOutcome::StreamFailed
    &&& s matches SendStep::Fail(e) ==> e.kind == IoErrorKind::NotConnected && e.message@ == (
    if outcome == SendOutcome::StreamMissing {
        "deliver stream unavailable"@
    } else {
        "deliver stream closed"@
    })
}

/// What follows an attempt to send; only the first attempt is retried.
pub fn decide_send(attempt: u32, outcome: SendOutcome) -> (s: SendStep)
    ensures
        send_decided(attempt, outcome, s),
{
    match outcome {
        SendOutcome::Queued => SendStep::Sent,
        SendOutcome::StreamFailed => if attempt == 0 {
            SendStep::Retry
        } else {
            SendStep::Proceed
        },
        SendOutcome::StreamMissing => SendStep::Fail(
            IoError::new(IoErrorKind::NotConnected, "deliver stream unavailable".to_string()),
        ),
        SendOutcome::QueueClosed => if attempt == 0 {
            SendStep::Retry
        } else {
            SendStep::Fail(
                IoError::new(IoErrorKind::NotConnected, "deliver stream closed".to_string()),
            )
        },
    }
}

/// How far one attempt to send with acknowledgement got.
#[derive(Debug, PartialEq, Eq)]
pub enum AckOutcome {
    /// The message could not be encoded.
    EncodeFailed,
    /// The stream could not be opened.
    StreamFailed,
    /// There is no stream to send on.
    StreamMissing,
    /// The stream no longer takes requests.
    QueueClosed,
    /// The acknowledgement arrived.
    Answered(Result<(), ConsistencyError>),
    /// The stream went away before the acknowledgement.
    Dropped,
    /// The acknowledgement did not arrive in time.
    TimedOut,
}

/// What to do after an attempt to send with acknowledgement.
#[derive(Debug, PartialEq, Eq)]
pub enum AckStep {
    /// Drop the stream and try once more.
    Retry,
    /// The send is complete.
    Finish(Result<(), ConsistencyError>),
}

/// One acknowledgement was needed and none came.
pub open spec fn one_ack_missing() -> ConsistencyError {
    ConsistencyError::NotEnoughAcks { required: 1, received: 0, dc: None }
}

/// One acknowledgement was needed and none came.
pub fn no_ack() -> (e: ConsistencyError)
    ensures
        e == one_ack_missing(),
{
    ConsistencyError::NotEnoughAcks { required: 1, received: 0, dc: None }
}

/// What follows from an attempt to send that waits for an acknowledgement.
pub open spec fn ack_decided(
    attempt: u32,
    outcome: AckOutcome,
    timeout: Duration,
    s: AckStep,
) -> bool {
    s == (match outcome {
        AckOutcome::EncodeFailed
        | AckOutcome::StreamFailed
        | AckOutcome::Dropped => AckStep::Finish(Err(one_ack_missing())),
        AckOutcome::StreamMissing | AckOutcome::QueueClosed => if attempt == 0 {
            AckStep::Retry
        } else {
            AckStep::Finish(Err(one_ack_missing()))
        },
        AckOutcome::Answered(r) => AckStep::Finish(r),
        AckOutcome::TimedOut => AckStep::Finish(
            Err(ConsistencyError::Timeout { after: timeout }),
        ),
    })
}

/// What follows an attempt to send with acknowledgement: a lost stream is
/// retried once; a stream that cannot be opened, a lost acknowledgement and a
/// late one are not.
pub fn decide_send_with_ack(attempt: u32, outcome: AckOutcome, timeout: Duration) -> (s: AckStep)
    ensures
        ack_decided(attempt, outcome, timeout, s),
{
    match outcome {
        AckOutcome::EncodeFailed => AckStep::Finish(Err(no_ack())),
        AckOutcome::StreamFailed => AckStep::Finish(Err(no_ack())),
        AckOutcome::Dropped => AckStep::Finish(Err(no_ack())),
        AckOutcome::StreamMissing | AckOutcome::QueueClosed => if attempt == 0 {
            AckStep::Retry
        } else {
            AckStep::Finish(Err(no_ack()))
        },
        AckOutcome::Answered(r) => AckStep::Finish(r),
        AckOutcome::TimedOut => AckStep::Finish(Err(ConsistencyError::Timeout { after: timeout })),
    }
}

/// The frames whose acknowledgement is awaited.
pub struct PendingAcks {
    pub waiting: Vec<u64>,
}

impl View for PendingAcks {
    type V = Set<u64>;

    open spec fn view(&self) -> Set<u64> {
        self.waiting@.to_set()
    }
}

/// A reply came in for one of the frames that are waited for, or for none.
pub open spec fn settled(
    before: Set<u64>,
    reply: DeliverReply,
    after: Set<u64>,
    r: Option<Result<(), ConsistencyError>>,
) -> bool {
    &&& after == before.remove(reply.frame_id)
    &&& r == (if before.contains(reply.frame_id) {
        Some(
            if reply.ok {
                Ok(())
            } else {
                Err(one_ack_missing())
            },
        )
    } else {
        None
    })
}

impl PendingAcks {
    /// No frame is listed twice.
    pub open spec fn wf(&self) -> bool {
        self.waiting@.no_duplicates()
    }

    /// Nothing is awaited.
    pub fn new() -> (p: Self)
        ensures
            p.wf(),
            p@ == Set::<u64>::empty(),
    {
        let p = PendingAcks { waiting: Vec::new() };
        assert(p@ =~= Set::<u64>::empty());
        p
    }

    /// The position of a frame.
    fn find(&self, frame_id: u64) -> (r: Option<usize>)
        ensures
            match r {
                Some(i) => i < self.waiting@.len() && self.waiting@[i as int] == frame_id,
                None => !self@.contains(frame_id),
            },
    {
        let mut i: usize = 0;
        while i < self.waiting.len()
            invariant
                i <= self.waiting@.len(),
                forall|j: int| 0 <= j < i ==> self.waiting@[j] != frame_id,
            decreases self.waiting@.len() - i,
        {
            if self.waiting[i] == frame_id {
                return Some(i);
            }
            i += 1;
        }
        None
    }

    /// Awaits the acknowledgement of a frame.
    pub fn expect(&mut self, frame_id: u64)
        requires
            old(self).wf(),
        ensures
            final(self).wf(),
            final(self)@ == old(self)@.insert(frame_id),
    {
        let ghost was = self.waiting@;
        match self.find(frame_id) {
            Some(i) => {
                assert(was[i as int] == frame_id);
                assert(self@ =~= was.to_set().insert(frame_id));
            },
            None => {
                self.waiting.push(frame_id);
                proof {
                    Seq::<u64>::lemma_to_set_insert_commutes(was, frame_id);
                    assert(self.waiting@ =~= was + seq![frame_id]);
                    assert(self.waiting@.no_duplicates()) by {
                        assert forall|a: int, b: int|
                            0 <= a < b < self.waiting@.len() implies self.waiting@[a]
                            != self.waiting@[b] by {
                            assert(was.contains(was[a]));
                        }
                    }
                }
            },
        }
    }

    /// Awaits a frame no longer; says whether it was awaited.
    pub fn forget(&mut self, frame_id: u64) -> (was: bool)
        requires
            old(self).wf(),
        ensures
            final(self).wf(),
            final(self)@ == old(self)@.remove(frame_id),
            was == old(self)@.contains(frame_id),
    {
        self.settle(&DeliverReply { frame_id, ok: false, error: String::new() }).is_some()
    }

    /// Takes in a reply: the outcome for the frame, if it was awaited.
    pub fn settle(&mut self, reply: &DeliverReply) -> (r: Option<Result<(), ConsistencyError>>)
        requires
            old(self).wf(),
        ensures
            final(self).wf(),
            settled(old(self)@, *reply, final(self)@, r),
    {
        let ghost was = self.waiting@;
        match self.find(reply.frame_id) {
            None => {
                assert(self@ =~= was.to_set().remove(reply.frame_id));
                None
            },
            Some(i) => {
                let _ = self.waiting.remove(i);
                proof {
                    let now = self.waiting@;
                    assert(now =~= was.remove(i as int));
                    assert(was.to_set().contains(was[i as int]));
                    assert forall|a: int, b: int| 0 <= a < b < now.len() implies now[a] != now[b] by {
                        let a2 = if a < i {
                            a
                        } else {
                            a + 1
                        };
                        let b2 = if b < i {
                            b
                        } else {
                            b + 1
                        };
                        assert(was[a2] != was[b2]);
                    }
                    assert forall|x: u64|
                        now.contains(x) <==> (was.contains(x) && x != reply.frame_id) by {
                        if was.contains(x) && x != reply.frame_id {
                            let j = was.index_of(x);
                            let j2 = if j < i {
                                j
                            } else {
                                j - 1
                            };
                            assert(now[j2] == x);
                        }
                        if now.contains(x) {
                            let j = now.index_of(x);
                            let j2 = if j < i {
                                j
                            } else {
                                j + 1
                            };
                            assert(was[j2] == x);
                        }
                    }
                    assert(self@ =~= was.to_set().remove(reply.frame_id));
                }
                if reply.ok {
                    Some(Ok(()))
                } else {
                    Some(Err(no_ack()))
                }
            },
        }
    }
}

/// What became of a request on the receiving node.
#[derive(Debug, PartialEq, Eq)]
pub enum DeliverOutcome {
    /// The payload did not decode; the decoder's message.
    DecodeFailed(String),
    /// No local actor has the requested name.
    NoTarget,
    /// The actor's mailbox refused the message; its message.
    ActorRefused(String),
    /// The mailbox is closed.
    MailboxClosed,
    /// The message was handed over.
    Delivered,
}

/// The error text of a reply.
pub open spec fn deliver_error(target: Seq<char>, outcome: DeliverOutcome) -> Seq<char> {
    match outcome {
        DeliverOutcome::DecodeFailed(e) => "decode: "@ + e@,
        DeliverOutcome::NoTarget => "no local actor for target "@ + target,
        DeliverOutcome::ActorRefused(e) => "actor mailbox: "@ + e@,
        DeliverOutcome::MailboxClosed => "mailbox closed"@,
        DeliverOutcome::Delivered => Seq::empty(),
    }
}

/// The reply to a frame, if one is expected.
pub open spec fn replied(
    req: DeliverRequest,
    outcome: DeliverOutcome,
    r: Option<DeliverReply>,
) -> bool {
    &&& r is Some <==> req.expect_ack
    &&& r matches Some(reply) ==> reply.frame_id == req.frame_id && reply.ok == (
    outcome is Delivered) && reply.error@ == deliver_error(req.target@, outcome)
}

/// The reply to a request, if it expects one.
pub fn deliver_reply(req: &DeliverRequest, outcome: &DeliverOutcome) -> (r: Option<DeliverReply>)
    ensures
        replied(*req, *outcome, r),
{
    if !req.expect_ack {
        return None;
    }
    let error: String = match outcome {
        DeliverOutcome::DecodeFailed(e) => concat2("decode: ", e.as_str()),
        DeliverOutcome::NoTarget => concat2("no local actor for target ", req.target.as_str()),
        DeliverOutcome::ActorRefused(e) => concat2("actor mailbox: ", e.as_str()),
        DeliverOutcome::MailboxClosed => "mailbox closed".to_string(),
        DeliverOutcome::Delivered => String::new(),
    };
    let ok: bool = matches!(outcome, DeliverOutcome::Delivered);
    Some(DeliverReply { frame_id: req.frame_id, ok, error })
}

/// The first failure of a broadcast, once every member was tried.
pub fn first_failure(results: Vec<(String, Result<(), IoError>)>) -> (r: Result<(), IoError>)
    ensures
        concluded_by(results@, r),
{
    let mut list = results;
    let ghost all = list@;
    let mut first: usize = 0;
    while first < list.len()
        invariant
            list@ == all,
            all == results@,
            first <= all.len(),
            forall|j: int| 0 <= j < first ==> (#[trigger] all[j]).1 is Ok,
        decreases all.len() - first,
    {
        if list[first].1.is_err() {
            let failed = list.remove(first);
            assert(all[first as int] == failed);
            return failed.1;
        }
        first += 1;
    }
    Ok(())
}

/// As many turns as there are references give each of them once: no member is
/// passed over and none is favoured. `before` holds the cluster before each turn
/// and after the last one.
pub proof fn law_every_member_gets_its_turn(
    before: Seq<Cluster>,
    given: Seq<RemoteActorRef>,
    i: int,
)
    requires
        before.len() == given.len() + 1,
        given.len() == before[0].refs@.len(),
        before[0].next + given.len() <= usize::MAX,
        forall|k: int|
            0 <= k < given.len() ==> took_turn(#[trigger] before[k], given[k], before[k + 1]),
        0 <= i < given.len(),
    ensures
        exists|k: int| 0 <= k < given.len() && #[trigger] given[k] == before[0].refs@[i],
        before.last().refs@ == before[0].refs@,
        before.last().members@ == before[0].members@,
{
    let n = given.len() as int;
    let start = before[0].next as int;
    lemma_turns(before, given, n);
    let k = if i >= start % n {
        i - start % n
    } else {
        i - start % n + n
    };
    lemma_turns(before, given, k);
    assert((start + k) % n == i) by {
        vstd::arithmetic::div_mod::lemma_fundamental_div_mod(start, n);
        let q = start / n;
        if i >= start % n {
            assert(start + k == q * n + i) by (nonlinear_arith)
                requires
                    start == n * q + start % n,
                    k == i - start % n,
            ;
            vstd::arithmetic::div_mod::lemma_fundamental_div_mod_converse_mod(start + k, n, q, i);
        } else {
            assert(start + k == (q + 1) * n + i) by (nonlinear_arith)
                requires
                    start == n * q + start % n,
                    k == i - start % n + n,
            ;
            vstd::arithmetic::div_mod::lemma_fundamental_div_mod_converse_mod(
                start + k,
                n,
                q + 1,
                i,
            );
        }
    }
    assert(took_turn(before[k], given[k], before[k + 1]));
    assert(given[k] == before[0].refs@[i]);
}

/// After some turns the count has moved on by as many.
proof fn lemma_turns(before: Seq<Cluster>, given: Seq<RemoteActorRef>, k: int)
    requires
        before.len() == given.len() + 1,
        before[0].next + given.len() <= usize::MAX,
        forall|k: int|
            0 <= k < given.len() ==> took_turn(#[trigger] before[k], given[k], before[k + 1]),
        0 <= k <= given.len(),
    ensures
        before[k].next == before[0].next + k,
        before[k].refs@ == before[0].refs@,
        before[k].members@ == before[0].members@,
    decreases k,
{
    if k > 0 {
        lemma_turns(before, given, k - 1);
        assert(took_turn(before[k - 1], given[k - 1], before[k - 1 + 1]));
    }
}

/// Who joins is a member, reached at the address and target it joined with, and
/// on the ring; everyone else stays. Leaving undoes it.
pub proof fn law_leaving_undoes_joining(
    before: Cluster,
    member: ClusterMember,
    between: Cluster,
    after: Cluster,
    r: Option<ClusterMember>,
    other: Seq<char>,
)
    requires
        before.wf(),
        before.unique(),
        !before.has_member(member.name@),
        between.wf(),
        joined_by(before, member, between),
        left_by(between, member.name@, after, r),
        other != member.name@,
    ensures
        between.roster().contains_key(member.name@),
        between.roster()[member.name@] == member,
        between.members@.last() == member,
        between.members@.len() == before.members@.len() + 1,
        between.ring.nodes@.contains_key(member.name@),
        between.refs@.last().node_addr@ == member.node_addr@,
        between.refs@.last().target@ == member.target@,
        between.roster().contains_key(other) <==> before.roster().contains_key(other),
        before.roster().contains_key(other) ==> between.roster()[other] == before.roster()[other],
        r == Some(member),
        !after.has_member(member.name@),
        after.roster() =~= before.roster(),
        after.ring.nodes@ =~= before.ring.nodes@,
        after.members@ =~= before.members@,
{
    before.lemma_roster();
    between.lemma_roster();
    let n = between.members@.len() - 1;
    assert(between.members@[n] == member);
    assert(between.has_member(member.name@));
    assert(between.refs@[n].node_addr == between.members@[n].node_addr);
    if before.ring.nodes@.contains_key(member.name@) {
        assert(before.refs_by_id@.contains_key(member.name@));
        assert(before.has_member(member.name@));
    }
}

/// A member without a datacenter of its own belongs to the local one, and every
/// other member to the one it names.
pub proof fn law_untagged_members_are_local(m: ClusterMember, local_dc: Seq<char>, dc: Seq<char>)
    ensures
        m.dc is None ==> m.effective_dc(local_dc) == local_dc && m.is_local(local_dc)
            && !m.tagged(dc),
        m.dc is Some ==> m.effective_dc(local_dc) == m.dc->0@ && (m.is_local(local_dc) <==> m.dc->0@
            == local_dc) && (m.tagged(dc) <==> m.dc->0@ == dc),
        m.is_local(local_dc) <==> m.effective_dc(local_dc) == local_dc,
{
}

/// An address that says how to reach it stays as it is; another one gets the
/// scheme in front, the encrypted one where there is encryption.
pub proof fn law_endpoint_has_a_scheme(addr: Seq<char>, tls: bool)
    ensures
        starts_with(addr, "http://"@) || starts_with(addr, "https://"@) ==> data_endpoint(addr, tls)
            == addr,
        !(starts_with(addr, "http://"@) || starts_with(addr, "https://"@)) ==> {
            let scheme = if tls {
                "https://"@
            } else {
                "http://"@
            };
            &&& starts_with(data_endpoint(addr, tls), scheme)
            &&& data_endpoint(addr, tls).skip(scheme.len() as int) == addr
            &&& data_endpoint(data_endpoint(addr, tls), !tls) == data_endpoint(addr, tls)
        },
{
    let scheme = if tls {
        "https://"@
    } else {
        "http://"@
    };
    let r = scheme + addr;
    assert(r.take(scheme.len() as int) =~= scheme);
    assert(r.skip(scheme.len() as int) =~= addr);
}

/// A send that was queued is sent. It is tried again at most once, and only
/// where the stream could not be opened or was closed; a second closed or missing
/// stream is a failure.
pub proof fn law_sends_are_tried_twice_at_most(attempt: u32, outcome: SendOutcome, s: SendStep)
    requires
        send_decided(attempt, outcome, s),
    ensures
        s is Sent <==> outcome == SendOutcome::Queued,
        attempt > 0 ==> !(s is Retry),
        outcome == SendOutcome::StreamMissing ==> s is Fail,
        attempt > 0 && outcome == SendOutcome::QueueClosed ==> s is Fail,
        attempt == 0 && (outcome == SendOutcome::QueueClosed || outcome
            == SendOutcome::StreamFailed) ==> s is Retry,
        s is Fail ==> s->Fail_0.kind == IoErrorKind::NotConnected,
{
}

/// A send that waits for an acknowledgement succeeds only with a positive one:
/// whatever is lost on the way, times out or cannot be sent is an error. It is
/// tried again at most once, and never after the frame may have been sent.
pub proof fn law_no_acknowledgement_no_success(
    attempt: u32,
    outcome: AckOutcome,
    timeout: Duration,
    s: AckStep,
)
    requires
        ack_decided(attempt, outcome, timeout, s),
    ensures
        s is Finish && s->Finish_0 is Ok <==> outcome is Answered && outcome->Answered_0 is Ok,
        s is Retry ==> attempt == 0 && (outcome is StreamMissing || outcome is QueueClosed),
        attempt == 0 && (outcome is StreamMissing || outcome is QueueClosed) ==> s is Retry,
        outcome is Answered ==> s == AckStep::Finish(outcome->Answered_0),
        outcome is TimedOut ==> s is Finish && s->Finish_0 is Err && s->Finish_0->Err_0
            == (ConsistencyError::Timeout { after: timeout }),
{
}

/// A frame that was delivered counts as acknowledged at its sender, and one that
/// was not counts as not; the second reply to a frame, or one to a frame that
/// nobody waits for, settles nothing, and no reply touches other frames.
pub proof fn law_replies_settle_their_own_frame(
    req: DeliverRequest,
    outcome: DeliverOutcome,
    reply: Option<DeliverReply>,
    before: Set<u64>,
    between: Set<u64>,
    after: Set<u64>,
    first: Option<Result<(), ConsistencyError>>,
    second: Option<Result<(), ConsistencyError>>,
    other: u64,
)
    requires
        replied(req, outcome, reply),
        req.expect_ack,
        before.contains(req.frame_id),
        reply is Some ==> settled(before, reply->0, between, first) && settled(
            between,
            reply->0,
            after,
            second,
        ),
        other != req.frame_id,
    ensures
        reply is Some,
        first is Some,
        first->0 is Ok <==> outcome is Delivered,
        second is None,
        !between.contains(req.frame_id),
        between.contains(other) <==> before.contains(other),
        after == between,
        reply->0.error@.len() > 0 <== !(outcome is Delivered),
        outcome is Delivered ==> reply->0.error@.len() == 0,
{
    assert(after =~= between);
    reveal_strlit("decode: ");
    reveal_strlit("no local actor for target ");
    reveal_strlit("actor mailbox: ");
    reveal_strlit("mailbox closed");
}

/// Until the count wraps around, no two frames get the same number.
pub proof fn law_frame_numbers_are_fresh(
    counters: Seq<FrameCounter>,
    ids: Seq<u64>,
    i: int,
    j: int,
)
    requires
        counters.len() == ids.len() + 1,
        counters[0].upcoming + ids.len() <= u64::MAX,
        forall|k: int|
            0 <= k < ids.len() ==> allocated(#[trigger] counters[k], ids[k], counters[k + 1]),
        0 <= i < j < ids.len(),
    ensures
        ids[i] < ids[j],
        ids[i] == counters[0].upcoming + i,
{
    lemma_numbers(counters, ids, i);
    lemma_numbers(counters, ids, j);
    assert(allocated(counters[i], ids[i], counters[i + 1]));
    assert(allocated(counters[j], ids[j], counters[j + 1]));
}

/// After some frames the count has moved on by as many.
proof fn lemma_numbers(counters: Seq<FrameCounter>, ids: Seq<u64>, k: int)
    requires
        counters.len() == ids.len() + 1,
        counters[0].upcoming + ids.len() <= u64::MAX,
        forall|k: int|
            0 <= k < ids.len() ==> allocated(#[trigger] counters[k], ids[k], counters[k + 1]),
        0 <= k <= ids.len(),
    ensures
        counters[k].upcoming == counters[0].upcoming + k,
    decreases k,
{
    if k > 0 {
        lemma_numbers(counters, ids, k - 1);
        assert(allocated(counters[k - 1], ids[k - 1], counters[k - 1 + 1]));
    }
}

/// The outcome of several sends: the first failure, if there is one.
pub open spec fn concluded_by(
    results: Seq<(String, Result<(), IoError>)>,
    r: Result<(), IoError>,
) -> bool {
    match r {
        Ok(_) => forall|i: int| 0 <= i < results.len() ==> (#[trigger] results[i]).1 is Ok,
        Err(e) => exists|i: int|
            0 <= i < results.len() && (#[trigger] results[i]).1 == Err::<(), IoError>(e)
                && forall|j: int| 0 <= j < i ==> (#[trigger] results[j]).1 is Ok,
    }
}

/// Several sends succeed together where each of them does; one failure is enough
/// to fail, and it is one that happened.
pub proof fn law_one_failure_is_enough(
    results: Seq<(String, Result<(), IoError>)>,
    r: Result<(), IoError>,
    k: int,
)
    requires
        concluded_by(results, r),
        0 <= k < results.len(),
    ensures
        results[k].1 is Err ==> r is Err,
        r is Err ==> exists|i: int| 0 <= i < results.len() && (#[trigger] results[i]).1 == r,
{
}

/// The members of a datacenter are those that name it, in their order; one that
/// names none is in none.
pub proof fn law_members_name_their_datacenter(c: Cluster, dc: Seq<char>, i: int)
    ensures
        c.tagged_indices(dc).contains(i) <==> 0 <= i < c.members@.len() && c.members@[i].dc is Some
            && c.members@[i].dc->0@ == dc,
        c.tagged_indices(dc).no_duplicates(),
{
    let all = upto(c.members@.len());
    lemma_filter_members(all, |i: int| c.members@[i].tagged(dc));
    assert(all.contains(i) <==> 0 <= i < c.members@.len()) by {
        if 0 <= i < c.members@.len() {
            assert(all[i] == i);
        }
    }
}

} // verus!
