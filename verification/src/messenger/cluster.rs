//! Clusters of gateways: who owns what, joining and leaving, and the handoff
//! of what another node owns from now on.
//!
//! Every user and group has a home node, chosen by consistent hashing over all
//! node ids. The home node owns the inbox or the group.

use crate::collections::{StrMap, StrSet};
use crate::hash_ring::{key_hash, with_vnodes, without_vnodes, HashRing, RingNode};
use crate::messenger::auth::HmacAuthenticator;
use crate::messenger::codec::{Packet, PacketView};
use crate::messenger::effects::{
    append_effects, effect_views, no_effects, push_effect, text_of, Effect, EffectView,
};
use crate::messenger::error::MessengerError;
use crate::messenger::groups::{build_group_handoff, carries, group_at, groups_wf, Group, GroupView};
use crate::messenger::inbox::{chats_of, groups_of, Inbox, InboxView};
use crate::messenger::journal::{inbox_at, sound};
use crate::messenger::wire::{
    PeerHandoffUserView, PeerJoin, PeerJoinView, PeerLeave, PeerLeaveView,
};
use crate::text::{same, strs};
use vstd::prelude::*;

verus! {

/// Virtual nodes per gateway on the cluster ring.
pub const CLUSTER_VNODES: u32 = 64;

/// One peer gateway.
#[derive(Debug, PartialEq, Eq)]
pub struct PeerAddr {
    /// Stable node id, which is the peer's own.
    pub node_id: String,
    /// `host:port` of the peer's listener.
    pub addr: String,
}

impl Clone for PeerAddr {
    fn clone(&self) -> (r: Self)
        ensures
            r == *self,
    {
        PeerAddr { node_id: self.node_id.clone(), addr: self.addr.clone() }
    }
}

/// Configuration of one node of a cluster.
#[derive(Debug)]
pub struct ClusterConfig {
    /// This node's id.
    pub node_id: String,
    /// All other nodes.
    pub peers: Vec<PeerAddr>,
    /// Shared secret of the links between nodes.
    pub peer_secret: String,
}

/// One node's view of its cluster.
pub struct ClusterState {
    pub node_id: String,
    pub ring: HashRing,
    /// Peers that this node has a link to.
    pub links: StrSet,
    pub peer_auth: HmacAuthenticator,
}

impl ClusterState {
    /// The ring and the links are well formed.
    pub open spec fn wf(&self) -> bool {
        &&& self.ring.wf()
        &&& self.links.wf()
    }

    /// The home node of a key; this node where the ring is empty.
    pub open spec fn home(&self, key: Seq<char>) -> Seq<char> {
        match self.ring.owner(key) {
            Some(n) => n,
            None => self.node_id@,
        }
    }

    /// Whether this node owns a key.
    pub open spec fn owns(&self, key: Seq<char>) -> bool {
        self.home(key) == self.node_id@
    }

    /// The home node of a key.
    pub fn home_of(&self, key: &str) -> (s: String)
        requires
            self.wf(),
        ensures
            s@ == self.home(key@),
    {
        match self.ring.get_node(key) {
            Some(n) => n.id.clone(),
            None => self.node_id.clone(),
        }
    }

    /// Whether this node owns a key.
    pub fn is_home(&self, key: &str) -> (r: bool)
        requires
            self.wf(),
        ensures
            r == self.owns(key@),
    {
        let home = self.home_of(key);
        same(home.as_str(), self.node_id.as_str())
    }

    /// The number of nodes on the ring.
    pub fn node_count(&self) -> (n: usize)
        requires
            self.wf(),
        ensures
            n == self.ring.nodes@.dom().len(),
    {
        self.ring.node_count()
    }

    /// The state that a configuration starts with: all nodes on the ring, and a
    /// link to every peer.
    pub fn new(cfg: &ClusterConfig) -> (c: Self)
        ensures
            c.wf(),
            c.node_id == cfg.node_id,
            c.links@ == peer_ids(cfg.peers@).to_set(),
            c.ring.nodes@.dom() == peer_ids(cfg.peers@).to_set().insert(cfg.node_id@),
            c.ring.virtual_nodes == CLUSTER_VNODES,
            c.ring.occupied() == ring_of(seq![cfg.node_id@] + peer_ids(cfg.peers@)),
            c.peer_auth.secret@ == vstd::utf8::encode_utf8(cfg.peer_secret@),
    {
        let mut ring = HashRing::new(CLUSTER_VNODES);
        assert(ring.occupied() =~= Map::<u64, Seq<char>>::empty());
        ring.add_node(RingNode::new(cfg.node_id.as_str(), "local", 0));
        let mut links = StrSet::new();
        let mut i: usize = 0;
        let ghost ids = peer_ids(cfg.peers@);
        assert(ids.take(0).to_set() =~= Set::<Seq<char>>::empty());
        assert(ring.nodes@.dom() =~= ids.take(0).to_set().insert(cfg.node_id@));
        proof {
            let one = seq![cfg.node_id@] + ids.take(0);
            assert(one.drop_last() =~= Seq::<Seq<char>>::empty());
            assert(one.last() == cfg.node_id@);
            assert(ring_of(one.drop_last()) =~= Map::<u64, Seq<char>>::empty());
            assert(ring_of(one) == with_vnodes(
                ring_of(one.drop_last()),
                one.last(),
                CLUSTER_VNODES as nat,
            ));
        }
        while i < cfg.peers.len()
            invariant
                i <= cfg.peers@.len(),
                ids == peer_ids(cfg.peers@),
                ring.wf(),
                links.wf(),
                ring.virtual_nodes == CLUSTER_VNODES,
                links@ == ids.take(i as int).to_set(),
                ring.nodes@.dom() == ids.take(i as int).to_set().insert(cfg.node_id@),
                ring.occupied() == ring_of(seq![cfg.node_id@] + ids.take(i as int)),
            decreases cfg.peers@.len() - i,
        {
            let ghost before = ring.nodes@.dom();
            ring.add_node(RingNode::new(cfg.peers[i].node_id.as_str(), "peer", 0));
            let _ = links.insert(cfg.peers[i].node_id.clone());
            proof {
                let a = ids.take(i as int);
                let b = ids.take(i as int + 1);
                let x = ids[i as int];
                assert(b =~= a.push(x));
                assert forall|q: Seq<char>| b.contains(q) <==> (a.contains(q) || q == x) by {
                    if a.contains(q) {
                        assert(b[a.index_of(q)] == q);
                    }
                    assert(b[i as int] == x);
                }
                assert(b.to_set() =~= a.to_set().insert(x));
                assert(ring.nodes@.dom() =~= before.insert(x));
                assert(ring.nodes@.dom() =~= b.to_set().insert(cfg.node_id@));
                let longer = seq![cfg.node_id@] + b;
                assert(longer.drop_last() =~= seq![cfg.node_id@] + a);
                assert(longer.last() == x);
            }
            i += 1;
        }
        assert(ids.take(i as int) =~= ids);
        ClusterState {
            node_id: cfg.node_id.clone(),
            ring,
            links,
            peer_auth: HmacAuthenticator::new(cfg.peer_secret.as_str().as_bytes()),
        }
    }
}

/// Who holds each ring position once some nodes joined, one after the other.
pub open spec fn ring_of(ids: Seq<Seq<char>>) -> Map<u64, Seq<char>>
    decreases ids.len(),
{
    if ids.len() == 0 {
        Map::empty()
    } else {
        with_vnodes(ring_of(ids.drop_last()), ids.last(), CLUSTER_VNODES as nat)
    }
}

/// The ids of some peers.
pub open spec fn peer_ids(peers: Seq<PeerAddr>) -> Seq<Seq<char>> {
    Seq::new(peers.len(), |i: int| peers[i].node_id@)
}

/// Whether the node owns a key; without a cluster it owns everything.
pub open spec fn is_home_spec(c: Option<ClusterState>, key: Seq<char>) -> bool {
    match c {
        Some(s) => s.owns(key),
        None => true,
    }
}

/// The other node that owns a key, if it is not this one.
pub open spec fn elsewhere(c: Option<ClusterState>, key: Seq<char>) -> Option<Seq<char>> {
    match c {
        Some(s) => if s.owns(key) {
            None
        } else {
            Some(s.home(key))
        },
        None => None,
    }
}

/// The cluster state, if any, is well formed.
pub open spec fn cluster_wf(c: Option<ClusterState>) -> bool {
    match c {
        Some(s) => s.wf(),
        None => true,
    }
}

/// Whether the node owns a key; without a cluster it owns everything.
pub fn is_home(c: &Option<ClusterState>, key: &str) -> (r: bool)
    requires
        cluster_wf(*c),
    ensures
        r == is_home_spec(*c, key@),
        r == (elsewhere(*c, key@) is None),
{
    match c {
        Some(s) => s.is_home(key),
        None => true,
    }
}

/// The other node that owns a key, if it is not this one.
pub fn home_elsewhere(c: &Option<ClusterState>, key: &str) -> (r: Option<String>)
    requires
        cluster_wf(*c),
    ensures
        text_of(r) == elsewhere(*c, key@),
{
    match c {
        Some(s) => {
            let home = s.home_of(key);
            if same(home.as_str(), s.node_id.as_str()) {
                None
            } else {
                Some(home)
            }
        },
        None => None,
    }
}

/// The number of nodes; one without a cluster.
pub fn cluster_size(c: &Option<ClusterState>) -> (n: usize)
    requires
        cluster_wf(*c),
    ensures
        n == (match *c {
            Some(s) => s.ring.nodes@.dom().len(),
            None => 1,
        }),
{
    match c {
        Some(s) => s.node_count(),
        None => 1,
    }
}

/// The id of the node; `local` without a cluster.
pub open spec fn node_name(c: Option<ClusterState>) -> Seq<char> {
    match c {
        Some(s) => s.node_id@,
        None => "local"@,
    }
}

/// The id of the node; `local` without a cluster.
pub fn node_id(c: &Option<ClusterState>) -> (s: String)
    ensures
        s@ == node_name(*c),
{
    match c {
        Some(s) => s.node_id.clone(),
        None => "local".to_string(),
    }
}

/// Whether the link to every other node of the ring is established.
pub open spec fn all_linked(c: Option<ClusterState>, established: Set<Seq<char>>) -> bool {
    match c {
        Some(s) => forall|n: Seq<char>|
            s.ring.nodes@.contains_key(n) && n != s.node_id@ ==> #[trigger] established.contains(n),
        None => true,
    }
}

/// Whether the gateway is ready: the link to every other node of the ring is
/// among those that are established.
pub fn gateway_ready(c: &Option<ClusterState>, established: &StrSet) -> (r: bool)
    requires
        cluster_wf(*c),
    ensures
        r == all_linked(*c, established@),
{
    let s = match c {
        None => {
            return true;
        },
        Some(s) => s,
    };
    let mut i: usize = 0;
    while i < s.ring.nodes.entries.len()
        invariant
            s.wf(),
            *c == Some(*s),
            i <= s.ring.nodes.entries@.len(),
            forall|j: int|
                0 <= j < i && s.ring.nodes.entries@[j].0@ != s.node_id@ ==> established@.contains(
                    (#[trigger] s.ring.nodes.entries@[j]).0@,
                ),
        decreases s.ring.nodes.entries@.len() - i,
    {
        let id = s.ring.nodes.entries[i].0.as_str();
        if !same(id, s.node_id.as_str()) && !established.contains(id) {
            proof {
                s.ring.nodes.lemma_entry(i as int);
                assert((*c)->0.ring.nodes@.contains_key(id@));
            }
            return false;
        }
        i += 1;
    }
    proof {
        assert forall|n: Seq<char>| #[trigger] s.ring.nodes@.contains_key(n) && n
            != s.node_id@ implies established@.contains(n) by {
            s.ring.nodes.lemma_key_has_entry(n);
            let j = choose|j: int|
                0 <= j < s.ring.nodes.entries@.len() && #[trigger] s.ring.nodes.entries@[j].0@ == n
                    && s.ring.nodes.entries@[j].1 == s.ring.nodes@[n];
            assert(established@.contains(s.ring.nodes.entries@[j].0@));
        }
    }
    true
}

/// Keys that a node owned and no longer owns.
pub open spec fn lost(before: ClusterState, after: ClusterState, key: Seq<char>) -> bool {
    before.owns(key) && !after.owns(key)
}

/// The list holds, each once, exactly the keys among `dom` that were lost.
pub open spec fn lists_lost(
    list: Seq<Seq<char>>,
    dom: Set<Seq<char>>,
    before: ClusterState,
    after: ClusterState,
) -> bool {
    &&& list.no_duplicates()
    &&& forall|k: Seq<char>| #[trigger]
        list.contains(k) <==> dom.contains(k) && lost(before, after, k)
}

/// Whether a handoff carries an inbox.
pub open spec fn carries_inbox(h: PeerHandoffUserView, user: Seq<char>, v: InboxView) -> bool {
    &&& h.user_id == user
    &&& h.next_seq == v.next_seq
    &&& h.seen.no_duplicates()
    &&& h.seen.to_set() == v.seen
    &&& h.chats == chats_of(v.pending)
    &&& h.groups == groups_of(v.pending)
}

/// The effect sends an inbox to a node.
pub open spec fn hands_over_inbox(
    e: EffectView,
    user: Seq<char>,
    v: InboxView,
    node: Seq<char>,
) -> bool {
    &&& e matches EffectView::ToPeer(n, p)
    &&& n == node
    &&& p matches PacketView::PeerHandoffUser(h)
    &&& carries_inbox(h, user, v)
}

/// The effect sends a group to a node.
pub open spec fn hands_over_group(
    e: EffectView,
    id: Seq<char>,
    g: GroupView,
    node: Seq<char>,
) -> bool {
    &&& e matches EffectView::ToPeer(n, p)
    &&& n == node
    &&& p matches PacketView::PeerHandoffGroup(h)
    &&& h.group_id == id
    &&& carries(h, g)
}

/// The effects send these inboxes, and then these groups, to their homes.
pub open spec fn hands_over(
    effects: Seq<EffectView>,
    users: Seq<Seq<char>>,
    inboxes: Map<Seq<char>, Inbox>,
    ids: Seq<Seq<char>>,
    groups: Map<Seq<char>, Group>,
    c: ClusterState,
) -> bool {
    &&& effects.len() == users.len() + ids.len()
    &&& forall|i: int|
        0 <= i < users.len() ==> hands_over_inbox(
            #[trigger] effects[i],
            users[i],
            inboxes[users[i]]@,
            c.home(users[i]),
        )
    &&& forall|i: int|
        users.len() <= i < effects.len() ==> hands_over_group(
            #[trigger] effects[i],
            ids[i - users.len()],
            groups[ids[i - users.len()]]@,
            c.home(ids[i - users.len()]),
        )
}

/// What a change of the ring does to what a node holds: lost inboxes and groups
/// are handed over to their new homes and dropped here, all else stays.
pub open spec fn rebalanced(
    before: ClusterState,
    after: ClusterState,
    inboxes: Map<Seq<char>, Inbox>,
    kept_inboxes: Map<Seq<char>, Inbox>,
    groups: Map<Seq<char>, Group>,
    kept_groups: Map<Seq<char>, Group>,
    effects: Seq<EffectView>,
) -> bool {
    &&& forall|u: Seq<char>| #[trigger]
        inbox_at(kept_inboxes, u) == (if lost(before, after, u) {
            None
        } else {
            inbox_at(inboxes, u)
        })
    &&& forall|k: Seq<char>| #[trigger]
        group_at(kept_groups, k) == (if lost(before, after, k) {
            None
        } else {
            group_at(groups, k)
        })
    &&& exists|users: Seq<Seq<char>>, ids: Seq<Seq<char>>|
        #![trigger lists_lost(users, inboxes.dom(), before, after), lists_lost(ids, groups.dom(), before, after)]
        lists_lost(users, inboxes.dom(), before, after) && lists_lost(
            ids,
            groups.dom(),
            before,
            after,
        ) && hands_over(effects, users, inboxes, ids, groups, after)
}

/// The keys of a map that a node owns.
fn owned_keys<V>(m: &StrMap<V>, c: &ClusterState) -> (v: Vec<String>)
    requires
        m.wf(),
        c.wf(),
    ensures
        strs(v@).no_duplicates(),
        forall|k: Seq<char>| #[trigger]
            strs(v@).contains(k) <==> m@.contains_key(k) && c.owns(k),
{
    let mut out: Vec<String> = Vec::new();
    let mut i: usize = 0;
    while i < m.entries.len()
        invariant
            m.wf(),
            c.wf(),
            i <= m.entries@.len(),
            strs(out@).no_duplicates(),
            forall|k: Seq<char>| #[trigger]
                strs(out@).contains(k) <==> m.keys().take(i as int).contains(k) && c.owns(k),
        decreases m.entries@.len() - i,
    {
        let ghost was = strs(out@);
        let ghost x = m.entries@[i as int].0@;
        let ghost a = m.keys().take(i as int);
        let ghost b = m.keys().take(i as int + 1);
        proof {
            assert(b =~= a.push(x));
            assert forall|q: Seq<char>| #[trigger] b.contains(q) <==> (a.contains(q) || q == x) by {
                if a.contains(q) {
                    assert(b[a.index_of(q)] == q);
                }
                assert(b[i as int] == x);
            }
            assert(!a.contains(x)) by {
                if a.contains(x) {
                    let j = a.index_of(x);
                    assert(m.keys()[j] == m.keys()[i as int]);
                }
            }
        }
        if c.is_home(m.entries[i].0.as_str()) {
            out.push(m.entries[i].0.clone());
            proof {
                assert(strs(out@) =~= was.push(x));
                assert(!was.contains(x));
                assert forall|q: Seq<char>| #[trigger] strs(out@).contains(q) <==> (was.contains(q)
                    || q == x) by {
                    if was.contains(q) {
                        assert(strs(out@)[was.index_of(q)] == q);
                    }
                    assert(strs(out@)[was.len() as int] == x);
                }
            }
        }
        i += 1;
    }
    assert(m.keys().take(i as int) =~= m.keys());
    out
}

/// The keys of a list that a node does not own.
fn lost_keys(owned: &Vec<String>, c: &ClusterState) -> (v: Vec<String>)
    requires
        strs(owned@).no_duplicates(),
        c.wf(),
    ensures
        strs(v@).no_duplicates(),
        forall|k: Seq<char>| #[trigger]
            strs(v@).contains(k) <==> strs(owned@).contains(k) && !c.owns(k),
{
    let mut out: Vec<String> = Vec::new();
    let mut i: usize = 0;
    let ghost all = strs(owned@);
    while i < owned.len()
        invariant
            all == strs(owned@),
            all.no_duplicates(),
            c.wf(),
            i <= owned@.len(),
            strs(out@).no_duplicates(),
            forall|k: Seq<char>| #[trigger]
                strs(out@).contains(k) <==> all.take(i as int).contains(k) && !c.owns(k),
        decreases owned@.len() - i,
    {
        let ghost was = strs(out@);
        let ghost x = all[i as int];
        let ghost a = all.take(i as int);
        let ghost b = all.take(i as int + 1);
        proof {
            assert(b =~= a.push(x));
            assert forall|q: Seq<char>| #[trigger] b.contains(q) <==> (a.contains(q) || q == x) by {
                if a.contains(q) {
                    assert(b[a.index_of(q)] == q);
                }
                assert(b[i as int] == x);
            }
            assert(!a.contains(x)) by {
                if a.contains(x) {
                    let j = a.index_of(x);
                    assert(all[j] == all[i as int]);
                }
            }
        }
        if !c.is_home(owned[i].as_str()) {
            out.push(owned[i].clone());
            proof {
                assert(strs(out@) =~= was.push(x));
                assert(!was.contains(x));
                assert forall|q: Seq<char>| #[trigger] strs(out@).contains(q) <==> (was.contains(q)
                    || q == x) by {
                    if was.contains(q) {
                        assert(strs(out@)[was.index_of(q)] == q);
                    }
                    assert(strs(out@)[was.len() as int] == x);
                }
            }
        }
        i += 1;
    }
    assert(all.take(i as int) =~= all);
    out
}

/// Hands inboxes over to their homes and drops them.
fn hand_over_inboxes(c: &ClusterState, inboxes: &mut StrMap<Inbox>, users: &Vec<String>) -> (v: Vec<
    Effect,
>)
    requires
        c.wf(),
        old(inboxes).wf(),
        sound(old(inboxes)@),
        strs(users@).no_duplicates(),
        forall|i: int|
            0 <= i < users@.len() ==> old(inboxes)@.contains_key((#[trigger] users@[i])@),
    ensures
        final(inboxes).wf(),
        sound(final(inboxes)@),
        forall|u: Seq<char>| #[trigger]
            inbox_at(final(inboxes)@, u) == (if strs(users@).contains(u) {
                None
            } else {
                inbox_at(old(inboxes)@, u)
            }),
        v@.len() == users@.len(),
        forall|i: int|
            0 <= i < v@.len() ==> hands_over_inbox(
                (#[trigger] v@[i])@,
                users@[i]@,
                old(inboxes)@[users@[i]@]@,
                c.home(users@[i]@),
            ),
{
    let ghost all = strs(users@);
    let ghost was = inboxes@;
    let mut out: Vec<Effect> = Vec::new();
    let mut i: usize = 0;
    while i < users.len()
        invariant
            c.wf(),
            all == strs(users@),
            all.no_duplicates(),
            was == old(inboxes)@,
            inboxes.wf(),
            sound(was),
            sound(inboxes@),
            i <= users@.len(),
            forall|j: int| 0 <= j < users@.len() ==> was.contains_key((#[trigger] users@[j])@),
            forall|u: Seq<char>| #[trigger]
                inbox_at(inboxes@, u) == (if all.take(i as int).contains(u) {
                    None
                } else {
                    inbox_at(was, u)
                }),
            out@.len() == i,
            forall|j: int|
                0 <= j < i ==> hands_over_inbox(
                    (#[trigger] out@[j])@,
                    users@[j]@,
                    was[users@[j]@]@,
                    c.home(users@[j]@),
                ),
        decreases users@.len() - i,
    {
        let ghost x = all[i as int];
        let ghost a = all.take(i as int);
        let ghost b = all.take(i as int + 1);
        proof {
            assert(b =~= a.push(x));
            assert forall|q: Seq<char>| #[trigger] b.contains(q) <==> (a.contains(q) || q == x) by {
                if a.contains(q) {
                    assert(b[a.index_of(q)] == q);
                }
                assert(b[i as int] == x);
            }
            assert(!a.contains(x)) by {
                if a.contains(x) {
                    let j = a.index_of(x);
                    assert(all[j] == all[i as int]);
                }
            }
            assert(was.contains_key(users@[i as int]@));
            assert(inbox_at(inboxes@, x) == inbox_at(was, x));
        }
        let user = users[i].as_str();
        let ghost before = inboxes@;
        match inboxes.remove(user) {
            Some(inbox) => {
                assert(inbox@ == was[x]@);
                let h = inbox.build_handoff(user);
                assert(carries_inbox(h@, x, was[x]@));
                let node = c.home_of(user);
                out.push(Effect::ToPeer(node, Packet::PeerHandoffUser(h)));
                assert(hands_over_inbox(out@[i as int]@, x, was[x]@, c.home(x)));
            },
            None => {},
        }
        proof {
            assert forall|u: Seq<char>| #[trigger] inbox_at(inboxes@, u) == (if b.contains(u) {
                None
            } else {
                inbox_at(was, u)
            }) by {
                assert(inbox_at(before, u) == (if a.contains(u) {
                    None
                } else {
                    inbox_at(was, u)
                }));
            }
        }
        i += 1;
    }
    assert(all.take(i as int) =~= all);
    out
}

/// Hands groups over to their homes and drops them.
fn hand_over_groups(c: &ClusterState, groups: &mut StrMap<Group>, ids: &Vec<String>) -> (v: Vec<
    Effect,
>)
    requires
        c.wf(),
        old(groups).wf(),
        groups_wf(old(groups)@),
        strs(ids@).no_duplicates(),
        forall|i: int| 0 <= i < ids@.len() ==> old(groups)@.contains_key((#[trigger] ids@[i])@),
    ensures
        final(groups).wf(),
        groups_wf(final(groups)@),
        forall|k: Seq<char>| #[trigger]
            group_at(final(groups)@, k) == (if strs(ids@).contains(k) {
                None
            } else {
                group_at(old(groups)@, k)
            }),
        v@.len() == ids@.len(),
        forall|i: int|
            0 <= i < v@.len() ==> hands_over_group(
                (#[trigger] v@[i])@,
                ids@[i]@,
                old(groups)@[ids@[i]@]@,
                c.home(ids@[i]@),
            ),
{
    let ghost all = strs(ids@);
    let ghost was = groups@;
    let mut out: Vec<Effect> = Vec::new();
    let mut i: usize = 0;
    while i < ids.len()
        invariant
            c.wf(),
            all == strs(ids@),
            all.no_duplicates(),
            was == old(groups)@,
            groups.wf(),
            groups_wf(was),
            groups_wf(groups@),
            i <= ids@.len(),
            forall|j: int| 0 <= j < ids@.len() ==> was.contains_key((#[trigger] ids@[j])@),
            forall|k: Seq<char>| #[trigger]
                group_at(groups@, k) == (if all.take(i as int).contains(k) {
                    None
                } else {
                    group_at(was, k)
                }),
            out@.len() == i,
            forall|j: int|
                0 <= j < i ==> hands_over_group(
                    (#[trigger] out@[j])@,
                    ids@[j]@,
                    was[ids@[j]@]@,
                    c.home(ids@[j]@),
                ),
        decreases ids@.len() - i,
    {
        let ghost x = all[i as int];
        let ghost a = all.take(i as int);
        let ghost b = all.take(i as int + 1);
        proof {
            assert(b =~= a.push(x));
            assert forall|q: Seq<char>| #[trigger] b.contains(q) <==> (a.contains(q) || q == x) by {
                if a.contains(q) {
                    assert(b[a.index_of(q)] == q);
                }
                assert(b[i as int] == x);
            }
            assert(!a.contains(x)) by {
                if a.contains(x) {
                    let j = a.index_of(x);
                    assert(all[j] == all[i as int]);
                }
            }
            assert(was.contains_key(ids@[i as int]@));
            assert(group_at(groups@, x) == group_at(was, x));
        }
        let id = ids[i].as_str();
        let ghost before = groups@;
        match groups.remove(id) {
            Some(g) => {
                assert(g@ == was[x]@);
                let h = build_group_handoff(id, &g);
                assert(carries(h@, was[x]@));
                let node = c.home_of(id);
                out.push(Effect::ToPeer(node, Packet::PeerHandoffGroup(h)));
                assert(hands_over_group(out@[i as int]@, x, was[x]@, c.home(x)));
            },
            None => {},
        }
        proof {
            assert forall|k: Seq<char>| #[trigger] group_at(groups@, k) == (if b.contains(k) {
                None
            } else {
                group_at(was, k)
            }) by {
                assert(group_at(before, k) == (if a.contains(k) {
                    None
                } else {
                    group_at(was, k)
                }));
            }
        }
        i += 1;
    }
    assert(all.take(i as int) =~= all);
    out
}

/// The ring once a node joined; one that is already there changes nothing.
pub open spec fn ring_joined(before: HashRing, after: HashRing, id: Seq<char>) -> bool {
    if before.nodes@.contains_key(id) {
        after == before
    } else {
        &&& after.virtual_nodes == before.virtual_nodes
        &&& after.nodes@.dom() == before.nodes@.dom().insert(id)
        &&& after.occupied() == with_vnodes(
            before.occupied(),
            id,
            before.virtual_nodes as nat,
        )
    }
}

/// The ring once a node left; one that is not there changes nothing.
pub open spec fn ring_left(before: HashRing, after: HashRing, id: Seq<char>) -> bool {
    if before.nodes@.contains_key(id) {
        &&& after.virtual_nodes == before.virtual_nodes
        &&& after.nodes@.dom() == before.nodes@.dom().remove(id)
        &&& after.occupied() == without_vnodes(
            before.occupied(),
            id,
            before.virtual_nodes as nat,
        )
    } else {
        after == before
    }
}

/// Puts a node on the ring, or takes it off, and hands over what is lost.
fn change_ring(
    c: &mut ClusterState,
    inboxes: &mut StrMap<Inbox>,
    groups: &mut StrMap<Group>,
    node: &str,
    joins: bool,
) -> (v: Vec<Effect>)
    requires
        old(c).wf(),
        old(inboxes).wf(),
        sound(old(inboxes)@),
        old(groups).wf(),
        groups_wf(old(groups)@),
    ensures
        final(c).wf(),
        final(c).node_id == old(c).node_id,
        final(c).links == old(c).links,
        final(c).peer_auth == old(c).peer_auth,
        joins ==> ring_joined(old(c).ring, final(c).ring, node@),
        !joins ==> ring_left(old(c).ring, final(c).ring, node@),
        final(inboxes).wf(),
        sound(final(inboxes)@),
        final(groups).wf(),
        groups_wf(final(groups)@),
        rebalanced(
            *old(c),
            *final(c),
            old(inboxes)@,
            final(inboxes)@,
            old(groups)@,
            final(groups)@,
            effect_views(v@),
        ),
{
    let ghost before = *c;
    let ghost iv = inboxes@;
    let ghost gv = groups@;
    let users = owned_keys(inboxes, c);
    let ids = owned_keys(groups, c);
    if joins {
        if !c.ring.contains(node) {
            c.ring.add_node(RingNode::new(node, "peer", 0));
            assert(c.ring.nodes@.dom() =~= before.ring.nodes@.dom().insert(node@));
        }
    } else {
        let _ = c.ring.remove_node(node);
        proof {
            if before.ring.nodes@.contains_key(node@) {
                assert(c.ring.nodes@.dom() =~= before.ring.nodes@.dom().remove(node@));
            }
        }
    }
    let ghost after = *c;
    let lost_users = lost_keys(&users, c);
    let lost_ids = lost_keys(&ids, c);
    let ghost us = strs(lost_users@);
    let ghost gs = strs(lost_ids@);
    proof {
        assert forall|i: int| 0 <= i < lost_users@.len() implies iv.contains_key(
            (#[trigger] lost_users@[i])@,
        ) by {
            assert(us[i] == lost_users@[i]@);
            assert(us.contains(us[i]));
            assert(strs(users@).contains(us[i]));
        }
        assert forall|i: int| 0 <= i < lost_ids@.len() implies gv.contains_key(
            (#[trigger] lost_ids@[i])@,
        ) by {
            assert(gs[i] == lost_ids@[i]@);
            assert(gs.contains(gs[i]));
            assert(strs(ids@).contains(gs[i]));
        }
    }
    let mut out = hand_over_inboxes(c, inboxes, &lost_users);
    let more = hand_over_groups(c, groups, &lost_ids);
    let ghost eu = effect_views(out@);
    let ghost eg = effect_views(more@);
    append_effects(&mut out, more);
    proof {
        let e = effect_views(out@);
        assert(e =~= eu + eg);
        assert forall|k: Seq<char>| #[trigger] us.contains(k) <==> iv.dom().contains(k) && lost(
            before,
            after,
            k,
        ) by {
            if us.contains(k) {
                assert(strs(users@).contains(k));
            }
            if iv.dom().contains(k) && lost(before, after, k) {
                assert(strs(users@).contains(k));
            }
        }
        assert forall|k: Seq<char>| #[trigger] gs.contains(k) <==> gv.dom().contains(k) && lost(
            before,
            after,
            k,
        ) by {
            if gs.contains(k) {
                assert(strs(ids@).contains(k));
            }
            if gv.dom().contains(k) && lost(before, after, k) {
                assert(strs(ids@).contains(k));
            }
        }
        assert(lists_lost(us, iv.dom(), before, after));
        assert(lists_lost(gs, gv.dom(), before, after));
        assert(hands_over(e, us, iv, gs, gv, after)) by {
            assert forall|i: int| 0 <= i < us.len() implies hands_over_inbox(
                #[trigger] e[i],
                us[i],
                iv[us[i]]@,
                after.home(us[i]),
            ) by {
                assert(e[i] == eu[i]);
            }
            assert forall|i: int| us.len() <= i < e.len() implies hands_over_group(
                #[trigger] e[i],
                gs[i - us.len()],
                gv[gs[i - us.len()]]@,
                after.home(gs[i - us.len()]),
            ) by {
                assert(e[i] == eg[i - us.len()]);
            }
        }
        assert forall|u: Seq<char>| #[trigger] inbox_at(inboxes@, u) == (if lost(
            before,
            after,
            u,
        ) {
            None
        } else {
            inbox_at(iv, u)
        }) by {
            assert(us.contains(u) <==> iv.dom().contains(u) && lost(before, after, u));
        }
        assert forall|k: Seq<char>| #[trigger] group_at(groups@, k) == (if lost(
            before,
            after,
            k,
        ) {
            None
        } else {
            group_at(gv, k)
        }) by {
            assert(gs.contains(k) <==> gv.dom().contains(k) && lost(before, after, k));
        }
    }
    out
}

/// What the arrival of a peer does: it is linked and put on the ring, the other
/// peers are told, and what is lost is handed over.
pub open spec fn peer_arrived(
    before: ClusterState,
    after: ClusterState,
    id: Seq<char>,
    addr: Seq<char>,
    told_by: Seq<char>,
    inboxes: Map<Seq<char>, Inbox>,
    kept_inboxes: Map<Seq<char>, Inbox>,
    groups: Map<Seq<char>, Group>,
    kept_groups: Map<Seq<char>, Group>,
    effects: Seq<EffectView>,
) -> bool {
    &&& after.node_id == before.node_id
    &&& after.peer_auth == before.peer_auth
    &&& after.links@ == before.links@.insert(id)
    &&& ring_joined(before.ring, after.ring, id)
    &&& effects.len() >= 2
    &&& effects[0] == EffectView::OpenLink(id, addr)
    &&& effects[1] == EffectView::ToPeers(
        PacketView::PeerJoin(PeerJoinView { node_id: id, addr }),
        Some(told_by),
    )
    &&& rebalanced(
        before,
        after,
        inboxes,
        kept_inboxes,
        groups,
        kept_groups,
        effects.skip(2),
    )
}

/// What the departure of a peer does: it leaves the ring, its link is closed,
/// and what is lost is handed over.
pub open spec fn peer_departed(
    before: ClusterState,
    after: ClusterState,
    id: Seq<char>,
    inboxes: Map<Seq<char>, Inbox>,
    kept_inboxes: Map<Seq<char>, Inbox>,
    groups: Map<Seq<char>, Group>,
    kept_groups: Map<Seq<char>, Group>,
    effects: Seq<EffectView>,
) -> bool {
    &&& after.node_id == before.node_id
    &&& after.peer_auth == before.peer_auth
    &&& after.links@ == before.links@.remove(id)
    &&& ring_left(before.ring, after.ring, id)
    &&& effects.len() >= 1
    &&& effects[0] == EffectView::CloseLink(id)
    &&& rebalanced(
        before,
        after,
        inboxes,
        kept_inboxes,
        groups,
        kept_groups,
        effects.skip(1),
    )
}

/// Homes do not depend on the links.
proof fn lemma_links_do_not_matter(
    before: ClusterState,
    mid: ClusterState,
    after: ClusterState,
    inboxes: Map<Seq<char>, Inbox>,
    kept_inboxes: Map<Seq<char>, Inbox>,
    groups: Map<Seq<char>, Group>,
    kept_groups: Map<Seq<char>, Group>,
    effects: Seq<EffectView>,
)
    requires
        rebalanced(before, mid, inboxes, kept_inboxes, groups, kept_groups, effects),
        mid.ring == after.ring,
        mid.node_id == after.node_id,
    ensures
        rebalanced(before, after, inboxes, kept_inboxes, groups, kept_groups, effects),
{
    assert forall|k: Seq<char>| #[trigger] after.home(k) == mid.home(k) by {}
    assert forall|k: Seq<char>| #[trigger] lost(before, after, k) == lost(before, mid, k) by {
        assert(after.home(k) == mid.home(k));
    }
    let (users, ids) = choose|users: Seq<Seq<char>>, ids: Seq<Seq<char>>|
        #![trigger lists_lost(users, inboxes.dom(), before, mid), lists_lost(ids, groups.dom(), before, mid)]
        lists_lost(users, inboxes.dom(), before, mid) && lists_lost(
            ids,
            groups.dom(),
            before,
            mid,
        ) && hands_over(effects, users, inboxes, ids, groups, mid);
    assert(lists_lost(users, inboxes.dom(), before, after));
    assert(lists_lost(ids, groups.dom(), before, after));
    assert(hands_over(effects, users, inboxes, ids, groups, after));
}

/// Links a peer and puts it on the ring.
fn welcome_peer(
    c: &mut ClusterState,
    inboxes: &mut StrMap<Inbox>,
    groups: &mut StrMap<Group>,
    id: &str,
    addr: &str,
    told_by: &str,
) -> (v: Vec<Effect>)
    requires
        old(c).wf(),
        old(inboxes).wf(),
        sound(old(inboxes)@),
        old(groups).wf(),
        groups_wf(old(groups)@),
    ensures
        final(c).wf(),
        final(inboxes).wf(),
        sound(final(inboxes)@),
        final(groups).wf(),
        groups_wf(final(groups)@),
        peer_arrived(
            *old(c),
            *final(c),
            id@,
            addr@,
            told_by@,
            old(inboxes)@,
            final(inboxes)@,
            old(groups)@,
            final(groups)@,
            effect_views(v@),
        ),
{
    let ghost before = *c;
    let handoffs = change_ring(c, inboxes, groups, id, true);
    let ghost mid = *c;
    let ghost he = effect_views(handoffs@);
    let _ = c.links.insert(id.to_string());
    proof {
        lemma_links_do_not_matter(
            before,
            mid,
            *c,
            old(inboxes)@,
            inboxes@,
            old(groups)@,
            groups@,
            he,
        );
    }
    let mut out = no_effects();
    push_effect(&mut out, Effect::OpenLink(id.to_string(), addr.to_string()));
    push_effect(
        &mut out,
        Effect::ToPeers(
            Packet::PeerJoin(PeerJoin { node_id: id.to_string(), addr: addr.to_string() }),
            Some(told_by.to_string()),
        ),
    );
    append_effects(&mut out, handoffs);
    assert(effect_views(out@).skip(2) =~= he);
    out
}

/// Unlinks a peer and takes it off the ring.
fn drop_peer(
    c: &mut ClusterState,
    inboxes: &mut StrMap<Inbox>,
    groups: &mut StrMap<Group>,
    id: &str,
) -> (v: Vec<Effect>)
    requires
        old(c).wf(),
        old(inboxes).wf(),
        sound(old(inboxes)@),
        old(groups).wf(),
        groups_wf(old(groups)@),
    ensures
        final(c).wf(),
        final(inboxes).wf(),
        sound(final(inboxes)@),
        final(groups).wf(),
        groups_wf(final(groups)@),
        peer_departed(
            *old(c),
            *final(c),
            id@,
            old(inboxes)@,
            final(inboxes)@,
            old(groups)@,
            final(groups)@,
            effect_views(v@),
        ),
{
    let ghost before = *c;
    let handoffs = change_ring(c, inboxes, groups, id, false);
    let ghost mid = *c;
    let ghost he = effect_views(handoffs@);
    let _ = c.links.remove(id);
    proof {
        lemma_links_do_not_matter(
            before,
            mid,
            *c,
            old(inboxes)@,
            inboxes@,
            old(groups)@,
            groups@,
            he,
        );
    }
    let mut out = no_effects();
    push_effect(&mut out, Effect::CloseLink(id.to_string()));
    append_effects(&mut out, handoffs);
    assert(effect_views(out@).skip(1) =~= he);
    out
}

/// Nothing changed.
pub open spec fn unchanged(
    before: Option<ClusterState>,
    after: Option<ClusterState>,
    inboxes: Map<Seq<char>, Inbox>,
    kept_inboxes: Map<Seq<char>, Inbox>,
    groups: Map<Seq<char>, Group>,
    kept_groups: Map<Seq<char>, Group>,
) -> bool {
    before == after && inboxes == kept_inboxes && groups == kept_groups
}

/// Why a peer is not added, if it is refused.
pub open spec fn add_refusal(c: Option<ClusterState>, id: Seq<char>) -> Option<Seq<char>> {
    match c {
        None => Some("add_peer requires bind_cluster"@),
        Some(s) => if id == s.node_id@ {
            Some("cannot add self as peer"@)
        } else {
            None
        },
    }
}

/// Adds a peer to a running cluster. One that is linked already changes
/// nothing.
pub fn add_peer(
    cluster: &mut Option<ClusterState>,
    inboxes: &mut StrMap<Inbox>,
    groups: &mut StrMap<Group>,
    peer: &PeerAddr,
) -> (r: Result<Vec<Effect>, MessengerError>)
    requires
        cluster_wf(*old(cluster)),
        old(inboxes).wf(),
        sound(old(inboxes)@),
        old(groups).wf(),
        groups_wf(old(groups)@),
    ensures
        cluster_wf(*final(cluster)),
        final(inboxes).wf(),
        sound(final(inboxes)@),
        final(groups).wf(),
        groups_wf(final(groups)@),
        peer_added(
            *old(cluster),
            *final(cluster),
            *peer,
            old(inboxes)@,
            final(inboxes)@,
            old(groups)@,
            final(groups)@,
            r,
        ),
{
    match cluster {
        None => Err(MessengerError::Protocol("add_peer requires bind_cluster".to_string())),
        Some(c) => {
            if same(peer.node_id.as_str(), c.node_id.as_str()) {
                return Err(MessengerError::Protocol("cannot add self as peer".to_string()));
            }
            if c.links.contains(peer.node_id.as_str()) {
                return Ok(Vec::new());
            }
            Ok(
                welcome_peer(
                    c,
                    inboxes,
                    groups,
                    peer.node_id.as_str(),
                    peer.addr.as_str(),
                    peer.node_id.as_str(),
                ),
            )
        },
    }
}

/// Why a peer is not removed, if it is refused.
pub open spec fn remove_refusal(c: Option<ClusterState>, id: Seq<char>) -> Option<Seq<char>> {
    match c {
        None => Some("remove_peer requires bind_cluster"@),
        Some(s) => if id == s.node_id@ {
            Some("cannot remove self"@)
        } else {
            None
        },
    }
}

/// Removes a peer from a running cluster; the other peers are told first.
pub fn remove_peer(
    cluster: &mut Option<ClusterState>,
    inboxes: &mut StrMap<Inbox>,
    groups: &mut StrMap<Group>,
    node: &str,
) -> (r: Result<Vec<Effect>, MessengerError>)
    requires
        cluster_wf(*old(cluster)),
        old(inboxes).wf(),
        sound(old(inboxes)@),
        old(groups).wf(),
        groups_wf(old(groups)@),
    ensures
        cluster_wf(*final(cluster)),
        final(inboxes).wf(),
        sound(final(inboxes)@),
        final(groups).wf(),
        groups_wf(final(groups)@),
        peer_removed(
            *old(cluster),
            *final(cluster),
            node@,
            old(inboxes)@,
            final(inboxes)@,
            old(groups)@,
            final(groups)@,
            r,
        ),
{
    match cluster {
        None => Err(MessengerError::Protocol("remove_peer requires bind_cluster".to_string())),
        Some(c) => {
            if same(node, c.node_id.as_str()) {
                return Err(MessengerError::Protocol("cannot remove self".to_string()));
            }
            let mut out = no_effects();
            push_effect(
                &mut out,
                Effect::ToPeers(
                    Packet::PeerLeave(PeerLeave { node_id: node.to_string() }),
                    Some(node.to_string()),
                ),
            );
            let more = drop_peer(c, inboxes, groups, node);
            let ghost me = effect_views(more@);
            append_effects(&mut out, more);
            assert(effect_views(out@).skip(1) =~= me);
            assert(effect_views(out@)[0] == out@[0]@);
            Ok(out)
        },
    }
}

/// Whether the news of a peer's arrival is news.
pub open spec fn join_is_news(c: Option<ClusterState>, id: Seq<char>) -> bool {
    match c {
        None => false,
        Some(s) => id.len() > 0 && id != s.node_id@ && !(s.links@.contains(id)
            && s.ring.nodes@.contains_key(id)),
    }
}

/// A peer tells that another one joined.
pub fn handle_peer_join(
    cluster: &mut Option<ClusterState>,
    inboxes: &mut StrMap<Inbox>,
    groups: &mut StrMap<Group>,
    origin: &str,
    join: &PeerJoin,
) -> (v: Vec<Effect>)
    requires
        cluster_wf(*old(cluster)),
        old(inboxes).wf(),
        sound(old(inboxes)@),
        old(groups).wf(),
        groups_wf(old(groups)@),
    ensures
        cluster_wf(*final(cluster)),
        final(inboxes).wf(),
        sound(final(inboxes)@),
        final(groups).wf(),
        groups_wf(final(groups)@),
        if join_is_news(*old(cluster), join@.node_id) {
            &&& *final(cluster) is Some
            &&& peer_arrived(
                (*old(cluster))->0,
                (*final(cluster))->0,
                join@.node_id,
                join@.addr,
                origin@,
                old(inboxes)@,
                final(inboxes)@,
                old(groups)@,
                final(groups)@,
                effect_views(v@),
            )
        } else {
            &&& v@.len() == 0
            &&& unchanged(
                *old(cluster),
                *final(cluster),
                old(inboxes)@,
                final(inboxes)@,
                old(groups)@,
                final(groups)@,
            )
        },
{
    match cluster {
        None => Vec::new(),
        Some(c) => {
            let id = join.node_id.as_str();
            if id.is_empty() || same(id, c.node_id.as_str()) {
                return Vec::new();
            }
            if c.links.contains(id) && c.ring.contains(id) {
                return Vec::new();
            }
            welcome_peer(c, inboxes, groups, id, join.addr.as_str(), origin)
        },
    }
}

/// A peer tells that another one left.
pub fn handle_peer_leave(
    cluster: &mut Option<ClusterState>,
    inboxes: &mut StrMap<Inbox>,
    groups: &mut StrMap<Group>,
    leave: &PeerLeave,
) -> (v: Vec<Effect>)
    requires
        cluster_wf(*old(cluster)),
        old(inboxes).wf(),
        sound(old(inboxes)@),
        old(groups).wf(),
        groups_wf(old(groups)@),
    ensures
        cluster_wf(*final(cluster)),
        final(inboxes).wf(),
        sound(final(inboxes)@),
        final(groups).wf(),
        groups_wf(final(groups)@),
        if *old(cluster) is Some && leave@.node_id.len() > 0 && leave@.node_id != (*old(cluster))->0.node_id@ {
            &&& *final(cluster) is Some
            &&& peer_departed(
                (*old(cluster))->0,
                (*final(cluster))->0,
                leave@.node_id,
                old(inboxes)@,
                final(inboxes)@,
                old(groups)@,
                final(groups)@,
                effect_views(v@),
            )
        } else {
            &&& v@.len() == 0
            &&& unchanged(
                *old(cluster),
                *final(cluster),
                old(inboxes)@,
                final(inboxes)@,
                old(groups)@,
                final(groups)@,
            )
        },
{
    match cluster {
        None => Vec::new(),
        Some(c) => {
            let id = leave.node_id.as_str();
            if id.is_empty() || same(id, c.node_id.as_str()) {
                return Vec::new();
            }
            drop_peer(c, inboxes, groups, id)
        },
    }
}

/// When a peer arrives, what is lost is lost to that peer alone.
pub proof fn law_arrival_moves_keys_to_the_newcomer(
    before: ClusterState,
    after: ClusterState,
    id: Seq<char>,
    key: Seq<char>,
)
    requires
        before.wf(),
        after.wf(),
        after.node_id == before.node_id,
        ring_joined(before.ring, after.ring, id),
        lost(before, after, key),
    ensures
        after.home(key) == id,
{
    if !before.ring.nodes@.contains_key(id) {
        HashRing::law_adding_moves_keys_only_to_the_new_node(before.ring, after.ring, id, key_hash(key));
    }
}

/// Milliseconds before the first attempt to restore a peer link.
pub const FIRST_RECONNECT_MILLIS: u64 = 100;

/// Most milliseconds between two attempts to restore a peer link.
pub const LAST_RECONNECT_MILLIS: u64 = 5_000;

/// The delay after one more failed attempt: twice the last one, up to five
/// seconds.
pub fn next_reconnect_millis(last: u64) -> (r: u64)
    ensures
        r == (if 2 * last <= LAST_RECONNECT_MILLIS {
            2 * last
        } else {
            LAST_RECONNECT_MILLIS as int
        }),
{
    if last <= LAST_RECONNECT_MILLIS / 2 {
        2 * last
    } else {
        LAST_RECONNECT_MILLIS
    }
}

/// When the nodes change, nothing that this node owned is lost: an inbox or a
/// group that belongs to another node from now on is no longer here, and one
/// packet hands it to that node, whole. Everything else stays as it was.
pub proof fn law_what_moves_is_handed_over(
    before: ClusterState,
    after: ClusterState,
    inboxes: Map<Seq<char>, Inbox>,
    kept_inboxes: Map<Seq<char>, Inbox>,
    groups: Map<Seq<char>, Group>,
    kept_groups: Map<Seq<char>, Group>,
    effects: Seq<EffectView>,
    key: Seq<char>,
)
    requires
        rebalanced(before, after, inboxes, kept_inboxes, groups, kept_groups, effects),
    ensures
        inboxes.contains_key(key) && before.home(key) == before.node_id@ && after.home(key)
            != after.node_id@ ==> {
            &&& !kept_inboxes.contains_key(key)
            &&& exists|i: int|
                0 <= i < effects.len() && (#[trigger] effects[i]) is ToPeer
                    && effects[i]->ToPeer_0 == after.home(key) && effects[i]->ToPeer_1
                    is PeerHandoffUser && ({
                    let h = effects[i]->ToPeer_1->PeerHandoffUser_0;
                    &&& h.user_id == key
                    &&& h.next_seq == inboxes[key]@.next_seq
                    &&& h.seen.to_set() == inboxes[key]@.seen
                    &&& h.chats == chats_of(inboxes[key]@.pending)
                    &&& h.groups == groups_of(inboxes[key]@.pending)
                })
        },
        !(before.home(key) == before.node_id@ && after.home(key) != after.node_id@) ==> {
            &&& kept_inboxes.contains_key(key) <==> inboxes.contains_key(key)
            &&& inboxes.contains_key(key) ==> kept_inboxes[key]@ == inboxes[key]@
            &&& kept_groups.contains_key(key) <==> groups.contains_key(key)
            &&& groups.contains_key(key) ==> kept_groups[key]@ == groups[key]@
        },
        groups.contains_key(key) && before.home(key) == before.node_id@ && after.home(key)
            != after.node_id@ ==> {
            &&& !kept_groups.contains_key(key)
            &&& exists|i: int|
                0 <= i < effects.len() && (#[trigger] effects[i]) is ToPeer
                    && effects[i]->ToPeer_0 == after.home(key) && effects[i]->ToPeer_1
                    is PeerHandoffGroup && ({
                    let h = effects[i]->ToPeer_1->PeerHandoffGroup_0;
                    &&& h.group_id == key
                    &&& h.members.to_set() == groups[key]@.members
                    &&& h.admins.to_set() == groups[key]@.admins
                    &&& h.version == groups[key]@.version
                })
        },
{
    let (users, ids) = choose|users: Seq<Seq<char>>, ids: Seq<Seq<char>>|
        #![trigger lists_lost(users, inboxes.dom(), before, after), lists_lost(ids, groups.dom(), before, after)]
        lists_lost(users, inboxes.dom(), before, after) && lists_lost(
            ids,
            groups.dom(),
            before,
            after,
        ) && hands_over(effects, users, inboxes, ids, groups, after);
    assert(inbox_at(kept_inboxes, key) == (if lost(before, after, key) {
        None
    } else {
        inbox_at(inboxes, key)
    }));
    assert(group_at(kept_groups, key) == (if lost(before, after, key) {
        None
    } else {
        group_at(groups, key)
    }));
    if lost(before, after, key) {
        if inboxes.contains_key(key) {
            assert(users.contains(key));
            let i = users.index_of(key);
            assert(hands_over_inbox(
                effects[i],
                users[i],
                inboxes[users[i]]@,
                after.home(users[i]),
            ));
        }
        if groups.contains_key(key) {
            assert(ids.contains(key));
            let i = ids.index_of(key) + users.len();
            assert(hands_over_group(
                effects[i],
                ids[i - users.len()],
                groups[ids[i - users.len()]]@,
                after.home(ids[i - users.len()]),
            ));
        }
    }
}

/// A change of the nodes hands over nothing but what this node owned and owns no
/// longer, and nothing to a node that is not its new home.
pub proof fn law_only_what_moves_is_handed_over(
    before: ClusterState,
    after: ClusterState,
    inboxes: Map<Seq<char>, Inbox>,
    kept_inboxes: Map<Seq<char>, Inbox>,
    groups: Map<Seq<char>, Group>,
    kept_groups: Map<Seq<char>, Group>,
    effects: Seq<EffectView>,
    i: int,
)
    requires
        rebalanced(before, after, inboxes, kept_inboxes, groups, kept_groups, effects),
        0 <= i < effects.len(),
    ensures
        effects[i] is ToPeer,
        effects[i]->ToPeer_1 is PeerHandoffUser || effects[i]->ToPeer_1 is PeerHandoffGroup,
        effects[i]->ToPeer_1 is PeerHandoffUser ==> ({
            let u = effects[i]->ToPeer_1->PeerHandoffUser_0.user_id;
            &&& inboxes.contains_key(u)
            &&& before.home(u) == before.node_id@
            &&& effects[i]->ToPeer_0 == after.home(u)
            &&& after.home(u) != after.node_id@
        }),
        effects[i]->ToPeer_1 is PeerHandoffGroup ==> ({
            let g = effects[i]->ToPeer_1->PeerHandoffGroup_0.group_id;
            &&& groups.contains_key(g)
            &&& before.home(g) == before.node_id@
            &&& effects[i]->ToPeer_0 == after.home(g)
            &&& after.home(g) != after.node_id@
        }),
{
    let (users, ids) = choose|users: Seq<Seq<char>>, ids: Seq<Seq<char>>|
        #![trigger lists_lost(users, inboxes.dom(), before, after), lists_lost(ids, groups.dom(), before, after)]
        lists_lost(users, inboxes.dom(), before, after) && lists_lost(
            ids,
            groups.dom(),
            before,
            after,
        ) && hands_over(effects, users, inboxes, ids, groups, after);
    if i < users.len() {
        assert(hands_over_inbox(effects[i], users[i], inboxes[users[i]]@, after.home(users[i])));
        assert(users.contains(users[i]));
    } else {
        let k = i - users.len();
        assert(hands_over_group(effects[i], ids[k], groups[ids[k]]@, after.home(ids[k])));
        assert(ids.contains(ids[k]));
    }
}

/// Two nodes that know the same nodes agree on where a key is at home: where one
/// sends what belongs elsewhere, the other one, if it is that node, keeps it.
pub proof fn law_nodes_agree_on_the_home(a: ClusterState, b: ClusterState, key: Seq<char>)
    requires
        a.ring == b.ring,
        a.ring.owner(key) is Some,
    ensures
        a.home(key) == b.home(key),
        elsewhere(Some(a), key) matches Some(n) ==> {
            &&& n != a.node_id@
            &&& n == b.node_id@ ==> is_home_spec(Some(b), key) && elsewhere(Some(b), key) is None
            &&& n != b.node_id@ ==> elsewhere(Some(b), key) == Some(n)
        },
        elsewhere(Some(a), key) is None ==> is_home_spec(Some(a), key) && a.ring.owner(key) == Some(
            a.node_id@,
        ),
        is_home_spec(Some(a), key) && is_home_spec(Some(b), key) ==> a.node_id@ == b.node_id@,
        is_home_spec(None, key),
        elsewhere(None, key) is None,
{
}

/// A newcomer is linked and takes its place among the nodes; the node that
/// learned of it tells the other peers where to find it, and not the one that it
/// heard it from. News of the same newcomer is then no news, so that word of it
/// ends. What was linked before stays linked.
pub proof fn law_newcomer_is_announced_once(
    before: ClusterState,
    after: ClusterState,
    id: Seq<char>,
    addr: Seq<char>,
    told_by: Seq<char>,
    inboxes: Map<Seq<char>, Inbox>,
    kept_inboxes: Map<Seq<char>, Inbox>,
    groups: Map<Seq<char>, Group>,
    kept_groups: Map<Seq<char>, Group>,
    effects: Seq<EffectView>,
    other: Seq<char>,
)
    requires
        peer_arrived(
            before,
            after,
            id,
            addr,
            told_by,
            inboxes,
            kept_inboxes,
            groups,
            kept_groups,
            effects,
        ),
        other != id,
    ensures
        after.links@.contains(id),
        after.ring.nodes@.contains_key(id),
        !join_is_news(Some(after), id),
        after.links@.contains(other) <==> before.links@.contains(other),
        after.ring.nodes@.contains_key(other) <==> before.ring.nodes@.contains_key(other),
        join_is_news(Some(after), other) <==> join_is_news(Some(before), other),
        effects.contains(EffectView::OpenLink(id, addr)),
        effects.contains(
            EffectView::ToPeers(
                PacketView::PeerJoin(PeerJoinView { node_id: id, addr }),
                Some(told_by),
            ),
        ),
{
    assert(after.ring.nodes@.dom().contains(id));
    assert(after.ring.nodes@.dom().contains(other) <==> before.ring.nodes@.dom().contains(other));
    assert(effects[0] is OpenLink);
    assert(effects[1] is ToPeers);
}

/// A node that left is neither linked nor among the nodes, and its link is
/// closed; the others are still there. If it comes again, that is news.
pub proof fn law_departed_node_is_gone(
    before: ClusterState,
    after: ClusterState,
    id: Seq<char>,
    inboxes: Map<Seq<char>, Inbox>,
    kept_inboxes: Map<Seq<char>, Inbox>,
    groups: Map<Seq<char>, Group>,
    kept_groups: Map<Seq<char>, Group>,
    effects: Seq<EffectView>,
    other: Seq<char>,
)
    requires
        peer_departed(
            before,
            after,
            id,
            inboxes,
            kept_inboxes,
            groups,
            kept_groups,
            effects,
        ),
        other != id,
    ensures
        !after.links@.contains(id),
        !after.ring.nodes@.contains_key(id),
        id.len() > 0 && id != after.node_id@ ==> join_is_news(Some(after), id),
        after.links@.contains(other) <==> before.links@.contains(other),
        after.ring.nodes@.contains_key(other) <==> before.ring.nodes@.contains_key(other),
        effects.contains(EffectView::CloseLink(id)),
{
    assert(!after.ring.nodes@.dom().contains(id));
    assert(after.ring.nodes@.dom().contains(other) <==> before.ring.nodes@.dom().contains(other));
    assert(effects[0] is CloseLink);
}

/// A node that left is at home to nothing, as long as there is any node.
pub proof fn law_departed_node_owns_nothing(
    before: ClusterState,
    after: ClusterState,
    id: Seq<char>,
    key: Seq<char>,
)
    requires
        after.wf(),
        ring_left(before.ring, after.ring, id),
        after.ring.owner(key) is Some,
    ensures
        after.home(key) != id,
        after.ring.nodes@.contains_key(after.home(key)),
{
    after.ring.law_preference(key_hash(key));
    assert(after.ring.preference_at(key_hash(key)).contains(after.home(key)));
    assert(!after.ring.nodes@.dom().contains(id));
}

/// No node takes itself, or a nameless one, for a newcomer; one outside any
/// cluster knows none. Every other node that is not linked is news.
pub proof fn law_strangers_are_news(c: ClusterState, id: Seq<char>)
    ensures
        !join_is_news(None, id),
        id == c.node_id@ || id.len() == 0 ==> !join_is_news(Some(c), id),
        id.len() > 0 && id != c.node_id@ && !c.links@.contains(id) ==> join_is_news(Some(c), id),
        add_refusal(None, id) is Some,
        remove_refusal(None, id) is Some,
        add_refusal(Some(c), id) is Some <==> id == c.node_id@,
        remove_refusal(Some(c), id) is Some <==> id == c.node_id@,
{
}

/// A node is ready once it has a link to every other node of its cluster; alone,
/// it is ready at once. More links never make it less ready.
pub proof fn law_ready_with_every_peer_linked(
    c: ClusterState,
    established: Set<Seq<char>>,
    more: Set<Seq<char>>,
    missing: Seq<char>,
)
    requires
        established.subset_of(more),
    ensures
        all_linked(None, established),
        all_linked(Some(c), established) ==> all_linked(Some(c), more),
        all_linked(Some(c), c.ring.nodes@.dom()),
        c.ring.nodes@.contains_key(missing) && missing != c.node_id@ && !established.contains(
            missing,
        ) ==> !all_linked(Some(c), established),
        c.ring.nodes@.dom() == set![c.node_id@] ==> all_linked(Some(c), established),
{
    if all_linked(Some(c), established) && missing != c.node_id@ && c.ring.nodes@.contains_key(
        missing,
    ) {
        assert(c.ring.nodes@.contains_key(missing) && missing != c.node_id@);
        assert(established.contains(missing));
    }
    if c.ring.nodes@.dom() == set![c.node_id@] {
        assert forall|n: Seq<char>| #[trigger]
            c.ring.nodes@.contains_key(n) && n != c.node_id@ implies established.contains(n) by {
            assert(c.ring.nodes@.dom().contains(n));
        }
    }
}

/// A peer was added, or was not.
pub open spec fn peer_added(
    before: Option<ClusterState>,
    after: Option<ClusterState>,
    peer: PeerAddr,
    inboxes: Map<Seq<char>, Inbox>,
    kept_inboxes: Map<Seq<char>, Inbox>,
    groups: Map<Seq<char>, Group>,
    kept_groups: Map<Seq<char>, Group>,
    r: Result<Vec<Effect>, MessengerError>,
) -> bool {
    match r {
        Err(e) => {
            &&& e matches MessengerError::Protocol(m)
            &&& add_refusal(before, peer.node_id@) == Some(m@)
            &&& unchanged(
                before,
                after,
                inboxes,
                kept_inboxes,
                groups,
                kept_groups,
            )
        },
        Ok(v) => {
            &&& add_refusal(before, peer.node_id@) is None
            &&& if (before)->0.links@.contains(peer.node_id@) {
                &&& v@.len() == 0
                &&& unchanged(
                    before,
                    after,
                    inboxes,
                    kept_inboxes,
                    groups,
                    kept_groups,
                )
            } else {
                &&& after is Some
                &&& peer_arrived(
                    (before)->0,
                    (after)->0,
                    peer.node_id@,
                    peer.addr@,
                    peer.node_id@,
                    inboxes,
                    kept_inboxes,
                    groups,
                    kept_groups,
                    effect_views(v@),
                )
            }
        },
    }
}

/// A peer was removed, or was not.
pub open spec fn peer_removed(
    before: Option<ClusterState>,
    after: Option<ClusterState>,
    node: Seq<char>,
    inboxes: Map<Seq<char>, Inbox>,
    kept_inboxes: Map<Seq<char>, Inbox>,
    groups: Map<Seq<char>, Group>,
    kept_groups: Map<Seq<char>, Group>,
    r: Result<Vec<Effect>, MessengerError>,
) -> bool {
    match r {
        Err(e) => {
            &&& e matches MessengerError::Protocol(m)
            &&& remove_refusal(before, node) == Some(m@)
            &&& unchanged(
                before,
                after,
                inboxes,
                kept_inboxes,
                groups,
                kept_groups,
            )
        },
        Ok(v) => {
            &&& remove_refusal(before, node) is None
            &&& after is Some
            &&& v@.len() >= 1
            &&& v@[0]@ == EffectView::ToPeers(
                PacketView::PeerLeave(PeerLeaveView { node_id: node }),
                Some(node),
            )
            &&& peer_departed(
                (before)->0,
                (after)->0,
                node,
                inboxes,
                kept_inboxes,
                groups,
                kept_groups,
                effect_views(v@).skip(1),
            )
        },
    }
}

/// A peer that is added is linked and among the nodes, and the other peers hear
/// where to find it; one that is linked already changes nothing. A node adds
/// neither itself nor anyone outside a cluster.
pub proof fn law_added_peer_is_linked(
    before: Option<ClusterState>,
    after: Option<ClusterState>,
    peer: PeerAddr,
    inboxes: Map<Seq<char>, Inbox>,
    kept_inboxes: Map<Seq<char>, Inbox>,
    groups: Map<Seq<char>, Group>,
    kept_groups: Map<Seq<char>, Group>,
    r: Result<Vec<Effect>, MessengerError>,
)
    requires
        peer_added(before, after, peer, inboxes, kept_inboxes, groups, kept_groups, r),
    ensures
        r is Err <==> before is None || peer.node_id@ == before->0.node_id@,
        r is Err ==> after == before && kept_inboxes == inboxes && kept_groups == groups,
        r is Ok ==> after is Some && after->0.links@.contains(peer.node_id@)
            && after->0.node_id@ == before->0.node_id@,
        r is Ok && before->0.links@.contains(peer.node_id@) ==> after == before && r->Ok_0@.len()
            == 0,
        r is Ok && !before->0.links@.contains(peer.node_id@) ==> {
            &&& after->0.ring.nodes@.contains_key(peer.node_id@)
            &&& effect_views(r->Ok_0@).contains(
                EffectView::OpenLink(peer.node_id@, peer.addr@),
            )
        },
{
    if r is Ok && !before->0.links@.contains(peer.node_id@) {
        let other = peer.node_id@.push('a');
        assert(other.len() != peer.node_id@.len());
        law_newcomer_is_announced_once(
            before->0,
            after->0,
            peer.node_id@,
            peer.addr@,
            peer.node_id@,
            inboxes,
            kept_inboxes,
            groups,
            kept_groups,
            effect_views(r->Ok_0@),
            other,
        );
    }
}

/// A peer that is removed is neither linked nor among the nodes, the others hear
/// that it left, and its link is closed. A node removes neither itself nor
/// anyone outside a cluster.
pub proof fn law_removed_peer_is_gone(
    before: Option<ClusterState>,
    after: Option<ClusterState>,
    node: Seq<char>,
    inboxes: Map<Seq<char>, Inbox>,
    kept_inboxes: Map<Seq<char>, Inbox>,
    groups: Map<Seq<char>, Group>,
    kept_groups: Map<Seq<char>, Group>,
    r: Result<Vec<Effect>, MessengerError>,
)
    requires
        peer_removed(before, after, node, inboxes, kept_inboxes, groups, kept_groups, r),
    ensures
        r is Err <==> before is None || node == before->0.node_id@,
        r is Err ==> after == before && kept_inboxes == inboxes && kept_groups == groups,
        r is Ok ==> {
            let e = effect_views(r->Ok_0@);
            &&& after is Some
            &&& !after->0.links@.contains(node)
            &&& !after->0.ring.nodes@.contains_key(node)
            &&& e.contains(EffectView::CloseLink(node))
            &&& e.len() > 0
            &&& e[0] is ToPeers
            &&& e[0]->ToPeers_0 is PeerLeave
            &&& e[0]->ToPeers_0->PeerLeave_0.node_id == node
            &&& e[0]->ToPeers_1 == Some(node)
        },
{
    if r is Ok {
        let e = effect_views(r->Ok_0@);
        let other = node.push('a');
        assert(other.len() != node.len());
        law_departed_node_is_gone(
            before->0,
            after->0,
            node,
            inboxes,
            kept_inboxes,
            groups,
            kept_groups,
            e.skip(1),
            other,
        );
        let k = e.skip(1).index_of(EffectView::CloseLink(node));
        assert(e[k + 1] == EffectView::CloseLink(node));
    }
}

} // verus!
