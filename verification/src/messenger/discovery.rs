//! Peer discovery through the service mesh: gateways register as instances of
//! one service and follow the list of the others.

use crate::collections::StrSet;
use crate::distributed::lemma_filter_step;
use crate::mesh::ServiceRecord;
use crate::messenger::cluster::{peer_ids, PeerAddr};
use crate::text::{same, strs};
use crate::time::Duration;
use vstd::prelude::*;

verus! {

/// Service under which gateways register.
pub const MESSENGER_SERVICE: &'static str = "lane.messenger";

/// Configuration of the discovery.
#[derive(Debug)]
pub struct MeshDiscoveryConfig {
    /// Address of the mesh registry.
    pub registry_addr: String,
    /// This node's id.
    pub node_id: String,
    /// Address that peers reach this node at.
    pub listen_addr: String,
    /// How often the list is refreshed.
    pub poll_interval: Duration,
}

impl Default for MeshDiscoveryConfig {
    fn default() -> (c: Self)
        ensures
            c.registry_addr@ == "http://127.0.0.1:50051"@,
            c.node_id@ == "node-0"@,
            c.listen_addr@ == "127.0.0.1:9000"@,
            c.poll_interval == (Duration { secs: 5, nanos: 0 }),
    {
        MeshDiscoveryConfig {
            registry_addr: "http://127.0.0.1:50051".to_string(),
            node_id: "node-0".to_string(),
            listen_addr: "127.0.0.1:9000".to_string(),
            poll_interval: Duration::from_secs(5),
        }
    }
}

/// The record that a gateway registers, and renews.
pub fn own_record(cfg: &MeshDiscoveryConfig) -> (r: ServiceRecord)
    ensures
        is_own_record(*cfg, r),
{
    ServiceRecord {
        service: MESSENGER_SERVICE.to_string(),
        instance_id: cfg.node_id.clone(),
        address: cfg.listen_addr.clone(),
        target: cfg.node_id.clone(),
        dc: None,
        registered_at: 0,
    }
}

/// Which records are other gateways.
pub open spec fn other_gateway(node: Seq<char>) -> spec_fn(ServiceRecord) -> bool {
    |r: ServiceRecord| r.service@ == MESSENGER_SERVICE@ && r.instance_id@ != node
}

/// The peer that a record stands for.
pub open spec fn peer_of(r: ServiceRecord) -> PeerAddr {
    PeerAddr { node_id: r.instance_id, addr: r.address }
}

/// The other gateways among some records.
pub fn peers_in(records: &Vec<ServiceRecord>, node_id: &str) -> (v: Vec<PeerAddr>)
    ensures
        v@ == gateways_in(records@, node_id@),
{
    let ghost all = records@;
    let ghost pred = other_gateway(node_id@);
    let mut out: Vec<PeerAddr> = Vec::new();
    let mut i: usize = 0;
    proof {
        reveal(Seq::filter);
        assert(all.take(0).filter(pred) =~= Seq::<ServiceRecord>::empty());
    }
    while i < records.len()
        invariant
            all == records@,
            pred == other_gateway(node_id@),
            i <= all.len(),
            out@ == all.take(i as int).filter(pred).map_values(|r: ServiceRecord| peer_of(r)),
        decreases all.len() - i,
    {
        proof {
            lemma_filter_step(all, pred, i as int);
        }
        let r = &records[i];
        if same(r.service.as_str(), MESSENGER_SERVICE) && !same(r.instance_id.as_str(), node_id) {
            out.push(PeerAddr { node_id: r.instance_id.clone(), addr: r.address.clone() });
        }
        assert(out@ =~= all.take(i as int + 1).filter(pred).map_values(
            |r: ServiceRecord| peer_of(r),
        ));
        i += 1;
    }
    assert(all.take(i as int) =~= all);
    out
}

/// What a refreshed list of peers leads to.
pub struct PeerChanges {
    /// Peers to add.
    pub add: Vec<PeerAddr>,
    /// Peers to remove.
    pub remove: Vec<String>,
    /// The peers known from now on.
    pub known: StrSet,
}

/// Which peers are new.
pub open spec fn unknown_to(known: Set<Seq<char>>) -> spec_fn(PeerAddr) -> bool {
    |p: PeerAddr| !known.contains(p.node_id@)
}

/// Compares the peers known so far with the current list.
pub fn peer_changes(known: &StrSet, peers: &Vec<PeerAddr>) -> (c: PeerChanges)
    requires
        known.wf(),
    ensures
        c.known.wf(),
        are_changes(known@, peers@, c),
{
    let ghost all = peers@;
    let ghost pred = unknown_to(known@);
    let mut add: Vec<PeerAddr> = Vec::new();
    let mut next = StrSet::new();
    let mut i: usize = 0;
    proof {
        reveal(Seq::filter);
        assert(all.take(0).filter(pred) =~= Seq::<PeerAddr>::empty());
        assert(peer_ids(all.take(0)).to_set() =~= Set::<Seq<char>>::empty());
    }
    while i < peers.len()
        invariant
            all == peers@,
            pred == unknown_to(known@),
            i <= all.len(),
            next.wf(),
            next@ == peer_ids(all.take(i as int)).to_set(),
            add@ == all.take(i as int).filter(pred),
        decreases all.len() - i,
    {
        proof {
            lemma_filter_step(all, pred, i as int);
            let a = peer_ids(all.take(i as int));
            let b = peer_ids(all.take(i as int + 1));
            let x = all[i as int].node_id@;
            assert(b =~= a.push(x));
            assert forall|q: Seq<char>| #[trigger] b.contains(q) <==> (a.contains(q) || q == x) by {
                if a.contains(q) {
                    assert(b[a.index_of(q)] == q);
                }
                assert(b[i as int] == x);
            }
            assert(b.to_set() =~= a.to_set().insert(x));
        }
        if !known.contains(peers[i].node_id.as_str()) {
            add.push(peers[i].clone());
        }
        let _ = next.insert(peers[i].node_id.clone());
        i += 1;
    }
    assert(all.take(i as int) =~= all);
    let mut gone = StrSet::new();
    let mut j: usize = 0;
    let ghost old_ids = strs(known.items@);
    assert(old_ids.take(0).to_set().difference(next@) =~= Set::<Seq<char>>::empty());
    while j < known.items.len()
        invariant
            known.wf(),
            old_ids == strs(known.items@),
            j <= old_ids.len(),
            gone.wf(),
            gone@ == old_ids.take(j as int).to_set().difference(next@),
        decreases old_ids.len() - j,
    {
        proof {
            let a = old_ids.take(j as int);
            let b = old_ids.take(j as int + 1);
            let x = old_ids[j as int];
            assert(b =~= a.push(x));
            assert forall|q: Seq<char>| #[trigger] b.contains(q) <==> (a.contains(q) || q == x) by {
                if a.contains(q) {
                    assert(b[a.index_of(q)] == q);
                }
                assert(b[j as int] == x);
            }
            assert(b.to_set() =~= a.to_set().insert(x));
        }
        let ghost before = gone@;
        if !next.contains(known.items[j].as_str()) {
            let _ = gone.insert(known.items[j].clone());
        }
        assert(gone@ =~= old_ids.take(j as int + 1).to_set().difference(next@));
        j += 1;
    }
    assert(old_ids.take(j as int) =~= old_ids);
    PeerChanges { add, remove: gone.to_vec(), known: next }
}

/// The record of a gateway.
pub open spec fn is_own_record(cfg: MeshDiscoveryConfig, r: ServiceRecord) -> bool {
    &&& r.service@ == MESSENGER_SERVICE@
    &&& r.instance_id == cfg.node_id
    &&& r.address == cfg.listen_addr
    &&& r.target == cfg.node_id
    &&& r.dc is None
    &&& r.registered_at == 0
}

/// The other gateways among some records.
pub open spec fn gateways_in(records: Seq<ServiceRecord>, node_id: Seq<char>) -> Seq<PeerAddr> {
    records.filter(other_gateway(node_id)).map_values(|r: ServiceRecord| peer_of(r))
}

/// What has changed since the peers were listed last.
pub open spec fn are_changes(
    known: Set<Seq<char>>,
    peers: Seq<PeerAddr>,
    c: PeerChanges,
) -> bool {
    &&& c.known@ == peer_ids(peers).to_set()
    &&& c.add@ == peers.filter(unknown_to(known))
    &&& strs(c.remove@).no_duplicates()
    &&& strs(c.remove@).to_set() == known.difference(peer_ids(peers).to_set())
}

/// Gateways find each other: where the record of a gateway is listed, every
/// other one has it for a peer, at the address where it listens, and it does not
/// take itself for one.
pub proof fn law_gateways_find_each_other(
    cfg: MeshDiscoveryConfig,
    records: Seq<ServiceRecord>,
    node: Seq<char>,
    k: int,
)
    requires
        0 <= k < records.len(),
        is_own_record(cfg, records[k]),
        node != cfg.node_id@,
    ensures
        exists|i: int|
            0 <= i < gateways_in(records, node).len() && (#[trigger] gateways_in(
                records,
                node,
            )[i]).node_id@ == cfg.node_id@ && gateways_in(records, node)[i].addr@
                == cfg.listen_addr@,
        forall|i: int|
            0 <= i < gateways_in(records, cfg.node_id@).len() ==> (#[trigger] gateways_in(
                records,
                cfg.node_id@,
            )[i]).node_id@ != cfg.node_id@,
{
    let f = records.filter(other_gateway(node));
    records.lemma_filter_contains(other_gateway(node), k);
    let i = f.index_of(records[k]);
    assert(gateways_in(records, node)[i].node_id@ == cfg.node_id@);
    assert forall|i: int| 0 <= i < gateways_in(records, cfg.node_id@).len() implies (
    #[trigger] gateways_in(records, cfg.node_id@)[i]).node_id@ != cfg.node_id@ by {
        records.lemma_filter_pred(other_gateway(cfg.node_id@), i);
    }
}

/// Following the list adds the peers that are new and drops those that are gone,
/// and then knows exactly the listed ones; once that is done, the same list
/// changes nothing.
pub proof fn law_peers_follow_the_list(
    known: Set<Seq<char>>,
    peers: Seq<PeerAddr>,
    c: PeerChanges,
    again: PeerChanges,
    k: int,
    id: Seq<char>,
)
    requires
        are_changes(known, peers, c),
        are_changes(c.known@, peers, again),
        0 <= k < peers.len(),
    ensures
        c.known@.contains(peers[k].node_id@),
        c.known@.contains(id) ==> exists|i: int|
            0 <= i < peers.len() && (#[trigger] peers[i]).node_id@ == id,
        c.add@.contains(peers[k]) <==> !known.contains(peers[k].node_id@),
        strs(c.remove@).contains(id) <==> known.contains(id) && !c.known@.contains(id),
        again.add@.len() == 0,
        again.remove@.len() == 0,
{
    let ids = peer_ids(peers);
    assert(ids[k] == peers[k].node_id@);
    assert(ids.contains(ids[k]));
    if c.known@.contains(id) {
        let i = ids.index_of(id);
        assert(peers[i].node_id@ == id);
    }
    if !known.contains(peers[k].node_id@) {
        peers.lemma_filter_contains(unknown_to(known), k);
    }
    if c.add@.contains(peers[k]) {
        peers.lemma_filter_pred(unknown_to(known), c.add@.index_of(peers[k]));
    }
    assert(strs(c.remove@).contains(id) <==> strs(c.remove@).to_set().contains(id));
    if again.add@.len() > 0 {
        let p = again.add@[0];
        peers.lemma_filter_pred(unknown_to(c.known@), 0);
        assert(again.add@.contains(p));
        peers.lemma_filter_contains_rev(unknown_to(c.known@), p);
        let i = peers.index_of(p);
        assert(ids[i] == p.node_id@);
        assert(ids.contains(p.node_id@));
    }
    if again.remove@.len() > 0 {
        let x = strs(again.remove@)[0];
        assert(strs(again.remove@).to_set().contains(x));
    }
}

} // verus!
