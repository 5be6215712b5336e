//! Service mesh: register service instances, discover them by name, route by
//! hash ring, and decide how a consistent read or write fans out.

use crate::collections::StrMap;
use crate::consistency::{ConsistencyConfig, ReadConsistency, WriteConsistency};
use crate::distributed::{insert_sorted, Cluster, ClusterMember};
use crate::hash_ring::{host_port, is_vnode, with_vnodes, without_vnodes, HashRing};
use crate::text::{same, strs, text_le};
use crate::time::Duration;
use vstd::prelude::*;

verus! {

/// Records must be renewed within this many seconds or the registry evicts
/// them.
pub const DEFAULT_RECORD_TTL_SECS: u64 = 30;

/// Seconds between two evictions.
pub const EVICTION_INTERVAL_SECS: u64 = 5;

/// A running service instance.
#[derive(Debug, PartialEq, Eq)]
pub struct ServiceRecord {
    pub service: String,
    pub instance_id: String,
    pub address: String,
    /// Name of the instance's actor on its node.
    pub target: String,
    /// Datacenter tag; `None` is treated as local everywhere.
    pub dc: Option<String>,
    /// Unix seconds of the last registration or renewal.
    pub registered_at: u64,
}

/// A copy of an optional string.
pub fn clone_option(s: &Option<String>) -> (r: Option<String>)
    ensures
        r == *s,
{
    match s {
        Some(d) => Some(d.clone()),
        None => None,
    }
}

impl Clone for ServiceRecord {
    fn clone(&self) -> (r: Self)
        ensures
            r == *self,
    {
        ServiceRecord {
            service: self.service.clone(),
            instance_id: self.instance_id.clone(),
            address: self.address.clone(),
            target: self.target.clone(),
            dc: clone_option(&self.dc),
            registered_at: self.registered_at,
        }
    }
}

impl ServiceRecord {
    /// The record as a cluster member.
    pub open spec fn as_member(&self) -> ClusterMember {
        ClusterMember {
            name: self.instance_id,
            node_addr: self.address,
            target: self.target,
            dc: self.dc,
        }
    }

    /// Whether the record is for this instance of this service.
    pub open spec fn is_for(&self, service: Seq<char>, instance_id: Seq<char>) -> bool {
        self.service@ == service && self.instance_id@ == instance_id
    }

    /// The record as a cluster member.
    pub fn member(&self) -> (m: ClusterMember)
        ensures
            m == self.as_member(),
    {
        ClusterMember {
            name: self.instance_id.clone(),
            node_addr: self.address.clone(),
            target: self.target.clone(),
            dc: clone_option(&self.dc),
        }
    }
}

/// The record of a roster member; when it was registered is not known.
fn record_of(service: &str, member: ClusterMember) -> (r: ServiceRecord)
    ensures
        r.service@ == service@,
        r.as_member() == member,
        r.registered_at == 0,
{
    ServiceRecord {
        service: service.to_string(),
        instance_id: member.name,
        address: member.node_addr,
        target: member.target,
        dc: member.dc,
        registered_at: 0,
    }
}

/// Whether a record is older than its time to live, in whole seconds. A record
/// from the future is fresh.
pub open spec fn expired(record: ServiceRecord, now: u64, ttl: Duration) -> bool {
    now > record.registered_at && now - record.registered_at > ttl.secs
}

/// Whether a record is older than its time to live.
pub fn record_expired(record: &ServiceRecord, now: u64, ttl: Duration) -> (r: bool)
    ensures
        r == expired(*record, now, ttl),
{
    let age: u64 = if now > record.registered_at {
        now - record.registered_at
    } else {
        0
    };
    age > ttl.as_secs()
}

/// Per-service routing table.
pub struct ServiceRoute {
    pub cluster: Cluster,
    pub consistency: Option<ConsistencyConfig>,
}

/// In-process mesh control plane and data-plane router.
pub struct ServiceMesh {
    pub routes: StrMap<ServiceRoute>,
    pub consistency: ConsistencyConfig,
}

/// Puts a member into a roster, replacing the one of that name.
fn upsert(cluster: &mut Cluster, member: ClusterMember) -> (r: Option<ClusterMember>)
    requires
        old(cluster).wf(),
        old(cluster).unique(),
        host_port(member.node_addr@) is Some,
    ensures
        final(cluster).wf(),
        final(cluster).unique(),
        final(cluster).members@.len() > 0,
        final(cluster).roster() == old(cluster).roster().insert(member.name@, member),
        final(cluster).members@ == old(cluster).order_without(member.name@).push(member),
        final(cluster).next == old(cluster).next,
        final(cluster).ring.virtual_nodes == old(cluster).ring.virtual_nodes,
        final(cluster).ring.occupied() == with_vnodes(
            old(cluster).ring.occupied(),
            member.name@,
            old(cluster).ring.virtual_nodes as nat,
        ),
        match r {
            Some(m) => old(cluster).roster().contains_key(member.name@) && m == old(cluster).roster()[member.name@],
            None => !old(cluster).roster().contains_key(member.name@),
        },
{
    proof {
        cluster.lemma_roster();
    }
    let ghost was = *cluster;
    let displaced = cluster.leave(member.name.as_str());
    cluster.join(member);
    proof {
        assert(cluster.roster() =~= was.roster().insert(member.name@, member));
        let n = was.ring.virtual_nodes as nat;
        assert(with_vnodes(
            without_vnodes(was.ring.occupied(), member.name@, n),
            member.name@,
            n,
        ) =~= with_vnodes(was.ring.occupied(), member.name@, n));
    }
    displaced
}

/// Whether some record is for this instance.
pub open spec fn listed(
    records: Seq<ServiceRecord>,
    service: Seq<char>,
    instance_id: Seq<char>,
) -> bool {
    exists|k: int| 0 <= k < records.len() && (#[trigger] records[k]).is_for(service, instance_id)
}

/// Whether the record at `k` is the last one for its instance.
pub open spec fn is_last(records: Seq<ServiceRecord>, k: int) -> bool {
    0 <= k < records.len() && forall|j: int|
        k < j < records.len() ==> !(#[trigger] records[j]).is_for(
            records[k].service@,
            records[k].instance_id@,
        )
}

/// Among the records of an instance there is a last one.
proof fn lemma_last_exists(
    records: Seq<ServiceRecord>,
    service: Seq<char>,
    instance_id: Seq<char>,
    from: int,
)
    requires
        0 <= from < records.len(),
        records[from].is_for(service, instance_id),
    ensures
        exists|k: int| #[trigger] is_last(records, k) && records[k].is_for(service, instance_id),
    decreases records.len() - from,
{
    if exists|j: int|
        from < j < records.len() && (#[trigger] records[j]).is_for(service, instance_id) {
        let j = choose|j: int|
            from < j < records.len() && (#[trigger] records[j]).is_for(service, instance_id);
        lemma_last_exists(records, service, instance_id, j);
    } else {
        assert(is_last(records, from));
    }
}

/// Whether some record is for this instance.
fn is_listed(records: &Vec<ServiceRecord>, service: &str, instance_id: &str) -> (r: bool)
    ensures
        r == listed(records@, service@, instance_id@),
{
    let mut k: usize = 0;
    while k < records.len()
        invariant
            k <= records@.len(),
            forall|j: int|
                0 <= j < k ==> !(#[trigger] records@[j]).is_for(service@, instance_id@),
        decreases records@.len() - k,
    {
        if same(records[k].service.as_str(), service) && same(
            records[k].instance_id.as_str(),
            instance_id,
        ) {
            assert(records@[k as int].is_for(service@, instance_id@));
            return true;
        }
        k += 1;
    }
    false
}

/// Whether no later record is for the same instance.
fn last_of_its_kind(records: &Vec<ServiceRecord>, k: usize) -> (r: bool)
    requires
        k < records@.len(),
    ensures
        r == is_last(records@, k as int),
{
    let n: usize = records.len();
    let mut j: usize = k + 1;
    while j < n
        invariant
            k < j <= records@.len() == n,
            forall|i: int|
                k < i < j ==> !(#[trigger] records@[i]).is_for(
                    records@[k as int].service@,
                    records@[k as int].instance_id@,
                ),
        decreases records@.len() - j,
    {
        if same(records[j].service.as_str(), records[k].service.as_str()) && same(
            records[j].instance_id.as_str(),
            records[k].instance_id.as_str(),
        ) {
            return false;
        }
        j += 1;
    }
    true
}

/// Removes the members that no record lists.
fn drop_stale(cluster: &mut Cluster, service: &str, records: &Vec<ServiceRecord>)
    requires
        old(cluster).wf(),
        old(cluster).unique(),
    ensures
        final(cluster).wf(),
        final(cluster).unique(),
        final(cluster).roster() == old(cluster).roster().restrict(
            Set::new(|id: Seq<char>| listed(records@, service@, id)),
        ),
        final(cluster).next == old(cluster).next,
        final(cluster).ring.virtual_nodes == old(cluster).ring.virtual_nodes,
{
    let ghost was = *cluster;
    let mut stale: Vec<String> = Vec::new();
    let mut i: usize = 0;
    while i < cluster.members.len()
        invariant
            *cluster == was,
            i <= was.members@.len(),
            forall|j: int|
                0 <= j < stale@.len() ==> !listed(records@, service@, (#[trigger] stale@[j])@),
            forall|j: int|
                0 <= j < i && !listed(records@, service@, (#[trigger] was.members@[j]).name@)
                    ==> strs(stale@).contains(was.members@[j].name@),
        decreases was.members@.len() - i,
    {
        let ghost before = stale@;
        if !is_listed(records, service, cluster.members[i].name.as_str()) {
            stale.push(cluster.members[i].name.clone());
            proof {
                assert(strs(stale@)[before.len() as int] == was.members@[i as int].name@);
                assert forall|j: int|
                    0 <= j < i && !listed(
                        records@,
                        service@,
                        (#[trigger] was.members@[j]).name@,
                    ) implies strs(stale@).contains(was.members@[j].name@) by {
                    let q = strs(before).index_of(was.members@[j].name@);
                    assert(strs(before)[q] == strs(stale@)[q]);
                }
            }
        }
        i += 1;
    }
    let mut k: usize = 0;
    assert(was.roster().remove_keys(strs(stale@.take(0)).to_set()) =~= was.roster());
    while k < stale.len()
        invariant
            k <= stale@.len(),
            cluster.wf(),
            cluster.unique(),
            cluster.next == was.next,
            cluster.ring.virtual_nodes == was.ring.virtual_nodes,
            cluster.roster() == was.roster().remove_keys(strs(stale@.take(k as int)).to_set()),
        decreases stale@.len() - k,
    {
        proof {
            cluster.lemma_roster();
        }
        let ghost before = *cluster;
        let _ = cluster.leave(stale[k].as_str());
        proof {
            let a = strs(stale@.take(k as int));
            let b = strs(stale@.take(k as int + 1));
            let x = stale@[k as int]@;
            assert(b =~= a + seq![x]);
            Seq::<Seq<char>>::lemma_to_set_insert_commutes(a, x);
            assert(was.roster().remove_keys(b.to_set()) =~= was.roster().remove_keys(
                a.to_set(),
            ).remove(x));
            assert(cluster.roster() =~= before.roster().remove(x));
        }
        k += 1;
    }
    proof {
        assert(stale@.take(stale@.len() as int) == stale@);
        was.lemma_roster();
        let keep = Set::new(|id: Seq<char>| listed(records@, service@, id));
        assert forall|id: Seq<char>|
            was.roster().contains_key(id) implies (strs(stale@).to_set().contains(id)
            <==> !keep.contains(id)) by {
            if strs(stale@).contains(id) {
                let q = strs(stale@).index_of(id);
                assert(stale@[q]@ == id);
            }
            if !keep.contains(id) {
                let m = choose|m: int|
                    0 <= m < was.members@.len() && (#[trigger] was.members@[m]).name@ == id;
                assert(was.has_member(id));
            }
        }
        assert(cluster.roster() =~= was.roster().restrict(keep));
    }
}

impl ServiceMesh {
    /// Every route has members, with distinct names, and the usual number of
    /// virtual nodes for each.
    pub open spec fn wf(&self) -> bool {
        &&& self.routes.wf()
        &&& forall|s: Seq<char>|
            self.routes@.contains_key(s) ==> (#[trigger] self.routes@[s]).cluster.wf()
                && self.routes@[s].cluster.unique() && self.routes@[s].cluster.members@.len() > 0
                && self.routes@[s].cluster.ring.virtual_nodes == 150
    }

    /// Which instance of a service holds each occupied ring position.
    pub open spec fn ring_of(&self, service: Seq<char>) -> Map<u64, Seq<char>> {
        if self.routes@.contains_key(service) {
            self.routes@[service].cluster.ring.occupied()
        } else {
            Map::empty()
        }
    }

    /// The instances of a service in roster order.
    pub open spec fn order_of(&self, service: Seq<char>) -> Seq<ClusterMember> {
        if self.routes@.contains_key(service) {
            self.routes@[service].cluster.members@
        } else {
            Seq::empty()
        }
    }

    /// The instances of a service in roster order, once one of them left.
    pub open spec fn order_without(&self, service: Seq<char>, id: Seq<char>) -> Seq<ClusterMember> {
        if self.routes@.contains_key(service) {
            self.routes@[service].cluster.order_without(id)
        } else {
            Seq::empty()
        }
    }

    /// Whose turn it is among the instances of a service.
    pub open spec fn turn_of(&self, service: Seq<char>) -> usize {
        if self.routes@.contains_key(service) {
            self.routes@[service].cluster.next
        } else {
            0
        }
    }

    /// The instances of a service.
    pub open spec fn roster(&self, service: Seq<char>) -> Map<Seq<char>, ClusterMember> {
        if self.routes@.contains_key(service) {
            self.routes@[service].cluster.roster()
        } else {
            Map::empty()
        }
    }

    /// The consistency override of a service.
    pub open spec fn override_of(&self, service: Seq<char>) -> Option<ConsistencyConfig> {
        if self.routes@.contains_key(service) {
            self.routes@[service].consistency
        } else {
            None
        }
    }

    /// The consistency settings that apply to a service.
    pub open spec fn config_of(&self, service: Seq<char>) -> ConsistencyConfig {
        match self.override_of(service) {
            Some(c) => c,
            None => self.consistency,
        }
    }

    /// A mesh with default settings.
    pub fn new() -> (m: Self)
        ensures
            m.wf(),
            m.routes@ == Map::<Seq<char>, ServiceRoute>::empty(),
            m.consistency.rf == 3,
            m.consistency.local_rf == 3,
            m.consistency.dc_rfs@ == seq![3usize],
            strs(m.consistency.dc_names@) == seq!["local"@],
            m.consistency.local_dc@ == "local"@,
            m.consistency.write_cl == WriteConsistency::LocalQuorum,
            m.consistency.read_cl == ReadConsistency::LocalQuorum,
            m.consistency.ack_timeout == (Duration { secs: 5, nanos: 0 }),
    {
        Self::with_consistency(ConsistencyConfig::default())
    }

    /// A mesh with custom replication and consistency defaults.
    pub fn with_consistency(consistency: ConsistencyConfig) -> (m: Self)
        ensures
            m.wf(),
            m.routes@ == Map::<Seq<char>, ServiceRoute>::empty(),
            m.consistency == consistency,
    {
        ServiceMesh { routes: StrMap::new(), consistency }
    }

    /// The default settings.
    pub fn consistency(&self) -> (c: &ConsistencyConfig)
        ensures
            *c == self.consistency,
    {
        &self.consistency
    }

    /// Replaces the default settings.
    pub fn set_consistency(&mut self, config: ConsistencyConfig)
        ensures
            final(self).consistency == config,
            final(self).routes == old(self).routes,
    {
        self.consistency = config;
    }

    /// Overrides the settings of a known service.
    pub fn set_service_consistency(&mut self, service: &str, config: ConsistencyConfig)
        requires
            old(self).wf(),
        ensures
            final(self).wf(),
            overridden_in(*old(self), service@, config, *final(self)),
    {
        let ghost was = *self;
        match self.routes.get_mut(service) {
            Some(route) => {
                route.consistency = Some(config);
            },
            None => {},
        }
        proof {
            assert(self.routes@.dom() =~= was.routes@.dom());
            assert forall|s: Seq<char>| self.routes@.contains_key(s) implies (
            #[trigger] self.routes@[s]).cluster.wf() && self.routes@[s].cluster.unique()
                && self.routes@[s].cluster.members@.len() > 0
                && self.routes@[s].cluster.ring.virtual_nodes == 150 by {
                assert(was.routes@[s].cluster.wf());
            }
        }
    }

    /// The settings that apply to a service.
    pub fn config_for(&self, service: &str) -> (c: &ConsistencyConfig)
        requires
            self.wf(),
        ensures
            *c == self.config_of(service@),
    {
        match self.routes.get(service) {
            Some(route) => match &route.consistency {
                Some(c) => c,
                None => &self.consistency,
            },
            None => &self.consistency,
        }
    }

    /// The known services, in ascending order.
    pub fn services(&self) -> (r: Vec<String>)
        requires
            self.wf(),
        ensures
            forall|i: int, j: int|
                0 <= i < j < r@.len() ==> text_le(#[trigger] strs(r@)[i], #[trigger] strs(r@)[j])
                    && strs(r@)[i] != strs(r@)[j],
            forall|s: Seq<char>| strs(r@).contains(s) <==> self.routes@.contains_key(s),
    {
        let mut r: Vec<String> = Vec::new();
        let mut i: usize = 0;
        while i < self.routes.entries.len()
            invariant
                self.wf(),
                i <= self.routes.entries@.len(),
                forall|a: int, b: int|
                    0 <= a < b < r@.len() ==> text_le(
                        #[trigger] strs(r@)[a],
                        #[trigger] strs(r@)[b],
                    ) && strs(r@)[a] != strs(r@)[b],
                forall|s: Seq<char>|
                    strs(r@).contains(s) <==> exists|k: int|
                        0 <= k < i && (#[trigger] self.routes.entries@[k]).0@ == s,
            decreases self.routes.entries@.len() - i,
        {
            let ghost before = r@;
            insert_sorted(&mut r, self.routes.entries[i].0.as_str());
            proof {
                assert forall|s: Seq<char>|
                    strs(r@).contains(s) <==> exists|k: int|
                        0 <= k < i + 1 && (#[trigger] self.routes.entries@[k]).0@ == s by {
                    if strs(before).contains(s) {
                        let k = choose|k: int|
                            0 <= k < i && (#[trigger] self.routes.entries@[k]).0@ == s;
                        assert(0 <= k < i + 1);
                    }
                    if s == self.routes.entries@[i as int].0@ {
                        assert(0 <= i < i + 1);
                    }
                }
            }
            i += 1;
        }
        proof {
            assert forall|s: Seq<char>|
                strs(r@).contains(s) <==> self.routes@.contains_key(s) by {
                if strs(r@).contains(s) {
                    let k = choose|k: int|
                        0 <= k < self.routes.entries@.len() && (
                        #[trigger] self.routes.entries@[k]).0@ == s;
                    self.routes.lemma_entry(k);
                }
                if self.routes@.contains_key(s) {
                    self.routes.lemma_key_has_entry(s);
                }
            }
        }
        r
    }

    /// The number of instances of a service.
    pub fn instance_count(&self, service: &str) -> (n: usize)
        requires
            self.wf(),
        ensures
            n == self.roster(service@).dom().len(),
    {
        match self.routes.get(service) {
            Some(route) => {
                proof {
                    route.cluster.lemma_roster();
                }
                route.cluster.len()
            },
            None => 0,
        }
    }

    /// The records of a service's instances, each once.
    pub fn records(&self, service: &str) -> (r: Vec<ServiceRecord>)
        requires
            self.wf(),
        ensures
            r@.len() == self.roster(service@).dom().len(),
            forall|i: int|
                0 <= i < r@.len() ==> (#[trigger] r@[i]).service@ == service@ && r@[i].registered_at
                    == 0 && self.roster(service@).contains_key(r@[i].instance_id@)
                    && r@[i].as_member() == self.roster(service@)[r@[i].instance_id@],
            forall|i: int, j: int|
                0 <= i < j < r@.len() ==> (#[trigger] r@[i]).instance_id@ != (
                #[trigger] r@[j]).instance_id@,
    {
        let mut out: Vec<ServiceRecord> = Vec::new();
        match self.routes.get(service) {
            None => {
                out
            },
            Some(route) => {
                let ghost c = route.cluster;
                proof {
                    c.lemma_roster();
                }
                let mut i: usize = 0;
                while i < route.cluster.members.len()
                    invariant
                        c == route.cluster,
                        i <= c.members@.len(),
                        out@.len() == i,
                        forall|j: int|
                            0 <= j < i ==> (#[trigger] out@[j]).service@ == service@
                                && out@[j].registered_at == 0 && out@[j].as_member()
                                == c.members@[j],
                    decreases c.members@.len() - i,
                {
                    out.push(record_of(service, route.cluster.members[i].clone()));
                    i += 1;
                }
                proof {
                    assert forall|j: int| 0 <= j < out@.len() implies (
                    #[trigger] out@[j]).instance_id@ == c.members@[j].name@ by {
                        assert(out@[j].as_member() == c.members@[j]);
                    }
                    assert forall|a: int, b: int| 0 <= a < b < out@.len() implies (
                    #[trigger] out@[a]).instance_id@ != (#[trigger] out@[b]).instance_id@ by {
                        assert(c.members@[a].name@ != c.members@[b].name@);
                    }
                }
                out
            },
        }
    }

    /// The ring of a service.
    pub fn ring(&self, service: &str) -> (r: Option<&HashRing>)
        requires
            self.wf(),
        ensures
            match r {
                Some(x) => self.routes@.contains_key(service@) && *x
                    == self.routes@[service@].cluster.ring,
                None => !self.routes@.contains_key(service@),
            },
    {
        match self.routes.get(service) {
            Some(route) => Some(&route.cluster.ring),
            None => None,
        }
    }

    /// Registers or replaces an instance; returns the record it displaced.
    pub fn register(&mut self, record: ServiceRecord) -> (r: Option<ServiceRecord>)
        requires
            old(self).wf(),
            host_port(record.address@) is Some,
        ensures
            final(self).wf(),
            registered_in(*old(self), record, *final(self), r),
    {
        let ghost was = *self;
        let service: String = record.service.clone();
        if !self.routes.contains_key(service.as_str()) {
            let cluster = Cluster::new();
            proof {
                cluster.lemma_roster();
                assert(cluster.roster() =~= Map::<Seq<char>, ClusterMember>::empty());
            }
            let _ = self.routes.insert(
                service.clone(),
                ServiceRoute { cluster, consistency: None },
            );
        }
        let ghost opened = *self;
        proof {
            assert forall|s: Seq<char>| #[trigger] opened.roster(s) == was.roster(s) by {}
            assert forall|s: Seq<char>| #[trigger] opened.ring_of(s) == was.ring_of(s) by {}
            assert forall|s: Seq<char>| #[trigger]
                opened.order_of(s) == was.order_of(s) && opened.order_without(
                    s,
                    record.instance_id@,
                ) == was.order_without(s, record.instance_id@) by {
                if s == service@ && !was.routes@.contains_key(s) {
                    assert(opened.order_of(s) =~= Seq::<ClusterMember>::empty());
                    assert(opened.order_without(s, record.instance_id@) =~= Seq::<
                        ClusterMember,
                    >::empty());
                }
            }
        }
        let displaced: Option<ClusterMember> = match self.routes.get_mut(service.as_str()) {
            Some(route) => {
                assert(route.cluster.wf() && route.cluster.unique());
                upsert(&mut route.cluster, record.member())
            },
            None => None,
        };
        proof {
            assert forall|s: Seq<char>| self.routes@.contains_key(s) implies (
            #[trigger] self.routes@[s]).cluster.wf() && self.routes@[s].cluster.unique()
                && self.routes@[s].cluster.members@.len() > 0
                && self.routes@[s].cluster.ring.virtual_nodes == 150 by {
                if s != service@ {
                    assert(was.routes@[s].cluster.wf());
                }
            }
            assert forall|s: Seq<char>| #[trigger] self.roster(s) == (if s == record.service@ {
                was.roster(s).insert(record.instance_id@, record.as_member())
            } else {
                was.roster(s)
            }) by {
                assert(opened.roster(s) == was.roster(s));
            }
            assert forall|s: Seq<char>| #[trigger] self.ring_of(s) == (if s == record.service@ {
                with_vnodes(was.ring_of(s), record.instance_id@, 150)
            } else {
                was.ring_of(s)
            }) by {
                assert(opened.ring_of(s) == was.ring_of(s));
            }
            assert forall|s: Seq<char>| #[trigger] self.order_of(s) == (if s == record.service@ {
                was.order_without(s, record.instance_id@).push(record.as_member())
            } else {
                was.order_of(s)
            }) by {
                assert(opened.order_of(s) == was.order_of(s));
            }
        }
        match displaced {
            Some(member) => Some(record_of(service.as_str(), member)),
            None => None,
        }
    }

    /// Removes an instance; a service without instances is forgotten.
    pub fn deregister(&mut self, service: &str, instance_id: &str) -> (r: Option<ServiceRecord>)
        requires
            old(self).wf(),
        ensures
            final(self).wf(),
            deregistered_in(*old(self), service@, instance_id@, *final(self), r),
    {
        let ghost was = *self;
        if !self.routes.contains_key(service) {
            assert(was.roster(service@).remove(instance_id@) =~= was.roster(service@));
            return None;
        }
        let mut emptied: bool = false;
        let ghost mut mid = *self;
        let left: Option<ClusterMember> = match self.routes.get_mut(service) {
            Some(route) => {
                proof {
                    route.cluster.lemma_roster();
                }
                let m = route.cluster.leave(instance_id);
                proof {
                    route.cluster.lemma_roster();
                }
                emptied = route.cluster.is_empty();
                m
            },
            None => None,
        };
        proof {
            mid = *self;
        }
        let r = match left {
            None => {
                proof {
                    assert(was.roster(service@).remove(instance_id@) =~= was.roster(service@));
                    assert(self.routes@ =~= was.routes@);
                }
                None
            },
            Some(member) => {
                if emptied {
                    let _ = self.routes.remove(service);
                    proof {
                        let c = mid.routes@[service@].cluster;
                        assert(c.members@.len() == 0);
                        c.lemma_roster();
                        assert(c.roster() =~= Map::<Seq<char>, ClusterMember>::empty());
                        assert forall|h: u64| !c.ring.occupied().contains_key(h) by {
                            if c.ring.occupied().contains_key(h) {
                                let id = c.ring.occupied()[h];
                                assert(c.ring.nodes@.contains_key(id));
                                assert(c.refs_by_id@[id] < c.members@.len());
                            }
                        }
                        assert(c.ring.occupied() =~= Map::<u64, Seq<char>>::empty());
                    }
                }
                proof {
                    assert forall|s: Seq<char>| self.routes@.contains_key(s) implies (
                    #[trigger] self.routes@[s]).cluster.wf() && self.routes@[s].cluster.unique()
                        && self.routes@[s].cluster.members@.len() > 0
                        && self.routes@[s].cluster.ring.virtual_nodes == 150 by {
                        if s != service@ {
                            assert(was.routes@[s].cluster.wf());
                        }
                    }
                }
                Some(record_of(service, member))
            },
        };
        proof {
            assert(forall|s: Seq<char>| #[trigger]
                self.roster(s) == (if s == service@ {
                    was.roster(s).remove(instance_id@)
                } else {
                    was.roster(s)
                }));
            assert(forall|s: Seq<char>| #[trigger]
                self.routes@.contains_key(s) <==> was.routes@.contains_key(s) && (s != service@
                    || was.roster(s).remove(instance_id@).dom() != Set::<Seq<char>>::empty()));
            assert(forall|s: Seq<char>| #[trigger]
                self.ring_of(s) == (if s == service@ && r is Some {
                    without_vnodes(was.ring_of(s), instance_id@, 150)
                } else {
                    was.ring_of(s)
                }));
            assert(forall|s: Seq<char>| #[trigger]
                self.order_of(s) == (if s == service@ {
                    was.order_without(s, instance_id@)
                } else {
                    was.order_of(s)
                }));
        }
        r
    }
}

/// The instances of a service that a snapshot describes; of several records
/// for one instance the last counts.
pub open spec fn snapshot_roster(records: Seq<ServiceRecord>, service: Seq<char>) -> Map<
    Seq<char>,
    ClusterMember,
> {
    Map::new(
        |id: Seq<char>| listed(records, service, id),
        |id: Seq<char>|
            {
                let k = choose|k: int|
                    #[trigger] is_last(records, k) && records[k].is_for(service, id);
                records[k].as_member()
            },
    )
}

/// Whether the ring positions of a service are those of the instances that a
/// snapshot describes, and each is held by an instance that it belongs to.
/// Which one, where it belongs to several, is left open.
pub open spec fn is_snapshot_ring(
    ring: Map<u64, Seq<char>>,
    records: Seq<ServiceRecord>,
    service: Seq<char>,
) -> bool {
    &&& forall|h: u64, id: Seq<char>|
        #![trigger is_vnode(id, 150, h), listed(records, service, id)]
        listed(records, service, id) && is_vnode(id, 150, h) ==> ring.contains_key(h)
    &&& forall|h: u64|
        ring.contains_key(h) ==> listed(records, service, #[trigger] ring[h]) && is_vnode(
            ring[h],
            150,
            h,
        )
}

/// Whether some instance of the service is both present and in the snapshot.
pub open spec fn survives(
    mesh: ServiceMesh,
    records: Seq<ServiceRecord>,
    service: Seq<char>,
) -> bool {
    exists|id: Seq<char>| #[trigger]
        mesh.roster(service).contains_key(id) && listed(records, service, id)
}

impl ServiceMesh {
    /// Drops the instances that a snapshot does not list, and the services
    /// that have none left.
    fn drop_unlisted(&mut self, records: &Vec<ServiceRecord>)
        requires
            old(self).wf(),
        ensures
            final(self).wf(),
            final(self).consistency == old(self).consistency,
            forall|s: Seq<char>| #[trigger]
                final(self).roster(s) == old(self).roster(s).restrict(
                    Set::new(|id: Seq<char>| listed(records@, s, id)),
                ),
            forall|s: Seq<char>| #[trigger]
                final(self).override_of(s) == (if survives(*old(self), records@, s) {
                    old(self).override_of(s)
                } else {
                    None
                }),
            forall|s: Seq<char>| #[trigger]
                final(self).turn_of(s) == (if survives(*old(self), records@, s) {
                    old(self).turn_of(s)
                } else {
                    0
                }),
    {
        let ghost was = *self;
        let mut names: Vec<String> = Vec::new();
        let mut n: usize = 0;
        while n < self.routes.entries.len()
            invariant
                *self == was,
                n <= was.routes.entries@.len(),
                strs(names@) == was.routes.keys().take(n as int),
            decreases was.routes.entries@.len() - n,
        {
            let ghost before = names@;
            names.push(self.routes.entries[n].0.clone());
            assert(strs(names@) =~= strs(before).push(was.routes.keys()[n as int]));
            assert(was.routes.keys().take(n as int + 1) =~= was.routes.keys().take(n as int).push(
                was.routes.keys()[n as int],
            ));
            n += 1;
        }
        assert(was.routes.keys().take(n as int) =~= was.routes.keys());
        let mut i: usize = 0;
        while i < names.len()
            invariant
                was.wf(),
                self.wf(),
                self.consistency == was.consistency,
                i <= names@.len(),
                strs(names@) == was.routes.keys(),
                forall|j: int|
                    i <= j < names@.len() ==> self.routes@.contains_key(
                        (#[trigger] names@[j])@,
                    ) == was.routes@.contains_key(names@[j]@) && self.routes@[names@[j]@]
                        == was.routes@[names@[j]@],
                forall|s: Seq<char>| #[trigger]
                    self.routes@.contains_key(s) ==> was.routes@.contains_key(s),
                forall|j: int|
                    0 <= j < i ==> self.roster((#[trigger] names@[j])@) == was.roster(
                        names@[j]@,
                    ).restrict(Set::new(|id: Seq<char>| listed(records@, names@[j]@, id))),
                forall|j: int|
                    0 <= j < i && self.routes@.contains_key((#[trigger] names@[j])@)
                        ==> self.routes@[names@[j]@].consistency
                        == was.routes@[names@[j]@].consistency && self.routes@[names@[j]@].cluster.next
                        == was.routes@[names@[j]@].cluster.next,
            decreases names@.len() - i,
        {
            let ghost at_start = *self;
            let ghost here = names@[i as int]@;
            let ghost keep = Set::new(|id: Seq<char>| listed(records@, here, id));
            let mut emptied: bool = false;
            proof {
                assert(strs(names@)[i as int] == here);
                assert(was.routes.keys().contains(here));
                assert(was.routes@.contains_key(here));
                assert(self.routes@.contains_key(names@[i as int]@));
            }
            match self.routes.get_mut(names[i].as_str()) {
                Some(route) => {
                    assert(route.cluster.wf() && route.cluster.unique());
                    drop_stale(&mut route.cluster, names[i].as_str(), records);
                    emptied = route.cluster.is_empty();
                },
                None => {},
            }
            let ghost mid = *self;
            proof {
                assert(mid.routes@[here].cluster.roster() == was.roster(here).restrict(keep));
                mid.routes@[here].cluster.lemma_roster();
            }
            if emptied {
                let _ = self.routes.remove(names[i].as_str());
                proof {
                    let c = mid.routes@[here].cluster;
                    assert(c.roster() =~= Map::<Seq<char>, ClusterMember>::empty());
                    assert(self.roster(here) == was.roster(here).restrict(keep));
                }
            }
            proof {
                assert(self.roster(here) == was.roster(here).restrict(keep));
                assert forall|s: Seq<char>| self.routes@.contains_key(s) implies (
                #[trigger] self.routes@[s]).cluster.wf() && self.routes@[s].cluster.unique()
                    && self.routes@[s].cluster.members@.len() > 0
                    && self.routes@[s].cluster.ring.virtual_nodes == 150 by {
                    if s != here {
                        assert(at_start.routes@[s].cluster.wf());
                    }
                }
                assert forall|j: int| 0 <= j < names@.len() && j != i implies (
                #[trigger] names@[j])@ != here by {
                    assert(strs(names@)[j] == names@[j]@);
                    assert(was.routes.keys()[j] != was.routes.keys()[i as int]);
                }
                assert forall|j: int| 0 <= j < i + 1 implies self.roster((#[trigger] names@[j])@)
                    == was.roster(names@[j]@).restrict(
                    Set::new(|id: Seq<char>| listed(records@, names@[j]@, id)),
                ) by {
                    if j < i {
                        assert(at_start.roster(names@[j]@) == was.roster(names@[j]@).restrict(
                            Set::new(|id: Seq<char>| listed(records@, names@[j]@, id)),
                        ));
                        assert(self.roster(names@[j]@) == at_start.roster(names@[j]@));
                    }
                }
            }
            i += 1;
        }
        proof {
            assert forall|s: Seq<char>| #[trigger] self.roster(s) == was.roster(s).restrict(
                Set::new(|id: Seq<char>| listed(records@, s, id)),
            ) by {
                if was.routes@.contains_key(s) {
                    let j = was.routes.keys().index_of(s);
                    assert(was.routes.keys()[j] == s);
                    assert(strs(names@)[j] == s);
                    assert(names@[j]@ == s);
                } else {
                    assert(self.roster(s) =~= was.roster(s).restrict(
                        Set::new(|id: Seq<char>| listed(records@, s, id)),
                    ));
                }
            }
            assert forall|s: Seq<char>| #[trigger] self.override_of(s) == (if survives(
                was,
                records@,
                s,
            ) {
                was.override_of(s)
            } else {
                None
            }) && self.turn_of(s) == (if survives(was, records@, s) {
                was.turn_of(s)
            } else {
                0
            }) by {
                let keep = Set::new(|id: Seq<char>| listed(records@, s, id));
                assert(self.roster(s) == was.roster(s).restrict(keep));
                if survives(was, records@, s) {
                    let id = choose|id: Seq<char>| #[trigger]
                        was.roster(s).contains_key(id) && listed(records@, s, id);
                    assert(self.roster(s).contains_key(id));
                    let j = was.routes.keys().index_of(s);
                    assert(was.routes.keys()[j] == s);
                    assert(strs(names@)[j] == s);
                    assert(names@[j]@ == s);
                } else {
                    assert(self.roster(s) =~= Map::<Seq<char>, ClusterMember>::empty());
                    if self.routes@.contains_key(s) {
                        let c = self.routes@[s].cluster;
                        c.lemma_roster();
                        assert(c.roster().contains_key(c.members@[0].name@));
                    }
                }
            }
            assert forall|s: Seq<char>| #[trigger] self.turn_of(s) == (if survives(
                was,
                records@,
                s,
            ) {
                was.turn_of(s)
            } else {
                0
            }) by {
                assert(self.override_of(s) == (if survives(was, records@, s) {
                    was.override_of(s)
                } else {
                    None
                }));
            }
        }
    }

    /// Brings the mesh in line with a registry snapshot without clearing the
    /// routes that stay.
    pub fn apply_snapshot_diff(&mut self, records: Vec<ServiceRecord>)
        requires
            old(self).wf(),
            forall|k: int| #[trigger]
                is_last(records@, k) ==> host_port(records@[k].address@) is Some,
        ensures
            final(self).wf(),
            snapshot_taken(*old(self), records@, *final(self)),
    {
        let ghost was = *self;
        self.drop_unlisted(&records);
        let ghost pruned = *self;
        let mut j: usize = 0;
        while j < records.len()
            invariant
                self.wf(),
                self.consistency == was.consistency,
                j <= records@.len(),
                forall|k: int| #[trigger]
                    is_last(records@, k) ==> host_port(records@[k].address@) is Some,
                forall|s: Seq<char>| #[trigger] self.override_of(s) == pruned.override_of(s),
                forall|s: Seq<char>| #[trigger] self.turn_of(s) == pruned.turn_of(s),
                forall|k: int, h: u64|
                    #![trigger is_last(records@, k), is_vnode(records@[k].instance_id@, 150, h)]
                    k < j && is_last(records@, k) && is_vnode(records@[k].instance_id@, 150, h)
                        ==> self.ring_of(records@[k].service@).contains_key(h),
                forall|s: Seq<char>, id: Seq<char>| #[trigger]
                    self.roster(s).contains_key(id) <==> pruned.roster(s).contains_key(id) || (
                    exists|k: int|
                        k < j && #[trigger] is_last(records@, k) && records@[k].is_for(s, id)),
                forall|s: Seq<char>, k: int|
                    #![trigger self.roster(s), is_last(records@, k)]
                    k < j && is_last(records@, k) && records@[k].service@ == s ==> self.roster(
                        s,
                    )[records@[k].instance_id@] == records@[k].as_member(),
            decreases records@.len() - j,
        {
            if last_of_its_kind(&records, j) {
                let ghost at_start = *self;
                let ghost rec = records@[j as int];
                let _ = self.register(records[j].clone());
                proof {
                    assert forall|k: int, h: u64|
                        #![trigger is_last(records@, k), is_vnode(records@[k].instance_id@, 150, h)]
                        k < j + 1 && is_last(records@, k) && is_vnode(
                            records@[k].instance_id@,
                            150,
                            h,
                        ) implies self.ring_of(records@[k].service@).contains_key(h) by {
                        if k < j {
                            assert(at_start.ring_of(records@[k].service@).contains_key(h));
                        }
                    }
                    assert forall|s: Seq<char>, id: Seq<char>| #[trigger]
                        self.roster(s).contains_key(id) <==> pruned.roster(s).contains_key(id) || (
                        exists|k: int|
                            k < j + 1 && #[trigger] is_last(records@, k) && records@[k].is_for(
                                s,
                                id,
                            )) by {
                        assert(at_start.roster(s).contains_key(id) <==> pruned.roster(
                            s,
                        ).contains_key(id) || (exists|k: int|
                            k < j && #[trigger] is_last(records@, k) && records@[k].is_for(s, id)));
                        if rec.is_for(s, id) {
                            assert(is_last(records@, j as int));
                        }
                    }
                    assert forall|s: Seq<char>, k: int|
                        #![trigger self.roster(s), is_last(records@, k)]
                        k < j + 1 && is_last(records@, k) && records@[k].service@
                            == s implies self.roster(s)[records@[k].instance_id@]
                        == records@[k].as_member() by {
                        if k < j {
                            assert(at_start.roster(s)[records@[k].instance_id@]
                                == records@[k].as_member());
                            assert(!records@[j as int].is_for(
                                records@[k].service@,
                                records@[k].instance_id@,
                            ));
                        }
                    }
                }
            } else {
                proof {
                    assert forall|s: Seq<char>, id: Seq<char>| #[trigger]
                        self.roster(s).contains_key(id) <==> pruned.roster(s).contains_key(id) || (
                        exists|k: int|
                            k < j + 1 && #[trigger] is_last(records@, k) && records@[k].is_for(
                                s,
                                id,
                            )) by {}
                }
            }
            j += 1;
        }
        proof {
            assert forall|s: Seq<char>| #[trigger] self.roster(s) == snapshot_roster(
                records@,
                s,
            ) by {
                assert(pruned.roster(s) == was.roster(s).restrict(
                    Set::new(|id: Seq<char>| listed(records@, s, id)),
                ));
                assert forall|id: Seq<char>|
                    self.roster(s).contains_key(id) <==> listed(records@, s, id) by {
                    if listed(records@, s, id) {
                        let f = choose|f: int|
                            0 <= f < records@.len() && (#[trigger] records@[f]).is_for(s, id);
                        lemma_last_exists(records@, s, id, f);
                        let k = choose|k: int| #[trigger]
                            is_last(records@, k) && records@[k].is_for(s, id);
                        assert(k < records@.len());
                    }
                }
                assert forall|id: Seq<char>| listed(records@, s, id) implies self.roster(s)[id]
                    == snapshot_roster(records@, s)[id] by {
                    let f = choose|f: int|
                        0 <= f < records@.len() && (#[trigger] records@[f]).is_for(s, id);
                    lemma_last_exists(records@, s, id, f);
                    let k = choose|k: int| #[trigger]
                        is_last(records@, k) && records@[k].is_for(s, id);
                    assert(self.roster(s)[records@[k].instance_id@] == records@[k].as_member());
                }
                assert(self.roster(s) =~= snapshot_roster(records@, s));
            }
            assert forall|s: Seq<char>| #[trigger] self.override_of(s) == (if survives(
                was,
                records@,
                s,
            ) {
                was.override_of(s)
            } else {
                None
            }) by {
                assert(self.override_of(s) == pruned.override_of(s));
            }
            assert forall|s: Seq<char>| #[trigger] self.turn_of(s) == (if survives(
                was,
                records@,
                s,
            ) {
                was.turn_of(s)
            } else {
                0
            }) by {
                assert(self.turn_of(s) == pruned.turn_of(s));
            }
            assert forall|s: Seq<char>| #[trigger]
                is_snapshot_ring(self.ring_of(s), records@, s) by {
                assert(self.roster(s) == snapshot_roster(records@, s));
                let ring = self.ring_of(s);
                assert forall|h: u64, id: Seq<char>|
                    #![trigger is_vnode(id, 150, h), listed(records@, s, id)]
                    listed(records@, s, id) && is_vnode(id, 150, h) implies ring.contains_key(h) by {
                    let f = choose|f: int|
                        0 <= f < records@.len() && (#[trigger] records@[f]).is_for(s, id);
                    lemma_last_exists(records@, s, id, f);
                    let k = choose|k: int| #[trigger]
                        is_last(records@, k) && records@[k].is_for(s, id);
                    assert(is_vnode(records@[k].instance_id@, 150, h));
                }
                assert forall|h: u64| ring.contains_key(h) implies listed(
                    records@,
                    s,
                    #[trigger] ring[h],
                ) && is_vnode(ring[h], 150, h) by {
                    let c = self.routes@[s].cluster;
                    assert(c.ring.nodes@.contains_key(c.ring.occupied()[h]));
                    assert(c.refs_by_id@.contains_key(ring[h]));
                    assert(self.roster(s).contains_key(ring[h]));
                }
            }
        }
    }

    /// Brings the mesh in line with a registry snapshot.
    pub fn apply_snapshot(&mut self, records: Vec<ServiceRecord>)
        requires
            old(self).wf(),
            forall|k: int| #[trigger]
                is_last(records@, k) ==> host_port(records@[k].address@) is Some,
        ensures
            final(self).wf(),
            snapshot_taken(*old(self), records@, *final(self)),
    {
        self.apply_snapshot_diff(records);
    }

    /// A snapshot decides membership alone: whatever two meshes knew before,
    /// they route the same instances after taking in the same snapshot, namely
    /// those that it lists, and occupy the same ring positions; where no
    /// position belongs to two instances, the rings are the same.
    pub proof fn law_snapshot_decides_membership(
        first: ServiceMesh,
        second: ServiceMesh,
        records: Seq<ServiceRecord>,
        service: Seq<char>,
    )
        requires
            forall|s: Seq<char>| #[trigger] first.roster(s) == snapshot_roster(records, s),
            forall|s: Seq<char>| #[trigger] second.roster(s) == snapshot_roster(records, s),
            is_snapshot_ring(first.ring_of(service), records, service),
            is_snapshot_ring(second.ring_of(service), records, service),
        ensures
            first.roster(service) == second.roster(service),
            forall|id: Seq<char>|
                first.roster(service).contains_key(id) <==> listed(records, service, id),
            first.ring_of(service).dom() == second.ring_of(service).dom(),
            (forall|a: Seq<char>, b: Seq<char>, h: u64|
                #![trigger is_vnode(a, 150, h), is_vnode(b, 150, h)]
                listed(records, service, a) && listed(records, service, b) && is_vnode(a, 150, h)
                    && is_vnode(b, 150, h) ==> a == b) ==> first.ring_of(service)
                == second.ring_of(service),
    {
        let f = first.ring_of(service);
        let g = second.ring_of(service);
        assert forall|h: u64| f.dom().contains(h) <==> g.dom().contains(h) by {
            if f.contains_key(h) {
                assert(listed(records, service, f[h]) && is_vnode(f[h], 150, h));
            }
            if g.contains_key(h) {
                assert(listed(records, service, g[h]) && is_vnode(g[h], 150, h));
            }
        }
        assert(f.dom() =~= g.dom());
        if forall|a: Seq<char>, b: Seq<char>, h: u64|
            #![trigger is_vnode(a, 150, h), is_vnode(b, 150, h)]
            listed(records, service, a) && listed(records, service, b) && is_vnode(a, 150, h)
                && is_vnode(b, 150, h) ==> a == b {
            assert forall|h: u64| f.contains_key(h) implies f[h] == g[h] by {
                assert(listed(records, service, f[h]) && is_vnode(f[h], 150, h));
                assert(g.contains_key(h));
                assert(listed(records, service, g[h]) && is_vnode(g[h], 150, h));
            }
            assert(f =~= g);
        }
    }
}

/// One service got a configuration of its own, if it is known.
pub open spec fn overridden_in(
    before: ServiceMesh,
    service: Seq<char>,
    config: ConsistencyConfig,
    after: ServiceMesh,
) -> bool {
    &&& after.consistency == before.consistency
    &&& after.routes@.dom() == before.routes@.dom()
    &&& forall|s: Seq<char>|
        before.routes@.contains_key(s) ==> (#[trigger] after.routes@[s]).cluster
            == before.routes@[s].cluster
    &&& forall|s: Seq<char>| #[trigger]
        after.override_of(s) == (if s == service && before.routes@.contains_key(
            s,
        ) {
            Some(config)
        } else {
            before.override_of(s)
        })
}

/// An instance was registered; the record that it replaces, if any, is given.
pub open spec fn registered_in(
    before: ServiceMesh,
    record: ServiceRecord,
    after: ServiceMesh,
    r: Option<ServiceRecord>,
) -> bool {
    &&& after.consistency == before.consistency
    &&& forall|s: Seq<char>| #[trigger]
        after.roster(s) == (if s == record.service@ {
            before.roster(s).insert(record.instance_id@, record.as_member())
        } else {
            before.roster(s)
        })
    &&& forall|s: Seq<char>| #[trigger]
        after.routes@.contains_key(s) <==> before.routes@.contains_key(s) || s
            == record.service@
    &&& forall|s: Seq<char>| #[trigger] after.override_of(s) == before.override_of(s)
    &&& forall|s: Seq<char>| #[trigger]
        after.ring_of(s) == (if s == record.service@ {
            with_vnodes(before.ring_of(s), record.instance_id@, 150)
        } else {
            before.ring_of(s)
        })
    &&& forall|s: Seq<char>| #[trigger]
        after.order_of(s) == (if s == record.service@ {
            before.order_without(s, record.instance_id@).push(record.as_member())
        } else {
            before.order_of(s)
        })
    &&& forall|s: Seq<char>| #[trigger] after.turn_of(s) == before.turn_of(s)
    &&& match r {
        Some(d) => {
            &&& d.service@ == record.service@
            &&& d.registered_at == 0
            &&& before.roster(record.service@).contains_key(record.instance_id@)
            &&& d.as_member() == before.roster(record.service@)[record.instance_id@]
        },
        None => !before.roster(record.service@).contains_key(record.instance_id@),
    }
}

/// An instance was taken out, if it was there; its record is given.
pub open spec fn deregistered_in(
    before: ServiceMesh,
    service: Seq<char>,
    instance_id: Seq<char>,
    after: ServiceMesh,
    r: Option<ServiceRecord>,
) -> bool {
    &&& after.consistency == before.consistency
    &&& forall|s: Seq<char>| #[trigger]
        after.roster(s) == (if s == service {
            before.roster(s).remove(instance_id)
        } else {
            before.roster(s)
        })
    &&& forall|s: Seq<char>| #[trigger]
        after.routes@.contains_key(s) <==> before.routes@.contains_key(s) && (s
            != service || before.roster(s).remove(instance_id).dom() != Set::<
            Seq<char>,
        >::empty())
    &&& forall|s: Seq<char>| #[trigger]
        after.override_of(s) == (if after.routes@.contains_key(s) {
            before.override_of(s)
        } else {
            None
        })
    &&& forall|s: Seq<char>| #[trigger]
        after.ring_of(s) == (if s == service && r is Some {
            without_vnodes(before.ring_of(s), instance_id, 150)
        } else {
            before.ring_of(s)
        })
    &&& forall|s: Seq<char>| #[trigger]
        after.order_of(s) == (if s == service {
            before.order_without(s, instance_id)
        } else {
            before.order_of(s)
        })
    &&& forall|s: Seq<char>| #[trigger]
        after.turn_of(s) == (if after.routes@.contains_key(s) {
            before.turn_of(s)
        } else {
            0
        })
    &&& match r {
        Some(d) => d.service@ == service && d.registered_at == 0 && before.roster(
            service,
        ).contains_key(instance_id) && d.as_member() == before.roster(
            service,
        )[instance_id],
        None => !before.roster(service).contains_key(instance_id) && after.routes@
            == before.routes@,
    }
}

/// A snapshot was taken in.
pub open spec fn snapshot_taken(
    before: ServiceMesh,
    records: Seq<ServiceRecord>,
    after: ServiceMesh,
) -> bool {
    &&& after.consistency == before.consistency
    &&& forall|s: Seq<char>| #[trigger]
        after.roster(s) == snapshot_roster(records, s)
    &&& forall|s: Seq<char>| #[trigger]
        is_snapshot_ring(after.ring_of(s), records, s)
    &&& forall|s: Seq<char>| #[trigger]
        after.override_of(s) == (if survives(before, records, s) {
            before.override_of(s)
        } else {
            None
        })
    &&& forall|s: Seq<char>| #[trigger]
        after.turn_of(s) == (if survives(before, records, s) {
            before.turn_of(s)
        } else {
            0
        })
}

/// A registered instance is found under its service and name, at the address,
/// target and datacenter that it registered with. Other instances and services,
/// and every configuration, stay. The record that it replaces is given back as
/// it was.
pub proof fn law_registered_instance_is_found(
    before: ServiceMesh,
    record: ServiceRecord,
    after: ServiceMesh,
    r: Option<ServiceRecord>,
    service: Seq<char>,
    id: Seq<char>,
)
    requires
        registered_in(before, record, after, r),
    ensures
        after.routes@.contains_key(record.service@),
        after.roster(record.service@).contains_key(record.instance_id@),
        ({
            let m = after.roster(record.service@)[record.instance_id@];
            &&& m.name@ == record.instance_id@
            &&& m.node_addr@ == record.address@
            &&& m.target@ == record.target@
            &&& m.dc == record.dc
        }),
        service != record.service@ || id != record.instance_id@ ==> {
            &&& after.roster(service).contains_key(id) <==> before.roster(service).contains_key(id)
            &&& before.roster(service).contains_key(id) ==> after.roster(service)[id]
                == before.roster(service)[id]
        },
        after.config_of(service) == before.config_of(service),
        r is Some <==> before.roster(record.service@).contains_key(record.instance_id@),
        r matches Some(d) ==> {
            let m = before.roster(record.service@)[record.instance_id@];
            &&& d.service@ == record.service@
            &&& d.instance_id@ == m.name@
            &&& d.address@ == m.node_addr@
            &&& d.target@ == m.target@
            &&& d.dc == m.dc
        },
{
    assert(after.roster(record.service@) == before.roster(record.service@).insert(
        record.instance_id@,
        record.as_member(),
    ));
    assert(after.roster(service) == (if service == record.service@ {
        before.roster(service).insert(record.instance_id@, record.as_member())
    } else {
        before.roster(service)
    }));
    assert(after.override_of(service) == before.override_of(service));
}

/// An instance that was taken out is not found any more, and every other one
/// still is. Taking out undoes registering: the record comes back, and the
/// instances are those that there were.
pub proof fn law_deregistering_undoes_registering(
    before: ServiceMesh,
    record: ServiceRecord,
    between: ServiceMesh,
    r1: Option<ServiceRecord>,
    after: ServiceMesh,
    r2: Option<ServiceRecord>,
    service: Seq<char>,
    id: Seq<char>,
)
    requires
        registered_in(before, record, between, r1),
        deregistered_in(between, record.service@, record.instance_id@, after, r2),
    ensures
        !after.roster(record.service@).contains_key(record.instance_id@),
        service != record.service@ || id != record.instance_id@ ==> {
            &&& after.roster(service).contains_key(id) <==> before.roster(service).contains_key(id)
            &&& before.roster(service).contains_key(id) ==> after.roster(service)[id]
                == before.roster(service)[id]
        },
        r2 is Some,
        r2->0.service@ == record.service@,
        r2->0.instance_id@ == record.instance_id@,
        r2->0.address@ == record.address@,
        r2->0.target@ == record.target@,
        r2->0.dc == record.dc,
        after.consistency == before.consistency,
        service != record.service@ ==> after.config_of(service) == before.config_of(service),
{
    law_registered_instance_is_found(before, record, between, r1, service, id);
    assert(after.roster(record.service@) == between.roster(record.service@).remove(
        record.instance_id@,
    ));
    assert(after.roster(service) == (if service == record.service@ {
        between.roster(service).remove(record.instance_id@)
    } else {
        between.roster(service)
    }));
    assert(after.override_of(service) == (if after.routes@.contains_key(service) {
        between.override_of(service)
    } else {
        None
    }));
    assert(after.routes@.contains_key(service) <==> between.routes@.contains_key(service) && (
    service != record.service@ || between.roster(service).remove(record.instance_id@).dom()
        != Set::<Seq<char>>::empty()));
}

/// A service is taken out with its last instance, and with it a configuration of
/// its own: only services with instances are known.
pub proof fn law_service_ends_with_its_last_instance(
    before: ServiceMesh,
    service: Seq<char>,
    id: Seq<char>,
    after: ServiceMesh,
    r: Option<ServiceRecord>,
    other: Seq<char>,
)
    requires
        deregistered_in(before, service, id, after, r),
    ensures
        r is Some <==> before.roster(service).contains_key(id),
        before.routes@.contains_key(service) && before.roster(service).contains_key(other) && other
            != id ==> after.routes@.contains_key(service) && after.config_of(service)
            == before.config_of(service),
        before.roster(service).dom() == set![id] ==> !after.routes@.contains_key(service)
            && after.config_of(service) == after.consistency,
{
    assert(after.routes@.contains_key(service) <==> before.routes@.contains_key(service)
        && before.roster(service).remove(id).dom() != Set::<Seq<char>>::empty());
    assert(after.override_of(service) == (if after.routes@.contains_key(service) {
        before.override_of(service)
    } else {
        None
    }));
    if before.roster(service).contains_key(other) && other != id {
        assert(before.roster(service).remove(id).dom().contains(other));
    }
    if before.roster(service).dom() == set![id] {
        assert(before.roster(service).remove(id).dom() =~= Set::<Seq<char>>::empty());
    }
}

/// A configuration set for one service is the one that the service goes by, and
/// that no other service does. For a service that is not known it is not kept.
pub proof fn law_override_is_for_one_service(
    before: ServiceMesh,
    service: Seq<char>,
    config: ConsistencyConfig,
    after: ServiceMesh,
    other: Seq<char>,
)
    requires
        overridden_in(before, service, config, after),
        other != service,
    ensures
        before.routes@.contains_key(service) ==> after.config_of(service) == config,
        !before.routes@.contains_key(service) ==> after.config_of(service) == before.consistency,
        after.config_of(other) == before.config_of(other),
        after.roster(service) == before.roster(service),
        after.roster(other) == before.roster(other),
{
    assert(after.override_of(service) == (if before.routes@.contains_key(service) {
        Some(config)
    } else {
        before.override_of(service)
    }));
    assert(after.override_of(other) == before.override_of(other));
    assert(after.routes@.dom().contains(service) <==> before.routes@.dom().contains(service));
    assert(after.routes@.dom().contains(other) <==> before.routes@.dom().contains(other));
    if before.routes@.contains_key(service) {
        assert(after.routes@[service].cluster == before.routes@[service].cluster);
    }
    if before.routes@.contains_key(other) {
        assert(after.routes@[other].cluster == before.routes@[other].cluster);
    }
}

/// After a snapshot, the instances are those that it lists, each as the last of
/// its records says: what was there before and is not listed is gone, and what is
/// listed is there, at the listed address.
pub proof fn law_snapshot_is_taken_as_it_is(
    before: ServiceMesh,
    records: Seq<ServiceRecord>,
    after: ServiceMesh,
    service: Seq<char>,
    id: Seq<char>,
    k: int,
)
    requires
        snapshot_taken(before, records, after),
        0 <= k < records.len(),
        records[k].service@ == service,
        records[k].instance_id@ == id,
        forall|j: int|
            k < j < records.len() ==> !((#[trigger] records[j]).service@ == service
                && records[j].instance_id@ == id),
    ensures
        after.roster(service).contains_key(id),
        after.roster(service)[id].name@ == id,
        after.roster(service)[id].node_addr@ == records[k].address@,
        after.roster(service)[id].target@ == records[k].target@,
        after.roster(service)[id].dc == records[k].dc,
        forall|s: Seq<char>, i: Seq<char>| #[trigger]
            after.roster(s).contains_key(i) ==> exists|j: int|
                0 <= j < records.len() && (#[trigger] records[j]).service@ == s
                    && records[j].instance_id@ == i,
        after.consistency == before.consistency,
{
    assert(after.roster(service) == snapshot_roster(records, service));
    assert(records[k].is_for(service, id));
    assert(is_last(records, k));
    let c = choose|c: int| #[trigger] is_last(records, c) && records[c].is_for(service, id);
    if c < k {
        assert(!records[k].is_for(records[c].service@, records[c].instance_id@));
    }
    if k < c {
        assert(!(records[c].service@ == service && records[c].instance_id@ == id));
    }
    assert(c == k);
    assert forall|s: Seq<char>, i: Seq<char>| #[trigger] after.roster(s).contains_key(i) implies exists|
        j: int,
    |
        0 <= j < records.len() && (#[trigger] records[j]).service@ == s && records[j].instance_id@
            == i by {
        assert(after.roster(s) == snapshot_roster(records, s));
        let j = choose|j: int| 0 <= j < records.len() && (#[trigger] records[j]).is_for(s, i);
        assert(records[j].service@ == s);
    }
}

/// A record lives for as many whole seconds as it may, and one that seems to come
/// from the future lives on.
pub proof fn law_records_live_for_their_span(record: ServiceRecord, now: u64, ttl: Duration)
    ensures
        expired(record, now, ttl) <==> now > record.registered_at + ttl.secs,
        expired(record, now, ttl) ==> forall|later: u64|
            later >= now ==> #[trigger] expired(record, later, ttl),
{
}

/// A snapshot leaves the configuration of a service alone as long as one of its
/// instances stays; a service that it brings anew goes by the common one.
pub proof fn law_snapshot_keeps_configurations(
    before: ServiceMesh,
    records: Seq<ServiceRecord>,
    after: ServiceMesh,
    service: Seq<char>,
    k: int,
)
    requires
        snapshot_taken(before, records, after),
        0 <= k < records.len(),
        records[k].service@ == service,
    ensures
        before.roster(service).contains_key(records[k].instance_id@) ==> after.config_of(service)
            == before.config_of(service),
        !before.routes@.contains_key(service) ==> after.config_of(service) == after.consistency,
        after.consistency == before.consistency,
{
    assert(after.override_of(service) == (if survives(before, records, service) {
        before.override_of(service)
    } else {
        None
    }));
    assert(records[k].is_for(service, records[k].instance_id@));
    assert(listed(records, service, records[k].instance_id@));
    if before.roster(service).contains_key(records[k].instance_id@) {
        assert(survives(before, records, service));
    }
}

} // verus!
