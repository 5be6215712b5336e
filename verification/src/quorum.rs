//! Consistent reads and writes: which replicas to contact, how many
//! acknowledgements end the wait, and what the caller is told.

use crate::consistency::{
    each_quorum_acks_required, each_quorum_reachable, is_local_only, is_local_only_read,
    is_paxos_read, metrics_snapshot, quorum, quorum_sum, quorums, read_acks, read_acks_required,
    write_acks, write_acks_required, ConsistencyConfig, ConsistencyError, ConsistencyMetrics,
    ReadConsistency, WriteConsistency,
};
use crate::distributed::{
    at_most, lemma_filter_members, no_ack, one_ack_missing, upto, Cluster, RemoteActorRef,
};
use crate::error::{IoError, IoErrorKind};
use crate::hash_ring::{hash_key, key_hash};
use crate::mesh::{ServiceMesh, ServiceRoute};
use crate::paxos::PaxosReplica;
use crate::text::{clone_strings, concat2, debug_quote, quoted, strs, text_le};
use crate::time::Duration;
use vstd::prelude::*;

verus! {

/// Acknowledgement counts of one operation.
#[derive(Debug, Clone, Copy, PartialEq, Eq, Structural)]
pub struct QuorumOutcome {
    pub acks_received: usize,
    pub replicas_contacted: usize,
    pub acks_required: usize,
}

impl QuorumOutcome {
    /// Nothing acknowledged and nothing required yet.
    pub fn new(replicas_contacted: usize) -> (o: Self)
        ensures
            o == (QuorumOutcome { acks_received: 0, replicas_contacted, acks_required: 0 }),
    {
        QuorumOutcome { acks_received: 0, replicas_contacted, acks_required: 0 }
    }
}

/// The counts that an error tells of.
pub fn quorum_stats_from_error(err: &ConsistencyError) -> (o: QuorumOutcome)
    ensures
        counts_told(*err, o),
{
    match err {
        ConsistencyError::NotEnoughAcks { required: _, received, dc: _ } => QuorumOutcome {
            acks_received: *received,
            replicas_contacted: 0,
            acks_required: 0,
        },
        _ => QuorumOutcome::new(0),
    }
}

/// A routing failure, reported as a missing acknowledgement.
pub fn consistency_from_io(_err: IoError) -> (e: ConsistencyError)
    ensures
        e == one_ack_missing(),
{
    no_ack()
}

/// A finished operation: what the caller is told and what is recorded.
#[derive(Debug, PartialEq, Eq)]
pub struct Conclusion {
    pub result: Result<(), ConsistencyError>,
    pub stats: QuorumOutcome,
    pub required: usize,
}

/// The conclusion of an operation that failed.
pub open spec fn failed(
    error: ConsistencyError,
    acks: usize,
    contacted: usize,
    wanted: usize,
    required: usize,
) -> Conclusion {
    Conclusion {
        result: Err(error),
        stats: QuorumOutcome {
            acks_received: acks,
            replicas_contacted: contacted,
            acks_required: wanted,
        },
        required,
    }
}

/// The conclusion of an operation that failed.
fn fail(
    error: ConsistencyError,
    acks: usize,
    contacted: usize,
    wanted: usize,
    required: usize,
) -> (c: Conclusion)
    ensures
        c == failed(error, acks, contacted, wanted, required),
{
    Conclusion {
        result: Err(error),
        stats: QuorumOutcome {
            acks_received: acks,
            replicas_contacted: contacted,
            acks_required: wanted,
        },
        required,
    }
}

impl Conclusion {
    /// Whether the operation succeeded with fewer acknowledgements than there
    /// are replicas.
    pub fn degraded(&self, rf: usize) -> (r: bool)
        ensures
            r == (self.result is Ok && self.stats.acks_received < rf && self.required > 0),
    {
        self.result.is_ok() && self.stats.acks_received < rf && self.required > 0
    }

    /// The metrics of the operation.
    pub fn metrics(&self, service: &str, level: String, latency: Duration) -> (m:
        ConsistencyMetrics)
        ensures
            is_measured(*self, service@, level, latency, m),
    {
        metrics_snapshot(
            service,
            level,
            self.required,
            self.stats.acks_received,
            self.stats.replicas_contacted,
            latency,
            self.result.is_ok(),
        )
    }
}

/// The replicas of one datacenter and the acknowledgements it owes.
pub struct DcGroup<'a> {
    pub dc: String,
    pub replicas: Vec<&'a RemoteActorRef>,
    pub required: usize,
}

/// How a write goes out.
pub enum WritePlan<'a> {
    /// Nothing is sent.
    Conclude(Conclusion),
    /// One replica, without waiting for it.
    Fire(&'a RemoteActorRef),
    /// All of these replicas; the wait ends with `required` acknowledgements.
    Quorum { replicas: Vec<&'a RemoteActorRef>, required: usize },
    /// All of these groups, each with its own wait.
    EachQuorum { groups: Vec<DcGroup<'a>>, total_replicas: usize, total_required: usize },
}

/// How a read goes out.
pub enum ReadPlan<'a> {
    /// Nothing is sent.
    Conclude(Conclusion),
    /// All of these replicas; the wait ends with `required` acknowledgements.
    Quorum { replicas: Vec<&'a RemoteActorRef>, required: usize },
    /// A linearizable read.
    Serial(SerialPlan),
}

/// How a linearizable read goes out.
pub struct SerialPlan {
    pub replicas: Vec<PaxosReplica>,
    pub quorum: usize,
    pub paxos_key: String,
}

/// Whether the replicas are those at the given roster indices.
pub open spec fn are_at(replicas: Seq<&RemoteActorRef>, c: Cluster, idx: Seq<int>) -> bool {
    &&& replicas.len() == idx.len()
    &&& forall|i: int| 0 <= i < replicas.len() ==> *(#[trigger] replicas[i]) == c.refs@[idx[i]]
}

/// The sum of the replication factors.
pub open spec fn rf_sum(dc_rfs: Seq<usize>) -> nat
    decreases dc_rfs.len(),
{
    if dc_rfs.len() == 0 {
        0
    } else {
        rf_sum(dc_rfs.drop_last()) + dc_rfs.last() as nat
    }
}

/// Non-empty datacenters need no more acknowledgements than they have
/// replicas.
proof fn lemma_quorums_fit(dc_rfs: Seq<usize>)
    requires
        forall|i: int| 0 <= i < dc_rfs.len() ==> #[trigger] dc_rfs[i] > 0,
    ensures
        quorum_sum(dc_rfs) <= rf_sum(dc_rfs),
    decreases dc_rfs.len(),
{
    if dc_rfs.len() > 0 {
        let d = dc_rfs.drop_last();
        assert forall|i: int| 0 <= i < d.len() implies #[trigger] d[i] > 0 by {
            assert(dc_rfs[i] > 0);
        }
        lemma_quorums_fit(d);
        assert(dc_rfs[dc_rfs.len() - 1] > 0);
    }
}

/// A prefix sums to no more than the whole.
proof fn lemma_sums_prefix(s: Seq<usize>, i: int)
    requires
        0 <= i <= s.len(),
    ensures
        rf_sum(s.take(i)) <= rf_sum(s),
        quorum_sum(s.take(i)) <= quorum_sum(s),
    decreases s.len(),
{
    if i < s.len() {
        lemma_sums_prefix(s.drop_last(), i);
        assert(s.drop_last().take(i) == s.take(i));
    } else {
        assert(s.take(i) == s);
    }
}

/// The replicas of the `i`-th datacenter.
pub open spec fn group_order(
    c: Cluster,
    at: u64,
    cfg: ConsistencyConfig,
    names: Seq<Seq<char>>,
    i: int,
) -> Seq<int> {
    at_most(c.dc_order_at(at, names[i], cfg.local_dc@), cfg.dc_rfs@[i] as nat)
}

/// The replicas of the first `n` datacenters together.
pub open spec fn contacted(
    c: Cluster,
    at: u64,
    cfg: ConsistencyConfig,
    names: Seq<Seq<char>>,
    n: nat,
) -> nat
    decreases n,
{
    if n == 0 {
        0
    } else {
        contacted(c, at, cfg, names, (n - 1) as nat) + group_order(
            c,
            at,
            cfg,
            names,
            n - 1,
        ).len()
    }
}

/// Whether the `i`-th datacenter has fewer replicas than it owes
/// acknowledgements.
pub open spec fn short_of_replicas(
    c: Cluster,
    at: u64,
    cfg: ConsistencyConfig,
    names: Seq<Seq<char>>,
    i: int,
) -> bool {
    group_order(c, at, cfg, names, i).len() < quorum(cfg.dc_rfs@[i] as nat)
}

/// The datacenter names of a per-datacenter write: the configured ones, or
/// else those of the members in ascending order.
pub open spec fn dc_names_ok(c: Cluster, cfg: ConsistencyConfig, names: Seq<Seq<char>>) -> bool {
    if cfg.dc_names@.len() > 0 {
        names == strs(cfg.dc_names@)
    } else {
        &&& forall|i: int, j: int|
            0 <= i < j < names.len() ==> text_le(#[trigger] names[i], #[trigger] names[j])
                && names[i] != names[j]
        &&& forall|d: Seq<char>|
            names.contains(d) <==> exists|i: int|
                0 <= i < c.members@.len() && (#[trigger] c.members@[i]).effective_dc(cfg.local_dc@)
                    == d
    }
}

/// The per-datacenter plan for the given names.
pub open spec fn each_quorum_plan(
    c: Cluster,
    at: u64,
    cfg: ConsistencyConfig,
    names: Seq<Seq<char>>,
    plan: WritePlan,
) -> bool {
    let n = cfg.dc_rfs@.len();
    if !each_quorum_reachable(cfg.dc_rfs@) {
        plan == WritePlan::Conclude(
            failed(
                ConsistencyError::NotEnoughReplicas { required: 1, available: 0 },
                0,
                0,
                0,
                0,
            ),
        )
    } else if names.len() != n {
        plan == WritePlan::Conclude(
            failed(
                ConsistencyError::NotEnoughReplicas {
                    required: n as usize,
                    available: names.len() as usize,
                },
                0,
                0,
                0,
                0,
            ),
        )
    } else {
        match plan {
            WritePlan::Conclude(x) => exists|i: int|
                {
                    &&& 0 <= i < n
                    &&& #[trigger] short_of_replicas(c, at, cfg, names, i)
                    &&& forall|j: int|
                        0 <= j < i ==> !#[trigger] short_of_replicas(c, at, cfg, names, j)
                    &&& x == failed(
                        ConsistencyError::NotEnoughReplicas {
                            required: quorum(cfg.dc_rfs@[i] as nat) as usize,
                            available: group_order(c, at, cfg, names, i).len() as usize,
                        },
                        0,
                        contacted(c, at, cfg, names, (i + 1) as nat) as usize,
                        quorum_sum(cfg.dc_rfs@) as usize,
                        quorum_sum(cfg.dc_rfs@) as usize,
                    )
                },
            WritePlan::EachQuorum { groups, total_replicas, total_required } => {
                &&& forall|j: int|
                    0 <= j < n ==> !#[trigger] short_of_replicas(c, at, cfg, names, j)
                &&& groups@.len() == n
                &&& forall|j: int|
                    #![trigger groups@[j]]
                    0 <= j < n ==> groups@[j].dc@ == names[j] && groups@[j].required == quorum(
                        cfg.dc_rfs@[j] as nat,
                    ) && are_at(groups@[j].replicas@, c, group_order(c, at, cfg, names, j))
                &&& total_replicas == contacted(c, at, cfg, names, n)
                &&& total_required == quorum_sum(cfg.dc_rfs@)
            },
            _ => false,
        }
    }
}

/// The replica indices of a write that does not go by datacenter.
pub open spec fn write_order(c: Cluster, at: u64, cfg: ConsistencyConfig) -> Seq<int> {
    if cfg.write_cl == WriteConsistency::LocalOne || cfg.write_cl == WriteConsistency::LocalQuorum {
        at_most(c.ranked_local_at(at, cfg.local_dc@), cfg.rf as nat)
    } else {
        at_most(c.ranked_at(at), cfg.rf as nat)
    }
}

/// The replica indices of a read that is not linearizable.
pub open spec fn read_order(c: Cluster, at: u64, cfg: ConsistencyConfig) -> Seq<int> {
    if cfg.read_cl == ReadConsistency::LocalOne || cfg.read_cl == ReadConsistency::LocalQuorum
        || cfg.read_cl == ReadConsistency::LocalSerial {
        at_most(c.ranked_local_at(at, cfg.local_dc@), cfg.rf as nat)
    } else {
        at_most(c.ranked_at(at), cfg.rf as nat)
    }
}

/// The plan of a write to a known service.
pub open spec fn write_plan(
    c: Cluster,
    at: u64,
    cfg: ConsistencyConfig,
    plan: WritePlan,
) -> bool {
    match cfg.write_cl {
        WriteConsistency::Any => match c.ring.owner_at(at) {
            Some(_) => plan matches WritePlan::Fire(x) && *x == c.refs@[c.ranked_at(at)[0]],
            None => plan == WritePlan::Conclude(failed(one_ack_missing(), 0, 1, 0, 0)),
        },
        WriteConsistency::EachQuorum => exists|names: Seq<Seq<char>>| #[trigger]
            dc_names_ok(c, cfg, names) && each_quorum_plan(c, at, cfg, names, plan),
        _ => match write_acks(cfg.write_cl, cfg.rf as nat, cfg.local_rf as nat, cfg.dc_rfs@) {
            Err(e) => plan == WritePlan::Conclude(failed(e, 0, 0, 0, 0)),
            Ok(n) => {
                let order = write_order(c, at, cfg);
                if order.len() < n {
                    plan == WritePlan::Conclude(
                        failed(
                            ConsistencyError::NotEnoughReplicas {
                                required: n as usize,
                                available: order.len() as usize,
                            },
                            0,
                            order.len() as usize,
                            n as usize,
                            n as usize,
                        ),
                    )
                } else {
                    plan matches WritePlan::Quorum { replicas, required } && required == n
                        && are_at(replicas@, c, order)
                }
            },
        },
    }
}

/// How many members of a cluster a write may go to that does not go by
/// datacenter: as many as the replication factor, of those in the local
/// datacenter where the level is a local one.
pub open spec fn write_candidates(c: Cluster, cfg: ConsistencyConfig) -> nat {
    let members = if cfg.write_cl == WriteConsistency::LocalOne || cfg.write_cl
        == WriteConsistency::LocalQuorum {
        upto(c.members@.len()).filter(|i: int| c.members@[i].is_local(cfg.local_dc@)).len()
    } else {
        c.members@.len()
    };
    if members < cfg.rf {
        members
    } else {
        cfg.rf as nat
    }
}

/// A write that has fewer candidates than acknowledgements are required sends
/// nothing, whatever the key and the ring.
pub proof fn law_too_few_members_send_nothing(
    c: Cluster,
    at: u64,
    cfg: ConsistencyConfig,
    plan: WritePlan,
    required: nat,
)
    requires
        c.wf(),
        cfg.write_cl != WriteConsistency::Any,
        cfg.write_cl != WriteConsistency::EachQuorum,
        write_acks(cfg.write_cl, cfg.rf as nat, cfg.local_rf as nat, cfg.dc_rfs@) == Ok::<
            nat,
            ConsistencyError,
        >(required),
        write_plan(c, at, cfg, plan),
        write_candidates(c, cfg) < required,
    ensures
        plan matches WritePlan::Conclude(conclusion) && (conclusion.result matches Err(
            ConsistencyError::NotEnoughReplicas { required: n, available },
        ) && n == required && available <= write_candidates(c, cfg)),
{
    c.law_replicas_are_members(at, cfg.local_dc@);
}

/// Where every virtual node has a ring position of its own, the members alone
/// decide whether a write goes out, whatever the key: with fewer candidates than
/// acknowledgements are required nothing is sent, and the error names both
/// numbers; otherwise every candidate is contacted.
pub proof fn law_members_decide_whether_a_write_goes_out(
    c: Cluster,
    at: u64,
    cfg: ConsistencyConfig,
    plan: WritePlan,
    required: nat,
)
    requires
        c.wf(),
        c.unique(),
        c.ring.virtual_nodes > 0,
        c.ring.occupied().dom().len() == c.ring.nodes@.dom().len() * c.ring.virtual_nodes,
        cfg.write_cl != WriteConsistency::Any,
        cfg.write_cl != WriteConsistency::EachQuorum,
        write_acks(cfg.write_cl, cfg.rf as nat, cfg.local_rf as nat, cfg.dc_rfs@) == Ok::<
            nat,
            ConsistencyError,
        >(required),
        write_plan(c, at, cfg, plan),
    ensures
        ({
            let available = write_candidates(c, cfg);
            if available < required {
                plan == WritePlan::Conclude(
                    failed(
                        ConsistencyError::NotEnoughReplicas {
                            required: required as usize,
                            available: available as usize,
                        },
                        0,
                        available as usize,
                        required as usize,
                        required as usize,
                    ),
                )
            } else {
                plan matches WritePlan::Quorum { replicas, required: n } && n == required
                    && replicas@.len() == available
            }
        }),
{
    c.law_every_member_is_a_replica(at, cfg.local_dc@);
}

/// The per-datacenter plan for the given names.
fn plan_each_quorum<'a>(
    c: &'a Cluster,
    at: u64,
    cfg: &ConsistencyConfig,
    names: &Vec<String>,
) -> (plan: WritePlan<'a>)
    requires
        c.wf(),
        rf_sum(cfg.dc_rfs@) <= usize::MAX,
    ensures
        each_quorum_plan(*c, at, *cfg, strs(names@), plan),
{
    let per_dc: Vec<usize> = match each_quorum_acks_required(cfg.dc_rfs.as_slice()) {
        Ok(v) => v,
        Err(e) => {
            return WritePlan::Conclude(fail(e, 0, 0, 0, 0));
        },
    };
    let n: usize = cfg.dc_rfs.len();
    if names.len() != n {
        return WritePlan::Conclude(
            fail(
                ConsistencyError::NotEnoughReplicas { required: n, available: names.len() },
                0,
                0,
                0,
                0,
            ),
        );
    }
    let ghost ns = strs(names@);
    let ghost rfs = cfg.dc_rfs@;
    proof {
        lemma_quorums_fit(rfs);
        assert(rfs.take(0).len() == 0);
    }
    let mut total_required: usize = 0;
    let mut k: usize = 0;
    while k < n
        invariant
            k <= n == per_dc@.len() == rfs.len(),
            total_required == quorum_sum(rfs.take(k as int)),
            quorum_sum(rfs) <= usize::MAX,
            forall|j: int| 0 <= j < per_dc@.len() ==> #[trigger] per_dc@[j] == quorums(rfs)[j],
        decreases n - k,
    {
        proof {
            lemma_sums_prefix(rfs, k as int + 1);
            assert(rfs.take(k as int + 1).drop_last() == rfs.take(k as int));
            assert(per_dc@[k as int] == quorums(rfs)[k as int]);
        }
        total_required = total_required + per_dc[k];
        k += 1;
    }
    assert(rfs.take(n as int) == rfs);
    let mut total_replicas: usize = 0;
    let mut groups: Vec<DcGroup<'a>> = Vec::new();
    let mut i: usize = 0;
    while i < n
        invariant
            c.wf(),
            n == per_dc@.len() == rfs.len() == names@.len(),
            ns == strs(names@),
            rfs == cfg.dc_rfs@,
            i <= n,
            each_quorum_reachable(rfs),
            total_required == quorum_sum(rfs),
            rf_sum(rfs) <= usize::MAX,
            total_replicas <= rf_sum(rfs.take(i as int)),
            total_replicas == contacted(*c, at, *cfg, ns, i as nat),
            forall|j: int| 0 <= j < per_dc@.len() ==> #[trigger] per_dc@[j] == quorums(rfs)[j],
            forall|j: int| 0 <= j < i ==> !#[trigger] short_of_replicas(*c, at, *cfg, ns, j),
            groups@.len() == i,
            forall|j: int|
                #![trigger groups@[j]]
                0 <= j < i ==> groups@[j].dc@ == ns[j] && groups@[j].required == quorum(
                    rfs[j] as nat,
                ) && are_at(groups@[j].replicas@, *c, group_order(*c, at, *cfg, ns, j)),
        decreases n - i,
    {
        let replicas = c.dc_replicas_at(
            at,
            names[i].as_str(),
            cfg.local_dc.as_str(),
            cfg.dc_rfs[i],
        );
        let required: usize = per_dc[i];
        proof {
            assert(ns[i as int] == names@[i as int]@);
            assert(per_dc@[i as int] == quorums(rfs)[i as int]);
            lemma_sums_prefix(rfs, i as int + 1);
            assert(rfs.take(i as int + 1).drop_last() == rfs.take(i as int));
            assert(replicas@.len() <= rfs[i as int]);
            assert(are_at(replicas@, *c, group_order(*c, at, *cfg, ns, i as int)));
        }
        total_replicas = total_replicas + replicas.len();
        assert(total_replicas == contacted(*c, at, *cfg, ns, (i + 1) as nat));
        if replicas.len() < required {
            assert(short_of_replicas(*c, at, *cfg, ns, i as int));
            return WritePlan::Conclude(
                fail(
                    ConsistencyError::NotEnoughReplicas { required, available: replicas.len() },
                    0,
                    total_replicas,
                    total_required,
                    total_required,
                ),
            );
        }
        assert(!short_of_replicas(*c, at, *cfg, ns, i as int));
        groups.push(DcGroup { dc: names[i].clone(), replicas, required });
        i += 1;
    }
    WritePlan::EachQuorum { groups, total_replicas, total_required }
}

impl ServiceMesh {
    /// The route of a service.
    pub fn route(&self, service: &str) -> (r: Result<&ServiceRoute, IoError>)
        requires
            self.wf(),
        ensures
            match r {
                Ok(x) => self.routes@.contains_key(service@) && *x == self.routes@[service@],
                Err(e) => !self.routes@.contains_key(service@) && e.kind == IoErrorKind::NotFound
                    && e.message@ == "unknown service: "@ + service@,
            },
    {
        match self.routes.get(service) {
            Some(x) => Ok(x),
            None => Err(
                IoError::new(IoErrorKind::NotFound, concat2("unknown service: ", service)),
            ),
        }
    }

    /// The reference of the instance that owns a position.
    pub fn ref_at(&self, service: &str, at: u64) -> (r: Option<&RemoteActorRef>)
        requires
            self.wf(),
        ensures
            match r {
                Some(x) => self.routes@.contains_key(service@)
                    && self.routes@[service@].cluster.ranked_at(at).len() > 0 && *x
                    == self.routes@[service@].cluster.refs@[self.routes@[service@].cluster.ranked_at(
                    at,
                )[0]],
                None => !self.routes@.contains_key(service@)
                    || self.routes@[service@].cluster.ring.owner_at(at) is None,
            },
    {
        match self.routes.get(service) {
            Some(x) => x.cluster.ref_at(at),
            None => None,
        }
    }

    /// The reference of the instance that owns a key.
    pub fn ref_for_key(&self, service: &str, key: &str) -> (r: Option<&RemoteActorRef>)
        requires
            self.wf(),
        ensures
            match r {
                Some(x) => self.routes@.contains_key(service@)
                    && self.routes@[service@].cluster.ranked(key@).len() > 0 && *x
                    == self.routes@[service@].cluster.refs@[self.routes@[service@].cluster.ranked(
                    key@,
                )[0]],
                None => !self.routes@.contains_key(service@)
                    || self.routes@[service@].cluster.ring.owner(key@) is None,
            },
    {
        self.ref_at(service, hash_key(key))
    }

    /// How a write to a position with the service's level goes out. The replication factors
    /// of a per-datacenter write have to sum up within the machine word.
    pub fn plan_write_at(&self, service: &str, at: u64) -> (plan: WritePlan<'_>)
        requires
            self.wf(),
            self.config_of(service@).write_cl == WriteConsistency::EachQuorum ==> rf_sum(
                self.config_of(service@).dc_rfs@,
            ) <= usize::MAX,
        ensures
            if self.routes@.contains_key(service@) {
                write_plan(
                    self.routes@[service@].cluster,
                    at,
                    self.config_of(service@),
                    plan,
                )
            } else {
                plan == WritePlan::Conclude(failed(one_ack_missing(), 0, 0, 0, 0))
            },
    {
        let cfg = self.config_for(service);
        let c: &Cluster = match self.route(service) {
            Ok(x) => &x.cluster,
            Err(e) => {
                return WritePlan::Conclude(fail(consistency_from_io(e), 0, 0, 0, 0));
            },
        };
        if cfg.write_cl == WriteConsistency::Any {
            return match c.target_at(at) {
                Ok(x) => WritePlan::Fire(x),
                Err(e) => WritePlan::Conclude(fail(consistency_from_io(e), 0, 1, 0, 0)),
            };
        }
        if cfg.write_cl == WriteConsistency::EachQuorum {
            let names: Vec<String> = if cfg.dc_names.len() == 0 {
                c.datacenters(cfg.local_dc.as_str())
            } else {
                clone_strings(&cfg.dc_names)
            };
            assert(dc_names_ok(*c, *cfg, strs(names@)));
            return plan_each_quorum(c, at, cfg, &names);
        }
        match write_acks_required(
            cfg.write_cl,
            cfg.rf,
            cfg.local_rf,
            Some(cfg.dc_rfs.as_slice()),
        ) {
            Err(e) => WritePlan::Conclude(fail(e, 0, 0, 0, 0)),
            Ok(required) => {
                let replicas: Vec<&RemoteActorRef> = if is_local_only(cfg.write_cl) {
                    c.local_replicas_at(at, cfg.rf, cfg.local_dc.as_str())
                } else {
                    c.replicas_at(at, cfg.rf)
                };
                assert(are_at(replicas@, *c, write_order(*c, at, *cfg)));
                if replicas.len() < required {
                    WritePlan::Conclude(
                        fail(
                            ConsistencyError::NotEnoughReplicas {
                                required,
                                available: replicas.len(),
                            },
                            0,
                            replicas.len(),
                            required,
                            required,
                        ),
                    )
                } else {
                    WritePlan::Quorum { replicas, required }
                }
            },
        }
    }

    /// How a write with the service's level goes out. The replication factors
    /// of a per-datacenter write have to sum up within the machine word.
    pub fn plan_write(&self, service: &str, key: &str) -> (plan: WritePlan<'_>)
        requires
            self.wf(),
            self.config_of(service@).write_cl == WriteConsistency::EachQuorum ==> rf_sum(
                self.config_of(service@).dc_rfs@,
            ) <= usize::MAX,
        ensures
            if self.routes@.contains_key(service@) {
                write_plan(
                    self.routes@[service@].cluster,
                    key_hash(key@),
                    self.config_of(service@),
                    plan,
                )
            } else {
                plan == WritePlan::Conclude(failed(one_ack_missing(), 0, 0, 0, 0))
            },
    {
        self.plan_write_at(service, hash_key(key))
    }

    /// Whether `r` is how a linearizable read goes out: the service has to be
    /// known and set to a linearizable level, and to have a quorum of replicas. The
    /// replicas know the key under a name of its own.
    pub open spec fn is_serial_plan(
        &self,
        service: Seq<char>,
        at: u64,
        name: Seq<char>,
        r: Result<SerialPlan, ConsistencyError>,
    ) -> bool {
        let cfg = self.config_of(service);
        let c = self.routes@[service].cluster;
        let serial = cfg.read_cl == ReadConsistency::Serial || cfg.read_cl
            == ReadConsistency::LocalSerial;
        if !serial || !self.routes@.contains_key(service) {
            r == Err::<SerialPlan, ConsistencyError>(one_ack_missing())
        } else {
            match read_acks(cfg.read_cl, cfg.rf as nat, cfg.local_rf as nat) {
                Err(e) => r == Err::<SerialPlan, ConsistencyError>(e),
                Ok(n) => {
                    let order = if cfg.read_cl == ReadConsistency::LocalSerial {
                        at_most(c.ranked_local_at(at, cfg.local_dc@), cfg.rf as nat)
                    } else {
                        c.ranked_at(at)
                    };
                    if order.len() < n {
                        r == Err::<SerialPlan, ConsistencyError>(
                            ConsistencyError::NotEnoughReplicas {
                                required: n as usize,
                                available: order.len() as usize,
                            },
                        )
                    } else {
                        r matches Ok(p) && p.quorum == n && p.paxos_key@ == name
                            && p.replicas@.len() == order.len() && forall|i: int|
                            0 <= i < order.len() ==> (#[trigger] p.replicas@[i]).node_addr@
                                == c.refs@[order[i]].node_addr@ && p.replicas@[i].target@
                                == "__paxos__"@ + service
                    }
                },
            }
        }
    }

    /// How a linearizable read of a position goes out, where the replicas know the
    /// key as `paxos_key`.
    pub fn plan_serial_at(&self, service: &str, at: u64, paxos_key: String) -> (r: Result<
        SerialPlan,
        ConsistencyError,
    >)
        requires
            self.wf(),
        ensures
            self.is_serial_plan(service@, at, paxos_key@, r),
    {
        let cfg = self.config_for(service);
        if !is_paxos_read(cfg.read_cl) {
            return Err(no_ack());
        }
        let c: &Cluster = match self.route(service) {
            Ok(x) => &x.cluster,
            Err(e) => {
                return Err(consistency_from_io(e));
            },
        };
        let quorum: usize = match read_acks_required(cfg.read_cl, cfg.rf, cfg.local_rf) {
            Ok(n) => n,
            Err(e) => {
                return Err(e);
            },
        };
        let ghost order = if cfg.read_cl == ReadConsistency::LocalSerial {
            at_most(c.ranked_local_at(at, cfg.local_dc@), cfg.rf as nat)
        } else {
            c.ranked_at(at)
        };
        let refs: Vec<&RemoteActorRef> = if cfg.read_cl == ReadConsistency::LocalSerial {
            c.local_replicas_at(at, cfg.rf, cfg.local_dc.as_str())
        } else {
            c.all_replicas_at(at)
        };
        assert(are_at(refs@, *c, order));
        let mut replicas: Vec<PaxosReplica> = Vec::new();
        let mut i: usize = 0;
        while i < refs.len()
            invariant
                i <= refs@.len(),
                are_at(refs@, *c, order),
                replicas@.len() == i,
                forall|j: int|
                    0 <= j < i ==> (#[trigger] replicas@[j]).node_addr@
                        == c.refs@[order[j]].node_addr@ && replicas@[j].target@ == "__paxos__"@
                        + service@,
            decreases refs@.len() - i,
        {
            assert(*refs@[i as int] == c.refs@[order[i as int]]);
            replicas.push(PaxosReplica::from_member(service, refs[i].node_addr.as_str()));
            i += 1;
        }
        if replicas.len() < quorum {
            return Err(
                ConsistencyError::NotEnoughReplicas {
                    required: quorum,
                    available: replicas.len(),
                },
            );
        }
        Ok(SerialPlan { replicas, quorum, paxos_key })
    }

    /// How a linearizable read goes out.
    pub fn plan_serial(&self, service: &str, key: &str) -> (r: Result<
        SerialPlan,
        ConsistencyError,
    >)
        requires
            self.wf(),
        ensures
            self.is_serial_plan(service@, key_hash(key@), quoted(key@), r),
    {
        self.plan_serial_at(service, hash_key(key), debug_quote(key))
    }

    /// The acknowledgements that a read level asks for, zero where it cannot
    /// be met.
    pub open spec fn read_quorum_or_zero(&self, service: Seq<char>) -> usize {
        let cfg = self.config_of(service);
        match read_acks(cfg.read_cl, cfg.rf as nat, cfg.local_rf as nat) {
            Ok(n) => n as usize,
            Err(_) => 0,
        }
    }

    /// Whether `plan` is how a read goes out.
    pub open spec fn is_read_plan(
        &self,
        service: Seq<char>,
        at: u64,
        name: Seq<char>,
        plan: ReadPlan,
    ) -> bool {
        let cfg = self.config_of(service);
        let c = self.routes@[service].cluster;
        let q = self.read_quorum_or_zero(service);
        let known = self.routes@.contains_key(service);
        if cfg.read_cl == ReadConsistency::Serial || cfg.read_cl
            == ReadConsistency::LocalSerial {
            match plan {
                ReadPlan::Serial(p) => self.is_serial_plan(service, at, name, Ok(p)),
                ReadPlan::Conclude(x) => x.result is Err && self.is_serial_plan(
                    service,
                    at,
                    name,
                    Err(x.result->Err_0),
                ) && x == failed(x.result->Err_0, 0, q, q, q),
                _ => false,
            }
        } else if !known {
            plan == ReadPlan::Conclude(failed(one_ack_missing(), 0, 0, 0, q))
        } else {
            match read_acks(cfg.read_cl, cfg.rf as nat, cfg.local_rf as nat) {
                Err(e) => plan == ReadPlan::Conclude(failed(e, 0, 0, 0, 0)),
                Ok(n) => {
                    let order = read_order(c, at, cfg);
                    if order.len() < n {
                        plan == ReadPlan::Conclude(
                            failed(
                                ConsistencyError::NotEnoughReplicas {
                                    required: n as usize,
                                    available: order.len() as usize,
                                },
                                0,
                                0,
                                0,
                                n as usize,
                            ),
                        )
                    } else {
                        plan matches ReadPlan::Quorum { replicas, required } && required
                            == n && are_at(replicas@, c, order)
                    }
                },
            }
        }
    }

    /// How a read of a position with the service's level goes out, where
    /// linearizable replicas know the key as `paxos_key`.
    pub fn plan_read_at(&self, service: &str, at: u64, paxos_key: String) -> (plan: ReadPlan<'_>)
        requires
            self.wf(),
        ensures
            self.is_read_plan(service@, at, paxos_key@, plan),
    {
        let cfg = self.config_for(service);
        let wanted: usize = match read_acks_required(cfg.read_cl, cfg.rf, cfg.local_rf) {
            Ok(n) => n,
            Err(_) => 0,
        };
        if is_paxos_read(cfg.read_cl) {
            return match self.plan_serial_at(service, at, paxos_key) {
                Ok(p) => ReadPlan::Serial(p),
                Err(e) => ReadPlan::Conclude(fail(e, 0, wanted, wanted, wanted)),
            };
        }
        let c: &Cluster = match self.route(service) {
            Ok(x) => &x.cluster,
            Err(e) => {
                return ReadPlan::Conclude(fail(consistency_from_io(e), 0, 0, 0, wanted));
            },
        };
        match read_acks_required(cfg.read_cl, cfg.rf, cfg.local_rf) {
            Err(e) => ReadPlan::Conclude(fail(e, 0, 0, 0, 0)),
            Ok(required) => {
                let replicas: Vec<&RemoteActorRef> = if is_local_only_read(cfg.read_cl) {
                    c.local_replicas_at(at, cfg.rf, cfg.local_dc.as_str())
                } else {
                    c.replicas_at(at, cfg.rf)
                };
                assert(are_at(replicas@, *c, read_order(*c, at, *cfg)));
                if replicas.len() < required {
                    let e = ConsistencyError::NotEnoughReplicas {
                        required,
                        available: replicas.len(),
                    };
                    ReadPlan::Conclude(fail(e, 0, 0, 0, required))
                } else {
                    ReadPlan::Quorum { replicas, required }
                }
            },
        }
    }

    /// How a read with the service's level goes out.
    pub fn plan_read(&self, service: &str, key: &str) -> (plan: ReadPlan<'_>)
        requires
            self.wf(),
        ensures
            self.is_read_plan(service@, key_hash(key@), quoted(key@), plan),
    {
        self.plan_read_at(service, hash_key(key), debug_quote(key))
    }
}

/// Counts acknowledgements as they arrive, up to the number required.
#[derive(Debug, Clone, Copy, PartialEq, Eq, Structural)]
pub struct AckTally {
    pub required: usize,
    pub acks: usize,
}

impl AckTally {
    /// The count does not exceed what is required.
    pub open spec fn wf(&self) -> bool {
        self.acks <= self.required
    }

    /// Nothing counted yet.
    pub fn new(required: usize) -> (t: Self)
        ensures
            t.wf(),
            t == (AckTally { required, acks: 0 }),
    {
        AckTally { required, acks: 0 }
    }

    /// Whether enough acknowledgements arrived.
    pub fn done(&self) -> (r: bool)
        ensures
            r == (self.acks >= self.required),
    {
        self.acks >= self.required
    }

    /// Takes in one reply.
    pub fn observe(&mut self, acknowledged: bool)
        requires
            old(self).wf(),
        ensures
            final(self).wf(),
            observed(*old(self), acknowledged, *final(self)),
    {
        if acknowledged && self.acks < self.required {
            self.acks = self.acks + 1;
        }
    }
}

/// A tally after one more reply.
pub open spec fn observed(before: AckTally, acknowledged: bool, after: AckTally) -> bool {
    &&& after.required == before.required
    &&& after.acks == before.acks + (if acknowledged && before.acks < before.required {
        1int
    } else {
        0
    })
}

/// The number of positive replies.
pub open spec fn positives(replies: Seq<bool>) -> nat
    decreases replies.len(),
{
    if replies.len() == 0 {
        0
    } else {
        positives(replies.drop_last()) + if replies.last() {
            1nat
        } else {
            0
        }
    }
}

/// A tally after the given replies.
pub open spec fn tallied(required: nat, replies: Seq<bool>) -> nat
    decreases replies.len(),
{
    if replies.len() == 0 {
        0
    } else {
        let t = tallied(required, replies.drop_last());
        t + (if replies.last() && t < required {
            1nat
        } else {
            0
        })
    }
}

/// The wait ends with success exactly when enough replicas acknowledged,
/// whatever the order of the replies.
pub proof fn law_tally_counts_acknowledgements(required: nat, replies: Seq<bool>)
    ensures
        tallied(required, replies) == vstd::math::min(
            required as int,
            positives(replies) as int,
        ),
        tallied(required, replies) >= required <==> positives(replies) >= required,
    decreases replies.len(),
{
    if replies.len() > 0 {
        law_tally_counts_acknowledgements(required, replies.drop_last());
    }
}

/// What a fan-out to some replicas comes to.
pub open spec fn fanned_out_to(
    required: usize,
    replicas_contacted: usize,
    count: Option<usize>,
    timeout: Duration,
    dc: Option<String>,
    r: (Result<(), ConsistencyError>, QuorumOutcome),
) -> bool {
    &&& r.1 == (QuorumOutcome {
        acks_received: match count {
            Some(n) => n,
            None => 0,
        },
        replicas_contacted,
        acks_required: required,
    })
    &&& r.0 == (match count {
        Some(n) => if n >= required {
            Ok::<(), ConsistencyError>(())
        } else {
            Err(ConsistencyError::NotEnoughAcks { required, received: n, dc })
        },
        None => Err(ConsistencyError::Timeout { after: timeout }),
    })
}

/// The outcome of a fan-out: `count` is `None` where the deadline passed.
pub fn fan_out_result(
    required: usize,
    replicas_contacted: usize,
    count: Option<usize>,
    timeout: Duration,
    dc: Option<String>,
) -> (r: (Result<(), ConsistencyError>, QuorumOutcome))
    ensures
        fanned_out_to(required, replicas_contacted, count, timeout, dc, r),
{
    let acks_received: usize = match count {
        Some(n) => n,
        None => 0,
    };
    let stats = QuorumOutcome { acks_received, replicas_contacted, acks_required: required };
    let result: Result<(), ConsistencyError> = match count {
        Some(n) => if n >= required {
            Ok(())
        } else {
            Err(ConsistencyError::NotEnoughAcks { required, received: n, dc })
        },
        None => Err(ConsistencyError::Timeout { after: timeout }),
    };
    (result, stats)
}

/// What one datacenter reported.
pub enum DcReport {
    /// Its fan-out came to an end.
    Finished(Result<(), ConsistencyError>, QuorumOutcome),
    /// Its task was lost.
    Crashed,
}

/// Collects the reports of the datacenters in order of arrival.
pub struct EachTally {
    pub acks: usize,
    pub first_err: Option<ConsistencyError>,
}

/// The error that a report carries.
pub open spec fn report_error(r: DcReport) -> Option<ConsistencyError> {
    match r {
        DcReport::Finished(Ok(_), _) => None,
        DcReport::Finished(Err(e), _) => Some(e),
        DcReport::Crashed => Some(one_ack_missing()),
    }
}

/// The acknowledgements that a report adds.
pub open spec fn report_acks(r: DcReport) -> usize {
    match r {
        DcReport::Finished(_, stats) => stats.acks_received,
        DcReport::Crashed => 0,
    }
}

/// The tally of the datacenters after one more report.
pub open spec fn absorbed(before: EachTally, report: DcReport, after: EachTally) -> bool {
    &&& after.acks == before.acks + report_acks(report)
    &&& after.first_err == (match before.first_err {
        Some(e) => Some(e),
        None => report_error(report),
    })
}

/// What a write to every datacenter comes to.
pub open spec fn concluded(
    tally: EachTally,
    timed_out: bool,
    timeout: Duration,
    total_replicas: usize,
    total_required: usize,
    c: Conclusion,
) -> bool {
    &&& c.required == total_required
    &&& c.stats == (QuorumOutcome {
        acks_received: tally.acks,
        replicas_contacted: total_replicas,
        acks_required: total_required,
    })
    &&& c.result == (if timed_out {
        Err::<(), ConsistencyError>(ConsistencyError::Timeout { after: timeout })
    } else {
        match tally.first_err {
            Some(e) => Err(e),
            None => Ok(()),
        }
    })
}

impl EachTally {
    /// Nothing reported yet.
    pub fn new() -> (t: Self)
        ensures
            t.acks == 0,
            t.first_err is None,
    {
        EachTally { acks: 0, first_err: None }
    }

    /// Takes in one report; the first error stays.
    pub fn absorb(&mut self, report: DcReport)
        requires
            old(self).acks + report_acks(report) <= usize::MAX,
        ensures
            absorbed(*old(self), report, *final(self)),
    {
        match report {
            DcReport::Finished(result, stats) => {
                self.acks = self.acks + stats.acks_received;
                match result {
                    Ok(_) => {},
                    Err(e) => {
                        if self.first_err.is_none() {
                            self.first_err = Some(e);
                        }
                    },
                }
            },
            DcReport::Crashed => {
                if self.first_err.is_none() {
                    self.first_err = Some(no_ack());
                }
            },
        }
    }

    /// The conclusion once every datacenter reported, or the deadline passed.
    pub fn conclude(
        self,
        timed_out: bool,
        timeout: Duration,
        total_replicas: usize,
        total_required: usize,
    ) -> (c: Conclusion)
        ensures
            concluded(self, timed_out, timeout, total_replicas, total_required, c),
    {
        let stats = QuorumOutcome {
            acks_received: self.acks,
            replicas_contacted: total_replicas,
            acks_required: total_required,
        };
        let result: Result<(), ConsistencyError> = if timed_out {
            Err(ConsistencyError::Timeout { after: timeout })
        } else {
            match self.first_err {
                Some(e) => Err(e),
                None => Ok(()),
            }
        };
        Conclusion { result, stats, required: total_required }
    }
}

/// The first error of some reports.
pub open spec fn first_error(reports: Seq<DcReport>) -> Option<ConsistencyError>
    decreases reports.len(),
{
    if reports.len() == 0 {
        None
    } else {
        match first_error(reports.drop_last()) {
            Some(e) => Some(e),
            None => report_error(reports.last()),
        }
    }
}

/// A write to every datacenter succeeds only if each of them succeeded: the
/// error that is kept is that of a report, and there is none exactly where no
/// report has one.
pub proof fn law_each_datacenter_counts(reports: Seq<DcReport>)
    ensures
        first_error(reports) is None <==> forall|i: int|
            0 <= i < reports.len() ==> report_error(#[trigger] reports[i]) is None,
        first_error(reports) is Some ==> exists|i: int|
            0 <= i < reports.len() && report_error(#[trigger] reports[i]) == first_error(reports),
    decreases reports.len(),
{
    if reports.len() > 0 {
        let d = reports.drop_last();
        law_each_datacenter_counts(d);
        assert(forall|i: int| 0 <= i < d.len() ==> d[i] == reports[i]);
        assert(reports[reports.len() - 1] == reports.last());
        if first_error(d) is Some {
            let i = choose|i: int|
                0 <= i < d.len() && report_error(#[trigger] d[i]) == first_error(d);
            assert(report_error(reports[i]) == first_error(reports));
        } else if first_error(reports) is Some {
            assert(report_error(reports[reports.len() - 1]) == first_error(reports));
        }
    }
}

/// The conclusion of a write that did not wait.
pub fn conclude_fire(sent: Result<(), IoError>) -> (c: Conclusion)
    ensures
        c.stats == (QuorumOutcome { acks_received: 0, replicas_contacted: 1, acks_required: 0 }),
        c.required == 0,
        c.result == (match sent {
            Ok(_) => Ok::<(), ConsistencyError>(()),
            Err(_) => Err(one_ack_missing()),
        }),
{
    let result: Result<(), ConsistencyError> = match sent {
        Ok(_) => Ok(()),
        Err(e) => Err(consistency_from_io(e)),
    };
    Conclusion { result, stats: QuorumOutcome::new(1), required: 0 }
}

/// The conclusion of a linearizable read.
pub fn conclude_serial(
    read: Result<Option<Vec<u8>>, ConsistencyError>,
    quorum: usize,
) -> (c: Conclusion)
    ensures
        c.required == quorum,
        c.stats == (QuorumOutcome {
            acks_received: if read is Ok {
                quorum
            } else {
                0
            },
            replicas_contacted: quorum,
            acks_required: quorum,
        }),
        c.result == (match read {
            Ok(_) => Ok::<(), ConsistencyError>(()),
            Err(e) => Err(e),
        }),
{
    match read {
        Ok(_) => Conclusion {
            result: Ok(()),
            stats: QuorumOutcome {
                acks_received: quorum,
                replicas_contacted: quorum,
                acks_required: quorum,
            },
            required: quorum,
        },
        Err(e) => fail(e, 0, quorum, quorum, quorum),
    }
}

/// The conclusion of a quorum read.
pub fn conclude_read(
    result: Result<(), ConsistencyError>,
    stats: QuorumOutcome,
    required: usize,
) -> (c: Conclusion)
    ensures
        read_concluded(result, stats, required, c),
{
    let stats: QuorumOutcome = match &result {
        Ok(_) => QuorumOutcome {
            acks_received: stats.acks_received,
            replicas_contacted: stats.replicas_contacted,
            acks_required: required,
        },
        Err(e) => quorum_stats_from_error(e),
    };
    Conclusion { result, stats, required }
}

/// Whether the member at an index is in the local datacenter: it is tagged with
/// it, or not tagged at all.
pub open spec fn in_local_dc(c: Cluster, i: int, local_dc: Seq<char>) -> bool {
    c.members@[i].dc matches Some(d) ==> d@ == local_dc
}

/// The members in the local datacenter.
pub open spec fn local_members(c: Cluster, local_dc: Seq<char>) -> Set<int> {
    Set::new(|i: int| 0 <= i < c.members@.len() && in_local_dc(c, i, local_dc))
}

/// Whether the replicas are those of the members at the given indices, none of
/// them twice.
pub open spec fn belong_to(c: Cluster, replicas: Seq<&RemoteActorRef>, idx: Seq<int>) -> bool {
    &&& idx.no_duplicates()
    &&& idx.len() == replicas.len()
    &&& forall|i: int|
        0 <= i < idx.len() ==> 0 <= #[trigger] idx[i] < c.members@.len()
            && replicas[i].node_addr@ == c.members@[idx[i]].node_addr@ && replicas[i].target@
            == c.members@[idx[i]].target@
}

/// A prefix of what the ring yields belongs to members, each once, and local
/// members where it was filtered for them.
proof fn lemma_order(c: Cluster, at: u64, local_dc: Seq<char>, n: nat)
    requires
        c.wf(),
    ensures
        at_most(c.ranked_at(at), n).no_duplicates(),
        at_most(c.ranked_local_at(at, local_dc), n).no_duplicates(),
        forall|i: int|
            0 <= i < at_most(c.ranked_at(at), n).len() ==> 0 <= #[trigger] at_most(
                c.ranked_at(at),
                n,
            )[i] < c.members@.len(),
        forall|i: int|
            0 <= i < at_most(c.ranked_local_at(at, local_dc), n).len() ==> local_members(
                c,
                local_dc,
            ).contains(#[trigger] at_most(c.ranked_local_at(at, local_dc), n)[i]),
        c.ranked_local_at(at, local_dc).len() <= local_members(c, local_dc).len(),
        local_members(c, local_dc).finite(),
        local_members(c, local_dc).len() == upto(c.members@.len()).filter(
            |i: int| c.members@[i].is_local(local_dc),
        ).len(),
{
    c.lemma_ranked(at);
    let r = c.ranked_at(at);
    let pred = |i: int| c.members@[i].is_local(local_dc);
    lemma_filter_members(r, pred);
    let l = c.ranked_local_at(at, local_dc);
    let all = upto(c.members@.len());
    assert(all.no_duplicates());
    lemma_filter_members(all, pred);
    let f = all.filter(pred);
    let set = local_members(c, local_dc);
    assert forall|i: int| f.to_set().contains(i) <==> set.contains(i) by {
        if set.contains(i) {
            assert(all[i] == i);
            assert(all.contains(i));
        }
        if f.contains(i) {
            assert(all.contains(i));
            let k = all.index_of(i);
            assert(all[k] == k);
        }
    }
    assert(f.to_set() =~= set);
    f.unique_seq_to_set();
    assert forall|i: int| 0 <= i < at_most(l, n).len() implies set.contains(
        #[trigger] at_most(l, n)[i],
    ) by {
        assert(at_most(l, n)[i] == l[i]);
        assert(l.contains(l[i]));
        let k = r.index_of(l[i]);
        assert(0 <= r[k] < c.members@.len());
    }
    c.law_replicas_are_members(at, local_dc);
}

/// A read at a local level stays in the local datacenter: each replica that it
/// contacts is that of a member which is tagged with the local datacenter or not
/// tagged at all, and none is contacted twice. A read at any other level
/// contacts members, none of them twice.
pub proof fn law_local_reads_stay_local(
    mesh: ServiceMesh,
    service: Seq<char>,
    at: u64,
    name: Seq<char>,
    plan: ReadPlan,
)
    requires
        mesh.wf(),
        mesh.routes@.contains_key(service),
        mesh.is_read_plan(service, at, name, plan),
    ensures
        ({
            let cfg = mesh.config_of(service);
            let c = mesh.routes@[service].cluster;
            let local = cfg.read_cl == ReadConsistency::LocalOne || cfg.read_cl
                == ReadConsistency::LocalQuorum || cfg.read_cl == ReadConsistency::LocalSerial;
            &&& plan matches ReadPlan::Quorum { replicas, required } ==> exists|idx: Seq<int>|
                {
                    &&& #[trigger] belong_to(c, replicas@, idx)
                    &&& local ==> forall|i: int|
                        0 <= i < idx.len() ==> in_local_dc(c, #[trigger] idx[i], cfg.local_dc@)
                }
            &&& plan matches ReadPlan::Serial(p) ==> exists|idx: Seq<int>|
                {
                    &&& #[trigger] idx.no_duplicates()
                    &&& idx.len() == p.replicas@.len()
                    &&& forall|i: int|
                        0 <= i < idx.len() ==> 0 <= #[trigger] idx[i] < c.members@.len()
                            && p.replicas@[i].node_addr@ == c.members@[idx[i]].node_addr@ && (local
                            ==> in_local_dc(c, idx[i], cfg.local_dc@))
                }
        }),
{
    let cfg = mesh.config_of(service);
    let c = mesh.routes@[service].cluster;
    lemma_order(c, at, cfg.local_dc@, cfg.rf as nat);
    c.lemma_ranked(at);
    if let ReadPlan::Quorum { replicas, required } = plan {
        let idx = read_order(c, at, cfg);
        assert forall|i: int| 0 <= i < idx.len() implies 0 <= #[trigger] idx[i] < c.members@.len()
            && replicas@[i].node_addr@ == c.members@[idx[i]].node_addr@ && replicas@[i].target@
            == c.members@[idx[i]].target@ by {
            assert(*replicas@[i] == c.refs@[idx[i]]);
            assert(c.refs@[idx[i]].node_addr == c.members@[idx[i]].node_addr);
        }
        assert(belong_to(c, replicas@, idx));
    }
    if let ReadPlan::Serial(p) = plan {
        let idx = if cfg.read_cl == ReadConsistency::LocalSerial {
            at_most(c.ranked_local_at(at, cfg.local_dc@), cfg.rf as nat)
        } else {
            c.ranked_at(at)
        };
        assert(idx.no_duplicates());
        assert forall|i: int| 0 <= i < idx.len() implies 0 <= #[trigger] idx[i] < c.members@.len()
            && p.replicas@[i].node_addr@ == c.members@[idx[i]].node_addr@ by {
            assert(p.replicas@[i].node_addr@ == c.refs@[idx[i]].node_addr@);
            assert(c.refs@[idx[i]].node_addr == c.members@[idx[i]].node_addr);
        }
    }
}

/// The acknowledgements that a level asks of a read: one, two or three; a
/// majority of the replicas, or of the local ones; or all of them.
pub open spec fn reads_ask(cl: ReadConsistency, rf: nat, local_rf: nat, n: nat) -> bool {
    match cl {
        ReadConsistency::One | ReadConsistency::LocalOne => n == 1,
        ReadConsistency::Two => n == 2,
        ReadConsistency::Three => n == 3,
        ReadConsistency::Quorum | ReadConsistency::Serial => 2 * n > rf && 2 * n <= rf + 2,
        ReadConsistency::LocalQuorum | ReadConsistency::LocalSerial => 2 * n > local_rf && 2 * n
            <= local_rf + 2,
        ReadConsistency::All => n == rf,
    }
}

/// The acknowledgements that a level asks of a write that does not go by
/// datacenter.
pub open spec fn writes_ask(cl: WriteConsistency, rf: nat, local_rf: nat, n: nat) -> bool {
    match cl {
        WriteConsistency::Any | WriteConsistency::One | WriteConsistency::LocalOne => n == 1,
        WriteConsistency::Two => n == 2,
        WriteConsistency::Three => n == 3,
        WriteConsistency::Quorum | WriteConsistency::Serial => 2 * n > rf && 2 * n <= rf + 2,
        WriteConsistency::LocalQuorum => 2 * n > local_rf && 2 * n <= local_rf + 2,
        WriteConsistency::All => n == rf,
        WriteConsistency::EachQuorum => true,
    }
}

/// What a level asks for is asked for exactly: a majority is more than half and
/// no more than it takes.
pub proof fn law_levels_ask_for_what_they_say(
    w: WriteConsistency,
    r: ReadConsistency,
    rf: nat,
    local_rf: nat,
    dc_rfs: Seq<usize>,
)
    ensures
        read_acks(r, rf, local_rf) matches Ok(n) ==> reads_ask(r, rf, local_rf, n),
        write_acks(w, rf, local_rf, dc_rfs) matches Ok(n) ==> writes_ask(w, rf, local_rf, n),
        (r == ReadConsistency::One || r == ReadConsistency::Quorum || r == ReadConsistency::Serial)
            && rf > 0 ==> read_acks(r, rf, local_rf) is Ok,
        r == ReadConsistency::All ==> read_acks(r, rf, local_rf) is Ok,
        (r == ReadConsistency::LocalOne || r == ReadConsistency::LocalQuorum || r
            == ReadConsistency::LocalSerial) && local_rf > 0 ==> read_acks(r, rf, local_rf) is Ok,
        r == ReadConsistency::Two ==> (read_acks(r, rf, local_rf) is Ok <==> rf >= 2),
        r == ReadConsistency::Three ==> (read_acks(r, rf, local_rf) is Ok <==> rf >= 3),
        (w == WriteConsistency::One || w == WriteConsistency::Quorum || w
            == WriteConsistency::Serial) && rf > 0 ==> write_acks(w, rf, local_rf, dc_rfs) is Ok,
        w == WriteConsistency::All ==> write_acks(w, rf, local_rf, dc_rfs) is Ok,
        (w == WriteConsistency::LocalOne || w == WriteConsistency::LocalQuorum) && local_rf > 0
            ==> write_acks(w, rf, local_rf, dc_rfs) is Ok,
        w == WriteConsistency::Two ==> (write_acks(w, rf, local_rf, dc_rfs) is Ok <==> rf >= 2),
        w == WriteConsistency::Three ==> (write_acks(w, rf, local_rf, dc_rfs) is Ok <==> rf >= 3),
{
}

/// How many members a read may go to: as many as the replication factor, of
/// those in the local datacenter where the level is a local one.
pub open spec fn read_candidates(c: Cluster, cfg: ConsistencyConfig) -> nat {
    let members = match cfg.read_cl {
        ReadConsistency::LocalOne
        | ReadConsistency::LocalQuorum
        | ReadConsistency::LocalSerial => local_members(c, cfg.local_dc@).len(),
        _ => c.members@.len(),
    };
    if members < cfg.rf {
        members
    } else {
        cfg.rf as nat
    }
}

/// A read that has fewer candidates than the acknowledgements it asks for sends
/// nothing, whatever the key and the ring; and it never goes out to fewer
/// replicas than that, nor to more than there are candidates.
pub proof fn law_too_few_members_send_no_read(
    mesh: ServiceMesh,
    service: Seq<char>,
    at: u64,
    name: Seq<char>,
    plan: ReadPlan,
)
    requires
        mesh.wf(),
        mesh.routes@.contains_key(service),
        mesh.is_read_plan(service, at, name, plan),
        mesh.config_of(service).read_cl != ReadConsistency::Serial,
        mesh.config_of(service).read_cl != ReadConsistency::LocalSerial,
    ensures
        ({
            let cfg = mesh.config_of(service);
            let c = mesh.routes@[service].cluster;
            match plan {
                ReadPlan::Quorum { replicas, required } => {
                    &&& required <= replicas@.len() <= read_candidates(c, cfg)
                    &&& reads_ask(
                        cfg.read_cl,
                        cfg.rf as nat,
                        cfg.local_rf as nat,
                        required as nat,
                    )
                },
                ReadPlan::Conclude(x) => {
                    &&& x.result is Err
                    &&& x.stats.acks_received == 0
                },
                ReadPlan::Serial(_) => false,
            }
        }),
{
    let cfg = mesh.config_of(service);
    let c = mesh.routes@[service].cluster;
    lemma_order(c, at, cfg.local_dc@, cfg.rf as nat);
    c.lemma_ranked(at);
    law_levels_ask_for_what_they_say(
        cfg.write_cl,
        cfg.read_cl,
        cfg.rf as nat,
        cfg.local_rf as nat,
        cfg.dc_rfs@,
    );
}

/// Where every virtual node has a ring position of its own, the members alone
/// decide whether a read goes out, whatever the key: with fewer candidates than
/// acknowledgements are asked for nothing is sent, and the error names both
/// numbers; otherwise every candidate is contacted.
pub proof fn law_members_decide_whether_a_read_goes_out(
    mesh: ServiceMesh,
    service: Seq<char>,
    at: u64,
    name: Seq<char>,
    plan: ReadPlan,
    required: nat,
)
    requires
        mesh.wf(),
        mesh.routes@.contains_key(service),
        mesh.is_read_plan(service, at, name, plan),
        mesh.config_of(service).read_cl != ReadConsistency::Serial,
        mesh.config_of(service).read_cl != ReadConsistency::LocalSerial,
        ({
            let c = mesh.routes@[service].cluster;
            c.ring.occupied().dom().len() == c.ring.nodes@.dom().len() * c.ring.virtual_nodes
        }),
        read_acks(
            mesh.config_of(service).read_cl,
            mesh.config_of(service).rf as nat,
            mesh.config_of(service).local_rf as nat,
        ) == Ok::<nat, ConsistencyError>(required),
    ensures
        ({
            let cfg = mesh.config_of(service);
            let available = read_candidates(mesh.routes@[service].cluster, cfg);
            if available < required {
                plan matches ReadPlan::Conclude(x) && x.result == Err::<(), ConsistencyError>(
                    ConsistencyError::NotEnoughReplicas {
                        required: required as usize,
                        available: available as usize,
                    },
                )
            } else {
                plan matches ReadPlan::Quorum { replicas, required: n } && n == required
                    && replicas@.len() == available
            }
        }),
{
    let cfg = mesh.config_of(service);
    let c = mesh.routes@[service].cluster;
    c.law_every_member_is_a_replica(at, cfg.local_dc@);
    lemma_order(c, at, cfg.local_dc@, cfg.rf as nat);
}

/// A write at a local level stays in the local datacenter, and a write at any
/// level goes to members, none of them twice, at least as many as the
/// acknowledgements that end its wait. One that does not wait goes to a member.
pub proof fn law_local_writes_stay_local(
    c: Cluster,
    at: u64,
    cfg: ConsistencyConfig,
    plan: WritePlan,
)
    requires
        c.wf(),
        write_plan(c, at, cfg, plan),
    ensures
        ({
            let local = cfg.write_cl == WriteConsistency::LocalOne || cfg.write_cl
                == WriteConsistency::LocalQuorum;
            &&& plan matches WritePlan::Quorum { replicas, required } ==> {
                &&& cfg.write_cl != WriteConsistency::Any
                &&& cfg.write_cl != WriteConsistency::EachQuorum
                &&& required <= replicas@.len() <= cfg.rf
                &&& writes_ask(
                    cfg.write_cl,
                    cfg.rf as nat,
                    cfg.local_rf as nat,
                    required as nat,
                )
                &&& exists|idx: Seq<int>|
                    {
                        &&& #[trigger] belong_to(c, replicas@, idx)
                        &&& local ==> forall|i: int|
                            0 <= i < idx.len() ==> in_local_dc(c, #[trigger] idx[i], cfg.local_dc@)
                    }
            }
            &&& plan matches WritePlan::Fire(x) ==> cfg.write_cl == WriteConsistency::Any
                && exists|i: int|
                0 <= i < c.members@.len() && x.node_addr@ == (
                #[trigger] c.members@[i]).node_addr@ && x.target@ == c.members@[i].target@
            &&& plan matches WritePlan::Conclude(x) ==> x.result is Err && x.stats.acks_received == 0
            &&& plan is EachQuorum ==> cfg.write_cl == WriteConsistency::EachQuorum
        }),
{
    lemma_order(c, at, cfg.local_dc@, cfg.rf as nat);
    c.lemma_ranked(at);
    law_levels_ask_for_what_they_say(
        cfg.write_cl,
        cfg.read_cl,
        cfg.rf as nat,
        cfg.local_rf as nat,
        cfg.dc_rfs@,
    );
    if let WritePlan::Quorum { replicas, required } = plan {
        let idx = write_order(c, at, cfg);
        assert forall|i: int| 0 <= i < idx.len() implies 0 <= #[trigger] idx[i] < c.members@.len()
            && replicas@[i].node_addr@ == c.members@[idx[i]].node_addr@ && replicas@[i].target@
            == c.members@[idx[i]].target@ by {
            assert(*replicas@[i] == c.refs@[idx[i]]);
            assert(c.refs@[idx[i]].node_addr == c.members@[idx[i]].node_addr);
        }
        assert(belong_to(c, replicas@, idx));
    }
    if let WritePlan::Fire(x) = plan {
        c.ring.law_preference(at);
        let i = c.ranked_at(at)[0];
        assert(c.refs@[i].node_addr == c.members@[i].node_addr);
    }
}

/// The members of a datacenter; one that is not tagged counts for the local one.
pub open spec fn members_in(c: Cluster, dc: Seq<char>, local_dc: Seq<char>) -> Set<int> {
    Set::new(
        |i: int|
            0 <= i < c.members@.len() && (match c.members@[i].dc {
                Some(d) => d@ == dc,
                None => local_dc == dc,
            }),
    )
}

/// What a datacenter yields for a position are all of its members, each once.
pub proof fn law_datacenter_yields_its_members(
    c: Cluster,
    at: u64,
    dc: Seq<char>,
    local_dc: Seq<char>,
)
    requires
        c.wf(),
    ensures
        c.dc_order_at(at, dc, local_dc).no_duplicates(),
        c.dc_order_at(at, dc, local_dc).to_set() == members_in(c, dc, local_dc),
        c.dc_order_at(at, dc, local_dc).len() == members_in(c, dc, local_dc).len(),
{
    c.lemma_ranked(at);
    let r = c.ranked_at(at);
    let all = upto(c.members@.len());
    assert(all.no_duplicates());
    let p = |i: int| c.members@[i].effective_dc(local_dc) == dc;
    let found = c.ranked_in_dc_at(at, dc, local_dc);
    let q = |i: int| c.members@[i].effective_dc(local_dc) == dc && !found.contains(i);
    lemma_filter_members(r, p);
    lemma_filter_members(all, q);
    let rest = c.rest_in_dc_at(at, dc, local_dc);
    assert(found == r.filter(p));
    assert(rest == all.filter(q));
    let o = found + rest;
    assert forall|i: int, j: int| 0 <= i < o.len() && 0 <= j < o.len() && i != j implies o[i]
        != o[j] by {
        if i < found.len() && j >= found.len() {
            assert(rest.contains(rest[j - found.len()]));
            assert(found.contains(found[i]));
        }
        if j < found.len() && i >= found.len() {
            assert(rest.contains(rest[i - found.len()]));
            assert(found.contains(found[j]));
        }
    }
    assert forall|i: int| o.to_set().contains(i) <==> members_in(c, dc, local_dc).contains(i) by {
        if o.contains(i) {
            let k = o.index_of(i);
            if k < found.len() {
                assert(found[k] == i);
                assert(found.contains(i));
                let m = r.index_of(i);
                assert(0 <= r[m] < c.members@.len());
            } else {
                assert(rest[k - found.len()] == i);
                assert(rest.contains(i));
                let m = all.index_of(i);
                assert(all[m] == m);
            }
        }
        if members_in(c, dc, local_dc).contains(i) {
            assert(all[i] == i);
            assert(all.contains(i));
            if found.contains(i) {
                assert(o[found.index_of(i)] == i);
            } else {
                assert(rest.contains(i));
                assert(o[found.len() + rest.index_of(i)] == i);
            }
        }
    }
    assert(o.to_set() =~= members_in(c, dc, local_dc));
    o.unique_seq_to_set();
}

/// A write to every datacenter asks each one for a majority of its replicas, of
/// its own members and nobody else's, none of them twice; and it sends nothing at
/// all where one of the datacenters has too few members for that.
pub proof fn law_each_datacenter_is_asked_for_a_majority(
    c: Cluster,
    at: u64,
    cfg: ConsistencyConfig,
    names: Seq<Seq<char>>,
    plan: WritePlan,
)
    requires
        c.wf(),
        each_quorum_plan(c, at, cfg, names, plan),
    ensures
        plan is Conclude || plan is EachQuorum,
        plan matches WritePlan::Conclude(x) ==> x.result is Err && x.stats.acks_received == 0,
        plan matches WritePlan::EachQuorum { groups, total_replicas, total_required } ==> {
            &&& groups@.len() == cfg.dc_rfs@.len()
            &&& groups@.len() == names.len()
            &&& forall|j: int|
                0 <= j < groups@.len() ==> {
                    let g = #[trigger] groups@[j];
                    let here = members_in(c, names[j], cfg.local_dc@);
                    &&& g.dc@ == names[j]
                    &&& 2 * g.required > cfg.dc_rfs@[j]
                    &&& 2 * g.required <= cfg.dc_rfs@[j] + 2
                    &&& g.required <= g.replicas@.len()
                    &&& g.replicas@.len() == (if here.len() < cfg.dc_rfs@[j] {
                        here.len()
                    } else {
                        cfg.dc_rfs@[j] as nat
                    })
                    &&& exists|idx: Seq<int>| #[trigger]
                        belong_to(c, g.replicas@, idx) && idx.to_set().subset_of(here)
                }
        },
        (exists|j: int|
            0 <= j < cfg.dc_rfs@.len() && j < names.len() && 2 * members_in(
                c,
                #[trigger] names[j],
                cfg.local_dc@,
            ).len() <= cfg.dc_rfs@[j]) ==> plan is Conclude,
{
    let n = cfg.dc_rfs@.len();
    assert forall|j: int| 0 <= j < names.len() implies ({
        let o = c.dc_order_at(at, #[trigger] names[j], cfg.local_dc@);
        o.no_duplicates() && o.to_set() == members_in(c, names[j], cfg.local_dc@) && o.len()
            == members_in(c, names[j], cfg.local_dc@).len()
    }) by {
        law_datacenter_yields_its_members(c, at, names[j], cfg.local_dc@);
    }
    if let WritePlan::EachQuorum { groups, total_replicas, total_required } = plan {
        assert forall|j: int| 0 <= j < groups@.len() implies ({
            let g = #[trigger] groups@[j];
            let here = members_in(c, names[j], cfg.local_dc@);
            &&& g.dc@ == names[j]
            &&& 2 * g.required > cfg.dc_rfs@[j]
            &&& 2 * g.required <= cfg.dc_rfs@[j] + 2
            &&& g.required <= g.replicas@.len()
            &&& g.replicas@.len() == (if here.len() < cfg.dc_rfs@[j] {
                here.len()
            } else {
                cfg.dc_rfs@[j] as nat
            })
            &&& exists|idx: Seq<int>| #[trigger]
                belong_to(c, g.replicas@, idx) && idx.to_set().subset_of(here)
        }) by {
            let g = groups@[j];
            let here = members_in(c, names[j], cfg.local_dc@);
            let o = c.dc_order_at(at, names[j], cfg.local_dc@);
            let idx = group_order(c, at, cfg, names, j);
            assert(!short_of_replicas(c, at, cfg, names, j));
            assert(are_at(g.replicas@, c, idx));
            assert forall|i: int| 0 <= i < idx.len() implies here.contains(#[trigger] idx[i]) by {
                assert(idx[i] == o[i]);
                assert(o.to_set().contains(o[i]));
            }
            assert forall|i: int| 0 <= i < idx.len() implies 0 <= #[trigger] idx[i]
                < c.members@.len() && g.replicas@[i].node_addr@ == c.members@[idx[i]].node_addr@
                && g.replicas@[i].target@ == c.members@[idx[i]].target@ by {
                assert(here.contains(idx[i]));
                assert(*g.replicas@[i] == c.refs@[idx[i]]);
                assert(c.refs@[idx[i]].node_addr == c.members@[idx[i]].node_addr);
            }
            assert(belong_to(c, g.replicas@, idx));
            assert forall|x: int| idx.to_set().contains(x) implies here.contains(x) by {
                let i = idx.index_of(x);
                assert(idx[i] == x);
            }
        }
        if exists|j: int|
            0 <= j < n && j < names.len() && 2 * members_in(
                c,
                #[trigger] names[j],
                cfg.local_dc@,
            ).len() <= cfg.dc_rfs@[j] {
            let j = choose|j: int|
                0 <= j < n && j < names.len() && 2 * members_in(
                    c,
                    #[trigger] names[j],
                    cfg.local_dc@,
                ).len() <= cfg.dc_rfs@[j];
            let o = c.dc_order_at(at, names[j], cfg.local_dc@);
            assert(group_order(c, at, cfg, names, j).len() <= o.len());
            assert(short_of_replicas(c, at, cfg, names, j));
        }
    }
}

/// A write or a read succeeds exactly if as many replicas acknowledged in time as
/// it asks for; the error names the numbers, and the datacenter where there is
/// one.
pub proof fn law_enough_acknowledgements_are_a_success(
    required: usize,
    contacted: usize,
    count: Option<usize>,
    timeout: Duration,
    dc: Option<String>,
    r: (Result<(), ConsistencyError>, QuorumOutcome),
)
    requires
        fanned_out_to(required, contacted, count, timeout, dc, r),
    ensures
        r.0 is Ok <==> count is Some && count->0 >= required,
        count is None ==> r.0 == Err::<(), ConsistencyError>(
            ConsistencyError::Timeout { after: timeout },
        ),
        count is Some && count->0 < required ==> r.0 == Err::<(), ConsistencyError>(
            ConsistencyError::NotEnoughAcks { required, received: count->0, dc },
        ),
        count is Some ==> r.1.acks_received == count->0,
        r.1.replicas_contacted == contacted,
        r.1.acks_required == required,
{
}

/// Counting replies one by one counts the positive ones, as far as they are
/// asked for: after any replies the tally is done exactly if enough were
/// positive.
pub proof fn law_tally_is_done_with_enough(
    tallies: Seq<AckTally>,
    replies: Seq<bool>,
    required: usize,
)
    requires
        tallies.len() == replies.len() + 1,
        tallies[0] == (AckTally { required, acks: 0 }),
        forall|i: int|
            0 <= i < replies.len() ==> observed(#[trigger] tallies[i], replies[i], tallies[i + 1]),
    ensures
        tallies.last().required == required,
        tallies.last().acks == (if positives(replies) < required {
            positives(replies)
        } else {
            required as nat
        }),
        tallies.last().acks >= tallies.last().required <==> positives(replies) >= required,
    decreases replies.len(),
{
    let n = replies.len() as int;
    if n > 0 {
        let t2 = tallies.drop_last();
        let r2 = replies.drop_last();
        assert forall|i: int| 0 <= i < r2.len() implies observed(
            #[trigger] t2[i],
            r2[i],
            t2[i + 1],
        ) by {
            assert(observed(tallies[i], replies[i], tallies[i + 1]));
        }
        law_tally_is_done_with_enough(t2, r2, required);
        assert(observed(tallies[n - 1], replies[n - 1], tallies[n - 1 + 1]));
    }
}

/// A write to every datacenter succeeds exactly if it was in time and each of
/// them reported a success; its error is that of one of them.
pub proof fn law_every_datacenter_has_to_succeed(
    tallies: Seq<EachTally>,
    reports: Seq<DcReport>,
    timed_out: bool,
    timeout: Duration,
    total_replicas: usize,
    total_required: usize,
    c: Conclusion,
)
    requires
        tallies.len() == reports.len() + 1,
        tallies[0].acks == 0,
        tallies[0].first_err is None,
        forall|i: int|
            0 <= i < reports.len() ==> absorbed(#[trigger] tallies[i], reports[i], tallies[i + 1]),
        concluded(tallies.last(), timed_out, timeout, total_replicas, total_required, c),
    ensures
        c.result is Ok <==> !timed_out && forall|i: int|
            0 <= i < reports.len() ==> (#[trigger] reports[i] matches DcReport::Finished(Ok(_), _)),
        timed_out ==> c.result == Err::<(), ConsistencyError>(
            ConsistencyError::Timeout { after: timeout },
        ),
        !timed_out && c.result is Err ==> exists|i: int|
            0 <= i < reports.len() && match #[trigger] reports[i] {
                DcReport::Finished(Err(e), _) => c.result == Err::<(), ConsistencyError>(e),
                DcReport::Crashed => c.result == Err::<(), ConsistencyError>(
                    ConsistencyError::NotEnoughAcks { required: 1, received: 0, dc: None },
                ),
                _ => false,
            },
        c.required == total_required,
        c.stats.replicas_contacted == total_replicas,
        c.stats.acks_required == total_required,
{
    lemma_first_error_is_kept(tallies, reports);
    law_each_datacenter_counts(reports);
    if !timed_out && c.result is Err {
        let i = choose|i: int|
            0 <= i < reports.len() && report_error(#[trigger] reports[i]) == first_error(reports);
        assert(report_error(reports[i]) is Some);
    }
    if c.result is Ok {
        assert forall|i: int| 0 <= i < reports.len() implies (
        #[trigger] reports[i] matches DcReport::Finished(Ok(_), _)) by {
            assert(report_error(reports[i]) is None);
        }
    }
}

/// The tally holds the first error of the reports.
proof fn lemma_first_error_is_kept(tallies: Seq<EachTally>, reports: Seq<DcReport>)
    requires
        tallies.len() == reports.len() + 1,
        tallies[0].first_err is None,
        forall|i: int|
            0 <= i < reports.len() ==> absorbed(#[trigger] tallies[i], reports[i], tallies[i + 1]),
    ensures
        tallies.last().first_err == first_error(reports),
    decreases reports.len(),
{
    let n = reports.len() as int;
    if n > 0 {
        let t2 = tallies.drop_last();
        let r2 = reports.drop_last();
        assert forall|i: int| 0 <= i < r2.len() implies absorbed(
            #[trigger] t2[i],
            r2[i],
            t2[i + 1],
        ) by {
            assert(absorbed(tallies[i], reports[i], tallies[i + 1]));
        }
        lemma_first_error_is_kept(t2, r2);
        assert(absorbed(tallies[n - 1], reports[n - 1], tallies[n - 1 + 1]));
    }
}

/// The conclusion of a read.
pub open spec fn read_concluded(
    result: Result<(), ConsistencyError>,
    stats: QuorumOutcome,
    required: usize,
    c: Conclusion,
) -> bool {
    &&& c.required == required
    &&& c.result == result
    &&& c.stats == (match result {
        Ok(_) => QuorumOutcome {
            acks_received: stats.acks_received,
            replicas_contacted: stats.replicas_contacted,
            acks_required: required,
        },
        Err(e) => QuorumOutcome {
            acks_received: match e {
                ConsistencyError::NotEnoughAcks { required, received, dc } => received,
                _ => 0,
            },
            replicas_contacted: 0,
            acks_required: 0,
        },
    })
}

/// The counts that an error tells of.
pub open spec fn counts_told(err: ConsistencyError, o: QuorumOutcome) -> bool {
    o == (QuorumOutcome {
        acks_received: match err {
            ConsistencyError::NotEnoughAcks { required, received, dc } => received,
            _ => 0,
        },
        replicas_contacted: 0,
        acks_required: 0,
    })
}

/// The metrics of a finished operation.
pub open spec fn is_measured(
    c: Conclusion,
    service: Seq<char>,
    level: String,
    latency: Duration,
    m: ConsistencyMetrics,
) -> bool {
    &&& m.acks_required == c.required
    &&& m.acks_received == c.stats.acks_received
    &&& m.replicas_contacted == c.stats.replicas_contacted
    &&& m.duration_ms == latency.total_millis() % 0x1_0000_0000_0000_0000
    &&& m.consistency_level == level
    &&& m.service@ == service
    &&& m.succeeded == (c.result is Ok)
}

/// What is recorded of a read is what happened: it succeeded where the caller is
/// told so, with the replicas that were contacted and the acknowledgements that
/// came; a failure records the acknowledgements that it names.
pub proof fn law_records_say_what_happened(
    result: Result<(), ConsistencyError>,
    stats: QuorumOutcome,
    required: usize,
    c: Conclusion,
    service: Seq<char>,
    level: String,
    latency: Duration,
    m: ConsistencyMetrics,
    told: QuorumOutcome,
)
    requires
        read_concluded(result, stats, required, c),
        is_measured(c, service, level, latency, m),
        result is Err ==> counts_told(result->Err_0, told),
        latency.secs * 1000 + latency.nanos / 1_000_000 <= u64::MAX,
    ensures
        c.result == result,
        m.succeeded <==> result is Ok,
        m.acks_required == required,
        m.service@ == service,
        m.consistency_level@ == level@,
        m.duration_ms == latency.secs * 1000 + latency.nanos / 1_000_000,
        result is Ok ==> m.acks_received == stats.acks_received && m.replicas_contacted
            == stats.replicas_contacted,
        result is Err ==> c.stats == told,
        result matches Err(ConsistencyError::NotEnoughAcks { required: r, received, dc })
            ==> m.acks_received == received,
        result is Err && !(result->Err_0 is NotEnoughAcks) ==> m.acks_received == 0,
{
}

} // verus!
