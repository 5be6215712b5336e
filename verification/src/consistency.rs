//! Tunable consistency levels: how many replica acknowledgements a read or a
//! write needs.

use crate::text::{decimal, push_decimal, strs};
use crate::time::{duration_debug, Duration};
use vstd::prelude::*;

verus! {

/// Write-side consistency level.
#[derive(Debug, Clone, Copy, PartialEq, Eq, Structural, Hash)]
pub enum WriteConsistency {
    /// Fire-and-forget to any replica.
    Any,
    /// One replica.
    One,
    /// Two replicas.
    Two,
    /// Three replicas.
    Three,
    /// One replica in the local datacenter.
    LocalOne,
    /// A quorum in the local datacenter.
    LocalQuorum,
    /// A quorum cluster-wide.
    Quorum,
    /// A quorum in each datacenter.
    EachQuorum,
    /// Every replica.
    All,
    /// Linearizable write.
    Serial,
}

/// Read-side consistency level.
#[derive(Debug, Clone, Copy, PartialEq, Eq, Structural, Hash)]
pub enum ReadConsistency {
    /// One replica.
    One,
    /// Two replicas.
    Two,
    /// Three replicas.
    Three,
    /// One replica in the local datacenter.
    LocalOne,
    /// A quorum in the local datacenter.
    LocalQuorum,
    /// A quorum cluster-wide.
    Quorum,
    /// Linearizable read, cluster-wide.
    Serial,
    /// Linearizable read in the local datacenter.
    LocalSerial,
    /// Every replica.
    All,
}

/// Why a consistency requirement was not met.
#[derive(Debug, PartialEq, Eq)]
pub enum ConsistencyError {
    /// Fewer replicas are reachable than the level requires.
    NotEnoughReplicas { required: usize, available: usize },
    /// Not enough replicas acknowledged; `dc` names the datacenter that
    /// failed, for per-datacenter levels.
    NotEnoughAcks { required: usize, received: usize, dc: Option<String> },
    /// Paxos rounds were exhausted by contention.
    PaxosContention { rounds: usize },
    /// Acknowledgements did not arrive in time.
    Timeout { after: Duration },
}

impl Clone for ConsistencyError {
    fn clone(&self) -> (r: Self)
        ensures
            r == *self,
    {
        match self {
            ConsistencyError::NotEnoughReplicas { required, available } =>
                ConsistencyError::NotEnoughReplicas { required: *required, available: *available },
            ConsistencyError::NotEnoughAcks { required, received, dc } => {
                let copy: Option<String> = match dc {
                    Some(d) => Some(d.clone()),
                    None => None,
                };
                ConsistencyError::NotEnoughAcks {
                    required: *required,
                    received: *received,
                    dc: copy,
                }
            },
            ConsistencyError::PaxosContention { rounds } => ConsistencyError::PaxosContention {
                rounds: *rounds,
            },
            ConsistencyError::Timeout { after } => ConsistencyError::Timeout { after: *after },
        }
    }
}

impl ConsistencyError {
    /// A reported timeout is a proper span.
    pub open spec fn wf(&self) -> bool {
        match self {
            ConsistencyError::Timeout { after } => after.wf(),
            _ => true,
        }
    }

    /// The message shown for the error.
    pub open spec fn text(&self) -> Seq<char> {
        match self {
            ConsistencyError::NotEnoughReplicas { required, available } =>
                "not enough replicas: required "@ + decimal(*required as nat) + ", available "@
                + decimal(*available as nat),
            ConsistencyError::NotEnoughAcks { required, received, dc } => match dc {
                Some(dc) => "not enough acks in datacenter "@ + dc@ + ": required "@ + decimal(
                    *required as nat,
                ) + ", received "@ + decimal(*received as nat),
                None => "not enough acks: required "@ + decimal(*required as nat) + ", received "@
                    + decimal(*received as nat),
            },
            ConsistencyError::PaxosContention { rounds } => "paxos contention after "@ + decimal(
                *rounds as nat,
            ) + " rounds"@,
            ConsistencyError::Timeout { after } => "consistency operation timed out after "@
                + duration_debug(after.secs, after.nanos),
        }
    }

    /// The message shown for the error.
    pub fn to_string(&self) -> (s: String)
        requires
            self.wf(),
        ensures
            s@ == self.text(),
    {
        match self {
            ConsistencyError::NotEnoughReplicas { required, available } => {
                let mut s = "not enough replicas: required ".to_string();
                push_decimal(&mut s, *required as u64);
                s.push_str(", available ");
                push_decimal(&mut s, *available as u64);
                s
            },
            ConsistencyError::NotEnoughAcks { required, received, dc } => {
                let mut s: String = match dc {
                    Some(dc) => {
                        let mut t = "not enough acks in datacenter ".to_string();
                        t.push_str(dc.as_str());
                        t.push_str(": required ");
                        t
                    },
                    None => "not enough acks: required ".to_string(),
                };
                push_decimal(&mut s, *required as u64);
                s.push_str(", received ");
                push_decimal(&mut s, *received as u64);
                s
            },
            ConsistencyError::PaxosContention { rounds } => {
                let mut s = "paxos contention after ".to_string();
                push_decimal(&mut s, *rounds as u64);
                s.push_str(" rounds");
                s
            },
            ConsistencyError::Timeout { after } => {
                let mut s = "consistency operation timed out after ".to_string();
                let t = after.to_text();
                s.push_str(t.as_str());
                s
            },
        }
    }
}

impl WriteConsistency {
    /// The name of the level.
    pub open spec fn name_text(self) -> Seq<char> {
        match self {
            WriteConsistency::Any => "Any"@,
            WriteConsistency::One => "One"@,
            WriteConsistency::Two => "Two"@,
            WriteConsistency::Three => "Three"@,
            WriteConsistency::LocalOne => "LocalOne"@,
            WriteConsistency::LocalQuorum => "LocalQuorum"@,
            WriteConsistency::Quorum => "Quorum"@,
            WriteConsistency::EachQuorum => "EachQuorum"@,
            WriteConsistency::All => "All"@,
            WriteConsistency::Serial => "Serial"@,
        }
    }

    /// The name of the level.
    pub fn name(self) -> (s: String)
        ensures
            s@ == self.name_text(),
    {
        match self {
            WriteConsistency::Any => "Any".to_string(),
            WriteConsistency::One => "One".to_string(),
            WriteConsistency::Two => "Two".to_string(),
            WriteConsistency::Three => "Three".to_string(),
            WriteConsistency::LocalOne => "LocalOne".to_string(),
            WriteConsistency::LocalQuorum => "LocalQuorum".to_string(),
            WriteConsistency::Quorum => "Quorum".to_string(),
            WriteConsistency::EachQuorum => "EachQuorum".to_string(),
            WriteConsistency::All => "All".to_string(),
            WriteConsistency::Serial => "Serial".to_string(),
        }
    }
}

impl ReadConsistency {
    /// The name of the level.
    pub open spec fn name_text(self) -> Seq<char> {
        match self {
            ReadConsistency::One => "One"@,
            ReadConsistency::Two => "Two"@,
            ReadConsistency::Three => "Three"@,
            ReadConsistency::LocalOne => "LocalOne"@,
            ReadConsistency::LocalQuorum => "LocalQuorum"@,
            ReadConsistency::Quorum => "Quorum"@,
            ReadConsistency::Serial => "Serial"@,
            ReadConsistency::LocalSerial => "LocalSerial"@,
            ReadConsistency::All => "All"@,
        }
    }

    /// The name of the level.
    pub fn name(self) -> (s: String)
        ensures
            s@ == self.name_text(),
    {
        match self {
            ReadConsistency::One => "One".to_string(),
            ReadConsistency::Two => "Two".to_string(),
            ReadConsistency::Three => "Three".to_string(),
            ReadConsistency::LocalOne => "LocalOne".to_string(),
            ReadConsistency::LocalQuorum => "LocalQuorum".to_string(),
            ReadConsistency::Quorum => "Quorum".to_string(),
            ReadConsistency::Serial => "Serial".to_string(),
            ReadConsistency::LocalSerial => "LocalSerial".to_string(),
            ReadConsistency::All => "All".to_string(),
        }
    }
}

/// Snapshot of a completed consistency operation.
#[derive(Debug, PartialEq, Eq)]
pub struct ConsistencyMetrics {
    /// Acknowledgements required for the configured level.
    pub acks_required: usize,
    /// Acknowledgements received before return.
    pub acks_received: usize,
    /// Replica endpoints contacted.
    pub replicas_contacted: usize,
    /// Duration of the operation in milliseconds.
    pub duration_ms: u64,
    /// The level used.
    pub consistency_level: String,
    /// The service called.
    pub service: String,
    /// Whether the operation succeeded.
    pub succeeded: bool,
}

/// The metrics of one finished operation. A duration beyond the range of
/// `u64` milliseconds is reported modulo that range.
pub fn metrics_snapshot(
    service: &str,
    consistency_level: String,
    acks_required: usize,
    acks_received: usize,
    replicas_contacted: usize,
    duration: Duration,
    succeeded: bool,
) -> (m: ConsistencyMetrics)
    ensures
        m.acks_required == acks_required,
        m.acks_received == acks_received,
        m.replicas_contacted == replicas_contacted,
        m.duration_ms == duration.total_millis() % 0x1_0000_0000_0000_0000,
        m.consistency_level == consistency_level,
        m.service@ == service@,
        m.succeeded == succeeded,
{
    ConsistencyMetrics {
        acks_required,
        acks_received,
        replicas_contacted,
        duration_ms: (duration.as_millis() % 0x1_0000_0000_0000_0000u128) as u64,
        consistency_level,
        service: service.to_string(),
        succeeded,
    }
}

/// The quorum size for a replication factor.
pub open spec fn quorum(rf: nat) -> nat {
    rf / 2 + 1
}

/// The quorum size for a replication factor: `floor(rf / 2) + 1`.
pub fn quorum_for(rf: usize) -> (q: usize)
    ensures
        q == quorum(rf as nat),
{
    rf / 2 + 1
}

/// The quorum of each datacenter.
pub open spec fn quorums(dc_rfs: Seq<usize>) -> Seq<nat> {
    Seq::new(dc_rfs.len(), |i: int| quorum(dc_rfs[i] as nat))
}

/// The sum of the quorums of the datacenters.
pub open spec fn quorum_sum(dc_rfs: Seq<usize>) -> nat
    decreases dc_rfs.len(),
{
    if dc_rfs.len() == 0 {
        0
    } else {
        quorum_sum(dc_rfs.drop_last()) + quorum(dc_rfs.last() as nat)
    }
}

/// Whether every datacenter can reach its quorum: there is at least one, and
/// none is empty.
pub open spec fn each_quorum_reachable(dc_rfs: Seq<usize>) -> bool {
    dc_rfs.len() > 0 && forall|i: int| 0 <= i < dc_rfs.len() ==> #[trigger] dc_rfs[i] > 0
}

/// Per-datacenter quorum requirements.
pub fn each_quorum_acks_required(dc_rfs: &[usize]) -> (r: Result<Vec<usize>, ConsistencyError>)
    ensures
        match r {
            Ok(v) => each_quorum_reachable(dc_rfs@) && v@.len() == dc_rfs@.len() && forall|i: int|
                0 <= i < v@.len() ==> #[trigger] v@[i] == quorums(dc_rfs@)[i],
            Err(e) => !each_quorum_reachable(dc_rfs@) && e == (
            ConsistencyError::NotEnoughReplicas { required: 1, available: 0 }),
        },
{
    if dc_rfs.len() == 0 {
        return Err(ConsistencyError::NotEnoughReplicas { required: 1, available: 0 });
    }
    let mut per_dc: Vec<usize> = Vec::with_capacity(dc_rfs.len());
    let mut i: usize = 0;
    while i < dc_rfs.len()
        invariant
            i <= dc_rfs@.len(),
            per_dc@.len() == i,
            forall|j: int| 0 <= j < i ==> #[trigger] dc_rfs@[j] > 0,
            forall|j: int| 0 <= j < i ==> #[trigger] per_dc@[j] == quorums(dc_rfs@)[j],
        decreases dc_rfs@.len() - i,
    {
        let dc_rf: usize = dc_rfs[i];
        let required: usize = quorum_for(dc_rf);
        if dc_rf < required {
            assert(dc_rfs@[i as int] == 0);
            return Err(ConsistencyError::NotEnoughReplicas { required, available: dc_rf });
        }
        per_dc.push(required);
        i += 1;
    }
    Ok(per_dc)
}

/// The acknowledgements a write needs, for levels that do not go by datacenter.
pub open spec fn write_needed(cl: WriteConsistency, rf: nat, local_rf: nat) -> nat {
    match cl {
        WriteConsistency::Any | WriteConsistency::One | WriteConsistency::LocalOne => 1,
        WriteConsistency::Two => 2,
        WriteConsistency::Three => 3,
        WriteConsistency::LocalQuorum => quorum(local_rf),
        WriteConsistency::Quorum | WriteConsistency::Serial => quorum(rf),
        WriteConsistency::All => rf,
        WriteConsistency::EachQuorum => 0,
    }
}

/// The replicas a write may count on.
pub open spec fn write_pool(cl: WriteConsistency, rf: nat, local_rf: nat) -> nat {
    match cl {
        WriteConsistency::LocalOne | WriteConsistency::LocalQuorum => local_rf,
        _ => rf,
    }
}

/// What [`write_acks_required`] answers.
pub open spec fn write_acks(
    cl: WriteConsistency,
    rf: nat,
    local_rf: nat,
    dc_rfs: Seq<usize>,
) -> Result<nat, ConsistencyError> {
    if cl == WriteConsistency::EachQuorum {
        if each_quorum_reachable(dc_rfs) {
            Ok(quorum_sum(dc_rfs))
        } else {
            Err(ConsistencyError::NotEnoughReplicas { required: 1, available: 0 })
        }
    } else if write_pool(cl, rf, local_rf) < write_needed(cl, rf, local_rf) {
        Err(
            ConsistencyError::NotEnoughReplicas {
                required: write_needed(cl, rf, local_rf) as usize,
                available: write_pool(cl, rf, local_rf) as usize,
            },
        )
    } else {
        Ok(write_needed(cl, rf, local_rf))
    }
}

/// The datacenter list that an absent argument stands for.
pub open spec fn dc_list(dc_rfs: Option<&[usize]>) -> Seq<usize> {
    match dc_rfs {
        Some(d) => d@,
        None => Seq::empty(),
    }
}

/// A prefix of the datacenters needs no more than all of them.
proof fn lemma_quorum_sum_prefix(s: Seq<usize>, i: int)
    requires
        0 <= i <= s.len(),
    ensures
        quorum_sum(s.take(i)) <= quorum_sum(s),
    decreases s.len(),
{
    if i < s.len() {
        lemma_quorum_sum_prefix(s.drop_last(), i);
        assert(s.drop_last().take(i) == s.take(i));
    } else {
        assert(s.take(i) == s);
    }
}

/// Number of write acknowledgements required for `cl`. For
/// [`WriteConsistency::EachQuorum`] this is the sum over the datacenters,
/// which has to fit the machine word.
pub fn write_acks_required(
    cl: WriteConsistency,
    rf: usize,
    local_rf: usize,
    dc_rfs: Option<&[usize]>,
) -> (r: Result<usize, ConsistencyError>)
    requires
        cl == WriteConsistency::EachQuorum ==> quorum_sum(dc_list(dc_rfs)) <= usize::MAX,
    ensures
        match r {
            Ok(n) => write_acks(cl, rf as nat, local_rf as nat, dc_list(dc_rfs)) == Ok::<
                nat,
                ConsistencyError,
            >(n as nat),
            Err(e) => write_acks(cl, rf as nat, local_rf as nat, dc_list(dc_rfs)) == Err::<
                nat,
                ConsistencyError,
            >(e),
        },
{
    let required: usize = match cl {
        WriteConsistency::Any | WriteConsistency::One | WriteConsistency::LocalOne => 1,
        WriteConsistency::Two => 2,
        WriteConsistency::Three => 3,
        WriteConsistency::LocalQuorum => quorum_for(local_rf),
        WriteConsistency::Quorum | WriteConsistency::Serial => quorum_for(rf),
        WriteConsistency::EachQuorum => {
            let none: [usize; 0] = [];
            let list: &[usize] = match dc_rfs {
                Some(d) => d,
                None => &none,
            };
            assert(list@ == dc_list(dc_rfs));
            match each_quorum_acks_required(list) {
                Err(e) => {
                    return Err(e);
                },
                Ok(v) => {
                    let mut sum: usize = 0;
                    let mut i: usize = 0;
                    while i < v.len()
                        invariant
                            i <= v@.len() == list@.len(),
                            sum == quorum_sum(list@.take(i as int)),
                            quorum_sum(list@) <= usize::MAX,
                            forall|j: int|
                                0 <= j < v@.len() ==> #[trigger] v@[j] == quorums(list@)[j],
                        decreases v@.len() - i,
                    {
                        proof {
                            lemma_quorum_sum_prefix(list@, i as int + 1);
                            assert(list@.take(i as int + 1).drop_last() == list@.take(i as int));
                            assert(v@[i as int] == quorums(list@)[i as int]);
                        }
                        sum = sum + v[i];
                        i += 1;
                    }
                    assert(list@.take(list@.len() as int) == list@);
                    return Ok(sum);
                },
            }
        },
        WriteConsistency::All => rf,
    };
    let available: usize = match cl {
        WriteConsistency::LocalOne | WriteConsistency::LocalQuorum => local_rf,
        _ => rf,
    };
    if available < required {
        return Err(ConsistencyError::NotEnoughReplicas { required, available });
    }
    Ok(required)
}

/// The acknowledgements a read needs.
pub open spec fn read_needed(cl: ReadConsistency, rf: nat, local_rf: nat) -> nat {
    match cl {
        ReadConsistency::One | ReadConsistency::LocalOne => 1,
        ReadConsistency::Two => 2,
        ReadConsistency::Three => 3,
        ReadConsistency::LocalQuorum | ReadConsistency::LocalSerial => quorum(local_rf),
        ReadConsistency::Quorum | ReadConsistency::Serial => quorum(rf),
        ReadConsistency::All => rf,
    }
}

/// The replicas a read may count on.
pub open spec fn read_pool(cl: ReadConsistency, rf: nat, local_rf: nat) -> nat {
    match cl {
        ReadConsistency::LocalOne | ReadConsistency::LocalQuorum | ReadConsistency::LocalSerial =>
            local_rf,
        _ => rf,
    }
}

/// What [`read_acks_required`] answers.
pub open spec fn read_acks(cl: ReadConsistency, rf: nat, local_rf: nat) -> Result<
    nat,
    ConsistencyError,
> {
    if read_pool(cl, rf, local_rf) < read_needed(cl, rf, local_rf) {
        Err(
            ConsistencyError::NotEnoughReplicas {
                required: read_needed(cl, rf, local_rf) as usize,
                available: read_pool(cl, rf, local_rf) as usize,
            },
        )
    } else {
        Ok(read_needed(cl, rf, local_rf))
    }
}

/// Number of read acknowledgements required for `cl`.
pub fn read_acks_required(cl: ReadConsistency, rf: usize, local_rf: usize) -> (r: Result<
    usize,
    ConsistencyError,
>)
    ensures
        match r {
            Ok(n) => read_acks(cl, rf as nat, local_rf as nat) == Ok::<nat, ConsistencyError>(
                n as nat,
            ),
            Err(e) => read_acks(cl, rf as nat, local_rf as nat) == Err::<nat, ConsistencyError>(e),
        },
{
    let required: usize = match cl {
        ReadConsistency::One | ReadConsistency::LocalOne => 1,
        ReadConsistency::Two => 2,
        ReadConsistency::Three => 3,
        ReadConsistency::LocalQuorum => quorum_for(local_rf),
        ReadConsistency::Quorum => quorum_for(rf),
        ReadConsistency::Serial => quorum_for(rf),
        ReadConsistency::LocalSerial => quorum_for(local_rf),
        ReadConsistency::All => rf,
    };
    let available: usize = match cl {
        ReadConsistency::LocalOne
        | ReadConsistency::LocalQuorum
        | ReadConsistency::LocalSerial => local_rf,
        _ => rf,
    };
    if available < required {
        return Err(ConsistencyError::NotEnoughReplicas { required, available });
    }
    Ok(required)
}

/// Whether `cl` is a linearizable read level.
pub fn is_paxos_read(cl: ReadConsistency) -> (r: bool)
    ensures
        r == (cl == ReadConsistency::Serial || cl == ReadConsistency::LocalSerial),
{
    matches!(cl, ReadConsistency::Serial | ReadConsistency::LocalSerial)
}

/// Whether `cl` is a write level scoped to the local datacenter.
pub fn is_local_only(cl: WriteConsistency) -> (r: bool)
    ensures
        r == (cl == WriteConsistency::LocalOne || cl == WriteConsistency::LocalQuorum),
{
    matches!(cl, WriteConsistency::LocalOne | WriteConsistency::LocalQuorum)
}

/// Whether `cl` is a read level scoped to the local datacenter.
pub fn is_local_only_read(cl: ReadConsistency) -> (r: bool)
    ensures
        r == (cl == ReadConsistency::LocalOne || cl == ReadConsistency::LocalQuorum || cl
            == ReadConsistency::LocalSerial),
{
    matches!(
        cl,
        ReadConsistency::LocalOne | ReadConsistency::LocalQuorum | ReadConsistency::LocalSerial
    )
}

/// Replication and consistency defaults for mesh operations.
#[derive(Debug, PartialEq, Eq)]
pub struct ConsistencyConfig {
    /// Cluster-wide replication factor.
    pub rf: usize,
    /// Replication factor in the local datacenter.
    pub local_rf: usize,
    /// Per-datacenter replication factors.
    pub dc_rfs: Vec<usize>,
    /// Datacenter names parallel to `dc_rfs`.
    pub dc_names: Vec<String>,
    /// Name of this node's datacenter.
    pub local_dc: String,
    /// Default write level.
    pub write_cl: WriteConsistency,
    /// Default read level.
    pub read_cl: ReadConsistency,
    /// Longest wait for the required acknowledgements.
    pub ack_timeout: Duration,
}

impl ConsistencyConfig {
    /// The wait is a proper span.
    pub open spec fn wf(&self) -> bool {
        self.ack_timeout.wf()
    }
}

impl Default for ConsistencyConfig {
    fn default() -> (c: Self)
        ensures
            c.wf(),
            c.rf == 3,
            c.local_rf == 3,
            c.dc_rfs@ == seq![3usize],
            strs(c.dc_names@) == seq!["local"@],
            c.local_dc@ == "local"@,
            c.write_cl == WriteConsistency::LocalQuorum,
            c.read_cl == ReadConsistency::LocalQuorum,
            c.ack_timeout == (Duration { secs: 5, nanos: 0 }),
    {
        let mut dc_rfs: Vec<usize> = Vec::new();
        dc_rfs.push(3);
        let mut dc_names: Vec<String> = Vec::new();
        dc_names.push("local".to_string());
        assert(strs(dc_names@) =~= seq!["local"@]);
        ConsistencyConfig {
            rf: 3,
            local_rf: 3,
            dc_rfs,
            dc_names,
            local_dc: "local".to_string(),
            write_cl: WriteConsistency::LocalQuorum,
            read_cl: ReadConsistency::LocalQuorum,
            ack_timeout: Duration::from_secs(5),
        }
    }
}

/// Any two quorums of the same replica group overlap, and a non-empty group
/// can reach its quorum.
pub proof fn law_quorums_overlap(rf: nat)
    ensures
        quorum(rf) + quorum(rf) > rf,
        rf > 0 ==> quorum(rf) <= rf,
{
}

/// A satisfiable level never asks for more acknowledgements than there are
/// replicas to give them, and it asks for at least one unless the group is
/// empty and every replica is asked for.
pub proof fn law_required_is_available(
    w: WriteConsistency,
    r: ReadConsistency,
    rf: nat,
    local_rf: nat,
)
    requires
        w != WriteConsistency::EachQuorum,
    ensures
        write_acks(w, rf, local_rf, Seq::empty()) matches Ok(n) ==> n <= write_pool(
            w,
            rf,
            local_rf,
        ) && (n > 0 || (w == WriteConsistency::All && rf == 0)),
        read_acks(r, rf, local_rf) matches Ok(n) ==> n <= read_pool(r, rf, local_rf) && (n > 0 || (r
            == ReadConsistency::All && rf == 0)),
{
}

/// Reads see writes: where the acknowledgements of a write and of a read add
/// up to more than the replicas, some replica took part in both.
pub proof fn law_read_meets_write<A>(replicas: Set<A>, written: Set<A>, read: Set<A>)
    requires
        replicas.finite(),
        written.subset_of(replicas),
        read.subset_of(replicas),
        written.len() + read.len() > replicas.len(),
    ensures
        exists|a: A| written.contains(a) && read.contains(a),
{
    vstd::set_lib::lemma_set_subset_finite(replicas, written);
    vstd::set_lib::lemma_set_subset_finite(replicas, read);
    if !(exists|a: A| written.contains(a) && read.contains(a)) {
        assert(written.disjoint(read));
        vstd::set_lib::lemma_set_disjoint_lens(written, read);
        vstd::set_lib::lemma_len_subset(written + read, replicas);
    }
}

/// Whether a write level and a read level, both over the whole cluster, are
/// strong together: both at quorum or above, or one side at every replica and
/// the other at any level that the replication factor allows.
pub open spec fn strong_together(w: WriteConsistency, r: ReadConsistency, rf: nat) -> bool {
    let every_write = w == WriteConsistency::All;
    let every_read = r == ReadConsistency::All;
    let quorum_write = w == WriteConsistency::Quorum || w == WriteConsistency::Serial;
    let quorum_read = r == ReadConsistency::Quorum || r == ReadConsistency::Serial;
    let some_write = match w {
        WriteConsistency::One => true,
        WriteConsistency::Two => rf >= 2,
        WriteConsistency::Three => rf >= 3,
        _ => every_write || quorum_write,
    };
    let some_read = match r {
        ReadConsistency::One => true,
        ReadConsistency::Two => rf >= 2,
        ReadConsistency::Three => rf >= 3,
        _ => every_read || quorum_read,
    };
    (quorum_write && quorum_read) || (every_write && some_read) || (some_write && every_read)
}

/// Writing and reading at quorum, or either side at every replica with the
/// other at one or more, always overlaps: both can be met, and together they
/// ask for more acknowledgements than there are replicas.
pub proof fn law_quorum_levels_overlap(
    w: WriteConsistency,
    r: ReadConsistency,
    rf: nat,
    local_rf: nat,
)
    requires
        rf > 0,
        strong_together(w, r, rf),
    ensures
        write_acks(w, rf, local_rf, Seq::empty()) == Ok::<nat, ConsistencyError>(
            write_needed(w, rf, local_rf),
        ),
        read_acks(r, rf, local_rf) == Ok::<nat, ConsistencyError>(read_needed(r, rf, local_rf)),
        write_needed(w, rf, local_rf) + read_needed(r, rf, local_rf) > rf,
{
}

/// Writing and reading at local quorum always overlaps among the replicas of
/// the local datacenter.
pub proof fn law_local_quorum_levels_overlap(r: ReadConsistency, rf: nat, local_rf: nat)
    requires
        local_rf > 0,
        r == ReadConsistency::LocalQuorum || r == ReadConsistency::LocalSerial,
    ensures
        write_acks(WriteConsistency::LocalQuorum, rf, local_rf, Seq::empty()) == Ok::<
            nat,
            ConsistencyError,
        >(quorum(local_rf)),
        read_acks(r, rf, local_rf) == Ok::<nat, ConsistencyError>(quorum(local_rf)),
        quorum(local_rf) + quorum(local_rf) > local_rf,
{
}

} // verus!
