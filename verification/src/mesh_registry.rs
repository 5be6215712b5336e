//! Mesh registry: the records behind the control plane, their renewal and
//! their expiry, and the conversions at its edge.

use crate::distributed::{data_endpoint, grpc_data_endpoint, lemma_filter_step};
use crate::mesh::{expired, record_expired, ServiceRecord, DEFAULT_RECORD_TTL_SECS};
use crate::text::{chars_of, concat2, find_last, last_index_of, lemma_last_index_of, same, string_of};
use crate::time::Duration;
use vstd::prelude::*;

verus! {

/// Control-plane requests and replies.
#[derive(Debug, PartialEq, Eq)]
pub enum MeshControlMsg {
    Register(ServiceRecord),
    Deregister { service: String, instance_id: String },
    List,
    ListReply(Vec<ServiceRecord>),
    Ping,
    Pong,
}

/// What watchers of the registry are told.
#[derive(Debug, PartialEq, Eq)]
pub enum ServiceEvent {
    Registered(ServiceRecord),
    Deregistered(ServiceRecord),
}

/// Records that are not older than their time to live.
pub open spec fn fresh(now: u64, ttl: Duration) -> spec_fn(ServiceRecord) -> bool {
    |r: ServiceRecord| !expired(r, now, ttl)
}

/// The records of the mesh.
pub struct MeshRegistry {
    pub records: Vec<ServiceRecord>,
    pub ttl: Duration,
}

impl Default for MeshRegistry {
    fn default() -> (r: Self)
        ensures
            r.wf(),
            r.records@.len() == 0,
            r.ttl == (Duration { secs: DEFAULT_RECORD_TTL_SECS, nanos: 0 }),
    {
        Self::new()
    }
}

impl MeshRegistry {
    /// No instance has two records.
    pub open spec fn wf(&self) -> bool {
        forall|i: int, j: int|
            0 <= i < j < self.records@.len() ==> !(#[trigger] self.records@[i]).is_for(
                (#[trigger] self.records@[j]).service@,
                self.records@[j].instance_id@,
            )
    }

    /// Whether the registry holds exactly this record for its instance.
    pub open spec fn holds(&self, r: ServiceRecord) -> bool {
        self.records@.contains(r)
    }

    /// An empty registry with the usual time to live.
    pub fn new() -> (r: Self)
        ensures
            r.wf(),
            r.records@.len() == 0,
            r.ttl == (Duration { secs: DEFAULT_RECORD_TTL_SECS, nanos: 0 }),
    {
        Self::with_ttl(Duration::from_secs(DEFAULT_RECORD_TTL_SECS))
    }

    /// An empty registry.
    pub fn with_ttl(ttl: Duration) -> (r: Self)
        ensures
            r.wf(),
            r.records@.len() == 0,
            r.ttl == ttl,
    {
        MeshRegistry { records: Vec::new(), ttl }
    }

    /// The position of an instance's record.
    fn find(&self, service: &str, instance_id: &str) -> (r: Option<usize>)
        ensures
            match r {
                Some(i) => i < self.records@.len() && self.records@[i as int].is_for(
                    service@,
                    instance_id@,
                ),
                None => forall|j: int|
                    0 <= j < self.records@.len() ==> !(#[trigger] self.records@[j]).is_for(
                        service@,
                        instance_id@,
                    ),
            },
    {
        let mut i: usize = 0;
        while i < self.records.len()
            invariant
                i <= self.records@.len(),
                forall|j: int|
                    0 <= j < i ==> !(#[trigger] self.records@[j]).is_for(service@, instance_id@),
            decreases self.records@.len() - i,
        {
            if same(self.records[i].service.as_str(), service) && same(
                self.records[i].instance_id.as_str(),
                instance_id,
            ) {
                return Some(i);
            }
            i += 1;
        }
        None
    }

    /// Registers or renews an instance at time `now`.
    pub fn register(&mut self, record: ServiceRecord, now: u64) -> (e: ServiceEvent)
        requires
            old(self).wf(),
        ensures
            final(self).wf(),
            renewed_in(*old(self), record, now, *final(self), e),
    {
        let ghost was = self.records@;
        let mut stored = record;
        stored.registered_at = now;
        let copy = stored.clone();
        match self.find(stored.service.as_str(), stored.instance_id.as_str()) {
            Some(i) => {
                self.records.set(i, stored);
                proof {
                    let at = self.records@;
                    assert(at =~= was.update(i as int, copy));
                    assert(at[i as int] == copy);
                    assert forall|a: int, b: int| 0 <= a < b < at.len() implies !(
                    #[trigger] at[a]).is_for((#[trigger] at[b]).service@, at[b].instance_id@) by {
                        assert(!was[a].is_for(was[b].service@, was[b].instance_id@));
                    }
                    assert forall|r: ServiceRecord|
                        !r.is_for(copy.service@, copy.instance_id@) implies (at.contains(r)
                        <==> was.contains(r)) by {
                        if was.contains(r) {
                            let j = was.index_of(r);
                            assert(at[j] == r);
                        }
                        if at.contains(r) {
                            let j = at.index_of(r);
                            assert(was[j] == r);
                        }
                    }
                }
            },
            None => {
                self.records.push(stored);
                proof {
                    let at = self.records@;
                    assert(at =~= was.push(copy));
                    assert(at[was.len() as int] == copy);
                    assert forall|a: int, b: int| 0 <= a < b < at.len() implies !(
                    #[trigger] at[a]).is_for((#[trigger] at[b]).service@, at[b].instance_id@) by {
                        if b < was.len() {
                            assert(!was[a].is_for(was[b].service@, was[b].instance_id@));
                        }
                    }
                    assert forall|r: ServiceRecord|
                        !r.is_for(copy.service@, copy.instance_id@) implies (at.contains(r)
                        <==> was.contains(r)) by {
                        if was.contains(r) {
                            let j = was.index_of(r);
                            assert(at[j] == r);
                        }
                        if at.contains(r) {
                            let j = at.index_of(r);
                            assert(was[j] == r);
                        }
                    }
                }
            },
        }
        ServiceEvent::Registered(copy)
    }

    /// Removes an instance.
    pub fn deregister(&mut self, service: &str, instance_id: &str) -> (r: Option<ServiceRecord>)
        requires
            old(self).wf(),
        ensures
            final(self).wf(),
            dropped_from(*old(self), service@, instance_id@, *final(self), r),
    {
        let ghost was = self.records@;
        match self.find(service, instance_id) {
            None => {
                assert forall|x: ServiceRecord|
                    x.is_for(service@, instance_id@) implies !was.contains(x) by {
                    if was.contains(x) {
                        let j = was.index_of(x);
                        assert(was[j] == x);
                    }
                }
                None
            },
            Some(i) => {
                let d = self.records.remove(i);
                proof {
                    let at = self.records@;
                    assert(at =~= was.remove(i as int));
                    assert(was[i as int] == d);
                    assert forall|a: int, b: int| 0 <= a < b < at.len() implies !(
                    #[trigger] at[a]).is_for((#[trigger] at[b]).service@, at[b].instance_id@) by {
                        let a2 = if a < i {
                            a
                        } else {
                            a + 1
                        };
                        let b2 = if b < i {
                            b
                        } else {
                            b + 1
                        };
                        assert(!was[a2].is_for(was[b2].service@, was[b2].instance_id@));
                    }
                    assert forall|x: ServiceRecord|
                        at.contains(x) <==> (was.contains(x) && !x.is_for(service@, instance_id@)) by {
                        if was.contains(x) && !x.is_for(service@, instance_id@) {
                            let j = was.index_of(x);
                            let j2 = if j < i {
                                j
                            } else {
                                j - 1
                            };
                            assert(at[j2] == x);
                        }
                        if at.contains(x) {
                            let j = at.index_of(x);
                            let j2 = if j < i {
                                j
                            } else {
                                j + 1
                            };
                            assert(was[j2] == x);
                            if j2 < i {
                                assert(!was[j2].is_for(
                                    was[i as int].service@,
                                    was[i as int].instance_id@,
                                ));
                            } else {
                                assert(!was[i as int].is_for(
                                    was[j2].service@,
                                    was[j2].instance_id@,
                                ));
                            }
                        }
                    }
                }
                Some(d)
            },
        }
    }

    /// The records that are not too old at time `now`.
    pub fn list(&self, now: u64) -> (r: Vec<ServiceRecord>)
        ensures
            is_listing(*self, now, r@),
    {
        let mut out: Vec<ServiceRecord> = Vec::new();
        let mut i: usize = 0;
        let ghost all = self.records@;
        let ghost pred = fresh(now, self.ttl);
        proof {
            reveal(Seq::filter);
            assert(all.take(0).filter(pred) =~= Seq::<ServiceRecord>::empty());
        }
        while i < self.records.len()
            invariant
                all == self.records@,
                pred == fresh(now, self.ttl),
                i <= all.len(),
                out@ == all.take(i as int).filter(pred),
            decreases all.len() - i,
        {
            proof {
                lemma_filter_step(all, pred, i as int);
            }
            if !record_expired(&self.records[i], now, self.ttl) {
                out.push(self.records[i].clone());
            }
            i += 1;
        }
        assert(all.take(all.len() as int) =~= all);
        out
    }

    /// Forgets the records that are too old at time `now`.
    pub fn evict_expired(&mut self, now: u64)
        requires
            old(self).wf(),
        ensures
            final(self).wf(),
            final(self).ttl == old(self).ttl,
            final(self).records@ == old(self).records@.filter(fresh(now, old(self).ttl)),
    {
        let ghost was = self.records@;
        let kept = self.list(now);
        self.records = kept;
        proof {
            lemma_filter_keeps_distinct(was, fresh(now, self.ttl));
        }
    }
}

/// Dropping records leaves at most one per instance.
proof fn lemma_filter_keeps_distinct(
    records: Seq<ServiceRecord>,
    pred: spec_fn(ServiceRecord) -> bool,
)
    requires
        forall|i: int, j: int|
            0 <= i < j < records.len() ==> !(#[trigger] records[i]).is_for(
                (#[trigger] records[j]).service@,
                records[j].instance_id@,
            ),
    ensures
        ({
            let f = records.filter(pred);
            &&& forall|i: int, j: int|
                0 <= i < j < f.len() ==> !(#[trigger] f[i]).is_for(
                    (#[trigger] f[j]).service@,
                    f[j].instance_id@,
                )
            &&& forall|i: int| 0 <= i < f.len() ==> records.contains(#[trigger] f[i])
        }),
    decreases records.len(),
{
    reveal(Seq::filter);
    let f = records.filter(pred);
    if records.len() > 0 {
        let d = records.drop_last();
        assert forall|i: int, j: int| 0 <= i < j < d.len() implies !(#[trigger] d[i]).is_for(
            (#[trigger] d[j]).service@,
            d[j].instance_id@,
        ) by {
            assert(!records[i].is_for(records[j].service@, records[j].instance_id@));
        }
        lemma_filter_keeps_distinct(d, pred);
        let g = d.filter(pred);
        assert forall|i: int| 0 <= i < f.len() implies records.contains(#[trigger] f[i]) by {
            if i < g.len() {
                assert(g[i] == f[i]);
                let k = d.index_of(g[i]);
                assert(d.contains(g[i]));
                assert(records[k] == f[i]);
            } else {
                assert(records[records.len() - 1] == f[i]);
            }
        }
        assert forall|i: int, j: int| 0 <= i < j < f.len() implies !(#[trigger] f[i]).is_for(
            (#[trigger] f[j]).service@,
            f[j].instance_id@,
        ) by {
            assert(g[i] == f[i]);
            if j < g.len() {
                assert(g[j] == f[j]);
            } else {
                assert(d.contains(g[i]));
                let k = d.index_of(g[i]);
                assert(records[k] == f[i]);
                assert(!records[k].is_for(
                    records[records.len() - 1].service@,
                    records[records.len() - 1].instance_id@,
                ));
            }
        }
    }
}

/// Filtering twice is filtering once.
proof fn lemma_filter_twice<A>(s: Seq<A>, p: spec_fn(A) -> bool)
    ensures
        s.filter(p).filter(p) == s.filter(p),
    decreases s.len(),
{
    reveal(Seq::filter);
    if s.len() > 0 {
        lemma_filter_twice(s.drop_last(), p);
        if p(s.last()) {
            let f = s.drop_last().filter(p);
            assert(s.filter(p).drop_last() =~= f);
        }
    }
}

/// Eviction is invisible: it removes only what a listing at the same time
/// leaves out.
pub proof fn law_eviction_is_invisible(records: Seq<ServiceRecord>, now: u64, ttl: Duration)
    ensures
        records.filter(fresh(now, ttl)).filter(fresh(now, ttl)) == records.filter(fresh(now, ttl)),
{
    lemma_filter_twice(records, fresh(now, ttl));
}

/// A record that is renewed at least once per time to live never expires in
/// between.
pub proof fn law_renewal_keeps_alive(record: ServiceRecord, renewed_at: u64, now: u64, ttl: Duration)
    requires
        renewed_at <= now,
        now - renewed_at <= ttl.secs,
    ensures
        !expired((ServiceRecord { registered_at: renewed_at, ..record }), now, ttl),
{
}

/// A record in transit: an empty target stands for the instance id, and an
/// empty datacenter for none.
#[derive(Debug, PartialEq, Eq)]
pub struct ServiceRecordMsg {
    pub service: String,
    pub instance_id: String,
    pub address: String,
    pub target: String,
    pub dc: String,
}

/// Requires a field to be filled in.
pub fn require_field(value: &str, field: &str) -> (r: Result<(), String>)
    ensures
        r is Ok <==> value@.len() > 0,
        r matches Err(e) ==> e@ == "missing required field: "@ + field@,
{
    if value.is_empty() {
        Err(concat2("missing required field: ", field))
    } else {
        Ok(())
    }
}

/// The first required field that is empty.
pub open spec fn missing_field(p: ServiceRecordMsg) -> Option<Seq<char>> {
    if p.service@.len() == 0 {
        Some("service"@)
    } else if p.instance_id@.len() == 0 {
        Some("instance_id"@)
    } else if p.address@.len() == 0 {
        Some("address"@)
    } else {
        None
    }
}

/// The record that a complete message stands for: an empty target is the
/// instance itself, and an empty datacenter is none.
pub open spec fn unpacked(p: ServiceRecordMsg, now: u64) -> ServiceRecord {
    ServiceRecord {
        service: p.service,
        instance_id: p.instance_id,
        address: p.address,
        target: if p.target@.len() == 0 {
            p.instance_id
        } else {
            p.target
        },
        dc: if p.dc@.len() == 0 {
            None
        } else {
            Some(p.dc)
        },
        registered_at: now,
    }
}

impl ServiceRecord {
    /// Takes a record in at time `now`.
    pub fn try_from(p: ServiceRecordMsg, now: u64) -> (r: Result<ServiceRecord, String>)
        ensures
            match r {
                Ok(x) => missing_field(p) is None && x == unpacked(p, now),
                Err(e) => missing_field(p) matches Some(f) && e@ == "missing required field: "@ + f,
            },
    {
        match require_field(p.service.as_str(), "service") {
            Err(e) => {
                return Err(e);
            },
            Ok(_) => {},
        }
        match require_field(p.instance_id.as_str(), "instance_id") {
            Err(e) => {
                return Err(e);
            },
            Ok(_) => {},
        }
        match require_field(p.address.as_str(), "address") {
            Err(e) => {
                return Err(e);
            },
            Ok(_) => {},
        }
        let target: String = if p.target.as_str().is_empty() {
            p.instance_id.clone()
        } else {
            p.target
        };
        let dc: Option<String> = if p.dc.as_str().is_empty() {
            None
        } else {
            Some(p.dc)
        };
        Ok(
            ServiceRecord {
                service: p.service,
                instance_id: p.instance_id,
                address: p.address,
                target,
                dc,
                registered_at: now,
            },
        )
    }

    /// Packs a record for transit.
    pub fn into_msg(self) -> (p: ServiceRecordMsg)
        ensures
            packed(self, p),
    {
        let dc: String = match self.dc {
            Some(d) => d,
            None => String::new(),
        };
        ServiceRecordMsg {
            service: self.service,
            instance_id: self.instance_id,
            address: self.address,
            target: self.target,
            dc,
        }
    }
}

/// Whether `p` is what packing `r` gives.
pub open spec fn packed(r: ServiceRecord, p: ServiceRecordMsg) -> bool {
    &&& p.service == r.service
    &&& p.instance_id == r.instance_id
    &&& p.address == r.address
    &&& p.target == r.target
    &&& p.dc@ == (match r.dc {
        Some(d) => d@,
        None => Seq::empty(),
    })
    &&& (r.dc matches Some(d) ==> p.dc == d)
}

/// A complete record survives the round trip through transit, but for the time
/// of registration. Records with an empty required field are refused, and an
/// empty target or datacenter name is not told apart from an absent one.
pub proof fn law_record_round_trip(r: ServiceRecord, p: ServiceRecordMsg, now: u64)
    requires
        packed(r, p),
        r.service@.len() > 0,
        r.instance_id@.len() > 0,
        r.address@.len() > 0,
        r.target@.len() > 0,
        r.dc matches Some(d) ==> d@.len() > 0,
    ensures
        missing_field(p) is None,
        unpacked(p, now) == (ServiceRecord { registered_at: now, ..r }),
{
}

/// The answer of the registry.
#[derive(Debug, PartialEq, Eq)]
pub struct Ack {
    pub ok: bool,
    pub error: String,
}

/// A positive answer.
pub fn ack_ok() -> (a: Ack)
    ensures
        a.ok,
        a.error@.len() == 0,
{
    Ack { ok: true, error: String::new() }
}

/// The error that an answer stands for, if any.
pub fn ack_error(ack: Ack) -> (r: Result<(), String>)
    ensures
        acknowledged_as(ack, r),
{
    if ack.ok {
        Ok(())
    } else if ack.error.as_str().is_empty() {
        Err("registry error".to_string())
    } else {
        Err(ack.error)
    }
}

/// Endpoint of a registry address; one that names its scheme stays.
pub fn grpc_endpoint(addr: &str) -> (s: String)
    ensures
        s@ == data_endpoint(addr@, false),
{
    grpc_data_endpoint(addr, false)
}

/// Whether a character is a square bracket.
pub open spec fn is_bracket(c: char) -> bool {
    c == '[' || c == ']'
}

/// The text without square brackets at its ends.
pub open spec fn trim_brackets(s: Seq<char>) -> Seq<char>
    decreases s.len(),
{
    if s.len() > 0 && is_bracket(s[0]) {
        trim_brackets(s.skip(1))
    } else if s.len() > 0 && is_bracket(s.last()) {
        trim_brackets(s.drop_last())
    } else {
        s
    }
}

/// The host part of an address.
pub open spec fn tls_domain(addr: Seq<char>) -> Seq<char> {
    trim_brackets(
        match last_index_of(addr, ':') {
            Some(i) => addr.take(i),
            None => addr,
        },
    )
}

/// Host part of `host:port`, without the brackets of an IPv6 address.
pub fn tls_domain_from_addr(addr: &str) -> (s: String)
    ensures
        s@ == tls_domain(addr@),
{
    let v = chars_of(addr);
    let mut end: usize = match find_last(&v, ':') {
        Some(i) => i,
        None => v.len(),
    };
    let ghost host = v@.take(end as int);
    assert(host == (match last_index_of(addr@, ':') {
        Some(i) => addr@.take(i),
        None => addr@,
    }));
    let mut start: usize = 0;
    assert(v@.subrange(0, end as int) =~= host);
    while start < end && (v[start] == '[' || v[start] == ']')
        invariant
            start <= end <= v@.len(),
            trim_brackets(v@.subrange(start as int, end as int)) == trim_brackets(host),
        decreases end - start,
    {
        assert(v@.subrange(start as int, end as int).skip(1) =~= v@.subrange(
            start as int + 1,
            end as int,
        ));
        start += 1;
    }
    while start < end && (v[end - 1] == '[' || v[end - 1] == ']')
        invariant
            start <= end <= v@.len(),
            start < end ==> !is_bracket(v@[start as int]),
            trim_brackets(v@.subrange(start as int, end as int)) == trim_brackets(host),
        decreases end - start,
    {
        assert(v@.subrange(start as int, end as int).drop_last() =~= v@.subrange(
            start as int,
            end as int - 1,
        ));
        end -= 1;
    }
    string_of(&v, start, end)
}

/// An instance was registered, or registered again, at a time.
pub open spec fn renewed_in(
    before: MeshRegistry,
    record: ServiceRecord,
    now: u64,
    after: MeshRegistry,
    e: ServiceEvent,
) -> bool {
    &&& after.ttl == before.ttl
    &&& ({
        let stored = ServiceRecord { registered_at: now, ..record };
        &&& e == ServiceEvent::Registered(stored)
        &&& after.holds(stored)
        &&& forall|r: ServiceRecord|
            !r.is_for(record.service@, record.instance_id@) ==> (#[trigger] after.holds(r) <==> before.holds(r))
    })
}

/// An instance was taken out, if it was there.
pub open spec fn dropped_from(
    before: MeshRegistry,
    service: Seq<char>,
    instance_id: Seq<char>,
    after: MeshRegistry,
    r: Option<ServiceRecord>,
) -> bool {
    &&& after.ttl == before.ttl
    &&& match r {
        Some(d) => d.is_for(service, instance_id) && before.holds(d),
        None => forall|x: ServiceRecord|
            x.is_for(service, instance_id) ==> !#[trigger] before.holds(x),
    }
    &&& forall|x: ServiceRecord| #[trigger]
        after.holds(x) <==> before.holds(x) && !x.is_for(service, instance_id)
}

/// What is listed at a time.
pub open spec fn is_listing(registry: MeshRegistry, now: u64, list: Seq<ServiceRecord>) -> bool {
    list == registry.records@.filter(fresh(now, registry.ttl))
}

/// An instance that registered is listed as it registered for as long as a
/// record lives, and not a second longer unless it registers again. Other
/// instances are listed as before, and watchers hear of the registration.
pub proof fn law_registered_instance_is_listed_for_its_span(
    before: MeshRegistry,
    record: ServiceRecord,
    now: u64,
    after: MeshRegistry,
    e: ServiceEvent,
    later: u64,
    list: Seq<ServiceRecord>,
    x: ServiceRecord,
)
    requires
        after.wf(),
        renewed_in(before, record, now, after, e),
        is_listing(after, later, list),
        now <= later,
    ensures
        ({
            let stored = ServiceRecord { registered_at: now, ..record };
            &&& e == ServiceEvent::Registered(stored)
            &&& list.contains(stored) <==> later <= now + after.ttl.secs
            &&& x.service@ == record.service@ && x.instance_id@ == record.instance_id@
                && list.contains(x) ==> x == stored
            &&& !(x.service@ == record.service@ && x.instance_id@ == record.instance_id@) ==> (
            list.contains(x) <==> before.holds(x) && later <= x.registered_at + before.ttl.secs)
        }),
{
    let stored = ServiceRecord { registered_at: now, ..record };
    lemma_listed(after.records@, fresh(later, after.ttl), stored);
    lemma_listed(after.records@, fresh(later, after.ttl), x);
    assert(after.holds(stored));
    if x.is_for(record.service@, record.instance_id@) && after.records@.contains(x) && x != stored {
        let i = after.records@.index_of(x);
        let j = after.records@.index_of(stored);
        if i < j {
            assert(!after.records@[i].is_for(
                after.records@[j].service@,
                after.records@[j].instance_id@,
            ));
        } else {
            assert(!after.records@[j].is_for(
                after.records@[i].service@,
                after.records@[i].instance_id@,
            ));
        }
    }
    if !x.is_for(record.service@, record.instance_id@) {
        assert(after.holds(x) <==> before.holds(x));
    }
}

/// An instance that was taken out is not listed, ever after; the others are
/// listed as before. Its record is given back where there was one.
pub proof fn law_dropped_instance_is_not_listed(
    before: MeshRegistry,
    service: Seq<char>,
    instance_id: Seq<char>,
    after: MeshRegistry,
    r: Option<ServiceRecord>,
    later: u64,
    list: Seq<ServiceRecord>,
    x: ServiceRecord,
)
    requires
        dropped_from(before, service, instance_id, after, r),
        is_listing(after, later, list),
    ensures
        x.service@ == service && x.instance_id@ == instance_id ==> !list.contains(x) && (
        before.holds(x) ==> r is Some),
        !(x.service@ == service && x.instance_id@ == instance_id) ==> (list.contains(x)
            <==> before.holds(x) && later <= x.registered_at + before.ttl.secs),
        r matches Some(d) ==> before.holds(d) && d.service@ == service && d.instance_id@
            == instance_id,
{
    lemma_listed(after.records@, fresh(later, after.ttl), x);
    assert(after.holds(x) <==> before.holds(x) && !x.is_for(service, instance_id));
}

/// What passes a filter is what is there and passes.
proof fn lemma_listed(
    records: Seq<ServiceRecord>,
    p: spec_fn(ServiceRecord) -> bool,
    x: ServiceRecord,
)
    ensures
        records.filter(p).contains(x) <==> records.contains(x) && p(x),
{
    if records.filter(p).contains(x) {
        records.lemma_filter_pred(p, records.filter(p).index_of(x));
        records.lemma_filter_contains_rev(p, x);
    }
    if records.contains(x) && p(x) {
        records.lemma_filter_contains(p, records.index_of(x));
    }
}

/// A record needs a service, an instance and an address. A target that is left
/// out is the instance, and a datacenter that is left out is none; all else is
/// taken as it came, at the time it came.
pub proof fn law_records_are_read_as_sent(p: ServiceRecordMsg, now: u64)
    ensures
        missing_field(p) is None <==> p.service@.len() > 0 && p.instance_id@.len() > 0
            && p.address@.len() > 0,
        ({
            let r = unpacked(p, now);
            &&& r.service@ == p.service@
            &&& r.instance_id@ == p.instance_id@
            &&& r.address@ == p.address@
            &&& r.registered_at == now
            &&& p.target@.len() > 0 ==> r.target@ == p.target@
            &&& p.target@.len() == 0 ==> r.target@ == p.instance_id@
            &&& r.dc is None <==> p.dc@.len() == 0
            &&& r.dc matches Some(d) ==> d@ == p.dc@
        }),
{
}

/// The name that an encrypted connection is checked against is the host of the
/// address, without the port and without the brackets of a numeric address.
pub proof fn law_tls_name_is_the_host(host: Seq<char>, port: Seq<char>)
    requires
        host.len() > 0,
        !is_bracket(host[0]),
        !is_bracket(host.last()),
        !port.contains(':'),
    ensures
        tls_domain(host + seq![':'] + port) == host,
        tls_domain(seq!['['] + host + seq![']', ':'] + port) == host,
{
    let a = host + seq![':'] + port;
    let b = seq!['['] + host + seq![']', ':'] + port;
    let inner = seq!['['] + host + seq![']'];
    lemma_last_index_of(a, ':');
    lemma_last_index_of(b, ':');
    assert(a[host.len() as int] == ':');
    assert(b[host.len() as int + 2] == ':');
    assert forall|i: int| host.len() < i < a.len() implies a[i] != ':' by {
        assert(a[i] == port[i - host.len() - 1]);
        assert(port.contains(a[i]));
    }
    assert forall|i: int| host.len() + 2 < i < b.len() implies b[i] != ':' by {
        assert(b[i] == port[i - host.len() - 3]);
        assert(port.contains(b[i]));
    }
    assert(a.take(host.len() as int) =~= host);
    assert(b.take(host.len() as int + 2) =~= inner);
    assert(inner.skip(1) =~= host + seq![']']);
    assert((host + seq![']']).drop_last() =~= host);
    reveal_with_fuel(trim_brackets, 4);
}

/// What the answer of the registry stands for.
pub open spec fn acknowledged_as(ack: Ack, r: Result<(), String>) -> bool {
    &&& r is Ok <==> ack.ok
    &&& r matches Err(e) ==> e@ == (if ack.error@.len() == 0 {
        "registry error"@
    } else {
        ack.error@
    })
}

/// A positive answer is a success, and a negative one a failure with what the
/// registry said, never without a word.
pub proof fn law_refusals_are_failures(ack: Ack, r: Result<(), String>)
    requires
        acknowledged_as(ack, r),
    ensures
        r is Ok <==> ack.ok,
        r is Err ==> r->Err_0@.len() > 0,
        r is Err && ack.error@.len() > 0 ==> r->Err_0@ == ack.error@,
{
    reveal_strlit("registry error");
}

} // verus!
