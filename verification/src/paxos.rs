//! Single-key Paxos acceptors and the linearizable read path: a reader
//! prepares a ballot at the replicas and returns the value accepted under the
//! highest ballot among a quorum of promises.

use crate::collections::StrMap;
use crate::config::DistributedConfig;
use crate::consistency::ConsistencyError;
use crate::text::concat2;
use crate::time::Duration;
use vstd::prelude::*;

verus! {

/// Rounds that a read tries before it reports contention.
pub const MAX_ROUNDS: usize = 3;

/// Numbers ballots, starting at one.
pub struct BallotCounter {
    pub upcoming: u64,
}

impl BallotCounter {
    /// A fresh counter.
    pub fn new() -> (c: Self)
        ensures
            c.upcoming == 1,
    {
        BallotCounter { upcoming: 1 }
    }

    /// The next ballot; the count wraps around.
    pub fn next_ballot(&mut self) -> (b: u64)
        ensures
            numbered(*old(self), b, *final(self)),
    {
        let b: u64 = self.upcoming;
        self.upcoming = if b == u64::MAX {
            0
        } else {
            b + 1
        };
        b
    }
}

/// Dispatch label for a service's Paxos acceptor.
pub fn paxos_target(service: &str) -> (s: String)
    ensures
        s@ == "__paxos__"@ + service@,
{
    concat2("__paxos__", service)
}

/// A value together with the ballot it was accepted under.
pub type Accepted = Option<(u64, Vec<u8>)>;

/// The ballot and the bytes of an accepted value.
pub open spec fn accepted_view(a: Option<(u64, Vec<u8>)>) -> Option<(u64, Seq<u8>)> {
    match a {
        Some((b, v)) => Some((b, v@)),
        None => None,
    }
}

/// A copy of an accepted value.
fn clone_accepted(a: &Option<(u64, Vec<u8>)>) -> (r: Option<(u64, Vec<u8>)>)
    ensures
        accepted_view(r) == accepted_view(*a),
{
    match a {
        Some((b, v)) => Some((*b, v.clone())),
        None => None,
    }
}

/// Prepare phase message.
#[derive(Debug, PartialEq, Eq)]
pub struct Prepare {
    pub ballot: u64,
    pub key: String,
}

impl Clone for Prepare {
    fn clone(&self) -> (r: Self)
        ensures
            r == *self,
    {
        Prepare { ballot: self.ballot, key: self.key.clone() }
    }
}

/// Acceptor response to [`Prepare`] with the highest accepted value, if any.
#[derive(Debug, PartialEq, Eq)]
pub struct Promise {
    pub ballot: u64,
    pub accepted: Option<(u64, Vec<u8>)>,
}

impl Clone for Promise {
    fn clone(&self) -> (r: Self)
        ensures
            r.ballot == self.ballot,
            accepted_view(r.accepted) == accepted_view(self.accepted),
    {
        Promise { ballot: self.ballot, accepted: clone_accepted(&self.accepted) }
    }
}

/// Proposal of a value.
#[derive(Debug, PartialEq, Eq)]
pub struct Propose {
    pub ballot: u64,
    pub key: String,
    pub value: Vec<u8>,
}

impl Clone for Propose {
    fn clone(&self) -> (r: Self)
        ensures
            r.ballot == self.ballot,
            r.key == self.key,
            r.value@ == self.value@,
    {
        Propose { ballot: self.ballot, key: self.key.clone(), value: self.value.clone() }
    }
}

/// Acceptance of a proposal.
#[derive(Debug, Clone, Copy, PartialEq, Eq, Structural)]
pub struct Accept {
    pub ballot: u64,
}

/// Refusal of a ballot below the promised one.
#[derive(Debug, Clone, Copy, PartialEq, Eq, Structural)]
pub struct Reject {
    pub ballot: u64,
    pub higher: u64,
}

/// Announcement of a chosen value.
#[derive(Debug, PartialEq, Eq)]
pub struct Commit {
    pub ballot: u64,
    pub key: String,
    pub value: Vec<u8>,
}

impl Clone for Commit {
    fn clone(&self) -> (r: Self)
        ensures
            r.ballot == self.ballot,
            r.key == self.key,
            r.value@ == self.value@,
    {
        Commit { ballot: self.ballot, key: self.key.clone(), value: self.value.clone() }
    }
}

/// Messages between proposers and acceptors.
#[derive(Debug, PartialEq, Eq)]
pub enum PaxosWireMsg {
    Prepare(Prepare),
    Promise(Promise),
    Propose(Propose),
    Accept(Accept),
    Reject(Reject),
    Commit(Commit),
}

/// What an acceptor remembers about one key.
pub struct KeyState {
    pub highest_promised: u64,
    pub accepted: Option<(u64, Vec<u8>)>,
}

/// The promised ballot and the accepted value of one key.
pub ghost struct KeyView {
    pub promised: u64,
    pub accepted: Option<(u64, Seq<u8>)>,
}

impl View for KeyState {
    type V = KeyView;

    open spec fn view(&self) -> KeyView {
        KeyView { promised: self.highest_promised, accepted: accepted_view(self.accepted) }
    }
}

/// A key that no message has touched.
pub open spec fn fresh_key() -> KeyView {
    KeyView { promised: 0, accepted: None }
}

/// A key after a prepare.
pub open spec fn prepared(s: KeyView, ballot: u64) -> KeyView {
    if ballot >= s.promised {
        KeyView { promised: ballot, accepted: s.accepted }
    } else {
        s
    }
}

/// A key after a proposal.
pub open spec fn proposed(s: KeyView, ballot: u64, value: Seq<u8>) -> KeyView {
    if ballot >= s.promised {
        KeyView { promised: ballot, accepted: Some((ballot, value)) }
    } else {
        s
    }
}

/// A key after a value was put in place.
pub open spec fn injected(s: KeyView, ballot: u64, value: Seq<u8>) -> KeyView {
    KeyView {
        promised: if s.promised >= ballot {
            s.promised
        } else {
            ballot
        },
        accepted: Some((ballot, value)),
    }
}

/// A value is accepted under no more than the promised ballot.
pub open spec fn key_ok(s: KeyView) -> bool {
    s.accepted matches Some(a) ==> a.0 <= s.promised
}

/// Per-key Paxos acceptor state machine.
pub struct PaxosAcceptor {
    pub keys: StrMap<KeyState>,
}

/// What a message does to an acceptor, and the answer to it.
pub open spec fn answered(
    before: PaxosAcceptor,
    msg: PaxosWireMsg,
    after: PaxosAcceptor,
    reply: PaxosWireMsg,
) -> bool {
    match msg {
        PaxosWireMsg::Prepare(p) => {
            let s = before.state(p.key@);
            &&& after.state(p.key@) == prepared(s, p.ballot)
            &&& forall|k: Seq<char>| k != p.key@ ==> #[trigger] after.state(k) == before.state(k)
            &&& if p.ballot >= s.promised {
                reply matches PaxosWireMsg::Promise(q) && q.ballot == p.ballot && accepted_view(
                    q.accepted,
                ) == s.accepted
            } else {
                reply == PaxosWireMsg::Reject(Reject { ballot: p.ballot, higher: s.promised })
            }
        },
        PaxosWireMsg::Propose(p) => {
            let s = before.state(p.key@);
            &&& after.state(p.key@) == proposed(s, p.ballot, p.value@)
            &&& forall|k: Seq<char>| k != p.key@ ==> #[trigger] after.state(k) == before.state(k)
            &&& reply == (if p.ballot >= s.promised {
                PaxosWireMsg::Accept(Accept { ballot: p.ballot })
            } else {
                PaxosWireMsg::Reject(Reject { ballot: p.ballot, higher: s.promised })
            })
        },
        _ => after == before && reply == PaxosWireMsg::Reject(Reject { ballot: 0, higher: 0 }),
    }
}

/// What a request does to a Paxos node, and the answer to it.
pub open spec fn node_answered(
    before: PaxosNode,
    msg: PaxosMsg,
    after: PaxosNode,
    reply: Option<PaxosWireMsg>,
) -> bool {
    match msg {
        PaxosMsg::Rpc(wire) => reply matches Some(r) && answered(
            before.acceptor,
            wire,
            after.acceptor,
            r,
        ),
        PaxosMsg::Inject { key, ballot, value } => {
            &&& reply is None
            &&& put_in_place(before.acceptor, key@, ballot, value@, after.acceptor)
        },
    }
}

/// What putting an accepted value in place does.
pub open spec fn put_in_place(
    before: PaxosAcceptor,
    key: Seq<char>,
    ballot: u64,
    value: Seq<u8>,
    after: PaxosAcceptor,
) -> bool {
    &&& after.state(key) == injected(before.state(key), ballot, value)
    &&& forall|k: Seq<char>| k != key ==> #[trigger] after.state(k) == before.state(k)
}

impl Default for PaxosAcceptor {
    fn default() -> (a: Self)
        ensures
            a.wf(),
            forall|k: Seq<char>| #[trigger] a.state(k) == fresh_key(),
    {
        PaxosAcceptor { keys: StrMap::new() }
    }
}

impl PaxosAcceptor {
    /// The state of a key.
    pub open spec fn state(&self, key: Seq<char>) -> KeyView {
        if self.keys@.contains_key(key) {
            self.keys@[key]@
        } else {
            fresh_key()
        }
    }

    /// Every key keeps its accepted ballot within its promise.
    pub open spec fn wf(&self) -> bool {
        &&& self.keys.wf()
        &&& forall|k: Seq<char>| key_ok(#[trigger] self.state(k))
    }

    /// Makes sure that a key has a state.
    fn touch(&mut self, key: &str)
        requires
            old(self).wf(),
        ensures
            final(self).wf(),
            final(self).keys@.contains_key(key@),
            forall|k: Seq<char>| #[trigger] final(self).state(k) == old(self).state(k),
    {
        if !self.keys.contains_key(key) {
            let _ = self.keys.insert(
                key.to_string(),
                KeyState { highest_promised: 0, accepted: None },
            );
        }
        proof {
            assert forall|k: Seq<char>| key_ok(#[trigger] self.state(k)) by {
                assert(key_ok(old(self).state(k)));
            }
        }
    }

    /// Answers one message.
    pub fn handle(&mut self, msg: PaxosWireMsg) -> (reply: PaxosWireMsg)
        requires
            old(self).wf(),
        ensures
            final(self).wf(),
            answered(*old(self), msg, *final(self), reply),
    {
        match msg {
            PaxosWireMsg::Prepare(p) => self.prepare(p),
            PaxosWireMsg::Propose(p) => self.propose(p),
            _ => PaxosWireMsg::Reject(Reject { ballot: 0, higher: 0 }),
        }
    }

    /// Promises a ballot that is not below the promised one.
    fn prepare(&mut self, p: Prepare) -> (reply: PaxosWireMsg)
        requires
            old(self).wf(),
        ensures
            final(self).wf(),
            final(self).state(p.key@) == prepared(old(self).state(p.key@), p.ballot),
            forall|k: Seq<char>|
                k != p.key@ ==> #[trigger] final(self).state(k) == old(self).state(k),
            if p.ballot >= old(self).state(p.key@).promised {
                reply matches PaxosWireMsg::Promise(q) && q.ballot == p.ballot && accepted_view(
                    q.accepted,
                ) == old(self).state(p.key@).accepted
            } else {
                reply == PaxosWireMsg::Reject(
                    Reject { ballot: p.ballot, higher: old(self).state(p.key@).promised },
                )
            },
    {
        let ghost before = *self;
        self.touch(p.key.as_str());
        let ghost touched = *self;
        assert(touched.state(p.key@) == before.state(p.key@));
        let reply = match self.keys.get_mut(p.key.as_str()) {
            Some(state) => {
                if p.ballot >= state.highest_promised {
                    state.highest_promised = p.ballot;
                    let accepted = clone_accepted(&state.accepted);
                    PaxosWireMsg::Promise(Promise { ballot: p.ballot, accepted })
                } else {
                    PaxosWireMsg::Reject(
                        Reject { ballot: p.ballot, higher: state.highest_promised },
                    )
                }
            },
            None => PaxosWireMsg::Reject(Reject { ballot: 0, higher: 0 }),
        };
        proof {
            assert forall|k: Seq<char>| k != p.key@ implies #[trigger] self.state(k)
                == before.state(k) by {
                assert(touched.state(k) == before.state(k));
            }
            assert(self.state(p.key@) == prepared(before.state(p.key@), p.ballot));
            assert forall|k: Seq<char>| key_ok(#[trigger] self.state(k)) by {
                assert(key_ok(before.state(k)));
            }
        }
        reply
    }

    /// Accepts a proposal whose ballot is not below the promised one.
    fn propose(&mut self, p: Propose) -> (reply: PaxosWireMsg)
        requires
            old(self).wf(),
        ensures
            final(self).wf(),
            final(self).state(p.key@) == proposed(old(self).state(p.key@), p.ballot, p.value@),
            forall|k: Seq<char>|
                k != p.key@ ==> #[trigger] final(self).state(k) == old(self).state(k),
            reply == (if p.ballot >= old(self).state(p.key@).promised {
                PaxosWireMsg::Accept(Accept { ballot: p.ballot })
            } else {
                PaxosWireMsg::Reject(
                    Reject { ballot: p.ballot, higher: old(self).state(p.key@).promised },
                )
            }),
    {
        let ghost before = *self;
        let ghost value = p.value@;
        self.touch(p.key.as_str());
        let ghost touched = *self;
        assert(touched.state(p.key@) == before.state(p.key@));
        let reply = match self.keys.get_mut(p.key.as_str()) {
            Some(state) => {
                if p.ballot >= state.highest_promised {
                    state.highest_promised = p.ballot;
                    state.accepted = Some((p.ballot, p.value));
                    PaxosWireMsg::Accept(Accept { ballot: p.ballot })
                } else {
                    PaxosWireMsg::Reject(
                        Reject { ballot: p.ballot, higher: state.highest_promised },
                    )
                }
            },
            None => PaxosWireMsg::Reject(Reject { ballot: 0, higher: 0 }),
        };
        proof {
            assert forall|k: Seq<char>| k != p.key@ implies #[trigger] self.state(k)
                == before.state(k) by {
                assert(touched.state(k) == before.state(k));
            }
            assert(self.state(p.key@) == proposed(before.state(p.key@), p.ballot, value));
            assert forall|k: Seq<char>| key_ok(#[trigger] self.state(k)) by {
                assert(key_ok(before.state(k)));
            }
        }
        reply
    }

    /// Puts an accepted value in place; the promise never falls below it.
    pub fn inject_accepted(&mut self, key: &str, ballot: u64, value: Vec<u8>)
        requires
            old(self).wf(),
        ensures
            final(self).wf(),
            put_in_place(*old(self), key@, ballot, value@, *final(self)),
    {
        let ghost before = *self;
        let ghost bytes = value@;
        self.touch(key);
        let ghost touched = *self;
        assert(touched.state(key@) == before.state(key@));
        match self.keys.get_mut(key) {
            Some(state) => {
                if state.highest_promised < ballot {
                    state.highest_promised = ballot;
                }
                state.accepted = Some((ballot, value));
            },
            None => {},
        }
        proof {
            assert forall|k: Seq<char>| k != key@ implies #[trigger] self.state(k) == before.state(
                k,
            ) by {
                assert(touched.state(k) == before.state(k));
            }
            assert(self.state(key@) == injected(before.state(key@), ballot, bytes));
            assert forall|k: Seq<char>| key_ok(#[trigger] self.state(k)) by {
                assert(key_ok(before.state(k)));
            }
        }
    }
}

/// What a Paxos node is asked to do.
#[derive(Debug, PartialEq, Eq)]
pub enum PaxosMsg {
    /// Answer a protocol message.
    Rpc(PaxosWireMsg),
    /// Put an accepted value in place.
    Inject { key: String, ballot: u64, value: Vec<u8> },
}

/// Paxos acceptor of one service replica.
pub struct PaxosNode {
    pub acceptor: PaxosAcceptor,
}

impl Default for PaxosNode {
    fn default() -> (n: Self)
        ensures
            n.acceptor.wf(),
            forall|k: Seq<char>| #[trigger] n.acceptor.state(k) == fresh_key(),
    {
        PaxosNode { acceptor: PaxosAcceptor::default() }
    }
}

impl PaxosNode {
    /// Handles one message; protocol messages are answered.
    pub fn handle(&mut self, msg: PaxosMsg) -> (reply: Option<PaxosWireMsg>)
        requires
            old(self).acceptor.wf(),
        ensures
            final(self).acceptor.wf(),
            node_answered(*old(self), msg, *final(self), reply),
    {
        match msg {
            PaxosMsg::Rpc(wire) => Some(self.acceptor.handle(wire)),
            PaxosMsg::Inject { key, ballot, value } => {
                self.acceptor.inject_accepted(key.as_str(), ballot, value);
                None
            },
        }
    }
}

/// A Paxos replica endpoint.
#[derive(Debug, PartialEq, Eq)]
pub struct PaxosReplica {
    pub node_addr: String,
    pub target: String,
}

impl Clone for PaxosReplica {
    fn clone(&self) -> (r: Self)
        ensures
            r == *self,
    {
        PaxosReplica { node_addr: self.node_addr.clone(), target: self.target.clone() }
    }
}

impl PaxosReplica {
    /// The acceptor of `service` at `node_addr`.
    pub fn from_member(service: &str, node_addr: &str) -> (r: Self)
        ensures
            r.node_addr@ == node_addr@,
            r.target@ == "__paxos__"@ + service@,
    {
        PaxosReplica { node_addr: node_addr.to_string(), target: paxos_target(service) }
    }
}

/// The first value under the highest ballot.
pub open spec fn highest(accepted: Seq<Option<(u64, Seq<u8>)>>) -> Option<(u64, Seq<u8>)>
    decreases accepted.len(),
{
    if accepted.len() == 0 {
        None
    } else {
        let h = highest(accepted.drop_last());
        match accepted.last() {
            None => h,
            Some(a) => match h {
                None => Some(a),
                Some(b) => if a.0 > b.0 {
                    Some(a)
                } else {
                    Some(b)
                },
            },
        }
    }
}

/// What promises report as accepted.
pub open spec fn reported(promises: Seq<Promise>) -> Seq<Option<(u64, Seq<u8>)>> {
    Seq::new(promises.len(), |i: int| accepted_view(promises[i].accepted))
}

/// The bytes of the value that a read returns.
pub open spec fn value_bytes(v: Option<Vec<u8>>) -> Option<Seq<u8>> {
    match v {
        Some(b) => Some(b@),
        None => None,
    }
}

/// The value of the pair, if any.
pub open spec fn value_of(h: Option<(u64, Seq<u8>)>) -> Option<Seq<u8>> {
    match h {
        Some(a) => Some(a.1),
        None => None,
    }
}

/// The value accepted under the highest ballot among the promises.
pub fn highest_accepted(promises: &Vec<Promise>) -> (r: Option<Vec<u8>>)
    ensures
        value_bytes(r) == value_of(highest(reported(promises@))),
{
    let mut best: Option<(u64, Vec<u8>)> = None;
    let mut i: usize = 0;
    while i < promises.len()
        invariant
            i <= promises@.len(),
            accepted_view(best) == highest(reported(promises@).take(i as int)),
        decreases promises@.len() - i,
    {
        proof {
            let all = reported(promises@);
            assert(all.take(i as int + 1).drop_last() == all.take(i as int));
            assert(all.take(i as int + 1).last() == accepted_view(promises@[i as int].accepted));
        }
        match &promises[i].accepted {
            Some((b, v)) => {
                let better: bool = match &best {
                    None => true,
                    Some((hb, _)) => *b > *hb,
                };
                if better {
                    best = Some((*b, v.clone()));
                }
            },
            None => {},
        }
        i += 1;
    }
    assert(reported(promises@).take(promises@.len() as int) == reported(promises@));
    match best {
        Some((_, v)) => Some(v),
        None => None,
    }
}

/// What one prepare round brought in before its deadline.
pub struct RoundReport {
    pub promises: Vec<Promise>,
    pub saw_reject: bool,
}

impl RoundReport {
    /// Nothing yet.
    pub fn new() -> (r: Self)
        ensures
            r.promises@.len() == 0,
            !r.saw_reject,
    {
        RoundReport { promises: Vec::new(), saw_reject: false }
    }

    /// Takes in one reply; failed calls (`None`) and other messages count for
    /// nothing.
    pub fn absorb(&mut self, reply: Option<PaxosWireMsg>)
        ensures
            reply_absorbed(*old(self), reply, *final(self)),
    {
        match reply {
            Some(PaxosWireMsg::Promise(p)) => {
                self.promises.push(p);
            },
            Some(PaxosWireMsg::Reject(_)) => {
                self.saw_reject = true;
            },
            _ => {},
        }
    }
}

/// What follows a prepare round.
pub enum ReadStep {
    /// Try again with a higher ballot.
    NextRound,
    /// The read is over.
    Finish(Result<Option<Vec<u8>>, ConsistencyError>),
}

/// What follows a prepare round, by what it brought in.
pub open spec fn round_decided(
    round: usize,
    report: Option<RoundReport>,
    quorum: usize,
    timeout: Duration,
    s: ReadStep,
) -> bool {
    match report {
        None => s == ReadStep::Finish(Err(ConsistencyError::Timeout { after: timeout })),
        Some(r) => if r.promises@.len() >= quorum {
            s matches ReadStep::Finish(Ok(v)) && value_bytes(v) == value_of(
                highest(reported(r.promises@)),
            )
        } else if r.saw_reject {
            if round + 1 < MAX_ROUNDS {
                s is NextRound
            } else {
                s == ReadStep::Finish(
                    Err(ConsistencyError::PaxosContention { rounds: MAX_ROUNDS }),
                )
            }
        } else {
            s == ReadStep::Finish(
                Err(
                    ConsistencyError::NotEnoughAcks {
                        required: quorum,
                        received: r.promises@.len() as usize,
                        dc: None,
                    },
                ),
            )
        },
    }
}

/// Client-side Paxos proposer.
pub struct PaxosProposer {
    pub config: DistributedConfig,
}

impl Default for PaxosProposer {
    fn default() -> (p: Self)
        ensures
            p.config == (DistributedConfig {
                bridge_capacity: 32,
                max_in_flight: 32,
                max_frame_bytes: 4194304,
                read_timeout: Duration { secs: 30, nanos: 0 },
                remote_send_capacity: 32,
            }),
    {
        PaxosProposer { config: DistributedConfig::default() }
    }
}

impl PaxosProposer {
    /// A proposer.
    pub fn new(config: DistributedConfig) -> (p: Self)
        ensures
            p.config == config,
    {
        PaxosProposer { config }
    }

    /// Whether a read can start: there have to be enough replicas.
    pub fn begin_read(&self, replicas: usize, quorum: usize) -> (r: Result<(), ConsistencyError>)
        ensures
            r == (if replicas < quorum {
                Err::<(), ConsistencyError>(
                    ConsistencyError::NotEnoughReplicas { required: quorum, available: replicas },
                )
            } else {
                Ok(())
            }),
    {
        if replicas < quorum {
            return Err(
                ConsistencyError::NotEnoughReplicas { required: quorum, available: replicas },
            );
        }
        Ok(())
    }

    /// The prepare message of a round.
    pub fn prepare_message(&self, key: &str, ballot: u64) -> (m: PaxosWireMsg)
        ensures
            m matches PaxosWireMsg::Prepare(p) && p.ballot == ballot && p.key@ == key@,
    {
        PaxosWireMsg::Prepare(Prepare { ballot, key: key.to_string() })
    }

    /// What follows the round numbered `round` from zero; `report` is `None`
    /// where the deadline passed. A quorum of promises ends the read. A
    /// rejected ballot is retried with the next one, and contention is
    /// reported once the rounds are exhausted.
    pub fn decide_round(
        &self,
        round: usize,
        report: Option<RoundReport>,
        quorum: usize,
        timeout: Duration,
    ) -> (s: ReadStep)
        ensures
            round_decided(round, report, quorum, timeout, s),
    {
        match report {
            None => ReadStep::Finish(Err(ConsistencyError::Timeout { after: timeout })),
            Some(r) => {
                if r.promises.len() >= quorum {
                    ReadStep::Finish(Ok(highest_accepted(&r.promises)))
                } else if r.saw_reject {
                    if round < MAX_ROUNDS - 1 {
                        ReadStep::NextRound
                    } else {
                        ReadStep::Finish(
                            Err(ConsistencyError::PaxosContention { rounds: MAX_ROUNDS }),
                        )
                    }
                } else {
                    ReadStep::Finish(
                        Err(
                            ConsistencyError::NotEnoughAcks {
                                required: quorum,
                                received: r.promises.len(),
                                dc: None,
                            },
                        ),
                    )
                }
            },
        }
    }
}

/// The prepare answer in transit. A zero accepted ballot stands for no
/// accepted value; a refusal carries the higher ballot in its place.
#[derive(Debug, PartialEq, Eq)]
pub struct PromiseReply {
    pub ballot: u64,
    pub promised: bool,
    pub accepted_ballot: u64,
    pub accepted_value: Vec<u8>,
}

/// The propose answer in transit.
#[derive(Debug, PartialEq, Eq)]
pub struct AcceptReply {
    pub accepted: bool,
    pub higher_ballot: u64,
}

/// Whether `q` is the answer `resp` to a prepare, packed for transit.
pub open spec fn promise_packed(resp: PaxosWireMsg, q: PromiseReply) -> bool {
    match resp {
        PaxosWireMsg::Promise(p) => q.promised && q.ballot == p.ballot && (
        q.accepted_ballot, q.accepted_value@) == (match accepted_view(p.accepted) {
            Some(a) => a,
            None => (0u64, Seq::<u8>::empty()),
        }),
        PaxosWireMsg::Reject(j) => !q.promised && q.ballot == j.ballot && q.accepted_ballot
            == j.higher && q.accepted_value@.len() == 0,
        _ => false,
    }
}

/// Whether `m` is what the reply to a prepare of `ballot` stands for.
pub open spec fn promise_unpacked(ballot: u64, reply: PromiseReply, m: PaxosWireMsg) -> bool {
    if reply.promised {
        m matches PaxosWireMsg::Promise(p) && p.ballot == reply.ballot && accepted_view(p.accepted)
            == (if reply.accepted_ballot > 0 {
            Some((reply.accepted_ballot, reply.accepted_value@))
        } else {
            None
        })
    } else {
        m == PaxosWireMsg::Reject(Reject { ballot, higher: reply.accepted_ballot })
    }
}

/// An answer to a prepare survives transit. A value accepted under ballot zero,
/// which no proposer uses, would arrive as no value.
pub proof fn law_promise_survives_transit(
    sent: PaxosWireMsg,
    reply: PromiseReply,
    ballot: u64,
    arrived: PaxosWireMsg,
)
    requires
        promise_packed(sent, reply),
        promise_unpacked(ballot, reply, arrived),
        sent matches PaxosWireMsg::Promise(p) ==> (p.accepted matches Some(a) ==> a.0 > 0),
    ensures
        match sent {
            PaxosWireMsg::Promise(p) => arrived matches PaxosWireMsg::Promise(q) && q.ballot
                == p.ballot && accepted_view(q.accepted) == accepted_view(p.accepted),
            PaxosWireMsg::Reject(j) => arrived == PaxosWireMsg::Reject(
                Reject { ballot, higher: j.higher },
            ),
            _ => false,
        },
{
}

/// Packs the answer to a prepare for transit.
pub fn promise_reply(resp: PaxosWireMsg) -> (r: Result<PromiseReply, String>)
    ensures
        match r {
            Ok(q) => promise_packed(resp, q),
            Err(e) => !(resp is Promise || resp is Reject) && e@
                == "unexpected paxos prepare response"@,
        },
{
    match resp {
        PaxosWireMsg::Promise(p) => {
            let (accepted_ballot, accepted_value): (u64, Vec<u8>) = match p.accepted {
                Some((b, v)) => (b, v),
                None => (0, Vec::new()),
            };
            Ok(PromiseReply { ballot: p.ballot, promised: true, accepted_ballot, accepted_value })
        },
        PaxosWireMsg::Reject(j) => Ok(
            PromiseReply {
                ballot: j.ballot,
                promised: false,
                accepted_ballot: j.higher,
                accepted_value: Vec::new(),
            },
        ),
        _ => Err("unexpected paxos prepare response".to_string()),
    }
}

/// Packs the answer to a proposal for transit.
pub fn accept_reply(resp: PaxosWireMsg) -> (r: Result<AcceptReply, String>)
    ensures
        accept_packed(resp, r),
{
    match resp {
        PaxosWireMsg::Accept(a) => Ok(AcceptReply { accepted: true, higher_ballot: a.ballot }),
        PaxosWireMsg::Reject(j) => Ok(AcceptReply { accepted: false, higher_ballot: j.higher }),
        _ => Err("unexpected paxos propose response".to_string()),
    }
}

/// The message that a reply to a prepare of `ballot` stands for.
pub fn unpack_promise(ballot: u64, reply: PromiseReply) -> (m: PaxosWireMsg)
    ensures
        promise_unpacked(ballot, reply, m),
{
    if reply.promised {
        let accepted: Option<(u64, Vec<u8>)> = if reply.accepted_ballot > 0 {
            Some((reply.accepted_ballot, reply.accepted_value))
        } else {
            None
        };
        PaxosWireMsg::Promise(Promise { ballot: reply.ballot, accepted })
    } else {
        PaxosWireMsg::Reject(Reject { ballot, higher: reply.accepted_ballot })
    }
}

/// What a single prepare round returns, by what it brought in.
pub open spec fn single_round_decided(
    replies: Option<Vec<PromiseReply>>,
    quorum: usize,
    timeout: Duration,
    r: Result<Option<Vec<u8>>, ConsistencyError>,
) -> bool {
    match replies {
        None => r == Err::<Option<Vec<u8>>, ConsistencyError>(
            ConsistencyError::Timeout { after: timeout },
        ),
        Some(v) => {
            let granted = v@.filter(|p: PromiseReply| p.promised);
            if granted.len() >= quorum {
                r matches Ok(x) && value_bytes(x) == value_of(highest(transit_reported(granted)))
            } else {
                r == Err::<Option<Vec<u8>>, ConsistencyError>(
                    ConsistencyError::NotEnoughAcks {
                        required: quorum,
                        received: granted.len() as usize,
                        dc: None,
                    },
                )
            }
        },
    }
}

/// What a single prepare round over established connections returns; `None`
/// stands for a passed deadline. Refusals count for nothing here.
pub fn single_round_result(
    ballot: u64,
    replies: Option<Vec<PromiseReply>>,
    quorum: usize,
    timeout: Duration,
) -> (r: Result<Option<Vec<u8>>, ConsistencyError>)
    ensures
        single_round_decided(replies, quorum, timeout, r),
{
    match replies {
        None => Err(ConsistencyError::Timeout { after: timeout }),
        Some(v) => {
            let mut rest = v;
            let ghost all = rest@;
            let ghost pred = |p: PromiseReply| p.promised;
            let ghost mut done: int = 0;
            let mut promises: Vec<Promise> = Vec::new();
            proof {
                reveal(Seq::filter);
                assert(all.take(0).filter(pred) =~= Seq::<PromiseReply>::empty());
                assert(all.skip(0) =~= all);
            }
            while rest.len() > 0
                invariant
                    0 <= done <= all.len(),
                    rest@ == all.skip(done),
                    pred == (|p: PromiseReply| p.promised),
                    reported(promises@) == transit_reported(all.take(done).filter(pred)),
                decreases rest@.len(),
            {
                let reply = rest.remove(0);
                let ghost current = reply;
                let ghost before = promises@;
                proof {
                    crate::distributed::lemma_filter_step(all, pred, done);
                    assert(reply == all[done]);
                    assert(rest@ =~= all.skip(done + 1));
                }
                if reply.promised {
                    match unpack_promise(ballot, reply) {
                        PaxosWireMsg::Promise(p) => {
                            promises.push(p);
                            proof {
                                let f = all.take(done).filter(pred);
                                assert(reported(before).len() == f.len());
                                assert(reported(promises@) =~= reported(before).push(
                                    accepted_view(p.accepted),
                                ));
                                assert(transit_reported(f.push(current)) =~= transit_reported(
                                    f,
                                ).push(accepted_view(p.accepted)));
                            }
                        },
                        _ => {},
                    }
                }
                proof {
                    done = done + 1;
                }
            }
            proof {
                assert(all.take(all.len() as int) =~= all);
                assert(reported(promises@).len() == all.filter(pred).len());
            }
            if promises.len() >= quorum {
                Ok(highest_accepted(&promises))
            } else {
                Err(
                    ConsistencyError::NotEnoughAcks {
                        required: quorum,
                        received: promises.len(),
                        dc: None,
                    },
                )
            }
        },
    }
}

/// What replies in transit report as accepted.
pub open spec fn transit_reported(replies: Seq<PromiseReply>) -> Seq<Option<(u64, Seq<u8>)>> {
    Seq::new(
        replies.len(),
        |i: int|
            if replies[i].accepted_ballot > 0 {
                Some((replies[i].accepted_ballot, replies[i].accepted_value@))
            } else {
                None
            },
    )
}

/// A promise only rises: no message lowers it, and whatever is accepted stays
/// within it.
pub proof fn law_promise_never_falls(s: KeyView, ballot: u64, value: Seq<u8>)
    requires
        key_ok(s),
    ensures
        prepared(s, ballot).promised >= s.promised,
        proposed(s, ballot, value).promised >= s.promised,
        injected(s, ballot, value).promised >= s.promised,
        key_ok(prepared(s, ballot)),
        key_ok(proposed(s, ballot, value)),
        key_ok(injected(s, ballot, value)),
{
}

/// After a ballot was promised, proposals and prepares below it change
/// nothing.
pub proof fn law_promise_shuts_out_lower_ballots(
    s: KeyView,
    ballot: u64,
    lower: u64,
    value: Seq<u8>,
)
    requires
        ballot >= s.promised,
        lower < ballot,
    ensures
        prepared(prepared(s, ballot), lower) == prepared(s, ballot),
        proposed(prepared(s, ballot), lower, value) == prepared(s, ballot),
{
}

/// The highest of a list is at least as high as each of its members, and is
/// one of them.
pub proof fn lemma_highest(accepted: Seq<Option<(u64, Seq<u8>)>>)
    ensures
        forall|i: int|
            0 <= i < accepted.len() && (#[trigger] accepted[i]) is Some ==> highest(accepted)
                is Some && (highest(accepted)->0).0 >= (accepted[i]->0).0,
        highest(accepted) is Some ==> accepted.contains(highest(accepted)),
    decreases accepted.len(),
{
    if accepted.len() > 0 {
        let d = accepted.drop_last();
        lemma_highest(d);
        assert forall|i: int| 0 <= i < accepted.len() && (#[trigger] accepted[i]) is Some implies
            highest(accepted) is Some && (highest(accepted)->0).0 >= (accepted[i]->0).0 by {
            if i < d.len() {
                assert(d[i] == accepted[i]);
            }
        }
        if highest(accepted) is Some {
            if highest(accepted) == highest(d) {
                let j = d.index_of(highest(d));
                assert(d.contains(highest(d)));
                assert(accepted[j] == highest(accepted));
            } else {
                assert(accepted[accepted.len() - 1] == highest(accepted));
            }
        }
    }
}

/// A read never misses a value that a quorum has accepted: where the replicas
/// in `written` have accepted under `ballot` or higher and the replicas in
/// `asked` answered, with more of the two together than there are replicas, the
/// read returns a value accepted under `ballot` or higher by a replica it asked.
pub proof fn law_read_sees_quorum_writes(
    states: Seq<KeyView>,
    written: Set<int>,
    asked: Seq<int>,
    ballot: u64,
)
    requires
        asked.no_duplicates(),
        forall|i: int| 0 <= i < asked.len() ==> 0 <= #[trigger] asked[i] < states.len(),
        forall|r: int| #[trigger] written.contains(r) ==> 0 <= r < states.len(),
        forall|r: int| #[trigger]
            written.contains(r) ==> states[r].accepted is Some && (states[r].accepted->0).0 >= ballot,
        written.len() + asked.len() > states.len(),
    ensures
        ({
            let seen = Seq::new(asked.len(), |i: int| states[asked[i]].accepted);
            highest(seen) is Some && (highest(seen)->0).0 >= ballot && seen.contains(highest(seen))
        }),
{
    let n = states.len() as int;
    let all = vstd::set_lib::set_int_range(0, n);
    vstd::set_lib::lemma_int_range(0, n);
    asked.unique_seq_to_set();
    assert(written.subset_of(all));
    assert(asked.to_set().subset_of(all));
    crate::consistency::law_read_meets_write(all, written, asked.to_set());
    let r = choose|r: int| written.contains(r) && asked.to_set().contains(r);
    let seen = Seq::new(asked.len(), |i: int| states[asked[i]].accepted);
    let i = asked.index_of(r);
    assert(asked.contains(r));
    assert(seen[i] == states[r].accepted);
    lemma_highest(seen);
}

/// A proposal that is answered with an acceptance is remembered, with its ballot
/// and its value: whoever prepares the key next under the same ballot or a higher
/// one is told of it. It is accepted exactly if its ballot is not below what was
/// promised; one that is refused changes nothing.
pub proof fn law_accepted_proposals_are_remembered(
    before: PaxosAcceptor,
    p: Propose,
    after: PaxosAcceptor,
    reply: PaxosWireMsg,
    q: Prepare,
    later: PaxosAcceptor,
    answer: PaxosWireMsg,
)
    requires
        answered(before, PaxosWireMsg::Propose(p), after, reply),
        answered(after, PaxosWireMsg::Prepare(q), later, answer),
        q.key@ == p.key@,
        q.ballot >= p.ballot,
    ensures
        reply is Accept <==> p.ballot >= before.state(p.key@).promised,
        reply is Accept ==> {
            &&& reply == PaxosWireMsg::Accept(Accept { ballot: p.ballot })
            &&& after.state(p.key@).accepted == Some((p.ballot, p.value@))
            &&& after.state(p.key@).promised == p.ballot
            &&& answer matches PaxosWireMsg::Promise(r)
            &&& r.ballot == q.ballot
            &&& r.accepted matches Some(a)
            &&& a.0 == p.ballot
            &&& a.1@ == p.value@
        },
        !(reply is Accept) ==> {
            &&& reply == PaxosWireMsg::Reject(
                Reject { ballot: p.ballot, higher: before.state(p.key@).promised },
            )
            &&& after.state(p.key@).accepted == before.state(p.key@).accepted
            &&& after.state(p.key@).promised == before.state(p.key@).promised
        },
{
}

/// A prepare that is answered with a promise shuts out every lower ballot from
/// then on: a proposal or a prepare below it is refused, and is told the ballot
/// that was promised. The promise tells what was accepted, and preparing accepts
/// nothing itself.
pub proof fn law_promises_are_kept(
    before: PaxosAcceptor,
    p: Prepare,
    after: PaxosAcceptor,
    reply: PaxosWireMsg,
    msg: PaxosWireMsg,
    later: PaxosAcceptor,
    answer: PaxosWireMsg,
)
    requires
        answered(before, PaxosWireMsg::Prepare(p), after, reply),
        reply is Promise,
        answered(after, msg, later, answer),
        match msg {
            PaxosWireMsg::Propose(x) => x.key@ == p.key@ && x.ballot < p.ballot,
            PaxosWireMsg::Prepare(x) => x.key@ == p.key@ && x.ballot < p.ballot,
            _ => false,
        },
    ensures
        after.state(p.key@).promised == p.ballot,
        after.state(p.key@).accepted == before.state(p.key@).accepted,
        reply matches PaxosWireMsg::Promise(r) && r.ballot == p.ballot && accepted_view(r.accepted)
            == before.state(p.key@).accepted,
        answer matches PaxosWireMsg::Reject(r) && r.higher == p.ballot,
        later.state(p.key@) == after.state(p.key@),
{
}

/// Keys are apart: whatever an acceptor is asked about one key, it remembers of
/// every other key what it did.
pub proof fn law_keys_are_apart(
    before: PaxosAcceptor,
    msg: PaxosWireMsg,
    after: PaxosAcceptor,
    reply: PaxosWireMsg,
    other: Seq<char>,
)
    requires
        answered(before, msg, after, reply),
        msg matches PaxosWireMsg::Prepare(p) ==> p.key@ != other,
        msg matches PaxosWireMsg::Propose(p) ==> p.key@ != other,
    ensures
        after.state(other).promised == before.state(other).promised,
        after.state(other).accepted == before.state(other).accepted,
        !(msg is Prepare || msg is Propose) ==> reply is Reject,
{
}

/// What an acceptor accepted under a ballot is never lost to a lower one: through
/// any messages, once a value was accepted under a ballot, the accepted value is
/// one of that ballot or a higher one, and so is the promise.
pub proof fn law_acceptance_never_falls(
    states: Seq<PaxosAcceptor>,
    msgs: Seq<PaxosWireMsg>,
    replies: Seq<PaxosWireMsg>,
    key: Seq<char>,
    ballot: u64,
)
    requires
        states.len() == msgs.len() + 1,
        replies.len() == msgs.len(),
        states[0].wf(),
        forall|i: int|
            0 <= i < msgs.len() ==> answered(#[trigger] states[i], msgs[i], states[i + 1], replies[i]),
        states[0].state(key).accepted matches Some(a) && a.0 >= ballot,
    ensures
        states.last().state(key).accepted matches Some(a) && a.0 >= ballot,
        states.last().state(key).promised >= ballot,
    decreases msgs.len(),
{
    lemma_run_keeps_order(states, msgs, replies, key, ballot);
}

/// The state after a run is ordered, and its accepted ballot has not fallen.
proof fn lemma_run_keeps_order(
    states: Seq<PaxosAcceptor>,
    msgs: Seq<PaxosWireMsg>,
    replies: Seq<PaxosWireMsg>,
    key: Seq<char>,
    ballot: u64,
)
    requires
        states.len() == msgs.len() + 1,
        replies.len() == msgs.len(),
        states[0].wf(),
        forall|i: int|
            0 <= i < msgs.len() ==> answered(#[trigger] states[i], msgs[i], states[i + 1], replies[i]),
        states[0].state(key).accepted matches Some(a) && a.0 >= ballot,
    ensures
        key_ok(states.last().state(key)),
        states.last().state(key).accepted matches Some(a) && a.0 >= ballot,
        states.last().state(key).promised >= ballot,
    decreases msgs.len(),
{
    let n = msgs.len() as int;
    assert(key_ok(states[0].state(key)));
    if n > 0 {
        let s2 = states.drop_last();
        let m2 = msgs.drop_last();
        let r2 = replies.drop_last();
        assert forall|i: int| 0 <= i < m2.len() implies answered(
            #[trigger] s2[i],
            m2[i],
            s2[i + 1],
            r2[i],
        ) by {
            assert(answered(states[i], msgs[i], states[i + 1], replies[i]));
        }
        lemma_run_keeps_order(s2, m2, r2, key, ballot);
        assert(answered(states[n - 1], msgs[n - 1], states[n - 1 + 1], replies[n - 1]));
        assert(s2.last() == states[n - 1]);
        let b = states[n - 1];
        let a = states[n];
        match msgs[n - 1] {
            PaxosWireMsg::Prepare(p) => {
                if p.key@ != key {
                    assert(a.state(key) == b.state(key));
                }
            },
            PaxosWireMsg::Propose(p) => {
                if p.key@ != key {
                    assert(a.state(key) == b.state(key));
                }
            },
            _ => {},
        }
    }
}

/// A linearizable read does not miss a write. Where the replicas in `written`
/// answered a proposal of a value under `ballot` with an acceptance, whatever
/// they were asked afterwards, and a reader has promises from the replicas in
/// `asked`, of which there are a quorum, and more of the two together than there
/// are replicas, the read ends with a value, and that value was accepted under
/// that ballot or a higher one by a replica that was asked.
pub proof fn law_serial_read_returns_an_accepted_write(
    accepting: Seq<PaxosAcceptor>,
    accepted: Seq<PaxosAcceptor>,
    proposal: Propose,
    answers: Seq<PaxosWireMsg>,
    runs: Seq<Seq<PaxosAcceptor>>,
    msgs: Seq<Seq<PaxosWireMsg>>,
    replies: Seq<Seq<PaxosWireMsg>>,
    written: Set<int>,
    asked: Seq<int>,
    report: RoundReport,
    round: usize,
    quorum: usize,
    timeout: Duration,
    step: ReadStep,
)
    requires
        accepted.len() == accepting.len(),
        answers.len() == accepting.len(),
        runs.len() == accepting.len(),
        msgs.len() == accepting.len(),
        replies.len() == accepting.len(),
        forall|r: int| #[trigger]
            written.contains(r) ==> 0 <= r < accepting.len() && accepted[r].wf() && answered(
                accepting[r],
                PaxosWireMsg::Propose(proposal),
                accepted[r],
                answers[r],
            ) && answers[r] is Accept && runs[r].len() == msgs[r].len() + 1 && replies[r].len()
                == msgs[r].len() && runs[r][0] == accepted[r] && (forall|i: int|
                0 <= i < msgs[r].len() ==> answered(
                    #[trigger] runs[r][i],
                    msgs[r][i],
                    runs[r][i + 1],
                    replies[r][i],
                )),
        asked.no_duplicates(),
        asked.len() == report.promises@.len(),
        asked.len() >= quorum,
        forall|i: int|
            0 <= i < asked.len() ==> 0 <= #[trigger] asked[i] < accepting.len() && accepted_view(
                report.promises@[i].accepted,
            ) == runs[asked[i]].last().state(proposal.key@).accepted,
        written.len() + asked.len() > accepting.len(),
        round_decided(round, Some(report), quorum, timeout, step),
    ensures
        step matches ReadStep::Finish(Ok(Some(v))) && exists|i: int, b: u64|
            0 <= i < asked.len() && b >= proposal.ballot && #[trigger] runs[asked[i]].last().state(
                proposal.key@,
            ).accepted == Some((b, v@)) && #[trigger] at_least(b, proposal.ballot),
{
    let key = proposal.key@;
    let states = Seq::new(
        accepting.len(),
        |r: int| runs[r].last().state(key),
    );
    assert forall|r: int| #[trigger] written.contains(r) implies 0 <= r < states.len()
        && states[r].accepted is Some && (states[r].accepted->0).0 >= proposal.ballot by {
        law_acceptance_never_falls(runs[r], msgs[r], replies[r], key, proposal.ballot);
    }
    law_read_sees_quorum_writes(states, written, asked, proposal.ballot);
    let seen = Seq::new(asked.len(), |i: int| states[asked[i]].accepted);
    assert(seen =~= reported(report.promises@)) by {
        assert forall|i: int| 0 <= i < asked.len() implies seen[i] == reported(report.promises@)[i] by {
            assert(0 <= asked[i] < accepting.len());
        }
    }
    let i = seen.index_of(highest(seen));
    let b = (highest(seen)->0).0;
    assert(seen[i] == highest(seen));
    assert(at_least(b, proposal.ballot));
    assert(runs[asked[i]].last().state(key).accepted == seen[i]);
}

/// A ballot is another one or a higher one.
pub open spec fn at_least(b: u64, ballot: u64) -> bool {
    b >= ballot
}

/// A read ends with a value exactly if a quorum promised in time. The value is
/// then that of the highest ballot which any of the promises reports, and there
/// is none only where no promise reports one. Fewer promises are an error or, as
/// long as there are rounds left and a ballot was refused, another round.
pub proof fn law_quorum_of_promises_decides_a_read(
    round: usize,
    report: Option<RoundReport>,
    quorum: usize,
    timeout: Duration,
    step: ReadStep,
)
    requires
        round_decided(round, report, quorum, timeout, step),
    ensures
        step matches ReadStep::Finish(r) ==> (r is Ok <==> report is Some
            && report->0.promises@.len() >= quorum),
        step matches ReadStep::Finish(Ok(v)) ==> {
            let ps = report->0.promises@;
            &&& v is None ==> forall|i: int| 0 <= i < ps.len() ==> (#[trigger] ps[i]).accepted is None
            &&& v matches Some(x) ==> exists|i: int|
                {
                    &&& 0 <= i < ps.len()
                    &&& (#[trigger] ps[i]).accepted is Some
                    &&& (ps[i].accepted->0).1@ == x@
                    &&& forall|j: int|
                        0 <= j < ps.len() && (#[trigger] ps[j]).accepted is Some ==> (
                        ps[j].accepted->0).0 <= (ps[i].accepted->0).0
                }
        },
        step is NextRound ==> report is Some && report->0.promises@.len() < quorum
            && report->0.saw_reject && round < 2,
        report is None ==> step == ReadStep::Finish(
            Err(ConsistencyError::Timeout { after: timeout }),
        ),
        report is Some && report->0.promises@.len() < quorum && report->0.saw_reject && round >= 2
            ==> step == ReadStep::Finish(Err(ConsistencyError::PaxosContention { rounds: 3 })),
        report is Some && report->0.promises@.len() < quorum && !report->0.saw_reject ==> step
            == ReadStep::Finish(
            Err(
                ConsistencyError::NotEnoughAcks {
                    required: quorum,
                    received: report->0.promises@.len() as usize,
                    dc: None,
                },
            ),
        ),
{
    if let ReadStep::Finish(Ok(v)) = step {
        let ps = report->0.promises@;
        let all = reported(ps);
        lemma_highest(all);
        assert forall|i: int| 0 <= i < ps.len() implies accepted_view((#[trigger] ps[i]).accepted)
            == all[i] by {}
        if v is Some {
            let i = all.index_of(highest(all));
            assert(all[i] == highest(all));
            assert(accepted_view(ps[i].accepted) == all[i]);
            assert forall|j: int| 0 <= j < ps.len() && (#[trigger] ps[j]).accepted is Some implies (
            ps[j].accepted->0).0 <= (ps[i].accepted->0).0 by {
                assert(all[j] is Some);
            }
        } else {
            assert forall|i: int| 0 <= i < ps.len() implies (#[trigger] ps[i]).accepted is None by {
                if ps[i].accepted is Some {
                    assert(all[i] is Some);
                }
            }
        }
    }
}

/// A single round decides as a round of messages does: with a quorum of granted
/// replies it returns the value of the highest ballot among them, and a refusal
/// counts for nothing.
pub proof fn law_single_round_returns_the_highest(
    replies: Vec<PromiseReply>,
    quorum: usize,
    timeout: Duration,
    r: Result<Option<Vec<u8>>, ConsistencyError>,
)
    requires
        single_round_decided(Some(replies), quorum, timeout, r),
    ensures
        r is Ok <==> replies@.filter(|p: PromiseReply| p.promised).len() >= quorum,
        r matches Ok(Some(v)) ==> exists|i: int|
            {
                &&& 0 <= i < replies@.len()
                &&& (#[trigger] replies@[i]).promised
                &&& replies@[i].accepted_ballot > 0
                &&& replies@[i].accepted_value@ == v@
                &&& forall|j: int|
                    0 <= j < replies@.len() && (#[trigger] replies@[j]).promised
                        ==> replies@[j].accepted_ballot <= replies@[i].accepted_ballot
            },
        r matches Ok(None) ==> forall|i: int|
            0 <= i < replies@.len() && (#[trigger] replies@[i]).promised
                ==> replies@[i].accepted_ballot == 0,
{
    let pred = |p: PromiseReply| p.promised;
    let granted = replies@.filter(pred);
    if r is Ok {
        let all = transit_reported(granted);
        lemma_highest(all);
        assert forall|j: int| 0 <= j < replies@.len() && (#[trigger] replies@[j]).promised implies ({
            let k = granted.index_of(replies@[j]);
            0 <= k < granted.len() && granted[k] == replies@[j]
        }) by {
            replies@.lemma_filter_contains(pred, j);
        }
        if r->Ok_0 is Some {
            let k = all.index_of(highest(all));
            assert(all[k] == highest(all));
            let x = granted[k];
            assert(granted.contains(x));
            replies@.lemma_filter_contains_rev(pred, x);
            let i = replies@.index_of(x);
            assert(replies@[i] == x);
            replies@.lemma_filter_pred(pred, k);
            assert forall|j: int| 0 <= j < replies@.len() && (
            #[trigger] replies@[j]).promised implies replies@[j].accepted_ballot
                <= replies@[i].accepted_ballot by {
                let m = granted.index_of(replies@[j]);
                assert(granted[m] == replies@[j]);
                if replies@[j].accepted_ballot > 0 {
                    assert(all[m] is Some);
                }
            }
        } else {
            assert forall|i: int| 0 <= i < replies@.len() && (
            #[trigger] replies@[i]).promised implies replies@[i].accepted_ballot == 0 by {
                let m = granted.index_of(replies@[i]);
                assert(granted[m] == replies@[i]);
                if replies@[i].accepted_ballot > 0 {
                    assert(all[m] is Some);
                }
            }
        }
    }
}

/// A value that is put in place is what the next prepare of the key is told, and
/// shuts out lower ballots like an accepted one.
pub proof fn law_value_in_place_is_reported(
    before: PaxosAcceptor,
    key: Seq<char>,
    ballot: u64,
    value: Seq<u8>,
    after: PaxosAcceptor,
    q: Prepare,
    later: PaxosAcceptor,
    answer: PaxosWireMsg,
)
    requires
        put_in_place(before, key, ballot, value, after),
        answered(after, PaxosWireMsg::Prepare(q), later, answer),
        q.key@ == key,
    ensures
        answer is Promise <==> q.ballot >= ballot && q.ballot >= before.state(key).promised,
        answer matches PaxosWireMsg::Promise(r) ==> r.accepted matches Some(a) && a.0 == ballot
            && a.1@ == value,
{
}

/// A ballot was numbered: the next one is one higher, and wraps around.
pub open spec fn numbered(before: BallotCounter, b: u64, after: BallotCounter) -> bool {
    &&& b == before.upcoming
    &&& after.upcoming == (if before.upcoming == u64::MAX {
        0
    } else {
        (before.upcoming + 1) as u64
    })
}

/// A reply was taken into the report of a round.
pub open spec fn reply_absorbed(
    before: RoundReport,
    reply: Option<PaxosWireMsg>,
    after: RoundReport,
) -> bool {
    &&& after.promises@ == (match reply {
        Some(PaxosWireMsg::Promise(p)) => before.promises@.push(p),
        _ => before.promises@,
    })
    &&& after.saw_reject == (before.saw_reject || (reply matches Some(
        PaxosWireMsg::Reject(_),
    )))
}

/// The answer to a proposal, packed for transit.
pub open spec fn accept_packed(resp: PaxosWireMsg, r: Result<AcceptReply, String>) -> bool {
    match resp {
        PaxosWireMsg::Accept(a) => r == Ok::<AcceptReply, String>(
            AcceptReply { accepted: true, higher_ballot: a.ballot },
        ),
        PaxosWireMsg::Reject(j) => r == Ok::<AcceptReply, String>(
            AcceptReply { accepted: false, higher_ballot: j.higher },
        ),
        _ => r matches Err(e) && e@ == "unexpected paxos propose response"@,
    }
}

/// The second of two ballots is the higher one, until the count wraps around.
pub proof fn law_ballots_rise(
    a: BallotCounter,
    first: u64,
    b: BallotCounter,
    second: u64,
    c: BallotCounter,
)
    requires
        numbered(a, first, b),
        numbered(b, second, c),
        a.upcoming < u64::MAX,
    ensures
        first == a.upcoming,
        second == first + 1,
{
}

/// A report of a round holds every promise that came in, in order, and nothing
/// else counts for it; one reject is enough to have seen one. `states` holds the
/// report before each reply and after the last one.
pub proof fn law_every_promise_counts(
    states: Seq<RoundReport>,
    replies: Seq<Option<PaxosWireMsg>>,
    k: int,
)
    requires
        states.len() == replies.len() + 1,
        states[0].promises@.len() == 0,
        !states[0].saw_reject,
        forall|i: int|
            0 <= i < replies.len() ==> reply_absorbed(
                #[trigger] states[i],
                replies[i],
                states[i + 1],
            ),
        0 <= k < replies.len(),
    ensures
        replies[k] matches Some(PaxosWireMsg::Promise(p)) ==> states.last().promises@.contains(p),
        replies[k] matches Some(PaxosWireMsg::Reject(_)) ==> states.last().saw_reject,
        forall|p: Promise| #[trigger]
            states.last().promises@.contains(p) ==> exists|j: int|
                0 <= j < replies.len() && #[trigger] replies[j] == Some(PaxosWireMsg::Promise(p)),
        states.last().saw_reject ==> exists|j: int|
            0 <= j < replies.len() && (#[trigger] replies[j]) is Some && replies[j]->0 is Reject,
    decreases replies.len(),
{
    let n = replies.len() - 1;
    let s = states.drop_last();
    let r = replies.drop_last();
    assert(reply_absorbed(states[n], replies[n], states[n + 1]));
    assert(s.last() == states[n]);
    assert(states.last() == states[n + 1]);
    let before = states[n].promises@;
    let after = states[n + 1].promises@;
    assert forall|i: int| 0 <= i < r.len() implies reply_absorbed(
        #[trigger] s[i],
        r[i],
        s[i + 1],
    ) by {
        assert(reply_absorbed(states[i], replies[i], states[i + 1]));
    }
    if let Some(PaxosWireMsg::Promise(p)) = replies[n] {
        assert(after.last() == p);
    }
    if n > 0 {
        let c = if k < n {
            k
        } else {
            0
        };
        law_every_promise_counts(s, r, c);
        if k < n {
            if let Some(PaxosWireMsg::Promise(p)) = replies[k] {
                assert(r[k] == replies[k]);
                assert(after[before.index_of(p)] == p);
            }
        }
    }
    assert forall|p: Promise| #[trigger] after.contains(p) implies exists|j: int|
        0 <= j < replies.len() && #[trigger] replies[j] == Some(PaxosWireMsg::Promise(p)) by {
        let i = after.index_of(p);
        if i < before.len() {
            assert(before[i] == p);
            assert(s.last().promises@.contains(p));
            let j = choose|j: int|
                0 <= j < r.len() && #[trigger] r[j] == Some(PaxosWireMsg::Promise(p));
            assert(replies[j] == r[j]);
        } else {
            assert(replies[n] == Some(PaxosWireMsg::Promise(p)));
        }
    }
    if states.last().saw_reject {
        if states[n].saw_reject {
            let j = choose|j: int|
                0 <= j < r.len() && (#[trigger] r[j]) is Some && r[j]->0 is Reject;
            assert(replies[j] == r[j]);
        } else {
            assert(replies[n] is Some);
        }
    }
}

/// A proposal that was accepted arrives as accepted, and one that was rejected as
/// rejected, with the ballot that stands against it.
pub proof fn law_acceptance_survives_transit(resp: PaxosWireMsg, r: Result<AcceptReply, String>)
    requires
        accept_packed(resp, r),
    ensures
        resp is Accept ==> r is Ok && r->Ok_0.accepted && r->Ok_0.higher_ballot
            == resp->Accept_0.ballot,
        resp is Reject ==> r is Ok && !r->Ok_0.accepted && r->Ok_0.higher_ballot
            == resp->Reject_0.higher,
        !(resp is Accept) && !(resp is Reject) ==> r is Err,
{
}

/// A node answers a protocol message as its acceptor does, and keeps what the
/// acceptor keeps; what is put in place is not answered, and is there afterwards.
pub proof fn law_node_speaks_for_its_acceptor(
    before: PaxosNode,
    msg: PaxosMsg,
    after: PaxosNode,
    reply: Option<PaxosWireMsg>,
)
    requires
        node_answered(before, msg, after, reply),
    ensures
        msg is Rpc <==> reply is Some,
        msg matches PaxosMsg::Rpc(wire) ==> answered(
            before.acceptor,
            wire,
            after.acceptor,
            reply->0,
        ),
        msg matches PaxosMsg::Inject { key, ballot, value } ==> put_in_place(
            before.acceptor,
            key@,
            ballot,
            value@,
            after.acceptor,
        ),
{
}

} // verus!
