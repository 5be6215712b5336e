//! Actor index: where to send control messages and restart notices.
//!
//! Channels are known by number; the runtime keeps the channels themselves.

use crate::actor::ActorId;
use dashmap::DashMap;
use vstd::prelude::*;

verus! {

/// `dashmap::DashMap`, a concurrent hash map. Verified code changes one only
/// through an exclusive reference.
#[verifier::external_type_specification]
#[verifier::external_body]
#[verifier::reject_recursive_types(K)]
#[verifier::reject_recursive_types(V)]
#[verifier::reject_recursive_types(S)]
pub struct ExDashMap<K, V, S>(DashMap<K, V, S>);

/// The channels of one actor.
#[derive(Debug, Clone, Copy, PartialEq, Eq, Structural)]
pub struct Channels {
    /// Where control messages go.
    pub control: u64,
    /// Where restart notices go, if the actor is supervised.
    pub supervisor: Option<u64>,
}

/// The channels that the index holds for each actor.
pub uninterp spec fn index_contents(m: DashMap<u64, Channels>) -> Map<u64, Channels>;

/// Nothing is held.
pub open spec fn no_actors() -> Map<u64, Channels> {
    Map::empty()
}

/// `DashMap::new` makes a map without entries.
#[verifier::external_body]
fn index_new() -> (m: DashMap<u64, Channels>)
    ensures
        index_contents(m) == no_actors(),
{
    DashMap::new()
}

/// `DashMap::insert` puts a value under a key, replacing what was there, and
/// leaves the other keys alone.
#[verifier::external_body]
fn index_insert(m: &mut DashMap<u64, Channels>, key: u64, value: Channels)
    ensures
        index_contents(*final(m)) == index_contents(*old(m)).insert(key, value),
{
    m.insert(key, value);
}

/// `DashMap::remove` takes the entry under a key out, if there is one, and
/// leaves the other keys alone.
#[verifier::external_body]
fn index_remove(m: &mut DashMap<u64, Channels>, key: u64)
    ensures
        index_contents(*final(m)) == index_contents(*old(m)).remove(key),
{
    m.remove(&key);
}

/// `DashMap::get` gives the value under a key, if there is one.
#[verifier::external_body]
fn index_get(m: &DashMap<u64, Channels>, key: u64) -> (r: Option<Channels>)
    ensures
        r == (if index_contents(*m).contains_key(key) {
            Some(index_contents(*m)[key])
        } else {
            None
        }),
{
    m.get(&key).map(|e| *e.value())
}

/// `DashMap::len` counts the keys.
#[verifier::external_body]
fn index_len(m: &DashMap<u64, Channels>) -> (n: usize)
    ensures
        n == index_contents(*m).dom().len(),
{
    m.len()
}

/// `DashMap::iter` visits every entry once, in an order that it leaves open;
/// this collects the keys.
#[verifier::external_body]
fn index_keys(m: &DashMap<u64, Channels>) -> (v: Vec<u64>)
    ensures
        v@.no_duplicates(),
        v@.to_set() == index_contents(*m).dom(),
{
    m.iter().map(|e| *e.key()).collect()
}

/// The running actors.
pub struct ActorIndex {
    actors: DashMap<u64, Channels>,
}

impl View for ActorIndex {
    type V = Map<u64, Channels>;

    closed spec fn view(&self) -> Map<u64, Channels> {
        index_contents(self.actors)
    }
}

impl ActorIndex {
    /// No actor is known.
    pub fn new() -> (i: Self)
        ensures
            i@ == Map::<u64, Channels>::empty(),
    {
        ActorIndex { actors: index_new() }
    }

    /// Records the channels of an actor.
    pub fn register_actor(&mut self, id: ActorId, control: u64, supervisor: Option<u64>)
        ensures
            registered_in(old(self)@, id, control, supervisor, final(self)@),
    {
        index_insert(&mut self.actors, id.0, Channels { control, supervisor });
    }

    /// Forgets an actor.
    pub fn unregister_actor(&mut self, id: ActorId)
        ensures
            forgotten_in(old(self)@, id, final(self)@),
    {
        index_remove(&mut self.actors, id.0);
    }

    /// The control channel of an actor.
    pub fn get_control_sender(&self, id: ActorId) -> (r: Option<u64>)
        ensures
            r == control_of(self@, id),
    {
        match index_get(&self.actors, id.0) {
            Some(e) => Some(e.control),
            None => None,
        }
    }

    /// The supervisor channel of an actor.
    pub fn get_supervisor_sender(&self, id: ActorId) -> (r: Option<u64>)
        ensures
            r == supervisor_of(self@, id),
    {
        match index_get(&self.actors, id.0) {
            Some(e) => e.supervisor,
            None => None,
        }
    }

    /// The number of known actors.
    pub fn actor_count(&self) -> (n: usize)
        ensures
            n == self@.dom().len(),
    {
        index_len(&self.actors)
    }

    /// The known actors, each once, in no promised order.
    pub fn registered_ids(&self) -> (v: Vec<ActorId>)
        ensures
            v@.no_duplicates(),
            forall|k: u64| v@.contains(ActorId(k)) <==> self@.contains_key(k),
    {
        let keys = index_keys(&self.actors);
        let mut v: Vec<ActorId> = Vec::new();
        let mut i: usize = 0;
        while i < keys.len()
            invariant
                i <= keys@.len(),
                v@.len() == i,
                forall|j: int| 0 <= j < i ==> #[trigger] v@[j] == ActorId(keys@[j]),
            decreases keys@.len() - i,
        {
            v.push(ActorId(keys[i]));
            i += 1;
        }
        proof {
            assert forall|a: int, b: int| 0 <= a < b < v@.len() implies v@[a] != v@[b] by {
                assert(keys@[a] != keys@[b]);
            }
            assert forall|k: u64| v@.contains(ActorId(k)) <==> self@.contains_key(k) by {
                assert(keys@.to_set().contains(k) <==> self@.contains_key(k));
                if v@.contains(ActorId(k)) {
                    let j = v@.index_of(ActorId(k));
                    assert(v@[j] == ActorId(keys@[j]));
                    assert(keys@[j] == k);
                }
                if keys@.contains(k) {
                    let j = keys@.index_of(k);
                    assert(v@[j] == ActorId(k));
                }
            }
        }
        v
    }
}

/// The control channel of an actor, by what is known.
pub open spec fn control_of(known: Map<u64, Channels>, id: ActorId) -> Option<u64> {
    if known.contains_key(id.0) {
        Some(known[id.0].control)
    } else {
        None
    }
}

/// The supervisor channel of an actor, by what is known.
pub open spec fn supervisor_of(known: Map<u64, Channels>, id: ActorId) -> Option<u64> {
    if known.contains_key(id.0) {
        known[id.0].supervisor
    } else {
        None
    }
}

/// What is known once an actor was registered.
pub open spec fn registered_in(
    before: Map<u64, Channels>,
    id: ActorId,
    control: u64,
    supervisor: Option<u64>,
    after: Map<u64, Channels>,
) -> bool {
    after == before.insert(id.0, Channels { control, supervisor })
}

/// What is known once an actor was forgotten.
pub open spec fn forgotten_in(
    before: Map<u64, Channels>,
    id: ActorId,
    after: Map<u64, Channels>,
) -> bool {
    after == before.remove(id.0)
}

/// An actor is reached on the channels that it was registered with until it is
/// forgotten, and on none afterwards. Other actors are reached as before.
pub proof fn law_actor_is_reached_until_forgotten(
    before: Map<u64, Channels>,
    id: ActorId,
    control: u64,
    supervisor: Option<u64>,
    between: Map<u64, Channels>,
    after: Map<u64, Channels>,
    other: ActorId,
)
    requires
        registered_in(before, id, control, supervisor, between),
        forgotten_in(between, id, after),
        other != id,
    ensures
        control_of(between, id) == Some(control),
        supervisor_of(between, id) == supervisor,
        control_of(after, id) is None,
        supervisor_of(after, id) is None,
        control_of(between, other) == control_of(before, other),
        control_of(after, other) == control_of(before, other),
        supervisor_of(between, other) == supervisor_of(before, other),
        supervisor_of(after, other) == supervisor_of(before, other),
{
    assert(other.0 != id.0);
}

} // verus!
