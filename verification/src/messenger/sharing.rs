//! Distribution of a group session key: each member gets it in an encrypted
//! message of its own. Fetching keys and sending messages are left to the
//! caller, who does what each step says.

use crate::messenger::client::group_key_message_id;
use crate::messenger::e2ee::{
    bundle_keys, bundle_refusal, first_for, seals, E2eeDevice, PeerKeyBundle,
};
use crate::messenger::error::E2eeError;
use crate::messenger::olm::low_order_refusal;
use crate::messenger::wire::EncryptedPayload;
use crate::text::{same, strs};
use vstd::prelude::*;

verus! {

/// Members other than a user.
pub open spec fn not_user(user: Seq<char>) -> spec_fn(Seq<char>) -> bool {
    |m: Seq<char>| m != user
}

/// The members whom a user distributes a key to: all but the user.
pub fn key_recipients(members: &Vec<String>, user: &str) -> (v: Vec<String>)
    ensures
        strs(v@) == strs(members@).filter(not_user(user@)),
{
    let ghost all = strs(members@);
    let ghost pred = not_user(user@);
    let mut v: Vec<String> = Vec::new();
    let mut i: usize = 0;
    proof {
        reveal(Seq::filter);
        assert(all.take(0).filter(pred) =~= Seq::<Seq<char>>::empty());
        assert(strs(v@) =~= Seq::<Seq<char>>::empty());
    }
    while i < members.len()
        invariant
            all == strs(members@),
            pred == not_user(user@),
            i <= members@.len(),
            strs(v@) == all.take(i as int).filter(pred),
        decreases members@.len() - i,
    {
        let ghost before = v@;
        proof {
            crate::distributed::lemma_filter_step(all, pred, i as int);
        }
        if !same(members[i].as_str(), user) {
            v.push(members[i].clone());
            assert(strs(v@) =~= strs(before).push(all[i as int]));
        }
        i += 1;
    }
    assert(all.take(all.len() as int) =~= all);
    v
}

/// What to do next.
#[derive(Debug, PartialEq, Eq)]
pub enum ShareStep {
    /// Fetch the keys of a user.
    Fetch(String),
    /// Send a chat message.
    Send { to_user: String, message_id: String, payload: EncryptedPayload },
    /// Everyone has the key.
    Done,
}

/// A distribution under way.
pub struct KeyDistribution {
    group_id: String,
    share: Vec<u8>,
    recipients: Vec<String>,
    next: usize,
}

/// What [`KeyDistribution`] holds.
#[verifier::ext_equal]
pub struct DistributionView {
    pub group_id: Seq<char>,
    pub share: Seq<u8>,
    pub recipients: Seq<Seq<char>>,
    pub next: nat,
}

impl View for KeyDistribution {
    type V = DistributionView;

    closed spec fn view(&self) -> DistributionView {
        DistributionView {
            group_id: self.group_id@,
            share: self.share@,
            recipients: strs(self.recipients@),
            next: self.next as nat,
        }
    }
}

/// A step that sent a message to a user, or none.
pub open spec fn advanced(before: DistributionView, to: Option<Seq<char>>, after: DistributionView) -> bool {
    match to {
        Some(user) => {
            &&& before.next < before.recipients.len()
            &&& user == before.recipients[before.next as int]
            &&& after == (DistributionView { next: before.next + 1, ..before })
        },
        None => after == before,
    }
}

/// Whom a step sends to, if anyone.
pub open spec fn addressee(r: Result<ShareStep, E2eeError>) -> Option<Seq<char>> {
    match r {
        Ok(ShareStep::Send { to_user, .. }) => Some(to_user@),
        _ => None,
    }
}

impl KeyDistribution {
    /// Starts a distribution of a group session key.
    pub fn new(group_id: &str, share: Vec<u8>, recipients: Vec<String>) -> (d: Self)
        ensures
            d@ == (DistributionView {
                group_id: group_id@,
                share: share@,
                recipients: strs(recipients@),
                next: 0,
            }),
    {
        KeyDistribution { group_id: group_id.to_string(), share, recipients, next: 0 }
    }

    /// The next step. `keys` are those of the user whose keys were to be
    /// fetched; a user that there is a channel with needs none.
    pub fn step(&mut self, device: &mut E2eeDevice, keys: Option<PeerKeyBundle>) -> (r: Result<
        ShareStep,
        E2eeError,
    >)
        requires
            old(device).wf(),
        ensures
            final(device).wf(),
            shared_on(old(self)@, *old(device), keys, final(self)@, *final(device), r),
    {
        if self.next >= self.recipients.len() {
            return Ok(ShareStep::Done);
        }
        let ghost d0 = *device;
        let to_user = self.recipients[self.next].clone();
        if !device.has_olm_session(to_user.as_str()) {
            match keys {
                None => {
                    return Ok(ShareStep::Fetch(to_user));
                },
                Some(k) => match device.establish_outbound(to_user.as_str(), &k) {
                    Ok(_) => {},
                    Err(e) => {
                        return Err(e);
                    },
                },
            }
        } else {
            assert(d0.peers().insert(to_user@) =~= d0.peers());
        }
        let ghost d1 = *device;
        let sealed = device.encrypt_for_peer(to_user.as_str(), self.share.as_slice());
        proof {
            device.lemma_same_groups(&d1, &d0);
            device.lemma_same_keys(&d1, &d0);
            device.lemma_same_channels_but(&d1, &d0, to_user@);
        }
        match sealed {
            Err(e) => Err(e),
            Ok(payload) => {
                let message_id = group_key_message_id(self.group_id.as_str(), to_user.as_str());
                self.next = self.next + 1;
                Ok(ShareStep::Send { to_user, message_id, payload })
            },
        }
    }
}

/// The users of some steps that a message was sent to, in order.
pub open spec fn addressees(steps: Seq<Option<Seq<char>>>) -> Seq<Seq<char>>
    decreases steps.len(),
{
    if steps.len() == 0 {
        Seq::empty()
    } else {
        match steps.last() {
            Some(u) => addressees(steps.drop_last()).push(u),
            None => addressees(steps.drop_last()),
        }
    }
}

/// Whatever is fetched and fails on the way, the recipients get the key in their
/// order, none twice and none left out between two that get it.
pub proof fn law_recipients_in_order(
    states: Seq<DistributionView>,
    steps: Seq<Option<Seq<char>>>,
)
    requires
        states.len() == steps.len() + 1,
        states[0].next == 0,
        forall|i: int|
            0 <= i < steps.len() ==> advanced(#[trigger] states[i], steps[i], states[i + 1]),
    ensures
        states.last().recipients == states[0].recipients,
        states.last().next <= states[0].recipients.len(),
        addressees(steps) == states[0].recipients.take(states.last().next as int),
    decreases steps.len(),
{
    let n = steps.len() as int;
    if n == 0 {
        assert(addressees(steps) =~= states[0].recipients.take(0));
    } else {
        let s2 = states.drop_last();
        let t2 = steps.drop_last();
        assert forall|i: int| 0 <= i < t2.len() implies advanced(
            #[trigger] s2[i],
            t2[i],
            s2[i + 1],
        ) by {
            assert(s2[i] == states[i]);
        }
        law_recipients_in_order(s2, t2);
        assert(advanced(states[n - 1], steps[n - 1], states[n - 1 + 1]));
        assert(s2.last() == states[n - 1]);
        let k = s2.last().next as int;
        match steps.last() {
            Some(u) => {
                assert(states[0].recipients.take(k + 1) =~= states[0].recipients.take(k).push(u));
            },
            None => {},
        }
    }
}

/// Exactly the members other than the user are recipients.
pub proof fn law_recipients_are_the_others(members: Seq<Seq<char>>, user: Seq<char>, u: Seq<char>)
    ensures
        members.filter(not_user(user)).contains(u) <==> members.contains(u) && u != user,
    decreases members.len(),
{
    reveal(Seq::filter);
    let f = members.filter(not_user(user));
    if members.len() > 0 {
        let d = members.drop_last();
        let fd = d.filter(not_user(user));
        law_recipients_are_the_others(d, user, u);
        assert(members =~= d.push(members.last()));
        assert(members.contains(u) <==> d.contains(u) || members.last() == u) by {
            if members.contains(u) {
                let i = members.index_of(u);
                if i < d.len() {
                    assert(d[i] == u);
                }
            }
            if d.contains(u) {
                assert(members[d.index_of(u)] == u);
            }
            if members.last() == u {
                assert(members[members.len() - 1] == u);
            }
        }
        if members.last() != user {
            assert(f =~= fd.push(members.last()));
            assert(f.contains(u) <==> fd.contains(u) || members.last() == u) by {
                if fd.contains(u) {
                    assert(f[fd.index_of(u)] == u);
                }
                if members.last() == u {
                    assert(f[f.len() - 1] == u);
                }
                if f.contains(u) {
                    let i = f.index_of(u);
                    if i < fd.len() {
                        assert(fd[i] == u);
                    }
                }
            }
        }
    }
}

/// One step of a distribution was taken.
pub open spec fn shared_on(
    before: DistributionView,
    device: E2eeDevice,
    keys: Option<PeerKeyBundle>,
    after: DistributionView,
    device_after: E2eeDevice,
    r: Result<ShareStep, E2eeError>,
) -> bool {
    &&& device_after.same_keys(&device)
    &&& device_after.same_groups(&device)
    &&& advanced(before, addressee(r), after)
    &&& if before.next >= before.recipients.len() {
        r == Ok::<ShareStep, E2eeError>(ShareStep::Done) && device_after == device
    } else {
        let user = before.recipients[before.next as int];
        &&& device_after.same_channels_but(&device, user)
        &&& if !device.peers().contains(user) && keys is None {
            r matches Ok(ShareStep::Fetch(u)) && u@ == user && device_after == device
        } else if !device.peers().contains(user) && bundle_refusal(keys->0) is Some {
            r matches Err(e) && bundle_refusal(keys->0) == Some(e.text()) && device_after
                == device
        } else {
            &&& device_after.peers() == device.peers().insert(user)
            &&& match r {
                Ok(ShareStep::Send { to_user, message_id, payload }) => {
                    &&& device.peers().contains(user) ==> device.can_write(user)
                    &&& device_after.can_write(user)
                    &&& message_id@ == "gsk-"@ + before.group_id + "-"@ + user
                    &&& payload@.sender_key == device.identity()
                    &&& seals(payload@, before.share)
                    &&& payload.message_type == (if device.peers().contains(user)
                        && device.heard(user) {
                        1u32
                    } else {
                        0u32
                    })
                    &&& first_for(
                        if device.peers().contains(user) {
                            device.addressed(user)
                        } else {
                            bundle_keys(keys->0)
                        },
                        before.share,
                        payload@,
                    )
                },
                Err(e) => {
                    &&& e matches E2eeError::Encryption(m)
                    &&& m@ == low_order_refusal()
                    &&& device.peers().contains(user)
                    &&& !device.can_write(user)
                    &&& device.addressed(user) is None
                    &&& device_after.same_channel(&device, user)
                },
                _ => false,
            }
        }
    }
}

/// The key goes to the recipients one by one: each step serves the next one, asks
/// for the keys of that one where there is no channel, or is done after the last.
/// What is sent carries the key of this group, and is known by the group and the
/// member. A step that sends nothing leaves the same recipient to be served.
pub proof fn law_each_step_serves_the_next_recipient(
    before: DistributionView,
    device: E2eeDevice,
    keys: Option<PeerKeyBundle>,
    after: DistributionView,
    device_after: E2eeDevice,
    r: Result<ShareStep, E2eeError>,
)
    requires
        shared_on(before, device, keys, after, device_after, r),
    ensures
        r matches Ok(ShareStep::Done) ==> before.next >= before.recipients.len(),
        before.next >= before.recipients.len() ==> r == Ok::<ShareStep, E2eeError>(ShareStep::Done),
        r matches Ok(ShareStep::Fetch(u)) ==> {
            &&& before.next < before.recipients.len()
            &&& u@ == before.recipients[before.next as int]
            &&& !device.peers().contains(u@)
            &&& keys is None
        },
        r matches Ok(ShareStep::Send { to_user, message_id, payload }) ==> {
            &&& before.next < before.recipients.len()
            &&& to_user@ == before.recipients[before.next as int]
            &&& after.next == before.next + 1
            &&& message_id@ == "gsk-"@ + before.group_id + "-"@ + to_user@
            &&& seals(payload@, before.share)
            &&& payload@.sender_key == device.identity()
        },
        !(r matches Ok(ShareStep::Send { .. })) ==> after == before,
        after.recipients == before.recipients,
        after.share == before.share,
{
}

} // verus!
