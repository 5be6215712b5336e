//! End-to-end encryption: channels between two users and between the members
//! of a group. Servers store public keys and pass opaque bodies on; encryption
//! and decryption happen on the devices alone.

use crate::collections::StrMap;
use crate::messenger::digest::{sha256_hex, sha256_of};
use crate::messenger::error::E2eeError;
use crate::messenger::olm::{
    account_generate, account_identity, account_inbound, account_mark_published, account_new,
    account_outbound, account_pickle, account_unpickle, account_unpublished, account_view,
    answerable, answers, can_send, covers, finds, first_opened, group_decrypt, group_encrypt,
    group_id_of, group_index, group_new, group_opened, group_session_id, group_session_key,
    has_received, identity_of, in_order, index_of, key_from_text, key_parsed, key_room,
    low_order_refusal, megolm_check, megolm_error, olm_check, olm_error, olm_opened, opened_by, opened_to,
    outbound_error, session_decrypt, session_encrypt, session_key_check, session_key_error,
    settled, stored, unpickled, unpublished, AccountView,
};
use crate::messenger::wire::{
    EncryptedGroupPayload, EncryptedGroupPayloadView, EncryptedPayload, EncryptedPayloadView,
    GroupSessionKeyShare,
    GroupSessionKeyShareView, KeyBundle, KeyBundleView,
};
use crate::text::{chars_of, concat2, hex_text, lemma_text_le_total, strs, text_le, text_not_after};
use vodozemac::megolm::GroupSession;
use vodozemac::olm::{Account, Session};
use vstd::multiset::Multiset;
use vstd::prelude::*;
use vstd::utf8::encode_utf8;

verus! {

/// Public keys of a peer, as fetched from the key directory.
#[derive(Debug, PartialEq, Eq)]
pub struct PeerKeyBundle {
    pub identity_key: String,
    pub one_time_key: String,
}

impl PeerKeyBundle {
    /// Takes the keys out of a bundle that was found and is complete.
    pub fn from_wire(b: &KeyBundle) -> (r: Result<Self, E2eeError>)
        ensures
            taken_from(b@, r),
    {
        if !b.found || b.identity_key.as_str().is_empty() || b.one_time_key.as_str().is_empty() {
            return Err(E2eeError::IncompleteBundle);
        }
        Ok(
            PeerKeyBundle {
                identity_key: b.identity_key.clone(),
                one_time_key: b.one_time_key.clone(),
            },
        )
    }
}

/// Groups of five characters with a space between them.
pub open spec fn grouped(s: Seq<char>) -> Seq<char> {
    if s.len() == 0 {
        s
    } else {
        Seq::new(
            s.len() + (s.len() - 1) as nat / 5,
            |i: int|
                if i % 6 == 5 {
                    ' '
                } else {
                    s[5 * (i / 6) + i % 6]
                },
        )
    }
}

/// Two keys in their order, one after the other.
pub open spec fn keys_in_order(a: Seq<char>, b: Seq<char>) -> Seq<char> {
    if text_le(a, b) {
        a + b
    } else {
        b + a
    }
}

/// The number by which two users compare their keys.
pub open spec fn safety_text(a: Seq<char>, b: Seq<char>) -> Seq<char> {
    grouped(hex_text(sha256_of(encode_utf8(keys_in_order(a, b)))))
}

/// Whether a text is lower-case hexadecimal digits in groups of five, with a
/// space between two groups.
pub open spec fn in_fives(s: Seq<char>) -> bool {
    forall|k: int|
        0 <= k < s.len() ==> if k % 6 == 5 {
            #[trigger] s[k] == ' '
        } else {
            ('0' <= s[k] <= '9') || ('a' <= s[k] <= 'f')
        }
}

/// Hexadecimal text in groups of five.
proof fn lemma_hex_in_fives(bytes: Seq<u8>)
    requires
        bytes.len() == 32,
    ensures
        grouped(hex_text(bytes)).len() == 76,
        in_fives(grouped(hex_text(bytes))),
{
    let h = hex_text(bytes);
    let g = grouped(h);
    assert forall|k: int| 0 <= k < g.len() implies if k % 6 == 5 {
        #[trigger] g[k] == ' '
    } else {
        ('0' <= g[k] <= '9') || ('a' <= g[k] <= 'f')
    } by {
        if k % 6 != 5 {
            let j = 5 * (k / 6) + k % 6;
            assert(0 <= j < 64);
            assert(g[k] == h[j]);
            assert(0 <= j / 2 < 32);
        }
    }
}

/// Splits text into groups of five characters.
fn group_by_five(s: &str) -> (r: String)
    ensures
        r@ == grouped(s@),
{
    let v = chars_of(s);
    let mut out = String::new();
    let mut i: usize = 0;
    assert(out@ =~= Seq::<char>::empty());
    while i < v.len()
        invariant
            v@ == s@,
            i <= v@.len(),
            i == 0 ==> out@.len() == 0,
            i > 0 ==> out@ == grouped(v@.take(i as int)),
        decreases v@.len() - i,
    {
        let ghost before = out@;
        if i > 0 && i % 5 == 0 {
            out.push(' ');
        }
        out.push(v[i]);
        proof {
            let a = v@.take(i as int);
            let b = v@.take(i as int + 1);
            let n = i as int;
            assert(b[n] == v@[n]);
            if n > 0 {
                assert(before == grouped(a));
                let g = grouped(b);
                assert(before.len() == n + (n - 1) / 5);
                assert(g.len() == n + 1 + n / 5);
                assert forall|k: int| 0 <= k < before.len() implies before[k] == #[trigger] g[k] by {
                    if k % 6 != 5 {
                        let j = 5 * (k / 6) + k % 6;
                        assert(0 <= j < n) by {
                            assert(k < n + (n - 1) / 5);
                        }
                        assert(a[j] == b[j]);
                    }
                }
                let last = g.len() - 1;
                if n % 5 == 0 {
                    assert(n / 5 == (n - 1) / 5 + 1);
                    assert(before.len() % 6 == 5) by {
                        assert(n == 5 * (n / 5));
                        assert(before.len() == 6 * (n / 5) - 1);
                    }
                    assert(out@.len() == g.len());
                    assert(last == 6 * (n / 5));
                    assert(g[last] == b[5 * (n / 5)]);
                } else {
                    assert(n / 5 == (n - 1) / 5);
                    assert(last == n + n / 5);
                    assert(last == 6 * (n / 5) + n % 5);
                    assert(last / 6 == n / 5 && last % 6 == n % 5);
                }
                assert(out@ =~= g);
            } else {
                assert(out@ =~= grouped(b));
            }
        }
        i += 1;
    }
    assert(v@.take(v@.len() as int) =~= v@);
    assert(i == 0 ==> out@ =~= grouped(s@));
    out
}

/// Whether a payload is a message that can be read, and that some channel, that
/// of the other side, decrypts to the plaintext.
pub open spec fn seals(p: EncryptedPayloadView, plaintext: Seq<u8>) -> bool {
    &&& key_parsed(p.sender_key) is Ok
    &&& olm_error(p.message_type as usize, p.ciphertext) is None
    &&& p.message_type == 0 ==> answerable(p.ciphertext)
    &&& exists|other: Session|
        settled(other, p.message_type as usize, p.ciphertext) && #[trigger] olm_opened(
            other,
            p.message_type as usize,
            p.ciphertext,
        ) == Ok::<Seq<u8>, Seq<char>>(plaintext)
}

/// Why no channel can be opened with a peer's keys, if none can: the identity
/// key cannot be read, or the one-time key cannot, or one is of low order.
pub open spec fn bundle_refusal(bundle: PeerKeyBundle) -> Option<Seq<char>> {
    match key_parsed(bundle.identity_key@) {
        Err(e) => Some("vodozemac key: "@ + e),
        Ok(identity) => match key_parsed(bundle.one_time_key@) {
            Err(e) => Some("vodozemac key: "@ + e),
            Ok(one_time) => match outbound_error(identity, one_time) {
                Some(e) => Some("session creation: "@ + e),
                None => None,
            },
        },
    }
}

/// The two keys of a bundle, where both can be read.
pub open spec fn bundle_keys(bundle: PeerKeyBundle) -> Option<(Seq<u8>, Seq<u8>)> {
    match (key_parsed(bundle.identity_key@), key_parsed(bundle.one_time_key@)) {
        (Ok(identity), Ok(one_time)) => Some((identity, one_time)),
        _ => None,
    }
}

/// Whether a payload is one that every device decrypts which has two keys;
/// nothing is said where there are none.
pub open spec fn first_for(
    keys: Option<(Seq<u8>, Seq<u8>)>,
    plaintext: Seq<u8>,
    p: EncryptedPayloadView,
) -> bool {
    keys matches Some(keys) ==> {
        &&& p.message_type == 0
        &&& forall|b: E2eeDevice|
            #![trigger b.answers_to(keys.0, keys.1)]
            b.answers_to(keys.0, keys.1) ==> b.opens_first(
                key_parsed(p.sender_key)->Ok_0,
                p.ciphertext,
            ) == Ok::<Seq<u8>, Seq<char>>(plaintext)
    }
}

/// A device: its keys, its channels to peers, the sending sides of its group
/// channels, and the group session keys it took in.
pub struct E2eeDevice {
    account: Account,
    sessions: StrMap<Session>,
    group_outbound: StrMap<GroupSession>,
    group_inbound: StrMap<StrMap<String>>,
}

impl E2eeDevice {
    /// Each map lists a key once, and the device opened those channels on which
    /// nothing was sent or received yet.
    pub closed spec fn wf(&self) -> bool {
        &&& self.sessions.wf()
        &&& forall|p: Seq<char>|
            self.sessions@.contains_key(p) && opened_to(#[trigger] self.sessions@[p]) is Some
                ==> key_parsed(identity_of(self.account)) == Ok::<Seq<u8>, Seq<char>>(
                opened_by(self.sessions@[p]),
            )
        &&& self.group_outbound.wf()
        &&& self.group_inbound.wf()
        &&& forall|g: Seq<char>|
            self.group_inbound@.contains_key(g) ==> (#[trigger] self.group_inbound@[g]).wf()
    }

    /// The public identity key.
    pub closed spec fn identity(&self) -> Seq<char> {
        identity_of(self.account)
    }

    /// The one-time keys that are not published yet.
    pub closed spec fn fresh_keys(&self) -> Multiset<Seq<char>> {
        unpublished(self.account)
    }

    /// Whether each one-time key lies under an id of its own and the ids that
    /// come next are unused, as on every device that was made here. Keys that
    /// were read from a text need not lie so.
    pub closed spec fn keys_in_order(&self) -> bool {
        in_order(self.account)
    }

    /// All that is told apart of the keys.
    pub open spec fn keys(&self) -> AccountView {
        AccountView {
            identity: self.identity(),
            unpublished: self.fresh_keys(),
            stored: self.stored_keys(),
            finds: self.kept_keys(),
            in_order: self.keys_in_order(),
        }
    }

    /// How many one-time keys the device stores.
    pub closed spec fn stored_keys(&self) -> nat {
        stored(self.account)
    }

    /// Whether the device has an identity key and the private part of a one-time
    /// key.
    pub closed spec fn answers_to(&self, identity: Seq<u8>, one_time: Seq<u8>) -> bool {
        answers(self.account, identity, one_time)
    }

    /// The one-time keys of which the device has the private part.
    pub closed spec fn kept_keys(&self) -> Set<Seq<char>> {
        finds(self.account)
    }

    /// The keys that the channel with a peer was opened to, as long as nothing
    /// was sent or received on it.
    pub closed spec fn addressed(&self, peer: Seq<char>) -> Option<(Seq<u8>, Seq<u8>)> {
        opened_to(self.sessions@[peer])
    }

    /// Whether the channel with a peer can be written to.
    pub closed spec fn can_write(&self, peer: Seq<char>) -> bool {
        can_send(self.sessions@[peer])
    }

    /// Whether the state of the channel with a peer settles what becomes of a
    /// message.
    pub closed spec fn settles(&self, peer: Seq<char>, message_type: usize, bytes: Seq<u8>) -> bool {
        settled(self.sessions@[peer], message_type, bytes)
    }

    /// A device answers to its own identity key and the keys it keeps.
    pub proof fn law_answers_to_its_keys(&self, one_time: Seq<char>)
        requires
            self.kept_keys().contains(one_time),
            key_parsed(one_time) is Ok,
            key_parsed(self.identity()) is Ok,
        ensures
            self.answers_to(key_parsed(self.identity())->Ok_0, key_parsed(one_time)->Ok_0),
    {
        assert(finds(self.account).contains(one_time));
    }

    /// What the device decrypts of a first message from the holder of a key.
    pub closed spec fn opens_first(&self, identity: Seq<u8>, bytes: Seq<u8>) -> Result<
        Seq<u8>,
        Seq<char>,
    > {
        first_opened(self.account, identity, bytes)
    }

    /// The peers that there is a channel with.
    pub closed spec fn peers(&self) -> Set<Seq<char>> {
        self.sessions@.dom()
    }

    /// Whether something was received from a peer on the present channel.
    pub closed spec fn heard(&self, peer: Seq<char>) -> bool {
        has_received(self.sessions@[peer])
    }

    /// What the channel with a peer decrypts of a message, where its state
    /// settles that.
    pub closed spec fn opens(&self, peer: Seq<char>, message_type: usize, bytes: Seq<u8>) -> Result<
        Seq<u8>,
        Seq<char>,
    > {
        olm_opened(self.sessions@[peer], message_type, bytes)
    }

    /// The groups that the device has a sending side for, with the ids of the
    /// channels.
    pub closed spec fn sender_ids(&self) -> Map<Seq<char>, Seq<char>> {
        self.group_outbound@.map_values(|g: GroupSession| group_id_of(g))
    }

    /// How many messages were sent to a group on the present channel.
    pub closed spec fn sent_to(&self, group: Seq<char>) -> u32 {
        index_of(self.group_outbound@[group])
    }

    /// Whether a text is a session key from which on messages to a group can be
    /// read.
    pub closed spec fn readable_with(&self, group: Seq<char>, key: Seq<char>) -> bool {
        covers(key, self.group_outbound@[group])
    }

    /// The session key that the device took in for a group channel.
    pub closed spec fn receiving_key(&self, group: Seq<char>, session_id: Seq<char>) -> Option<
        Seq<char>,
    > {
        if self.group_inbound@.contains_key(group) && self.group_inbound@[group]@.contains_key(
            session_id,
        ) {
            Some(self.group_inbound@[group]@[session_id]@)
        } else {
            None
        }
    }

    /// The keys are the same.
    pub open spec fn same_keys(&self, other: &E2eeDevice) -> bool {
        &&& self.identity() == other.identity()
        &&& self.fresh_keys() == other.fresh_keys()
        &&& self.stored_keys() == other.stored_keys()
        &&& self.kept_keys() == other.kept_keys()
        &&& self.keys_in_order() == other.keys_in_order()
        &&& forall|k: Seq<u8>, b: Seq<u8>| #[trigger]
            self.answers_to(k, b) == other.answers_to(k, b)
        &&& forall|k: Seq<u8>, b: Seq<u8>| #[trigger]
            self.opens_first(k, b) == other.opens_first(k, b)
    }

    /// The channel with a peer is the same.
    pub open spec fn same_channel(&self, other: &E2eeDevice, peer: Seq<char>) -> bool {
        &&& self.peers().contains(peer) == other.peers().contains(peer)
        &&& self.heard(peer) == other.heard(peer)
        &&& self.addressed(peer) == other.addressed(peer)
        &&& self.can_write(peer) == other.can_write(peer)
        &&& forall|t: usize, b: Seq<u8>| #[trigger]
            self.settles(peer, t, b) == other.settles(peer, t, b)
        &&& forall|t: usize, b: Seq<u8>| #[trigger]
            self.opens(peer, t, b) == other.opens(peer, t, b)
    }

    /// The channels with all peers but one are the same.
    pub open spec fn same_channels_but(&self, other: &E2eeDevice, peer: Seq<char>) -> bool {
        forall|q: Seq<char>| q != peer ==> #[trigger] self.same_channel(other, q)
    }

    /// The sending side of a group is the same.
    pub open spec fn same_sender(&self, other: &E2eeDevice, group: Seq<char>) -> bool {
        &&& self.sent_to(group) == other.sent_to(group)
        &&& forall|key: Seq<char>| #[trigger]
            self.readable_with(group, key) == other.readable_with(group, key)
    }

    /// The session keys that were taken in are the same.
    pub open spec fn same_receiving_keys(&self, other: &E2eeDevice) -> bool {
        forall|g: Seq<char>, s: Seq<char>| #[trigger]
            self.receiving_key(g, s) == other.receiving_key(g, s)
    }

    /// The group channels are the same.
    pub open spec fn same_groups(&self, other: &E2eeDevice) -> bool {
        &&& self.sender_ids() == other.sender_ids()
        &&& forall|g: Seq<char>| #[trigger] self.same_sender(other, g)
        &&& self.same_receiving_keys(other)
    }

    /// The channels with all peers are the same.
    pub open spec fn same_channels(&self, other: &E2eeDevice) -> bool {
        &&& self.peers() == other.peers()
        &&& forall|q: Seq<char>| #[trigger] self.same_channel(other, q)
    }

    /// What is the same twice is the same.
    pub proof fn lemma_same_groups(&self, mid: &E2eeDevice, first: &E2eeDevice)
        requires
            self.same_groups(mid),
            mid.same_groups(first),
        ensures
            self.same_groups(first),
    {
        assert forall|g: Seq<char>| #[trigger] self.same_sender(first, g) by {
            assert(self.same_sender(mid, g) && mid.same_sender(first, g));
            assert forall|key: Seq<char>| #[trigger]
                self.readable_with(g, key) == first.readable_with(g, key) by {
                assert(self.readable_with(g, key) == mid.readable_with(g, key));
            }
        }
        assert forall|g: Seq<char>, s: Seq<char>| #[trigger]
            self.receiving_key(g, s) == first.receiving_key(g, s) by {
            assert(self.receiving_key(g, s) == mid.receiving_key(g, s));
        }
    }

    /// What is the same twice is the same.
    pub proof fn lemma_same_keys(&self, mid: &E2eeDevice, first: &E2eeDevice)
        requires
            self.same_keys(mid),
            mid.same_keys(first),
        ensures
            self.same_keys(first),
    {
        assert forall|k: Seq<u8>, b: Seq<u8>| #[trigger]
            self.answers_to(k, b) == first.answers_to(k, b) by {
            assert(self.answers_to(k, b) == mid.answers_to(k, b));
        }
        assert forall|k: Seq<u8>, b: Seq<u8>| #[trigger]
            self.opens_first(k, b) == first.opens_first(k, b) by {
            assert(self.opens_first(k, b) == mid.opens_first(k, b));
        }
    }

    /// What is the same twice is the same.
    pub proof fn lemma_same_channels_but(
        &self,
        mid: &E2eeDevice,
        first: &E2eeDevice,
        peer: Seq<char>,
    )
        requires
            self.same_channels_but(mid, peer),
            mid.same_channels_but(first, peer),
        ensures
            self.same_channels_but(first, peer),
    {
        assert forall|q: Seq<char>| q != peer implies #[trigger] self.same_channel(first, q) by {
            assert(self.same_channel(mid, q) && mid.same_channel(first, q));
            assert forall|t: usize, b: Seq<u8>| #[trigger]
                self.settles(q, t, b) == first.settles(q, t, b) by {
                assert(self.settles(q, t, b) == mid.settles(q, t, b));
            }
            assert forall|t: usize, b: Seq<u8>| #[trigger]
                self.opens(q, t, b) == first.opens(q, t, b) by {
                assert(self.opens(q, t, b) == mid.opens(q, t, b));
            }
        }
    }

    /// There are no channels of any kind.
    pub open spec fn unconnected(&self) -> bool {
        &&& self.peers() == Set::<Seq<char>>::empty()
        &&& self.sender_ids() == Map::<Seq<char>, Seq<char>>::empty()
        &&& forall|g: Seq<char>, s: Seq<char>| #[trigger] self.receiving_key(g, s) is None
    }

    /// A device without channels.
    fn with_account(account: Account) -> (d: Self)
        ensures
            d.wf(),
            d.unconnected(),
            d.identity() == identity_of(account),
            d.fresh_keys() == unpublished(account),
            d.stored_keys() == stored(account),
            d.kept_keys() == finds(account),
            d.keys_in_order() == in_order(account),
            d.keys() == account_view(account),
    {
        let d = E2eeDevice {
            account,
            sessions: StrMap::new(),
            group_outbound: StrMap::new(),
            group_inbound: StrMap::new(),
        };
        assert(d.peers() =~= Set::<Seq<char>>::empty());
        assert(d.sender_ids() =~= Map::<Seq<char>, Seq<char>>::empty());
        d
    }

    /// A device with new random keys and no channels.
    pub fn generate() -> (d: Self)
        ensures
            d.wf(),
            d.unconnected(),
            d.fresh_keys() == Multiset::<Seq<char>>::empty(),
            d.stored_keys() == 0,
            d.kept_keys() == Set::<Seq<char>>::empty(),
            d.keys_in_order(),
    {
        Self::with_account(account_new())
    }

    /// The public identity key as text that any device can read. Which key it
    /// is was drawn at random when the device was made.
    pub fn identity_key_base64(&self) -> (s: String)
        ensures
            s@ == self.identity(),
            key_parsed(s@) is Ok,
    {
        account_identity(&self.account)
    }

    /// Makes one-time keys, which are drawn at random; gives all that are not
    /// published yet, in no particular order, each as text that any device can
    /// read. Beyond the room that a device has for keys, the oldest are
    /// discarded.
    pub fn generate_one_time_keys(&mut self, count: usize) -> (v: Vec<String>)
        ensures
            old(self).wf() ==> final(self).wf(),
            final(self).identity() == old(self).identity(),
            final(self).same_channels(old(self)),
            final(self).same_groups(old(self)),
            strs(v@).to_multiset() == final(self).fresh_keys(),
            forall|i: int| 0 <= i < v@.len() ==> key_parsed((#[trigger] v@[i])@) is Ok,
            old(self).keys_in_order() && old(self).stored_keys() + count <= key_room() ==> {
                &&& final(self).keys_in_order()
                &&& old(self).fresh_keys().subset_of(final(self).fresh_keys())
                &&& v@.len() == old(self).fresh_keys().len() + count
                &&& old(self).kept_keys().subset_of(final(self).kept_keys())
                &&& old(self).fresh_keys().len() == 0 ==> forall|i: int|
                    0 <= i < v@.len() ==> final(self).kept_keys().contains((#[trigger] v@[i])@)
                &&& final(self).stored_keys() == old(self).stored_keys() + count
            },
    {
        let created = account_generate(&mut self.account, count);
        let v = account_unpublished(&self.account);
        proof {
            broadcast use vstd::seq_lib::group_to_multiset_ensures;
            strs(v@).to_multiset_ensures();
            strs(created@).to_multiset_ensures();
            let was = old(self).fresh_keys();
            if old(self).keys_in_order() && old(self).stored_keys() + count <= key_room()
                && was.len() == 0 {
                assert forall|i: int| 0 <= i < v@.len() implies self.kept_keys().contains(
                    (#[trigger] v@[i])@,
                ) by {
                    let key = strs(v@)[i];
                    assert(strs(v@).contains(key));
                    assert(strs(v@).to_multiset().count(key) > 0);
                    assert(was.count(key) == 0) by {
                        if was.count(key) > 0 {
                            vstd::multiset::lemma_multiset_empty_len(was);
                        }
                    }
                    assert(strs(created@).to_multiset().count(key) > 0);
                    assert(strs(created@).contains(key));
                }
            }
        }
        v
    }

    /// Marks the one-time keys as published.
    pub fn mark_keys_published(&mut self)
        ensures
            old(self).wf() ==> final(self).wf(),
            final(self).identity() == old(self).identity(),
            final(self).fresh_keys() == Multiset::<Seq<char>>::empty(),
            final(self).stored_keys() == old(self).stored_keys(),
            final(self).kept_keys() == old(self).kept_keys(),
            final(self).keys_in_order() == old(self).keys_in_order(),
            final(self).same_channels(old(self)),
            final(self).same_groups(old(self)),
    {
        account_mark_published(&mut self.account);
    }

    /// The number by which two users compare their keys; it does not matter
    /// who computes it.
    pub fn safety_number(local_identity: &str, remote_identity: &str) -> (s: String)
        ensures
            s@ == safety_text(local_identity@, remote_identity@),
            s@.len() == 76,
            in_fives(s@),
    {
        let both = if text_not_after(local_identity, remote_identity) {
            concat2(local_identity, remote_identity)
        } else {
            concat2(remote_identity, local_identity)
        };
        let hex = sha256_hex(both.as_str().as_bytes());
        proof {
            lemma_hex_in_fives(sha256_of(encode_utf8(both@)));
        }
        group_by_five(hex.as_str())
    }

    /// Whether there is a channel with a peer.
    pub fn has_olm_session(&self, peer: &str) -> (r: bool)
        requires
            self.wf(),
        ensures
            r == self.peers().contains(peer@),
    {
        self.sessions.contains_key(peer)
    }

    /// Puts a channel in the place of the one there was, if any.
    fn adopt_session(&mut self, peer: &str, session: Session)
        requires
            old(self).wf(),
            opened_to(session) is Some ==> key_parsed(identity_of(old(self).account)) == Ok::<
                Seq<u8>,
                Seq<char>,
            >(opened_by(session)),
        ensures
            final(self).wf(),
            final(self).account == old(self).account,
            final(self).same_groups(old(self)),
            final(self).same_channels_but(old(self), peer@),
            final(self).peers() == old(self).peers().insert(peer@),
            final(self).heard(peer@) == has_received(session),
            final(self).addressed(peer@) == opened_to(session),
            final(self).can_write(peer@) == can_send(session),
            forall|t: usize, b: Seq<u8>| #[trigger]
                final(self).settles(peer@, t, b) == settled(session, t, b),
            forall|t: usize, b: Seq<u8>| #[trigger]
                final(self).opens(peer@, t, b) == olm_opened(session, t, b),
    {
        let _ = self.sessions.insert(peer.to_string(), session);
        assert(self.peers() =~= old(self).peers().insert(peer@));
    }

    /// Opens a channel to a peer with the peer's keys, in the place of the one
    /// there was, if any. Keys that cannot be read are refused; so are readable
    /// ones of low order.
    pub fn establish_outbound(&mut self, peer: &str, bundle: &PeerKeyBundle) -> (r: Result<
        (),
        E2eeError,
    >)
        requires
            old(self).wf(),
        ensures
            final(self).wf(),
            r is Err ==> *final(self) == *old(self),
            final(self).same_keys(old(self)),
            final(self).same_groups(old(self)),
            final(self).same_channels_but(old(self), peer@),
            r is Ok ==> {
                &&& final(self).peers() == old(self).peers().insert(peer@)
                &&& !final(self).heard(peer@)
                &&& final(self).can_write(peer@)
                &&& forall|t: usize, b: Seq<u8>| #[trigger] final(self).settles(peer@, t, b)
                &&& final(self).addressed(peer@) == bundle_keys(*bundle)
            },
            match r {
                Ok(_) => bundle_refusal(*bundle) is None,
                Err(e) => (e is Key || e is SessionCreation) && bundle_refusal(*bundle) == Some(
                    e.text(),
                ),
            },
    {
        let identity = match key_from_text(bundle.identity_key.as_str()) {
            Ok(k) => k,
            Err(e) => {
                return Err(E2eeError::Key(e));
            },
        };
        let one_time = match key_from_text(bundle.one_time_key.as_str()) {
            Ok(k) => k,
            Err(e) => {
                return Err(E2eeError::Key(e));
            },
        };
        match account_outbound(&self.account, identity, one_time) {
            Ok(s) => {
                self.adopt_session(peer, s);
                Ok(())
            },
            Err(e) => Err(E2eeError::SessionCreation(e)),
        }
    }

    /// Whether a payload is one that every device decrypts which has the keys
    /// that the channel with a peer was opened to; nothing is said of a channel
    /// that something was sent or received on.
    pub open spec fn writes_first(
        &self,
        peer: Seq<char>,
        plaintext: Seq<u8>,
        p: EncryptedPayloadView,
    ) -> bool {
        first_for(self.addressed(peer), plaintext, p)
    }

    /// Encrypts for a peer that there is a channel with, if the channel can be
    /// written to; one on which nothing was sent or received can. The payload
    /// carries the sender's key and a message that a channel of the other side
    /// decrypts to the plaintext; the message is a first one until something
    /// was received from the peer.
    pub fn encrypt_for_peer(&mut self, peer: &str, plaintext: &[u8]) -> (r: Result<
        EncryptedPayload,
        E2eeError,
    >)
        requires
            old(self).wf(),
        ensures
            final(self).wf(),
            final(self).same_keys(old(self)),
            final(self).same_groups(old(self)),
            final(self).peers() == old(self).peers(),
            final(self).same_channels_but(old(self), peer@),
            final(self).heard(peer@) == old(self).heard(peer@),
            if old(self).peers().contains(peer@) {
                match r {
                    Ok(p) => {
                        &&& p@.sender_key == old(self).identity()
                        &&& p.message_type == (if old(self).heard(peer@) {
                            1u32
                        } else {
                            0u32
                        })
                        &&& seals(p@, plaintext@)
                        &&& old(self).writes_first(peer@, plaintext@, p@)
                        &&& old(self).can_write(peer@)
                        &&& final(self).can_write(peer@)
                        &&& final(self).addressed(peer@) is None
                        &&& forall|t: usize, b: Seq<u8>| #[trigger] final(self).settles(peer@, t, b)
                    },
                    Err(e) => {
                        &&& e matches E2eeError::Encryption(m)
                        &&& m@ == low_order_refusal()
                        &&& !old(self).can_write(peer@)
                        &&& old(self).addressed(peer@) is None
                        &&& final(self).same_channel(old(self), peer@)
                    },
                }
            } else {
                r matches Err(E2eeError::NoSession(p)) && p@ == peer@
            },
    {
        let ghost before = *self;
        let sent: Result<(usize, Vec<u8>), String> = match self.sessions.get_mut(peer) {
            None => {
                return Err(E2eeError::NoSession(peer.to_string()));
            },
            Some(s) => session_encrypt(s, plaintext),
        };
        assert(self.peers() =~= before.peers());
        match sent {
            Err(e) => Err(E2eeError::Encryption(e)),
            Ok((message_type, ciphertext)) => {
                let p = EncryptedPayload {
                    sender_key: self.identity_key_base64(),
                    message_type: message_type as u32,
                    ciphertext,
                };
                proof {
                    let s = before.sessions@[peer@];
                    if before.addressed(peer@) is Some {
                        let keys = before.addressed(peer@)->0;
                        assert forall|b: E2eeDevice|
                            #![trigger b.answers_to(keys.0, keys.1)]
                            b.answers_to(keys.0, keys.1) implies b.opens_first(
                            key_parsed(p@.sender_key)->Ok_0,
                            p@.ciphertext,
                        ) == Ok::<Seq<u8>, Seq<char>>(plaintext@) by {
                            assert(opened_to(s) is Some);
                            assert(first_opened(b.account, opened_by(s), p@.ciphertext) == Ok::<
                                Seq<u8>,
                                Seq<char>,
                            >(plaintext@));
                        }
                    }
                }
                Ok(p)
            },
        }
    }

    /// What comes of decrypting a message with the channel to a sender, and what
    /// becomes of the channel. Where the state of the channel does not settle
    /// it, keys are drawn at random first: then nothing is said of what is
    /// decrypted, nor of what the channel decrypts after an error.
    pub open spec fn decrypts(
        &self,
        after: &E2eeDevice,
        sender: Seq<char>,
        message_type: usize,
        bytes: Seq<u8>,
        r: Result<Vec<u8>, E2eeError>,
    ) -> bool {
        &&& self.settles(sender, message_type, bytes) ==> match self.opens(
            sender,
            message_type,
            bytes,
        ) {
            Ok(p) => r matches Ok(q) && q@ == p,
            Err(e) => {
                &&& r matches Err(E2eeError::Decryption(x))
                &&& x@ == e
                &&& after.same_channel(self, sender)
            },
        }
        &&& match r {
            Ok(_) => {
                &&& after.heard(sender)
                &&& after.addressed(sender) is None
                &&& self.can_write(sender) ==> after.can_write(sender)
            },
            Err(e) => {
                &&& e is Decryption
                &&& after.heard(sender) == self.heard(sender)
                &&& after.addressed(sender) == self.addressed(sender)
                &&& after.can_write(sender) == self.can_write(sender)
            },
        }
    }

    /// Decrypts with the channel to a sender.
    fn decrypt_with(&mut self, sender: &str, message_type: usize, bytes: &[u8]) -> (r: Result<
        Vec<u8>,
        E2eeError,
    >)
        requires
            old(self).wf(),
            old(self).peers().contains(sender@),
        ensures
            final(self).wf(),
            final(self).account == old(self).account,
            final(self).same_groups(old(self)),
            final(self).peers() == old(self).peers(),
            final(self).same_channels_but(old(self), sender@),
            old(self).decrypts(final(self), sender@, message_type, bytes@, r),
    {
        let ghost before = *self;
        let got: Result<Vec<u8>, String> = match self.sessions.get_mut(sender) {
            None => {
                return Err(E2eeError::NoSession(sender.to_string()));
            },
            Some(s) => session_decrypt(s, message_type, bytes),
        };
        assert(self.peers() =~= before.peers());
        match got {
            Ok(p) => Ok(p),
            Err(e) => Err(E2eeError::Decryption(e)),
        }
    }

    /// One of the one-time keys is used up, and none is added.
    pub open spec fn used_one_key(&self, after: &E2eeDevice) -> bool {
        &&& after.keys_in_order()
        &&& after.stored_keys() + 1 == self.stored_keys()
        &&& after.fresh_keys().subset_of(self.fresh_keys())
        &&& exists|used: Seq<char>| #[trigger]
            self.kept_keys().contains(used) && after.kept_keys() == self.kept_keys().remove(used)
    }

    /// What a device makes of a payload from a sender, and what becomes of the
    /// device.
    pub open spec fn takes(
        &self,
        after: &E2eeDevice,
        sender: Seq<char>,
        p: EncryptedPayloadView,
        r: Result<Vec<u8>, E2eeError>,
    ) -> bool {
        let message_type = p.message_type as usize;
        match olm_error(message_type, p.ciphertext) {
            Some(e) => {
                &&& r matches Err(E2eeError::Decode(x))
                &&& x@ == e
                &&& *after == *self
            },
            None => if self.peers().contains(sender) {
                &&& after.same_keys(self)
                &&& after.peers() == self.peers()
                &&& self.decrypts(after, sender, message_type, p.ciphertext, r)
            } else {
                match key_parsed(p.sender_key) {
                    Err(e) => {
                        &&& r matches Err(E2eeError::Key(x))
                        &&& x@ == e
                        &&& *after == *self
                    },
                    Ok(identity) => if message_type != 0 {
                        &&& r matches Err(x)
                        &&& x is NotPreKeyMessage
                        &&& *after == *self
                    } else {
                        match self.opens_first(identity, p.ciphertext) {
                            Err(e) => {
                                &&& r matches Err(E2eeError::SessionCreation(x))
                                &&& x@ == e
                                &&& *after == *self
                            },
                            Ok(plaintext) => {
                                &&& after.peers() == self.peers().insert(sender)
                                &&& after.heard(sender)
                                &&& after.addressed(sender) is None
                                &&& after.can_write(sender) == answerable(p.ciphertext)
                                &&& self.keys_in_order() ==> self.used_one_key(after)
                                &&& if plaintext.len() > 0 {
                                    r matches Ok(q) && q@ == plaintext
                                } else {
                                    r matches Err(x) && x is Decryption
                                }
                            },
                        }
                    },
                }
            },
        }
    }

    /// Decrypts a payload from a sender. Without a channel a first message opens
    /// one. A first message without content opens the channel and is then
    /// refused, since no message is decrypted twice.
    pub fn decrypt_from_sender(&mut self, sender: &str, payload: &EncryptedPayload) -> (r: Result<
        Vec<u8>,
        E2eeError,
    >)
        requires
            old(self).wf(),
        ensures
            final(self).wf(),
            final(self).identity() == old(self).identity(),
            final(self).same_groups(old(self)),
            final(self).same_channels_but(old(self), sender@),
            old(self).takes(final(self), sender@, payload@, r),
    {
        let message_type: usize = payload.message_type as usize;
        match olm_check(message_type, payload.ciphertext.as_slice()) {
            Ok(_) => {},
            Err(e) => {
                return Err(E2eeError::Decode(e));
            },
        }
        if self.has_olm_session(sender) {
            return self.decrypt_with(sender, message_type, payload.ciphertext.as_slice());
        }
        let identity = match key_from_text(payload.sender_key.as_str()) {
            Ok(k) => k,
            Err(e) => {
                return Err(E2eeError::Key(e));
            },
        };
        if message_type != 0 {
            return Err(E2eeError::NotPreKeyMessage);
        }
        let (session, plaintext) = match account_inbound(
            &mut self.account,
            identity,
            payload.ciphertext.as_slice(),
        ) {
            Ok(p) => p,
            Err(e) => {
                return Err(E2eeError::SessionCreation(e));
            },
        };
        let ghost mid = *self;
        proof {
            if old(self).keys_in_order() {
                let used = choose|u: Seq<char>| #[trigger]
                    finds(old(self).account).contains(u) && finds(self.account) == finds(
                        old(self).account,
                    ).remove(u);
                assert(old(self).kept_keys().contains(used));
                assert(old(self).used_one_key(&mid));
            }
        }
        self.adopt_session(sender, session);
        let ghost adopted = *self;
        proof {
            adopted.lemma_same_groups(&mid, old(self));
            adopted.lemma_same_channels_but(&mid, old(self), sender@);
        }
        if plaintext.len() > 0 {
            return Ok(plaintext);
        }
        let r = self.decrypt_with(sender, message_type, payload.ciphertext.as_slice());
        proof {
            self.lemma_same_groups(&adopted, old(self));
            self.lemma_same_channels_but(&adopted, old(self), sender@);
        }
        r
    }

    /// Makes a sending side for a group, in the place of the one there was, if
    /// any; gives the id of the channel, which is drawn at random.
    pub fn create_group_sender_session(&mut self, group_id: &str) -> (s: String)
        requires
            old(self).wf(),
        ensures
            final(self).wf(),
            final(self).same_keys(old(self)),
            final(self).same_channels(old(self)),
            final(self).same_receiving_keys(old(self)),
            final(self).sender_ids() == old(self).sender_ids().insert(group_id@, s@),
            final(self).sent_to(group_id@) == 0,
            forall|g: Seq<char>|
                g != group_id@ ==> #[trigger] final(self).same_sender(old(self), g),
    {
        let session = group_new();
        let id = group_session_id(&session);
        let _ = self.group_outbound.insert(group_id.to_string(), session);
        assert(self.sender_ids() =~= old(self).sender_ids().insert(group_id@, id@));
        id
    }

    /// How many messages were sent to a group on the present channel.
    pub fn group_messages_sent(&self, group_id: &str) -> (r: Option<u32>)
        requires
            self.wf(),
        ensures
            r == (if self.sender_ids().contains_key(group_id@) {
                Some(self.sent_to(group_id@))
            } else {
                None
            }),
    {
        match self.group_outbound.get(group_id) {
            Some(g) => Some(group_index(g)),
            None => None,
        }
    }

    /// What a member needs to read what is sent to a group from now on, as text
    /// that any device can read.
    pub fn export_group_session_key(&self, group_id: &str) -> (r: Result<String, E2eeError>)
        requires
            self.wf(),
        ensures
            if self.sender_ids().contains_key(group_id@) {
                r matches Ok(s) && session_key_error(s@) is None && self.readable_with(
                    group_id@,
                    s@,
                )
            } else {
                r matches Err(E2eeError::NoGroupSession(g)) && g@ == group_id@
            },
    {
        match self.group_outbound.get(group_id) {
            Some(g) => Ok(group_session_key(g)),
            None => Err(E2eeError::NoGroupSession(group_id.to_string())),
        }
    }

    /// The group session key together with the ids of the group and the
    /// channel, to be sent to a member.
    pub fn group_session_key_share(&self, group_id: &str) -> (r: Result<
        GroupSessionKeyShare,
        E2eeError,
    >)
        requires
            self.wf(),
        ensures
            match r {
                Ok(s) => self.shares(group_id@, s@),
                Err(e) => {
                    &&& !self.sender_ids().contains_key(group_id@)
                    &&& e matches E2eeError::NoGroupSession(g)
                    &&& g@ == group_id@
                },
            },
    {
        match self.group_outbound.get(group_id) {
            Some(g) => Ok(
                GroupSessionKeyShare {
                    group_id: group_id.to_string(),
                    session_id: group_session_id(g),
                    session_key: group_session_key(g),
                },
            ),
            None => Err(E2eeError::NoGroupSession(group_id.to_string())),
        }
    }

    /// Whether `s` is what the device shares of its channel to a group.
    pub open spec fn shares(&self, group: Seq<char>, s: GroupSessionKeyShareView) -> bool {
        &&& self.sender_ids().contains_key(group)
        &&& s.group_id == group
        &&& s.session_id == self.sender_ids()[group]
        &&& session_key_error(s.session_key) is None
        &&& self.readable_with(group, s.session_key)
    }

    /// Whether `after` is the device once it took a session key in.
    pub open spec fn took_in(
        &self,
        after: &E2eeDevice,
        group: Seq<char>,
        session_id: Seq<char>,
        key: Seq<char>,
    ) -> bool {
        &&& after.receiving_key(group, session_id) == Some(key)
        &&& forall|g: Seq<char>, s: Seq<char>|
            g != group || s != session_id ==> #[trigger] after.receiving_key(g, s)
                == self.receiving_key(g, s)
    }

    /// Takes a group session key in, in the place of the one there was for the
    /// channel, if any.
    pub fn import_group_session_key(
        &mut self,
        group_id: &str,
        session_id: &str,
        session_key: &str,
    ) -> (r: Result<(), E2eeError>)
        requires
            old(self).wf(),
        ensures
            final(self).wf(),
            final(self).same_keys(old(self)),
            final(self).same_channels(old(self)),
            final(self).sender_ids() == old(self).sender_ids(),
            forall|g: Seq<char>| #[trigger] final(self).same_sender(old(self), g),
            match session_key_error(session_key@) {
                Some(e) => {
                    &&& r matches Err(E2eeError::SessionKey(x))
                    &&& x@ == e
                    &&& *final(self) == *old(self)
                },
                None => r is Ok && old(self).took_in(
                    final(self),
                    group_id@,
                    session_id@,
                    session_key@,
                ),
            },
    {
        match session_key_check(session_key) {
            Ok(_) => {},
            Err(e) => {
                return Err(E2eeError::SessionKey(e));
            },
        }
        let mut list: StrMap<String> = match self.group_inbound.remove(group_id) {
            Some(l) => l,
            None => StrMap::new(),
        };
        let _ = list.insert(session_id.to_string(), session_key.to_string());
        let _ = self.group_inbound.insert(group_id.to_string(), list);
        Ok(())
    }

    /// Takes a decrypted message in that may be a shared group session key;
    /// says whether it was one.
    pub fn import_group_key_share(&mut self, share: Option<GroupSessionKeyShare>) -> (r: Result<
        bool,
        E2eeError,
    >)
        requires
            old(self).wf(),
        ensures
            final(self).wf(),
            final(self).same_keys(old(self)),
            final(self).same_channels(old(self)),
            final(self).sender_ids() == old(self).sender_ids(),
            forall|g: Seq<char>| #[trigger] final(self).same_sender(old(self), g),
            match share {
                None => r == Ok::<bool, E2eeError>(false) && *final(self) == *old(self),
                Some(k) => match session_key_error(k@.session_key) {
                    Some(e) => {
                        &&& r matches Err(E2eeError::SessionKey(x))
                        &&& x@ == e
                        &&& *final(self) == *old(self)
                    },
                    None => r == Ok::<bool, E2eeError>(true) && old(self).took_in(
                        final(self),
                        k@.group_id,
                        k@.session_id,
                        k@.session_key,
                    ),
                },
            },
    {
        match share {
            None => Ok(false),
            Some(k) => match self.import_group_session_key(
                k.group_id.as_str(),
                k.session_id.as_str(),
                k.session_key.as_str(),
            ) {
                Ok(_) => Ok(true),
                Err(e) => Err(e),
            },
        }
    }

    /// Whether `p` is a message with this content to a group, and `after` the
    /// device once it was sent.
    pub open spec fn sends(
        &self,
        after: &E2eeDevice,
        group: Seq<char>,
        plaintext: Seq<u8>,
        p: EncryptedGroupPayloadView,
    ) -> bool {
        &&& p.session_id == self.sender_ids()[group]
        &&& megolm_error(p.ciphertext) is None
        &&& after.sent_to(group) == self.sent_to(group) + 1
        &&& forall|key: Seq<char>| #[trigger]
            self.readable_with(group, key) ==> after.readable_with(group, key) && group_opened(
                key,
                p.ciphertext,
            ) == Ok::<Seq<u8>, Seq<char>>(plaintext)
    }

    /// Encrypts for a group that the device has a sending side for. A channel
    /// takes no more messages than a machine number counts.
    pub fn encrypt_group_message(&mut self, group_id: &str, plaintext: &[u8]) -> (r: Result<
        EncryptedGroupPayload,
        E2eeError,
    >)
        requires
            old(self).wf(),
            old(self).sender_ids().contains_key(group_id@) ==> old(self).sent_to(group_id@)
                < u32::MAX,
        ensures
            final(self).wf(),
            final(self).same_keys(old(self)),
            final(self).same_channels(old(self)),
            final(self).same_receiving_keys(old(self)),
            final(self).sender_ids() == old(self).sender_ids(),
            forall|g: Seq<char>|
                g != group_id@ ==> #[trigger] final(self).same_sender(old(self), g),
            if old(self).sender_ids().contains_key(group_id@) {
                r matches Ok(p) && old(self).sends(final(self), group_id@, plaintext@, p@)
            } else {
                &&& r matches Err(E2eeError::NoGroupSession(g))
                &&& g@ == group_id@
                &&& *final(self) == *old(self)
            },
    {
        match self.group_outbound.get_mut(group_id) {
            None => Err(E2eeError::NoGroupSession(group_id.to_string())),
            Some(g) => {
                let ciphertext = group_encrypt(g, plaintext);
                let session_id = group_session_id(g);
                assert(self.sender_ids() =~= old(self).sender_ids());
                Ok(EncryptedGroupPayload { session_id, ciphertext })
            },
        }
    }

    /// What a device makes of a message to a group.
    pub open spec fn reads(&self, group: Seq<char>, p: EncryptedGroupPayloadView, r: Result<
        Vec<u8>,
        E2eeError,
    >) -> bool {
        match megolm_error(p.ciphertext) {
            Some(e) => r matches Err(E2eeError::Decode(x)) && x@ == e,
            None => match self.receiving_key(group, p.session_id) {
                None => {
                    &&& r matches Err(E2eeError::NoInboundGroupSession { group_id: g, session_id: s })
                    &&& g@ == group
                    &&& s@ == p.session_id
                },
                Some(key) => match group_opened(key, p.ciphertext) {
                    Ok(plaintext) => r matches Ok(v) && v@ == plaintext,
                    Err(e) => r matches Err(E2eeError::MegolmDecryption(x)) && x@ == e,
                },
            },
        }
    }

    /// Decrypts a message to a group with the session key that was taken in for
    /// its channel.
    pub fn decrypt_group_message(&self, group_id: &str, payload: &EncryptedGroupPayload) -> (r:
        Result<Vec<u8>, E2eeError>)
        requires
            self.wf(),
        ensures
            self.reads(group_id@, payload@, r),
    {
        match megolm_check(payload.ciphertext.as_slice()) {
            Ok(_) => {},
            Err(e) => {
                return Err(E2eeError::Decode(e));
            },
        }
        let key: Option<&String> = match self.group_inbound.get(group_id) {
            Some(list) => list.get(payload.session_id.as_str()),
            None => None,
        };
        match key {
            None => Err(
                E2eeError::NoInboundGroupSession {
                    group_id: group_id.to_string(),
                    session_id: payload.session_id.clone(),
                },
            ),
            Some(k) => match group_decrypt(k.as_str(), payload.ciphertext.as_slice()) {
                Ok(p) => Ok(p),
                Err(e) => Err(E2eeError::MegolmDecryption(e)),
            },
        }
    }

    /// Whether `needle` occurs in `body`.
    pub fn body_contains_substring(body: &[u8], needle: &[u8]) -> (r: bool)
        requires
            needle@.len() > 0,
        ensures
            r == exists|i: int|
                0 <= i <= body@.len() - needle@.len() && #[trigger] body@.subrange(
                    i,
                    i + needle@.len(),
                ) == needle@,
    {
        let n: usize = needle.len();
        let total: usize = body.len();
        if total < n {
            return false;
        }
        let mut i: usize = 0;
        let last: usize = total - n;
        while i <= last
            invariant
                n == needle@.len(),
                n > 0,
                total == body@.len(),
                last == total - n,
                i <= last + 1,
                forall|k: int|
                    0 <= k < i ==> #[trigger] body@.subrange(k, k + n as int) != needle@,
            decreases last + 1 - i,
        {
            let mut j: usize = 0;
            while j < n && body[i + j] == needle[j]
                invariant
                    n == needle@.len(),
                    i <= last,
                    total == body@.len(),
                    last == total - n,
                    j <= n,
                    forall|k: int| 0 <= k < j ==> body@[i + k] == needle@[k],
                decreases n - j,
            {
                j += 1;
            }
            if j == n {
                assert(body@.subrange(i as int, i + n as int) =~= needle@);
                return true;
            }
            assert(body@.subrange(i as int, i + n as int)[j as int] != needle@[j as int]);
            if i == last {
                return false;
            }
            i += 1;
        }
        false
    }

    /// Whether a text holds the keys of the device under a key: the identity
    /// key, and the one-time keys with it if they are in order.
    pub open spec fn kept_in(&self, text: Seq<char>, pickle_key: Seq<u8>) -> bool {
        match unpickled(text, pickle_key) {
            Err(_) => false,
            Ok(v) => v.identity == self.identity() && (self.keys_in_order() ==> v == self.keys()),
        }
    }

    /// The device's keys, encrypted. Channels are not part of it.
    pub fn export_account_pickle(&self, pickle_key: &[u8; 32]) -> (s: String)
        ensures
            self.kept_in(s@, pickle_key@),
    {
        account_pickle(&self.account, pickle_key)
    }

    /// A device with keys that were exported, without channels.
    pub fn import_account_pickle(encrypted: &str, pickle_key: &[u8; 32]) -> (r: Result<
        Self,
        E2eeError,
    >)
        ensures
            match unpickled(encrypted@, pickle_key@) {
                Err(e) => r matches Err(E2eeError::Pickle(x)) && x@ == e,
                Ok(v) => {
                    &&& r matches Ok(d)
                    &&& d.wf()
                    &&& d.unconnected()
                    &&& d.keys() == v
                },
            },
    {
        match account_unpickle(encrypted, pickle_key) {
            Ok(account) => Ok(Self::with_account(account)),
            Err(e) => Err(E2eeError::Pickle(e)),
        }
    }
}

/// Devices with the same keys answer to the same keys.
pub proof fn law_same_keys_answer_alike(a: E2eeDevice, b: E2eeDevice)
    requires
        a.keys() == b.keys(),
    ensures
        forall|identity: Seq<u8>, one_time: Seq<u8>| #[trigger]
            a.answers_to(identity, one_time) == b.answers_to(identity, one_time),
{
}

/// Both sides compute the same safety number.
pub proof fn law_safety_number_is_symmetric(a: Seq<char>, b: Seq<char>)
    ensures
        safety_text(a, b) == safety_text(b, a),
{
    lemma_text_le_total(a, b);
}

/// What a device writes first on a channel that it opened with another device's
/// keys, that device reads: it finds the channel opened, and the plaintext.
pub proof fn law_first_message_is_read(
    writer: E2eeDevice,
    reader: E2eeDevice,
    after: E2eeDevice,
    writer_name: Seq<char>,
    reader_name: Seq<char>,
    keys: (Seq<u8>, Seq<u8>),
    plaintext: Seq<u8>,
    p: EncryptedPayloadView,
    r: Result<Vec<u8>, E2eeError>,
)
    requires
        writer.addressed(reader_name) == Some(keys),
        reader.answers_to(keys.0, keys.1),
        !reader.peers().contains(writer_name),
        plaintext.len() > 0,
        seals(p, plaintext),
        writer.writes_first(reader_name, plaintext, p),
        reader.takes(&after, writer_name, p, r),
    ensures
        r matches Ok(v) && v@ == plaintext,
        after.peers() == reader.peers().insert(writer_name),
        after.heard(writer_name),
        after.can_write(writer_name),
        reader.keys_in_order() ==> reader.used_one_key(&after),
{
    match writer.addressed(reader_name) {
        Some(k) => {
            assert(reader.answers_to(k.0, k.1));
            assert(reader.opens_first(key_parsed(p.sender_key)->Ok_0, p.ciphertext) == Ok::<
                Seq<u8>,
                Seq<char>,
            >(plaintext));
        },
        None => {},
    }
}

/// A member who took in the session key that a device shared for a group reads
/// every message that the device sends to the group afterwards, in whatever
/// order they come: here the one sent from the state `states[n]`, where the key
/// was shared in `states[0]`.
pub proof fn law_members_read_what_is_sent(
    states: Seq<E2eeDevice>,
    texts: Seq<Seq<u8>>,
    payloads: Seq<EncryptedGroupPayloadView>,
    group: Seq<char>,
    share: GroupSessionKeyShareView,
    member: E2eeDevice,
    n: int,
    r: Result<Vec<u8>, E2eeError>,
)
    requires
        0 <= n < payloads.len(),
        states.len() == payloads.len() + 1,
        texts.len() == payloads.len(),
        states[0].shares(group, share),
        forall|i: int|
            0 <= i < payloads.len() ==> (#[trigger] states[i]).sender_ids() == states[0].sender_ids()
                && states[i].sends(&states[i + 1], group, texts[i], payloads[i]),
        member.receiving_key(group, share.session_id) == Some(share.session_key),
        member.reads(group, payloads[n], r),
    ensures
        r matches Ok(v) && v@ == texts[n],
{
    lemma_share_stays_good(states, texts, payloads, group, share.session_key, n);
    assert(states[n].sends(&states[n + 1], group, texts[n], payloads[n]));
    assert(states[n].readable_with(group, share.session_key));
}

/// A session key goes on covering what is sent.
proof fn lemma_share_stays_good(
    states: Seq<E2eeDevice>,
    texts: Seq<Seq<u8>>,
    payloads: Seq<EncryptedGroupPayloadView>,
    group: Seq<char>,
    key: Seq<char>,
    n: int,
)
    requires
        0 <= n < payloads.len(),
        states.len() == payloads.len() + 1,
        texts.len() == payloads.len(),
        states[0].readable_with(group, key),
        forall|i: int|
            0 <= i < payloads.len() ==> (#[trigger] states[i]).sends(
                &states[i + 1],
                group,
                texts[i],
                payloads[i],
            ),
    ensures
        states[n].readable_with(group, key),
    decreases n,
{
    if n > 0 {
        lemma_share_stays_good(states, texts, payloads, group, key, n - 1);
        assert(states[n - 1].sends(&states[n - 1 + 1], group, texts[n - 1], payloads[n - 1]));
    }
}

/// The keys taken out of a bundle, if it has them.
pub open spec fn taken_from(b: KeyBundleView, r: Result<PeerKeyBundle, E2eeError>) -> bool {
    match r {
        Ok(k) => {
            &&& b.found
            &&& b.identity_key.len() > 0
            &&& b.one_time_key.len() > 0
            &&& k.identity_key@ == b.identity_key
            &&& k.one_time_key@ == b.one_time_key
        },
        Err(e) => e is IncompleteBundle && (!b.found || b.identity_key.len() == 0
            || b.one_time_key.len() == 0),
    }
}

/// A bundle that was found and is complete gives the keys that it carries, and no
/// other bundle gives any.
pub proof fn law_complete_bundles_give_their_keys(
    b: KeyBundleView,
    r: Result<PeerKeyBundle, E2eeError>,
)
    requires
        taken_from(b, r),
    ensures
        r is Ok <==> b.found && b.identity_key.len() > 0 && b.one_time_key.len() > 0,
        r is Ok ==> r->Ok_0.identity_key@ == b.identity_key && r->Ok_0.one_time_key@
            == b.one_time_key,
{
}

} // verus!
