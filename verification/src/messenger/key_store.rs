//! Key directory: the public keys that devices published, from which a sender
//! takes a bundle to open an encrypted session.

use crate::collections::StrMap;
use crate::messenger::wire::{KeyBundle, KeyBundleView, PublishKeys, PublishKeysView};
use crate::text::{clone_strings, strs};
use vstd::prelude::*;

verus! {

/// Published keys of one device.
#[derive(Debug, PartialEq, Eq)]
pub struct StoredDeviceKeys {
    pub device_id: String,
    pub identity_key: String,
    pub one_time_keys: Vec<String>,
    pub published_at: u64,
}

/// What [`StoredDeviceKeys`] holds.
#[verifier::ext_equal]
pub struct StoredKeysView {
    pub device_id: Seq<char>,
    pub identity_key: Seq<char>,
    pub one_time_keys: Seq<Seq<char>>,
    pub published_at: u64,
}

impl View for StoredDeviceKeys {
    type V = StoredKeysView;

    open spec fn view(&self) -> StoredKeysView {
        StoredKeysView {
            device_id: self.device_id@,
            identity_key: self.identity_key@,
            one_time_keys: strs(self.one_time_keys@),
            published_at: self.published_at,
        }
    }
}

impl Clone for StoredDeviceKeys {
    fn clone(&self) -> (r: Self)
        ensures
            r@ == self@,
    {
        StoredDeviceKeys {
            device_id: self.device_id.clone(),
            identity_key: self.identity_key.clone(),
            one_time_keys: clone_strings(&self.one_time_keys),
            published_at: self.published_at,
        }
    }
}

/// The keys of a publication, under its number.
pub open spec fn published(k: PublishKeysView, at: u64) -> StoredKeysView {
    StoredKeysView {
        device_id: k.device_id,
        identity_key: k.identity_key,
        one_time_keys: k.one_time_keys,
        published_at: at,
    }
}

/// The one-time key that is handed out next; empty where none is left.
pub open spec fn next_key(k: StoredKeysView) -> Seq<char> {
    if k.one_time_keys.len() > 0 {
        k.one_time_keys[0]
    } else {
        Seq::empty()
    }
}

/// The keys once the next one was handed out.
pub open spec fn consumed(k: StoredKeysView) -> StoredKeysView {
    if next_key(k).len() > 0 {
        StoredKeysView { one_time_keys: k.one_time_keys.skip(1), ..k }
    } else {
        k
    }
}

/// The bundle made of some keys.
pub open spec fn bundle_of(
    user: Seq<char>,
    for_user: Seq<char>,
    k: StoredKeysView,
    device_ids: Seq<Seq<char>>,
) -> KeyBundleView {
    KeyBundleView {
        user_id: user,
        device_id: k.device_id,
        identity_key: k.identity_key,
        one_time_key: next_key(k),
        for_user,
        found: k.identity_key.len() > 0 && next_key(k).len() > 0,
        device_ids,
    }
}

/// The answer where there are no keys.
pub open spec fn no_bundle(
    user: Seq<char>,
    for_user: Seq<char>,
    device_ids: Seq<Seq<char>>,
) -> KeyBundleView {
    KeyBundleView {
        user_id: user,
        device_id: Seq::empty(),
        identity_key: Seq::empty(),
        one_time_key: Seq::empty(),
        for_user,
        found: false,
        device_ids,
    }
}

/// The devices of a user by their views.
pub open spec fn device_views(m: Map<Seq<char>, StoredDeviceKeys>) -> Map<
    Seq<char>,
    StoredKeysView,
> {
    m.map_values(|k: StoredDeviceKeys| k@)
}

/// Keys of all devices of all users.
pub struct KeyDirectory {
    pub devices: StrMap<StrMap<StoredDeviceKeys>>,
    pub publish_seq: u64,
}

/// Whether `d` is the device that a fetch takes: the named one, or where none
/// is named one that published last.
pub open spec fn is_pick(
    devs: Map<Seq<char>, StoredKeysView>,
    device_id: Seq<char>,
    d: Seq<char>,
) -> bool {
    &&& devs.contains_key(d)
    &&& if device_id.len() > 0 {
        d == device_id
    } else {
        forall|e: Seq<char>| #[trigger]
            devs.contains_key(e) ==> devs[e].published_at <= devs[d].published_at
    }
}

/// Takes the next one-time key out of some keys.
fn consume(keys: &mut StoredDeviceKeys) -> (key: String)
    ensures
        key@ == next_key(old(keys)@),
        final(keys)@ == consumed(old(keys)@),
{
    if keys.one_time_keys.len() == 0 {
        return String::new();
    }
    let ghost was = keys@;
    if keys.one_time_keys[0].as_str().is_empty() {
        let r = keys.one_time_keys[0].clone();
        return r;
    }
    let ghost before = keys.one_time_keys@;
    let key = keys.one_time_keys.remove(0);
    assert(strs(keys.one_time_keys@) =~= strs(before).skip(1));
    key
}

/// A bundle of some keys, of which `one_time_key` was taken.
fn make_bundle(
    user_id: &str,
    for_user: &str,
    keys: &StoredDeviceKeys,
    one_time_key: String,
    device_ids: Vec<String>,
) -> (b: KeyBundle)
    ensures
        b@.user_id == user_id@,
        b@.device_id == keys@.device_id,
        b@.identity_key == keys@.identity_key,
        b@.one_time_key == one_time_key@,
        b@.for_user == for_user@,
        b@.found == (keys@.identity_key.len() > 0 && one_time_key@.len() > 0),
        b@.device_ids == strs(device_ids@),
{
    let found = !keys.identity_key.as_str().is_empty() && !one_time_key.as_str().is_empty();
    KeyBundle {
        user_id: user_id.to_string(),
        device_id: keys.device_id.clone(),
        identity_key: keys.identity_key.clone(),
        one_time_key,
        for_user: for_user.to_string(),
        found,
        device_ids,
    }
}

impl KeyDirectory {
    /// The keys of a user's devices.
    pub open spec fn at(&self, user: Seq<char>) -> Map<Seq<char>, StoredKeysView> {
        if self.devices@.contains_key(user) {
            device_views(self.devices@[user]@)
        } else {
            Map::empty()
        }
    }

    /// Keys are filed under their devices, and a listed user has a device.
    pub open spec fn wf(&self) -> bool {
        &&& self.devices.wf()
        &&& forall|u: Seq<char>|
            self.devices@.contains_key(u) ==> (#[trigger] self.devices@[u]).wf()
                && self.devices@[u].entries@.len() > 0
        &&& forall|u: Seq<char>, d: Seq<char>| #[trigger]
            self.at(u).contains_key(d) ==> self.at(u)[d].device_id == d
    }

    /// An empty directory.
    pub fn memory() -> (k: Self)
        ensures
            k.wf(),
            k.publish_seq == 0,
            forall|u: Seq<char>| #[trigger]
                k.at(u) == Map::<Seq<char>, StoredKeysView>::empty(),
    {
        KeyDirectory { devices: StrMap::new(), publish_seq: 0 }
    }

    /// An empty directory that is filled from storage; its publications are
    /// counted from `publish_seq` on, so that they come after those in storage.
    pub fn resuming_at(publish_seq: u64) -> (k: Self)
        ensures
            k.wf(),
            k.publish_seq == publish_seq,
            forall|u: Seq<char>| #[trigger]
                k.at(u) == Map::<Seq<char>, StoredKeysView>::empty(),
    {
        KeyDirectory { devices: StrMap::new(), publish_seq }
    }

    /// The devices of a user, taken out of the directory.
    fn take_user(&mut self, user: &str) -> (devs: StrMap<StoredDeviceKeys>)
        requires
            old(self).wf(),
        ensures
            devs.wf(),
            device_views(devs@) == old(self).at(user@),
            final(self).devices.wf(),
            final(self).devices@ == old(self).devices@.remove(user@),
            final(self).publish_seq == old(self).publish_seq,
    {
        match self.devices.remove(user) {
            Some(d) => d,
            None => {
                let d: StrMap<StoredDeviceKeys> = StrMap::new();
                assert(device_views(d@) =~= Map::<Seq<char>, StoredKeysView>::empty());
                d
            },
        }
    }

    /// Files the keys of one device, replacing those it had.
    pub fn put(&mut self, user: &str, keys: StoredDeviceKeys)
        requires
            old(self).wf(),
        ensures
            final(self).wf(),
            final(self).publish_seq == old(self).publish_seq,
            forall|u: Seq<char>| #[trigger]
                final(self).at(u) == (if u == user@ {
                    old(self).at(u).insert(keys@.device_id, keys@)
                } else {
                    old(self).at(u)
                }),
    {
        let ghost before = *self;
        let ghost kv = keys@;
        let mut devs = self.take_user(user);
        let ghost was = devs@;
        let id = keys.device_id.clone();
        let _ = devs.insert(id, keys);
        proof {
            devs.lemma_len();
            assert(devs@.contains_key(kv.device_id));
            if devs.entries@.len() == 0 {
                assert(devs@.dom() =~= Set::<Seq<char>>::empty());
            }
            assert(device_views(devs@) =~= device_views(was).insert(kv.device_id, kv));
        }
        let _ = self.devices.insert(user.to_string(), devs);
        proof {
            assert forall|u: Seq<char>| #[trigger]
                self.at(u) == (if u == user@ {
                    before.at(u).insert(kv.device_id, kv)
                } else {
                    before.at(u)
                }) by {}
            assert forall|u: Seq<char>, d: Seq<char>| #[trigger]
                self.at(u).contains_key(d) implies self.at(u)[d].device_id == d by {
                if before.at(u).contains_key(d) {
                }
            }
        }
    }

    /// Publishes or rotates the keys of one device. Gives what was filed. The
    /// count of publications wraps around.
    pub fn publish(&mut self, k: &PublishKeys) -> (stored: StoredDeviceKeys)
        requires
            old(self).wf(),
        ensures
            final(self).wf(),
            final(self).publish_seq == (if old(self).publish_seq == u64::MAX {
                0
            } else {
                (old(self).publish_seq + 1) as u64
            }),
            stored@ == published(k@, old(self).publish_seq),
            forall|u: Seq<char>| #[trigger]
                final(self).at(u) == (if u == k@.user_id {
                    old(self).at(u).insert(k@.device_id, stored@)
                } else {
                    old(self).at(u)
                }),
    {
        let seq: u64 = self.publish_seq;
        let stored = StoredDeviceKeys {
            device_id: k.device_id.clone(),
            identity_key: k.identity_key.clone(),
            one_time_keys: clone_strings(&k.one_time_keys),
            published_at: seq,
        };
        assert(stored@ =~= published(k@, seq));
        let copy = stored.clone();
        self.put(k.user_id.as_str(), stored);
        let ghost mid = *self;
        self.publish_seq = if seq == u64::MAX {
            0
        } else {
            seq + 1
        };
        assert(forall|u: Seq<char>| #[trigger] self.at(u) == mid.at(u));
        copy
    }

    /// Revokes the keys of a device.
    pub fn remove_device(&mut self, user: &str, device_id: &str)
        requires
            old(self).wf(),
        ensures
            final(self).wf(),
            final(self).publish_seq == old(self).publish_seq,
            forall|u: Seq<char>| #[trigger]
                final(self).at(u) == (if u == user@ {
                    old(self).at(u).remove(device_id@)
                } else {
                    old(self).at(u)
                }),
    {
        let ghost before = *self;
        let mut devs = self.take_user(user);
        let ghost was = devs@;
        let _ = devs.remove(device_id);
        assert(device_views(devs@) =~= device_views(was).remove(device_id@));
        if devs.entries.len() > 0 {
            let _ = self.devices.insert(user.to_string(), devs);
        } else {
            proof {
                devs.lemma_len();
                assert(devs@.dom() =~= Set::<Seq<char>>::empty());
                assert(device_views(devs@) =~= Map::<Seq<char>, StoredKeysView>::empty());
            }
        }
        proof {
            assert forall|u: Seq<char>| #[trigger]
                self.at(u) == (if u == user@ {
                    before.at(u).remove(device_id@)
                } else {
                    before.at(u)
                }) by {}
            assert forall|u: Seq<char>, d: Seq<char>| #[trigger]
                self.at(u).contains_key(d) implies self.at(u)[d].device_id == d by {
                assert(before.at(u).contains_key(d));
            }
        }
    }

    /// The ids of a user's devices.
    pub fn device_ids(&self, user: &str) -> (v: Vec<String>)
        requires
            self.wf(),
        ensures
            strs(v@).no_duplicates(),
            strs(v@).to_set() == self.at(user@).dom(),
    {
        let mut out: Vec<String> = Vec::new();
        match self.devices.get(user) {
            None => {
                assert(strs(out@).to_set() =~= self.at(user@).dom());
            },
            Some(devs) => {
                let mut i: usize = 0;
                while i < devs.entries.len()
                    invariant
                        i <= devs.entries@.len(),
                        out@.len() == i,
                        forall|j: int|
                            0 <= j < i ==> (#[trigger] out@[j])@ == devs.entries@[j].0@,
                    decreases devs.entries@.len() - i,
                {
                    out.push(devs.entries[i].0.clone());
                    i += 1;
                }
                proof {
                    devs.lemma_len();
                    assert(strs(out@) =~= devs.keys());
                    assert(self.at(user@).dom() =~= devs@.dom());
                }
            },
        }
        out
    }

    /// The device that a fetch takes.
    fn pick_device(&self, user: &str, device_id: &str) -> (r: Option<String>)
        requires
            self.wf(),
        ensures
            match r {
                Some(d) => is_pick(self.at(user@), device_id@, d@),
                None => forall|d: Seq<char>| !is_pick(self.at(user@), device_id@, d),
            },
            r is None ==> if device_id@.len() > 0 {
                !self.at(user@).contains_key(device_id@)
            } else {
                self.at(user@).dom() == Set::<Seq<char>>::empty()
            },
    {
        let devs = match self.devices.get(user) {
            None => {
                return None;
            },
            Some(d) => d,
        };
        if !device_id.is_empty() {
            if devs.contains_key(device_id) {
                return Some(device_id.to_string());
            } else {
                return None;
            }
        }
        let mut best: usize = 0;
        let mut i: usize = 1;
        while i < devs.entries.len()
            invariant
                1 <= i <= devs.entries@.len(),
                best < i,
                forall|j: int|
                    0 <= j < i ==> (#[trigger] devs.entries@[j]).1.published_at
                        <= devs.entries@[best as int].1.published_at,
            decreases devs.entries@.len() - i,
        {
            if devs.entries[i].1.published_at >= devs.entries[best].1.published_at {
                best = i;
            }
            i += 1;
        }
        proof {
            devs.lemma_entry(best as int);
            let views = self.at(user@);
            let d = devs.entries@[best as int].0@;
            assert forall|e: Seq<char>| #[trigger]
                views.contains_key(e) implies views[e].published_at <= views[d].published_at by {
                devs.lemma_key_has_entry(e);
                let j = choose|j: int|
                    0 <= j < devs.entries@.len() && #[trigger] devs.entries@[j].0@ == e
                        && devs.entries@[j].1 == devs@[e];
                assert(devs.entries@[j].1.published_at <= devs.entries@[best as int].1.published_at);
            }
        }
        Some(devs.entries[best].0.clone())
    }

    /// Builds the bundle of a user's device and hands out one of its one-time
    /// keys. `stored` is what the storage holds for the named device; it is
    /// taken where the directory does not know the device. The second result is
    /// what has to be stored again.
    pub fn fetch_bundle(
        &mut self,
        user_id: &str,
        device_id: &str,
        for_user: &str,
        stored: Option<StoredDeviceKeys>,
    ) -> (r: (KeyBundle, Option<StoredDeviceKeys>))
        requires
            old(self).wf(),
        ensures
            final(self).wf(),
            final(self).publish_seq == old(self).publish_seq,
            (r.0)@.device_ids.no_duplicates(),
            (r.0)@.device_ids.to_set() == old(self).at(user_id@).dom(),
            ({
                let devs = old(self).at(user_id@);
                if exists|d: Seq<char>| is_pick(devs, device_id@, d) {
                    exists|d: Seq<char>| #[trigger]
                        is_pick(devs, device_id@, d) && handed_out(
                            *old(self),
                            *final(self),
                            user_id@,
                            for_user@,
                            devs[d],
                            r,
                        )
                } else if device_id@.len() > 0 && stored is Some {
                    handed_out(*old(self), *final(self), user_id@, for_user@, stored->0@, r)
                } else {
                    &&& (r.0)@ == no_bundle(user_id@, for_user@, (r.0)@.device_ids)
                    &&& r.1 is None
                    &&& *final(self) == *old(self)
                }
            }),
    {
        let device_ids = self.device_ids(user_id);
        let ghost before = *self;
        let ghost devs = self.at(user_id@);
        let found: Option<StoredDeviceKeys> = match self.pick_device(user_id, device_id) {
            Some(d) => {
                let keys = match self.devices.get(user_id) {
                    Some(m) => match m.get(d.as_str()) {
                        Some(k) => Some(k.clone()),
                        None => None,
                    },
                    None => None,
                };
                assert(is_pick(devs, device_id@, d@));
                assert(keys matches Some(k) && k@ == devs[d@]);
                keys
            },
            None => {
                assert(forall|d: Seq<char>| !is_pick(devs, device_id@, d));
                if device_id.is_empty() {
                    None
                } else {
                    stored
                }
            },
        };
        match found {
            None => {
                let b = KeyBundle {
                    user_id: user_id.to_string(),
                    device_id: String::new(),
                    identity_key: String::new(),
                    one_time_key: String::new(),
                    for_user: for_user.to_string(),
                    found: false,
                    device_ids,
                };
                assert(b@ =~= no_bundle(user_id@, for_user@, b@.device_ids));
                (b, None)
            },
            Some(k) => {
                let ghost kv = k@;
                let mut keys = k;
                let one_time = consume(&mut keys);
                let again = keys.clone();
                let b = make_bundle(user_id, for_user, &keys, one_time, device_ids);
                assert(b@ =~= bundle_of(user_id@, for_user@, kv, b@.device_ids));
                self.put(user_id, keys);
                let r = (b, Some(again));
                assert(handed_out(before, *self, user_id@, for_user@, kv, r));
                r
            },
        }
    }
}

/// What it means that a fetch handed out the next key of `k`.
pub open spec fn handed_out(
    before: KeyDirectory,
    after: KeyDirectory,
    user: Seq<char>,
    for_user: Seq<char>,
    k: StoredKeysView,
    r: (KeyBundle, Option<StoredDeviceKeys>),
) -> bool {
    &&& (r.0)@ == bundle_of(user, for_user, k, (r.0)@.device_ids)
    &&& r.1 matches Some(again)
    &&& again@ == consumed(k)
    &&& forall|u: Seq<char>| #[trigger]
        after.at(u) == (if u == user {
            before.at(u).insert(k.device_id, consumed(k))
        } else {
            before.at(u)
        })
}

/// The keys once `n` of them were handed out.
pub open spec fn drained(k: StoredKeysView, n: nat) -> StoredKeysView
    decreases n,
{
    if n == 0 {
        k
    } else {
        consumed(drained(k, (n - 1) as nat))
    }
}

/// One-time keys are handed out in the order of their publication, each once:
/// fetch number `n` gets key number `n`, and a fetch after the last key finds
/// none.
pub proof fn law_one_time_keys_are_single_use(k: StoredKeysView, n: nat)
    requires
        n <= k.one_time_keys.len(),
        forall|i: int| 0 <= i < k.one_time_keys.len() ==> (#[trigger] k.one_time_keys[i]).len() > 0,
    ensures
        drained(k, n) == (StoredKeysView { one_time_keys: k.one_time_keys.skip(n as int), ..k }),
        n < k.one_time_keys.len() ==> next_key(drained(k, n)) == k.one_time_keys[n as int],
        n == k.one_time_keys.len() ==> forall|user: Seq<char>, by: Seq<char>, ids: Seq<Seq<char>>|
            !(#[trigger] bundle_of(user, by, drained(k, n), ids)).found,
    decreases n,
{
    if n > 0 {
        let m = (n - 1) as nat;
        law_one_time_keys_are_single_use(k, m);
        assert(k.one_time_keys.skip(m as int).skip(1) =~= k.one_time_keys.skip(n as int));
    } else {
        assert(k.one_time_keys.skip(0) =~= k.one_time_keys);
    }
}

/// The directory after keys were published.
pub open spec fn published_in(before: KeyDirectory, after: KeyDirectory, k: PublishKeysView) -> bool {
    &&& after.publish_seq == (if before.publish_seq == u64::MAX {
        0
    } else {
        (before.publish_seq + 1) as u64
    })
    &&& forall|u: Seq<char>| #[trigger]
        after.at(u) == (if u == k.user_id {
            before.at(u).insert(k.device_id, published(k, before.publish_seq))
        } else {
            before.at(u)
        })
}

/// The directory after a device's keys were revoked.
pub open spec fn revoked_in(
    before: KeyDirectory,
    after: KeyDirectory,
    user: Seq<char>,
    device_id: Seq<char>,
) -> bool {
    &&& after.publish_seq == before.publish_seq
    &&& forall|u: Seq<char>| #[trigger]
        after.at(u) == (if u == user {
            before.at(u).remove(device_id)
        } else {
            before.at(u)
        })
}

/// What a fetch from a directory without storage gives, and the directory after
/// it: the bundle of the requested device, or where none is requested of one
/// that published last, whose next one-time key is used up.
pub open spec fn fetched(
    before: KeyDirectory,
    after: KeyDirectory,
    user: Seq<char>,
    device_id: Seq<char>,
    for_user: Seq<char>,
    b: KeyBundleView,
) -> bool {
    let devs = before.at(user);
    &&& after.publish_seq == before.publish_seq
    &&& b.device_ids.no_duplicates()
    &&& b.device_ids.to_set() == devs.dom()
    &&& if exists|d: Seq<char>| is_pick(devs, device_id, d) {
        exists|d: Seq<char>| #[trigger]
            is_pick(devs, device_id, d) && b == bundle_of(user, for_user, devs[d], b.device_ids)
                && (forall|u: Seq<char>| #[trigger]
                after.at(u) == (if u == user {
                    before.at(u).insert(d, consumed(devs[d]))
                } else {
                    before.at(u)
                }))
    } else {
        &&& b == no_bundle(user, for_user, b.device_ids)
        &&& forall|u: Seq<char>| #[trigger] after.at(u) == before.at(u)
    }
}

/// Each device has keys of its own: publishing, revoking or fetching those of
/// one leaves those of every other device of every user as they are.
pub proof fn law_devices_are_apart(
    before: KeyDirectory,
    after: KeyDirectory,
    k: PublishKeysView,
    user: Seq<char>,
    device: Seq<char>,
)
    requires
        user != k.user_id || device != k.device_id,
    ensures
        published_in(before, after, k) || revoked_in(before, after, k.user_id, k.device_id) ==> (
        after.at(user).contains_key(device) <==> before.at(user).contains_key(device)) && (
        before.at(user).contains_key(device) ==> after.at(user)[device] == before.at(
            user,
        )[device]),
        published_in(before, after, k) ==> after.at(k.user_id)[k.device_id] == published(
            k,
            before.publish_seq,
        ) && after.at(k.user_id).contains_key(k.device_id),
        revoked_in(before, after, k.user_id, k.device_id) ==> !after.at(k.user_id).contains_key(
            k.device_id,
        ),
{
}

/// Who asks for the keys of a device gets what the device published last: its
/// identity key and the first of its one-time keys, which is then no longer
/// there for the next one who asks. The rest of the keys stay in their order.
pub proof fn law_fetch_gives_what_was_published(
    before: KeyDirectory,
    between: KeyDirectory,
    after: KeyDirectory,
    k: PublishKeysView,
    for_user: Seq<char>,
    b: KeyBundleView,
)
    requires
        published_in(before, between, k),
        fetched(between, after, k.user_id, k.device_id, for_user, b),
        k.device_id.len() > 0,
        k.one_time_keys.len() > 0,
        k.one_time_keys[0].len() > 0,
    ensures
        b.user_id == k.user_id,
        b.device_id == k.device_id,
        b.identity_key == k.identity_key,
        b.one_time_key == k.one_time_keys[0],
        b.for_user == for_user,
        b.found <==> k.identity_key.len() > 0,
        b.device_ids.contains(k.device_id),
        after.at(k.user_id).contains_key(k.device_id),
        after.at(k.user_id)[k.device_id].identity_key == k.identity_key,
        after.at(k.user_id)[k.device_id].one_time_keys == k.one_time_keys.subrange(
            1,
            k.one_time_keys.len() as int,
        ),
{
    let devs = between.at(k.user_id);
    assert(is_pick(devs, k.device_id, k.device_id));
    assert(b.device_ids.to_set().contains(k.device_id));
}

/// A device that has no one-time key left, or none that is not empty, is
/// reported as not found, and so is one that was revoked. The list of devices
/// names those that have keys.
pub proof fn law_used_up_and_revoked_devices_are_not_found(
    before: KeyDirectory,
    after: KeyDirectory,
    user: Seq<char>,
    device: Seq<char>,
    for_user: Seq<char>,
    b: KeyBundleView,
    other: Seq<char>,
)
    requires
        fetched(before, after, user, device, for_user, b),
        device.len() > 0,
    ensures
        b.found ==> before.at(user).contains_key(device) && before.at(
            user,
        )[device].one_time_keys.len() > 0 && before.at(user)[device].identity_key.len() > 0,
        !before.at(user).contains_key(device) ==> b.identity_key.len() == 0 && b.one_time_key.len()
            == 0,
        b.found && before.at(user)[device].device_id == device ==> b.device_id == device,
        b.device_ids.contains(other) <==> before.at(user).contains_key(other),
        other != device && before.at(user).contains_key(other) ==> after.at(user).contains_key(
            other,
        ) && after.at(user)[other] == before.at(user)[other],
        other != user ==> after.at(other) == before.at(other),
{
    assert(b.device_ids.to_set().contains(other) <==> b.device_ids.contains(other));
    if before.at(user).contains_key(device) {
        assert(is_pick(before.at(user), device, device));
    }
}

/// Who asks for the keys of a user without naming a device gets those of the
/// device that published last.
pub proof fn law_latest_device_answers_for_the_user(
    before: KeyDirectory,
    between: KeyDirectory,
    after: KeyDirectory,
    k: PublishKeysView,
    for_user: Seq<char>,
    b: KeyBundleView,
)
    requires
        published_in(before, between, k),
        forall|d: Seq<char>| #[trigger]
            before.at(k.user_id).contains_key(d) ==> before.at(k.user_id)[d].published_at
                < before.publish_seq,
        fetched(between, after, k.user_id, Seq::empty(), for_user, b),
    ensures
        b.device_id == k.device_id,
        b.identity_key == k.identity_key,
        k.one_time_keys.len() > 0 ==> b.one_time_key == k.one_time_keys[0],
        before.publish_seq < u64::MAX ==> forall|d: Seq<char>| #[trigger]
            between.at(k.user_id).contains_key(d) ==> between.at(k.user_id)[d].published_at
                < between.publish_seq,
{
    let devs = between.at(k.user_id);
    assert forall|e: Seq<char>| #[trigger] devs.contains_key(e) implies devs[e].published_at
        <= devs[k.device_id].published_at by {
        if e != k.device_id {
            assert(before.at(k.user_id).contains_key(e));
        }
    }
    assert(is_pick(devs, Seq::empty(), k.device_id));
    let d = choose|d: Seq<char>| #[trigger]
        is_pick(devs, Seq::empty(), d) && b == bundle_of(
            k.user_id,
            for_user,
            devs[d],
            b.device_ids,
        ) && (forall|u: Seq<char>| #[trigger]
            after.at(u) == (if u == k.user_id {
                between.at(u).insert(d, consumed(devs[d]))
            } else {
                between.at(u)
            }));
    if d != k.device_id {
        assert(before.at(k.user_id).contains_key(d));
        assert(devs[k.device_id].published_at <= devs[d].published_at);
    }
    if before.publish_seq < u64::MAX {
        assert forall|e: Seq<char>| #[trigger] devs.contains_key(e) implies devs[e].published_at
            < between.publish_seq by {
            if e != k.device_id {
                assert(before.at(k.user_id).contains_key(e));
            }
        }
    }
}

} // verus!
