//! Presence: who is reachable and where, and who is told.

use crate::collections::StrMap;
use crate::distributed::lemma_filter_members;
use crate::messenger::cluster::ClusterState;
use crate::messenger::codec::{Packet, PacketView};
use crate::messenger::effects::{
    effect_views, no_effects, push_effect, text_of, Effect, EffectView,
};
use crate::messenger::sessions::{other_session, SessionTable};
use crate::messenger::wire::{
    PeerPresence, PeerPresenceView, Presence, PresenceKind, PresenceView, SubscribePresence,
};
use crate::text::{clone_strings, contains_str, same, strs};
use vstd::prelude::*;

verus! {

/// Whether a user has no roster of contacts, or one that lists a contact.
pub open spec fn lists_contact(
    rosters: Map<Seq<char>, Vec<String>>,
    user: Seq<char>,
    contact: Seq<char>,
) -> bool {
    rosters.contains_key(user) ==> strs(rosters[user]@).contains(contact)
}

/// Whether two users exchange presence: each has no roster or lists the other.
pub open spec fn exchange(
    rosters: Map<Seq<char>, Vec<String>>,
    a: Seq<char>,
    b: Seq<char>,
) -> bool {
    lists_contact(rosters, a, b) && lists_contact(rosters, b, a)
}

/// Who is told about a user: everyone else who exchanges presence with the user.
pub open spec fn is_told(rosters: Map<Seq<char>, Vec<String>>, user: Seq<char>) -> spec_fn(
    Seq<char>,
) -> bool {
    |u: Seq<char>| u != user && exchange(rosters, user, u)
}

/// The users with a session here who are told about a user, in the order of the
/// table of sessions.
pub open spec fn audience(
    sessions: SessionTable,
    rosters: Map<Seq<char>, Vec<String>>,
    user: Seq<char>,
) -> Seq<Seq<char>> {
    sessions.users.keys().filter(is_told(rosters, user))
}

/// Whether a user has no roster of contacts, or one that lists a contact.
fn has_listed(rosters: &StrMap<Vec<String>>, user: &str, contact: &str) -> (r: bool)
    requires
        rosters.wf(),
    ensures
        r == lists_contact(rosters@, user@, contact@),
{
    match rosters.get(user) {
        None => true,
        Some(list) => contains_str(list, contact),
    }
}

/// The users with a session here who are told about a user.
pub fn audience_of(sessions: &SessionTable, rosters: &StrMap<Vec<String>>, user: &str) -> (r: Vec<
    String,
>)
    requires
        rosters.wf(),
    ensures
        strs(r@) == audience(*sessions, rosters@, user@),
{
    let ghost keys = sessions.users.keys();
    let ghost p = is_told(rosters@, user@);
    let mut r: Vec<String> = Vec::new();
    let mut i: usize = 0;
    proof {
        reveal(Seq::filter);
        assert(strs(r@) =~= keys.take(0).filter(p));
    }
    while i < sessions.users.entries.len()
        invariant
            rosters.wf(),
            keys == sessions.users.keys(),
            p == is_told(rosters@, user@),
            i <= sessions.users.entries@.len(),
            strs(r@) == keys.take(i as int).filter(p),
        decreases sessions.users.entries@.len() - i,
    {
        let other = &sessions.users.entries[i].0;
        let ghost before = r@;
        proof {
            reveal(Seq::filter);
            let t = keys.take(i as int + 1);
            assert(t.drop_last() =~= keys.take(i as int));
            assert(t.last() == other@);
        }
        if !same(other.as_str(), user) && has_listed(rosters, user, other.as_str()) && has_listed(
            rosters,
            other.as_str(),
            user,
        ) {
            assert(p(other@));
            r.push(other.clone());
            assert(strs(r@) =~= strs(before).push(other@));
        }
        i += 1;
    }
    assert(keys.take(i as int) =~= keys);
    r
}

/// Replaces a user's roster of contacts.
pub fn subscribe(rosters: &mut StrMap<Vec<String>>, s: &SubscribePresence)
    requires
        old(rosters).wf(),
    ensures
        final(rosters).wf(),
        final(rosters)@.dom() == old(rosters)@.dom().insert(s@.user_id),
        strs(final(rosters)@[s@.user_id]@) == s@.contact_ids,
        forall|u: Seq<char>|
            u != s@.user_id && old(rosters)@.contains_key(u) ==> #[trigger] final(rosters)@[u]
                == old(rosters)@[u],
{
    let _ = rosters.insert(s.user_id.clone(), clone_strings(&s.contact_ids));
    assert(rosters@.dom() =~= old(rosters)@.dom().insert(s@.user_id));
}

/// The presence of a user as the local sessions of an audience are told it at
/// time `now`.
pub open spec fn local_news(
    told: Seq<Seq<char>>,
    user: Seq<char>,
    kind: PresenceKind,
    now: u64,
) -> EffectView {
    EffectView::ToUsers(
        PacketView::Presence(
            PresenceView {
                user_id: user,
                kind: kind.number(),
                last_seen: if kind == PresenceKind::Unavailable {
                    now
                } else {
                    0
                },
            },
        ),
        told,
    )
}

/// The presence of a user as others are told it: the local sessions of an
/// audience, and the peers where there are any.
pub open spec fn presence_news(
    c: Option<ClusterState>,
    told: Seq<Seq<char>>,
    user: Seq<char>,
    kind: PresenceKind,
    now: u64,
) -> Seq<EffectView> {
    let online = kind == PresenceKind::Available;
    match c {
        None => seq![local_news(told, user, kind, now)],
        Some(s) => seq![
            local_news(told, user, kind, now),
            EffectView::ToPeers(
                PacketView::PeerPresence(
                    PeerPresenceView {
                        user_id: user,
                        online,
                        node_id: s.node_id@,
                        last_seen: if online {
                            0
                        } else {
                            now
                        },
                    },
                ),
                None,
            ),
        ],
    }
}

/// Tells the local sessions of an audience about a user.
pub fn broadcast_presence_local(told: Vec<String>, user: &str, kind: PresenceKind, now: u64) -> (e: Effect)
    ensures
        e@ == local_news(strs(told@), user@, kind, now),
{
    let last_seen: u64 = if kind == PresenceKind::Unavailable {
        now
    } else {
        0
    };
    Effect::ToUsers(
        Packet::Presence(Presence { user_id: user.to_string(), kind: kind.as_i32(), last_seen }),
        told,
    )
}

/// Tells an audience and the peers about a user.
pub fn broadcast_presence(
    cluster: &Option<ClusterState>,
    told: Vec<String>,
    user: &str,
    kind: PresenceKind,
    now: u64,
) -> (v: Vec<Effect>)
    ensures
        effect_views(v@) == presence_news(*cluster, strs(told@), user@, kind, now),
{
    let ghost tv = strs(told@);
    let mut out = no_effects();
    push_effect(&mut out, broadcast_presence_local(told, user, kind, now));
    match cluster {
        None => {},
        Some(c) => {
            let online = kind == PresenceKind::Available;
            let last_seen: u64 = if online {
                0
            } else {
                now
            };
            push_effect(
                &mut out,
                Effect::ToPeers(
                    Packet::PeerPresence(
                        PeerPresence {
                            user_id: user.to_string(),
                            online,
                            node_id: c.node_id.clone(),
                            last_seen,
                        },
                    ),
                    None,
                ),
            );
        },
    }
    assert(effect_views(out@) =~= presence_news(*cluster, tv, user@, kind, now));
    out
}

/// Detaches a session. When it was the user's last one, the moment is noted
/// and the user's contacts are told.
pub fn remove_session(
    sessions: &mut SessionTable,
    last_seen: &mut StrMap<u64>,
    rosters: &StrMap<Vec<String>>,
    cluster: &Option<ClusterState>,
    user: &str,
    session_id: u64,
    now: u64,
) -> (v: Vec<Effect>)
    requires
        old(sessions).wf(),
        old(last_seen).wf(),
        rosters.wf(),
    ensures
        final(sessions).wf(),
        final(last_seen).wf(),
        forall|u: Seq<char>| #[trigger]
            final(sessions).at(u) == (if u == user@ {
                old(sessions).at(u).filter(other_session(session_id))
            } else {
                old(sessions).at(u)
            }),
        ({
            let offline = old(sessions).at(user@).len() > 0 && final(sessions).at(user@).len() == 0;
            &&& effect_views(v@) == (if offline {
                presence_news(
                    *cluster,
                    audience(*final(sessions), rosters@, user@),
                    user@,
                    PresenceKind::Unavailable,
                    now,
                )
            } else {
                Seq::empty()
            })
            &&& final(last_seen)@ == (if offline {
                old(last_seen)@.insert(user@, now)
            } else {
                old(last_seen)@
            })
        }),
{
    if sessions.remove(user, session_id) {
        let _ = last_seen.insert(user.to_string(), now);
        let told = audience_of(sessions, rosters, user);
        broadcast_presence(cluster, told, user, PresenceKind::Unavailable, now)
    } else {
        no_effects()
    }
}

/// What is known of a user, by text.
pub open spec fn place_at(m: Map<Seq<char>, String>, user: Seq<char>) -> Option<Seq<char>> {
    if m.contains_key(user) {
        Some(m[user]@)
    } else {
        None
    }
}

/// The kind that a peer's news stands for.
pub open spec fn peer_kind(online: bool) -> PresenceKind {
    if online {
        PresenceKind::Available
    } else {
        PresenceKind::Unavailable
    }
}

/// Where a user is after a peer's news: an online user is where the news says;
/// an offline one is forgotten unless known to be elsewhere by now.
pub open spec fn place_after(place: Option<Seq<char>>, p: PeerPresenceView) -> Option<Seq<char>> {
    if p.online {
        Some(p.node_id)
    } else if place == Some(p.node_id) {
        None
    } else {
        place
    }
}

/// Takes a peer's news about a user.
pub fn peer_presence(
    locations: &mut StrMap<String>,
    last_seen: &mut StrMap<u64>,
    told: Vec<String>,
    p: &PeerPresence,
    now: u64,
) -> (e: Effect)
    requires
        old(locations).wf(),
        old(last_seen).wf(),
    ensures
        final(locations).wf(),
        final(last_seen).wf(),
        forall|u: Seq<char>| #[trigger]
            place_at(final(locations)@, u) == (if u == p@.user_id {
                place_after(place_at(old(locations)@, u), p@)
            } else {
                place_at(old(locations)@, u)
            }),
        final(last_seen)@ == (if p@.online {
            old(last_seen)@
        } else {
            old(last_seen)@.insert(p@.user_id, p@.last_seen)
        }),
        e@ == local_news(strs(told@), p@.user_id, peer_kind(p@.online), now),
{
    let ghost before = locations@;
    if p.online {
        let _ = locations.insert(p.user_id.clone(), p.node_id.clone());
    } else {
        let here = match locations.get(p.user_id.as_str()) {
            Some(n) => same(n.as_str(), p.node_id.as_str()),
            None => false,
        };
        if here {
            let _ = locations.remove(p.user_id.as_str());
        }
        let _ = last_seen.insert(p.user_id.clone(), p.last_seen);
    }
    let kind = if p.online {
        PresenceKind::Available
    } else {
        PresenceKind::Unavailable
    };
    broadcast_presence_local(told, p.user_id.as_str(), kind, now)
}

/// The peer that a packet for a user goes to, once it is known whether a local
/// session accepted it.
pub open spec fn forward_to(
    c: Option<ClusterState>,
    place: Option<Seq<char>>,
    accepted: bool,
) -> Option<Seq<char>> {
    if accepted || c is None || place is None || place == Some(c->0.node_id@) {
        None
    } else {
        place
    }
}

/// The peer that a packet for `user` goes to, once it is known whether a local
/// session accepted it.
pub fn forward_target(
    cluster: &Option<ClusterState>,
    locations: &StrMap<String>,
    user: &str,
    accepted: bool,
) -> (r: Option<String>)
    requires
        locations.wf(),
    ensures
        text_of(r) == forward_to(*cluster, place_at(locations@, user@), accepted),
{
    if accepted {
        return None;
    }
    match cluster {
        None => None,
        Some(c) => match locations.get(user) {
            None => None,
            Some(n) => if same(n.as_str(), c.node_id.as_str()) {
                None
            } else {
                Some(n.clone())
            },
        },
    }
}

/// Until a user has a roster, everyone who is connected here is told; once there
/// is one, only listed contacts exchange presence with the user, in both
/// directions. Nobody is told twice.
pub proof fn law_only_contacts_exchange_presence(
    rosters: Map<Seq<char>, Vec<String>>,
    sessions: SessionTable,
    a: Seq<char>,
    b: Seq<char>,
)
    requires
        sessions.wf(),
    ensures
        exchange(rosters, a, b) == exchange(rosters, b, a),
        audience(sessions, rosters, a).no_duplicates(),
        audience(sessions, rosters, a).contains(b) <==> a != b && sessions.at(b).len() > 0
            && exchange(rosters, a, b),
        !rosters.contains_key(a) && !rosters.contains_key(b) ==> exchange(rosters, a, b),
        rosters.contains_key(a) && exchange(rosters, a, b) ==> strs(rosters[a]@).contains(b),
        rosters.contains_key(b) && exchange(rosters, a, b) ==> strs(rosters[b]@).contains(a),
{
    let keys = sessions.users.keys();
    lemma_filter_members(keys, is_told(rosters, a));
    sessions.users.lemma_len();
    assert(keys.contains(b) <==> sessions.at(b).len() > 0) by {
        assert(sessions.users@.contains_key(b) <==> keys.contains(b));
    }
}

/// News that a user went offline somewhere never hides that the user is online
/// elsewhere.
pub proof fn law_late_offline_news_is_harmless(
    there: Seq<char>,
    online: PeerPresenceView,
    late: PeerPresenceView,
)
    requires
        online.online,
        !late.online,
        online.node_id != late.node_id,
    ensures
        place_after(place_after(Some(there), online), late) == Some(online.node_id),
        place_after(place_after(None, online), late) == Some(online.node_id),
{
}

/// Two users exchange presence unless one of them keeps a roster that leaves the
/// other out.
pub proof fn law_presence_is_withheld_by_a_roster_only(
    rosters: Map<Seq<char>, Vec<String>>,
    a: Seq<char>,
    b: Seq<char>,
)
    ensures
        !exchange(rosters, a, b) <==> (rosters.contains_key(a) && !strs(rosters[a]@).contains(b))
            || (rosters.contains_key(b) && !strs(rosters[b]@).contains(a)),
{
}

/// What contacts are told of a user names the user and whether they came or
/// went; who went was last seen now, and who came has no such time. The peers
/// are told the same, once and where there are any, with the node that says so.
pub proof fn law_contacts_and_peers_hear_the_same(
    c: Option<ClusterState>,
    told: Seq<Seq<char>>,
    user: Seq<char>,
    now: u64,
    came: bool,
)
    ensures
        ({
            let kind = if came {
                PresenceKind::Available
            } else {
                PresenceKind::Unavailable
            };
            let e = presence_news(c, told, user, kind, now);
            &&& e.len() == (if c is Some {
                2int
            } else {
                1
            })
            &&& e[0] is ToUsers
            &&& e[0]->ToUsers_1 == told
            &&& e[0]->ToUsers_0 is Presence
            &&& e[0]->ToUsers_0->Presence_0.user_id == user
            &&& e[0]->ToUsers_0->Presence_0.kind == (if came {
                1int
            } else {
                2
            })
            &&& e[0]->ToUsers_0->Presence_0.last_seen == (if came {
                0
            } else {
                now
            })
            &&& c is Some ==> {
                &&& e[1] is ToPeers
                &&& e[1]->ToPeers_1 is None
                &&& e[1]->ToPeers_0 is PeerPresence
                &&& e[1]->ToPeers_0->PeerPresence_0.user_id == user
                &&& e[1]->ToPeers_0->PeerPresence_0.online == came
                &&& e[1]->ToPeers_0->PeerPresence_0.node_id == c->0.node_id@
                &&& e[1]->ToPeers_0->PeerPresence_0.last_seen == (if came {
                    0
                } else {
                    now
                })
                &&& peer_kind(e[1]->ToPeers_0->PeerPresence_0.online) == kind
            }
        }),
{
}

/// A peer that hears of a user who came to a node sends packets for the user to
/// that node, unless a session of its own accepted them; once it hears that the
/// user left that node, it sends none any more.
pub proof fn law_packets_follow_the_user(
    here: ClusterState,
    before: Option<Seq<char>>,
    came: PeerPresenceView,
    left: PeerPresenceView,
    accepted: bool,
)
    requires
        came.online,
        !left.online,
        left.node_id == came.node_id,
    ensures
        forward_to(Some(here), place_after(before, came), accepted) == (if accepted
            || came.node_id == here.node_id@ {
            None
        } else {
            Some(came.node_id)
        }),
        forward_to(Some(here), place_after(place_after(before, came), left), accepted) is None,
        forward_to(None, before, accepted) is None,
        before is None ==> forward_to(Some(here), before, accepted) is None,
{
}

} // verus!
