//! Group traffic on a gateway: membership events and the fan-out of messages.

use crate::collections::StrMap;
use crate::messenger::cluster::{cluster_wf, elsewhere, home_elsewhere, ClusterState};
use crate::messenger::codec::{Packet, PacketView};
use crate::messenger::effects::{
    append_effects, effect_views, no_effects, push_effect, Effect, EffectView,
};
use crate::messenger::groups::{
    apply_group_event, changed, group_at, groups_wf, law_accepted_changes_take_effect,
    law_who_may_change_a_group, members_for, refusal, told, Group, GroupView,
};
use crate::messenger::inbox::{group_key, offered, with_seq, Inbox, InboxView};
use crate::messenger::journal::{inbox_at, or_empty, sound};
use crate::messenger::media::{error_view, proto_error};
use crate::messenger::server::{fresh_seq, server_ack, store_message, stored_in};
use crate::messenger::wire::{
    law_numbers_stand_for_one, ErrorCode, GroupEvent, GroupEventView, GroupMessage,
    GroupMessageView, GroupOp, PresenceKind, ServerAck,
};
use crate::text::{same, strs};
use vstd::prelude::*;

verus! {

/// The versioned event for one user.
pub open spec fn notice(ev: GroupEventView, version: u64, to_user: Seq<char>) -> EffectView {
    EffectView::Deliver(
        to_user,
        PacketView::GroupEvent(GroupEventView { version, to_user, ..ev }),
    )
}

/// The versioned event for each of some users.
pub open spec fn notices(ev: GroupEventView, version: u64, targets: Seq<Seq<char>>) -> Seq<
    EffectView,
> {
    Seq::new(targets.len(), |i: int| notice(ev, version, targets[i]))
}

/// What a membership event leads to on the group's home node. A refusal is
/// answered where there is a client to answer.
pub open spec fn membership_effects(
    g: Option<GroupView>,
    ev: GroupEventView,
    max_members: nat,
    answer: bool,
    targets: Seq<Seq<char>>,
) -> Seq<EffectView> {
    let op = GroupOp::of(ev.op);
    match refusal(g, op, ev.actor_user, max_members) {
        Some(detail) => if answer {
            seq![EffectView::Reply(error_view(ErrorCode::MalformedFrame, detail))]
        } else {
            Seq::empty()
        },
        None => notices(ev, changed(g, op, ev.actor_user, ev.subject_user).version, targets),
    }
}

/// Whether the targets are those that an accepted membership event is told to.
pub open spec fn right_targets(
    g: Option<GroupView>,
    ev: GroupEventView,
    max_members: nat,
    targets: Seq<Seq<char>>,
) -> bool {
    let op = GroupOp::of(ev.op);
    refusal(g, op, ev.actor_user, max_members) is None ==> told(
        targets,
        changed(g, op, ev.actor_user, ev.subject_user).members,
        ev.actor_user,
    )
}

/// The groups after a membership event on the group's home node.
pub open spec fn groups_after(
    before: Map<Seq<char>, Group>,
    after: Map<Seq<char>, Group>,
    ev: GroupEventView,
    max_members: nat,
) -> bool {
    let op = GroupOp::of(ev.op);
    forall|k: Seq<char>| #[trigger]
        group_at(after, k) == (if k == ev.group_id && refusal(
            group_at(before, k),
            op,
            ev.actor_user,
            max_members,
        ) is None {
            Some(changed(group_at(before, k), op, ev.actor_user, ev.subject_user))
        } else {
            group_at(before, k)
        })
}

/// Applies a membership event on the group's home node and tells every member
/// and the actor.
pub fn apply_membership(
    groups: &mut StrMap<Group>,
    ev: &GroupEvent,
    max_members: usize,
    answer: bool,
) -> (v: Vec<Effect>)
    requires
        old(groups).wf(),
        groups_wf(old(groups)@),
        group_at(old(groups)@, ev@.group_id) matches Some(g) ==> g.version < u64::MAX,
    ensures
        final(groups).wf(),
        groups_wf(final(groups)@),
        groups_after(old(groups)@, final(groups)@, ev@, max_members as nat),
        exists|targets: Seq<Seq<char>>| #[trigger]
            right_targets(
                group_at(old(groups)@, ev@.group_id),
                ev@,
                max_members as nat,
                targets,
            ) && effect_views(v@) == membership_effects(
                group_at(old(groups)@, ev@.group_id),
                ev@,
                max_members as nat,
                answer,
                targets,
            ),
{
    let ghost g = group_at(groups@, ev@.group_id);
    let ghost max = max_members as nat;
    let mut out = no_effects();
    match apply_group_event(groups, ev, max_members) {
        Err(detail) => {
            if answer {
                push_effect(
                    &mut out,
                    Effect::Reply(proto_error(ErrorCode::MalformedFrame, detail.as_str())),
                );
            }
            proof {
                let none = Seq::<Seq<char>>::empty();
                assert(right_targets(g, ev@, max, none));
                assert(effect_views(out@) =~= membership_effects(g, ev@, max, answer, none));
            }
        },
        Ok(c) => {
            let ghost targets = strs(c.targets@);
            let mut i: usize = 0;
            while i < c.targets.len()
                invariant
                    i <= c.targets@.len(),
                    targets == strs(c.targets@),
                    effect_views(out@) == notices(ev@, c.version, targets.take(i as int)),
                decreases c.targets@.len() - i,
            {
                let mut copy = ev.clone();
                copy.version = c.version;
                copy.to_user = c.targets[i].clone();
                assert(copy@ =~= (GroupEventView {
                    version: c.version,
                    to_user: targets[i as int],
                    ..ev@
                }));
                push_effect(
                    &mut out,
                    Effect::Deliver(c.targets[i].clone(), Packet::GroupEvent(copy)),
                );
                assert(effect_views(out@) =~= notices(ev@, c.version, targets.take(i as int + 1)));
                i += 1;
            }
            proof {
                assert(targets.take(i as int) =~= targets);
                assert(right_targets(g, ev@, max, targets));
                assert(effect_views(out@) =~= membership_effects(g, ev@, max, answer, targets));
            }
        },
    }
    out
}

/// The event as the server takes it from a client: the actor is the user of the
/// session, and it is not addressed to anyone.
pub open spec fn event_from(user: Seq<char>, ev: GroupEventView) -> GroupEventView {
    GroupEventView { actor_user: user, to_user: Seq::empty(), ..ev }
}

/// Takes a membership event from a client. The group's home node applies it;
/// other nodes forward it there.
pub fn handle_group_event(
    groups: &mut StrMap<Group>,
    cluster: &Option<ClusterState>,
    user: &str,
    ev: &GroupEvent,
    max_members: usize,
) -> (v: Vec<Effect>)
    requires
        cluster_wf(*cluster),
        old(groups).wf(),
        groups_wf(old(groups)@),
        group_at(old(groups)@, ev@.group_id) matches Some(g) ==> g.version < u64::MAX,
    ensures
        final(groups).wf(),
        groups_wf(final(groups)@),
        match elsewhere(*cluster, ev@.group_id) {
            Some(home) => {
                &&& effect_views(v@) == seq![
                    EffectView::ToPeer(home, PacketView::GroupEvent(event_from(user@, ev@))),
                ]
                &&& final(groups)@ == old(groups)@
            },
            None => {
                let e = event_from(user@, ev@);
                &&& groups_after(old(groups)@, final(groups)@, e, max_members as nat)
                &&& exists|targets: Seq<Seq<char>>| #[trigger]
                    right_targets(
                        group_at(old(groups)@, e.group_id),
                        e,
                        max_members as nat,
                        targets,
                    ) && effect_views(v@) == membership_effects(
                        group_at(old(groups)@, e.group_id),
                        e,
                        max_members as nat,
                        true,
                        targets,
                    )
            },
        },
{
    let mut taken = ev.clone();
    taken.actor_user = user.to_string();
    taken.to_user = String::new();
    assert(taken@ =~= event_from(user@, ev@));
    match home_elsewhere(cluster, ev.group_id.as_str()) {
        Some(home) => {
            let mut out = no_effects();
            push_effect(&mut out, Effect::ToPeer(home, Packet::GroupEvent(taken)));
            assert(effect_views(out@) =~= seq![
                EffectView::ToPeer(
                    elsewhere(*cluster, ev@.group_id)->0,
                    PacketView::GroupEvent(event_from(user@, ev@)),
                ),
            ]);
            out
        },
        None => apply_membership(groups, &taken, max_members, true),
    }
}

/// The copy of a group message for one member.
pub open spec fn copy_for(m: GroupMessageView, member: Seq<char>) -> GroupMessageView {
    GroupMessageView { to_user: member, seq: 0, ..m }
}

/// The key under which a member's copy is stored.
pub open spec fn copy_key(m: GroupMessageView) -> Seq<char> {
    m.message_id + ":"@ + m.to_user
}

/// What storing a member's copy leads to: a new one is persisted and delivered.
pub open spec fn copy_effects(v: InboxView, m: GroupMessageView) -> Seq<EffectView> {
    match fresh_seq(v, copy_key(m)) {
        None => Seq::empty(),
        Some(seq) => {
            let p = PacketView::GroupMessage(GroupMessageView { seq, ..m });
            seq![EffectView::Persist(p), EffectView::Deliver(m.to_user, p)]
        },
    }
}

/// Persists a member's copy of a group message on the member's home node and
/// delivers it.
pub fn store_and_push_group_copy(
    inboxes: &mut StrMap<Inbox>,
    m: &GroupMessage,
    max_inbox: usize,
) -> (v: Vec<Effect>)
    requires
        old(inboxes).wf(),
        sound(old(inboxes)@),
        or_empty(inbox_at(old(inboxes)@, m@.to_user)).next_seq < u64::MAX,
    ensures
        final(inboxes).wf(),
        sound(final(inboxes)@),
        effect_views(v@) == copy_effects(or_empty(inbox_at(old(inboxes)@, m@.to_user)), m@),
        stored_in(
            old(inboxes)@,
            final(inboxes)@,
            m@.to_user,
            copy_key(m@),
            PacketView::GroupMessage(m@),
            max_inbox as nat,
        ),
{
    let mut out = no_effects();
    let key = group_key(m);
    match store_message(
        inboxes,
        m.to_user.as_str(),
        key.as_str(),
        Packet::GroupMessage(m.clone()),
        max_inbox,
    ) {
        None => {},
        Some(seq) => {
            let p = with_seq(Packet::GroupMessage(m.clone()), seq);
            push_effect(&mut out, Effect::Persist(p.clone()));
            push_effect(&mut out, Effect::Deliver(m.to_user.clone(), p));
        },
    }
    assert(effect_views(out@) =~= copy_effects(
        or_empty(inbox_at(old(inboxes)@, m@.to_user)),
        m@,
    ));
    out
}

/// What fanning a group message out to one member leads to.
pub open spec fn member_effects(
    home: Option<Seq<char>>,
    v: InboxView,
    m: GroupMessageView,
    member: Seq<char>,
) -> Seq<EffectView> {
    if member == m.from_user {
        Seq::empty()
    } else if home is Some {
        seq![EffectView::ToPeer(home->0, PacketView::GroupMessage(copy_for(m, member)))]
    } else {
        copy_effects(v, copy_for(m, member))
    }
}

/// What fanning a group message out to some members leads to.
pub open spec fn fanout_effects(
    c: Option<ClusterState>,
    inboxes: Map<Seq<char>, Inbox>,
    m: GroupMessageView,
    members: Seq<Seq<char>>,
) -> Seq<EffectView>
    decreases members.len(),
{
    if members.len() == 0 {
        Seq::empty()
    } else {
        let member = members.last();
        fanout_effects(c, inboxes, m, members.drop_last()) + member_effects(
            elsewhere(c, member),
            or_empty(inbox_at(inboxes, member)),
            m,
            member,
        )
    }
}

/// Whether a member's copy is stored on this node.
pub open spec fn copy_is_local(
    c: Option<ClusterState>,
    m: GroupMessageView,
    members: Seq<Seq<char>>,
    user: Seq<char>,
) -> bool {
    members.contains(user) && user != m.from_user && elsewhere(c, user) is None
}

/// The inboxes after a group message was fanned out: each member at home here,
/// but the sender, was offered a copy.
pub open spec fn fanned_out(
    c: Option<ClusterState>,
    before: Map<Seq<char>, Inbox>,
    after: Map<Seq<char>, Inbox>,
    m: GroupMessageView,
    members: Seq<Seq<char>>,
    max_inbox: nat,
) -> bool {
    forall|u: Seq<char>| #[trigger]
        inbox_at(after, u) == (if copy_is_local(c, m, members, u) {
            Some(
                offered(
                    or_empty(inbox_at(before, u)),
                    copy_key(copy_for(m, u)),
                    PacketView::GroupMessage(copy_for(m, u)),
                    max_inbox,
                ),
            )
        } else {
            inbox_at(before, u)
        })
}

/// The numbers of all these users can still rise.
pub open spec fn room_for(inboxes: Map<Seq<char>, Inbox>, members: Seq<Seq<char>>) -> bool {
    forall|i: int|
        0 <= i < members.len() ==> or_empty(
            inbox_at(inboxes, #[trigger] members[i]),
        ).next_seq < u64::MAX
}

/// Delivers a group message to every member but the sender: stores a copy for
/// those at home here, forwards one to the homes of the others.
pub fn fanout_group(
    inboxes: &mut StrMap<Inbox>,
    cluster: &Option<ClusterState>,
    m: &GroupMessage,
    members: &Vec<String>,
    max_inbox: usize,
) -> (v: Vec<Effect>)
    requires
        cluster_wf(*cluster),
        old(inboxes).wf(),
        sound(old(inboxes)@),
        strs(members@).no_duplicates(),
        room_for(old(inboxes)@, strs(members@)),
    ensures
        final(inboxes).wf(),
        sound(final(inboxes)@),
        effect_views(v@) == fanout_effects(*cluster, old(inboxes)@, m@, strs(members@)),
        fanned_out(
            *cluster,
            old(inboxes)@,
            final(inboxes)@,
            m@,
            strs(members@),
            max_inbox as nat,
        ),
{
    let ghost all = strs(members@);
    let ghost was = inboxes@;
    let mut out = no_effects();
    let mut i: usize = 0;
    assert(all.take(0) =~= Seq::<Seq<char>>::empty());
    while i < members.len()
        invariant
            cluster_wf(*cluster),
            all == strs(members@),
            all.no_duplicates(),
            room_for(was, all),
            i <= all.len(),
            inboxes.wf(),
            sound(inboxes@),
            effect_views(out@) == fanout_effects(*cluster, was, m@, all.take(i as int)),
            fanned_out(*cluster, was, inboxes@, m@, all.take(i as int), max_inbox as nat),
        decreases all.len() - i,
    {
        let ghost x = all[i as int];
        let ghost a = all.take(i as int);
        let ghost b = all.take(i as int + 1);
        let ghost before = inboxes@;
        let ghost oute = effect_views(out@);
        proof {
            assert(b.drop_last() =~= a);
            assert(b.last() == x);
            assert(b =~= a.push(x));
            assert forall|q: Seq<char>| #[trigger] b.contains(q) <==> (a.contains(q) || q == x) by {
                if a.contains(q) {
                    assert(b[a.index_of(q)] == q);
                }
                assert(b[i as int] == x);
            }
            assert(!a.contains(x)) by {
                if a.contains(x) {
                    let j = a.index_of(x);
                    assert(all[j] == all[i as int]);
                }
            }
            assert(inbox_at(before, x) == inbox_at(was, x));
            assert(or_empty(inbox_at(was, all[i as int])).next_seq < u64::MAX);
        }
        let member = members[i].as_str();
        if !same(member, m.from_user.as_str()) {
            let mut copy = m.clone();
            copy.to_user = members[i].clone();
            copy.seq = 0;
            assert(copy@ =~= copy_for(m@, x));
            match home_elsewhere(cluster, member) {
                None => {
                    let more = store_and_push_group_copy(inboxes, &copy, max_inbox);
                    append_effects(&mut out, more);
                },
                Some(home) => {
                    push_effect(&mut out, Effect::ToPeer(home, Packet::GroupMessage(copy)));
                },
            }
        }
        proof {
            assert(effect_views(out@) =~= oute + member_effects(
                elsewhere(*cluster, x),
                or_empty(inbox_at(was, x)),
                m@,
                x,
            ));
            assert forall|u: Seq<char>| #[trigger] inbox_at(inboxes@, u) == (if copy_is_local(
                *cluster,
                m@,
                b,
                u,
            ) {
                Some(
                    offered(
                        or_empty(inbox_at(was, u)),
                        copy_key(copy_for(m@, u)),
                        PacketView::GroupMessage(copy_for(m@, u)),
                        max_inbox as nat,
                    ),
                )
            } else {
                inbox_at(was, u)
            }) by {
                assert(inbox_at(before, u) == (if copy_is_local(*cluster, m@, a, u) {
                    Some(
                        offered(
                            or_empty(inbox_at(was, u)),
                            copy_key(copy_for(m@, u)),
                            PacketView::GroupMessage(copy_for(m@, u)),
                            max_inbox as nat,
                        ),
                    )
                } else {
                    inbox_at(was, u)
                }));
            }
        }
        i += 1;
    }
    assert(all.take(i as int) =~= all);
    out
}

/// Why a group message from a client is not fanned out here, if it is not.
pub open spec fn group_detour(
    home: Option<Seq<char>>,
    g: Option<GroupView>,
    m: GroupMessageView,
) -> Option<EffectView> {
    if m.group_id.len() == 0 || m.message_id.len() == 0 {
        Some(
            EffectView::Reply(
                error_view(ErrorCode::MalformedFrame, "missing group_id/message_id"@),
            ),
        )
    } else if home is Some {
        Some(
            EffectView::ToPeer(
                home->0,
                PacketView::GroupMessage(GroupMessageView { to_user: Seq::empty(), ..m }),
            ),
        )
    } else if g is None || !g->0.members.contains(m.from_user) {
        Some(
            EffectView::Reply(
                error_view(ErrorCode::UnknownRecipient, "not a member or unknown group"@),
            ),
        )
    } else {
        None
    }
}

/// Whether the list holds the members of a group, each once.
pub open spec fn lists_members(list: Seq<Seq<char>>, g: Option<GroupView>) -> bool {
    g is Some && list.no_duplicates() && list.to_set() == g->0.members
}

/// The numbers of all members of a group can still rise.
pub open spec fn room_for_members(
    inboxes: Map<Seq<char>, Inbox>,
    g: Option<GroupView>,
) -> bool {
    g matches Some(v) ==> forall|u: Seq<char>|
        v.members.contains(u) ==> or_empty(#[trigger] inbox_at(inboxes, u)).next_seq < u64::MAX
}

/// Takes a group message from a client: fans it out on the group's home node and
/// acknowledges it once the copies that are at home there are persisted; other
/// nodes forward it there.
pub fn handle_group_message(
    groups: &StrMap<Group>,
    inboxes: &mut StrMap<Inbox>,
    cluster: &Option<ClusterState>,
    m: &GroupMessage,
    max_inbox: usize,
) -> (v: Vec<Effect>)
    requires
        cluster_wf(*cluster),
        groups.wf(),
        groups_wf(groups@),
        old(inboxes).wf(),
        sound(old(inboxes)@),
        room_for_members(old(inboxes)@, group_at(groups@, m@.group_id)),
    ensures
        final(inboxes).wf(),
        sound(final(inboxes)@),
        match group_detour(
            elsewhere(*cluster, m@.group_id),
            group_at(groups@, m@.group_id),
            m@,
        ) {
            Some(e) => effect_views(v@) == seq![e] && final(inboxes)@ == old(inboxes)@,
            None => exists|members: Seq<Seq<char>>| #[trigger]
                lists_members(members, group_at(groups@, m@.group_id)) && effect_views(v@)
                    == fanout_effects(*cluster, old(inboxes)@, m@, members) + seq![
                    EffectView::Reply(server_ack(m@.message_id, 0, Seq::empty())),
                ] && fanned_out(
                    *cluster,
                    old(inboxes)@,
                    final(inboxes)@,
                    m@,
                    members,
                    max_inbox as nat,
                ),
        },
{
    let mut out = no_effects();
    let ghost g = group_at(groups@, m@.group_id);
    let ghost detour = group_detour(elsewhere(*cluster, m@.group_id), g, m@);
    if m.group_id.as_str().is_empty() || m.message_id.as_str().is_empty() {
        push_effect(
            &mut out,
            Effect::Reply(proto_error(ErrorCode::MalformedFrame, "missing group_id/message_id")),
        );
        assert(effect_views(out@) =~= seq![detour->0]);
        return out;
    }
    match home_elsewhere(cluster, m.group_id.as_str()) {
        Some(home) => {
            let mut fwd = m.clone();
            fwd.to_user = String::new();
            assert(fwd@ =~= (GroupMessageView { to_user: Seq::empty(), ..m@ }));
            push_effect(&mut out, Effect::ToPeer(home, Packet::GroupMessage(fwd)));
            assert(effect_views(out@) =~= seq![detour->0]);
            return out;
        },
        None => {},
    }
    match members_for(groups, m.group_id.as_str(), m.from_user.as_str()) {
        None => {
            push_effect(
                &mut out,
                Effect::Reply(
                    proto_error(ErrorCode::UnknownRecipient, "not a member or unknown group"),
                ),
            );
            assert(effect_views(out@) =~= seq![detour->0]);
            out
        },
        Some(members) => {
            proof {
                lemma_room(inboxes@, g, strs(members@));
            }
            let more = fanout_group(inboxes, cluster, m, &members, max_inbox);
            append_effects(&mut out, more);
            push_effect(
                &mut out,
                Effect::Reply(
                    Packet::ServerAck(
                        ServerAck {
                            message_id: m.message_id.clone(),
                            seq: 0,
                            to_user: String::new(),
                        },
                    ),
                ),
            );
            proof {
                assert(lists_members(strs(members@), g));
                assert(effect_views(out@) =~= fanout_effects(
                    *cluster,
                    old(inboxes)@,
                    m@,
                    strs(members@),
                ) + seq![EffectView::Reply(server_ack(m@.message_id, 0, Seq::empty()))]);
            }
            out
        },
    }
}

/// Room for all members is room for each listed one.
proof fn lemma_room(inboxes: Map<Seq<char>, Inbox>, g: Option<GroupView>, list: Seq<Seq<char>>)
    requires
        room_for_members(inboxes, g),
        lists_members(list, g),
    ensures
        room_for(inboxes, list),
{
    assert forall|i: int| 0 <= i < list.len() implies or_empty(
        inbox_at(inboxes, #[trigger] list[i]),
    ).next_seq < u64::MAX by {
        assert(list.to_set().contains(list[i]));
        assert(g->0.members.contains(list[i]));
    }
}

/// Fans out a group message that a peer forwarded: this node is the group's
/// home. The sender is acknowledged wherever connected, once the copies that are
/// at home here are persisted; a message from someone who is not a member is
/// dropped.
pub fn route_group_fanout(
    groups: &StrMap<Group>,
    inboxes: &mut StrMap<Inbox>,
    cluster: &Option<ClusterState>,
    m: &GroupMessage,
    max_inbox: usize,
) -> (v: Vec<Effect>)
    requires
        cluster_wf(*cluster),
        groups.wf(),
        groups_wf(groups@),
        old(inboxes).wf(),
        sound(old(inboxes)@),
        room_for_members(old(inboxes)@, group_at(groups@, m@.group_id)),
    ensures
        final(inboxes).wf(),
        sound(final(inboxes)@),
        ({
            let g = group_at(groups@, m@.group_id);
            if g is None || !g->0.members.contains(m@.from_user) {
                v@.len() == 0 && final(inboxes)@ == old(inboxes)@
            } else {
                exists|members: Seq<Seq<char>>| #[trigger]
                    lists_members(members, g) && effect_views(v@) == fanout_effects(
                        *cluster,
                        old(inboxes)@,
                        m@,
                        members,
                    ) + seq![
                        EffectView::Deliver(
                            m@.from_user,
                            server_ack(m@.message_id, 0, m@.from_user),
                        ),
                    ] && fanned_out(
                        *cluster,
                        old(inboxes)@,
                        final(inboxes)@,
                        m@,
                        members,
                        max_inbox as nat,
                    )
            }
        }),
{
    let ghost g = group_at(groups@, m@.group_id);
    match members_for(groups, m.group_id.as_str(), m.from_user.as_str()) {
        None => Vec::new(),
        Some(members) => {
            proof {
                lemma_room(inboxes@, g, strs(members@));
            }
            let mut out = no_effects();
            let more = fanout_group(inboxes, cluster, m, &members, max_inbox);
            append_effects(&mut out, more);
            push_effect(
                &mut out,
                Effect::Deliver(
                    m.from_user.clone(),
                    Packet::ServerAck(
                        ServerAck {
                            message_id: m.message_id.clone(),
                            seq: 0,
                            to_user: m.from_user.clone(),
                        },
                    ),
                ),
            );
            proof {
                assert(lists_members(strs(members@), g));
                assert(effect_views(out@) =~= fanout_effects(
                    *cluster,
                    old(inboxes)@,
                    m@,
                    strs(members@),
                ) + seq![
                    EffectView::Deliver(m@.from_user, server_ack(m@.message_id, 0, m@.from_user)),
                ]);
            }
            out
        },
    }
}

/// The sender of a group message gets no copy, and every other member at home
/// here has the message waiting, unless it was stored before.
pub proof fn law_everyone_but_the_sender_gets_a_copy(
    c: Option<ClusterState>,
    before: Map<Seq<char>, Inbox>,
    after: Map<Seq<char>, Inbox>,
    m: GroupMessageView,
    members: Seq<Seq<char>>,
    max_inbox: nat,
    user: Seq<char>,
)
    requires
        fanned_out(c, before, after, m, members, max_inbox),
    ensures
        user == m.from_user ==> inbox_at(after, user) == inbox_at(before, user),
        !members.contains(user) ==> inbox_at(after, user) == inbox_at(before, user),
        members.contains(user) && user != m.from_user && elsewhere(c, user) is None ==> inbox_at(
            after,
            user,
        ) is Some && inbox_at(after, user)->0.seen.contains(copy_key(copy_for(m, user))),
{
    assert(inbox_at(after, user) == inbox_at(after, user));
}

/// A member's copy under its sequence number.
pub open spec fn numbered_copy(m: GroupMessageView, member: Seq<char>, seq: u64) -> PacketView {
    PacketView::GroupMessage(GroupMessageView { seq, ..copy_for(m, member) })
}

/// Whether an effect acknowledges a message to its sender.
pub open spec fn acknowledges(e: EffectView) -> bool {
    match e {
        EffectView::Reply(_) => true,
        EffectView::Deliver(_, p) => p is ServerAck,
        EffectView::ToPeer(_, p) => p is ServerAck,
        _ => false,
    }
}

/// No group message is acknowledged before it is persisted: in what it leads to,
/// the acknowledgement comes last, and the new copy of every member at home here
/// is persisted before it. A copy for another home is on its way there.
pub proof fn law_copies_persisted_before_acknowledged(
    c: Option<ClusterState>,
    inboxes: Map<Seq<char>, Inbox>,
    m: GroupMessageView,
    members: Seq<Seq<char>>,
    user: Seq<char>,
    ack: EffectView,
)
    requires
        members.contains(user),
        user != m.from_user,
    ensures
        ({
            let n = fanout_effects(c, inboxes, m, members).len();
            let e = fanout_effects(c, inboxes, m, members) + seq![ack];
            let v = or_empty(inbox_at(inboxes, user));
            &&& e[n as int] == ack
            &&& forall|i: int| 0 <= i < n ==> !acknowledges(#[trigger] e[i])
            &&& elsewhere(c, user) is None && !v.seen.contains(copy_key(copy_for(m, user)))
                ==> exists|i: int|
                0 <= i < n && #[trigger] e[i] == EffectView::Persist(
                    numbered_copy(m, user, (v.next_seq + 1) as u64),
                )
            &&& elsewhere(c, user) is Some ==> exists|i: int|
                0 <= i < n && #[trigger] e[i] == EffectView::ToPeer(
                    elsewhere(c, user)->0,
                    PacketView::GroupMessage(copy_for(m, user)),
                )
        }),
{
    let f = fanout_effects(c, inboxes, m, members);
    let e = f + seq![ack];
    let v = or_empty(inbox_at(inboxes, user));
    lemma_no_acknowledgement(c, inboxes, m, members);
    lemma_member_is_served(c, inboxes, m, members, user);
    assert forall|i: int| 0 <= i < f.len() implies !acknowledges(#[trigger] e[i]) by {
        assert(e[i] == f[i]);
    }
    let served = member_effects(elsewhere(c, user), v, m, user);
    if served.len() > 0 {
        let i = choose|i: int| 0 <= i < f.len() && #[trigger] f[i] == served[0];
        assert(e[i] == served[0]);
    }
}

/// Fanning out acknowledges nothing.
proof fn lemma_no_acknowledgement(
    c: Option<ClusterState>,
    inboxes: Map<Seq<char>, Inbox>,
    m: GroupMessageView,
    members: Seq<Seq<char>>,
)
    ensures
        forall|i: int|
            0 <= i < fanout_effects(c, inboxes, m, members).len() ==> !acknowledges(
                #[trigger] fanout_effects(c, inboxes, m, members)[i],
            ),
    decreases members.len(),
{
    if members.len() > 0 {
        let d = members.drop_last();
        let member = members.last();
        lemma_no_acknowledgement(c, inboxes, m, d);
        let a = fanout_effects(c, inboxes, m, d);
        let b = member_effects(elsewhere(c, member), or_empty(inbox_at(inboxes, member)), m, member);
        assert forall|i: int| 0 <= i < (a + b).len() implies !acknowledges(
            #[trigger] (a + b)[i],
        ) by {
            if i < a.len() {
                assert((a + b)[i] == a[i]);
            } else {
                assert((a + b)[i] == b[i - a.len()]);
            }
        }
    }
}

/// What is due to a member is among what fanning out leads to.
proof fn lemma_member_is_served(
    c: Option<ClusterState>,
    inboxes: Map<Seq<char>, Inbox>,
    m: GroupMessageView,
    members: Seq<Seq<char>>,
    user: Seq<char>,
)
    requires
        members.contains(user),
    ensures
        ({
            let served = member_effects(
                elsewhere(c, user),
                or_empty(inbox_at(inboxes, user)),
                m,
                user,
            );
            served.len() > 0 ==> exists|i: int|
                0 <= i < fanout_effects(c, inboxes, m, members).len() && #[trigger] fanout_effects(
                    c,
                    inboxes,
                    m,
                    members,
                )[i] == served[0]
        }),
    decreases members.len(),
{
    let d = members.drop_last();
    let a = fanout_effects(c, inboxes, m, d);
    let all = fanout_effects(c, inboxes, m, members);
    let served = member_effects(elsewhere(c, user), or_empty(inbox_at(inboxes, user)), m, user);
    if members.last() == user {
        if served.len() > 0 {
            assert(all[a.len() as int] == served[0]);
        }
    } else {
        let k = members.index_of(user);
        assert(d[k] == user);
        lemma_member_is_served(c, inboxes, m, d, user);
        if served.len() > 0 {
            let i = choose|i: int| 0 <= i < a.len() && #[trigger] a[i] == served[0];
            assert(all[i] == a[i]);
        }
    }
}

/// Whether an effect of a fan-out is for a user.
pub open spec fn is_for_user(e: EffectView, user: Seq<char>) -> bool {
    match e {
        EffectView::Deliver(u, _) => u == user,
        EffectView::Persist(PacketView::GroupMessage(x)) => x.to_user == user,
        EffectView::ToPeer(_, PacketView::GroupMessage(x)) => x.to_user == user,
        _ => true,
    }
}

/// Whether an effect of a fan-out carries a message as it was sent.
pub open spec fn carries_message(e: EffectView, m: GroupMessageView) -> bool {
    let p = match e {
        EffectView::Deliver(_, p) => p,
        EffectView::Persist(p) => p,
        EffectView::ToPeer(_, p) => p,
        _ => PacketView::GroupMessage(m),
    };
    &&& (e is Deliver || e is Persist || e is ToPeer)
    &&& p matches PacketView::GroupMessage(x)
    &&& x.message_id == m.message_id
    &&& x.from_user == m.from_user
    &&& x.group_id == m.group_id
    &&& x.body == m.body
    &&& x.sent_at == m.sent_at
    &&& x.media_id == m.media_id
}

/// A group message goes to members only, never back to its sender, and every
/// copy carries it as it was sent.
pub proof fn law_fanout_serves_members_only(
    c: Option<ClusterState>,
    inboxes: Map<Seq<char>, Inbox>,
    m: GroupMessageView,
    members: Seq<Seq<char>>,
)
    ensures
        forall|i: int|
            0 <= i < fanout_effects(c, inboxes, m, members).len() ==> carries_message(
                #[trigger] fanout_effects(c, inboxes, m, members)[i],
                m,
            ),
        forall|i: int, user: Seq<char>|
            0 <= i < fanout_effects(c, inboxes, m, members).len() && #[trigger] is_for_user(
                fanout_effects(c, inboxes, m, members)[i],
                user,
            ) ==> members.contains(user) && user != m.from_user,
    decreases members.len(),
{
    if members.len() > 0 {
        let d = members.drop_last();
        let member = members.last();
        law_fanout_serves_members_only(c, inboxes, m, d);
        let a = fanout_effects(c, inboxes, m, d);
        let b = member_effects(elsewhere(c, member), or_empty(inbox_at(inboxes, member)), m, member);
        let all = fanout_effects(c, inboxes, m, members);
        assert(members[members.len() - 1] == member);
        assert forall|i: int| 0 <= i < all.len() implies carries_message(#[trigger] all[i], m) by {
            if i < a.len() {
                assert(all[i] == a[i]);
            } else {
                assert(all[i] == b[i - a.len()]);
            }
        }
        assert forall|i: int, user: Seq<char>|
            0 <= i < all.len() && #[trigger] is_for_user(all[i], user) implies members.contains(
            user,
        ) && user != m.from_user by {
            if i < a.len() {
                assert(all[i] == a[i]);
                assert(is_for_user(a[i], user));
                let k = d.index_of(user);
                assert(members[k] == user);
            } else {
                assert(all[i] == b[i - a.len()]);
            }
        }
    }
}

/// A new copy of a member at home here is delivered as well as persisted, under
/// one number; one that was stored before is neither persisted nor delivered
/// again.
pub proof fn law_new_copies_are_delivered(v: InboxView, m: GroupMessageView)
    ensures
        ({
            let key = m.message_id + ":"@ + m.to_user;
            let e = copy_effects(v, m);
            &&& v.seen.contains(key) ==> e.len() == 0
            &&& !v.seen.contains(key) ==> {
                &&& e.len() == 2
                &&& e[0] matches EffectView::Persist(PacketView::GroupMessage(x))
                &&& e[1] matches EffectView::Deliver(u, PacketView::GroupMessage(y))
                &&& u == m.to_user
                &&& x == y
                &&& x.seq == (v.next_seq + 1) as u64
                &&& x == (GroupMessageView { seq: x.seq, ..m })
            }
        }),
{
}

/// Who was removed from a group, or left it, is out: a later message to the
/// group is not for that user, and one of that user's is refused.
pub proof fn law_former_members_are_out(
    before: Map<Seq<char>, Group>,
    after: Map<Seq<char>, Group>,
    ev: GroupEventView,
    max_members: nat,
    user: Seq<char>,
    c: Option<ClusterState>,
    inboxes: Map<Seq<char>, Inbox>,
    m: GroupMessageView,
    members: Seq<Seq<char>>,
)
    requires
        groups_after(before, after, ev, max_members),
        group_at(before, ev.group_id) matches Some(g) && (ev.op == GroupOp::RemoveMember.number()
            && g.admins.contains(ev.actor_user) && user == ev.subject_user || ev.op
            == GroupOp::Leave.number() && user == ev.actor_user),
        m.group_id == ev.group_id,
        lists_members(members, group_at(after, m.group_id)),
    ensures
        !members.contains(user),
        forall|i: int|
            0 <= i < fanout_effects(c, inboxes, m, members).len() ==> !is_for_user(
                #[trigger] fanout_effects(c, inboxes, m, members)[i],
                user,
            ),
        m.from_user == user && m.group_id.len() > 0 && m.message_id.len() > 0 ==> group_detour(
            None,
            group_at(after, m.group_id),
            m,
        ) == Some(
            EffectView::Reply(
                error_view(ErrorCode::UnknownRecipient, "not a member or unknown group"@),
            ),
        ),
{
    let op = GroupOp::of(ev.op);
    law_numbers_stand_for_one(
        GroupOp::RemoveMember,
        GroupOp::Leave,
        PresenceKind::Available,
        PresenceKind::Available,
        ErrorCode::AuthFailed,
        ErrorCode::AuthFailed,
    );
    law_numbers_stand_for_one(
        GroupOp::Leave,
        GroupOp::Leave,
        PresenceKind::Available,
        PresenceKind::Available,
        ErrorCode::AuthFailed,
        ErrorCode::AuthFailed,
    );
    let g = group_at(before, ev.group_id);
    law_who_may_change_a_group(g, ev.actor_user, max_members);
    law_accepted_changes_take_effect(
        g,
        op,
        ev.actor_user,
        ev.subject_user,
        max_members,
        user,
    );
    assert(group_at(after, ev.group_id) == Some(
        changed(g, op, ev.actor_user, ev.subject_user),
    ));
    assert(members.contains(user) <==> members.to_set().contains(user));
    law_fanout_serves_members_only(c, inboxes, m, members);
}

/// A group message is taken from members only, and by the group's home node;
/// other nodes pass it on there as it is.
pub proof fn law_only_members_send(
    home: Option<Seq<char>>,
    g: Option<GroupView>,
    m: GroupMessageView,
)
    requires
        m.group_id.len() > 0,
        m.message_id.len() > 0,
    ensures
        group_detour(home, g, m) is None <==> home is None && g is Some && g->0.members.contains(
            m.from_user,
        ),
        home is Some ==> (group_detour(home, g, m) matches Some(EffectView::ToPeer(n, p)) && n
            == home->0 && (p matches PacketView::GroupMessage(x) && x.message_id == m.message_id
            && x.from_user == m.from_user && x.group_id == m.group_id && x.body == m.body
            && x.media_id == m.media_id && x.to_user.len() == 0)),
        home is None && (g is None || !g->0.members.contains(m.from_user)) ==> (group_detour(
            home,
            g,
            m,
        ) matches Some(EffectView::Reply(PacketView::Error(_)))),
{
}

/// What is told of a change of membership: everyone concerned hears of the
/// change as it was asked for, under the version it led to; a refusal changes
/// nothing and is told to nobody but who asked.
pub proof fn law_changes_are_told_as_made(
    g: Option<GroupView>,
    ev: GroupEventView,
    max_members: nat,
    answer: bool,
    targets: Seq<Seq<char>>,
)
    requires
        g matches Some(v) ==> v.version < u64::MAX,
    ensures
        ({
            let op = GroupOp::of(ev.op);
            let e = membership_effects(g, ev, max_members, answer, targets);
            if refusal(g, op, ev.actor_user, max_members) is None {
                &&& e.len() == targets.len()
                &&& forall|i: int|
                    0 <= i < e.len() ==> {
                        &&& #[trigger] e[i] matches EffectView::Deliver(u, PacketView::GroupEvent(x))
                        &&& u == targets[i]
                        &&& x.to_user == u
                        &&& x.group_id == ev.group_id
                        &&& x.op == ev.op
                        &&& x.actor_user == ev.actor_user
                        &&& x.subject_user == ev.subject_user
                        &&& x.version == (match g {
                            Some(v) => v.version + 1,
                            None => 1,
                        })
                    }
            } else if answer {
                e.len() == 1 && (e[0] matches EffectView::Reply(PacketView::Error(_)))
            } else {
                e.len() == 0
            }
        }),
{
}

/// A client acts for itself: whatever actor it names in a change, the change is
/// made on behalf of the user of the session, and nothing else of it changes.
pub proof fn law_actor_is_the_user(user: Seq<char>, ev: GroupEventView)
    ensures
        event_from(user, ev).actor_user == user,
        event_from(user, ev).to_user.len() == 0,
        event_from(user, ev).group_id == ev.group_id,
        event_from(user, ev).op == ev.op,
        event_from(user, ev).subject_user == ev.subject_user,
{
}

} // verus!
