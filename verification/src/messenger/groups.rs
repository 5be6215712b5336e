//! Groups: membership with versions, and the list to fan a message out to.

use crate::collections::{StrMap, StrSet};
use crate::messenger::wire::{GroupEvent, GroupOp, PeerHandoffGroup, PeerHandoffGroupView};
use crate::text::strs;
use vstd::prelude::*;

verus! {

/// A group.
pub struct Group {
    pub members: StrSet,
    pub admins: StrSet,
    pub version: u64,
}

/// What a [`Group`] holds.
#[verifier::ext_equal]
pub struct GroupView {
    pub members: Set<Seq<char>>,
    pub admins: Set<Seq<char>>,
    pub version: u64,
}

impl View for Group {
    type V = GroupView;

    open spec fn view(&self) -> GroupView {
        GroupView { members: self.members@, admins: self.admins@, version: self.version }
    }
}

impl Group {
    /// Members and admins are sets.
    pub open spec fn wf(&self) -> bool {
        self.members.wf() && self.admins.wf()
    }
}

/// Every group is well formed.
pub open spec fn groups_wf(m: Map<Seq<char>, Group>) -> bool {
    forall|k: Seq<char>| m.contains_key(k) ==> (#[trigger] m[k]).wf()
}

/// The group under an id.
pub open spec fn group_at(m: Map<Seq<char>, Group>, id: Seq<char>) -> Option<GroupView> {
    if m.contains_key(id) {
        Some(m[id]@)
    } else {
        None
    }
}

/// Why a change of membership is refused, if it is.
pub open spec fn refusal(
    g: Option<GroupView>,
    op: GroupOp,
    actor: Seq<char>,
    max_members: nat,
) -> Option<Seq<char>> {
    match op {
        GroupOp::Create => if g is Some {
            Some("group already exists"@)
        } else {
            None
        },
        GroupOp::AddMember => if g is None {
            Some("unknown group"@)
        } else if !g->0.admins.contains(actor) {
            Some("not an admin"@)
        } else if g->0.members.len() >= max_members {
            Some("group full"@)
        } else {
            None
        },
        GroupOp::RemoveMember => if g is None {
            Some("unknown group"@)
        } else if !g->0.admins.contains(actor) {
            Some("not an admin"@)
        } else {
            None
        },
        GroupOp::Leave => if g is None {
            Some("unknown group"@)
        } else {
            None
        },
        GroupOp::Unspecified => Some("unspecified group op"@),
    }
}

/// The group after a change that is not refused.
pub open spec fn changed(
    g: Option<GroupView>,
    op: GroupOp,
    actor: Seq<char>,
    subject: Seq<char>,
) -> GroupView {
    match op {
        GroupOp::AddMember => GroupView {
            members: g->0.members.insert(subject),
            admins: g->0.admins,
            version: (g->0.version + 1) as u64,
        },
        GroupOp::RemoveMember => GroupView {
            members: g->0.members.remove(subject),
            admins: g->0.admins.remove(subject),
            version: (g->0.version + 1) as u64,
        },
        GroupOp::Leave => GroupView {
            members: g->0.members.remove(actor),
            admins: g->0.admins.remove(actor),
            version: (g->0.version + 1) as u64,
        },
        _ => GroupView {
            members: Set::empty().insert(actor),
            admins: Set::empty().insert(actor),
            version: 1,
        },
    }
}

/// An accepted change: the version it led to and whom to tell.
pub struct GroupChange {
    pub version: u64,
    pub targets: Vec<String>,
}

/// The members and the actor, who may have just left, each once.
pub open spec fn told(targets: Seq<Seq<char>>, members: Set<Seq<char>>, actor: Seq<char>) -> bool {
    &&& targets.no_duplicates()
    &&& targets.to_set() == members.insert(actor)
}

/// The members of a group with the actor added.
fn targets_of(members: &StrSet, actor: &str) -> (v: Vec<String>)
    requires
        members.wf(),
    ensures
        told(strs(v@), members@, actor@),
{
    let mut all = members.clone();
    let _ = all.insert(actor.to_string());
    all.to_vec()
}

/// The set of one text.
fn only(user: &str) -> (s: StrSet)
    ensures
        s.wf(),
        s@ == Set::<Seq<char>>::empty().insert(user@),
{
    let mut s = StrSet::new();
    let _ = s.insert(user.to_string());
    s
}

/// Validates and applies a change of membership on behalf of its actor.
pub fn apply_group_event(
    groups: &mut StrMap<Group>,
    ev: &GroupEvent,
    max_members: usize,
) -> (r: Result<GroupChange, String>)
    requires
        old(groups).wf(),
        groups_wf(old(groups)@),
        group_at(old(groups)@, ev@.group_id) matches Some(g) ==> g.version < u64::MAX,
    ensures
        final(groups).wf(),
        groups_wf(final(groups)@),
        forall|k: Seq<char>|
            k != ev@.group_id ==> #[trigger] group_at(final(groups)@, k) == group_at(
                old(groups)@,
                k,
            ),
        ({
            let g = group_at(old(groups)@, ev@.group_id);
            let op = GroupOp::of(ev.op);
            match r {
                Err(e) => {
                    &&& refusal(g, op, ev@.actor_user, max_members as nat) == Some(e@)
                    &&& group_at(final(groups)@, ev@.group_id) == g
                },
                Ok(c) => {
                    let n = changed(g, op, ev@.actor_user, ev@.subject_user);
                    &&& refusal(g, op, ev@.actor_user, max_members as nat) is None
                    &&& group_at(final(groups)@, ev@.group_id) == Some(n)
                    &&& c.version == n.version
                    &&& told(strs(c.targets@), n.members, ev@.actor_user)
                },
            }
        }),
{
    let op = GroupOp::from_i32(ev.op);
    let user = ev.actor_user.as_str();
    let ghost before = groups@;
    match op {
        GroupOp::Unspecified => {
            return Err("unspecified group op".to_string());
        },
        GroupOp::Create => {
            if groups.contains_key(ev.group_id.as_str()) {
                return Err("group already exists".to_string());
            }
            let g = Group { members: only(user), admins: only(user), version: 1 };
            let targets = targets_of(&g.members, user);
            let _ = groups.insert(ev.group_id.clone(), g);
            return Ok(GroupChange { version: 1, targets });
        },
        _ => {},
    }
    let mut g = match groups.remove(ev.group_id.as_str()) {
        Some(g) => g,
        None => {
            assert(groups@ =~= before);
            return Err("unknown group".to_string());
        },
    };
    let refused: Option<String> = match op {
        GroupOp::AddMember => if !g.admins.contains(user) {
            Some("not an admin".to_string())
        } else if g.members.len() >= max_members {
            Some("group full".to_string())
        } else {
            None
        },
        GroupOp::RemoveMember => if !g.admins.contains(user) {
            Some("not an admin".to_string())
        } else {
            None
        },
        _ => None,
    };
    match refused {
        Some(e) => {
            let _ = groups.insert(ev.group_id.clone(), g);
            assert(groups@ =~= before);
            return Err(e);
        },
        None => {},
    }
    match op {
        GroupOp::AddMember => {
            let _ = g.members.insert(ev.subject_user.clone());
        },
        GroupOp::RemoveMember => {
            let _ = g.members.remove(ev.subject_user.as_str());
            let _ = g.admins.remove(ev.subject_user.as_str());
        },
        _ => {
            let _ = g.members.remove(user);
            let _ = g.admins.remove(user);
        },
    }
    g.version = g.version + 1;
    let version: u64 = g.version;
    let targets = targets_of(&g.members, user);
    let _ = groups.insert(ev.group_id.clone(), g);
    Ok(GroupChange { version, targets })
}

/// The members to send a group message to, if its sender is a member.
pub fn members_for(groups: &StrMap<Group>, group_id: &str, from_user: &str) -> (r: Option<
    Vec<String>,
>)
    requires
        groups.wf(),
        groups_wf(groups@),
    ensures
        match r {
            Some(v) => {
                &&& group_at(groups@, group_id@) matches Some(g)
                &&& g.members.contains(from_user@)
                &&& strs(v@).no_duplicates()
                &&& strs(v@).to_set() == g.members
            },
            None => group_at(groups@, group_id@) matches Some(g) ==> !g.members.contains(
                from_user@,
            ),
        },
{
    match groups.get(group_id) {
        None => None,
        Some(g) => if g.members.contains(from_user) {
            Some(g.members.to_vec())
        } else {
            None
        },
    }
}

/// The group once a handoff was merged: the higher version wins, and of equal
/// ones the one handed over.
pub open spec fn group_merged(g: Option<GroupView>, h: PeerHandoffGroupView) -> GroupView {
    if g is None || h.version >= g->0.version {
        GroupView {
            members: h.members.to_set(),
            admins: h.admins.to_set(),
            version: h.version,
        }
    } else {
        g->0
    }
}

/// Merges a group that was handed over by a former home node.
pub fn merge_handoff_group(groups: &mut StrMap<Group>, h: &PeerHandoffGroup)
    requires
        old(groups).wf(),
        groups_wf(old(groups)@),
    ensures
        final(groups).wf(),
        groups_wf(final(groups)@),
        forall|k: Seq<char>| #[trigger]
            group_at(final(groups)@, k) == (if k == h@.group_id {
                Some(group_merged(group_at(old(groups)@, k), h@))
            } else {
                group_at(old(groups)@, k)
            }),
{
    let newer = match groups.get(h.group_id.as_str()) {
        None => true,
        Some(g) => h.version >= g.version,
    };
    if newer {
        let g = Group {
            members: StrSet::from_vec(&h.members),
            admins: StrSet::from_vec(&h.admins),
            version: h.version,
        };
        let _ = groups.insert(h.group_id.clone(), g);
    }
}

/// What a new home node needs of a group.
pub fn build_group_handoff(group_id: &str, g: &Group) -> (h: PeerHandoffGroup)
    requires
        g.wf(),
    ensures
        h@.group_id == group_id@,
        h@.version == g.version,
        h@.members.no_duplicates(),
        h@.members.to_set() == g@.members,
        h@.admins.no_duplicates(),
        h@.admins.to_set() == g@.admins,
{
    PeerHandoffGroup {
        group_id: group_id.to_string(),
        members: g.members.to_vec(),
        admins: g.admins.to_vec(),
        version: g.version,
    }
}

/// Whether a handoff carries a group.
pub open spec fn carries(h: PeerHandoffGroupView, g: GroupView) -> bool {
    &&& h.version == g.version
    &&& h.members.to_set() == g.members
    &&& h.admins.to_set() == g.admins
}

/// A group survives its handoff to a node that knows no newer version of it,
/// and merging the handoff again changes nothing.
pub proof fn law_group_survives_handoff(
    there: Option<GroupView>,
    g: GroupView,
    h: PeerHandoffGroupView,
)
    requires
        carries(h, g),
    ensures
        there is None || there->0.version <= g.version ==> group_merged(there, h) == g,
        there is Some && there->0.version > g.version ==> group_merged(there, h) == there->0,
        group_merged(Some(group_merged(there, h)), h) == group_merged(there, h),
{
}

/// Every accepted change raises the version by one; a new group starts at one.
pub proof fn law_versions_rise(
    g: Option<GroupView>,
    op: GroupOp,
    actor: Seq<char>,
    subject: Seq<char>,
    max_members: nat,
)
    requires
        refusal(g, op, actor, max_members) is None,
        g matches Some(v) ==> v.version < u64::MAX,
    ensures
        changed(g, op, actor, subject).version == (match g {
            Some(v) => v.version + 1,
            None => 1,
        }),
{
}

/// As long as membership changes through events, admins are members and the
/// group stays within its limit.
pub proof fn law_admins_are_members(
    g: Option<GroupView>,
    op: GroupOp,
    actor: Seq<char>,
    subject: Seq<char>,
    max_members: nat,
)
    requires
        refusal(g, op, actor, max_members) is None,
        max_members > 0,
        g matches Some(v) ==> v.admins.subset_of(v.members) && v.members.finite()
            && v.members.len() <= max_members,
    ensures
        ({
            let n = changed(g, op, actor, subject);
            &&& n.admins.subset_of(n.members)
            &&& n.members.finite()
            &&& n.members.len() <= max_members
        }),
{
}

/// Only an admin adds a member or removes another one.
pub proof fn law_only_admins_change_others(
    g: Option<GroupView>,
    op: GroupOp,
    actor: Seq<char>,
    subject: Seq<char>,
    max_members: nat,
    user: Seq<char>,
)
    requires
        refusal(g, op, actor, max_members) is None,
        g is Some,
        user != actor,
        g->0.members.contains(user) != changed(g, op, actor, subject).members.contains(user),
    ensures
        g->0.admins.contains(actor),
        user == subject,
{
}

/// An accepted change has its effect and no other: who is added is a member
/// from then on, who is removed is neither member nor admin any more, nor is who
/// left, and a new group has its creator as the only member and admin. Everyone
/// else stays what they were.
pub proof fn law_accepted_changes_take_effect(
    g: Option<GroupView>,
    op: GroupOp,
    actor: Seq<char>,
    subject: Seq<char>,
    max_members: nat,
    user: Seq<char>,
)
    requires
        refusal(g, op, actor, max_members) is None,
    ensures
        ({
            let n = changed(g, op, actor, subject);
            match op {
                GroupOp::Create => {
                    &&& g is None
                    &&& n.members.contains(user) <==> user == actor
                    &&& n.admins.contains(user) <==> user == actor
                },
                GroupOp::AddMember => {
                    &&& n.members.contains(subject)
                    &&& user != subject ==> (n.members.contains(user) <==> g->0.members.contains(
                        user,
                    ))
                    &&& n.admins.contains(user) <==> g->0.admins.contains(user)
                },
                GroupOp::RemoveMember => {
                    &&& !n.members.contains(subject)
                    &&& !n.admins.contains(subject)
                    &&& user != subject ==> (n.members.contains(user) <==> g->0.members.contains(
                        user,
                    ))
                    &&& user != subject ==> (n.admins.contains(user) <==> g->0.admins.contains(
                        user,
                    ))
                },
                GroupOp::Leave => {
                    &&& !n.members.contains(actor)
                    &&& !n.admins.contains(actor)
                    &&& user != actor ==> (n.members.contains(user) <==> g->0.members.contains(
                        user,
                    ))
                    &&& user != actor ==> (n.admins.contains(user) <==> g->0.admins.contains(user))
                },
                GroupOp::Unspecified => false,
            }
        }),
{
}

/// Who may change a group: anyone may create one that there is not yet, only
/// admins add and remove members, a full group takes no more, and anyone may
/// leave. Each refusal has a text of its own.
pub proof fn law_who_may_change_a_group(
    g: Option<GroupView>,
    actor: Seq<char>,
    max_members: nat,
)
    ensures
        refusal(g, GroupOp::Create, actor, max_members) is None <==> g is None,
        refusal(g, GroupOp::AddMember, actor, max_members) is None <==> g is Some
            && g->0.admins.contains(actor) && g->0.members.len() < max_members,
        refusal(g, GroupOp::RemoveMember, actor, max_members) is None <==> g is Some
            && g->0.admins.contains(actor),
        refusal(g, GroupOp::Leave, actor, max_members) is None <==> g is Some,
        refusal(g, GroupOp::Unspecified, actor, max_members) is Some,
        g is Some ==> refusal(g, GroupOp::Create, actor, max_members) == Some(
            "group already exists"@,
        ),
        g is None ==> refusal(g, GroupOp::RemoveMember, actor, max_members) == Some(
            "unknown group"@,
        ) && refusal(g, GroupOp::AddMember, actor, max_members) == Some("unknown group"@)
            && refusal(g, GroupOp::Leave, actor, max_members) == Some("unknown group"@),
        g is Some && !g->0.admins.contains(actor) ==> refusal(
            g,
            GroupOp::RemoveMember,
            actor,
            max_members,
        ) == Some("not an admin"@) && refusal(g, GroupOp::AddMember, actor, max_members) == Some(
            "not an admin"@,
        ),
        g is Some && g->0.admins.contains(actor) && g->0.members.len() >= max_members ==> refusal(
            g,
            GroupOp::AddMember,
            actor,
            max_members,
        ) == Some("group full"@),
{
}

/// Adding a member and removing the same one again leaves the members as they
/// were, two versions later; the admins stay, but for one who was removed.
pub proof fn law_removing_undoes_adding(
    g: GroupView,
    actor: Seq<char>,
    subject: Seq<char>,
)
    requires
        !g.members.contains(subject),
        g.version < u64::MAX - 1,
    ensures
        ({
            let n = changed(
                Some(changed(Some(g), GroupOp::AddMember, actor, subject)),
                GroupOp::RemoveMember,
                actor,
                subject,
            );
            &&& n.members == g.members
            &&& n.version == g.version + 2
        }),
{
    assert(g.members.insert(subject).remove(subject) =~= g.members);
}

/// Everyone who is a member once a change was made is told of it, and so is who
/// made it; nobody else is, and nobody twice.
pub proof fn law_members_are_told(
    targets: Seq<Seq<char>>,
    members: Set<Seq<char>>,
    actor: Seq<char>,
    user: Seq<char>,
)
    requires
        told(targets, members, actor),
    ensures
        targets.contains(user) <==> members.contains(user) || user == actor,
        targets.no_duplicates(),
{
    assert(targets.contains(user) <==> targets.to_set().contains(user));
}

/// Of two versions of a group, a merge keeps the later one whole, whichever side
/// it comes from.
pub proof fn law_merge_keeps_the_later_version(
    g: Option<GroupView>,
    h: PeerHandoffGroupView,
    user: Seq<char>,
)
    ensures
        ({
            let n = group_merged(g, h);
            &&& n.version >= h.version
            &&& g matches Some(v) ==> n.version >= v.version
            &&& g is Some && g->0.version > h.version ==> (n.members.contains(user)
                <==> g->0.members.contains(user)) && (n.admins.contains(user)
                <==> g->0.admins.contains(user)) && n.version == g->0.version
            &&& g is None || g->0.version <= h.version ==> (n.members.contains(user)
                <==> h.members.contains(user)) && (n.admins.contains(user) <==> h.admins.contains(
                user,
            )) && n.version == h.version
        }),
{
    assert(h.members.to_set().contains(user) <==> h.members.contains(user));
    assert(h.admins.to_set().contains(user) <==> h.admins.contains(user));
}

} // verus!
