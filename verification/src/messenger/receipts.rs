//! Receipts of group messages: who has received and who has read a message, as
//! its sender is told.

use crate::collections::{StrMap, StrSet};
use crate::messenger::codec::{Packet, PacketView};
use crate::messenger::effects::{effect_views, no_effects, push_effect, Effect, EffectView};
use crate::messenger::wire::{
    GroupAckSummary, GroupAckSummaryView, GroupMessage, GroupMessageView,
};
use crate::text::{clone_strings, contains_str, strs};
use vstd::prelude::*;

verus! {

/// The receipts of one group message.
pub struct Receipts {
    pub group_id: String,
    pub sender: String,
    /// The members that the message went to.
    pub recipients: StrSet,
    /// Those who received it, in the order of their receipts.
    pub delivered_by: Vec<String>,
    /// Those who read it, in the order of their receipts.
    pub read_by: Vec<String>,
}

/// What [`Receipts`] holds.
#[verifier::ext_equal]
pub struct ReceiptsView {
    pub group_id: Seq<char>,
    pub sender: Seq<char>,
    pub recipients: Set<Seq<char>>,
    pub delivered_by: Seq<Seq<char>>,
    pub read_by: Seq<Seq<char>>,
}

impl View for Receipts {
    type V = ReceiptsView;

    open spec fn view(&self) -> ReceiptsView {
        ReceiptsView {
            group_id: self.group_id@,
            sender: self.sender@,
            recipients: self.recipients@,
            delivered_by: strs(self.delivered_by@),
            read_by: strs(self.read_by@),
        }
    }
}

/// Receipts come from recipients, one of each kind from each.
pub open spec fn fair(r: ReceiptsView) -> bool {
    &&& r.recipients.finite()
    &&& r.delivered_by.no_duplicates()
    &&& r.read_by.no_duplicates()
    &&& r.delivered_by.to_set().subset_of(r.recipients)
    &&& r.read_by.to_set().subset_of(r.recipients)
}

/// All receipts are well formed.
pub open spec fn receipts_wf(m: Map<Seq<char>, Receipts>) -> bool {
    forall|k: Seq<char>|
        m.contains_key(k) ==> (#[trigger] m[k]).recipients.wf() && fair(m[k]@)
}

/// The receipts of a message.
pub open spec fn receipts_at(m: Map<Seq<char>, Receipts>, id: Seq<char>) -> Option<ReceiptsView> {
    if m.contains_key(id) {
        Some(m[id]@)
    } else {
        None
    }
}

/// The receipts of a message that a group's members are about to get: none yet.
/// Those of a message that is known are kept, and a message that goes to nobody
/// has none.
pub open spec fn noted(
    o: Option<ReceiptsView>,
    members: Set<Seq<char>>,
    m: GroupMessageView,
) -> Option<ReceiptsView> {
    let recipients = members.remove(m.from_user);
    if o is Some {
        o
    } else if recipients == Set::<Seq<char>>::empty() {
        None
    } else {
        Some(
            ReceiptsView {
                group_id: m.group_id,
                sender: m.from_user,
                recipients,
                delivered_by: Seq::empty(),
                read_by: Seq::empty(),
            },
        )
    }
}

/// Expects receipts for a message that goes to the members of a group.
pub fn note(receipts: &mut StrMap<Receipts>, members: &StrSet, m: &GroupMessage)
    requires
        old(receipts).wf(),
        receipts_wf(old(receipts)@),
        members.wf(),
    ensures
        final(receipts).wf(),
        receipts_wf(final(receipts)@),
        forall|k: Seq<char>| #[trigger]
            receipts_at(final(receipts)@, k) == (if k == m@.message_id {
                noted(receipts_at(old(receipts)@, k), members@, m@)
            } else {
                receipts_at(old(receipts)@, k)
            }),
{
    if receipts.contains_key(m.message_id.as_str()) {
        return;
    }
    let mut recipients = members.clone();
    let _ = recipients.remove(m.from_user.as_str());
    proof {
        recipients.lemma_len();
    }
    if recipients.len() == 0 {
        assert(recipients@ =~= Set::<Seq<char>>::empty());
        return;
    }
    assert(recipients@ != Set::<Seq<char>>::empty()) by {
        assert(Set::<Seq<char>>::empty().len() == 0);
    }
    let r = Receipts {
        group_id: m.group_id.clone(),
        sender: m.from_user.clone(),
        recipients,
        delivered_by: Vec::new(),
        read_by: Vec::new(),
    };
    proof {
        assert(strs(r.delivered_by@) =~= Seq::<Seq<char>>::empty());
        assert(strs(r.read_by@) =~= Seq::<Seq<char>>::empty());
        assert(r@.read_by.to_set() =~= Set::<Seq<char>>::empty());
        assert(fair(r@));
    }
    let ghost rv = r;
    let _ = receipts.insert(m.message_id.clone(), r);
    proof {
        assert(receipts@ == old(receipts)@.insert(m@.message_id, rv));
        assert forall|k: Seq<char>| receipts@.contains_key(k) implies (
        #[trigger] receipts@[k]).recipients.wf() && fair(receipts@[k]@) by {
            if k != m@.message_id {
                assert(old(receipts)@.contains_key(k));
            }
        }
    }
}

/// The receipts of one kind.
pub open spec fn listed_by(r: ReceiptsView, read: bool) -> Seq<Seq<char>> {
    if read {
        r.read_by
    } else {
        r.delivered_by
    }
}

/// Whether the receipt of a user is a new one of a recipient.
pub open spec fn counts(o: Option<ReceiptsView>, user: Seq<char>, read: bool) -> bool {
    o matches Some(r) && r.recipients.contains(user) && !listed_by(r, read).contains(user)
}

/// The receipts with that of a user.
pub open spec fn with_receipt(r: ReceiptsView, user: Seq<char>, read: bool) -> ReceiptsView {
    if read {
        ReceiptsView { read_by: r.read_by.push(user), ..r }
    } else {
        ReceiptsView { delivered_by: r.delivered_by.push(user), ..r }
    }
}

/// Whether every recipient has read the message.
pub open spec fn read_by_all(r: ReceiptsView) -> bool {
    r.read_by.len() >= r.recipients.len()
}

/// The receipts after that of a user; once everyone has read the message they
/// are not needed any more.
pub open spec fn receipts_after(o: Option<ReceiptsView>, user: Seq<char>, read: bool) -> Option<
    ReceiptsView,
> {
    if counts(o, user, read) {
        let r = with_receipt(o->0, user, read);
        if read_by_all(r) {
            None
        } else {
            Some(r)
        }
    } else {
        o
    }
}

/// What the sender of a message is told of its receipts.
pub open spec fn summary(message_id: Seq<char>, r: ReceiptsView) -> GroupAckSummaryView {
    GroupAckSummaryView {
        message_id,
        group_id: r.group_id,
        delivered_by: r.delivered_by,
        read_by: r.read_by,
        member_count: if r.recipients.len() > u32::MAX {
            u32::MAX
        } else {
            r.recipients.len() as u32
        },
        to_user: r.sender,
    }
}

/// What the receipt of a user leads to: the sender is told, if it is a new one.
pub open spec fn receipt_effects(
    o: Option<ReceiptsView>,
    message_id: Seq<char>,
    user: Seq<char>,
    read: bool,
) -> Seq<EffectView> {
    if counts(o, user, read) {
        seq![
            EffectView::Deliver(
                o->0.sender,
                PacketView::GroupAckSummary(
                    summary(message_id, with_receipt(o->0, user, read)),
                ),
            ),
        ]
    } else {
        Seq::empty()
    }
}

/// Receipts stay fair.
proof fn lemma_stays_fair(r: ReceiptsView, user: Seq<char>, read: bool)
    requires
        fair(r),
        counts(Some(r), user, read),
    ensures
        fair(with_receipt(r, user, read)),
{
    let a = listed_by(r, read);
    let b = a.push(user);
    assert forall|i: int, j: int| 0 <= i < b.len() && 0 <= j < b.len() && i != j implies b[i]
        != b[j] by {
        if i == a.len() {
            assert(a.contains(a[j]));
        }
        if j == a.len() {
            assert(a.contains(a[i]));
        }
    }
    assert forall|q: Seq<char>| b.to_set().contains(q) implies r.recipients.contains(q) by {
        let k = b.index_of(q);
        if k < a.len() {
            assert(a[k] == q);
            assert(a.to_set().contains(q));
        }
    }
}

/// Takes the receipt of a user for a message: that it was delivered, or that it
/// was read.
pub fn take_receipt(
    receipts: &mut StrMap<Receipts>,
    message_id: &str,
    user: &str,
    read: bool,
) -> (v: Vec<Effect>)
    requires
        old(receipts).wf(),
        receipts_wf(old(receipts)@),
    ensures
        final(receipts).wf(),
        receipts_wf(final(receipts)@),
        forall|k: Seq<char>| #[trigger]
            receipts_at(final(receipts)@, k) == (if k == message_id@ {
                receipts_after(receipts_at(old(receipts)@, k), user@, read)
            } else {
                receipts_at(old(receipts)@, k)
            }),
        effect_views(v@) == receipt_effects(
            receipts_at(old(receipts)@, message_id@),
            message_id@,
            user@,
            read,
        ),
{
    let ghost was = receipts@;
    let mut out = no_effects();
    let known = match receipts.remove(message_id) {
        None => {
            assert(receipts@ =~= was);
            return out;
        },
        Some(r) => r,
    };
    let ghost before = known@;
    assert(was.contains_key(message_id@) && fair(before));
    let mut r = known;
    let listed = if read {
        contains_str(&r.read_by, user)
    } else {
        contains_str(&r.delivered_by, user)
    };
    if !r.recipients.contains(user) || listed {
        let _ = receipts.insert(message_id.to_string(), r);
        assert(receipts@ =~= was);
        return out;
    }
    assert(counts(Some(before), user@, read));
    proof {
        lemma_stays_fair(before, user@, read);
    }
    if read {
        let ghost list = r.read_by@;
        r.read_by.push(user.to_string());
        assert(strs(r.read_by@) =~= strs(list).push(user@));
    } else {
        let ghost list = r.delivered_by@;
        r.delivered_by.push(user.to_string());
        assert(strs(r.delivered_by@) =~= strs(list).push(user@));
    }
    assert(r@ =~= with_receipt(before, user@, read));
    let n: usize = r.recipients.len();
    let member_count: u32 = if n as u64 > 0xffff_ffff {
        0xffff_ffff
    } else {
        n as u32
    };
    let news = GroupAckSummary {
        message_id: message_id.to_string(),
        group_id: r.group_id.clone(),
        delivered_by: clone_strings(&r.delivered_by),
        read_by: clone_strings(&r.read_by),
        member_count,
        to_user: r.sender.clone(),
    };
    assert(news@ =~= summary(message_id@, r@));
    let to = r.sender.clone();
    push_effect(&mut out, Effect::Deliver(to, Packet::GroupAckSummary(news)));
    assert(effect_views(out@) =~= receipt_effects(Some(before), message_id@, user@, read));
    assert(r.read_by@.len() == r@.read_by.len());
    if r.read_by.len() < n {
        let _ = receipts.insert(message_id.to_string(), r);
    }
    out
}

/// The summary that says that everyone has read a message names every recipient,
/// each once, and nobody else.
pub proof fn law_full_summary_names_everyone(r: ReceiptsView, user: Seq<char>, id: Seq<char>)
    requires
        fair(r),
        counts(Some(r), user, true),
        read_by_all(with_receipt(r, user, true)),
    ensures
        summary(id, with_receipt(r, user, true)).read_by.no_duplicates(),
        summary(id, with_receipt(r, user, true)).read_by.to_set() == r.recipients,
        r.recipients.len() <= u32::MAX ==> summary(
            id,
            with_receipt(r, user, true),
        ).member_count == summary(id, with_receipt(r, user, true)).read_by.len(),
{
    lemma_stays_fair(r, user, true);
    let w = with_receipt(r, user, true);
    w.read_by.unique_seq_to_set();
    vstd::set_lib::lemma_len_subset(w.read_by.to_set(), w.recipients);
    vstd::set_lib::lemma_subset_equality(w.read_by.to_set(), w.recipients);
}

/// A receipt counts once: given again it changes nothing and tells nobody, as
/// does that of someone who is no recipient.
pub proof fn law_receipts_count_once(
    r: ReceiptsView,
    user: Seq<char>,
    read: bool,
    id: Seq<char>,
)
    ensures
        counts(Some(r), user, read) && receipts_after(Some(r), user, read) is Some ==> {
            let after = receipts_after(Some(r), user, read);
            &&& receipts_after(after, user, read) == after
            &&& receipt_effects(after, id, user, read) == Seq::<EffectView>::empty()
        },
        !r.recipients.contains(user) ==> {
            &&& receipts_after(Some(r), user, read) == Some(r)
            &&& receipt_effects(Some(r), id, user, read) == Seq::<EffectView>::empty()
        },
{
    let w = with_receipt(r, user, read);
    let list = listed_by(w, read);
    if counts(Some(r), user, read) {
        assert(list[list.len() - 1] == user);
    }
}

/// Receipts are expected of every member but the sender, who is the one to be
/// told; a message that nobody else gets has none, and a retry forgets none.
pub proof fn law_receipts_are_expected_of_the_others(
    o: Option<ReceiptsView>,
    members: Set<Seq<char>>,
    m: GroupMessageView,
    user: Seq<char>,
)
    ensures
        o is Some ==> noted(o, members, m) == o,
        o is None && members.contains(user) && user != m.from_user ==> noted(o, members, m) is Some
            && noted(o, members, m)->0.recipients.contains(user),
        o is None && noted(o, members, m) is Some ==> {
            let r = noted(o, members, m)->0;
            &&& r.sender == m.from_user
            &&& r.group_id == m.group_id
            &&& r.recipients.contains(user) ==> members.contains(user) && user != m.from_user
            &&& r.delivered_by.len() == 0
            &&& r.read_by.len() == 0
        },
{
    if o is None && members.contains(user) && user != m.from_user {
        assert(members.remove(m.from_user).contains(user));
    }
}

/// The first time that a recipient received or read a message, its sender is
/// told who did so far, that recipient now among them and nobody dropped; nobody
/// else is told anything. Once the last recipient has read it, nothing more is
/// expected.
pub proof fn law_sender_hears_of_each_receipt(
    r: ReceiptsView,
    message_id: Seq<char>,
    user: Seq<char>,
    read: bool,
    other: Seq<char>,
)
    requires
        r.recipients.contains(user),
        read ==> !r.read_by.contains(user),
        !read ==> !r.delivered_by.contains(user),
        other != user,
    ensures
        ({
            let e = receipt_effects(Some(r), message_id, user, read);
            let s = e[0]->Deliver_1->GroupAckSummary_0;
            let after = receipts_after(Some(r), user, read);
            &&& e.len() == 1
            &&& e[0] is Deliver
            &&& e[0]->Deliver_0 == r.sender
            &&& e[0]->Deliver_1 is GroupAckSummary
            &&& s.message_id == message_id
            &&& s.group_id == r.group_id
            &&& s.to_user == r.sender
            &&& read ==> s.read_by.contains(user) && s.delivered_by == r.delivered_by
            &&& !read ==> s.delivered_by.contains(user) && s.read_by == r.read_by
            &&& s.read_by.contains(other) <==> r.read_by.contains(other)
            &&& s.delivered_by.contains(other) <==> r.delivered_by.contains(other)
            &&& r.recipients.len() <= u32::MAX ==> s.member_count == r.recipients.len()
            &&& after is None <==> s.read_by.len() >= r.recipients.len()
            &&& after is Some ==> {
                &&& after->0.read_by == s.read_by
                &&& after->0.delivered_by == s.delivered_by
                &&& after->0.recipients == r.recipients
                &&& after->0.sender == r.sender
                &&& after->0.group_id == r.group_id
            }
        }),
        receipt_effects(None, message_id, user, read).len() == 0,
        receipts_after(None, user, read) is None,
{
    let l = if read {
        r.read_by
    } else {
        r.delivered_by
    };
    assert(l.push(user).last() == user);
    assert(l.push(user).contains(other) <==> l.contains(other)) by {
        if l.contains(other) {
            assert(l.push(user)[l.index_of(other)] == other);
        }
        if l.push(user).contains(other) {
            let k = l.push(user).index_of(other);
            assert(l[k] == other);
        }
    }
}

} // verus!
