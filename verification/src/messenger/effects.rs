//! What a gateway does in answer to a frame: packets to send and entries to
//! persist, in order.

use crate::messenger::codec::{Packet, PacketView};
use crate::text::strs;
use vstd::prelude::*;

verus! {

/// One thing to do.
#[derive(Debug, PartialEq, Eq)]
pub enum Effect {
    /// Answer the client on this connection.
    Reply(Packet),
    /// Deliver to a user: to the local sessions, or else to the gateway where
    /// the user is connected.
    Deliver(String, Packet),
    /// Queue on one local session.
    ToSession(u64, Packet),
    /// Queue on every local session.
    ToSessions(Packet),
    /// Queue on every local session of the named users.
    ToUsers(Packet, Vec<String>),
    /// Queue on the link to a peer.
    ToPeer(String, Packet),
    /// Queue on every peer link but the named one.
    ToPeers(Packet, Option<String>),
    /// Append to the journal before anything that follows.
    Persist(Packet),
    /// Open a link to a peer, which is known by its id and address.
    OpenLink(String, String),
    /// Close the link to a peer.
    CloseLink(String),
    /// End a local session.
    CloseSession(u64),
}

/// What an [`Effect`] holds.
#[verifier::ext_equal]
pub enum EffectView {
    Reply(PacketView),
    Deliver(Seq<char>, PacketView),
    ToSession(u64, PacketView),
    ToSessions(PacketView),
    ToUsers(PacketView, Seq<Seq<char>>),
    ToPeer(Seq<char>, PacketView),
    ToPeers(PacketView, Option<Seq<char>>),
    Persist(PacketView),
    OpenLink(Seq<char>, Seq<char>),
    CloseLink(Seq<char>),
    CloseSession(u64),
}

/// The text of an optional string.
pub open spec fn text_of(o: Option<String>) -> Option<Seq<char>> {
    match o {
        Some(s) => Some(s@),
        None => None,
    }
}

impl View for Effect {
    type V = EffectView;

    open spec fn view(&self) -> EffectView {
        match self {
            Effect::Reply(p) => EffectView::Reply(p@),
            Effect::Deliver(u, p) => EffectView::Deliver(u@, p@),
            Effect::ToSession(s, p) => EffectView::ToSession(*s, p@),
            Effect::ToSessions(p) => EffectView::ToSessions(p@),
            Effect::ToUsers(p, u) => EffectView::ToUsers(p@, strs(u@)),
            Effect::ToPeer(n, p) => EffectView::ToPeer(n@, p@),
            Effect::ToPeers(p, n) => EffectView::ToPeers(p@, text_of(*n)),
            Effect::Persist(p) => EffectView::Persist(p@),
            Effect::OpenLink(n, a) => EffectView::OpenLink(n@, a@),
            Effect::CloseLink(n) => EffectView::CloseLink(n@),
            Effect::CloseSession(s) => EffectView::CloseSession(*s),
        }
    }
}

/// The effects by their views.
pub open spec fn effect_views(v: Seq<Effect>) -> Seq<EffectView> {
    Seq::new(v.len(), |i: int| v[i]@)
}

/// Appends an effect.
pub fn push_effect(v: &mut Vec<Effect>, e: Effect)
    ensures
        effect_views(final(v)@) == effect_views(old(v)@).push(e@),
{
    v.push(e);
    assert(effect_views(v@) =~= effect_views(old(v)@).push(e@));
}

/// No effects.
pub fn no_effects() -> (v: Vec<Effect>)
    ensures
        effect_views(v@) == Seq::<EffectView>::empty(),
{
    let v: Vec<Effect> = Vec::new();
    assert(effect_views(v@) =~= Seq::<EffectView>::empty());
    v
}

/// Appends effects.
pub fn append_effects(v: &mut Vec<Effect>, more: Vec<Effect>)
    ensures
        effect_views(final(v)@) == effect_views(old(v)@) + effect_views(more@),
{
    let ghost mv = more@;
    let mut m = more;
    v.append(&mut m);
    assert(effect_views(v@) =~= effect_views(old(v)@) + effect_views(mv));
}

} // verus!
