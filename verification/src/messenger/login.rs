//! The start of a session: the first frame, the credentials, and the replay of
//! what is waiting.

use crate::collections::StrMap;
use crate::messenger::auth::{token_valid, Authenticator};
use crate::messenger::cluster::{cluster_wf, elsewhere, home_elsewhere, ClusterState};
use crate::messenger::codec::{Packet, PacketView};
use crate::messenger::effects::{
    append_effects, effect_views, no_effects, push_effect, Effect, EffectView,
};
use crate::messenger::error::MessengerError;
use crate::messenger::inbox::{
    law_replay_is_what_waits, packet_views, replay_of, Inbox, InboxView, StoredView,
};
use crate::messenger::journal::{inbox_at, or_empty};
use crate::messenger::limits::{
    auth_backoff, backoff_nanos, failures_at, law_backoff_grows, AuthFailures,
};
use crate::messenger::media::{error_view, proto_error};
use crate::messenger::presence::{audience, audience_of, broadcast_presence, presence_news};
use crate::messenger::sessions::{
    attached, law_login_replaces_the_device, SessionEntry, SessionTable, SessionView,
};
use crate::messenger::wire::{
    ErrorCode, Login, LoginAck, LoginAckView, LoginView, PeerSync, PeerSyncView, PingView,
    PresenceKind, SyncComplete, SyncCompleteView,
};
use crate::text::{concat2, decimal, decimal_string};
use crate::time::Duration;
use vstd::prelude::*;

verus! {

/// What the wait for the first frame ended with.
pub enum FirstFrame {
    /// The deadline passed.
    Late,
    /// The connection was closed.
    Closed,
    /// The frame could not be read.
    Failed(MessengerError),
    /// A packet came.
    Packet(Packet),
}

/// What follows from the first frame.
pub enum Opening {
    /// A client wants to log in.
    Client(Login),
    /// A peer gateway opened a link.
    Peer(String),
    /// The connection ends, possibly after an answer.
    Refused(Option<Packet>, MessengerError),
}

/// Whether a peer's greeting is genuine.
pub open spec fn hello_valid(c: Option<ClusterState>, node: Seq<char>, token: Seq<char>) -> bool {
    c matches Some(s) && token_valid(s.peer_auth.secret@, node, "peer"@, token)
}

/// The verdict on the first frame of a connection.
pub open spec fn judged(cluster: Option<ClusterState>, frame: FirstFrame, r: Opening) -> bool {
    match frame {
        FirstFrame::Late => {
            &&& r matches Opening::Refused(Some(p), e)
            &&& p@ == error_view(ErrorCode::NotAuthenticated, "login deadline exceeded"@)
            &&& e matches MessengerError::Timeout(what)
            &&& what@ == "login"@
        },
        FirstFrame::Closed => r == Opening::Refused(None, MessengerError::Closed),
        FirstFrame::Failed(e) => r == Opening::Refused(None, e),
        FirstFrame::Packet(Packet::Login(l)) => r == Opening::Client(l),
        FirstFrame::Packet(Packet::PeerHello(h)) => if hello_valid(
            cluster,
            h@.node_id,
            h@.auth_token,
        ) {
            r == Opening::Peer(h.node_id)
        } else {
            &&& r matches Opening::Refused(Some(p), MessengerError::AuthFailed)
            &&& p@ == error_view(ErrorCode::AuthFailed, "invalid peer token"@)
        },
        FirstFrame::Packet(_) => {
            &&& r matches Opening::Refused(Some(p), MessengerError::Protocol(m))
            &&& p@ == error_view(ErrorCode::NotAuthenticated, "first frame must be Login"@)
            &&& m@ == "first frame must be Login"@
        },
    }
}

/// Judges the first frame of a connection: a login, a peer's greeting with a
/// valid token, or the end.
pub fn first_frame(cluster: &Option<ClusterState>, frame: FirstFrame) -> (r: Opening)
    ensures
        judged(*cluster, frame, r),
{
    match frame {
        FirstFrame::Late => Opening::Refused(
            Some(proto_error(ErrorCode::NotAuthenticated, "login deadline exceeded")),
            MessengerError::Timeout("login"),
        ),
        FirstFrame::Closed => Opening::Refused(None, MessengerError::Closed),
        FirstFrame::Failed(e) => Opening::Refused(None, e),
        FirstFrame::Packet(pkt) => match pkt {
            Packet::Login(l) => Opening::Client(l),
            Packet::PeerHello(h) => {
                let ok = match cluster {
                    Some(c) => c.peer_auth.verify(
                        h.node_id.as_str(),
                        "peer",
                        h.auth_token.as_str(),
                    ),
                    None => false,
                };
                if ok {
                    Opening::Peer(h.node_id)
                } else {
                    Opening::Refused(
                        Some(proto_error(ErrorCode::AuthFailed, "invalid peer token")),
                        MessengerError::AuthFailed,
                    )
                }
            },
            _ => Opening::Refused(
                Some(proto_error(ErrorCode::NotAuthenticated, "first frame must be Login")),
                MessengerError::Protocol("first frame must be Login".to_string()),
            ),
        },
    }
}

/// What becomes of a login.
pub enum LoginVerdict {
    /// The session is opened.
    Accepted,
    /// The login fails with this answer, after this delay.
    Refused(Duration, Packet),
}

/// Whether a login names a user and a device.
pub open spec fn is_complete(l: LoginView) -> bool {
    l.user_id.len() > 0 && l.device_id.len() > 0
}

/// The verdict on a login, and the counts of failures by user before and after
/// it.
pub open spec fn login_judged(
    before: Map<Seq<char>, u32>,
    login: LoginView,
    verified: bool,
    backoff_base: Duration,
    backoff_max: Duration,
    after: Map<Seq<char>, u32>,
    r: LoginVerdict,
) -> bool {
    if !is_complete(login) {
        &&& r matches LoginVerdict::Refused(d, p)
        &&& d.total_nanos() == 0
        &&& p@ == error_view(ErrorCode::AuthFailed, "missing user_id/device_id"@)
        &&& after == before
    } else if !verified {
        let n = failures_at(after, login.user_id);
        let earlier = failures_at(before, login.user_id);
        &&& n == (if earlier < u32::MAX {
            (earlier + 1) as u32
        } else {
            earlier
        })
        &&& after == before.insert(login.user_id, n)
        &&& r matches LoginVerdict::Refused(d, p)
        &&& d.total_nanos() == backoff_nanos(backoff_base, backoff_max, n)
        &&& p@ == error_view(ErrorCode::AuthFailed, "invalid token"@)
    } else {
        &&& r is Accepted
        &&& after == before.remove(login.user_id)
    }
}

/// Judges a login. `verified` is what the authenticator says of the token.
/// Each failure of a user in a row makes the answer wait longer; a success
/// forgets them.
pub fn check_login(
    failures: &mut AuthFailures,
    login: &Login,
    verified: bool,
    backoff_base: Duration,
    backoff_max: Duration,
) -> (r: LoginVerdict)
    requires
        old(failures).counts.wf(),
        backoff_base.wf(),
        backoff_max.wf(),
    ensures
        final(failures).counts.wf(),
        login_judged(
            old(failures).counts@,
            login@,
            verified,
            backoff_base,
            backoff_max,
            final(failures).counts@,
            r,
        ),
{
    if login.user_id.as_str().is_empty() || login.device_id.as_str().is_empty() {
        return LoginVerdict::Refused(
            Duration::from_secs(0),
            proto_error(ErrorCode::AuthFailed, "missing user_id/device_id"),
        );
    }
    if !verified {
        let n: u32 = failures.record(login.user_id.as_str());
        let delay = auth_backoff(backoff_base, backoff_max, n);
        return LoginVerdict::Refused(delay, proto_error(ErrorCode::AuthFailed, "invalid token"));
    }
    failures.clear(login.user_id.as_str());
    LoginVerdict::Accepted
}

/// A session was opened for a login, and its predecessor on the same device, if
/// there was one, is told.
pub open spec fn session_opened(
    before: SessionTable,
    login: LoginView,
    session_id: u64,
    now: u64,
    after: SessionTable,
    effects: Seq<EffectView>,
) -> bool {
    let session = SessionView { session_id, device_id: login.device_id, last_seen: now };
    &&& effects.len() == 0 ==> attached(before, login.user_id, session, after, None)
    &&& effects.len() > 0 ==> {
        &&& effects.len() == 1
        &&& effects[0] is ToSession
        &&& effects[0]->ToSession_1 == error_view(
            ErrorCode::ReplacedByNewSession,
            "newer login"@,
        )
        &&& attached(before, login.user_id, session, after, Some(effects[0]->ToSession_0))
    }
}

/// Registers the session of a user who logged in. A predecessor on the same
/// device is told that it was replaced.
pub fn register_session(
    sessions: &mut SessionTable,
    last_seen: &mut StrMap<u64>,
    login: &Login,
    session_id: u64,
    now: u64,
) -> (v: Vec<Effect>)
    requires
        old(sessions).wf(),
        old(last_seen).wf(),
    ensures
        final(sessions).wf(),
        final(last_seen).wf(),
        final(last_seen)@ == old(last_seen)@.remove(login@.user_id),
        session_opened(
            *old(sessions),
            login@,
            session_id,
            now,
            *final(sessions),
            effect_views(v@),
        ),
{
    let session = SessionEntry { session_id, device_id: login.device_id.clone(), last_seen: now };
    assert(session@ =~= (SessionView {
        session_id,
        device_id: login@.device_id,
        last_seen: now,
    }));
    let kicked = sessions.register(login.user_id.as_str(), session);
    let _ = last_seen.remove(login.user_id.as_str());
    let mut out: Vec<Effect> = Vec::new();
    match kicked {
        Some(id) => {
            out.push(
                Effect::ToSession(
                    id,
                    proto_error(ErrorCode::ReplacedByNewSession, "newer login"),
                ),
            );
        },
        None => {},
    }
    out
}

/// The acknowledgement of a login.
pub open spec fn login_ack(session_id: u64, pending: nat) -> EffectView {
    EffectView::Reply(
        PacketView::LoginAck(
            LoginAckView {
                ok: true,
                error: Seq::empty(),
                session_id: "s-"@ + decimal(session_id as nat),
                pending_messages: pending as u64,
            },
        ),
    )
}

/// The sequence number up to which a client is in sync after a replay.
pub open spec fn latest_of(replay: Seq<StoredView>, after: u64) -> u64 {
    if replay.len() == 0 {
        after
    } else {
        replay.last().seq
    }
}

/// The replayed packets as answers.
pub open spec fn replies(replay: Seq<StoredView>) -> Seq<EffectView> {
    Seq::new(replay.len(), |i: int| EffectView::Reply(replay[i].packet))
}

/// What an accepted login leads to. On the user's home node: the
/// acknowledgement, everything that is waiting, the end of the sync, and the
/// news of the presence. On another node: the acknowledgement, the news, and a
/// request to the home node to replay.
pub open spec fn welcome_effects(
    c: Option<ClusterState>,
    o: Option<InboxView>,
    told: Seq<Seq<char>>,
    l: LoginView,
    session_id: u64,
    now: u64,
) -> Seq<EffectView> {
    let news = presence_news(c, told, l.user_id, PresenceKind::Available, now);
    match elsewhere(c, l.user_id) {
        None => {
            let replay = replay_of(or_empty(o), l.resume_after_seq);
            seq![login_ack(session_id, replay.len())] + replies(replay) + seq![
                EffectView::Reply(
                    PacketView::SyncComplete(
                        SyncCompleteView {
                            delivered: replay.len() as u64,
                            latest_seq: latest_of(replay, l.resume_after_seq),
                            user_id: Seq::empty(),
                        },
                    ),
                ),
            ] + news
        },
        Some(home) => seq![login_ack(session_id, 0)] + news + seq![
            EffectView::ToPeer(
                home,
                PacketView::PeerSync(
                    PeerSyncView { user_id: l.user_id, after_seq: l.resume_after_seq },
                ),
            ),
        ],
    }
}

/// What waits in an inbox, and the number up to which the client is in sync
/// after it. Without an inbox nothing waits.
fn replay_for(inboxes: &StrMap<Inbox>, user: &str, after: u64) -> (r: (Vec<Packet>, u64))
    requires
        inboxes.wf(),
    ensures
        ({
            let replay = replay_of(or_empty(inbox_at(inboxes@, user@)), after);
            &&& packet_views((r.0)@) == replay.map_values(|m: StoredView| m.packet)
            &&& r.1 == latest_of(replay, after)
        }),
{
    match inboxes.get(user) {
        Some(i) => i.replay(after),
        None => {
            let none: Vec<Packet> = Vec::new();
            proof {
                reveal(Seq::filter);
                let replay = replay_of(or_empty(inbox_at(inboxes@, user@)), after);
                assert(replay =~= Seq::<StoredView>::empty());
                assert(packet_views(none@) =~= replay.map_values(|m: StoredView| m.packet));
            }
            (none, after)
        },
    }
}

/// Welcomes a user who logged in.
pub fn welcome(
    cluster: &Option<ClusterState>,
    inboxes: &StrMap<Inbox>,
    sessions: &SessionTable,
    rosters: &StrMap<Vec<String>>,
    login: &Login,
    session_id: u64,
    now: u64,
) -> (v: Vec<Effect>)
    requires
        cluster_wf(*cluster),
        inboxes.wf(),
        sessions.wf(),
        rosters.wf(),
    ensures
        effect_views(v@) == welcome_effects(
            *cluster,
            inbox_at(inboxes@, login@.user_id),
            audience(*sessions, rosters@, login@.user_id),
            login@,
            session_id,
            now,
        ),
{
    let user = login.user_id.as_str();
    let sid = concat2("s-", decimal_string(session_id).as_str());
    let mut out = no_effects();
    let told = audience_of(sessions, rosters, user);
    let news = broadcast_presence(cluster, told, user, PresenceKind::Available, now);
    let ghost nv = effect_views(news@);
    match home_elsewhere(cluster, user) {
        None => {
            let (packets, latest) = replay_for(inboxes, user, login.resume_after_seq);
            let ghost replay = replay_of(
                or_empty(inbox_at(inboxes@, user@)),
                login.resume_after_seq,
            );
            assert(packets@.len() == packet_views(packets@).len());
            let count: u64 = packets.len() as u64;
            push_effect(
                &mut out,
                Effect::Reply(
                    Packet::LoginAck(
                        LoginAck {
                            ok: true,
                            error: String::new(),
                            session_id: sid,
                            pending_messages: count,
                        },
                    ),
                ),
            );
            let ghost head = effect_views(out@);
            assert(head =~= seq![login_ack(session_id, replay.len())]);
            let mut i: usize = 0;
            assert(replies(replay.take(0)) =~= Seq::<EffectView>::empty());
            while i < packets.len()
                invariant
                    i <= packets@.len(),
                    packets@.len() == replay.len(),
                    packet_views(packets@) == replay.map_values(|m: StoredView| m.packet),
                    effect_views(out@) == head + replies(replay.take(i as int)),
                decreases packets@.len() - i,
            {
                assert(packet_views(packets@)[i as int] == packets@[i as int]@);
                push_effect(&mut out, Effect::Reply(packets[i].clone()));
                assert(effect_views(out@) =~= head + replies(replay.take(i as int + 1)));
                i += 1;
            }
            assert(replay.take(i as int) =~= replay);
            push_effect(
                &mut out,
                Effect::Reply(
                    Packet::SyncComplete(
                        SyncComplete {
                            delivered: count,
                            latest_seq: latest,
                            user_id: String::new(),
                        },
                    ),
                ),
            );
            append_effects(&mut out, news);
            assert(effect_views(out@) =~= welcome_effects(
                *cluster,
                inbox_at(inboxes@, login@.user_id),
                audience(*sessions, rosters@, login@.user_id),
                login@,
                session_id,
                now,
            ));
        },
        Some(home) => {
            push_effect(
                &mut out,
                Effect::Reply(
                    Packet::LoginAck(
                        LoginAck {
                            ok: true,
                            error: String::new(),
                            session_id: sid,
                            pending_messages: 0,
                        },
                    ),
                ),
            );
            append_effects(&mut out, news);
            push_effect(
                &mut out,
                Effect::ToPeer(
                    home,
                    Packet::PeerSync(
                        PeerSync {
                            user_id: user.to_string(),
                            after_seq: login.resume_after_seq,
                        },
                    ),
                ),
            );
            assert(effect_views(out@) =~= welcome_effects(
                *cluster,
                inbox_at(inboxes@, login@.user_id),
                audience(*sessions, rosters@, login@.user_id),
                login@,
                session_id,
                now,
            ));
        },
    }
    out
}

/// What a peer's request to replay an inbox leads to: everything that is
/// waiting, and the end of the sync.
pub open spec fn sync_effects(o: Option<InboxView>, peer: Seq<char>, s: PeerSyncView) -> Seq<
    EffectView,
> {
    let replay = replay_of(or_empty(o), s.after_seq);
    Seq::new(replay.len(), |i: int| EffectView::ToPeer(peer, replay[i].packet)).push(
        EffectView::ToPeer(
            peer,
            PacketView::SyncComplete(
                SyncCompleteView {
                    delivered: replay.len() as u64,
                    latest_seq: latest_of(replay, s.after_seq),
                    user_id: s.user_id,
                },
            ),
        ),
    )
}

/// Replays an inbox to a peer.
pub fn replay_to_peer(inboxes: &StrMap<Inbox>, peer: &str, s: &PeerSync) -> (v: Vec<Effect>)
    requires
        inboxes.wf(),
    ensures
        effect_views(v@) == sync_effects(inbox_at(inboxes@, s@.user_id), peer@, s@),
{
    let (packets, latest) = replay_for(inboxes, s.user_id.as_str(), s.after_seq);
    let ghost replay = replay_of(or_empty(inbox_at(inboxes@, s@.user_id)), s.after_seq);
    assert(packets@.len() == packet_views(packets@).len());
    let mut out = no_effects();
    let mut i: usize = 0;
    while i < packets.len()
        invariant
            i <= packets@.len(),
            packets@.len() == replay.len(),
            packet_views(packets@) == replay.map_values(|m: StoredView| m.packet),
            effect_views(out@).len() == i,
            forall|j: int|
                0 <= j < i ==> #[trigger] effect_views(out@)[j] == EffectView::ToPeer(
                    peer@,
                    replay[j].packet,
                ),
        decreases packets@.len() - i,
    {
        assert(packet_views(packets@)[i as int] == packets@[i as int]@);
        push_effect(&mut out, Effect::ToPeer(peer.to_string(), packets[i].clone()));
        i += 1;
    }
    push_effect(
        &mut out,
        Effect::ToPeer(
            peer.to_string(),
            Packet::SyncComplete(
                SyncComplete {
                    delivered: packets.len() as u64,
                    latest_seq: latest,
                    user_id: s.user_id.clone(),
                },
            ),
        ),
    );
    assert(effect_views(out@) =~= sync_effects(inbox_at(inboxes@, s@.user_id), peer@, s@));
    out
}

/// A login on the user's home node is acknowledged, answered with everything
/// that waits, in order, and ended with how much that was and up to which number;
/// the presence is told after that.
pub proof fn law_login_at_home_replays_what_waits(
    c: Option<ClusterState>,
    o: Option<InboxView>,
    told: Seq<Seq<char>>,
    l: LoginView,
    session_id: u64,
    now: u64,
)
    requires
        elsewhere(c, l.user_id) is None,
    ensures
        ({
            let waits = or_empty(o).pending.filter(
                |m: StoredView| !m.delivered && m.seq > l.resume_after_seq,
            );
            let e = welcome_effects(c, o, told, l, session_id, now);
            let n = waits.len() as int;
            &&& e.len() >= n + 3
            &&& e[0] matches EffectView::Reply(PacketView::LoginAck(a))
            &&& a.ok
            &&& a.pending_messages == n as u64
            &&& a.session_id == "s-"@ + decimal(session_id as nat)
            &&& forall|i: int|
                0 <= i < n ==> #[trigger] e[1 + i] == EffectView::Reply(waits[i].packet)
            &&& e[1 + n] matches EffectView::Reply(PacketView::SyncComplete(s))
            &&& s.delivered == n as u64
            &&& s.latest_seq == (if n == 0 {
                l.resume_after_seq
            } else {
                waits[n - 1].seq
            })
            &&& e[2 + n] matches EffectView::ToUsers(PacketView::Presence(p), users)
            &&& users == told
            &&& p.user_id == l.user_id
            &&& p.kind == PresenceKind::Available.number()
            &&& c is Some ==> e.len() == n + 4 && (e[3 + n] matches EffectView::ToPeers(
                PacketView::PeerPresence(q),
                None,
            ) && q.user_id == l.user_id && q.online && q.node_id == c->0.node_id@)
        }),
{
    law_replay_is_what_waits(
        or_empty(o),
        l.resume_after_seq,
        StoredView { seq: 0, packet: PacketView::Ping(PingView { seq: 0 }), delivered: false },
    );
    let e = welcome_effects(c, o, told, l, session_id, now);
    let replay = replay_of(or_empty(o), l.resume_after_seq);
    assert forall|i: int| 0 <= i < replay.len() implies #[trigger] e[1 + i] == EffectView::Reply(
        replay[i].packet,
    ) by {
        assert(replies(replay)[i] == EffectView::Reply(replay[i].packet));
    }
}

/// A login elsewhere is acknowledged, the presence is told, and the home node is
/// asked to replay what comes after the number that the client names.
pub proof fn law_login_elsewhere_asks_the_home_node(
    c: Option<ClusterState>,
    o: Option<InboxView>,
    told: Seq<Seq<char>>,
    l: LoginView,
    session_id: u64,
    now: u64,
)
    requires
        elsewhere(c, l.user_id) is Some,
    ensures
        ({
            let e = welcome_effects(c, o, told, l, session_id, now);
            &&& e.len() == 4
            &&& e[0] matches EffectView::Reply(PacketView::LoginAck(a))
            &&& a.ok
            &&& a.session_id == "s-"@ + decimal(session_id as nat)
            &&& e[1] matches EffectView::ToUsers(PacketView::Presence(p), users)
            &&& users == told
            &&& p.user_id == l.user_id
            &&& p.kind == PresenceKind::Available.number()
            &&& e[2] matches EffectView::ToPeers(PacketView::PeerPresence(q), None)
            &&& q.user_id == l.user_id
            &&& q.online
            &&& q.node_id == c->0.node_id@
            &&& e[3] matches EffectView::ToPeer(home, PacketView::PeerSync(s))
            &&& home == elsewhere(c, l.user_id)->0
            &&& s.user_id == l.user_id
            &&& s.after_seq == l.resume_after_seq
        }),
{
}

/// A home node that is asked to replay sends what waits to who asked, in order,
/// and then how much that was and up to which number.
pub proof fn law_home_node_replays_to_who_asked(
    o: Option<InboxView>,
    peer: Seq<char>,
    s: PeerSyncView,
)
    ensures
        ({
            let waits = or_empty(o).pending.filter(
                |m: StoredView| !m.delivered && m.seq > s.after_seq,
            );
            let e = sync_effects(o, peer, s);
            let n = waits.len() as int;
            &&& e.len() == n + 1
            &&& forall|i: int|
                0 <= i < n ==> #[trigger] e[i] == EffectView::ToPeer(peer, waits[i].packet)
            &&& e[n] matches EffectView::ToPeer(p, PacketView::SyncComplete(x))
            &&& p == peer
            &&& x.user_id == s.user_id
            &&& x.delivered == n as u64
            &&& x.latest_seq == (if n == 0 {
                s.after_seq
            } else {
                waits[n - 1].seq
            })
        }),
{
    law_replay_is_what_waits(
        or_empty(o),
        s.after_seq,
        StoredView { seq: 0, packet: PacketView::Ping(PingView { seq: 0 }), delivered: false },
    );
}

/// A connection gets in with a login, or with the greeting of a peer whose token
/// was made with the secret of this cluster; whatever else comes first, or
/// nothing, ends it.
pub proof fn law_connections_start_with_credentials(
    cluster: Option<ClusterState>,
    frame: FirstFrame,
    r: Opening,
)
    requires
        judged(cluster, frame, r),
    ensures
        r is Client <==> frame is Packet && frame->Packet_0 is Login,
        r is Client ==> r->Client_0 == frame->Packet_0->Login_0,
        r is Peer <==> {
            &&& frame is Packet
            &&& frame->Packet_0 is PeerHello
            &&& cluster is Some
            &&& token_valid(
                cluster->0.peer_auth.secret@,
                frame->Packet_0->PeerHello_0.node_id@,
                "peer"@,
                frame->Packet_0->PeerHello_0.auth_token@,
            )
        },
        r is Peer ==> r->Peer_0@ == frame->Packet_0->PeerHello_0.node_id@,
        r is Refused ==> (r->Refused_0 is Some <==> frame is Late || frame is Packet),
        r is Refused && r->Refused_0 is Some ==> r->Refused_0->0@ is Error,
{
}

/// A login is accepted where it names a user and a device and its token was
/// verified, and only there. A refused one is answered with an error; it counts
/// against the user it names where the token was wrong. A success clears the
/// count, and no login touches the counts of others.
pub proof fn law_only_verified_logins_are_accepted(
    before: Map<Seq<char>, u32>,
    login: LoginView,
    verified: bool,
    base: Duration,
    max: Duration,
    after: Map<Seq<char>, u32>,
    r: LoginVerdict,
    other: Seq<char>,
)
    requires
        login_judged(before, login, verified, base, max, after, r),
        other != login.user_id,
    ensures
        r is Accepted <==> verified && login.user_id.len() > 0 && login.device_id.len() > 0,
        r is Refused ==> r->Refused_1@ is Error && r->Refused_1@->Error_0.code
            == ErrorCode::AuthFailed.number(),
        r is Accepted ==> !after.contains_key(login.user_id),
        r is Refused && login.user_id.len() > 0 && login.device_id.len() > 0 ==> {
            &&& after.contains_key(login.user_id)
            &&& !before.contains_key(login.user_id) ==> after[login.user_id] == 1
            &&& before.contains_key(login.user_id) && before[login.user_id] < u32::MAX
                ==> after[login.user_id] == before[login.user_id] + 1
        },
        login.user_id.len() == 0 || login.device_id.len() == 0 ==> after == before,
        after.contains_key(other) <==> before.contains_key(other),
        before.contains_key(other) ==> after[other] == before[other],
{
}

/// The longer a user keeps failing, the longer the answers wait, up to the
/// longest wait: the second of two failures in a row is answered no sooner than
/// the first.
pub proof fn law_failures_in_a_row_wait_longer(
    before: Map<Seq<char>, u32>,
    first: LoginView,
    second: LoginView,
    base: Duration,
    max: Duration,
    between: Map<Seq<char>, u32>,
    after: Map<Seq<char>, u32>,
    r1: LoginVerdict,
    r2: LoginVerdict,
)
    requires
        login_judged(before, first, false, base, max, between, r1),
        login_judged(between, second, false, base, max, after, r2),
        first.user_id == second.user_id,
        first.user_id.len() > 0,
        first.device_id.len() > 0,
        second.device_id.len() > 0,
    ensures
        r1 is Refused,
        r2 is Refused,
        r1->Refused_0.total_nanos() <= r2->Refused_0.total_nanos() <= max.total_nanos(),
{
    if between[first.user_id] < u32::MAX {
        law_backoff_grows(base, max, between[first.user_id]);
    }
}

/// A login opens one session, on the device that it names; a predecessor on that
/// device, and nobody else, is told that it was replaced. Sessions on other
/// devices, and those of other users, go on.
pub proof fn law_newer_login_replaces_the_older(
    before: SessionTable,
    login: LoginView,
    session_id: u64,
    now: u64,
    after: SessionTable,
    effects: Seq<EffectView>,
    x: SessionView,
    other: Seq<char>,
)
    requires
        before.wf(),
        session_opened(before, login, session_id, now, after, effects),
        other != login.user_id,
    ensures
        after.at(login.user_id).contains(x) <==> x == (SessionView {
            session_id,
            device_id: login.device_id,
            last_seen: now,
        }) || (before.at(login.user_id).contains(x) && x.device_id != login.device_id),
        after.at(other) == before.at(other),
        effects.len() <= 1,
        before.at(login.user_id).contains(x) && x.device_id == login.device_id ==> effects.len()
            == 1,
        effects.len() == 1 ==> {
            &&& effects[0] is ToSession
            &&& effects[0]->ToSession_1 is Error
            &&& effects[0]->ToSession_1->Error_0.code == ErrorCode::ReplacedByNewSession.number()
            &&& exists|i: int|
                0 <= i < before.at(login.user_id).len() && (#[trigger] before.at(
                    login.user_id,
                )[i]).device_id == login.device_id && before.at(login.user_id)[i].session_id
                    == effects[0]->ToSession_0
        },
{
    let session = SessionView { session_id, device_id: login.device_id, last_seen: now };
    let kicked = if effects.len() == 0 {
        None
    } else {
        Some(effects[0]->ToSession_0)
    };
    law_login_replaces_the_device(before, login.user_id, session, after, kicked, x, other);
}

} // verus!
