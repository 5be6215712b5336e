//! Client side of the protocol: the packets it sends and how it reads the
//! replies. Sending and receiving are left to the caller, who hands every
//! received packet to the step that waits for it.

use crate::messenger::codec::{Packet, PacketView};
use crate::messenger::error::MessengerError;
use crate::messenger::inbox::packet_views;
use crate::messenger::media::lesser;
use crate::messenger::wire::{
    clone_bytes, ChatMessage, ChatMessageView, DeliveredAck, DeliveredAckView, FetchKeys,
    FetchKeysView, GroupEvent, GroupEventView, GroupMessage, GroupMessageView, GroupOp,
    KeyBundle, Login, LoginView, Ping, PingView, Presence, PresenceKind, PresenceView,
    PublishKeys, PublishKeysView, ReadAck, ReadAckView, RemoveDeviceKeys, RemoveDeviceKeysView,
    SubscribePresence, SubscribePresenceView,
};
use crate::text::{clone_strings, concat2, same, strs};
use crate::time::Duration;
use vstd::prelude::*;

verus! {

/// How long a client waits for a frame.
pub const RECV_TIMEOUT_SECS: u64 = 10;

/// Result of a successful login.
#[derive(Debug, PartialEq, Eq)]
pub struct LoginOutcome {
    /// Session id assigned by the server.
    pub session_id: String,
    /// Messages replayed before the end of the sync.
    pub replayed: Vec<Packet>,
    /// Highest sequence number after the sync.
    pub latest_seq: u64,
}

/// A fully downloaded blob.
#[derive(Debug, PartialEq, Eq)]
pub struct DownloadedMedia {
    pub file_name: String,
    pub mime_type: String,
    pub sha256: String,
    pub data: Vec<u8>,
}

/// A logged-in client.
pub struct MessengerClient {
    pub user_id: String,
    pub ping_seq: u64,
}

impl MessengerClient {
    /// A client of a user.
    pub fn new(user_id: &str) -> (c: Self)
        ensures
            c.user_id@ == user_id@,
            c.ping_seq == 0,
    {
        MessengerClient { user_id: user_id.to_string(), ping_seq: 0 }
    }

    /// The authenticated user.
    pub fn user_id(&self) -> (s: &str)
        ensures
            s@ == self.user_id@,
    {
        self.user_id.as_str()
    }

    /// The number of the next ping.
    pub fn alloc_ping_seq(&mut self) -> (n: u64)
        requires
            old(self).ping_seq < u64::MAX,
        ensures
            n == old(self).ping_seq + 1,
            *final(self) == (MessengerClient { ping_seq: n, ..*old(self) }),
    {
        self.ping_seq = self.ping_seq + 1;
        self.ping_seq
    }

    /// The next ping.
    pub fn ping(&mut self) -> (p: Packet)
        requires
            old(self).ping_seq < u64::MAX,
        ensures
            p@ == PacketView::Ping(PingView { seq: (old(self).ping_seq + 1) as u64 }),
            *final(self) == (MessengerClient {
                ping_seq: (old(self).ping_seq + 1) as u64,
                ..*old(self)
            }),
    {
        let seq: u64 = self.alloc_ping_seq();
        Packet::Ping(Ping { seq })
    }

    /// A message to a user, possibly with a reference to a blob.
    pub fn send_chat_with_media(
        &self,
        to_user: &str,
        message_id: &str,
        body: &Vec<u8>,
        media_id: &str,
        now_millis: u64,
    ) -> (p: Packet)
        ensures
            p@ == chat_sent(self.user_id@, to_user@, message_id@, body@, media_id@, now_millis),
    {
        Packet::ChatMessage(
            ChatMessage {
                message_id: message_id.to_string(),
                from_user: self.user_id.clone(),
                to_user: to_user.to_string(),
                body: clone_bytes(body),
                sent_at: now_millis,
                seq: 0,
                media_id: media_id.to_string(),
            },
        )
    }

    /// The acknowledgement that a message arrived.
    pub fn ack_delivered(&self, message_id: &str) -> (p: Packet)
        ensures
            p@ == delivery_sent(self.user_id@, message_id@),
    {
        Packet::DeliveredAck(
            DeliveredAck { message_id: message_id.to_string(), from_user: self.user_id.clone() },
        )
    }

    /// The acknowledgement that a message was read.
    pub fn ack_read(&self, message_id: &str) -> (p: Packet)
        ensures
            p@ == reading_sent(self.user_id@, message_id@),
    {
        Packet::ReadAck(
            ReadAck { message_id: message_id.to_string(), from_user: self.user_id.clone() },
        )
    }

    /// Replaces the presence roster.
    pub fn subscribe_presence(&self, contact_ids: &Vec<String>) -> (p: Packet)
        ensures
            p@ == contacts_sent(self.user_id@, strs(contact_ids@)),
    {
        Packet::SubscribePresence(
            SubscribePresence {
                user_id: self.user_id.clone(),
                contact_ids: clone_strings(contact_ids),
            },
        )
    }

    /// A presence update.
    pub fn framed_send_presence(&self, kind: PresenceKind) -> (p: Packet)
        ensures
            p@ == PacketView::Presence(
                PresenceView { user_id: self.user_id@, kind: kind.number(), last_seen: 0 },
            ),
    {
        Packet::Presence(
            Presence { user_id: self.user_id.clone(), kind: kind.as_i32(), last_seen: 0 },
        )
    }

    /// A request to change a group.
    pub fn group_event(&self, group_id: &str, op: GroupOp, subject: &str) -> (p: Packet)
        ensures
            p@ == change_sent(self.user_id@, group_id@, op, subject@),
    {
        Packet::GroupEvent(
            GroupEvent {
                group_id: group_id.to_string(),
                op: op.as_i32(),
                actor_user: self.user_id.clone(),
                subject_user: subject.to_string(),
                version: 0,
                to_user: String::new(),
            },
        )
    }

    /// A message to a group.
    pub fn send_group(
        &self,
        group_id: &str,
        message_id: &str,
        body: &Vec<u8>,
        now_millis: u64,
    ) -> (p: Packet)
        ensures
            p@ == group_sent(self.user_id@, group_id@, message_id@, body@, now_millis),
    {
        Packet::GroupMessage(
            GroupMessage {
                message_id: message_id.to_string(),
                from_user: self.user_id.clone(),
                group_id: group_id.to_string(),
                body: clone_bytes(body),
                sent_at: now_millis,
                media_id: String::new(),
                seq: 0,
                to_user: String::new(),
            },
        )
    }

    /// Publishes keys of a device.
    pub fn publish_keys(&self, device_id: &str, identity_key: &str, one_time_keys: &Vec<String>) -> (p:
        Packet)
        ensures
            p@ == keys_sent(self.user_id@, device_id@, identity_key@, strs(one_time_keys@)),
    {
        Packet::PublishKeys(
            PublishKeys {
                user_id: self.user_id.clone(),
                device_id: device_id.to_string(),
                identity_key: identity_key.to_string(),
                one_time_keys: clone_strings(one_time_keys),
            },
        )
    }

    /// Asks for the bundle of a device; an empty id is the user's primary one.
    pub fn fetch_key_bundle_for_device(&self, user_id: &str, device_id: &str) -> (p: Packet)
        ensures
            p@ == request_sent(self.user_id@, user_id@, device_id@),
    {
        Packet::FetchKeys(
            FetchKeys {
                user_id: user_id.to_string(),
                device_id: device_id.to_string(),
                for_user: self.user_id.clone(),
            },
        )
    }

    /// Revokes the keys of a device.
    pub fn remove_device_keys(&self, device_id: &str) -> (p: Packet)
        ensures
            p@ == PacketView::RemoveDeviceKeys(
                RemoveDeviceKeysView { user_id: self.user_id@, device_id: device_id@ },
            ),
    {
        Packet::RemoveDeviceKeys(
            RemoveDeviceKeys { user_id: self.user_id.clone(), device_id: device_id.to_string() },
        )
    }
}

/// The request to log in.
pub fn login_request(
    user_id: &str,
    device_id: &str,
    auth_token: &str,
    client_version: &str,
    resume_after_seq: u64,
) -> (p: Packet)
    ensures
        p@ == PacketView::Login(
            LoginView {
                user_id: user_id@,
                device_id: device_id@,
                auth_token: auth_token@,
                client_version: client_version@,
                resume_after_seq,
            },
        ),
{
    Packet::Login(
        Login {
            user_id: user_id.to_string(),
            device_id: device_id.to_string(),
            auth_token: auth_token.to_string(),
            client_version: client_version.to_string(),
            resume_after_seq,
        },
    )
}

/// A login under way: the session id once it is known, and what was replayed so
/// far.
pub struct LoginProgress {
    pub session_id: Option<String>,
    pub replayed: Vec<Packet>,
}

/// What a packet means to a login under way.
pub enum LoginStep {
    /// More packets are awaited.
    Wait,
    /// The login is complete; the highest sequence number.
    Done(u64),
    /// The login failed.
    Failed(MessengerError),
}

impl LoginProgress {
    /// A login that was just requested.
    pub fn new() -> (l: Self)
        ensures
            l.session_id is None,
            packet_views(l.replayed@) == Seq::<PacketView>::empty(),
    {
        let l = LoginProgress { session_id: None, replayed: Vec::new() };
        assert(packet_views(l.replayed@) =~= Seq::<PacketView>::empty());
        l
    }

    /// Takes the next packet: first the acknowledgement, then replayed messages
    /// up to the end of the sync.
    pub fn on_packet(&mut self, pkt: Packet) -> (r: LoginStep)
        ensures
            login_step(*old(self), pkt@, *final(self), r),
    {
        if self.session_id.is_none() {
            match pkt {
                Packet::LoginAck(a) => {
                    if a.ok {
                        self.session_id = Some(a.session_id);
                        LoginStep::Wait
                    } else {
                        LoginStep::Failed(MessengerError::Protocol(a.error))
                    }
                },
                Packet::Error(e) => LoginStep::Failed(MessengerError::Protocol(e.detail)),
                other => {
                    let ty = other.packet_type();
                    LoginStep::Failed(
                        MessengerError::Protocol(concat2("expected LoginAck, got ", ty.name())),
                    )
                },
            }
        } else {
            match pkt {
                Packet::SyncComplete(s) => LoginStep::Done(s.latest_seq),
                p => {
                    let ghost was = self.replayed@;
                    self.replayed.push(p);
                    assert(packet_views(self.replayed@) =~= packet_views(was).push(p@));
                    LoginStep::Wait
                },
            }
        }
    }
}

/// How a ping reads a packet: nothing but a pong concerns it.
pub fn pong_reply(pkt: &Packet, seq: u64) -> (r: Option<Result<(), MessengerError>>)
    ensures
        pong_answered(pkt@, seq, r),
{
    match pkt {
        Packet::Pong(p) => if p.seq == seq {
            Some(Ok(()))
        } else {
            Some(Err(MessengerError::Protocol("pong seq mismatch".to_string())))
        },
        _ => None,
    }
}

/// How a sent chat message reads a packet: its acknowledgement gives its
/// sequence number.
pub fn chat_reply(pkt: &Packet, message_id: &str) -> (r: Option<u64>)
    ensures
        r == chat_answer(pkt@, message_id@),
{
    match pkt {
        Packet::ServerAck(a) => if same(a.message_id.as_str(), message_id) {
            Some(a.seq)
        } else {
            None
        },
        _ => None,
    }
}

/// How a group change reads a packet: the versioned event, or an error.
pub fn group_event_reply(pkt: &Packet, group_id: &str) -> (r: Option<Result<u64, MessengerError>>)
    ensures
        group_event_answered(pkt@, group_id@, r),
{
    match pkt {
        Packet::GroupEvent(e) => if same(e.group_id.as_str(), group_id) {
            Some(Ok(e.version))
        } else {
            None
        },
        Packet::Error(e) => Some(Err(MessengerError::Protocol(e.detail.clone()))),
        _ => None,
    }
}

/// How a sent group message reads a packet: its acknowledgement, or an error.
pub fn group_send_reply(pkt: &Packet, message_id: &str) -> (r: Option<Result<(), MessengerError>>)
    ensures
        group_send_answered(pkt@, message_id@, r),
{
    match pkt {
        Packet::ServerAck(a) => if same(a.message_id.as_str(), message_id) {
            Some(Ok(()))
        } else {
            None
        },
        Packet::Error(e) => Some(Err(MessengerError::Protocol(e.detail.clone()))),
        _ => None,
    }
}

/// Whether a packet is the bundle that a client waits for: one for its user, or
/// for nobody in particular.
pub fn is_bundle_for(pkt: &Packet, for_user: &str) -> (r: bool)
    ensures
        r == (pkt@ matches PacketView::KeyBundle(b) && (b.for_user == for_user@ || b.for_user.len()
            == 0)),
{
    match pkt {
        Packet::KeyBundle(b) => same(b.for_user.as_str(), for_user)
            || b.for_user.as_str().is_empty(),
        _ => false,
    }
}

/// Whether a failed send is worth another attempt.
pub open spec fn retryable(e: MessengerError) -> bool {
    e is Timeout || e is Closed || e is Io
}

/// Whether a failed send is worth another attempt.
pub fn send_error_retryable(err: &MessengerError) -> (r: bool)
    ensures
        r == retryable(*err),
{
    match err {
        MessengerError::Timeout(_) => true,
        MessengerError::Closed => true,
        MessengerError::Io(_) => true,
        _ => false,
    }
}

/// The delay, in milliseconds, before attempt `n + 1`: fifty, doubled each
/// time, at most five seconds.
pub open spec fn retry_delay_millis(n: nat) -> nat
    decreases n,
{
    if n == 0 {
        50
    } else {
        lesser(2 * retry_delay_millis((n - 1) as nat), 5000)
    }
}

/// The delay before the next attempt of a send, if there is one. `attempt`
/// counts from zero.
pub fn retry_delay(attempt: u32, max_attempts: u32, err: &MessengerError) -> (r: Option<Duration>)
    ensures
        retry_decided(attempt, max_attempts, *err, r),
{
    let attempts: u32 = if max_attempts == 0 {
        1
    } else {
        max_attempts
    };
    if !send_error_retryable(err) || attempt >= attempts - 1 {
        return None;
    }
    let mut d: u64 = 50;
    let mut i: u32 = 0;
    while i < attempt
        invariant
            i <= attempt,
            d <= 5000,
            d == retry_delay_millis(i as nat),
        decreases attempt - i,
    {
        d = if 2 * d <= 5000 {
            2 * d
        } else {
            5000
        };
        i += 1;
    }
    Some(Duration::from_millis(d))
}

/// Retries wait longer each time, and never more than five seconds.
pub proof fn law_retry_delays_grow(n: nat)
    ensures
        50 <= retry_delay_millis(n) <= retry_delay_millis(n + 1) <= 5000,
    decreases n,
{
    if n > 0 {
        law_retry_delays_grow((n - 1) as nat);
    }
}

/// The id of the message that carries a group session key to a member.
pub fn group_key_message_id(group_id: &str, member: &str) -> (s: String)
    ensures
        s@ == "gsk-"@ + group_id@ + "-"@ + member@,
{
    let mut s = concat2("gsk-", group_id);
    s.push_str("-");
    s.push_str(member);
    s
}

/// A packet came in while a login is under way.
pub open spec fn login_step(
    before: LoginProgress,
    pkt: PacketView,
    after: LoginProgress,
    r: LoginStep,
) -> bool {
    match before.session_id {
        None => {
            &&& packet_views(after.replayed@) == packet_views(before.replayed@)
            &&& match pkt {
                PacketView::LoginAck(a) => if a.ok {
                    &&& r is Wait
                    &&& after.session_id matches Some(s)
                    &&& s@ == a.session_id
                } else {
                    &&& r matches LoginStep::Failed(MessengerError::Protocol(m))
                    &&& m@ == a.error
                    &&& after.session_id is None
                },
                PacketView::Error(e) => {
                    &&& r matches LoginStep::Failed(MessengerError::Protocol(m))
                    &&& m@ == e.detail
                    &&& after.session_id is None
                },
                p => {
                    &&& r matches LoginStep::Failed(MessengerError::Protocol(m))
                    &&& m@ == "expected LoginAck, got "@ + p.ty().name_text()
                    &&& after.session_id is None
                },
            }
        },
        Some(_) => {
            &&& after.session_id == before.session_id
            &&& match pkt {
                PacketView::SyncComplete(s) => {
                    &&& r == LoginStep::Done(s.latest_seq)
                    &&& packet_views(after.replayed@) == packet_views(
                        before.replayed@,
                    )
                },
                p => {
                    &&& r is Wait
                    &&& packet_views(after.replayed@) == packet_views(
                        before.replayed@,
                    ).push(p)
                },
            }
        },
    }
}

/// Whether and when a send is tried again.
pub open spec fn retry_decided(
    attempt: u32,
    max_attempts: u32,
    err: MessengerError,
    r: Option<Duration>,
) -> bool {
    match r {
        Some(d) => {
            &&& retryable(err)
            &&& attempt + 1 < (if max_attempts == 0 {
                1u32
            } else {
                max_attempts
            })
            &&& d.wf()
            &&& d.total_millis() == retry_delay_millis(attempt as nat)
            &&& d.total_nanos() == retry_delay_millis(attempt as nat) * 1_000_000
        },
        None => !retryable(err) || attempt + 1 >= (if max_attempts == 0 {
            1u32
        } else {
            max_attempts
        }),
    }
}

/// The number that a chat message got, if a packet says so.
pub open spec fn chat_answer(pkt: PacketView, message_id: Seq<char>) -> Option<u64> {
    match pkt {
        PacketView::ServerAck(a) => if a.message_id == message_id {
            Some(a.seq)
        } else {
            None
        },
        _ => None,
    }
}

/// What a packet says of a change of a group.
pub open spec fn group_event_answered(
    pkt: PacketView,
    group_id: Seq<char>,
    r: Option<Result<u64, MessengerError>>,
) -> bool {
    match pkt {
        PacketView::GroupEvent(e) => if e.group_id == group_id {
            r == Some(Ok::<u64, MessengerError>(e.version))
        } else {
            r is None
        },
        PacketView::Error(e) => r matches Some(Err(MessengerError::Protocol(m))) && m@
            == e.detail,
        _ => r is None,
    }
}

/// What a packet says of a group message.
pub open spec fn group_send_answered(
    pkt: PacketView,
    message_id: Seq<char>,
    r: Option<Result<(), MessengerError>>,
) -> bool {
    match pkt {
        PacketView::ServerAck(a) => if a.message_id == message_id {
            r == Some(Ok::<(), MessengerError>(()))
        } else {
            r is None
        },
        PacketView::Error(e) => r matches Some(Err(MessengerError::Protocol(m))) && m@
            == e.detail,
        _ => r is None,
    }
}

/// What a packet says of a ping.
pub open spec fn pong_answered(
    pkt: PacketView,
    seq: u64,
    r: Option<Result<(), MessengerError>>,
) -> bool {
    match pkt {
        PacketView::Pong(p) => if p.seq == seq {
            r == Some(Ok::<(), MessengerError>(()))
        } else {
            r matches Some(Err(MessengerError::Protocol(m))) && m@ == "pong seq mismatch"@
        },
        _ => r is None,
    }
}

/// A login that is accepted gathers every packet up to the end of the sync, in
/// the order in which they come, and ends there with the number that the server
/// gives. `states` holds the progress before each packet and after the last one.
pub proof fn law_login_gathers_the_replay(
    states: Seq<LoginProgress>,
    packets: Seq<PacketView>,
    steps: Seq<LoginStep>,
)
    requires
        packets.len() >= 2,
        states.len() == packets.len() + 1,
        steps.len() == packets.len(),
        states[0].session_id is None,
        states[0].replayed@.len() == 0,
        forall|i: int|
            0 <= i < packets.len() ==> login_step(
                #[trigger] states[i],
                packets[i],
                states[i + 1],
                steps[i],
            ),
        packets[0] is LoginAck,
        packets[0]->LoginAck_0.ok,
        forall|i: int| 0 < i < packets.len() - 1 ==> !((#[trigger] packets[i]) is SyncComplete),
        packets.last() is SyncComplete,
    ensures
        forall|i: int| 0 <= i < packets.len() - 1 ==> #[trigger] steps[i] is Wait,
        steps.last() == LoginStep::Done(packets.last()->SyncComplete_0.latest_seq),
        states.last().session_id is Some,
        states.last().session_id->0@ == packets[0]->LoginAck_0.session_id,
        packet_views(states.last().replayed@) == packets.subrange(1, packets.len() - 1),
{
    let n = packets.len() - 1;
    lemma_gathered(states, packets, steps, n);
    assert(login_step(states[n], packets[n], states[n + 1], steps[n]));
}

/// What a login gathered before a packet.
proof fn lemma_gathered(
    states: Seq<LoginProgress>,
    packets: Seq<PacketView>,
    steps: Seq<LoginStep>,
    k: int,
)
    requires
        packets.len() >= 2,
        states.len() == packets.len() + 1,
        steps.len() == packets.len(),
        states[0].session_id is None,
        states[0].replayed@.len() == 0,
        forall|i: int|
            0 <= i < packets.len() ==> login_step(
                #[trigger] states[i],
                packets[i],
                states[i + 1],
                steps[i],
            ),
        packets[0] is LoginAck,
        packets[0]->LoginAck_0.ok,
        forall|i: int| 0 < i < packets.len() - 1 ==> !((#[trigger] packets[i]) is SyncComplete),
        1 <= k <= packets.len() - 1,
    ensures
        states[k].session_id is Some,
        states[k].session_id->0@ == packets[0]->LoginAck_0.session_id,
        packet_views(states[k].replayed@) == packets.subrange(1, k),
        forall|i: int| 0 <= i < k ==> #[trigger] steps[i] is Wait,
    decreases k,
{
    assert(login_step(states[k - 1], packets[k - 1], states[k - 1 + 1], steps[k - 1]));
    if k == 1 {
        assert(packet_views(states[0].replayed@) =~= packets.subrange(1, 1));
    } else {
        lemma_gathered(states, packets, steps, k - 1);
        assert(packets.subrange(1, k - 1).push(packets[k - 1]) =~= packets.subrange(1, k));
    }
}

/// A login that the server refuses, or answers with anything but an
/// acknowledgement, fails, and no session is open.
pub proof fn law_refused_login_fails(
    before: LoginProgress,
    pkt: PacketView,
    after: LoginProgress,
    r: LoginStep,
)
    requires
        before.session_id is None,
        login_step(before, pkt, after, r),
    ensures
        r is Failed <==> !(pkt is LoginAck && pkt->LoginAck_0.ok),
        after.session_id is Some <==> pkt is LoginAck && pkt->LoginAck_0.ok,
        !(r is Done),
{
}

/// A send is tried again only after a failure that may pass, and never more
/// often than allowed. The waits start at fifty milliseconds and double up to
/// five seconds.
pub proof fn law_retries_are_few_and_far_between(
    attempt: u32,
    max_attempts: u32,
    err: MessengerError,
    r: Option<Duration>,
)
    requires
        retry_decided(attempt, max_attempts, err, r),
    ensures
        r is Some <==> (err is Timeout || err is Closed || err is Io) && attempt + 1 < max_attempts,
        r is Some && attempt == 0 ==> r->0.total_nanos() == 50_000_000,
        r is Some ==> r->0.total_nanos() <= 5_000_000_000,
        retry_delay_millis(attempt as nat + 1) == (if 2 * retry_delay_millis(attempt as nat)
            <= 5000 {
            2 * retry_delay_millis(attempt as nat)
        } else {
            5000
        }),
{
    law_retry_delays_grow(attempt as nat);
}

/// The client takes as the answer to what it sent what the server says of it and
/// of nothing else: the number of that message, the version of that group, the
/// pong with that number. An error ends the wait for a group.
pub proof fn law_answers_are_to_what_was_sent(
    pkt: PacketView,
    id: Seq<char>,
    seq: u64,
    event: Option<Result<u64, MessengerError>>,
    group: Option<Result<(), MessengerError>>,
    pong: Option<Result<(), MessengerError>>,
)
    requires
        group_event_answered(pkt, id, event),
        group_send_answered(pkt, id, group),
        pong_answered(pkt, seq, pong),
    ensures
        chat_answer(pkt, id) is Some <==> pkt is ServerAck && pkt->ServerAck_0.message_id == id,
        chat_answer(pkt, id) is Some ==> chat_answer(pkt, id)->0 == pkt->ServerAck_0.seq,
        event is Some <==> pkt is Error || (pkt is GroupEvent && pkt->GroupEvent_0.group_id == id),
        event is Some && pkt is GroupEvent ==> event == Some(
            Ok::<u64, MessengerError>(pkt->GroupEvent_0.version),
        ),
        group is Some <==> pkt is Error || (pkt is ServerAck && pkt->ServerAck_0.message_id == id),
        group is Some ==> (group->0 is Ok <==> pkt is ServerAck),
        event is Some ==> (event->0 is Ok <==> pkt is GroupEvent),
        pong is Some <==> pkt is Pong,
        pong is Some ==> (pong->0 is Ok <==> pkt->Pong_0.seq == seq),
{
}

/// A chat message of a user.
pub open spec fn chat_sent(
    user: Seq<char>,
    to_user: Seq<char>,
    message_id: Seq<char>,
    body: Seq<u8>,
    media_id: Seq<char>,
    now_millis: u64,
) -> PacketView {
    PacketView::ChatMessage(
        ChatMessageView {
            message_id,
            from_user: user,
            to_user,
            body,
            sent_at: now_millis,
            seq: 0,
            media_id,
        },
    )
}

/// The acknowledgement of a delivery.
pub open spec fn delivery_sent(
    user: Seq<char>,
    message_id: Seq<char>,
) -> PacketView {
    PacketView::DeliveredAck(
        DeliveredAckView { message_id, from_user: user },
    )
}

/// The acknowledgement that a message was read.
pub open spec fn reading_sent(
    user: Seq<char>,
    message_id: Seq<char>,
) -> PacketView {
    PacketView::ReadAck(
        ReadAckView { message_id, from_user: user },
    )
}

/// The contacts of a user.
pub open spec fn contacts_sent(
    user: Seq<char>,
    contact_ids: Seq<Seq<char>>,
) -> PacketView {
    PacketView::SubscribePresence(
        SubscribePresenceView {
            user_id: user,
            contact_ids,
        },
    )
}

/// A change of a group that a user asks for.
pub open spec fn change_sent(
    user: Seq<char>,
    group_id: Seq<char>,
    op: GroupOp,
    subject: Seq<char>,
) -> PacketView {
    PacketView::GroupEvent(
        GroupEventView {
            group_id,
            op: op.number(),
            actor_user: user,
            subject_user: subject,
            version: 0,
            to_user: Seq::empty(),
        },
    )
}

/// A group message of a user.
pub open spec fn group_sent(
    user: Seq<char>,
    group_id: Seq<char>,
    message_id: Seq<char>,
    body: Seq<u8>,
    now_millis: u64,
) -> PacketView {
    PacketView::GroupMessage(
        GroupMessageView {
            message_id,
            from_user: user,
            group_id,
            body,
            sent_at: now_millis,
            media_id: Seq::empty(),
            seq: 0,
            to_user: Seq::empty(),
        },
    )
}

/// The keys of a device.
pub open spec fn keys_sent(
    user: Seq<char>,
    device_id: Seq<char>,
    identity_key: Seq<char>,
    one_time_keys: Seq<Seq<char>>,
) -> PacketView {
    PacketView::PublishKeys(
        PublishKeysView {
            user_id: user,
            device_id,
            identity_key,
            one_time_keys,
        },
    )
}

/// A request for the keys of a user.
pub open spec fn request_sent(
    user: Seq<char>,
    user_id: Seq<char>,
    device_id: Seq<char>,
) -> PacketView {
    PacketView::FetchKeys(
        FetchKeysView {
            user_id,
            device_id,
            for_user: user,
        },
    )
}

/// What a client sends says what it was asked to say, under the name of its user,
/// and leaves to the server what is the server's: numbers, versions and copies.
pub proof fn law_client_says_what_it_was_asked(
    user: Seq<char>,
    to: Seq<char>,
    id: Seq<char>,
    key: Seq<char>,
    body: Seq<u8>,
    list: Seq<Seq<char>>,
    op: GroupOp,
    now: u64,
)
    ensures
        ({
            let p = chat_sent(user, to, id, body, key, now);
            let m = p->ChatMessage_0;
            &&& p is ChatMessage && m.from_user == user && m.to_user == to && m.message_id == id
            &&& m.body == body && m.media_id == key && m.sent_at == now && m.seq == 0
        }),
        ({
            let p = group_sent(user, to, id, body, now);
            let m = p->GroupMessage_0;
            &&& p is GroupMessage && m.from_user == user && m.group_id == to && m.message_id == id
            &&& m.body == body && m.sent_at == now && m.seq == 0 && m.to_user.len() == 0
        }),
        ({
            let p = change_sent(user, to, op, id);
            let e = p->GroupEvent_0;
            &&& p is GroupEvent && e.actor_user == user && e.group_id == to && e.subject_user == id
            &&& e.op == op.number() && e.version == 0 && e.to_user.len() == 0
        }),
        delivery_sent(user, id) is DeliveredAck,
        delivery_sent(user, id)->DeliveredAck_0.message_id == id,
        delivery_sent(user, id)->DeliveredAck_0.from_user == user,
        reading_sent(user, id) is ReadAck,
        reading_sent(user, id)->ReadAck_0.message_id == id,
        reading_sent(user, id)->ReadAck_0.from_user == user,
        contacts_sent(user, list) is SubscribePresence,
        contacts_sent(user, list)->SubscribePresence_0.user_id == user,
        contacts_sent(user, list)->SubscribePresence_0.contact_ids == list,
        ({
            let p = keys_sent(user, id, key, list);
            let k = p->PublishKeys_0;
            &&& p is PublishKeys && k.user_id == user && k.device_id == id
            &&& k.identity_key == key && k.one_time_keys == list
        }),
        ({
            let p = request_sent(user, to, id);
            let f = p->FetchKeys_0;
            &&& p is FetchKeys && f.user_id == to && f.device_id == id && f.for_user == user
        }),
{
}

} // verus!
