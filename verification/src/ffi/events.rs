//! Events that hosts receive, and how packets become events.

use crate::messenger::codec::{Packet, PacketView};
use crate::messenger::wire::{clone_bytes, ErrorCode};
use crate::text::{clone_strings, strs};
use vstd::prelude::*;

verus! {

/// The login was answered.
#[derive(Debug, PartialEq, Eq)]
pub struct LoginAckEvent {
    pub session_id: String,
    pub pending_messages: u32,
    pub ok: bool,
    pub error: String,
}

/// What [`LoginAckEvent`] holds.
#[verifier::ext_equal]
pub struct LoginAckEventView {
    pub session_id: Seq<char>,
    pub pending_messages: u32,
    pub ok: bool,
    pub error: Seq<char>,
}

impl View for LoginAckEvent {
    type V = LoginAckEventView;

    open spec fn view(&self) -> LoginAckEventView {
        LoginAckEventView {
            session_id: self.session_id@,
            pending_messages: self.pending_messages,
            ok: self.ok,
            error: self.error@,
        }
    }
}

impl Clone for LoginAckEvent {
    fn clone(&self) -> (r: Self)
        ensures
            r@ == self@,
    {
        LoginAckEvent {
            session_id: self.session_id.clone(),
            pending_messages: self.pending_messages,
            ok: self.ok,
            error: self.error.clone(),
        }
    }
}

/// The replay ended.
#[derive(Debug, PartialEq, Eq)]
pub struct SyncCompleteEvent {
    pub delivered: u32,
    pub latest_seq: u64,
}

/// What [`SyncCompleteEvent`] holds.
#[verifier::ext_equal]
pub struct SyncCompleteEventView {
    pub delivered: u32,
    pub latest_seq: u64,
}

impl View for SyncCompleteEvent {
    type V = SyncCompleteEventView;

    open spec fn view(&self) -> SyncCompleteEventView {
        SyncCompleteEventView {
            delivered: self.delivered,
            latest_seq: self.latest_seq,
        }
    }
}

impl Clone for SyncCompleteEvent {
    fn clone(&self) -> (r: Self)
        ensures
            r@ == self@,
    {
        SyncCompleteEvent {
            delivered: self.delivered,
            latest_seq: self.latest_seq,
        }
    }
}

/// A chat message arrived.
#[derive(Debug, PartialEq, Eq)]
pub struct ChatMessageEvent {
    pub message_id: String,
    pub from_user: String,
    pub to_user: String,
    pub body: Vec<u8>,
    pub sent_at: u64,
    pub seq: u64,
    pub media_id: String,
}

/// What [`ChatMessageEvent`] holds.
#[verifier::ext_equal]
pub struct ChatMessageEventView {
    pub message_id: Seq<char>,
    pub from_user: Seq<char>,
    pub to_user: Seq<char>,
    pub body: Seq<u8>,
    pub sent_at: u64,
    pub seq: u64,
    pub media_id: Seq<char>,
}

impl View for ChatMessageEvent {
    type V = ChatMessageEventView;

    open spec fn view(&self) -> ChatMessageEventView {
        ChatMessageEventView {
            message_id: self.message_id@,
            from_user: self.from_user@,
            to_user: self.to_user@,
            body: self.body@,
            sent_at: self.sent_at,
            seq: self.seq,
            media_id: self.media_id@,
        }
    }
}

impl Clone for ChatMessageEvent {
    fn clone(&self) -> (r: Self)
        ensures
            r@ == self@,
    {
        ChatMessageEvent {
            message_id: self.message_id.clone(),
            from_user: self.from_user.clone(),
            to_user: self.to_user.clone(),
            body: clone_bytes(&self.body),
            sent_at: self.sent_at,
            seq: self.seq,
            media_id: self.media_id.clone(),
        }
    }
}

/// The server accepted a message.
#[derive(Debug, PartialEq, Eq)]
pub struct ServerAckEvent {
    pub message_id: String,
    pub seq: u64,
}

/// What [`ServerAckEvent`] holds.
#[verifier::ext_equal]
pub struct ServerAckEventView {
    pub message_id: Seq<char>,
    pub seq: u64,
}

impl View for ServerAckEvent {
    type V = ServerAckEventView;

    open spec fn view(&self) -> ServerAckEventView {
        ServerAckEventView {
            message_id: self.message_id@,
            seq: self.seq,
        }
    }
}

impl Clone for ServerAckEvent {
    fn clone(&self) -> (r: Self)
        ensures
            r@ == self@,
    {
        ServerAckEvent {
            message_id: self.message_id.clone(),
            seq: self.seq,
        }
    }
}

/// A message was delivered.
#[derive(Debug, PartialEq, Eq)]
pub struct DeliveredAckEvent {
    pub message_id: String,
    pub from_user: String,
}

/// What [`DeliveredAckEvent`] holds.
#[verifier::ext_equal]
pub struct DeliveredAckEventView {
    pub message_id: Seq<char>,
    pub from_user: Seq<char>,
}

impl View for DeliveredAckEvent {
    type V = DeliveredAckEventView;

    open spec fn view(&self) -> DeliveredAckEventView {
        DeliveredAckEventView {
            message_id: self.message_id@,
            from_user: self.from_user@,
        }
    }
}

impl Clone for DeliveredAckEvent {
    fn clone(&self) -> (r: Self)
        ensures
            r@ == self@,
    {
        DeliveredAckEvent {
            message_id: self.message_id.clone(),
            from_user: self.from_user.clone(),
        }
    }
}

/// A message was read.
#[derive(Debug, PartialEq, Eq)]
pub struct ReadAckEvent {
    pub message_id: String,
    pub from_user: String,
}

/// What [`ReadAckEvent`] holds.
#[verifier::ext_equal]
pub struct ReadAckEventView {
    pub message_id: Seq<char>,
    pub from_user: Seq<char>,
}

impl View for ReadAckEvent {
    type V = ReadAckEventView;

    open spec fn view(&self) -> ReadAckEventView {
        ReadAckEventView {
            message_id: self.message_id@,
            from_user: self.from_user@,
        }
    }
}

impl Clone for ReadAckEvent {
    fn clone(&self) -> (r: Self)
        ensures
            r@ == self@,
    {
        ReadAckEvent {
            message_id: self.message_id.clone(),
            from_user: self.from_user.clone(),
        }
    }
}

/// Who has received and read a group message.
#[derive(Debug, PartialEq, Eq)]
pub struct GroupAckSummaryEvent {
    pub message_id: String,
    pub group_id: String,
    pub delivered_by: Vec<String>,
    pub read_by: Vec<String>,
    pub member_count: u32,
}

/// What [`GroupAckSummaryEvent`] holds.
#[verifier::ext_equal]
pub struct GroupAckSummaryEventView {
    pub message_id: Seq<char>,
    pub group_id: Seq<char>,
    pub delivered_by: Seq<Seq<char>>,
    pub read_by: Seq<Seq<char>>,
    pub member_count: u32,
}

impl View for GroupAckSummaryEvent {
    type V = GroupAckSummaryEventView;

    open spec fn view(&self) -> GroupAckSummaryEventView {
        GroupAckSummaryEventView {
            message_id: self.message_id@,
            group_id: self.group_id@,
            delivered_by: strs(self.delivered_by@),
            read_by: strs(self.read_by@),
            member_count: self.member_count,
        }
    }
}

impl Clone for GroupAckSummaryEvent {
    fn clone(&self) -> (r: Self)
        ensures
            r@ == self@,
    {
        GroupAckSummaryEvent {
            message_id: self.message_id.clone(),
            group_id: self.group_id.clone(),
            delivered_by: clone_strings(&self.delivered_by),
            read_by: clone_strings(&self.read_by),
            member_count: self.member_count,
        }
    }
}

/// The presence of a user changed.
#[derive(Debug, PartialEq, Eq)]
pub struct PresenceEvent {
    pub user_id: String,
    /// 1 is available, 2 unavailable, 3 last seen.
    pub kind: i32,
    pub last_seen: u64,
}

/// What [`PresenceEvent`] holds.
#[verifier::ext_equal]
pub struct PresenceEventView {
    pub user_id: Seq<char>,
    pub kind: i32,
    pub last_seen: u64,
}

impl View for PresenceEvent {
    type V = PresenceEventView;

    open spec fn view(&self) -> PresenceEventView {
        PresenceEventView {
            user_id: self.user_id@,
            kind: self.kind,
            last_seen: self.last_seen,
        }
    }
}

impl Clone for PresenceEvent {
    fn clone(&self) -> (r: Self)
        ensures
            r@ == self@,
    {
        PresenceEvent {
            user_id: self.user_id.clone(),
            kind: self.kind,
            last_seen: self.last_seen,
        }
    }
}

/// A group message arrived.
#[derive(Debug, PartialEq, Eq)]
pub struct GroupMessageEvent {
    pub message_id: String,
    pub from_user: String,
    pub group_id: String,
    pub body: Vec<u8>,
    pub sent_at: u64,
    pub media_id: String,
    pub seq: u64,
    pub to_user: String,
}

/// What [`GroupMessageEvent`] holds.
#[verifier::ext_equal]
pub struct GroupMessageEventView {
    pub message_id: Seq<char>,
    pub from_user: Seq<char>,
    pub group_id: Seq<char>,
    pub body: Seq<u8>,
    pub sent_at: u64,
    pub media_id: Seq<char>,
    pub seq: u64,
    pub to_user: Seq<char>,
}

impl View for GroupMessageEvent {
    type V = GroupMessageEventView;

    open spec fn view(&self) -> GroupMessageEventView {
        GroupMessageEventView {
            message_id: self.message_id@,
            from_user: self.from_user@,
            group_id: self.group_id@,
            body: self.body@,
            sent_at: self.sent_at,
            media_id: self.media_id@,
            seq: self.seq,
            to_user: self.to_user@,
        }
    }
}

impl Clone for GroupMessageEvent {
    fn clone(&self) -> (r: Self)
        ensures
            r@ == self@,
    {
        GroupMessageEvent {
            message_id: self.message_id.clone(),
            from_user: self.from_user.clone(),
            group_id: self.group_id.clone(),
            body: clone_bytes(&self.body),
            sent_at: self.sent_at,
            media_id: self.media_id.clone(),
            seq: self.seq,
            to_user: self.to_user.clone(),
        }
    }
}

/// The membership of a group changed.
#[derive(Debug, PartialEq, Eq)]
pub struct GroupEventInfo {
    pub group_id: String,
    pub op: i32,
    pub actor_user: String,
    pub subject_user: String,
    pub version: u64,
    pub to_user: String,
}

/// What [`GroupEventInfo`] holds.
#[verifier::ext_equal]
pub struct GroupEventInfoView {
    pub group_id: Seq<char>,
    pub op: i32,
    pub actor_user: Seq<char>,
    pub subject_user: Seq<char>,
    pub version: u64,
    pub to_user: Seq<char>,
}

impl View for GroupEventInfo {
    type V = GroupEventInfoView;

    open spec fn view(&self) -> GroupEventInfoView {
        GroupEventInfoView {
            group_id: self.group_id@,
            op: self.op,
            actor_user: self.actor_user@,
            subject_user: self.subject_user@,
            version: self.version,
            to_user: self.to_user@,
        }
    }
}

impl Clone for GroupEventInfo {
    fn clone(&self) -> (r: Self)
        ensures
            r@ == self@,
    {
        GroupEventInfo {
            group_id: self.group_id.clone(),
            op: self.op,
            actor_user: self.actor_user.clone(),
            subject_user: self.subject_user.clone(),
            version: self.version,
            to_user: self.to_user.clone(),
        }
    }
}

/// A blob was announced.
#[derive(Debug, PartialEq, Eq)]
pub struct MediaStartEvent {
    pub media_id: String,
    pub file_name: String,
    pub mime_type: String,
    pub total_size: u64,
    pub sha256: String,
}

/// What [`MediaStartEvent`] holds.
#[verifier::ext_equal]
pub struct MediaStartEventView {
    pub media_id: Seq<char>,
    pub file_name: Seq<char>,
    pub mime_type: Seq<char>,
    pub total_size: u64,
    pub sha256: Seq<char>,
}

impl View for MediaStartEvent {
    type V = MediaStartEventView;

    open spec fn view(&self) -> MediaStartEventView {
        MediaStartEventView {
            media_id: self.media_id@,
            file_name: self.file_name@,
            mime_type: self.mime_type@,
            total_size: self.total_size,
            sha256: self.sha256@,
        }
    }
}

impl Clone for MediaStartEvent {
    fn clone(&self) -> (r: Self)
        ensures
            r@ == self@,
    {
        MediaStartEvent {
            media_id: self.media_id.clone(),
            file_name: self.file_name.clone(),
            mime_type: self.mime_type.clone(),
            total_size: self.total_size,
            sha256: self.sha256.clone(),
        }
    }
}

/// A chunk of a blob arrived.
#[derive(Debug, PartialEq, Eq)]
pub struct MediaChunkEvent {
    pub media_id: String,
    pub offset: u64,
    pub data: Vec<u8>,
    pub last: bool,
}

/// What [`MediaChunkEvent`] holds.
#[verifier::ext_equal]
pub struct MediaChunkEventView {
    pub media_id: Seq<char>,
    pub offset: u64,
    pub data: Seq<u8>,
    pub last: bool,
}

impl View for MediaChunkEvent {
    type V = MediaChunkEventView;

    open spec fn view(&self) -> MediaChunkEventView {
        MediaChunkEventView {
            media_id: self.media_id@,
            offset: self.offset,
            data: self.data@,
            last: self.last,
        }
    }
}

impl Clone for MediaChunkEvent {
    fn clone(&self) -> (r: Self)
        ensures
            r@ == self@,
    {
        MediaChunkEvent {
            media_id: self.media_id.clone(),
            offset: self.offset,
            data: clone_bytes(&self.data),
            last: self.last,
        }
    }
}

/// A media frame was answered.
#[derive(Debug, PartialEq, Eq)]
pub struct MediaAckEvent {
    pub media_id: String,
    pub ok: bool,
    pub complete: bool,
    pub received_bytes: u64,
    pub error: String,
}

/// What [`MediaAckEvent`] holds.
#[verifier::ext_equal]
pub struct MediaAckEventView {
    pub media_id: Seq<char>,
    pub ok: bool,
    pub complete: bool,
    pub received_bytes: u64,
    pub error: Seq<char>,
}

impl View for MediaAckEvent {
    type V = MediaAckEventView;

    open spec fn view(&self) -> MediaAckEventView {
        MediaAckEventView {
            media_id: self.media_id@,
            ok: self.ok,
            complete: self.complete,
            received_bytes: self.received_bytes,
            error: self.error@,
        }
    }
}

impl Clone for MediaAckEvent {
    fn clone(&self) -> (r: Self)
        ensures
            r@ == self@,
    {
        MediaAckEvent {
            media_id: self.media_id.clone(),
            ok: self.ok,
            complete: self.complete,
            received_bytes: self.received_bytes,
            error: self.error.clone(),
        }
    }
}

/// The keys of a user.
#[derive(Debug, PartialEq, Eq)]
pub struct KeyBundleInfo {
    pub user_id: String,
    pub device_id: String,
    pub identity_key: String,
    pub one_time_key: String,
    pub found: bool,
    pub device_ids: Vec<String>,
}

/// What [`KeyBundleInfo`] holds.
#[verifier::ext_equal]
pub struct KeyBundleInfoView {
    pub user_id: Seq<char>,
    pub device_id: Seq<char>,
    pub identity_key: Seq<char>,
    pub one_time_key: Seq<char>,
    pub found: bool,
    pub device_ids: Seq<Seq<char>>,
}

impl View for KeyBundleInfo {
    type V = KeyBundleInfoView;

    open spec fn view(&self) -> KeyBundleInfoView {
        KeyBundleInfoView {
            user_id: self.user_id@,
            device_id: self.device_id@,
            identity_key: self.identity_key@,
            one_time_key: self.one_time_key@,
            found: self.found,
            device_ids: strs(self.device_ids@),
        }
    }
}

impl Clone for KeyBundleInfo {
    fn clone(&self) -> (r: Self)
        ensures
            r@ == self@,
    {
        KeyBundleInfo {
            user_id: self.user_id.clone(),
            device_id: self.device_id.clone(),
            identity_key: self.identity_key.clone(),
            one_time_key: self.one_time_key.clone(),
            found: self.found,
            device_ids: clone_strings(&self.device_ids),
        }
    }
}

/// The server reported a failure.
#[derive(Debug, PartialEq, Eq)]
pub struct ProtocolErrorEvent {
    pub code: i32,
    pub detail: String,
}

/// What [`ProtocolErrorEvent`] holds.
#[verifier::ext_equal]
pub struct ProtocolErrorEventView {
    pub code: i32,
    pub detail: Seq<char>,
}

impl View for ProtocolErrorEvent {
    type V = ProtocolErrorEventView;

    open spec fn view(&self) -> ProtocolErrorEventView {
        ProtocolErrorEventView {
            code: self.code,
            detail: self.detail@,
        }
    }
}

impl Clone for ProtocolErrorEvent {
    fn clone(&self) -> (r: Self)
        ensures
            r@ == self@,
    {
        ProtocolErrorEvent {
            code: self.code,
            detail: self.detail.clone(),
        }
    }
}

/// A downloaded blob.
#[derive(Debug, PartialEq, Eq)]
pub struct DownloadedMediaInfo {
    pub file_name: String,
    pub mime_type: String,
    pub sha256: String,
    pub data: Vec<u8>,
}

/// What [`DownloadedMediaInfo`] holds.
#[verifier::ext_equal]
pub struct DownloadedMediaInfoView {
    pub file_name: Seq<char>,
    pub mime_type: Seq<char>,
    pub sha256: Seq<char>,
    pub data: Seq<u8>,
}

impl View for DownloadedMediaInfo {
    type V = DownloadedMediaInfoView;

    open spec fn view(&self) -> DownloadedMediaInfoView {
        DownloadedMediaInfoView {
            file_name: self.file_name@,
            mime_type: self.mime_type@,
            sha256: self.sha256@,
            data: self.data@,
        }
    }
}

impl Clone for DownloadedMediaInfo {
    fn clone(&self) -> (r: Self)
        ensures
            r@ == self@,
    {
        DownloadedMediaInfo {
            file_name: self.file_name.clone(),
            mime_type: self.mime_type.clone(),
            sha256: self.sha256.clone(),
            data: clone_bytes(&self.data),
        }
    }
}

/// Events delivered to the host.
#[derive(Debug, PartialEq, Eq)]
pub enum LaneEvent {
    LoginAck(LoginAckEvent),
    SyncMessage(Box<LaneEvent>),
    SyncComplete(SyncCompleteEvent),
    ChatMessage(ChatMessageEvent),
    ServerAck(ServerAckEvent),
    DeliveredAck(DeliveredAckEvent),
    ReadAck(ReadAckEvent),
    GroupAckSummary(GroupAckSummaryEvent),
    Presence(PresenceEvent),
    GroupMessage(GroupMessageEvent),
    GroupEvent(GroupEventInfo),
    MediaStart(MediaStartEvent),
    MediaChunk(MediaChunkEvent),
    MediaAck(MediaAckEvent),
    KeyBundle(KeyBundleInfo),
    ProtocolError(ProtocolErrorEvent),
    Disconnected { reason: String },
    ReplacedByNewSession,
    Pong { seq: u64 },
}

/// What a [`LaneEvent`] holds.
#[verifier::ext_equal]
pub enum LaneEventView {
    LoginAck(LoginAckEventView),
    SyncMessage(Box<LaneEventView>),
    SyncComplete(SyncCompleteEventView),
    ChatMessage(ChatMessageEventView),
    ServerAck(ServerAckEventView),
    DeliveredAck(DeliveredAckEventView),
    ReadAck(ReadAckEventView),
    GroupAckSummary(GroupAckSummaryEventView),
    Presence(PresenceEventView),
    GroupMessage(GroupMessageEventView),
    GroupEvent(GroupEventInfoView),
    MediaStart(MediaStartEventView),
    MediaChunk(MediaChunkEventView),
    MediaAck(MediaAckEventView),
    KeyBundle(KeyBundleInfoView),
    ProtocolError(ProtocolErrorEventView),
    Disconnected { reason: Seq<char> },
    ReplacedByNewSession,
    Pong { seq: u64 },
}

impl LaneEvent {
    /// What the event holds.
    pub open spec fn model(self) -> LaneEventView
        decreases self,
    {
        match self {
            LaneEvent::LoginAck(e) => LaneEventView::LoginAck(e@),
            LaneEvent::SyncMessage(e) => LaneEventView::SyncMessage(Box::new((*e).model())),
            LaneEvent::SyncComplete(e) => LaneEventView::SyncComplete(e@),
            LaneEvent::ChatMessage(e) => LaneEventView::ChatMessage(e@),
            LaneEvent::ServerAck(e) => LaneEventView::ServerAck(e@),
            LaneEvent::DeliveredAck(e) => LaneEventView::DeliveredAck(e@),
            LaneEvent::ReadAck(e) => LaneEventView::ReadAck(e@),
            LaneEvent::GroupAckSummary(e) => LaneEventView::GroupAckSummary(e@),
            LaneEvent::Presence(e) => LaneEventView::Presence(e@),
            LaneEvent::GroupMessage(e) => LaneEventView::GroupMessage(e@),
            LaneEvent::GroupEvent(e) => LaneEventView::GroupEvent(e@),
            LaneEvent::MediaStart(e) => LaneEventView::MediaStart(e@),
            LaneEvent::MediaChunk(e) => LaneEventView::MediaChunk(e@),
            LaneEvent::MediaAck(e) => LaneEventView::MediaAck(e@),
            LaneEvent::KeyBundle(e) => LaneEventView::KeyBundle(e@),
            LaneEvent::ProtocolError(e) => LaneEventView::ProtocolError(e@),
            LaneEvent::Disconnected { reason } => LaneEventView::Disconnected { reason: reason@ },
            LaneEvent::ReplacedByNewSession => LaneEventView::ReplacedByNewSession,
            LaneEvent::Pong { seq } => LaneEventView::Pong { seq },
        }
    }
}

/// The event that a packet becomes; what only concerns the protocol becomes
/// none.
pub open spec fn event_of(p: PacketView) -> Option<LaneEventView> {
    match p {
        PacketView::ChatMessage(m) => Some(
            LaneEventView::ChatMessage(
                ChatMessageEventView {
                    message_id: m.message_id,
                    from_user: m.from_user,
                    to_user: m.to_user,
                    body: m.body,
                    sent_at: m.sent_at,
                    seq: m.seq,
                    media_id: m.media_id,
                },
            ),
        ),
        PacketView::ServerAck(m) => Some(
            LaneEventView::ServerAck(
                ServerAckEventView {
                    message_id: m.message_id,
                    seq: m.seq,
                },
            ),
        ),
        PacketView::DeliveredAck(m) => Some(
            LaneEventView::DeliveredAck(
                DeliveredAckEventView {
                    message_id: m.message_id,
                    from_user: m.from_user,
                },
            ),
        ),
        PacketView::ReadAck(m) => Some(
            LaneEventView::ReadAck(
                ReadAckEventView {
                    message_id: m.message_id,
                    from_user: m.from_user,
                },
            ),
        ),
        PacketView::GroupAckSummary(m) => Some(
            LaneEventView::GroupAckSummary(
                GroupAckSummaryEventView {
                    message_id: m.message_id,
                    group_id: m.group_id,
                    delivered_by: m.delivered_by,
                    read_by: m.read_by,
                    member_count: m.member_count,
                },
            ),
        ),
        PacketView::Presence(m) => Some(
            LaneEventView::Presence(
                PresenceEventView {
                    user_id: m.user_id,
                    kind: m.kind,
                    last_seen: m.last_seen,
                },
            ),
        ),
        PacketView::GroupMessage(m) => Some(
            LaneEventView::GroupMessage(
                GroupMessageEventView {
                    message_id: m.message_id,
                    from_user: m.from_user,
                    group_id: m.group_id,
                    body: m.body,
                    sent_at: m.sent_at,
                    media_id: m.media_id,
                    seq: m.seq,
                    to_user: m.to_user,
                },
            ),
        ),
        PacketView::GroupEvent(m) => Some(
            LaneEventView::GroupEvent(
                GroupEventInfoView {
                    group_id: m.group_id,
                    op: m.op,
                    actor_user: m.actor_user,
                    subject_user: m.subject_user,
                    version: m.version,
                    to_user: m.to_user,
                },
            ),
        ),
        PacketView::MediaStart(m) => Some(
            LaneEventView::MediaStart(
                MediaStartEventView {
                    media_id: m.media_id,
                    file_name: m.file_name,
                    mime_type: m.mime_type,
                    total_size: m.total_size,
                    sha256: m.sha256,
                },
            ),
        ),
        PacketView::MediaChunk(m) => Some(
            LaneEventView::MediaChunk(
                MediaChunkEventView {
                    media_id: m.media_id,
                    offset: m.offset,
                    data: m.data,
                    last: m.last,
                },
            ),
        ),
        PacketView::MediaAck(m) => Some(
            LaneEventView::MediaAck(
                MediaAckEventView {
                    media_id: m.media_id,
                    ok: m.ok,
                    complete: m.complete,
                    received_bytes: m.received_bytes,
                    error: m.error,
                },
            ),
        ),
        PacketView::KeyBundle(m) => Some(
            LaneEventView::KeyBundle(
                KeyBundleInfoView {
                    user_id: m.user_id,
                    device_id: m.device_id,
                    identity_key: m.identity_key,
                    one_time_key: m.one_time_key,
                    found: m.found,
                    device_ids: m.device_ids,
                },
            ),
        ),
        PacketView::Error(e) => if e.code == ErrorCode::ReplacedByNewSession.number() {
            Some(LaneEventView::ReplacedByNewSession)
        } else {
            Some(
                LaneEventView::ProtocolError(
                    ProtocolErrorEventView { code: e.code, detail: e.detail },
                ),
            )
        },
        PacketView::Pong(q) => Some(LaneEventView::Pong { seq: q.seq }),
        _ => None,
    }
}

/// The event under an option.
pub open spec fn opt_model(o: Option<LaneEvent>) -> Option<LaneEventView> {
    match o {
        Some(e) => Some(e.model()),
        None => None,
    }
}

/// The event that a packet becomes.
pub fn packet_to_event(pkt: &Packet) -> (r: Option<LaneEvent>)
    ensures
        opt_model(r) == event_of(pkt@),
{
    match pkt {
        Packet::ChatMessage(m) => Some(
            LaneEvent::ChatMessage(
                ChatMessageEvent {
                    message_id: m.message_id.clone(),
                    from_user: m.from_user.clone(),
                    to_user: m.to_user.clone(),
                    body: clone_bytes(&m.body),
                    sent_at: m.sent_at,
                    seq: m.seq,
                    media_id: m.media_id.clone(),
                },
            ),
        ),
        Packet::ServerAck(m) => Some(
            LaneEvent::ServerAck(
                ServerAckEvent {
                    message_id: m.message_id.clone(),
                    seq: m.seq,
                },
            ),
        ),
        Packet::DeliveredAck(m) => Some(
            LaneEvent::DeliveredAck(
                DeliveredAckEvent {
                    message_id: m.message_id.clone(),
                    from_user: m.from_user.clone(),
                },
            ),
        ),
        Packet::ReadAck(m) => Some(
            LaneEvent::ReadAck(
                ReadAckEvent {
                    message_id: m.message_id.clone(),
                    from_user: m.from_user.clone(),
                },
            ),
        ),
        Packet::GroupAckSummary(m) => Some(
            LaneEvent::GroupAckSummary(
                GroupAckSummaryEvent {
                    message_id: m.message_id.clone(),
                    group_id: m.group_id.clone(),
                    delivered_by: clone_strings(&m.delivered_by),
                    read_by: clone_strings(&m.read_by),
                    member_count: m.member_count,
                },
            ),
        ),
        Packet::Presence(m) => Some(
            LaneEvent::Presence(
                PresenceEvent {
                    user_id: m.user_id.clone(),
                    kind: m.kind,
                    last_seen: m.last_seen,
                },
            ),
        ),
        Packet::GroupMessage(m) => Some(
            LaneEvent::GroupMessage(
                GroupMessageEvent {
                    message_id: m.message_id.clone(),
                    from_user: m.from_user.clone(),
                    group_id: m.group_id.clone(),
                    body: clone_bytes(&m.body),
                    sent_at: m.sent_at,
                    media_id: m.media_id.clone(),
                    seq: m.seq,
                    to_user: m.to_user.clone(),
                },
            ),
        ),
        Packet::GroupEvent(m) => Some(
            LaneEvent::GroupEvent(
                GroupEventInfo {
                    group_id: m.group_id.clone(),
                    op: m.op,
                    actor_user: m.actor_user.clone(),
                    subject_user: m.subject_user.clone(),
                    version: m.version,
                    to_user: m.to_user.clone(),
                },
            ),
        ),
        Packet::MediaStart(m) => Some(
            LaneEvent::MediaStart(
                MediaStartEvent {
                    media_id: m.media_id.clone(),
                    file_name: m.file_name.clone(),
                    mime_type: m.mime_type.clone(),
                    total_size: m.total_size,
                    sha256: m.sha256.clone(),
                },
            ),
        ),
        Packet::MediaChunk(m) => Some(
            LaneEvent::MediaChunk(
                MediaChunkEvent {
                    media_id: m.media_id.clone(),
                    offset: m.offset,
                    data: clone_bytes(&m.data),
                    last: m.last,
                },
            ),
        ),
        Packet::MediaAck(m) => Some(
            LaneEvent::MediaAck(
                MediaAckEvent {
                    media_id: m.media_id.clone(),
                    ok: m.ok,
                    complete: m.complete,
                    received_bytes: m.received_bytes,
                    error: m.error.clone(),
                },
            ),
        ),
        Packet::KeyBundle(m) => Some(
            LaneEvent::KeyBundle(
                KeyBundleInfo {
                    user_id: m.user_id.clone(),
                    device_id: m.device_id.clone(),
                    identity_key: m.identity_key.clone(),
                    one_time_key: m.one_time_key.clone(),
                    found: m.found,
                    device_ids: clone_strings(&m.device_ids),
                },
            ),
        ),
        Packet::Error(e) => if e.code == ErrorCode::ReplacedByNewSession.as_i32() {
            Some(LaneEvent::ReplacedByNewSession)
        } else {
            Some(
                LaneEvent::ProtocolError(
                    ProtocolErrorEvent { code: e.code, detail: e.detail.clone() },
                ),
            )
        },
        Packet::Pong(p) => Some(LaneEvent::Pong { seq: p.seq }),
        _ => None,
    }
}

/// What the host sees of a packet is what the packet says, field by field: a
/// message arrives with its sender, its recipient, its number and its content.
/// A session that was replaced is told so; every other error arrives with its
/// code and its text. Requests, and what gateways tell each other, are not
/// shown.
pub proof fn law_events_say_what_packets_say(p: PacketView)
    ensures
        ({
            let e = event_of(p);
            match p {
                PacketView::ChatMessage(m) => {
                    &&& e is Some
                    &&& e->0 is ChatMessage
                    &&& e->0->ChatMessage_0.message_id == m.message_id
                    &&& e->0->ChatMessage_0.from_user == m.from_user
                    &&& e->0->ChatMessage_0.to_user == m.to_user
                    &&& e->0->ChatMessage_0.body == m.body
                    &&& e->0->ChatMessage_0.sent_at == m.sent_at
                    &&& e->0->ChatMessage_0.seq == m.seq
                    &&& e->0->ChatMessage_0.media_id == m.media_id
                },
                PacketView::ServerAck(m) => {
                    &&& e is Some
                    &&& e->0 is ServerAck
                    &&& e->0->ServerAck_0.message_id == m.message_id
                    &&& e->0->ServerAck_0.seq == m.seq
                },
                PacketView::DeliveredAck(m) => {
                    &&& e is Some
                    &&& e->0 is DeliveredAck
                    &&& e->0->DeliveredAck_0.message_id == m.message_id
                    &&& e->0->DeliveredAck_0.from_user == m.from_user
                },
                PacketView::ReadAck(m) => {
                    &&& e is Some
                    &&& e->0 is ReadAck
                    &&& e->0->ReadAck_0.message_id == m.message_id
                    &&& e->0->ReadAck_0.from_user == m.from_user
                },
                PacketView::GroupAckSummary(m) => {
                    &&& e is Some
                    &&& e->0 is GroupAckSummary
                    &&& e->0->GroupAckSummary_0.message_id == m.message_id
                    &&& e->0->GroupAckSummary_0.group_id == m.group_id
                    &&& e->0->GroupAckSummary_0.delivered_by == m.delivered_by
                    &&& e->0->GroupAckSummary_0.read_by == m.read_by
                    &&& e->0->GroupAckSummary_0.member_count == m.member_count
                },
                PacketView::Presence(m) => {
                    &&& e is Some
                    &&& e->0 is Presence
                    &&& e->0->Presence_0.user_id == m.user_id
                    &&& e->0->Presence_0.kind == m.kind
                    &&& e->0->Presence_0.last_seen == m.last_seen
                },
                PacketView::GroupMessage(m) => {
                    &&& e is Some
                    &&& e->0 is GroupMessage
                    &&& e->0->GroupMessage_0.message_id == m.message_id
                    &&& e->0->GroupMessage_0.from_user == m.from_user
                    &&& e->0->GroupMessage_0.group_id == m.group_id
                    &&& e->0->GroupMessage_0.body == m.body
                    &&& e->0->GroupMessage_0.sent_at == m.sent_at
                    &&& e->0->GroupMessage_0.media_id == m.media_id
                    &&& e->0->GroupMessage_0.seq == m.seq
                    &&& e->0->GroupMessage_0.to_user == m.to_user
                },
                PacketView::GroupEvent(m) => {
                    &&& e is Some
                    &&& e->0 is GroupEvent
                    &&& e->0->GroupEvent_0.group_id == m.group_id
                    &&& e->0->GroupEvent_0.op == m.op
                    &&& e->0->GroupEvent_0.actor_user == m.actor_user
                    &&& e->0->GroupEvent_0.subject_user == m.subject_user
                    &&& e->0->GroupEvent_0.version == m.version
                    &&& e->0->GroupEvent_0.to_user == m.to_user
                },
                PacketView::MediaStart(m) => {
                    &&& e is Some
                    &&& e->0 is MediaStart
                    &&& e->0->MediaStart_0.media_id == m.media_id
                    &&& e->0->MediaStart_0.file_name == m.file_name
                    &&& e->0->MediaStart_0.mime_type == m.mime_type
                    &&& e->0->MediaStart_0.total_size == m.total_size
                    &&& e->0->MediaStart_0.sha256 == m.sha256
                },
                PacketView::MediaChunk(m) => {
                    &&& e is Some
                    &&& e->0 is MediaChunk
                    &&& e->0->MediaChunk_0.media_id == m.media_id
                    &&& e->0->MediaChunk_0.offset == m.offset
                    &&& e->0->MediaChunk_0.data == m.data
                    &&& e->0->MediaChunk_0.last == m.last
                },
                PacketView::MediaAck(m) => {
                    &&& e is Some
                    &&& e->0 is MediaAck
                    &&& e->0->MediaAck_0.media_id == m.media_id
                    &&& e->0->MediaAck_0.ok == m.ok
                    &&& e->0->MediaAck_0.complete == m.complete
                    &&& e->0->MediaAck_0.received_bytes == m.received_bytes
                    &&& e->0->MediaAck_0.error == m.error
                },
                PacketView::KeyBundle(m) => {
                    &&& e is Some
                    &&& e->0 is KeyBundle
                    &&& e->0->KeyBundle_0.user_id == m.user_id
                    &&& e->0->KeyBundle_0.device_id == m.device_id
                    &&& e->0->KeyBundle_0.identity_key == m.identity_key
                    &&& e->0->KeyBundle_0.one_time_key == m.one_time_key
                    &&& e->0->KeyBundle_0.found == m.found
                    &&& e->0->KeyBundle_0.device_ids == m.device_ids
                },
                PacketView::Error(m) => {
                    &&& e is Some
                    &&& e->0 is ReplacedByNewSession <==> m.code
                        == ErrorCode::ReplacedByNewSession.number()
                    &&& m.code != ErrorCode::ReplacedByNewSession.number() ==> e->0 is ProtocolError
                        && e->0->ProtocolError_0.code == m.code && e->0->ProtocolError_0.detail
                        == m.detail
                },
                PacketView::Pong(m) => e == Some(LaneEventView::Pong { seq: m.seq }),
                PacketView::Ping(_)
                | PacketView::Login(_)
                | PacketView::MediaFetch(_)
                | PacketView::PublishKeys(_)
                | PacketView::FetchKeys(_)
                | PacketView::RemoveDeviceKeys(_)
                | PacketView::SubscribePresence(_)
                | PacketView::PeerHello(_)
                | PacketView::PeerSync(_)
                | PacketView::PeerPresence(_)
                | PacketView::PeerJoin(_)
                | PacketView::PeerLeave(_)
                | PacketView::PeerHandoffUser(_)
                | PacketView::PeerHandoffGroup(_)
                | PacketView::PeerMediaReady(_) => e is None,
                _ => true,
            }
        }),
{
}

} // verus!
