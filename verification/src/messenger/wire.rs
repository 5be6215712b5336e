//! The messages of the messenger protocol.
//!
//! Each message has a view, which holds texts and bytes as sequences: two
//! messages with equal views are the same message.

use crate::text::{clone_strings, strs};
use vstd::prelude::*;

verus! {

/// A copy of some bytes.
pub fn clone_bytes(v: &Vec<u8>) -> (r: Vec<u8>)
    ensures
        r@ == v@,
{
    let mut out: Vec<u8> = Vec::new();
    out.extend_from_slice(v.as_slice());
    assert(out@ =~= v@);
    out
}

/// The chat messages by their views.
pub open spec fn chat_views(v: Seq<ChatMessage>) -> Seq<ChatMessageView> {
    Seq::new(v.len(), |i: int| v[i]@)
}

/// The group messages by their views.
pub open spec fn group_views(v: Seq<GroupMessage>) -> Seq<GroupMessageView> {
    Seq::new(v.len(), |i: int| v[i]@)
}

/// A copy of some chat messages.
pub fn clone_chats(v: &Vec<ChatMessage>) -> (r: Vec<ChatMessage>)
    ensures
        chat_views(r@) == chat_views(v@),
{
    let mut out: Vec<ChatMessage> = Vec::new();
    let mut i: usize = 0;
    while i < v.len()
        invariant
            i <= v@.len(),
            out@.len() == i,
            forall|j: int| 0 <= j < i ==> (#[trigger] out@[j])@ == v@[j]@,
        decreases v@.len() - i,
    {
        out.push(v[i].clone());
        i += 1;
    }
    assert(chat_views(out@) =~= chat_views(v@));
    out
}

/// A copy of some group messages.
pub fn clone_groups(v: &Vec<GroupMessage>) -> (r: Vec<GroupMessage>)
    ensures
        group_views(r@) == group_views(v@),
{
    let mut out: Vec<GroupMessage> = Vec::new();
    let mut i: usize = 0;
    while i < v.len()
        invariant
            i <= v@.len(),
            out@.len() == i,
            forall|j: int| 0 <= j < i ==> (#[trigger] out@[j])@ == v@[j]@,
        decreases v@.len() - i,
    {
        out.push(v[i].clone());
        i += 1;
    }
    assert(group_views(out@) =~= group_views(v@));
    out
}

/// Why a request failed.
#[derive(Debug, Clone, Copy, PartialEq, Eq, Structural)]
pub enum ErrorCode {
    Unspecified,
    AuthFailed,
    NotAuthenticated,
    MalformedFrame,
    UnknownRecipient,
    MediaTransferFailed,
    ReplacedByNewSession,
}

impl ErrorCode {
    /// The number that stands for the code.
    pub open spec fn number(self) -> i32 {
        match self {
            ErrorCode::Unspecified => 0,
            ErrorCode::AuthFailed => 1,
            ErrorCode::NotAuthenticated => 2,
            ErrorCode::MalformedFrame => 3,
            ErrorCode::UnknownRecipient => 4,
            ErrorCode::MediaTransferFailed => 5,
            ErrorCode::ReplacedByNewSession => 6,
        }
    }

    /// The number that stands for the code.
    pub fn as_i32(self) -> (n: i32)
        ensures
            n == self.number(),
    {
        match self {
            ErrorCode::Unspecified => 0,
            ErrorCode::AuthFailed => 1,
            ErrorCode::NotAuthenticated => 2,
            ErrorCode::MalformedFrame => 3,
            ErrorCode::UnknownRecipient => 4,
            ErrorCode::MediaTransferFailed => 5,
            ErrorCode::ReplacedByNewSession => 6,
        }
    }
}

/// Whether a user can be reached.
#[derive(Debug, Clone, Copy, PartialEq, Eq, Structural)]
pub enum PresenceKind {
    Unspecified,
    Available,
    Unavailable,
    LastSeen,
}

impl PresenceKind {
    /// The number that stands for the kind.
    pub open spec fn number(self) -> i32 {
        match self {
            PresenceKind::Unspecified => 0,
            PresenceKind::Available => 1,
            PresenceKind::Unavailable => 2,
            PresenceKind::LastSeen => 3,
        }
    }

    /// The number that stands for the kind.
    pub fn as_i32(self) -> (n: i32)
        ensures
            n == self.number(),
    {
        match self {
            PresenceKind::Unspecified => 0,
            PresenceKind::Available => 1,
            PresenceKind::Unavailable => 2,
            PresenceKind::LastSeen => 3,
        }
    }

    /// The kind that a number stands for.
    pub fn from_i32(n: i32) -> (r: Option<PresenceKind>)
        ensures
            match r {
                Some(k) => k.number() == n,
                None => n < 0 || n > 3,
            },
    {
        match n {
            0 => Some(PresenceKind::Unspecified),
            1 => Some(PresenceKind::Available),
            2 => Some(PresenceKind::Unavailable),
            3 => Some(PresenceKind::LastSeen),
            _ => None,
        }
    }
}

/// A change of group membership.
#[derive(Debug, Clone, Copy, PartialEq, Eq, Structural)]
pub enum GroupOp {
    Unspecified,
    Create,
    AddMember,
    RemoveMember,
    Leave,
}

impl GroupOp {
    /// The number that stands for the change.
    pub open spec fn number(self) -> i32 {
        match self {
            GroupOp::Unspecified => 0,
            GroupOp::Create => 1,
            GroupOp::AddMember => 2,
            GroupOp::RemoveMember => 3,
            GroupOp::Leave => 4,
        }
    }

    /// The number that stands for the change.
    pub fn as_i32(self) -> (n: i32)
        ensures
            n == self.number(),
    {
        match self {
            GroupOp::Unspecified => 0,
            GroupOp::Create => 1,
            GroupOp::AddMember => 2,
            GroupOp::RemoveMember => 3,
            GroupOp::Leave => 4,
        }
    }

    /// The change that a number stands for; an unknown number is unspecified.
    pub open spec fn of(n: i32) -> GroupOp {
        if n == 1 {
            GroupOp::Create
        } else if n == 2 {
            GroupOp::AddMember
        } else if n == 3 {
            GroupOp::RemoveMember
        } else if n == 4 {
            GroupOp::Leave
        } else {
            GroupOp::Unspecified
        }
    }

    /// The change that a number stands for.
    pub fn from_i32(n: i32) -> (r: GroupOp)
        ensures
            r == GroupOp::of(n),
    {
        match n {
            1 => GroupOp::Create,
            2 => GroupOp::AddMember,
            3 => GroupOp::RemoveMember,
            4 => GroupOp::Leave,
            _ => GroupOp::Unspecified,
        }
    }
}

/// Opens a session.
#[derive(Debug, PartialEq, Eq)]
pub struct Login {
    pub user_id: String,
    pub device_id: String,
    pub auth_token: String,
    pub client_version: String,
    pub resume_after_seq: u64,
}

/// What [`Login`] holds.
#[verifier::ext_equal]
pub struct LoginView {
    pub user_id: Seq<char>,
    pub device_id: Seq<char>,
    pub auth_token: Seq<char>,
    pub client_version: Seq<char>,
    pub resume_after_seq: u64,
}

impl View for Login {
    type V = LoginView;

    open spec fn view(&self) -> LoginView {
        LoginView {
            user_id: self.user_id@,
            device_id: self.device_id@,
            auth_token: self.auth_token@,
            client_version: self.client_version@,
            resume_after_seq: self.resume_after_seq,
        }
    }
}

impl Clone for Login {
    fn clone(&self) -> (r: Self)
        ensures
            r@ == self@,
    {
        Login {
            user_id: self.user_id.clone(),
            device_id: self.device_id.clone(),
            auth_token: self.auth_token.clone(),
            client_version: self.client_version.clone(),
            resume_after_seq: self.resume_after_seq,
        }
    }
}

/// Answers a login.
#[derive(Debug, PartialEq, Eq)]
pub struct LoginAck {
    pub ok: bool,
    pub error: String,
    pub session_id: String,
    pub pending_messages: u64,
}

/// What [`LoginAck`] holds.
#[verifier::ext_equal]
pub struct LoginAckView {
    pub ok: bool,
    pub error: Seq<char>,
    pub session_id: Seq<char>,
    pub pending_messages: u64,
}

impl View for LoginAck {
    type V = LoginAckView;

    open spec fn view(&self) -> LoginAckView {
        LoginAckView {
            ok: self.ok,
            error: self.error@,
            session_id: self.session_id@,
            pending_messages: self.pending_messages,
        }
    }
}

impl Clone for LoginAck {
    fn clone(&self) -> (r: Self)
        ensures
            r@ == self@,
    {
        LoginAck {
            ok: self.ok,
            error: self.error.clone(),
            session_id: self.session_id.clone(),
            pending_messages: self.pending_messages,
        }
    }
}

/// Heartbeat request.
#[derive(Debug, PartialEq, Eq)]
pub struct Ping {
    pub seq: u64,
}

/// What [`Ping`] holds.
#[verifier::ext_equal]
pub struct PingView {
    pub seq: u64,
}

impl View for Ping {
    type V = PingView;

    open spec fn view(&self) -> PingView {
        PingView {
            seq: self.seq,
        }
    }
}

impl Clone for Ping {
    fn clone(&self) -> (r: Self)
        ensures
            r@ == self@,
    {
        Ping {
            seq: self.seq,
        }
    }
}

/// Heartbeat reply.
#[derive(Debug, PartialEq, Eq)]
pub struct Pong {
    pub seq: u64,
}

/// What [`Pong`] holds.
#[verifier::ext_equal]
pub struct PongView {
    pub seq: u64,
}

impl View for Pong {
    type V = PongView;

    open spec fn view(&self) -> PongView {
        PongView {
            seq: self.seq,
        }
    }
}

impl Clone for Pong {
    fn clone(&self) -> (r: Self)
        ensures
            r@ == self@,
    {
        Pong {
            seq: self.seq,
        }
    }
}

/// Reports a failure to the other side.
#[derive(Debug, PartialEq, Eq)]
pub struct ProtocolError {
    pub code: i32,
    pub detail: String,
}

/// What [`ProtocolError`] holds.
#[verifier::ext_equal]
pub struct ProtocolErrorView {
    pub code: i32,
    pub detail: Seq<char>,
}

impl View for ProtocolError {
    type V = ProtocolErrorView;

    open spec fn view(&self) -> ProtocolErrorView {
        ProtocolErrorView {
            code: self.code,
            detail: self.detail@,
        }
    }
}

impl Clone for ProtocolError {
    fn clone(&self) -> (r: Self)
        ensures
            r@ == self@,
    {
        ProtocolError {
            code: self.code,
            detail: self.detail.clone(),
        }
    }
}

/// Tells whether a user is reachable.
#[derive(Debug, PartialEq, Eq)]
pub struct Presence {
    pub user_id: String,
    pub kind: i32,
    pub last_seen: u64,
}

/// What [`Presence`] holds.
#[verifier::ext_equal]
pub struct PresenceView {
    pub user_id: Seq<char>,
    pub kind: i32,
    pub last_seen: u64,
}

impl View for Presence {
    type V = PresenceView;

    open spec fn view(&self) -> PresenceView {
        PresenceView {
            user_id: self.user_id@,
            kind: self.kind,
            last_seen: self.last_seen,
        }
    }
}

impl Clone for Presence {
    fn clone(&self) -> (r: Self)
        ensures
            r@ == self@,
    {
        Presence {
            user_id: self.user_id.clone(),
            kind: self.kind,
            last_seen: self.last_seen,
        }
    }
}

/// One message from user to user. `seq` is zero until the recipient's home node assigns it.
#[derive(Debug, PartialEq, Eq)]
pub struct ChatMessage {
    pub message_id: String,
    pub from_user: String,
    pub to_user: String,
    pub body: Vec<u8>,
    pub sent_at: u64,
    pub seq: u64,
    pub media_id: String,
}

/// What [`ChatMessage`] holds.
#[verifier::ext_equal]
pub struct ChatMessageView {
    pub message_id: Seq<char>,
    pub from_user: Seq<char>,
    pub to_user: Seq<char>,
    pub body: Seq<u8>,
    pub sent_at: u64,
    pub seq: u64,
    pub media_id: Seq<char>,
}

impl View for ChatMessage {
    type V = ChatMessageView;

    open spec fn view(&self) -> ChatMessageView {
        ChatMessageView {
            message_id: self.message_id@,
            from_user: self.from_user@,
            to_user: self.to_user@,
            body: self.body@,
            sent_at: self.sent_at,
            seq: self.seq,
            media_id: self.media_id@,
        }
    }
}

impl Clone for ChatMessage {
    fn clone(&self) -> (r: Self)
        ensures
            r@ == self@,
    {
        ChatMessage {
            message_id: self.message_id.clone(),
            from_user: self.from_user.clone(),
            to_user: self.to_user.clone(),
            body: clone_bytes(&self.body),
            sent_at: self.sent_at,
            seq: self.seq,
            media_id: self.media_id.clone(),
        }
    }
}

/// The message was accepted (single tick).
#[derive(Debug, PartialEq, Eq)]
pub struct ServerAck {
    pub message_id: String,
    pub seq: u64,
    pub to_user: String,
}

/// What [`ServerAck`] holds.
#[verifier::ext_equal]
pub struct ServerAckView {
    pub message_id: Seq<char>,
    pub seq: u64,
    pub to_user: Seq<char>,
}

impl View for ServerAck {
    type V = ServerAckView;

    open spec fn view(&self) -> ServerAckView {
        ServerAckView {
            message_id: self.message_id@,
            seq: self.seq,
            to_user: self.to_user@,
        }
    }
}

impl Clone for ServerAck {
    fn clone(&self) -> (r: Self)
        ensures
            r@ == self@,
    {
        ServerAck {
            message_id: self.message_id.clone(),
            seq: self.seq,
            to_user: self.to_user.clone(),
        }
    }
}

/// The message reached the recipient (double tick).
#[derive(Debug, PartialEq, Eq)]
pub struct DeliveredAck {
    pub message_id: String,
    pub from_user: String,
}

/// What [`DeliveredAck`] holds.
#[verifier::ext_equal]
pub struct DeliveredAckView {
    pub message_id: Seq<char>,
    pub from_user: Seq<char>,
}

impl View for DeliveredAck {
    type V = DeliveredAckView;

    open spec fn view(&self) -> DeliveredAckView {
        DeliveredAckView {
            message_id: self.message_id@,
            from_user: self.from_user@,
        }
    }
}

impl Clone for DeliveredAck {
    fn clone(&self) -> (r: Self)
        ensures
            r@ == self@,
    {
        DeliveredAck {
            message_id: self.message_id.clone(),
            from_user: self.from_user.clone(),
        }
    }
}

/// The message was read.
#[derive(Debug, PartialEq, Eq)]
pub struct ReadAck {
    pub message_id: String,
    pub from_user: String,
}

/// What [`ReadAck`] holds.
#[verifier::ext_equal]
pub struct ReadAckView {
    pub message_id: Seq<char>,
    pub from_user: Seq<char>,
}

impl View for ReadAck {
    type V = ReadAckView;

    open spec fn view(&self) -> ReadAckView {
        ReadAckView {
            message_id: self.message_id@,
            from_user: self.from_user@,
        }
    }
}

impl Clone for ReadAck {
    fn clone(&self) -> (r: Self)
        ensures
            r@ == self@,
    {
        ReadAck {
            message_id: self.message_id.clone(),
            from_user: self.from_user.clone(),
        }
    }
}

/// Ends the replay of an inbox.
#[derive(Debug, PartialEq, Eq)]
pub struct SyncComplete {
    pub delivered: u64,
    pub latest_seq: u64,
    pub user_id: String,
}

/// What [`SyncComplete`] holds.
#[verifier::ext_equal]
pub struct SyncCompleteView {
    pub delivered: u64,
    pub latest_seq: u64,
    pub user_id: Seq<char>,
}

impl View for SyncComplete {
    type V = SyncCompleteView;

    open spec fn view(&self) -> SyncCompleteView {
        SyncCompleteView {
            delivered: self.delivered,
            latest_seq: self.latest_seq,
            user_id: self.user_id@,
        }
    }
}

impl Clone for SyncComplete {
    fn clone(&self) -> (r: Self)
        ensures
            r@ == self@,
    {
        SyncComplete {
            delivered: self.delivered,
            latest_seq: self.latest_seq,
            user_id: self.user_id.clone(),
        }
    }
}

/// Announces a blob.
#[derive(Debug, PartialEq, Eq)]
pub struct MediaStart {
    pub media_id: String,
    pub file_name: String,
    pub mime_type: String,
    pub total_size: u64,
    pub sha256: String,
}

/// What [`MediaStart`] holds.
#[verifier::ext_equal]
pub struct MediaStartView {
    pub media_id: Seq<char>,
    pub file_name: Seq<char>,
    pub mime_type: Seq<char>,
    pub total_size: u64,
    pub sha256: Seq<char>,
}

impl View for MediaStart {
    type V = MediaStartView;

    open spec fn view(&self) -> MediaStartView {
        MediaStartView {
            media_id: self.media_id@,
            file_name: self.file_name@,
            mime_type: self.mime_type@,
            total_size: self.total_size,
            sha256: self.sha256@,
        }
    }
}

impl Clone for MediaStart {
    fn clone(&self) -> (r: Self)
        ensures
            r@ == self@,
    {
        MediaStart {
            media_id: self.media_id.clone(),
            file_name: self.file_name.clone(),
            mime_type: self.mime_type.clone(),
            total_size: self.total_size,
            sha256: self.sha256.clone(),
        }
    }
}

/// One piece of a blob.
#[derive(Debug, PartialEq, Eq)]
pub struct MediaChunk {
    pub media_id: String,
    pub offset: u64,
    pub data: Vec<u8>,
    pub last: bool,
}

/// What [`MediaChunk`] holds.
#[verifier::ext_equal]
pub struct MediaChunkView {
    pub media_id: Seq<char>,
    pub offset: u64,
    pub data: Seq<u8>,
    pub last: bool,
}

impl View for MediaChunk {
    type V = MediaChunkView;

    open spec fn view(&self) -> MediaChunkView {
        MediaChunkView {
            media_id: self.media_id@,
            offset: self.offset,
            data: self.data@,
            last: self.last,
        }
    }
}

impl Clone for MediaChunk {
    fn clone(&self) -> (r: Self)
        ensures
            r@ == self@,
    {
        MediaChunk {
            media_id: self.media_id.clone(),
            offset: self.offset,
            data: clone_bytes(&self.data),
            last: self.last,
        }
    }
}

/// Answers a media frame.
#[derive(Debug, PartialEq, Eq)]
pub struct MediaAck {
    pub media_id: String,
    pub ok: bool,
    pub complete: bool,
    pub received_bytes: u64,
    pub error: String,
}

/// What [`MediaAck`] holds.
#[verifier::ext_equal]
pub struct MediaAckView {
    pub media_id: Seq<char>,
    pub ok: bool,
    pub complete: bool,
    pub received_bytes: u64,
    pub error: Seq<char>,
}

impl View for MediaAck {
    type V = MediaAckView;

    open spec fn view(&self) -> MediaAckView {
        MediaAckView {
            media_id: self.media_id@,
            ok: self.ok,
            complete: self.complete,
            received_bytes: self.received_bytes,
            error: self.error@,
        }
    }
}

impl Clone for MediaAck {
    fn clone(&self) -> (r: Self)
        ensures
            r@ == self@,
    {
        MediaAck {
            media_id: self.media_id.clone(),
            ok: self.ok,
            complete: self.complete,
            received_bytes: self.received_bytes,
            error: self.error.clone(),
        }
    }
}

/// Asks for a blob.
#[derive(Debug, PartialEq, Eq)]
pub struct MediaFetch {
    pub media_id: String,
    pub from_offset: u64,
}

/// What [`MediaFetch`] holds.
#[verifier::ext_equal]
pub struct MediaFetchView {
    pub media_id: Seq<char>,
    pub from_offset: u64,
}

impl View for MediaFetch {
    type V = MediaFetchView;

    open spec fn view(&self) -> MediaFetchView {
        MediaFetchView {
            media_id: self.media_id@,
            from_offset: self.from_offset,
        }
    }
}

impl Clone for MediaFetch {
    fn clone(&self) -> (r: Self)
        ensures
            r@ == self@,
    {
        MediaFetch {
            media_id: self.media_id.clone(),
            from_offset: self.from_offset,
        }
    }
}

/// One message to a group; `to_user` names the member of a per-member copy.
#[derive(Debug, PartialEq, Eq)]
pub struct GroupMessage {
    pub message_id: String,
    pub from_user: String,
    pub group_id: String,
    pub body: Vec<u8>,
    pub sent_at: u64,
    pub media_id: String,
    pub seq: u64,
    pub to_user: String,
}

/// What [`GroupMessage`] holds.
#[verifier::ext_equal]
pub struct GroupMessageView {
    pub message_id: Seq<char>,
    pub from_user: Seq<char>,
    pub group_id: Seq<char>,
    pub body: Seq<u8>,
    pub sent_at: u64,
    pub media_id: Seq<char>,
    pub seq: u64,
    pub to_user: Seq<char>,
}

impl View for GroupMessage {
    type V = GroupMessageView;

    open spec fn view(&self) -> GroupMessageView {
        GroupMessageView {
            message_id: self.message_id@,
            from_user: self.from_user@,
            group_id: self.group_id@,
            body: self.body@,
            sent_at: self.sent_at,
            media_id: self.media_id@,
            seq: self.seq,
            to_user: self.to_user@,
        }
    }
}

impl Clone for GroupMessage {
    fn clone(&self) -> (r: Self)
        ensures
            r@ == self@,
    {
        GroupMessage {
            message_id: self.message_id.clone(),
            from_user: self.from_user.clone(),
            group_id: self.group_id.clone(),
            body: clone_bytes(&self.body),
            sent_at: self.sent_at,
            media_id: self.media_id.clone(),
            seq: self.seq,
            to_user: self.to_user.clone(),
        }
    }
}

/// A change of membership.
#[derive(Debug, PartialEq, Eq)]
pub struct GroupEvent {
    pub group_id: String,
    pub op: i32,
    pub actor_user: String,
    pub subject_user: String,
    pub version: u64,
    pub to_user: String,
}

/// What [`GroupEvent`] holds.
#[verifier::ext_equal]
pub struct GroupEventView {
    pub group_id: Seq<char>,
    pub op: i32,
    pub actor_user: Seq<char>,
    pub subject_user: Seq<char>,
    pub version: u64,
    pub to_user: Seq<char>,
}

impl View for GroupEvent {
    type V = GroupEventView;

    open spec fn view(&self) -> GroupEventView {
        GroupEventView {
            group_id: self.group_id@,
            op: self.op,
            actor_user: self.actor_user@,
            subject_user: self.subject_user@,
            version: self.version,
            to_user: self.to_user@,
        }
    }
}

impl Clone for GroupEvent {
    fn clone(&self) -> (r: Self)
        ensures
            r@ == self@,
    {
        GroupEvent {
            group_id: self.group_id.clone(),
            op: self.op,
            actor_user: self.actor_user.clone(),
            subject_user: self.subject_user.clone(),
            version: self.version,
            to_user: self.to_user.clone(),
        }
    }
}

/// Who has received and read a group message.
#[derive(Debug, PartialEq, Eq)]
pub struct GroupAckSummary {
    pub message_id: String,
    pub group_id: String,
    pub delivered_by: Vec<String>,
    pub read_by: Vec<String>,
    pub member_count: u32,
    pub to_user: String,
}

/// What [`GroupAckSummary`] holds.
#[verifier::ext_equal]
pub struct GroupAckSummaryView {
    pub message_id: Seq<char>,
    pub group_id: Seq<char>,
    pub delivered_by: Seq<Seq<char>>,
    pub read_by: Seq<Seq<char>>,
    pub member_count: u32,
    pub to_user: Seq<char>,
}

impl View for GroupAckSummary {
    type V = GroupAckSummaryView;

    open spec fn view(&self) -> GroupAckSummaryView {
        GroupAckSummaryView {
            message_id: self.message_id@,
            group_id: self.group_id@,
            delivered_by: strs(self.delivered_by@),
            read_by: strs(self.read_by@),
            member_count: self.member_count,
            to_user: self.to_user@,
        }
    }
}

impl Clone for GroupAckSummary {
    fn clone(&self) -> (r: Self)
        ensures
            r@ == self@,
    {
        GroupAckSummary {
            message_id: self.message_id.clone(),
            group_id: self.group_id.clone(),
            delivered_by: clone_strings(&self.delivered_by),
            read_by: clone_strings(&self.read_by),
            member_count: self.member_count,
            to_user: self.to_user.clone(),
        }
    }
}

/// Opens a link between gateways.
#[derive(Debug, PartialEq, Eq)]
pub struct PeerHello {
    pub node_id: String,
    pub auth_token: String,
}

/// What [`PeerHello`] holds.
#[verifier::ext_equal]
pub struct PeerHelloView {
    pub node_id: Seq<char>,
    pub auth_token: Seq<char>,
}

impl View for PeerHello {
    type V = PeerHelloView;

    open spec fn view(&self) -> PeerHelloView {
        PeerHelloView {
            node_id: self.node_id@,
            auth_token: self.auth_token@,
        }
    }
}

impl Clone for PeerHello {
    fn clone(&self) -> (r: Self)
        ensures
            r@ == self@,
    {
        PeerHello {
            node_id: self.node_id.clone(),
            auth_token: self.auth_token.clone(),
        }
    }
}

/// Tells peers where a user is connected.
#[derive(Debug, PartialEq, Eq)]
pub struct PeerPresence {
    pub user_id: String,
    pub online: bool,
    pub node_id: String,
    pub last_seen: u64,
}

/// What [`PeerPresence`] holds.
#[verifier::ext_equal]
pub struct PeerPresenceView {
    pub user_id: Seq<char>,
    pub online: bool,
    pub node_id: Seq<char>,
    pub last_seen: u64,
}

impl View for PeerPresence {
    type V = PeerPresenceView;

    open spec fn view(&self) -> PeerPresenceView {
        PeerPresenceView {
            user_id: self.user_id@,
            online: self.online,
            node_id: self.node_id@,
            last_seen: self.last_seen,
        }
    }
}

impl Clone for PeerPresence {
    fn clone(&self) -> (r: Self)
        ensures
            r@ == self@,
    {
        PeerPresence {
            user_id: self.user_id.clone(),
            online: self.online,
            node_id: self.node_id.clone(),
            last_seen: self.last_seen,
        }
    }
}

/// Asks the home node to replay an inbox.
#[derive(Debug, PartialEq, Eq)]
pub struct PeerSync {
    pub user_id: String,
    pub after_seq: u64,
}

/// What [`PeerSync`] holds.
#[verifier::ext_equal]
pub struct PeerSyncView {
    pub user_id: Seq<char>,
    pub after_seq: u64,
}

impl View for PeerSync {
    type V = PeerSyncView;

    open spec fn view(&self) -> PeerSyncView {
        PeerSyncView {
            user_id: self.user_id@,
            after_seq: self.after_seq,
        }
    }
}

impl Clone for PeerSync {
    fn clone(&self) -> (r: Self)
        ensures
            r@ == self@,
    {
        PeerSync {
            user_id: self.user_id.clone(),
            after_seq: self.after_seq,
        }
    }
}

/// A gateway joined the cluster.
#[derive(Debug, PartialEq, Eq)]
pub struct PeerJoin {
    pub node_id: String,
    pub addr: String,
}

/// What [`PeerJoin`] holds.
#[verifier::ext_equal]
pub struct PeerJoinView {
    pub node_id: Seq<char>,
    pub addr: Seq<char>,
}

impl View for PeerJoin {
    type V = PeerJoinView;

    open spec fn view(&self) -> PeerJoinView {
        PeerJoinView {
            node_id: self.node_id@,
            addr: self.addr@,
        }
    }
}

impl Clone for PeerJoin {
    fn clone(&self) -> (r: Self)
        ensures
            r@ == self@,
    {
        PeerJoin {
            node_id: self.node_id.clone(),
            addr: self.addr.clone(),
        }
    }
}

/// A gateway left the cluster.
#[derive(Debug, PartialEq, Eq)]
pub struct PeerLeave {
    pub node_id: String,
}

/// What [`PeerLeave`] holds.
#[verifier::ext_equal]
pub struct PeerLeaveView {
    pub node_id: Seq<char>,
}

impl View for PeerLeave {
    type V = PeerLeaveView;

    open spec fn view(&self) -> PeerLeaveView {
        PeerLeaveView {
            node_id: self.node_id@,
        }
    }
}

impl Clone for PeerLeave {
    fn clone(&self) -> (r: Self)
        ensures
            r@ == self@,
    {
        PeerLeave {
            node_id: self.node_id.clone(),
        }
    }
}

/// Moves an inbox to its new home.
#[derive(Debug, PartialEq, Eq)]
pub struct PeerHandoffUser {
    pub user_id: String,
    pub next_seq: u64,
    pub seen: Vec<String>,
    pub chats: Vec<ChatMessage>,
    pub groups: Vec<GroupMessage>,
}

/// What [`PeerHandoffUser`] holds.
#[verifier::ext_equal]
pub struct PeerHandoffUserView {
    pub user_id: Seq<char>,
    pub next_seq: u64,
    pub seen: Seq<Seq<char>>,
    pub chats: Seq<ChatMessageView>,
    pub groups: Seq<GroupMessageView>,
}

impl View for PeerHandoffUser {
    type V = PeerHandoffUserView;

    open spec fn view(&self) -> PeerHandoffUserView {
        PeerHandoffUserView {
            user_id: self.user_id@,
            next_seq: self.next_seq,
            seen: strs(self.seen@),
            chats: chat_views(self.chats@),
            groups: group_views(self.groups@),
        }
    }
}

impl Clone for PeerHandoffUser {
    fn clone(&self) -> (r: Self)
        ensures
            r@ == self@,
    {
        PeerHandoffUser {
            user_id: self.user_id.clone(),
            next_seq: self.next_seq,
            seen: clone_strings(&self.seen),
            chats: clone_chats(&self.chats),
            groups: clone_groups(&self.groups),
        }
    }
}

/// Moves a group to its new home.
#[derive(Debug, PartialEq, Eq)]
pub struct PeerHandoffGroup {
    pub group_id: String,
    pub members: Vec<String>,
    pub admins: Vec<String>,
    pub version: u64,
}

/// What [`PeerHandoffGroup`] holds.
#[verifier::ext_equal]
pub struct PeerHandoffGroupView {
    pub group_id: Seq<char>,
    pub members: Seq<Seq<char>>,
    pub admins: Seq<Seq<char>>,
    pub version: u64,
}

impl View for PeerHandoffGroup {
    type V = PeerHandoffGroupView;

    open spec fn view(&self) -> PeerHandoffGroupView {
        PeerHandoffGroupView {
            group_id: self.group_id@,
            members: strs(self.members@),
            admins: strs(self.admins@),
            version: self.version,
        }
    }
}

impl Clone for PeerHandoffGroup {
    fn clone(&self) -> (r: Self)
        ensures
            r@ == self@,
    {
        PeerHandoffGroup {
            group_id: self.group_id.clone(),
            members: clone_strings(&self.members),
            admins: clone_strings(&self.admins),
            version: self.version,
        }
    }
}

/// Tells peers which gateway holds a blob.
#[derive(Debug, PartialEq, Eq)]
pub struct PeerMediaReady {
    pub media_id: String,
    pub node_id: String,
}

/// What [`PeerMediaReady`] holds.
#[verifier::ext_equal]
pub struct PeerMediaReadyView {
    pub media_id: Seq<char>,
    pub node_id: Seq<char>,
}

impl View for PeerMediaReady {
    type V = PeerMediaReadyView;

    open spec fn view(&self) -> PeerMediaReadyView {
        PeerMediaReadyView {
            media_id: self.media_id@,
            node_id: self.node_id@,
        }
    }
}

impl Clone for PeerMediaReady {
    fn clone(&self) -> (r: Self)
        ensures
            r@ == self@,
    {
        PeerMediaReady {
            media_id: self.media_id.clone(),
            node_id: self.node_id.clone(),
        }
    }
}

/// Publishes the public keys of a device.
#[derive(Debug, PartialEq, Eq)]
pub struct PublishKeys {
    pub user_id: String,
    pub device_id: String,
    pub identity_key: String,
    pub one_time_keys: Vec<String>,
}

/// What [`PublishKeys`] holds.
#[verifier::ext_equal]
pub struct PublishKeysView {
    pub user_id: Seq<char>,
    pub device_id: Seq<char>,
    pub identity_key: Seq<char>,
    pub one_time_keys: Seq<Seq<char>>,
}

impl View for PublishKeys {
    type V = PublishKeysView;

    open spec fn view(&self) -> PublishKeysView {
        PublishKeysView {
            user_id: self.user_id@,
            device_id: self.device_id@,
            identity_key: self.identity_key@,
            one_time_keys: strs(self.one_time_keys@),
        }
    }
}

impl Clone for PublishKeys {
    fn clone(&self) -> (r: Self)
        ensures
            r@ == self@,
    {
        PublishKeys {
            user_id: self.user_id.clone(),
            device_id: self.device_id.clone(),
            identity_key: self.identity_key.clone(),
            one_time_keys: clone_strings(&self.one_time_keys),
        }
    }
}

/// Asks for the key bundle of a user.
#[derive(Debug, PartialEq, Eq)]
pub struct FetchKeys {
    pub user_id: String,
    pub device_id: String,
    pub for_user: String,
}

/// What [`FetchKeys`] holds.
#[verifier::ext_equal]
pub struct FetchKeysView {
    pub user_id: Seq<char>,
    pub device_id: Seq<char>,
    pub for_user: Seq<char>,
}

impl View for FetchKeys {
    type V = FetchKeysView;

    open spec fn view(&self) -> FetchKeysView {
        FetchKeysView {
            user_id: self.user_id@,
            device_id: self.device_id@,
            for_user: self.for_user@,
        }
    }
}

impl Clone for FetchKeys {
    fn clone(&self) -> (r: Self)
        ensures
            r@ == self@,
    {
        FetchKeys {
            user_id: self.user_id.clone(),
            device_id: self.device_id.clone(),
            for_user: self.for_user.clone(),
        }
    }
}

/// The keys with which a session can be opened.
#[derive(Debug, PartialEq, Eq)]
pub struct KeyBundle {
    pub user_id: String,
    pub device_id: String,
    pub identity_key: String,
    pub one_time_key: String,
    pub for_user: String,
    pub found: bool,
    pub device_ids: Vec<String>,
}

/// What [`KeyBundle`] holds.
#[verifier::ext_equal]
pub struct KeyBundleView {
    pub user_id: Seq<char>,
    pub device_id: Seq<char>,
    pub identity_key: Seq<char>,
    pub one_time_key: Seq<char>,
    pub for_user: Seq<char>,
    pub found: bool,
    pub device_ids: Seq<Seq<char>>,
}

impl View for KeyBundle {
    type V = KeyBundleView;

    open spec fn view(&self) -> KeyBundleView {
        KeyBundleView {
            user_id: self.user_id@,
            device_id: self.device_id@,
            identity_key: self.identity_key@,
            one_time_key: self.one_time_key@,
            for_user: self.for_user@,
            found: self.found,
            device_ids: strs(self.device_ids@),
        }
    }
}

impl Clone for KeyBundle {
    fn clone(&self) -> (r: Self)
        ensures
            r@ == self@,
    {
        KeyBundle {
            user_id: self.user_id.clone(),
            device_id: self.device_id.clone(),
            identity_key: self.identity_key.clone(),
            one_time_key: self.one_time_key.clone(),
            for_user: self.for_user.clone(),
            found: self.found,
            device_ids: clone_strings(&self.device_ids),
        }
    }
}

/// Revokes the keys of a device.
#[derive(Debug, PartialEq, Eq)]
pub struct RemoveDeviceKeys {
    pub user_id: String,
    pub device_id: String,
}

/// What [`RemoveDeviceKeys`] holds.
#[verifier::ext_equal]
pub struct RemoveDeviceKeysView {
    pub user_id: Seq<char>,
    pub device_id: Seq<char>,
}

impl View for RemoveDeviceKeys {
    type V = RemoveDeviceKeysView;

    open spec fn view(&self) -> RemoveDeviceKeysView {
        RemoveDeviceKeysView {
            user_id: self.user_id@,
            device_id: self.device_id@,
        }
    }
}

impl Clone for RemoveDeviceKeys {
    fn clone(&self) -> (r: Self)
        ensures
            r@ == self@,
    {
        RemoveDeviceKeys {
            user_id: self.user_id.clone(),
            device_id: self.device_id.clone(),
        }
    }
}

/// Replaces the presence roster of a user.
#[derive(Debug, PartialEq, Eq)]
pub struct SubscribePresence {
    pub user_id: String,
    pub contact_ids: Vec<String>,
}

/// What [`SubscribePresence`] holds.
#[verifier::ext_equal]
pub struct SubscribePresenceView {
    pub user_id: Seq<char>,
    pub contact_ids: Seq<Seq<char>>,
}

impl View for SubscribePresence {
    type V = SubscribePresenceView;

    open spec fn view(&self) -> SubscribePresenceView {
        SubscribePresenceView {
            user_id: self.user_id@,
            contact_ids: strs(self.contact_ids@),
        }
    }
}

impl Clone for SubscribePresence {
    fn clone(&self) -> (r: Self)
        ensures
            r@ == self@,
    {
        SubscribePresence {
            user_id: self.user_id.clone(),
            contact_ids: clone_strings(&self.contact_ids),
        }
    }
}

/// Body of an encrypted chat message.
#[derive(Debug, PartialEq, Eq)]
pub struct EncryptedPayload {
    pub sender_key: String,
    pub message_type: u32,
    pub ciphertext: Vec<u8>,
}

/// What [`EncryptedPayload`] holds.
#[verifier::ext_equal]
pub struct EncryptedPayloadView {
    pub sender_key: Seq<char>,
    pub message_type: u32,
    pub ciphertext: Seq<u8>,
}

impl View for EncryptedPayload {
    type V = EncryptedPayloadView;

    open spec fn view(&self) -> EncryptedPayloadView {
        EncryptedPayloadView {
            sender_key: self.sender_key@,
            message_type: self.message_type,
            ciphertext: self.ciphertext@,
        }
    }
}

impl Clone for EncryptedPayload {
    fn clone(&self) -> (r: Self)
        ensures
            r@ == self@,
    {
        EncryptedPayload {
            sender_key: self.sender_key.clone(),
            message_type: self.message_type,
            ciphertext: clone_bytes(&self.ciphertext),
        }
    }
}

/// Body of an encrypted group message.
#[derive(Debug, PartialEq, Eq)]
pub struct EncryptedGroupPayload {
    pub session_id: String,
    pub ciphertext: Vec<u8>,
}

/// What [`EncryptedGroupPayload`] holds.
#[verifier::ext_equal]
pub struct EncryptedGroupPayloadView {
    pub session_id: Seq<char>,
    pub ciphertext: Seq<u8>,
}

impl View for EncryptedGroupPayload {
    type V = EncryptedGroupPayloadView;

    open spec fn view(&self) -> EncryptedGroupPayloadView {
        EncryptedGroupPayloadView {
            session_id: self.session_id@,
            ciphertext: self.ciphertext@,
        }
    }
}

impl Clone for EncryptedGroupPayload {
    fn clone(&self) -> (r: Self)
        ensures
            r@ == self@,
    {
        EncryptedGroupPayload {
            session_id: self.session_id.clone(),
            ciphertext: clone_bytes(&self.ciphertext),
        }
    }
}

/// A group session key on its way to a member.
#[derive(Debug, PartialEq, Eq)]
pub struct GroupSessionKeyShare {
    pub group_id: String,
    pub session_id: String,
    pub session_key: String,
}

/// What [`GroupSessionKeyShare`] holds.
#[verifier::ext_equal]
pub struct GroupSessionKeyShareView {
    pub group_id: Seq<char>,
    pub session_id: Seq<char>,
    pub session_key: Seq<char>,
}

impl View for GroupSessionKeyShare {
    type V = GroupSessionKeyShareView;

    open spec fn view(&self) -> GroupSessionKeyShareView {
        GroupSessionKeyShareView {
            group_id: self.group_id@,
            session_id: self.session_id@,
            session_key: self.session_key@,
        }
    }
}

impl Clone for GroupSessionKeyShare {
    fn clone(&self) -> (r: Self)
        ensures
            r@ == self@,
    {
        GroupSessionKeyShare {
            group_id: self.group_id.clone(),
            session_id: self.session_id.clone(),
            session_key: self.session_key.clone(),
        }
    }
}

/// The number of a change stands for it and for no other, and the number of a
/// presence or an error likewise.
pub proof fn law_numbers_stand_for_one(
    a: GroupOp,
    b: GroupOp,
    k: PresenceKind,
    l: PresenceKind,
    e: ErrorCode,
    f: ErrorCode,
)
    ensures
        GroupOp::of(a.number()) == a,
        a.number() == b.number() ==> a == b,
        k.number() == l.number() ==> k == l,
        e.number() == f.number() ==> e == f,
{
}

} // verus!
