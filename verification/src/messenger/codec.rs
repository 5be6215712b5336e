//! Packets and their binary frames.
//!
//! A frame is a version byte, a packet type byte, the payload length as four
//! bytes with the most significant first, and the payload. Frames above the
//! configured maximum are refused before anything is set aside for them.

use crate::messenger::error::MessengerError;
use crate::messenger::wire::{
    ChatMessage, ChatMessageView, DeliveredAck, DeliveredAckView, FetchKeys, FetchKeysView,
    GroupAckSummary, GroupAckSummaryView, GroupEvent, GroupEventView, GroupMessage,
    GroupMessageView, KeyBundle, KeyBundleView, Login, LoginAck, LoginAckView, LoginView,
    MediaAck, MediaAckView, MediaChunk, MediaChunkView, MediaFetch, MediaFetchView, MediaStart,
    MediaStartView, PeerHandoffGroup, PeerHandoffGroupView, PeerHandoffUser,
    PeerHandoffUserView, PeerHello, PeerHelloView, PeerJoin, PeerJoinView, PeerLeave,
    PeerLeaveView, PeerMediaReady, PeerMediaReadyView, PeerPresence, PeerPresenceView,
    PeerSync, PeerSyncView, Ping, PingView, Pong, PongView, Presence, PresenceView,
    ProtocolError, ProtocolErrorView, PublishKeys, PublishKeysView, ReadAck, ReadAckView,
    RemoveDeviceKeys, RemoveDeviceKeysView, ServerAck, ServerAckView, SubscribePresence,
    SubscribePresenceView, SyncComplete, SyncCompleteView,
};
use bytes::{Buf, BufMut, BytesMut};
use vstd::prelude::*;

verus! {

/// Kinds of packets. The identifier of one is never given to another packet.
#[derive(Debug, Clone, Copy, PartialEq, Eq, Structural)]
pub enum PacketType {
    Login,
    LoginAck,
    Ping,
    Pong,
    Error,
    Presence,
    ChatMessage,
    ServerAck,
    DeliveredAck,
    ReadAck,
    SyncComplete,
    MediaStart,
    MediaChunk,
    MediaAck,
    MediaFetch,
    GroupMessage,
    GroupEvent,
    PeerHello,
    PeerPresence,
    PeerSync,
    PeerJoin,
    PeerLeave,
    PeerHandoffUser,
    PeerHandoffGroup,
    PublishKeys,
    FetchKeys,
    KeyBundle,
    GroupAckSummary,
    PeerMediaReady,
    RemoveDeviceKeys,
    SubscribePresence,
}

impl PacketType {
    /// The byte that stands for the packet in a frame. A byte is never used again
    /// for another packet.
    pub open spec fn id(self) -> u8 {
        match self {
            PacketType::Login => 0x01,
            PacketType::LoginAck => 0x02,
            PacketType::Ping => 0x03,
            PacketType::Pong => 0x04,
            PacketType::Error => 0x0F,
            PacketType::Presence => 0x10,
            PacketType::ChatMessage => 0x20,
            PacketType::ServerAck => 0x21,
            PacketType::DeliveredAck => 0x22,
            PacketType::ReadAck => 0x23,
            PacketType::SyncComplete => 0x24,
            PacketType::MediaStart => 0x30,
            PacketType::MediaChunk => 0x31,
            PacketType::MediaAck => 0x32,
            PacketType::MediaFetch => 0x33,
            PacketType::GroupMessage => 0x40,
            PacketType::GroupEvent => 0x41,
            PacketType::PeerHello => 0x50,
            PacketType::PeerPresence => 0x51,
            PacketType::PeerSync => 0x52,
            PacketType::PeerJoin => 0x53,
            PacketType::PeerLeave => 0x54,
            PacketType::PeerHandoffUser => 0x55,
            PacketType::PeerHandoffGroup => 0x56,
            PacketType::PublishKeys => 0x60,
            PacketType::FetchKeys => 0x61,
            PacketType::KeyBundle => 0x62,
            PacketType::GroupAckSummary => 0x42,
            PacketType::PeerMediaReady => 0x57,
            PacketType::RemoveDeviceKeys => 0x63,
            PacketType::SubscribePresence => 0x11,
        }
    }

    /// The byte that stands for the packet in a frame.
    pub fn wire_id(self) -> (r: u8)
        ensures
            r == self.id(),
    {
        match self {
            PacketType::Login => 0x01,
            PacketType::LoginAck => 0x02,
            PacketType::Ping => 0x03,
            PacketType::Pong => 0x04,
            PacketType::Error => 0x0F,
            PacketType::Presence => 0x10,
            PacketType::ChatMessage => 0x20,
            PacketType::ServerAck => 0x21,
            PacketType::DeliveredAck => 0x22,
            PacketType::ReadAck => 0x23,
            PacketType::SyncComplete => 0x24,
            PacketType::MediaStart => 0x30,
            PacketType::MediaChunk => 0x31,
            PacketType::MediaAck => 0x32,
            PacketType::MediaFetch => 0x33,
            PacketType::GroupMessage => 0x40,
            PacketType::GroupEvent => 0x41,
            PacketType::PeerHello => 0x50,
            PacketType::PeerPresence => 0x51,
            PacketType::PeerSync => 0x52,
            PacketType::PeerJoin => 0x53,
            PacketType::PeerLeave => 0x54,
            PacketType::PeerHandoffUser => 0x55,
            PacketType::PeerHandoffGroup => 0x56,
            PacketType::PublishKeys => 0x60,
            PacketType::FetchKeys => 0x61,
            PacketType::KeyBundle => 0x62,
            PacketType::GroupAckSummary => 0x42,
            PacketType::PeerMediaReady => 0x57,
            PacketType::RemoveDeviceKeys => 0x63,
            PacketType::SubscribePresence => 0x11,
        }
    }

    /// The packet type that a byte stands for.
    pub fn try_from(v: u8) -> (r: Result<PacketType, MessengerError>)
        ensures
            match r {
                Ok(t) => PacketType::of_id(v) == Some(t),
                Err(e) => PacketType::of_id(v) is None && e
                    == MessengerError::UnknownPacketType(v),
            },
    {
        match v {
            0x01 => Ok(PacketType::Login),
            0x02 => Ok(PacketType::LoginAck),
            0x03 => Ok(PacketType::Ping),
            0x04 => Ok(PacketType::Pong),
            0x0F => Ok(PacketType::Error),
            0x10 => Ok(PacketType::Presence),
            0x20 => Ok(PacketType::ChatMessage),
            0x21 => Ok(PacketType::ServerAck),
            0x22 => Ok(PacketType::DeliveredAck),
            0x23 => Ok(PacketType::ReadAck),
            0x24 => Ok(PacketType::SyncComplete),
            0x30 => Ok(PacketType::MediaStart),
            0x31 => Ok(PacketType::MediaChunk),
            0x32 => Ok(PacketType::MediaAck),
            0x33 => Ok(PacketType::MediaFetch),
            0x40 => Ok(PacketType::GroupMessage),
            0x41 => Ok(PacketType::GroupEvent),
            0x50 => Ok(PacketType::PeerHello),
            0x51 => Ok(PacketType::PeerPresence),
            0x52 => Ok(PacketType::PeerSync),
            0x53 => Ok(PacketType::PeerJoin),
            0x54 => Ok(PacketType::PeerLeave),
            0x55 => Ok(PacketType::PeerHandoffUser),
            0x56 => Ok(PacketType::PeerHandoffGroup),
            0x60 => Ok(PacketType::PublishKeys),
            0x61 => Ok(PacketType::FetchKeys),
            0x62 => Ok(PacketType::KeyBundle),
            0x42 => Ok(PacketType::GroupAckSummary),
            0x57 => Ok(PacketType::PeerMediaReady),
            0x63 => Ok(PacketType::RemoveDeviceKeys),
            0x11 => Ok(PacketType::SubscribePresence),
            _ => Err(MessengerError::UnknownPacketType(v)),
        }
    }

    /// Name of the packet type.
    pub open spec fn name_text(self) -> Seq<char> {
        match self {
            PacketType::Login => "Login"@,
            PacketType::LoginAck => "LoginAck"@,
            PacketType::Ping => "Ping"@,
            PacketType::Pong => "Pong"@,
            PacketType::Error => "Error"@,
            PacketType::Presence => "Presence"@,
            PacketType::ChatMessage => "ChatMessage"@,
            PacketType::ServerAck => "ServerAck"@,
            PacketType::DeliveredAck => "DeliveredAck"@,
            PacketType::ReadAck => "ReadAck"@,
            PacketType::SyncComplete => "SyncComplete"@,
            PacketType::MediaStart => "MediaStart"@,
            PacketType::MediaChunk => "MediaChunk"@,
            PacketType::MediaAck => "MediaAck"@,
            PacketType::MediaFetch => "MediaFetch"@,
            PacketType::GroupMessage => "GroupMessage"@,
            PacketType::GroupEvent => "GroupEvent"@,
            PacketType::PeerHello => "PeerHello"@,
            PacketType::PeerPresence => "PeerPresence"@,
            PacketType::PeerSync => "PeerSync"@,
            PacketType::PeerJoin => "PeerJoin"@,
            PacketType::PeerLeave => "PeerLeave"@,
            PacketType::PeerHandoffUser => "PeerHandoffUser"@,
            PacketType::PeerHandoffGroup => "PeerHandoffGroup"@,
            PacketType::PublishKeys => "PublishKeys"@,
            PacketType::FetchKeys => "FetchKeys"@,
            PacketType::KeyBundle => "KeyBundle"@,
            PacketType::GroupAckSummary => "GroupAckSummary"@,
            PacketType::PeerMediaReady => "PeerMediaReady"@,
            PacketType::RemoveDeviceKeys => "RemoveDeviceKeys"@,
            PacketType::SubscribePresence => "SubscribePresence"@,
        }
    }

    /// Name of the packet type.
    pub fn name(self) -> (s: &'static str)
        ensures
            s@ == self.name_text(),
    {
        match self {
            PacketType::Login => "Login",
            PacketType::LoginAck => "LoginAck",
            PacketType::Ping => "Ping",
            PacketType::Pong => "Pong",
            PacketType::Error => "Error",
            PacketType::Presence => "Presence",
            PacketType::ChatMessage => "ChatMessage",
            PacketType::ServerAck => "ServerAck",
            PacketType::DeliveredAck => "DeliveredAck",
            PacketType::ReadAck => "ReadAck",
            PacketType::SyncComplete => "SyncComplete",
            PacketType::MediaStart => "MediaStart",
            PacketType::MediaChunk => "MediaChunk",
            PacketType::MediaAck => "MediaAck",
            PacketType::MediaFetch => "MediaFetch",
            PacketType::GroupMessage => "GroupMessage",
            PacketType::GroupEvent => "GroupEvent",
            PacketType::PeerHello => "PeerHello",
            PacketType::PeerPresence => "PeerPresence",
            PacketType::PeerSync => "PeerSync",
            PacketType::PeerJoin => "PeerJoin",
            PacketType::PeerLeave => "PeerLeave",
            PacketType::PeerHandoffUser => "PeerHandoffUser",
            PacketType::PeerHandoffGroup => "PeerHandoffGroup",
            PacketType::PublishKeys => "PublishKeys",
            PacketType::FetchKeys => "FetchKeys",
            PacketType::KeyBundle => "KeyBundle",
            PacketType::GroupAckSummary => "GroupAckSummary",
            PacketType::PeerMediaReady => "PeerMediaReady",
            PacketType::RemoveDeviceKeys => "RemoveDeviceKeys",
            PacketType::SubscribePresence => "SubscribePresence",
        }
    }
}

/// No two packet types share an identifier.
pub proof fn law_identifiers_are_unique(a: PacketType, b: PacketType)
    requires
        a.id() == b.id(),
    ensures
        a == b,
{
}

/// A packet.
#[derive(Debug, PartialEq, Eq)]
pub enum Packet {
    Login(Login),
    LoginAck(LoginAck),
    Ping(Ping),
    Pong(Pong),
    Error(ProtocolError),
    Presence(Presence),
    ChatMessage(ChatMessage),
    ServerAck(ServerAck),
    DeliveredAck(DeliveredAck),
    ReadAck(ReadAck),
    SyncComplete(SyncComplete),
    MediaStart(MediaStart),
    MediaChunk(MediaChunk),
    MediaAck(MediaAck),
    MediaFetch(MediaFetch),
    GroupMessage(GroupMessage),
    GroupEvent(GroupEvent),
    PeerHello(PeerHello),
    PeerPresence(PeerPresence),
    PeerSync(PeerSync),
    PeerJoin(PeerJoin),
    PeerLeave(PeerLeave),
    PeerHandoffUser(PeerHandoffUser),
    PeerHandoffGroup(PeerHandoffGroup),
    PublishKeys(PublishKeys),
    FetchKeys(FetchKeys),
    KeyBundle(KeyBundle),
    GroupAckSummary(GroupAckSummary),
    PeerMediaReady(PeerMediaReady),
    RemoveDeviceKeys(RemoveDeviceKeys),
    SubscribePresence(SubscribePresence),
}

/// What a packet holds.
#[verifier::ext_equal]
pub enum PacketView {
    Login(LoginView),
    LoginAck(LoginAckView),
    Ping(PingView),
    Pong(PongView),
    Error(ProtocolErrorView),
    Presence(PresenceView),
    ChatMessage(ChatMessageView),
    ServerAck(ServerAckView),
    DeliveredAck(DeliveredAckView),
    ReadAck(ReadAckView),
    SyncComplete(SyncCompleteView),
    MediaStart(MediaStartView),
    MediaChunk(MediaChunkView),
    MediaAck(MediaAckView),
    MediaFetch(MediaFetchView),
    GroupMessage(GroupMessageView),
    GroupEvent(GroupEventView),
    PeerHello(PeerHelloView),
    PeerPresence(PeerPresenceView),
    PeerSync(PeerSyncView),
    PeerJoin(PeerJoinView),
    PeerLeave(PeerLeaveView),
    PeerHandoffUser(PeerHandoffUserView),
    PeerHandoffGroup(PeerHandoffGroupView),
    PublishKeys(PublishKeysView),
    FetchKeys(FetchKeysView),
    KeyBundle(KeyBundleView),
    GroupAckSummary(GroupAckSummaryView),
    PeerMediaReady(PeerMediaReadyView),
    RemoveDeviceKeys(RemoveDeviceKeysView),
    SubscribePresence(SubscribePresenceView),
}

impl View for Packet {
    type V = PacketView;

    open spec fn view(&self) -> PacketView {
        match self {
            Packet::Login(m) => PacketView::Login(m@),
            Packet::LoginAck(m) => PacketView::LoginAck(m@),
            Packet::Ping(m) => PacketView::Ping(m@),
            Packet::Pong(m) => PacketView::Pong(m@),
            Packet::Error(m) => PacketView::Error(m@),
            Packet::Presence(m) => PacketView::Presence(m@),
            Packet::ChatMessage(m) => PacketView::ChatMessage(m@),
            Packet::ServerAck(m) => PacketView::ServerAck(m@),
            Packet::DeliveredAck(m) => PacketView::DeliveredAck(m@),
            Packet::ReadAck(m) => PacketView::ReadAck(m@),
            Packet::SyncComplete(m) => PacketView::SyncComplete(m@),
            Packet::MediaStart(m) => PacketView::MediaStart(m@),
            Packet::MediaChunk(m) => PacketView::MediaChunk(m@),
            Packet::MediaAck(m) => PacketView::MediaAck(m@),
            Packet::MediaFetch(m) => PacketView::MediaFetch(m@),
            Packet::GroupMessage(m) => PacketView::GroupMessage(m@),
            Packet::GroupEvent(m) => PacketView::GroupEvent(m@),
            Packet::PeerHello(m) => PacketView::PeerHello(m@),
            Packet::PeerPresence(m) => PacketView::PeerPresence(m@),
            Packet::PeerSync(m) => PacketView::PeerSync(m@),
            Packet::PeerJoin(m) => PacketView::PeerJoin(m@),
            Packet::PeerLeave(m) => PacketView::PeerLeave(m@),
            Packet::PeerHandoffUser(m) => PacketView::PeerHandoffUser(m@),
            Packet::PeerHandoffGroup(m) => PacketView::PeerHandoffGroup(m@),
            Packet::PublishKeys(m) => PacketView::PublishKeys(m@),
            Packet::FetchKeys(m) => PacketView::FetchKeys(m@),
            Packet::KeyBundle(m) => PacketView::KeyBundle(m@),
            Packet::GroupAckSummary(m) => PacketView::GroupAckSummary(m@),
            Packet::PeerMediaReady(m) => PacketView::PeerMediaReady(m@),
            Packet::RemoveDeviceKeys(m) => PacketView::RemoveDeviceKeys(m@),
            Packet::SubscribePresence(m) => PacketView::SubscribePresence(m@),
        }
    }
}

impl Clone for Packet {
    fn clone(&self) -> (r: Self)
        ensures
            r@ == self@,
    {
        match self {
            Packet::Login(m) => Packet::Login(m.clone()),
            Packet::LoginAck(m) => Packet::LoginAck(m.clone()),
            Packet::Ping(m) => Packet::Ping(m.clone()),
            Packet::Pong(m) => Packet::Pong(m.clone()),
            Packet::Error(m) => Packet::Error(m.clone()),
            Packet::Presence(m) => Packet::Presence(m.clone()),
            Packet::ChatMessage(m) => Packet::ChatMessage(m.clone()),
            Packet::ServerAck(m) => Packet::ServerAck(m.clone()),
            Packet::DeliveredAck(m) => Packet::DeliveredAck(m.clone()),
            Packet::ReadAck(m) => Packet::ReadAck(m.clone()),
            Packet::SyncComplete(m) => Packet::SyncComplete(m.clone()),
            Packet::MediaStart(m) => Packet::MediaStart(m.clone()),
            Packet::MediaChunk(m) => Packet::MediaChunk(m.clone()),
            Packet::MediaAck(m) => Packet::MediaAck(m.clone()),
            Packet::MediaFetch(m) => Packet::MediaFetch(m.clone()),
            Packet::GroupMessage(m) => Packet::GroupMessage(m.clone()),
            Packet::GroupEvent(m) => Packet::GroupEvent(m.clone()),
            Packet::PeerHello(m) => Packet::PeerHello(m.clone()),
            Packet::PeerPresence(m) => Packet::PeerPresence(m.clone()),
            Packet::PeerSync(m) => Packet::PeerSync(m.clone()),
            Packet::PeerJoin(m) => Packet::PeerJoin(m.clone()),
            Packet::PeerLeave(m) => Packet::PeerLeave(m.clone()),
            Packet::PeerHandoffUser(m) => Packet::PeerHandoffUser(m.clone()),
            Packet::PeerHandoffGroup(m) => Packet::PeerHandoffGroup(m.clone()),
            Packet::PublishKeys(m) => Packet::PublishKeys(m.clone()),
            Packet::FetchKeys(m) => Packet::FetchKeys(m.clone()),
            Packet::KeyBundle(m) => Packet::KeyBundle(m.clone()),
            Packet::GroupAckSummary(m) => Packet::GroupAckSummary(m.clone()),
            Packet::PeerMediaReady(m) => Packet::PeerMediaReady(m.clone()),
            Packet::RemoveDeviceKeys(m) => Packet::RemoveDeviceKeys(m.clone()),
            Packet::SubscribePresence(m) => Packet::SubscribePresence(m.clone()),
        }
    }
}

impl PacketView {
    /// The type of the packet.
    pub open spec fn ty(self) -> PacketType {
        match self {
            PacketView::Login(_) => PacketType::Login,
            PacketView::LoginAck(_) => PacketType::LoginAck,
            PacketView::Ping(_) => PacketType::Ping,
            PacketView::Pong(_) => PacketType::Pong,
            PacketView::Error(_) => PacketType::Error,
            PacketView::Presence(_) => PacketType::Presence,
            PacketView::ChatMessage(_) => PacketType::ChatMessage,
            PacketView::ServerAck(_) => PacketType::ServerAck,
            PacketView::DeliveredAck(_) => PacketType::DeliveredAck,
            PacketView::ReadAck(_) => PacketType::ReadAck,
            PacketView::SyncComplete(_) => PacketType::SyncComplete,
            PacketView::MediaStart(_) => PacketType::MediaStart,
            PacketView::MediaChunk(_) => PacketType::MediaChunk,
            PacketView::MediaAck(_) => PacketType::MediaAck,
            PacketView::MediaFetch(_) => PacketType::MediaFetch,
            PacketView::GroupMessage(_) => PacketType::GroupMessage,
            PacketView::GroupEvent(_) => PacketType::GroupEvent,
            PacketView::PeerHello(_) => PacketType::PeerHello,
            PacketView::PeerPresence(_) => PacketType::PeerPresence,
            PacketView::PeerSync(_) => PacketType::PeerSync,
            PacketView::PeerJoin(_) => PacketType::PeerJoin,
            PacketView::PeerLeave(_) => PacketType::PeerLeave,
            PacketView::PeerHandoffUser(_) => PacketType::PeerHandoffUser,
            PacketView::PeerHandoffGroup(_) => PacketType::PeerHandoffGroup,
            PacketView::PublishKeys(_) => PacketType::PublishKeys,
            PacketView::FetchKeys(_) => PacketType::FetchKeys,
            PacketView::KeyBundle(_) => PacketType::KeyBundle,
            PacketView::GroupAckSummary(_) => PacketType::GroupAckSummary,
            PacketView::PeerMediaReady(_) => PacketType::PeerMediaReady,
            PacketView::RemoveDeviceKeys(_) => PacketType::RemoveDeviceKeys,
            PacketView::SubscribePresence(_) => PacketType::SubscribePresence,
        }
    }
}

impl Packet {
    /// Wire identifier for this packet.
    pub fn packet_type(&self) -> (t: PacketType)
        ensures
            t == self@.ty(),
    {
        match self {
            Packet::Login(_) => PacketType::Login,
            Packet::LoginAck(_) => PacketType::LoginAck,
            Packet::Ping(_) => PacketType::Ping,
            Packet::Pong(_) => PacketType::Pong,
            Packet::Error(_) => PacketType::Error,
            Packet::Presence(_) => PacketType::Presence,
            Packet::ChatMessage(_) => PacketType::ChatMessage,
            Packet::ServerAck(_) => PacketType::ServerAck,
            Packet::DeliveredAck(_) => PacketType::DeliveredAck,
            Packet::ReadAck(_) => PacketType::ReadAck,
            Packet::SyncComplete(_) => PacketType::SyncComplete,
            Packet::MediaStart(_) => PacketType::MediaStart,
            Packet::MediaChunk(_) => PacketType::MediaChunk,
            Packet::MediaAck(_) => PacketType::MediaAck,
            Packet::MediaFetch(_) => PacketType::MediaFetch,
            Packet::GroupMessage(_) => PacketType::GroupMessage,
            Packet::GroupEvent(_) => PacketType::GroupEvent,
            Packet::PeerHello(_) => PacketType::PeerHello,
            Packet::PeerPresence(_) => PacketType::PeerPresence,
            Packet::PeerSync(_) => PacketType::PeerSync,
            Packet::PeerJoin(_) => PacketType::PeerJoin,
            Packet::PeerLeave(_) => PacketType::PeerLeave,
            Packet::PeerHandoffUser(_) => PacketType::PeerHandoffUser,
            Packet::PeerHandoffGroup(_) => PacketType::PeerHandoffGroup,
            Packet::PublishKeys(_) => PacketType::PublishKeys,
            Packet::FetchKeys(_) => PacketType::FetchKeys,
            Packet::KeyBundle(_) => PacketType::KeyBundle,
            Packet::GroupAckSummary(_) => PacketType::GroupAckSummary,
            Packet::PeerMediaReady(_) => PacketType::PeerMediaReady,
            Packet::RemoveDeviceKeys(_) => PacketType::RemoveDeviceKeys,
            Packet::SubscribePresence(_) => PacketType::SubscribePresence,
        }
    }
}

impl PacketType {
    /// The packet type that a byte stands for.
    pub open spec fn of_id(v: u8) -> Option<PacketType> {
        match v {
            0x01 => Some(PacketType::Login),
            0x02 => Some(PacketType::LoginAck),
            0x03 => Some(PacketType::Ping),
            0x04 => Some(PacketType::Pong),
            0x0F => Some(PacketType::Error),
            0x10 => Some(PacketType::Presence),
            0x20 => Some(PacketType::ChatMessage),
            0x21 => Some(PacketType::ServerAck),
            0x22 => Some(PacketType::DeliveredAck),
            0x23 => Some(PacketType::ReadAck),
            0x24 => Some(PacketType::SyncComplete),
            0x30 => Some(PacketType::MediaStart),
            0x31 => Some(PacketType::MediaChunk),
            0x32 => Some(PacketType::MediaAck),
            0x33 => Some(PacketType::MediaFetch),
            0x40 => Some(PacketType::GroupMessage),
            0x41 => Some(PacketType::GroupEvent),
            0x50 => Some(PacketType::PeerHello),
            0x51 => Some(PacketType::PeerPresence),
            0x52 => Some(PacketType::PeerSync),
            0x53 => Some(PacketType::PeerJoin),
            0x54 => Some(PacketType::PeerLeave),
            0x55 => Some(PacketType::PeerHandoffUser),
            0x56 => Some(PacketType::PeerHandoffGroup),
            0x60 => Some(PacketType::PublishKeys),
            0x61 => Some(PacketType::FetchKeys),
            0x62 => Some(PacketType::KeyBundle),
            0x42 => Some(PacketType::GroupAckSummary),
            0x57 => Some(PacketType::PeerMediaReady),
            0x63 => Some(PacketType::RemoveDeviceKeys),
            0x11 => Some(PacketType::SubscribePresence),
            _ => None,
        }
    }
}

/// Reading a packet type from its identifier gives it back, and no other byte
/// is accepted.
pub proof fn law_identifiers_round_trip(t: PacketType, v: u8)
    ensures
        t.id() == v <==> PacketType::of_id(v) == Some(t),
{
}

/// Whether two packets are of one variant.
pub open spec fn same_variant(a: PacketView, b: PacketView) -> bool {
    match (a, b) {
        (PacketView::Login(_), PacketView::Login(_)) => true,
        (PacketView::LoginAck(_), PacketView::LoginAck(_)) => true,
        (PacketView::Ping(_), PacketView::Ping(_)) => true,
        (PacketView::Pong(_), PacketView::Pong(_)) => true,
        (PacketView::Error(_), PacketView::Error(_)) => true,
        (PacketView::Presence(_), PacketView::Presence(_)) => true,
        (PacketView::ChatMessage(_), PacketView::ChatMessage(_)) => true,
        (PacketView::ServerAck(_), PacketView::ServerAck(_)) => true,
        (PacketView::DeliveredAck(_), PacketView::DeliveredAck(_)) => true,
        (PacketView::ReadAck(_), PacketView::ReadAck(_)) => true,
        (PacketView::SyncComplete(_), PacketView::SyncComplete(_)) => true,
        (PacketView::MediaStart(_), PacketView::MediaStart(_)) => true,
        (PacketView::MediaChunk(_), PacketView::MediaChunk(_)) => true,
        (PacketView::MediaAck(_), PacketView::MediaAck(_)) => true,
        (PacketView::MediaFetch(_), PacketView::MediaFetch(_)) => true,
        (PacketView::GroupMessage(_), PacketView::GroupMessage(_)) => true,
        (PacketView::GroupEvent(_), PacketView::GroupEvent(_)) => true,
        (PacketView::PeerHello(_), PacketView::PeerHello(_)) => true,
        (PacketView::PeerPresence(_), PacketView::PeerPresence(_)) => true,
        (PacketView::PeerSync(_), PacketView::PeerSync(_)) => true,
        (PacketView::PeerJoin(_), PacketView::PeerJoin(_)) => true,
        (PacketView::PeerLeave(_), PacketView::PeerLeave(_)) => true,
        (PacketView::PeerHandoffUser(_), PacketView::PeerHandoffUser(_)) => true,
        (PacketView::PeerHandoffGroup(_), PacketView::PeerHandoffGroup(_)) => true,
        (PacketView::PublishKeys(_), PacketView::PublishKeys(_)) => true,
        (PacketView::FetchKeys(_), PacketView::FetchKeys(_)) => true,
        (PacketView::KeyBundle(_), PacketView::KeyBundle(_)) => true,
        (PacketView::GroupAckSummary(_), PacketView::GroupAckSummary(_)) => true,
        (PacketView::PeerMediaReady(_), PacketView::PeerMediaReady(_)) => true,
        (PacketView::RemoveDeviceKeys(_), PacketView::RemoveDeviceKeys(_)) => true,
        (PacketView::SubscribePresence(_), PacketView::SubscribePresence(_)) => true,
        _ => false,
    }
}

/// The type of a packet tells its variant: two packets have one type exactly if
/// they are of one variant, and the type is read back from its identifier.
pub proof fn law_type_tells_the_variant(a: PacketView, b: PacketView)
    ensures
        a.ty() == b.ty() <==> same_variant(a, b),
        PacketType::of_id(a.ty().id()) == Some(a.ty()),
{
}

/// Current protocol version.
pub const PROTOCOL_VERSION: u8 = 1;

/// Frame header size: version, packet type and payload length.
pub const HEADER_LEN: usize = 6;

/// Default maximum payload size. Media chunks are 64 KiB, so 256 KiB leaves
/// headroom while memory per connection stays bounded.
pub const DEFAULT_MAX_FRAME: usize = 262_144;

/// A packet whose payload is still in its encoded form.
#[derive(Debug, PartialEq, Eq)]
pub struct Frame {
    pub ty: PacketType,
    pub payload: Vec<u8>,
}

/// What a [`Frame`] holds.
#[verifier::ext_equal]
pub struct FrameView {
    pub ty: PacketType,
    pub payload: Seq<u8>,
}

impl View for Frame {
    type V = FrameView;

    open spec fn view(&self) -> FrameView {
        FrameView { ty: self.ty, payload: self.payload@ }
    }
}

/// Four bytes, the most significant first.
pub open spec fn be_bytes(n: nat) -> Seq<u8> {
    seq![
        (n / 16_777_216 % 256) as u8,
        (n / 65_536 % 256) as u8,
        (n / 256 % 256) as u8,
        (n % 256) as u8,
    ]
}

/// The number that four bytes starting at `at` stand for, the most
/// significant first.
pub open spec fn be_number(b: Seq<u8>, at: int) -> nat {
    (b[at] * 16_777_216 + b[at + 1] * 65_536 + b[at + 2] * 256 + b[at + 3]) as nat
}

/// The bytes of a frame.
pub open spec fn frame_bytes(f: FrameView) -> Seq<u8> {
    seq![PROTOCOL_VERSION, f.ty.id()] + be_bytes(f.payload.len() % 4_294_967_296) + f.payload
}

/// What the start of a byte stream holds.
#[verifier::ext_equal]
pub enum Parsed {
    /// A frame has begun and is not complete.
    Incomplete,
    /// The version is not the current one.
    BadVersion(u8),
    /// No packet type has this identifier.
    BadType(u8),
    /// The announced payload exceeds the maximum.
    TooLarge(nat),
    /// A frame and the number of bytes that it takes.
    Complete(FrameView, nat),
}

/// What the byte stream `b` starts with. The header is judged as soon as it is
/// there, before the payload arrives.
pub open spec fn parse(b: Seq<u8>, max_frame: nat) -> Parsed {
    let len = be_number(b, 2);
    if b.len() < HEADER_LEN {
        Parsed::Incomplete
    } else if b[0] != PROTOCOL_VERSION {
        Parsed::BadVersion(b[0])
    } else if PacketType::of_id(b[1]) is None {
        Parsed::BadType(b[1])
    } else if len > max_frame {
        Parsed::TooLarge(len)
    } else if b.len() < HEADER_LEN + len {
        Parsed::Incomplete
    } else {
        Parsed::Complete(
            FrameView {
                ty: PacketType::of_id(b[1])->0,
                payload: b.subrange(HEADER_LEN as int, HEADER_LEN + len),
            },
            HEADER_LEN as nat + len,
        )
    }
}

/// All complete frames at the start of a byte stream.
pub open spec fn frames_of(b: Seq<u8>, max_frame: nat) -> Seq<FrameView>
    decreases b.len(),
{
    match parse(b, max_frame) {
        Parsed::Complete(f, n) => seq![f] + frames_of(b.skip(n as int), max_frame),
        _ => Seq::empty(),
    }
}

/// The bytes of some frames, one after the other.
pub open spec fn stream_of(fs: Seq<FrameView>) -> Seq<u8>
    decreases fs.len(),
{
    if fs.len() == 0 {
        Seq::empty()
    } else {
        frame_bytes(fs[0]) + stream_of(fs.skip(1))
    }
}

/// The frame can be sent: its payload is within the limit.
pub open spec fn sendable(f: FrameView, max_frame: nat) -> bool {
    &&& f.payload.len() <= max_frame
    &&& f.payload.len() < 4_294_967_296
}

/// Whatever follows it, a frame that was encoded is decoded as it was.
pub proof fn law_frame_round_trip(f: FrameView, rest: Seq<u8>, max_frame: nat)
    requires
        sendable(f, max_frame),
    ensures
        parse(frame_bytes(f) + rest, max_frame) == Parsed::Complete(f, frame_bytes(f).len()),
        (frame_bytes(f) + rest).skip(frame_bytes(f).len() as int) == rest,
        frame_bytes(f).len() == HEADER_LEN + f.payload.len(),
{
    let b = frame_bytes(f) + rest;
    let n = f.payload.len();
    law_identifiers_round_trip(f.ty, f.ty.id());
    assert(b[1] == f.ty.id());
    assert(be_number(b, 2) == n);
    assert(b.subrange(HEADER_LEN as int, HEADER_LEN + n) =~= f.payload);
    assert(b.skip(frame_bytes(f).len() as int) =~= rest);
}

/// A frame that has not arrived whole is waited for.
pub proof fn law_partial_frame_waits(f: FrameView, cut: int, max_frame: nat)
    requires
        sendable(f, max_frame),
        0 <= cut < frame_bytes(f).len(),
    ensures
        parse(frame_bytes(f).take(cut), max_frame) == Parsed::Incomplete,
{
    let b = frame_bytes(f).take(cut);
    let n = f.payload.len();
    law_identifiers_round_trip(f.ty, f.ty.id());
    if cut >= HEADER_LEN {
        assert(b[1] == f.ty.id());
        assert(be_number(b, 2) == n);
    }
}

/// Frames sent one after the other are decoded in their order; a torn frame at
/// the end is left out.
#[verifier::spinoff_prover]
#[verifier::rlimit(60)]
pub proof fn law_pipelined_frames_in_order(
    fs: Seq<FrameView>,
    torn: FrameView,
    cut: int,
    max_frame: nat,
)
    requires
        forall|i: int| 0 <= i < fs.len() ==> sendable(#[trigger] fs[i], max_frame),
        sendable(torn, max_frame),
        0 <= cut < frame_bytes(torn).len(),
    ensures
        frames_of(stream_of(fs) + frame_bytes(torn).take(cut), max_frame) == fs,
    decreases fs.len(),
{
    let tail = frame_bytes(torn).take(cut);
    let b = stream_of(fs) + tail;
    if fs.len() == 0 {
        assert(b =~= tail);
        law_partial_frame_waits(torn, cut, max_frame);
    } else {
        let rest = fs.skip(1);
        assert forall|i: int| 0 <= i < rest.len() implies sendable(
            #[trigger] rest[i],
            max_frame,
        ) by {
            assert(rest[i] == fs[i + 1]);
        }
        law_pipelined_frames_in_order(rest, torn, cut, max_frame);
        assert(b =~= frame_bytes(fs[0]) + (stream_of(rest) + tail));
        law_frame_round_trip(fs[0], stream_of(rest) + tail, max_frame);
        assert(seq![fs[0]] + rest =~= fs);
    }
}

/// `bytes::BytesMut`, a growing byte buffer that is read from its front.
#[verifier::external_type_specification]
#[verifier::external_body]
pub struct ExBytesMut(BytesMut);

/// The unread bytes of a buffer.
pub uninterp spec fn buffered(b: BytesMut) -> Seq<u8>;

/// `BytesMut::new` makes a buffer without bytes.
#[verifier::external_body]
pub(crate) fn buffer_new() -> (b: BytesMut)
    ensures
        buffered(b).len() == 0,
{
    BytesMut::new()
}

/// `BytesMut::from` a slice makes a buffer with the bytes of the slice.
#[verifier::external_body]
pub(crate) fn buffer_from(bytes: &[u8]) -> (b: BytesMut)
    ensures
        buffered(b) == bytes@,
{
    BytesMut::from(bytes)
}

/// `BytesMut::len` counts the unread bytes.
#[verifier::external_body]
pub(crate) fn buffer_len(b: &BytesMut) -> (n: usize)
    ensures
        n == buffered(*b).len(),
{
    b.len()
}

/// Indexing a `BytesMut` gives the unread byte at that place.
#[verifier::external_body]
fn buffer_byte(b: &BytesMut, i: usize) -> (x: u8)
    requires
        i < buffered(*b).len(),
    ensures
        x == buffered(*b)[i as int],
{
    b[i]
}

/// `Buf::advance` on a `BytesMut` drops bytes from the front.
#[verifier::external_body]
fn buffer_advance(b: &mut BytesMut, n: usize)
    requires
        n <= buffered(*old(b)).len(),
    ensures
        buffered(*final(b)) == buffered(*old(b)).skip(n as int),
{
    b.advance(n);
}

/// `BytesMut::split_to` takes the first bytes out of the buffer.
#[verifier::external_body]
pub(crate) fn buffer_split_to(b: &mut BytesMut, n: usize) -> (v: Vec<u8>)
    requires
        n <= buffered(*old(b)).len(),
    ensures
        v@ == buffered(*old(b)).take(n as int),
        buffered(*final(b)) == buffered(*old(b)).skip(n as int),
{
    b.split_to(n).to_vec()
}

/// `BufMut::put_u8` appends a byte; the buffer grows as needed, up to the
/// largest allocation that the machine has.
#[verifier::external_body]
fn buffer_put_u8(b: &mut BytesMut, x: u8)
    requires
        buffered(*old(b)).len() + 1 <= isize::MAX,
    ensures
        buffered(*final(b)) == buffered(*old(b)).push(x),
{
    b.put_u8(x);
}

/// `BufMut::put_u32` appends four bytes, the most significant first.
#[verifier::external_body]
fn buffer_put_u32(b: &mut BytesMut, x: u32)
    requires
        buffered(*old(b)).len() + 4 <= isize::MAX,
    ensures
        buffered(*final(b)) == buffered(*old(b)) + be_bytes(x as nat),
{
    b.put_u32(x);
}

/// `BytesMut::extend_from_slice` appends bytes.
#[verifier::external_body]
fn buffer_extend(b: &mut BytesMut, bytes: &[u8])
    requires
        buffered(*old(b)).len() + bytes@.len() <= isize::MAX,
    ensures
        buffered(*final(b)) == buffered(*old(b)) + bytes@,
{
    b.extend_from_slice(bytes);
}

/// Length-prefixed binary codec for frames.
#[derive(Debug, Clone, Copy, PartialEq, Eq, Structural)]
pub struct FrameCodec {
    pub max_frame: usize,
}

impl Default for FrameCodec {
    fn default() -> (c: Self)
        ensures
            c.max_frame == DEFAULT_MAX_FRAME,
    {
        FrameCodec { max_frame: DEFAULT_MAX_FRAME }
    }
}

impl FrameCodec {
    /// Codec with a custom maximum payload size.
    pub fn with_max_frame(max_frame: usize) -> (c: Self)
        ensures
            c.max_frame == max_frame,
    {
        FrameCodec { max_frame }
    }

    /// Takes the next frame out of `src`, if it is complete. The packet type is
    /// judged before the payload arrives, so garbage fails at once instead of
    /// waiting for a bogus length.
    pub fn decode(&mut self, src: &mut BytesMut) -> (r: Result<Option<Frame>, MessengerError>)
        ensures
            *final(self) == *old(self),
            match parse(buffered(*old(src)), old(self).max_frame as nat) {
                Parsed::Incomplete => r == Ok::<Option<Frame>, MessengerError>(None) && buffered(
                    *final(src),
                ) == buffered(*old(src)),
                Parsed::BadVersion(v) => r == Err::<Option<Frame>, MessengerError>(
                    MessengerError::UnsupportedVersion(v),
                ) && buffered(*final(src)) == buffered(*old(src)),
                Parsed::BadType(t) => r == Err::<Option<Frame>, MessengerError>(
                    MessengerError::UnknownPacketType(t),
                ) && buffered(*final(src)) == buffered(*old(src)),
                Parsed::TooLarge(n) => {
                    &&& r matches Err(MessengerError::FrameTooLarge { size, max })
                    &&& size == n
                    &&& max == old(self).max_frame
                    &&& buffered(*final(src)) == buffered(*old(src))
                },
                Parsed::Complete(f, n) => {
                    &&& r matches Ok(Some(frame))
                    &&& frame@ == f
                    &&& buffered(*final(src)) == buffered(*old(src)).skip(n as int)
                },
            },
    {
        let ghost b = buffered(*src);
        if buffer_len(src) < HEADER_LEN {
            return Ok(None);
        }
        let version: u8 = buffer_byte(src, 0);
        if version != PROTOCOL_VERSION {
            return Err(MessengerError::UnsupportedVersion(version));
        }
        let ty = match PacketType::try_from(buffer_byte(src, 1)) {
            Ok(t) => t,
            Err(e) => {
                return Err(e);
            },
        };
        let b0: u32 = buffer_byte(src, 2) as u32;
        let b1: u32 = buffer_byte(src, 3) as u32;
        let b2: u32 = buffer_byte(src, 4) as u32;
        let b3: u32 = buffer_byte(src, 5) as u32;
        let number: u32 = b0 * 16_777_216 + b1 * 65_536 + b2 * 256 + b3;
        let len: usize = number as usize;
        assert(len == be_number(b, 2));
        if len > self.max_frame {
            return Err(MessengerError::FrameTooLarge { size: len, max: self.max_frame });
        }
        if buffer_len(src) - HEADER_LEN < len {
            return Ok(None);
        }
        buffer_advance(src, HEADER_LEN);
        let payload = buffer_split_to(src, len);
        proof {
            assert(payload@ =~= b.subrange(HEADER_LEN as int, HEADER_LEN + len as int));
            assert(buffered(*src) =~= b.skip(HEADER_LEN + len as int));
        }
        Ok(Some(Frame { ty, payload }))
    }

    /// Appends a frame to `dst`.
    pub fn encode(&mut self, frame: &Frame, dst: &mut BytesMut) -> (r: Result<(), MessengerError>)
        requires
            buffered(*old(dst)).len() + HEADER_LEN + frame.payload@.len() <= isize::MAX,
        ensures
            *final(self) == *old(self),
            if frame.payload@.len() > old(self).max_frame {
                &&& r matches Err(MessengerError::FrameTooLarge { size, max })
                &&& size == frame.payload@.len()
                &&& max == old(self).max_frame
                &&& buffered(*final(dst)) == buffered(*old(dst))
            } else {
                &&& r is Ok
                &&& buffered(*final(dst)) == buffered(*old(dst)) + frame_bytes(frame@)
            },
    {
        let len: usize = frame.payload.len();
        if len > self.max_frame {
            return Err(MessengerError::FrameTooLarge { size: len, max: self.max_frame });
        }
        let id: u8 = frame.ty.wire_id();
        let length: u32 = (len as u64 % 4_294_967_296) as u32;
        let ghost was = buffered(*dst);
        buffer_put_u8(dst, PROTOCOL_VERSION);
        buffer_put_u8(dst, id);
        buffer_put_u32(dst, length);
        buffer_extend(dst, frame.payload.as_slice());
        assert(buffered(*dst) =~= was + frame_bytes(frame@));
        Ok(())
    }
}

/// The frames by their views.
pub open spec fn frame_views(v: Seq<Frame>) -> Seq<FrameView> {
    Seq::new(v.len(), |i: int| v[i]@)
}

/// All complete frames at the start of some bytes. What follows the last of
/// them, a torn frame or garbage, is left out.
pub fn split_frames(bytes: &[u8]) -> (v: Vec<Frame>)
    ensures
        frame_views(v@) == frames_of(bytes@, DEFAULT_MAX_FRAME as nat),
{
    let mut codec = FrameCodec::default();
    let mut buf = buffer_from(bytes);
    let mut out: Vec<Frame> = Vec::new();
    let ghost max = DEFAULT_MAX_FRAME as nat;
    let mut more: bool = true;
    assert(frame_views(out@) + frames_of(buffered(buf), max) =~= frames_of(bytes@, max));
    while more
        invariant
            max == DEFAULT_MAX_FRAME as nat,
            codec.max_frame == DEFAULT_MAX_FRAME,
            frame_views(out@) + frames_of(buffered(buf), max) == frames_of(bytes@, max),
            !more ==> frames_of(buffered(buf), max).len() == 0,
        decreases buffered(buf).len() + (if more {
            1nat
        } else {
            0nat
        }),
    {
        let ghost was = out@;
        let ghost unread = buffered(buf);
        match codec.decode(&mut buf) {
            Ok(Some(frame)) => {
                out.push(frame);
                assert(frame_views(out@) =~= frame_views(was) + seq![frame@]);
                assert(frames_of(unread, max) =~= seq![frame@] + frames_of(buffered(buf), max));
                assert(frame_views(out@) + frames_of(buffered(buf), max) =~= frame_views(was)
                    + frames_of(unread, max));
            },
            _ => {
                more = false;
            },
        }
    }
    assert(frame_views(out@) =~= frames_of(bytes@, max));
    out
}

} // verus!
