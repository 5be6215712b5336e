//! A host's session: commands become packets, packets settle what commands
//! wait for and become events. Reply channels are known by number; the caller
//! keeps the channels themselves.

use crate::ffi::error::FfiError;
use crate::ffi::events::{
    event_of, opt_model, packet_to_event, DownloadedMediaInfo, DownloadedMediaInfoView,
    KeyBundleInfo, KeyBundleInfoView, LaneEvent, LaneEventView,
};
use crate::ffi::{MEDIA_CHUNK_SIZE, PING_INTERVAL_SECS, VERSION};
use crate::messenger::client::MessengerClient;
use crate::messenger::codec::{Packet, PacketView};
use crate::messenger::digest::{sha256_hex, sha256_of};
use crate::messenger::error::MessengerError;
use crate::messenger::media::{
    as_packets, chunk_of, chunks_from, digest_matches, lesser, MEDIA_CHUNK,
};
use crate::messenger::wire::{
    ChatMessage, ChatMessageView, DeliveredAck, DeliveredAckView, FetchKeys, FetchKeysView,
    GroupEvent, GroupEventView, GroupMessage, GroupMessageView, GroupOp, MediaAckView,
    MediaChunk, MediaChunkView, MediaFetch, MediaFetchView, MediaStart, MediaStartView, Ping,
    PingView, Presence, PresenceView, PublishKeys, PublishKeysView, ReadAck, ReadAckView,
    RemoveDeviceKeys, RemoveDeviceKeysView, SubscribePresence, SubscribePresenceView,
};
use crate::messenger::ws::{dial_addr, url_parsed, Dial};
use crate::text::{
    clone_strings, concat2, concat3, decimal, decimal_string, hex_text, same, same_but_case,
    same_ignoring_case, strs,
};
use vstd::prelude::*;

verus! {

/// How a session is carried.
#[derive(Debug, Clone, Copy, PartialEq, Eq, Structural)]
pub enum Transport {
    Tcp,
    WebSocket,
}

/// Connect and login options.
#[derive(Debug, PartialEq, Eq)]
pub struct ConnectOptions {
    pub host: String,
    pub port: u16,
    pub use_tls: bool,
    pub user_id: String,
    pub device_id: String,
    pub auth_token: String,
    pub client_version: String,
    pub resume_after_seq: u64,
    /// Seconds between automatic pings; zero disables them.
    pub ping_interval_secs: u64,
    /// Whether the host connects again after a lost connection, and how often.
    pub auto_reconnect: bool,
    pub max_reconnect_attempts: u32,
    pub transport: Transport,
    /// Where to connect to over WebSocket, in place of host and port.
    pub ws_url: String,
    /// A file with the certificates to trust, in place of the system's.
    pub ca_pem_path: Option<String>,
}

impl Default for ConnectOptions {
    fn default() -> (o: Self)
        ensures
            o.host@ == "127.0.0.1"@,
            o.port == 9000,
            !o.use_tls,
            o.user_id@.len() == 0,
            o.device_id@.len() == 0,
            o.auth_token@.len() == 0,
            o.client_version@ == "ffi-"@ + VERSION@,
            o.resume_after_seq == 0,
            o.ping_interval_secs == PING_INTERVAL_SECS,
            !o.auto_reconnect,
            o.max_reconnect_attempts == 0,
            o.transport == Transport::Tcp,
            o.ws_url@.len() == 0,
            o.ca_pem_path is None,
    {
        ConnectOptions {
            host: "127.0.0.1".to_string(),
            port: 9000,
            use_tls: false,
            user_id: String::new(),
            device_id: String::new(),
            auth_token: String::new(),
            client_version: concat2("ffi-", VERSION),
            resume_after_seq: 0,
            ping_interval_secs: PING_INTERVAL_SECS,
            auto_reconnect: false,
            max_reconnect_attempts: 0,
            transport: Transport::Tcp,
            ws_url: String::new(),
            ca_pem_path: None,
        }
    }
}

impl ConnectOptions {
    /// Refuses options without a user or a device.
    pub fn check(&self) -> (r: Result<(), FfiError>)
        ensures
            r is Ok <==> self.user_id@.len() > 0 && self.device_id@.len() > 0,
            r matches Err(e) ==> e matches FfiError::InvalidArgument(m) && m@
                == "user_id and device_id required"@,
    {
        if self.user_id.as_str().is_empty() || self.device_id.as_str().is_empty() {
            Err(FfiError::InvalidArgument("user_id and device_id required".to_string()))
        } else {
            Ok(())
        }
    }

    /// Where to connect to: host and port, over TLS if that is asked for; or what
    /// the URL says, which has to be one.
    pub fn dial(&self) -> (r: Result<Dial, FfiError>)
        ensures
            match self.transport {
                Transport::Tcp => {
                    &&& r matches Ok(d)
                    &&& d.addr@ == self.host@ + ":"@ + decimal(self.port as nat)
                    &&& d.use_tls == self.use_tls
                },
                Transport::WebSocket => match url_parsed(self.ws_url@) {
                    Ok(parts) => {
                        &&& r matches Ok(d)
                        &&& d.addr@ == dial_addr(parts)
                        &&& d.use_tls == (parts.scheme == "wss"@ || self.use_tls)
                    },
                    Err(e) => {
                        &&& r matches Err(FfiError::Messenger(MessengerError::Protocol(m)))
                        &&& m@ == "bad ws url: "@ + e
                    },
                },
            },
    {
        match self.transport {
            Transport::Tcp => Ok(
                Dial {
                    addr: concat3(
                        self.host.as_str(),
                        ":",
                        decimal_string(self.port as u64).as_str(),
                    ),
                    use_tls: self.use_tls,
                },
            ),
            Transport::WebSocket => match MessengerClient::connect_ws(
                self.ws_url.as_str(),
                self.use_tls,
            ) {
                Ok(d) => Ok(d),
                Err(e) => Err(FfiError::Messenger(e)),
            },
        }
    }

    /// The client version to announce: the given one, or one made of a prefix
    /// and the library's version.
    pub fn client_version_or(given: String, prefix: &str) -> (s: String)
        ensures
            given@.len() > 0 ==> s == given,
            given@.len() == 0 ==> s@ == prefix@ + VERSION@,
    {
        if given.as_str().is_empty() {
            concat2(prefix, VERSION)
        } else {
            given
        }
    }
}

/// Settings of a host that speaks through generated bindings.
#[derive(Debug, PartialEq, Eq)]
pub struct ConnectConfig {
    pub host: String,
    pub port: u16,
    pub use_tls: bool,
    pub user_id: String,
    pub device_id: String,
    pub auth_token: String,
    /// Empty stands for the version of the bindings.
    pub client_version: String,
    pub resume_after_seq: u64,
    pub ping_interval_secs: u64,
    /// Whether the host connects again after a lost connection.
    pub auto_reconnect: bool,
    pub max_reconnect_attempts: u32,
    /// Whether the host connects to `ws_url` in place of the address.
    pub use_websocket: bool,
    pub ws_url: String,
}

impl ConnectConfig {
    /// The options of the session.
    pub fn into_options(self) -> (o: ConnectOptions)
        ensures
            options_of(self, o),
    {
        ConnectOptions {
            host: self.host,
            port: self.port,
            use_tls: self.use_tls,
            user_id: self.user_id,
            device_id: self.device_id,
            auth_token: self.auth_token,
            client_version: ConnectOptions::client_version_or(self.client_version, "uniffi-"),
            resume_after_seq: self.resume_after_seq,
            ping_interval_secs: self.ping_interval_secs,
            auto_reconnect: self.auto_reconnect,
            max_reconnect_attempts: self.max_reconnect_attempts,
            transport: if self.use_websocket {
                Transport::WebSocket
            } else {
                Transport::Tcp
            },
            ws_url: self.ws_url,
            ca_pem_path: None,
        }
    }
}

/// What a command waits for. `id` is the number of its reply channel.
pub enum Waiter {
    Pong { id: u64, seq: u64 },
    ServerAck { id: u64, message_id: String },
    GroupEvent { id: u64, group_id: String },
    GroupServerAck { id: u64, message_id: String },
    KeyBundle { id: u64, user_id: String },
    /// An upload: what is left to send, and from where.
    MediaUpload { id: u64, media_id: String, remaining: Vec<u8>, offset: u64, after_credit: bool },
    /// A download: name, type and digest once announced, and the bytes so far.
    MediaDownload {
        id: u64,
        media_id: String,
        meta: Option<(String, String, String)>,
        chunks: Vec<u8>,
    },
}

/// What a [`Waiter`] holds.
#[verifier::ext_equal]
pub enum WaiterView {
    Pong { id: u64, seq: u64 },
    ServerAck { id: u64, message_id: Seq<char> },
    GroupEvent { id: u64, group_id: Seq<char> },
    GroupServerAck { id: u64, message_id: Seq<char> },
    KeyBundle { id: u64, user_id: Seq<char> },
    MediaUpload {
        id: u64,
        media_id: Seq<char>,
        remaining: Seq<u8>,
        offset: u64,
        after_credit: bool,
    },
    MediaDownload {
        id: u64,
        media_id: Seq<char>,
        meta: Option<(Seq<char>, Seq<char>, Seq<char>)>,
        chunks: Seq<u8>,
    },
}

impl View for Waiter {
    type V = WaiterView;

    open spec fn view(&self) -> WaiterView {
        match self {
            Waiter::Pong { id, seq } => WaiterView::Pong { id: *id, seq: *seq },
            Waiter::ServerAck { id, message_id } => WaiterView::ServerAck {
                id: *id,
                message_id: message_id@,
            },
            Waiter::GroupEvent { id, group_id } => WaiterView::GroupEvent {
                id: *id,
                group_id: group_id@,
            },
            Waiter::GroupServerAck { id, message_id } => WaiterView::GroupServerAck {
                id: *id,
                message_id: message_id@,
            },
            Waiter::KeyBundle { id, user_id } => WaiterView::KeyBundle {
                id: *id,
                user_id: user_id@,
            },
            Waiter::MediaUpload { id, media_id, remaining, offset, after_credit } =>
                WaiterView::MediaUpload {
                id: *id,
                media_id: media_id@,
                remaining: remaining@,
                offset: *offset,
                after_credit: *after_credit,
            },
            Waiter::MediaDownload { id, media_id, meta, chunks } => WaiterView::MediaDownload {
                id: *id,
                media_id: media_id@,
                meta: match meta {
                    Some((a, b, c)) => Some((a@, b@, c@)),
                    None => None,
                },
                chunks: chunks@,
            },
        }
    }
}

impl WaiterView {
    /// The number of the reply channel.
    pub open spec fn channel(self) -> u64 {
        match self {
            WaiterView::Pong { id, .. } => id,
            WaiterView::ServerAck { id, .. } => id,
            WaiterView::GroupEvent { id, .. } => id,
            WaiterView::GroupServerAck { id, .. } => id,
            WaiterView::KeyBundle { id, .. } => id,
            WaiterView::MediaUpload { id, .. } => id,
            WaiterView::MediaDownload { id, .. } => id,
        }
    }

    /// An upload's end can be counted.
    pub open spec fn wf(self) -> bool {
        self matches WaiterView::MediaUpload { remaining, offset, .. } ==> offset
            + remaining.len() <= u64::MAX
    }
}

/// What a command is answered with.
pub enum Answer {
    Done,
    Number(u64),
    Bundle(KeyBundleInfo),
    Media(DownloadedMediaInfo),
    Failed(FfiError),
}

/// What an [`Answer`] holds.
#[verifier::ext_equal]
pub enum AnswerView {
    Done,
    Number(u64),
    Bundle(KeyBundleInfoView),
    Media(DownloadedMediaInfoView),
    /// The server reported a failure.
    Protocol(Seq<char>),
    /// A transfer failed.
    MediaFailed(Seq<char>),
    /// The session failed.
    Internal(Seq<char>),
}

/// Whether an answer is the one that was described.
pub open spec fn is_answer(a: Answer, v: AnswerView) -> bool {
    match v {
        AnswerView::Done => a is Done,
        AnswerView::Number(n) => a == Answer::Number(n),
        AnswerView::Bundle(b) => a matches Answer::Bundle(k) && k@ == b,
        AnswerView::Media(m) => a matches Answer::Media(d) && d@ == m,
        AnswerView::Protocol(t) => a matches Answer::Failed(
            FfiError::Messenger(MessengerError::Protocol(m)),
        ) && m@ == t,
        AnswerView::MediaFailed(t) => a matches Answer::Failed(
            FfiError::Messenger(MessengerError::Media(m)),
        ) && m@ == t,
        AnswerView::Internal(t) => a matches Answer::Failed(FfiError::Internal(m)) && m@ == t,
    }
}

/// Whether a packet concerns what a command waits for. An error concerns every
/// command but pings and key requests.
pub open spec fn waits_for(w: WaiterView, p: PacketView) -> bool {
    match w {
        WaiterView::Pong { seq, .. } => p matches PacketView::Pong(q) && q.seq == seq,
        WaiterView::ServerAck { message_id, .. } => p is Error || (p matches PacketView::ServerAck(a)
            && a.message_id == message_id),
        WaiterView::GroupServerAck { message_id, .. } => p is Error || (
        p matches PacketView::ServerAck(a) && a.message_id == message_id),
        WaiterView::GroupEvent { group_id, .. } => p is Error || (p matches PacketView::GroupEvent(e)
            && e.group_id == group_id),
        WaiterView::KeyBundle { user_id, .. } => p matches PacketView::KeyBundle(k) && k.user_id
            == user_id,
        WaiterView::MediaUpload { media_id, .. } => p is Error || (p matches PacketView::MediaAck(a)
            && a.media_id == media_id),
        WaiterView::MediaDownload { media_id, .. } => p is Error || (
        p matches PacketView::MediaStart(s) && s.media_id == media_id) || (
        p matches PacketView::MediaChunk(c) && c.media_id == media_id),
    }
}

/// What becomes of a command once a packet that concerns it came in.
#[verifier::ext_equal]
pub struct Settled {
    /// What it still waits for.
    pub keep: Option<WaiterView>,
    /// What it is answered with.
    pub answer: Option<AnswerView>,
    /// What is sent next.
    pub send: Option<PacketView>,
}

/// The command is answered and waits no longer.
pub open spec fn finished(a: AnswerView) -> Settled {
    Settled { keep: None, answer: Some(a), send: None }
}

/// A bundle as hosts see it.
pub open spec fn bundle_info(k: crate::messenger::wire::KeyBundleView) -> KeyBundleInfoView {
    KeyBundleInfoView {
        user_id: k.user_id,
        device_id: k.device_id,
        identity_key: k.identity_key,
        one_time_key: k.one_time_key,
        found: k.found,
        device_ids: k.device_ids,
    }
}

/// The bytes of the next chunk of an upload.
pub open spec fn next_len(remaining: Seq<u8>) -> nat {
    lesser(MEDIA_CHUNK_SIZE as nat, remaining.len())
}

/// What becomes of a command once a packet that concerns it came in.
pub open spec fn settle(w: WaiterView, p: PacketView) -> Settled {
    match p {
        PacketView::Error(e) => finished(AnswerView::Protocol(e.detail)),
        PacketView::Pong(_) => finished(AnswerView::Done),
        PacketView::ServerAck(a) => if w is GroupServerAck {
            finished(AnswerView::Done)
        } else {
            finished(AnswerView::Number(a.seq))
        },
        PacketView::GroupEvent(e) => finished(AnswerView::Number(e.version)),
        PacketView::KeyBundle(k) => finished(AnswerView::Bundle(bundle_info(k))),
        PacketView::MediaAck(a) => match w {
            WaiterView::MediaUpload { id, media_id, remaining, offset, .. } => if !a.ok {
                finished(AnswerView::MediaFailed(a.error))
            } else if a.complete {
                finished(AnswerView::Number(a.received_bytes))
            } else if remaining.len() == 0 {
                Settled {
                    keep: Some(
                        WaiterView::MediaUpload {
                            id,
                            media_id,
                            remaining,
                            offset,
                            after_credit: true,
                        },
                    ),
                    answer: None,
                    send: None,
                }
            } else {
                let n = next_len(remaining);
                Settled {
                    keep: Some(
                        WaiterView::MediaUpload {
                            id,
                            media_id,
                            remaining: remaining.skip(n as int),
                            offset: (offset + n) as u64,
                            after_credit: true,
                        },
                    ),
                    answer: None,
                    send: Some(
                        PacketView::MediaChunk(
                            MediaChunkView {
                                media_id,
                                offset,
                                data: remaining.take(n as int),
                                last: n == remaining.len(),
                            },
                        ),
                    ),
                }
            },
            _ => Settled { keep: Some(w), answer: None, send: None },
        },
        PacketView::MediaStart(s) => match w {
            WaiterView::MediaDownload { id, media_id, chunks, .. } => Settled {
                keep: Some(
                    WaiterView::MediaDownload {
                        id,
                        media_id,
                        meta: Some((s.file_name, s.mime_type, s.sha256)),
                        chunks,
                    },
                ),
                answer: None,
                send: None,
            },
            _ => Settled { keep: Some(w), answer: None, send: None },
        },
        PacketView::MediaChunk(c) => match w {
            WaiterView::MediaDownload { id, media_id, meta, chunks } => {
                let data = chunks + c.data;
                let (file_name, mime_type, sha256) = match meta {
                    Some(m) => m,
                    None => (Seq::empty(), Seq::empty(), Seq::empty()),
                };
                if !c.last {
                    Settled {
                        keep: Some(
                            WaiterView::MediaDownload { id, media_id, meta, chunks: data },
                        ),
                        answer: None,
                        send: None,
                    }
                } else if digest_matches(sha256, data) {
                    finished(
                        AnswerView::Media(
                            DownloadedMediaInfoView { file_name, mime_type, sha256, data },
                        ),
                    )
                } else {
                    finished(AnswerView::MediaFailed("downloaded blob failed sha256 check"@))
                }
            },
            _ => Settled { keep: Some(w), answer: None, send: None },
        },
        _ => Settled { keep: Some(w), answer: None, send: None },
    }
}

/// Whether a packet concerns what a command waits for.
fn concerns(w: &Waiter, pkt: &Packet) -> (r: bool)
    ensures
        r == waits_for(w@, pkt@),
{
    match w {
        Waiter::Pong { seq, .. } => match pkt {
            Packet::Pong(p) => p.seq == *seq,
            _ => false,
        },
        Waiter::ServerAck { message_id, .. } => match pkt {
            Packet::Error(_) => true,
            Packet::ServerAck(a) => same(a.message_id.as_str(), message_id.as_str()),
            _ => false,
        },
        Waiter::GroupServerAck { message_id, .. } => match pkt {
            Packet::Error(_) => true,
            Packet::ServerAck(a) => same(a.message_id.as_str(), message_id.as_str()),
            _ => false,
        },
        Waiter::GroupEvent { group_id, .. } => match pkt {
            Packet::Error(_) => true,
            Packet::GroupEvent(e) => same(e.group_id.as_str(), group_id.as_str()),
            _ => false,
        },
        Waiter::KeyBundle { user_id, .. } => match pkt {
            Packet::KeyBundle(k) => same(k.user_id.as_str(), user_id.as_str()),
            _ => false,
        },
        Waiter::MediaUpload { media_id, .. } => match pkt {
            Packet::Error(_) => true,
            Packet::MediaAck(a) => same(a.media_id.as_str(), media_id.as_str()),
            _ => false,
        },
        Waiter::MediaDownload { media_id, .. } => match pkt {
            Packet::Error(_) => true,
            Packet::MediaStart(s) => same(s.media_id.as_str(), media_id.as_str()),
            Packet::MediaChunk(c) => same(c.media_id.as_str(), media_id.as_str()),
            _ => false,
        },
    }
}

/// Results of settling a command.
pub struct SettledStep {
    pub keep: Option<Waiter>,
    pub answer: Option<Answer>,
    pub send: Option<Packet>,
}

/// Whether a step is the one that was described.
pub open spec fn is_settled(s: SettledStep, v: Settled) -> bool {
    &&& match v.keep {
        Some(w) => s.keep matches Some(k) && k@ == w,
        None => s.keep is None,
    }
    &&& match v.answer {
        Some(a) => s.answer matches Some(x) && is_answer(x, a),
        None => s.answer is None,
    }
    &&& match v.send {
        Some(p) => s.send matches Some(q) && q@ == p,
        None => s.send is None,
    }
}

fn done(answer: Answer) -> (s: SettledStep)
    ensures
        s.keep is None,
        s.answer == Some(answer),
        s.send is None,
{
    SettledStep { keep: None, answer: Some(answer), send: None }
}

fn stay(w: Waiter) -> (s: SettledStep)
    ensures
        s.keep == Some(w),
        s.answer is None,
        s.send is None,
{
    SettledStep { keep: Some(w), answer: None, send: None }
}

/// Takes bytes off the front.
fn take_front(v: Vec<u8>, n: usize) -> (r: (Vec<u8>, Vec<u8>))
    requires
        n <= v@.len(),
    ensures
        (r.0)@ == v@.take(n as int),
        (r.1)@ == v@.skip(n as int),
{
    let mut head = v;
    let tail = head.split_off(n);
    assert(head@ =~= v@.take(n as int));
    assert(tail@ =~= v@.skip(n as int));
    (head, tail)
}

/// Settles a command with a packet that concerns it.
fn settle_waiter(w: Waiter, pkt: &Packet) -> (s: SettledStep)
    requires
        waits_for(w@, pkt@),
        w@.wf(),
    ensures
        is_settled(s, settle(w@, pkt@)),
        s.keep matches Some(k) ==> k@.wf() && k@.channel() == w@.channel(),
{
    match pkt {
        Packet::Error(e) => done(
            Answer::Failed(FfiError::Messenger(MessengerError::Protocol(e.detail.clone()))),
        ),
        Packet::Pong(_) => done(Answer::Done),
        Packet::ServerAck(a) => match w {
            Waiter::GroupServerAck { .. } => done(Answer::Done),
            _ => done(Answer::Number(a.seq)),
        },
        Packet::GroupEvent(e) => done(Answer::Number(e.version)),
        Packet::KeyBundle(k) => {
            let info = KeyBundleInfo {
                user_id: k.user_id.clone(),
                device_id: k.device_id.clone(),
                identity_key: k.identity_key.clone(),
                one_time_key: k.one_time_key.clone(),
                found: k.found,
                device_ids: clone_strings(&k.device_ids),
            };
            assert(info@ =~= bundle_info(k@));
            done(Answer::Bundle(info))
        },
        Packet::MediaAck(a) => match w {
            Waiter::MediaUpload { id, media_id, remaining, offset, after_credit } => {
                if !a.ok {
                    return done(
                        Answer::Failed(
                            FfiError::Messenger(MessengerError::Media(a.error.clone())),
                        ),
                    );
                }
                if a.complete {
                    return done(Answer::Number(a.received_bytes));
                }
                if remaining.len() == 0 {
                    return stay(
                        Waiter::MediaUpload {
                            id,
                            media_id,
                            remaining,
                            offset,
                            after_credit: true,
                        },
                    );
                }
                let left: usize = remaining.len();
                let n: usize = if left > MEDIA_CHUNK_SIZE as usize {
                    MEDIA_CHUNK_SIZE as usize
                } else {
                    left
                };
                let (data, rest) = take_front(remaining, n);
                let chunk = MediaChunk {
                    media_id: media_id.clone(),
                    offset,
                    data,
                    last: n == left,
                };
                let next = Waiter::MediaUpload {
                    id,
                    media_id,
                    remaining: rest,
                    offset: offset + n as u64,
                    after_credit: true,
                };
                SettledStep { keep: Some(next), answer: None, send: Some(Packet::MediaChunk(chunk)) }
            },
            other => stay(other),
        },
        Packet::MediaStart(m) => match w {
            Waiter::MediaDownload { id, media_id, meta, chunks } => stay(
                Waiter::MediaDownload {
                    id,
                    media_id,
                    meta: Some((m.file_name.clone(), m.mime_type.clone(), m.sha256.clone())),
                    chunks,
                },
            ),
            other => stay(other),
        },
        Packet::MediaChunk(c) => match w {
            Waiter::MediaDownload { id, media_id, meta, chunks } => {
                let mut chunks = chunks;
                let ghost was = chunks@;
                chunks.extend_from_slice(c.data.as_slice());
                assert(chunks@ =~= was + c@.data);
                if !c.last {
                    return stay(Waiter::MediaDownload { id, media_id, meta, chunks });
                }
                let (file_name, mime_type, sha256): (String, String, String) = match meta {
                    Some(m) => m,
                    None => (String::new(), String::new(), String::new()),
                };
                if !sha256.as_str().is_empty() {
                    let got = sha256_hex(chunks.as_slice());
                    if !same_ignoring_case(got.as_str(), sha256.as_str()) {
                        return done(
                            Answer::Failed(
                                FfiError::Messenger(
                                    MessengerError::Media(
                                        "downloaded blob failed sha256 check".to_string(),
                                    ),
                                ),
                            ),
                        );
                    }
                }
                done(
                    Answer::Media(
                        DownloadedMediaInfo { file_name, mime_type, sha256, data: chunks },
                    ),
                )
            },
            other => stay(other),
        },
        _ => stay(w),
    }
}

/// The waiters by their views.
pub open spec fn waiter_views(v: Seq<Waiter>) -> Seq<WaiterView> {
    Seq::new(v.len(), |i: int| v[i]@)
}

/// The position of the first waiter that a packet concerns; the number of
/// waiters where it concerns none.
pub open spec fn first_concerned(ws: Seq<WaiterView>, p: PacketView) -> int
    decreases ws.len(),
{
    if ws.len() == 0 || waits_for(ws[0], p) {
        0
    } else {
        1 + first_concerned(ws.skip(1), p)
    }
}

/// The first concerned waiter is found by looking from the front.
proof fn lemma_first_concerned(ws: Seq<WaiterView>, p: PacketView, i: int)
    requires
        0 <= i <= ws.len(),
        forall|j: int| 0 <= j < i ==> !waits_for(#[trigger] ws[j], p),
        i < ws.len() ==> waits_for(ws[i], p),
    ensures
        first_concerned(ws, p) == i,
    decreases ws.len(),
{
    if ws.len() > 0 && i > 0 {
        assert(!waits_for(ws[0], p));
        let rest = ws.skip(1);
        assert forall|j: int| 0 <= j < i - 1 implies !waits_for(#[trigger] rest[j], p) by {
            assert(rest[j] == ws[j + 1]);
        }
        lemma_first_concerned(rest, p, i - 1);
    }
}

/// The waiters once a packet settled the one at `i`.
pub open spec fn after_settling(ws: Seq<WaiterView>, i: int, keep: Option<WaiterView>) -> Seq<
    WaiterView,
> {
    match keep {
        Some(w) => ws.update(i, w),
        None => ws.remove(i),
    }
}

/// What a packet led to.
pub struct Handled {
    /// The reply channel to answer, and the answer.
    pub answer: Option<(u64, Answer)>,
    /// The packet to send next.
    pub send: Option<Packet>,
    /// The event for the host.
    pub event: Option<LaneEvent>,
}

/// The event that the host sees of a packet: pongs are not shown.
pub open spec fn visible_event(p: PacketView) -> Option<LaneEventView> {
    if p is Pong {
        None
    } else {
        event_of(p)
    }
}

/// A command of the host.
pub enum Cmd {
    Ping,
    SendChat { to_user: String, message_id: String, body: Vec<u8>, media_id: String },
    AckDelivered { message_id: String },
    AckRead { message_id: String },
    SubscribePresence { contact_ids: Vec<String> },
    SendPresence { kind: i32 },
    CreateGroup { group_id: String },
    AddMember { group_id: String, user: String },
    RemoveMember { group_id: String, user: String },
    LeaveGroup { group_id: String },
    SendGroup { group_id: String, message_id: String, body: Vec<u8> },
    UploadMedia { media_id: String, file_name: String, mime_type: String, data: Vec<u8> },
    FetchMedia { media_id: String },
    PublishE2ee { device_id: String, identity_key: String, one_time_keys: Vec<String> },
    FetchKeyBundle { user_id: String, device_id: String },
    RemoveDeviceKeys { device_id: String },
    SendEncryptedChat { to_user: String, message_id: String, ciphertext: Vec<u8> },
    SendEncryptedGroup { group_id: String, message_id: String, ciphertext: Vec<u8> },
    Close,
}

/// A chat message of a user.
pub open spec fn chat_packet(
    user: Seq<char>,
    to_user: Seq<char>,
    message_id: Seq<char>,
    body: Seq<u8>,
    media_id: Seq<char>,
    now: u64,
) -> PacketView {
    PacketView::ChatMessage(
        ChatMessageView {
            message_id,
            from_user: user,
            to_user,
            body,
            sent_at: now,
            seq: 0,
            media_id,
        },
    )
}

/// A group message of a user.
pub open spec fn group_packet(
    user: Seq<char>,
    group_id: Seq<char>,
    message_id: Seq<char>,
    body: Seq<u8>,
    now: u64,
) -> PacketView {
    PacketView::GroupMessage(
        GroupMessageView {
            message_id,
            from_user: user,
            group_id,
            body,
            sent_at: now,
            media_id: Seq::empty(),
            seq: 0,
            to_user: Seq::empty(),
        },
    )
}

/// A group change requested by a user.
pub open spec fn op_packet(
    user: Seq<char>,
    group_id: Seq<char>,
    op: GroupOp,
    subject: Seq<char>,
) -> PacketView {
    PacketView::GroupEvent(
        GroupEventView {
            group_id,
            op: op.number(),
            actor_user: user,
            subject_user: subject,
            version: 0,
            to_user: Seq::empty(),
        },
    )
}

/// The packet that a command sends, and what it then waits for. One that waits
/// for nothing is answered once the packet is sent. Closing sends nothing.
pub open spec fn planned(
    user: Seq<char>,
    ping_seq: u64,
    id: u64,
    cmd: Cmd,
    now: u64,
) -> Option<(PacketView, Option<WaiterView>)> {
    match cmd {
        Cmd::Close => None,
        Cmd::Ping => Some(
            (
                PacketView::Ping(PingView { seq: (ping_seq + 1) as u64 }),
                Some(WaiterView::Pong { id, seq: (ping_seq + 1) as u64 }),
            ),
        ),
        Cmd::SendChat { to_user, message_id, body, media_id } => Some(
            (
                chat_packet(user, to_user@, message_id@, body@, media_id@, now),
                Some(WaiterView::ServerAck { id, message_id: message_id@ }),
            ),
        ),
        Cmd::AckDelivered { message_id } => Some(
            (
                PacketView::DeliveredAck(
                    DeliveredAckView { message_id: message_id@, from_user: user },
                ),
                None,
            ),
        ),
        Cmd::AckRead { message_id } => Some(
            (
                PacketView::ReadAck(ReadAckView { message_id: message_id@, from_user: user }),
                None,
            ),
        ),
        Cmd::SubscribePresence { contact_ids } => Some(
            (
                PacketView::SubscribePresence(
                    SubscribePresenceView { user_id: user, contact_ids: strs(contact_ids@) },
                ),
                None,
            ),
        ),
        Cmd::SendPresence { kind } => Some(
            (PacketView::Presence(PresenceView { user_id: user, kind, last_seen: now }), None),
        ),
        Cmd::CreateGroup { group_id } => Some(
            (
                op_packet(user, group_id@, GroupOp::Create, Seq::empty()),
                Some(WaiterView::GroupEvent { id, group_id: group_id@ }),
            ),
        ),
        Cmd::AddMember { group_id, user: subject } => Some(
            (
                op_packet(user, group_id@, GroupOp::AddMember, subject@),
                Some(WaiterView::GroupEvent { id, group_id: group_id@ }),
            ),
        ),
        Cmd::RemoveMember { group_id, user: subject } => Some(
            (
                op_packet(user, group_id@, GroupOp::RemoveMember, subject@),
                Some(WaiterView::GroupEvent { id, group_id: group_id@ }),
            ),
        ),
        Cmd::LeaveGroup { group_id } => Some(
            (
                op_packet(user, group_id@, GroupOp::Leave, Seq::empty()),
                Some(WaiterView::GroupEvent { id, group_id: group_id@ }),
            ),
        ),
        Cmd::SendGroup { group_id, message_id, body } => Some(
            (
                group_packet(user, group_id@, message_id@, body@, now),
                Some(WaiterView::GroupServerAck { id, message_id: message_id@ }),
            ),
        ),
        Cmd::UploadMedia { media_id, file_name, mime_type, data } => Some(
            (
                PacketView::MediaStart(
                    MediaStartView {
                        media_id: media_id@,
                        file_name: file_name@,
                        mime_type: mime_type@,
                        total_size: data@.len() as u64,
                        sha256: hex_text(sha256_of(data@)),
                    },
                ),
                Some(
                    WaiterView::MediaUpload {
                        id,
                        media_id: media_id@,
                        remaining: data@,
                        offset: 0,
                        after_credit: false,
                    },
                ),
            ),
        ),
        Cmd::FetchMedia { media_id } => Some(
            (
                PacketView::MediaFetch(MediaFetchView { media_id: media_id@, from_offset: 0 }),
                Some(
                    WaiterView::MediaDownload {
                        id,
                        media_id: media_id@,
                        meta: None,
                        chunks: Seq::empty(),
                    },
                ),
            ),
        ),
        Cmd::PublishE2ee { device_id, identity_key, one_time_keys } => Some(
            (
                PacketView::PublishKeys(
                    PublishKeysView {
                        user_id: user,
                        device_id: device_id@,
                        identity_key: identity_key@,
                        one_time_keys: strs(one_time_keys@),
                    },
                ),
                None,
            ),
        ),
        Cmd::FetchKeyBundle { user_id, device_id } => Some(
            (
                PacketView::FetchKeys(
                    FetchKeysView { user_id: user_id@, device_id: device_id@, for_user: user },
                ),
                Some(WaiterView::KeyBundle { id, user_id: user_id@ }),
            ),
        ),
        Cmd::RemoveDeviceKeys { device_id } => Some(
            (
                PacketView::RemoveDeviceKeys(
                    RemoveDeviceKeysView { user_id: user, device_id: device_id@ },
                ),
                None,
            ),
        ),
        Cmd::SendEncryptedChat { to_user, message_id, ciphertext } => Some(
            (
                chat_packet(user, to_user@, message_id@, ciphertext@, Seq::empty(), now),
                Some(WaiterView::ServerAck { id, message_id: message_id@ }),
            ),
        ),
        Cmd::SendEncryptedGroup { group_id, message_id, ciphertext } => Some(
            (
                group_packet(user, group_id@, message_id@, ciphertext@, now),
                Some(WaiterView::GroupServerAck { id, message_id: message_id@ }),
            ),
        ),
    }
}

/// A packet to send, and what its command waits for afterwards.
pub struct Plan {
    pub packet: Packet,
    pub waiter: Option<Waiter>,
}

/// The state of a session.
pub struct SessionCore {
    pub user_id: String,
    pub ping_seq: u64,
    pub waiters: Vec<Waiter>,
}

impl SessionCore {
    /// All waiters are well formed.
    pub open spec fn wf(&self) -> bool {
        forall|i: int| 0 <= i < self.waiters@.len() ==> (#[trigger] self.waiters@[i])@.wf()
    }

    /// A session of a user.
    pub fn new(user_id: &str) -> (s: Self)
        ensures
            s.wf(),
            s.user_id@ == user_id@,
            s.ping_seq == 0,
            s.waiters@.len() == 0,
    {
        SessionCore { user_id: user_id.to_string(), ping_seq: 0, waiters: Vec::new() }
    }

    /// The number of the next ping.
    pub fn alloc_ping_seq(&mut self) -> (n: u64)
        requires
            old(self).ping_seq < u64::MAX,
        ensures
            n == old(self).ping_seq + 1,
            *final(self) == (SessionCore { ping_seq: n, ..*old(self) }),
    {
        self.ping_seq = self.ping_seq + 1;
        self.ping_seq
    }

    fn group_op(&self, id: u64, group_id: String, op: GroupOp, subject: String) -> (p: Plan)
        ensures
            p.packet@ == op_packet(self.user_id@, group_id@, op, subject@),
            p.waiter matches Some(w) && w@ == (WaiterView::GroupEvent { id, group_id: group_id@ }),
    {
        Plan {
            packet: Packet::GroupEvent(
                GroupEvent {
                    group_id: group_id.clone(),
                    op: op.as_i32(),
                    actor_user: self.user_id.clone(),
                    subject_user: subject,
                    version: 0,
                    to_user: String::new(),
                },
            ),
            waiter: Some(Waiter::GroupEvent { id, group_id }),
        }
    }

    fn chat(
        &self,
        id: u64,
        to_user: String,
        message_id: String,
        body: Vec<u8>,
        media_id: String,
        now: u64,
    ) -> (p: Plan)
        ensures
            p.packet@ == chat_packet(
                self.user_id@,
                to_user@,
                message_id@,
                body@,
                media_id@,
                now,
            ),
            p.waiter matches Some(w) && w@ == (WaiterView::ServerAck {
                id,
                message_id: message_id@,
            }),
    {
        Plan {
            packet: Packet::ChatMessage(
                ChatMessage {
                    message_id: message_id.clone(),
                    from_user: self.user_id.clone(),
                    to_user,
                    body,
                    sent_at: now,
                    seq: 0,
                    media_id,
                },
            ),
            waiter: Some(Waiter::ServerAck { id, message_id }),
        }
    }

    fn group_chat(
        &self,
        id: u64,
        group_id: String,
        message_id: String,
        body: Vec<u8>,
        now: u64,
    ) -> (p: Plan)
        ensures
            p.packet@ == group_packet(self.user_id@, group_id@, message_id@, body@, now),
            p.waiter matches Some(w) && w@ == (WaiterView::GroupServerAck {
                id,
                message_id: message_id@,
            }),
    {
        Plan {
            packet: Packet::GroupMessage(
                GroupMessage {
                    message_id: message_id.clone(),
                    from_user: self.user_id.clone(),
                    group_id,
                    body,
                    sent_at: now,
                    media_id: String::new(),
                    seq: 0,
                    to_user: String::new(),
                },
            ),
            waiter: Some(Waiter::GroupServerAck { id, message_id }),
        }
    }

    /// Plans a command; none means that the session closes. `now` is in
    /// milliseconds.
    pub fn handle_cmd(&mut self, id: u64, cmd: Cmd, now: u64) -> (r: Option<Plan>)
        requires
            old(self).wf(),
            cmd is Ping ==> old(self).ping_seq < u64::MAX,
        ensures
            final(self).wf(),
            *final(self) == (SessionCore {
                ping_seq: if cmd is Ping {
                    (old(self).ping_seq + 1) as u64
                } else {
                    old(self).ping_seq
                },
                ..*old(self)
            }),
            match planned(old(self).user_id@, old(self).ping_seq, id, cmd, now) {
                None => r is None,
                Some((p, w)) => {
                    &&& r matches Some(plan)
                    &&& plan.packet@ == p
                    &&& match w {
                        Some(v) => plan.waiter matches Some(x) && x@ == v && v.wf(),
                        None => plan.waiter is None,
                    }
                },
            },
    {
        let user = self.user_id.clone();
        match cmd {
            Cmd::Close => None,
            Cmd::Ping => {
                let seq: u64 = self.alloc_ping_seq();
                Some(
                    Plan {
                        packet: Packet::Ping(Ping { seq }),
                        waiter: Some(Waiter::Pong { id, seq }),
                    },
                )
            },
            Cmd::SendChat { to_user, message_id, body, media_id } => Some(
                self.chat(id, to_user, message_id, body, media_id, now),
            ),
            Cmd::AckDelivered { message_id } => Some(
                Plan {
                    packet: Packet::DeliveredAck(DeliveredAck { message_id, from_user: user }),
                    waiter: None,
                },
            ),
            Cmd::AckRead { message_id } => Some(
                Plan {
                    packet: Packet::ReadAck(ReadAck { message_id, from_user: user }),
                    waiter: None,
                },
            ),
            Cmd::SubscribePresence { contact_ids } => Some(
                Plan {
                    packet: Packet::SubscribePresence(
                        SubscribePresence { user_id: user, contact_ids },
                    ),
                    waiter: None,
                },
            ),
            Cmd::SendPresence { kind } => Some(
                Plan {
                    packet: Packet::Presence(Presence { user_id: user, kind, last_seen: now }),
                    waiter: None,
                },
            ),
            Cmd::CreateGroup { group_id } => Some(
                self.group_op(id, group_id, GroupOp::Create, String::new()),
            ),
            Cmd::AddMember { group_id, user: subject } => Some(
                self.group_op(id, group_id, GroupOp::AddMember, subject),
            ),
            Cmd::RemoveMember { group_id, user: subject } => Some(
                self.group_op(id, group_id, GroupOp::RemoveMember, subject),
            ),
            Cmd::LeaveGroup { group_id } => Some(
                self.group_op(id, group_id, GroupOp::Leave, String::new()),
            ),
            Cmd::SendGroup { group_id, message_id, body } => Some(
                self.group_chat(id, group_id, message_id, body, now),
            ),
            Cmd::UploadMedia { media_id, file_name, mime_type, data } => {
                let sha256 = sha256_hex(data.as_slice());
                let total_size: u64 = data.len() as u64;
                Some(
                    Plan {
                        packet: Packet::MediaStart(
                            MediaStart {
                                media_id: media_id.clone(),
                                file_name,
                                mime_type,
                                total_size,
                                sha256,
                            },
                        ),
                        waiter: Some(
                            Waiter::MediaUpload {
                                id,
                                media_id,
                                remaining: data,
                                offset: 0,
                                after_credit: false,
                            },
                        ),
                    },
                )
            },
            Cmd::FetchMedia { media_id } => Some(
                Plan {
                    packet: Packet::MediaFetch(
                        MediaFetch { media_id: media_id.clone(), from_offset: 0 },
                    ),
                    waiter: Some(
                        Waiter::MediaDownload { id, media_id, meta: None, chunks: Vec::new() },
                    ),
                },
            ),
            Cmd::PublishE2ee { device_id, identity_key, one_time_keys } => Some(
                Plan {
                    packet: Packet::PublishKeys(
                        PublishKeys { user_id: user, device_id, identity_key, one_time_keys },
                    ),
                    waiter: None,
                },
            ),
            Cmd::FetchKeyBundle { user_id, device_id } => Some(
                Plan {
                    packet: Packet::FetchKeys(
                        FetchKeys { user_id: user_id.clone(), device_id, for_user: user },
                    ),
                    waiter: Some(Waiter::KeyBundle { id, user_id }),
                },
            ),
            Cmd::RemoveDeviceKeys { device_id } => Some(
                Plan {
                    packet: Packet::RemoveDeviceKeys(RemoveDeviceKeys { user_id: user, device_id }),
                    waiter: None,
                },
            ),
            Cmd::SendEncryptedChat { to_user, message_id, ciphertext } => Some(
                self.chat(id, to_user, message_id, ciphertext, String::new(), now),
            ),
            Cmd::SendEncryptedGroup { group_id, message_id, ciphertext } => Some(
                self.group_chat(id, group_id, message_id, ciphertext, now),
            ),
        }
    }

    /// Takes the outcome of sending a command's packet. A command that failed
    /// to send, or waits for nothing, is answered.
    pub fn sent(&mut self, waiter: Option<Waiter>, outcome: Result<(), MessengerError>) -> (r: Option<
        Answer,
    >)
        requires
            old(self).wf(),
            waiter matches Some(w) ==> w@.wf(),
        ensures
            final(self).wf(),
            sending_done(*old(self), waiter, outcome, *final(self), r),
    {
        match outcome {
            Err(e) => Some(Answer::Failed(FfiError::Messenger(e))),
            Ok(_) => match waiter {
                Some(w) => {
                    self.waiters.push(w);
                    None
                },
                None => Some(Answer::Done),
            },
        }
    }

    /// Takes a packet: the first command that waits for it is settled, and the
    /// host sees an event.
    pub fn dispatch_packet(&mut self, pkt: &Packet) -> (r: Handled)
        requires
            old(self).wf(),
        ensures
            final(self).wf(),
            packet_taken(*old(self), pkt@, *final(self), r),
    {
        let event: Option<LaneEvent> = match pkt {
            Packet::Pong(_) => None,
            _ => packet_to_event(pkt),
        };
        let ghost ws = waiter_views(self.waiters@);
        let ghost was = self.waiters@;
        let mut i: usize = 0;
        while i < self.waiters.len() && !concerns(&self.waiters[i], pkt)
            invariant
                *self == *old(self),
                was == self.waiters@,
                ws == waiter_views(self.waiters@),
                i <= self.waiters@.len(),
                forall|j: int| 0 <= j < i ==> !waits_for(#[trigger] ws[j], pkt@),
            decreases self.waiters@.len() - i,
        {
            i += 1;
        }
        proof {
            if i < ws.len() {
                assert(ws[i as int] == was[i as int]@);
            }
            lemma_first_concerned(ws, pkt@, i as int);
        }
        if i >= self.waiters.len() {
            return Handled { answer: None, send: None, event };
        }
        let w = self.waiters.remove(i);
        let ghost wv = w@;
        let id: u64 = match &w {
            Waiter::Pong { id, .. } => *id,
            Waiter::ServerAck { id, .. } => *id,
            Waiter::GroupEvent { id, .. } => *id,
            Waiter::GroupServerAck { id, .. } => *id,
            Waiter::KeyBundle { id, .. } => *id,
            Waiter::MediaUpload { id, .. } => *id,
            Waiter::MediaDownload { id, .. } => *id,
        };
        assert(was[i as int]@.wf());
        let step = settle_waiter(w, pkt);
        let ghost rest = self.waiters@;
        assert(rest =~= was.remove(i as int));
        match step.keep {
            Some(k) => {
                let ghost kv = k@;
                self.waiters.insert(i, k);
                assert(self.waiters@ =~= rest.insert(i as int, k));
                assert(waiter_views(self.waiters@) =~= ws.update(i as int, kv));
            },
            None => {
                assert(waiter_views(self.waiters@) =~= ws.remove(i as int));
            },
        }
        proof {
            assert forall|j: int| 0 <= j < self.waiters@.len() implies (
            #[trigger] self.waiters@[j])@.wf() by {
                if step.keep is Some {
                    if j != i {
                        assert(self.waiters@[j] == was[j]);
                    }
                } else {
                    if j < i {
                        assert(self.waiters@[j] == was[j]);
                    } else {
                        assert(self.waiters@[j] == was[j + 1]);
                    }
                }
            }
        }
        let answer: Option<(u64, Answer)> = match step.answer {
            Some(a) => Some((id, a)),
            None => None,
        };
        Handled { answer, send: step.send, event }
    }

    /// Answers every waiting command with a failure.
    pub fn fail_all_waiters(&mut self, err: &FfiError) -> (v: Vec<(u64, Answer)>)
        requires
            old(self).wf(),
        ensures
            final(self).wf(),
            all_failed(*old(self), *err, *final(self), v@),
    {
        let mut out: Vec<(u64, Answer)> = Vec::new();
        let mut i: usize = 0;
        while i < self.waiters.len()
            invariant
                *self == *old(self),
                i <= self.waiters@.len(),
                out@.len() == i,
                forall|j: int|
                    0 <= j < i ==> (#[trigger] out@[j]).0 == self.waiters@[j]@.channel()
                        && is_answer(out@[j].1, AnswerView::Internal(err.text())),
            decreases self.waiters@.len() - i,
        {
            let id: u64 = match &self.waiters[i] {
                Waiter::Pong { id, .. } => *id,
                Waiter::ServerAck { id, .. } => *id,
                Waiter::GroupEvent { id, .. } => *id,
                Waiter::GroupServerAck { id, .. } => *id,
                Waiter::KeyBundle { id, .. } => *id,
                Waiter::MediaUpload { id, .. } => *id,
                Waiter::MediaDownload { id, .. } => *id,
            };
            out.push((id, Answer::Failed(FfiError::Internal(err.detail()))));
            i += 1;
        }
        self.waiters = Vec::new();
        out
    }
}

/// A packet either answers the command it concerns, which then waits no longer,
/// or leaves it waiting: no command is answered twice, and none is lost.
pub proof fn law_answered_once(w: WaiterView, p: PacketView)
    requires
        waits_for(w, p),
    ensures
        settle(w, p).answer is Some <==> settle(w, p).keep is None,
        settle(w, p).keep matches Some(k) ==> k.channel() == w.channel(),
{
}

/// An acknowledgement that asks for the next chunk of a blob.
pub open spec fn asks_for_more(a: MediaAckView, media_id: Seq<char>) -> bool {
    a.media_id == media_id && a.ok && !a.complete
}

/// The chunks that an upload sends in answer to some acknowledgements.
pub open spec fn host_chunks(w: WaiterView, acks: Seq<MediaAckView>) -> Seq<PacketView>
    decreases acks.len(),
{
    if acks.len() == 0 {
        Seq::empty()
    } else {
        let s = settle(w, PacketView::MediaAck(acks[0]));
        let rest = match s.keep {
            Some(k) => host_chunks(k, acks.skip(1)),
            None => Seq::empty(),
        };
        match s.send {
            Some(p) => seq![p] + rest,
            None => rest,
        }
    }
}

/// What an upload still sends.
proof fn lemma_host_chunks(
    id: u64,
    media_id: Seq<char>,
    data: Seq<u8>,
    offset: nat,
    credit: bool,
    acks: Seq<MediaAckView>,
)
    requires
        offset <= data.len() <= u64::MAX,
        forall|i: int| 0 <= i < acks.len() ==> asks_for_more(#[trigger] acks[i], media_id),
        acks.len() >= chunks_from(media_id, data, offset).len(),
    ensures
        host_chunks(
            WaiterView::MediaUpload {
                id,
                media_id,
                remaining: data.skip(offset as int),
                offset: offset as u64,
                after_credit: credit,
            },
            acks,
        ) == as_packets(chunks_from(media_id, data, offset)),
    decreases acks.len(),
{
    let w = WaiterView::MediaUpload {
        id,
        media_id,
        remaining: data.skip(offset as int),
        offset: offset as u64,
        after_credit: credit,
    };
    let all = chunks_from(media_id, data, offset);
    if acks.len() == 0 {
        assert(as_packets(all) =~= Seq::<PacketView>::empty());
    } else {
        let rest = acks.skip(1);
        assert(asks_for_more(acks[0], media_id));
        assert forall|i: int| 0 <= i < rest.len() implies asks_for_more(
            #[trigger] rest[i],
            media_id,
        ) by {
            assert(rest[i] == acks[i + 1]);
        }
        let s = settle(w, PacketView::MediaAck(acks[0]));
        if offset < data.len() {
            let end = lesser(offset + MEDIA_CHUNK as nat, data.len());
            let n = next_len(data.skip(offset as int));
            let tail = chunks_from(media_id, data, end);
            assert(end == offset + n);
            assert(data.skip(offset as int).skip(n as int) =~= data.skip(end as int));
            assert(data.skip(offset as int).take(n as int) =~= data.subrange(
                offset as int,
                end as int,
            ));
            assert(all =~= seq![chunk_of(media_id, data, offset)] + tail);
            lemma_host_chunks(id, media_id, data, end, true, rest);
            assert(s.send == Some(PacketView::MediaChunk(chunk_of(media_id, data, offset))));
            assert(as_packets(all) =~= seq![
                PacketView::MediaChunk(chunk_of(media_id, data, offset)),
            ] + as_packets(tail));
        } else {
            assert(data.skip(offset as int).len() == 0);
            assert(all =~= Seq::<MediaChunkView>::empty());
            lemma_host_chunks(id, media_id, data, offset, true, rest);
        }
    }
}

/// As long as the server asks for more, a host's upload sends exactly the
/// chunks of its data, in order.
pub proof fn law_host_upload_sends_the_chunks(
    id: u64,
    media_id: Seq<char>,
    data: Seq<u8>,
    acks: Seq<MediaAckView>,
)
    requires
        data.len() <= u64::MAX,
        forall|i: int| 0 <= i < acks.len() ==> asks_for_more(#[trigger] acks[i], media_id),
        acks.len() >= chunks_from(media_id, data, 0).len(),
    ensures
        host_chunks(
            WaiterView::MediaUpload {
                id,
                media_id,
                remaining: data,
                offset: 0,
                after_credit: false,
            },
            acks,
        ) == as_packets(chunks_from(media_id, data, 0)),
{
    assert(data.skip(0) =~= data);
    lemma_host_chunks(id, media_id, data, 0, false, acks);
}

/// The packet of a command was sent, or was not.
pub open spec fn sending_done(
    before: SessionCore,
    waiter: Option<Waiter>,
    outcome: Result<(), MessengerError>,
    after: SessionCore,
    r: Option<Answer>,
) -> bool {
    &&& after.user_id == before.user_id
    &&& after.ping_seq == before.ping_seq
    &&& match outcome {
        Err(e) => r == Some(Answer::Failed(FfiError::Messenger(e))) && after.waiters@ == before.waiters@,
        Ok(_) => match waiter {
            Some(w) => r is None && after.waiters@ == before.waiters@.push(w),
            None => r == Some(Answer::Done) && after.waiters@ == before.waiters@,
        },
    }
}

/// A packet came in.
pub open spec fn packet_taken(
    before: SessionCore,
    pkt: PacketView,
    after: SessionCore,
    r: Handled,
) -> bool {
    &&& after.user_id == before.user_id
    &&& after.ping_seq == before.ping_seq
    &&& opt_model(r.event) == visible_event(pkt)
    &&& ({
        let ws = waiter_views(before.waiters@);
        let i = first_concerned(ws, pkt);
        if i < ws.len() {
            let s = settle(ws[i], pkt);
            &&& waiter_views(after.waiters@) == after_settling(ws, i, s.keep)
            &&& match s.answer {
                Some(a) => r.answer matches Some((id, x)) && id == ws[i].channel()
                    && is_answer(x, a),
                None => r.answer is None,
            }
            &&& match s.send {
                Some(p) => r.send matches Some(q) && q@ == p,
                None => r.send is None,
            }
        } else {
            &&& waiter_views(after.waiters@) == ws
            &&& r.answer is None
            &&& r.send is None
        }
    })
}

/// Every waiting command was answered with a failure.
pub open spec fn all_failed(
    before: SessionCore,
    err: FfiError,
    after: SessionCore,
    v: Seq<(u64, Answer)>,
) -> bool {
    &&& after.waiters@.len() == 0
    &&& after.user_id == before.user_id
    &&& after.ping_seq == before.ping_seq
    &&& v.len() == before.waiters@.len()
    &&& forall|i: int|
        0 <= i < v.len() ==> (#[trigger] v[i]).0 == before.waiters@[i]@.channel()
            && is_answer(v[i].1, AnswerView::Internal(err.text()))
}

/// What a command sends carries what the host said, under the name of the
/// session's user, and nothing that the server is to fill in: no number, no
/// version, no particular recipient. Only closing sends nothing.
pub proof fn law_commands_send_what_the_host_said(
    user: Seq<char>,
    ping_seq: u64,
    id: u64,
    cmd: Cmd,
    now: u64,
)
    requires
        ping_seq < u64::MAX,
        cmd matches Cmd::UploadMedia { data, .. } ==> data@.len() <= u64::MAX,
    ensures
        planned(user, ping_seq, id, cmd, now) is None <==> cmd is Close,
        planned(user, ping_seq, id, cmd, now) matches Some((p, w)) ==> {
            &&& w matches Some(x) ==> x.channel() == id
            &&& match cmd {
                Cmd::Ping => p is Ping && p->Ping_0.seq == ping_seq + 1,
                Cmd::SendChat { to_user, message_id, body, media_id } => p is ChatMessage && ({
                    let m = p->ChatMessage_0;
                    &&& m.from_user == user && m.to_user == to_user@ && m.message_id == message_id@
                    &&& m.body == body@ && m.media_id == media_id@ && m.sent_at == now && m.seq == 0
                }),
                Cmd::SendEncryptedChat { to_user, message_id, ciphertext } => p is ChatMessage && ({
                    let m = p->ChatMessage_0;
                    &&& m.from_user == user && m.to_user == to_user@ && m.message_id == message_id@
                    &&& m.body == ciphertext@ && m.media_id.len() == 0 && m.sent_at == now
                    &&& m.seq == 0
                }),
                Cmd::SendGroup { group_id, message_id, body } => p is GroupMessage && ({
                    let m = p->GroupMessage_0;
                    &&& m.from_user == user && m.group_id == group_id@ && m.message_id
                        == message_id@
                    &&& m.body == body@ && m.sent_at == now && m.seq == 0 && m.to_user.len() == 0
                    &&& m.media_id.len() == 0
                }),
                Cmd::SendEncryptedGroup { group_id, message_id, ciphertext } => p is GroupMessage
                    && ({
                    let m = p->GroupMessage_0;
                    &&& m.from_user == user && m.group_id == group_id@ && m.message_id
                        == message_id@
                    &&& m.body == ciphertext@ && m.sent_at == now && m.seq == 0 && m.to_user.len()
                        == 0
                    &&& m.media_id.len() == 0
                }),
                Cmd::AckDelivered { message_id } => p is DeliveredAck
                    && p->DeliveredAck_0.message_id == message_id@ && p->DeliveredAck_0.from_user
                    == user && w is None,
                Cmd::AckRead { message_id } => p is ReadAck && p->ReadAck_0.message_id
                    == message_id@ && p->ReadAck_0.from_user == user && w is None,
                Cmd::SubscribePresence { contact_ids } => p is SubscribePresence
                    && p->SubscribePresence_0.user_id == user && p->SubscribePresence_0.contact_ids
                    == strs(contact_ids@) && w is None,
                Cmd::SendPresence { kind } => p is Presence && p->Presence_0.user_id == user
                    && p->Presence_0.kind == kind && p->Presence_0.last_seen == now && w is None,
                Cmd::CreateGroup { group_id } => p is GroupEvent && p->GroupEvent_0.group_id
                    == group_id@ && p->GroupEvent_0.actor_user == user && p->GroupEvent_0.op
                    == GroupOp::Create.number(),
                Cmd::AddMember { group_id, user: subject } => p is GroupEvent
                    && p->GroupEvent_0.group_id == group_id@ && p->GroupEvent_0.actor_user == user
                    && p->GroupEvent_0.subject_user == subject@ && p->GroupEvent_0.op
                    == GroupOp::AddMember.number(),
                Cmd::RemoveMember { group_id, user: subject } => p is GroupEvent
                    && p->GroupEvent_0.group_id == group_id@ && p->GroupEvent_0.actor_user == user
                    && p->GroupEvent_0.subject_user == subject@ && p->GroupEvent_0.op
                    == GroupOp::RemoveMember.number(),
                Cmd::LeaveGroup { group_id } => p is GroupEvent && p->GroupEvent_0.group_id
                    == group_id@ && p->GroupEvent_0.actor_user == user && p->GroupEvent_0.op
                    == GroupOp::Leave.number(),
                Cmd::UploadMedia { media_id, file_name, mime_type, data } => p is MediaStart && ({
                    let m = p->MediaStart_0;
                    &&& m.media_id == media_id@ && m.file_name == file_name@ && m.mime_type
                        == mime_type@
                    &&& m.total_size == data@.len() && m.sha256 == hex_text(sha256_of(data@))
                }),
                Cmd::FetchMedia { media_id } => p is MediaFetch && p->MediaFetch_0.media_id
                    == media_id@ && p->MediaFetch_0.from_offset == 0,
                Cmd::PublishE2ee { device_id, identity_key, one_time_keys } => p is PublishKeys
                    && ({
                    let k = p->PublishKeys_0;
                    &&& k.user_id == user && k.device_id == device_id@ && k.identity_key
                        == identity_key@
                    &&& k.one_time_keys == strs(one_time_keys@) && w is None
                }),
                Cmd::FetchKeyBundle { user_id, device_id } => p is FetchKeys && ({
                    let f = p->FetchKeys_0;
                    f.user_id == user_id@ && f.device_id == device_id@ && f.for_user == user
                }),
                Cmd::RemoveDeviceKeys { device_id } => p is RemoveDeviceKeys
                    && p->RemoveDeviceKeys_0.user_id == user && p->RemoveDeviceKeys_0.device_id
                    == device_id@ && w is None,
                Cmd::Close => false,
            }
        },
{
}

/// The answer that a server gives to a command's packet is the one that the
/// command waits for, and no answer to another one is: a ping is answered by the
/// pong with its number, a message by the acknowledgement of its id, which gives
/// its number, a change of a group by the event of that group, which gives the
/// version, and a request for keys by the bundle of that user.
pub proof fn law_commands_wait_for_their_own_answer(
    user: Seq<char>,
    ping_seq: u64,
    id: u64,
    cmd: Cmd,
    now: u64,
    p: PacketView,
)
    requires
        ping_seq < u64::MAX,
        planned(user, ping_seq, id, cmd, now) is Some,
        planned(user, ping_seq, id, cmd, now) matches Some((sent, w)) ==> w is Some,
        !(p is Error),
    ensures
        ({
            let (sent, w) = planned(user, ping_seq, id, cmd, now)->0;
            let mine = waits_for(w->0, p);
            let s = settle(w->0, p);
            match sent {
                PacketView::Ping(q) => (mine <==> p is Pong && p->Pong_0.seq == q.seq) && (mine
                    ==> s.answer == Some(AnswerView::Done)),
                PacketView::ChatMessage(m) => (mine <==> p is ServerAck
                    && p->ServerAck_0.message_id == m.message_id) && (mine ==> s.answer == Some(
                    AnswerView::Number(p->ServerAck_0.seq),
                )),
                PacketView::GroupMessage(m) => (mine <==> p is ServerAck
                    && p->ServerAck_0.message_id == m.message_id) && (mine ==> s.answer == Some(
                    AnswerView::Done,
                )),
                PacketView::GroupEvent(e) => (mine <==> p is GroupEvent && p->GroupEvent_0.group_id
                    == e.group_id) && (mine ==> s.answer == Some(
                    AnswerView::Number(p->GroupEvent_0.version),
                )),
                PacketView::FetchKeys(f) => (mine <==> p is KeyBundle && p->KeyBundle_0.user_id
                    == f.user_id) && (mine ==> s.answer is Some && s.answer->0 is Bundle && ({
                    let b = s.answer->0->Bundle_0;
                    let k = p->KeyBundle_0;
                    &&& b.user_id == k.user_id && b.device_id == k.device_id && b.found == k.found
                    &&& b.identity_key == k.identity_key && b.one_time_key == k.one_time_key
                    &&& b.device_ids == k.device_ids
                })),
                PacketView::MediaStart(m) => mine <==> p is MediaAck && p->MediaAck_0.media_id
                    == m.media_id,
                PacketView::MediaFetch(f) => mine <==> (p is MediaStart && p->MediaStart_0.media_id
                    == f.media_id) || (p is MediaChunk && p->MediaChunk_0.media_id == f.media_id),
                _ => false,
            }
        }),
{
}

/// An error of the server ends whatever waits for more than a pong or keys, with
/// what the server said; pings and key requests go on waiting.
pub proof fn law_errors_end_what_waits(w: WaiterView, p: PacketView)
    requires
        p is Error,
    ensures
        waits_for(w, p) <==> !(w is Pong) && !(w is KeyBundle),
        settle(w, p).answer == Some(AnswerView::Protocol(p->Error_0.detail)),
        settle(w, p).keep is None,
        settle(w, p).send is None,
{
}

/// An upload goes on as the server says: refused, it fails with the reason;
/// complete, it is answered with the bytes that the server counted; otherwise it
/// sends the bytes that come next, under their offset, and marks the last ones.
pub proof fn law_host_upload_follows_the_server(
    w: WaiterView,
    a: MediaAckView,
)
    requires
        w is MediaUpload,
        w.wf(),
    ensures
        ({
            let s = settle(w, PacketView::MediaAck(a));
            &&& !a.ok ==> s.answer == Some(AnswerView::MediaFailed(a.error))
            &&& a.ok && a.complete ==> s.answer == Some(AnswerView::Number(a.received_bytes))
            &&& a.ok && !a.complete ==> {
                let k = s.keep->0;
                &&& s.answer is None
                &&& s.keep is Some
                &&& k is MediaUpload
                &&& k->MediaUpload_media_id == w->MediaUpload_media_id
                &&& s.send is Some <==> w->MediaUpload_remaining.len() > 0
                &&& s.send is None ==> k->MediaUpload_remaining.len() == 0
                &&& s.send matches Some(p) ==> {
                    let c = p->MediaChunk_0;
                    &&& p is MediaChunk
                    &&& c.media_id == w->MediaUpload_media_id
                    &&& c.offset == w->MediaUpload_offset
                    &&& 0 < c.data.len() <= 65_536
                    &&& c.data + k->MediaUpload_remaining == w->MediaUpload_remaining
                    &&& k->MediaUpload_offset == w->MediaUpload_offset + c.data.len()
                    &&& c.last <==> k->MediaUpload_remaining.len() == 0
                }
            }
        }),
{
    let r = w->MediaUpload_remaining;
    let n = next_len(r) as int;
    assert(r.take(n) + r.skip(n) =~= r);
}

/// A download gathers the bytes in the order in which they come and ends with the
/// last chunk: with all of them, under what was announced, where the announced
/// digest is that of the bytes or none was announced, and with a failure where
/// it is not.
pub proof fn law_host_download_is_checked(
    w: WaiterView,
    s: MediaStartView,
    c: MediaChunkView,
)
    requires
        w is MediaDownload,
    ensures
        ({
            let x = settle(w, PacketView::MediaStart(s));
            let y = settle(w, PacketView::MediaChunk(c));
            let data = w->MediaDownload_chunks + c.data;
            let meta = w->MediaDownload_meta;
            &&& x.answer is None
            &&& x.keep is Some
            &&& x.keep->0 is MediaDownload
            &&& x.keep->0->MediaDownload_meta == Some((s.file_name, s.mime_type, s.sha256))
            &&& x.keep->0->MediaDownload_chunks == w->MediaDownload_chunks
            &&& y.answer is Some <==> c.last
            &&& !c.last ==> y.keep is Some && y.keep->0 is MediaDownload
                && y.keep->0->MediaDownload_chunks == data && y.keep->0->MediaDownload_meta == meta
            &&& c.last && meta is Some ==> {
                let (file_name, mime_type, sha256) = meta->0;
                let good = sha256.len() == 0 || same_but_case(hex_text(sha256_of(data)), sha256);
                &&& good ==> y.answer == Some(
                    AnswerView::Media(
                        DownloadedMediaInfoView { file_name, mime_type, sha256, data },
                    ),
                )
                &&& !good ==> y.answer is Some && y.answer->0 is MediaFailed
            }
        }),
{
}

/// A packet settles the longest waiting command that it concerns and no other:
/// the others wait on in their order. The answer goes to the channel of that
/// command. A packet that concerns none changes nothing and answers nothing.
pub proof fn law_packets_settle_the_first_in_line(
    before: SessionCore,
    pkt: PacketView,
    after: SessionCore,
    r: Handled,
    i: int,
)
    requires
        packet_taken(before, pkt, after, r),
        0 <= i <= before.waiters@.len(),
        forall|j: int| 0 <= j < i ==> !waits_for((#[trigger] before.waiters@[j])@, pkt),
        i < before.waiters@.len() ==> waits_for(before.waiters@[i]@, pkt),
    ensures
        i == before.waiters@.len() ==> {
            &&& r.answer is None
            &&& r.send is None
            &&& after.waiters@.len() == before.waiters@.len()
            &&& forall|k: int|
                0 <= k < after.waiters@.len() ==> (#[trigger] after.waiters@[k])@
                    == before.waiters@[k]@
        },
        i < before.waiters@.len() ==> {
            &&& r.answer matches Some((id, x)) ==> id == before.waiters@[i]@.channel()
            &&& r.answer is Some <==> after.waiters@.len() == before.waiters@.len() - 1
            &&& r.answer is None <==> after.waiters@.len() == before.waiters@.len()
            &&& forall|k: int|
                0 <= k < i ==> (#[trigger] after.waiters@[k])@ == before.waiters@[k]@
            &&& r.answer is Some ==> forall|k: int|
                i <= k < after.waiters@.len() ==> (#[trigger] after.waiters@[k])@
                    == before.waiters@[k + 1]@
            &&& r.answer is None ==> forall|k: int|
                i < k < after.waiters@.len() ==> (#[trigger] after.waiters@[k])@
                    == before.waiters@[k]@
        },
        after.user_id == before.user_id,
        pkt is Pong ==> r.event is None,
{
    let ws = waiter_views(before.waiters@);
    let vs = waiter_views(after.waiters@);
    assert forall|j: int| 0 <= j < i implies !waits_for(#[trigger] ws[j], pkt) by {
        assert(ws[j] == before.waiters@[j]@);
    }
    lemma_first_concerned(ws, pkt, i);
    assert(forall|k: int| 0 <= k < vs.len() ==> vs[k] == (#[trigger] after.waiters@[k])@);
    assert(forall|k: int| 0 <= k < ws.len() ==> ws[k] == (#[trigger] before.waiters@[k])@);
    if i < ws.len() {
        law_answered_once(ws[i], pkt);
        let keep = settle(ws[i], pkt).keep;
        if keep is Some {
            assert(vs.len() == ws.len());
            assert(forall|k: int| 0 <= k < vs.len() && k != i ==> vs[k] == #[trigger] ws[k]);
        } else {
            assert(vs.len() == ws.len() - 1);
            assert forall|k: int| i <= k < after.waiters@.len() implies (
            #[trigger] after.waiters@[k])@ == before.waiters@[k + 1]@ by {
                assert(vs[k] == ws[k + 1]);
            }
        }
    }
}

/// A command whose packet could not be sent is answered with the reason and does
/// not wait; one whose packet was sent waits if there is something to wait for,
/// behind those that wait already, and is done otherwise.
pub proof fn law_sent_commands_wait_in_line(
    before: SessionCore,
    waiter: Option<Waiter>,
    outcome: Result<(), MessengerError>,
    after: SessionCore,
    r: Option<Answer>,
)
    requires
        sending_done(before, waiter, outcome, after, r),
    ensures
        r is None <==> outcome is Ok && waiter is Some,
        outcome matches Err(e) ==> r == Some(Answer::Failed(FfiError::Messenger(e))),
        outcome is Ok && waiter is None ==> r == Some(Answer::Done),
        r is None ==> after.waiters@.len() == before.waiters@.len() + 1 && after.waiters@.last()
            == waiter->0 && after.waiters@.drop_last() =~= before.waiters@,
        r is Some ==> after.waiters@ == before.waiters@,
{
}

/// When the connection is lost, every waiting command is answered with the
/// failure, each on its own channel, and none waits any more.
pub proof fn law_no_command_waits_forever(
    before: SessionCore,
    err: FfiError,
    after: SessionCore,
    v: Seq<(u64, Answer)>,
    i: int,
)
    requires
        all_failed(before, err, after, v),
        0 <= i < before.waiters@.len(),
    ensures
        after.waiters@.len() == 0,
        v.len() == before.waiters@.len(),
        v[i].0 == before.waiters@[i]@.channel(),
        v[i].1 is Failed,
{
}

/// The options that settings stand for.
pub open spec fn options_of(c: ConnectConfig, o: ConnectOptions) -> bool {
    &&& o.host == c.host
    &&& o.port == c.port
    &&& o.use_tls == c.use_tls
    &&& o.user_id == c.user_id
    &&& o.device_id == c.device_id
    &&& o.auth_token == c.auth_token
    &&& c.client_version@.len() > 0 ==> o.client_version == c.client_version
    &&& c.client_version@.len() == 0 ==> o.client_version@ == "uniffi-"@ + VERSION@
    &&& o.resume_after_seq == c.resume_after_seq
    &&& o.ping_interval_secs == c.ping_interval_secs
    &&& o.auto_reconnect == c.auto_reconnect
    &&& o.max_reconnect_attempts == c.max_reconnect_attempts
    &&& o.transport == (if c.use_websocket {
        Transport::WebSocket
    } else {
        Transport::Tcp
    })
    &&& o.ws_url == c.ws_url
    &&& o.ca_pem_path is None
}

/// Settings are taken as they are: the session is the one of that user and
/// device, with that token, at that place and over that transport.
pub proof fn law_settings_are_taken_as_they_are(c: ConnectConfig, o: ConnectOptions)
    requires
        options_of(c, o),
    ensures
        o.user_id@ == c.user_id@,
        o.device_id@ == c.device_id@,
        o.auth_token@ == c.auth_token@,
        o.host@ == c.host@,
        o.port == c.port,
        o.ws_url@ == c.ws_url@,
        o.use_tls == c.use_tls,
        o.transport == Transport::WebSocket <==> c.use_websocket,
        o.resume_after_seq == c.resume_after_seq,
        o.ping_interval_secs == c.ping_interval_secs,
        o.auto_reconnect == c.auto_reconnect,
        o.max_reconnect_attempts == c.max_reconnect_attempts,
        c.client_version@.len() > 0 ==> o.client_version@ == c.client_version@,
        o.client_version@.len() > 0,
{
    reveal_strlit("uniffi-");
}

} // verus!
