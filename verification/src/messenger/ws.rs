//! Frames as WebSocket messages: each binary message carries one frame; and the
//! address that a WebSocket URL stands for.

use crate::messenger::client::MessengerClient;
use crate::messenger::codec::{
    buffer_from, buffer_len, buffer_new, buffer_split_to, frame_bytes, law_frame_round_trip,
    parse, sendable, Frame, FrameCodec, FrameView, Parsed, DEFAULT_MAX_FRAME, HEADER_LEN,
    PROTOCOL_VERSION,
};
use crate::messenger::error::MessengerError;
use crate::text::{concat2, concat3, decimal, decimal_string, same};
use url::Url;
use vstd::prelude::*;

verus! {

/// One frame as bytes, under the default limit.
pub fn encode_frame(frame: &Frame) -> (r: Result<Vec<u8>, MessengerError>)
    ensures
        match r {
            Ok(v) => frame.payload@.len() <= DEFAULT_MAX_FRAME && v@ == frame_bytes(frame@),
            Err(e) => {
                &&& frame.payload@.len() > DEFAULT_MAX_FRAME
                &&& e matches MessengerError::FrameTooLarge { size, max }
                &&& size == frame.payload@.len()
                &&& max == DEFAULT_MAX_FRAME
            },
        },
{
    if frame.payload.len() > DEFAULT_MAX_FRAME {
        return Err(
            MessengerError::FrameTooLarge { size: frame.payload.len(), max: DEFAULT_MAX_FRAME },
        );
    }
    let mut codec = FrameCodec::default();
    let mut buf = buffer_new();
    match codec.encode(frame, &mut buf) {
        Ok(_) => {},
        Err(e) => {
            return Err(e);
        },
    }
    let n: usize = buffer_len(&buf);
    let v = buffer_split_to(&mut buf, n);
    assert(v@ =~= frame_bytes(frame@));
    Ok(v)
}

/// The failure that a byte stream starts with, if it does.
pub open spec fn parse_error(p: Parsed, max_frame: usize) -> Option<MessengerError> {
    match p {
        Parsed::BadVersion(v) => Some(MessengerError::UnsupportedVersion(v)),
        Parsed::BadType(t) => Some(MessengerError::UnknownPacketType(t)),
        Parsed::TooLarge(n) => Some(
            MessengerError::FrameTooLarge { size: n as usize, max: max_frame },
        ),
        _ => None,
    }
}

/// What was encoded as one message is read back from it.
pub proof fn law_message_round_trip(f: FrameView)
    requires
        sendable(f, DEFAULT_MAX_FRAME as nat),
    ensures
        parse(frame_bytes(f), DEFAULT_MAX_FRAME as nat) == Parsed::Complete(
            f,
            frame_bytes(f).len(),
        ),
{
    law_frame_round_trip(f, Seq::empty(), DEFAULT_MAX_FRAME as nat);
    assert(frame_bytes(f) + Seq::<u8>::empty() =~= frame_bytes(f));
}

/// Reads the frame that a message starts with.
pub fn decode_frame(bytes: &[u8]) -> (r: Result<Frame, MessengerError>)
    ensures
        match parse(bytes@, DEFAULT_MAX_FRAME as nat) {
            Parsed::Complete(f, n) => r matches Ok(frame) && frame@ == f,
            Parsed::Incomplete => r matches Err(MessengerError::Protocol(m)) && m@ == (
            if bytes@.len() < HEADER_LEN {
                "frame too short"@
            } else {
                "incomplete frame"@
            }),
            p => r matches Err(e) && parse_error(p, DEFAULT_MAX_FRAME) == Some(e),
        },
{
    if bytes.len() < HEADER_LEN {
        return Err(MessengerError::Protocol("frame too short".to_string()));
    }
    if bytes[0] != PROTOCOL_VERSION {
        return Err(MessengerError::UnsupportedVersion(bytes[0]));
    }
    let mut codec = FrameCodec::default();
    let mut buf = buffer_from(bytes);
    match codec.decode(&mut buf) {
        Err(e) => Err(e),
        Ok(None) => Err(MessengerError::Protocol("incomplete frame".to_string())),
        Ok(Some(frame)) => Ok(frame),
    }
}

/// The parts of a URL that tell where to connect to.
#[derive(Debug, PartialEq, Eq)]
pub struct UrlParts {
    pub host: Option<String>,
    /// The port, or that which the scheme is known for.
    pub port: Option<u16>,
    pub scheme: String,
}

/// What [`UrlParts`] holds.
#[verifier::ext_equal]
pub struct UrlPartsView {
    pub host: Option<Seq<char>>,
    pub port: Option<u16>,
    pub scheme: Seq<char>,
}

impl View for UrlParts {
    type V = UrlPartsView;

    open spec fn view(&self) -> UrlPartsView {
        UrlPartsView {
            host: match self.host {
                Some(h) => Some(h@),
                None => None,
            },
            port: self.port,
            scheme: self.scheme@,
        }
    }
}

/// The parts of the URL that a text is, or why it is none.
pub uninterp spec fn url_parsed(text: Seq<char>) -> Result<UrlPartsView, Seq<char>>;

/// What a result of parts holds.
pub open spec fn parts_or_text(r: Result<UrlParts, String>) -> Result<UrlPartsView, Seq<char>> {
    match r {
        Ok(p) => Ok(p@),
        Err(e) => Err(e@),
    }
}

/// `Url::parse` reads a URL; here with `Url::host_str`,
/// `Url::port_or_known_default` and `Url::scheme`, which give its parts. The
/// parts, and the error where the text is no URL, depend on the text alone.
#[verifier::external_body]
fn url_parts(text: &str) -> (r: Result<UrlParts, String>)
    ensures
        parts_or_text(r) == url_parsed(text@),
{
    let url = Url::parse(text).map_err(|e| e.to_string())?;
    Ok(UrlParts {
        host: url.host_str().map(|h| h.to_string()),
        port: url.port_or_known_default(),
        scheme: url.scheme().to_string(),
    })
}

/// Where a client connects to, and whether over TLS.
#[derive(Debug, PartialEq, Eq)]
pub struct Dial {
    pub addr: String,
    pub use_tls: bool,
}

/// The address to connect to: this machine where the URL names no host, and port
/// 80 where neither it nor its scheme names a port.
pub open spec fn dial_addr(parts: UrlPartsView) -> Seq<char> {
    let host = match parts.host {
        Some(h) => h,
        None => "127.0.0.1"@,
    };
    let port = match parts.port {
        Some(n) => n,
        None => 80,
    };
    host + ":"@ + decimal(port as nat)
}

/// Where to connect to for the parts of a URL. A `wss` URL asks for TLS, and so
/// does a caller who has a connector for it.
pub fn dial(parts: &UrlParts, has_connector: bool) -> (d: Dial)
    ensures
        d.addr@ == dial_addr(parts@),
        d.use_tls == (parts.scheme@ == "wss"@ || has_connector),
{
    let host: &str = match &parts.host {
        Some(h) => h.as_str(),
        None => "127.0.0.1",
    };
    let port: u16 = match parts.port {
        Some(n) => n,
        None => 80,
    };
    Dial {
        addr: concat3(host, ":", decimal_string(port as u64).as_str()),
        use_tls: same(parts.scheme.as_str(), "wss") || has_connector,
    }
}

impl MessengerClient {
    /// Where to connect to for a WebSocket URL, such as `ws://127.0.0.1:9001/` or
    /// `wss://host/messenger`.
    pub fn connect_ws(url: &str, has_connector: bool) -> (r: Result<Dial, MessengerError>)
        ensures
            match url_parsed(url@) {
                Err(e) => r matches Err(MessengerError::Protocol(m)) && m@ == "bad ws url: "@ + e,
                Ok(parts) => {
                    &&& r matches Ok(d)
                    &&& d.addr@ == dial_addr(parts)
                    &&& d.use_tls == (parts.scheme == "wss"@ || has_connector)
                },
            },
    {
        match url_parts(url) {
            Ok(parts) => Ok(dial(&parts, has_connector)),
            Err(e) => Err(MessengerError::Protocol(concat2("bad ws url: ", e.as_str()))),
        }
    }
}

/// A URL is dialled at its own host and port; one that names neither is local, at
/// the usual port.
pub proof fn law_urls_are_dialled_where_they_say(parts: UrlPartsView)
    ensures
        parts.host is Some && parts.port is Some ==> dial_addr(parts) == parts.host->0 + ":"@
            + decimal(parts.port->0 as nat),
        parts.host is Some && parts.port is None ==> dial_addr(parts) == parts.host->0 + ":"@
            + decimal(80),
        parts.host is None && parts.port is Some ==> dial_addr(parts) == "127.0.0.1"@ + ":"@
            + decimal(parts.port->0 as nat),
{
}

} // verus!
