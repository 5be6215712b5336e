//! Failures of the messenger layer.

use crate::error::IoError;
use crate::text::{concat2, concat3, decimal, hex_encode, hex_text, push_decimal};
use vstd::prelude::*;

verus! {

/// Failures of end-to-end encryption. Those of the cryptographic library are
/// kept as their text.
#[derive(Debug, PartialEq, Eq)]
pub enum E2eeError {
    Decode(String),
    Key(String),
    SessionKey(String),
    MegolmDecryption(String),
    SessionCreation(String),
    Encryption(String),
    Decryption(String),
    Prost(String),
    NoSession(String),
    NoGroupSession(String),
    NoInboundGroupSession { group_id: String, session_id: String },
    IncompleteBundle,
    NotPreKeyMessage,
    Pickle(String),
}

impl E2eeError {
    /// The message shown for the failure.
    pub open spec fn text(&self) -> Seq<char> {
        match self {
            E2eeError::Decode(e) => "vodozemac decode: "@ + e@,
            E2eeError::Key(e) => "vodozemac key: "@ + e@,
            E2eeError::SessionKey(e) => "megolm session key: "@ + e@,
            E2eeError::MegolmDecryption(e) => "megolm decryption: "@ + e@,
            E2eeError::SessionCreation(e) => "session creation: "@ + e@,
            E2eeError::Encryption(e) => "encryption: "@ + e@,
            E2eeError::Decryption(e) => "decryption: "@ + e@,
            E2eeError::Prost(e) => "prost decode: "@ + e@,
            E2eeError::NoSession(peer) => "no Olm session with "@ + peer@
                + "; call establish_outbound first"@,
            E2eeError::NoGroupSession(group) => "no Megolm outbound session for group "@ + group@,
            E2eeError::NoInboundGroupSession { group_id, session_id } =>
                "no Megolm inbound session "@ + session_id@ + " for group "@ + group_id@,
            E2eeError::IncompleteBundle => "peer key bundle incomplete"@,
            E2eeError::NotPreKeyMessage =>
                "expected a pre-key message to create a new session"@,
            E2eeError::Pickle(e) => "account pickle: "@ + e@,
        }
    }

    /// The message shown for the failure.
    pub fn to_string(&self) -> (s: String)
        ensures
            s@ == self.text(),
    {
        match self {
            E2eeError::Decode(e) => concat2("vodozemac decode: ", e.as_str()),
            E2eeError::Key(e) => concat2("vodozemac key: ", e.as_str()),
            E2eeError::SessionKey(e) => concat2("megolm session key: ", e.as_str()),
            E2eeError::MegolmDecryption(e) => concat2("megolm decryption: ", e.as_str()),
            E2eeError::SessionCreation(e) => concat2("session creation: ", e.as_str()),
            E2eeError::Encryption(e) => concat2("encryption: ", e.as_str()),
            E2eeError::Decryption(e) => concat2("decryption: ", e.as_str()),
            E2eeError::Prost(e) => concat2("prost decode: ", e.as_str()),
            E2eeError::NoSession(peer) => concat3(
                "no Olm session with ",
                peer.as_str(),
                "; call establish_outbound first",
            ),
            E2eeError::NoGroupSession(group) => concat2(
                "no Megolm outbound session for group ",
                group.as_str(),
            ),
            E2eeError::NoInboundGroupSession { group_id, session_id } => {
                let mut s = concat3(
                    "no Megolm inbound session ",
                    session_id.as_str(),
                    " for group ",
                );
                s.push_str(group_id.as_str());
                s
            },
            E2eeError::IncompleteBundle => "peer key bundle incomplete".to_string(),
            E2eeError::NotPreKeyMessage =>
                "expected a pre-key message to create a new session".to_string(),
            E2eeError::Pickle(e) => concat2("account pickle: ", e.as_str()),
        }
    }
}

impl Clone for E2eeError {
    fn clone(&self) -> (r: Self)
        ensures
            r == *self,
    {
        match self {
            E2eeError::Decode(e) => E2eeError::Decode(e.clone()),
            E2eeError::Key(e) => E2eeError::Key(e.clone()),
            E2eeError::SessionKey(e) => E2eeError::SessionKey(e.clone()),
            E2eeError::MegolmDecryption(e) => E2eeError::MegolmDecryption(e.clone()),
            E2eeError::SessionCreation(e) => E2eeError::SessionCreation(e.clone()),
            E2eeError::Encryption(e) => E2eeError::Encryption(e.clone()),
            E2eeError::Decryption(e) => E2eeError::Decryption(e.clone()),
            E2eeError::Prost(e) => E2eeError::Prost(e.clone()),
            E2eeError::NoSession(p) => E2eeError::NoSession(p.clone()),
            E2eeError::NoGroupSession(g) => E2eeError::NoGroupSession(g.clone()),
            E2eeError::NoInboundGroupSession { group_id, session_id } =>
                E2eeError::NoInboundGroupSession {
                    group_id: group_id.clone(),
                    session_id: session_id.clone(),
                },
            E2eeError::IncompleteBundle => E2eeError::IncompleteBundle,
            E2eeError::NotPreKeyMessage => E2eeError::NotPreKeyMessage,
            E2eeError::Pickle(e) => E2eeError::Pickle(e.clone()),
        }
    }
}

/// Failures surfaced by the messenger layer.
#[derive(Debug, PartialEq, Eq)]
pub enum MessengerError {
    Io(IoError),
    Protocol(String),
    FrameTooLarge { size: usize, max: usize },
    UnknownPacketType(u8),
    UnsupportedVersion(u8),
    Decode(String),
    AuthFailed,
    Closed,
    Timeout(&'static str),
    Media(String),
    E2ee(E2eeError),
}

impl MessengerError {
    /// The message shown for the failure.
    pub open spec fn text(&self) -> Seq<char> {
        match self {
            MessengerError::Io(e) => "io error: "@ + e.message@,
            MessengerError::Protocol(m) => "protocol violation: "@ + m@,
            MessengerError::FrameTooLarge { size, max } => "frame too large: "@ + decimal(
                *size as nat,
            ) + " bytes (max "@ + decimal(*max as nat) + ")"@,
            MessengerError::UnknownPacketType(b) => "unknown packet type: 0x"@ + hex_text(
                seq![*b],
            ),
            MessengerError::UnsupportedVersion(v) => "unsupported protocol version: "@ + decimal(
                *v as nat,
            ),
            MessengerError::Decode(e) => "decode error: "@ + e@,
            MessengerError::AuthFailed => "authentication failed"@,
            MessengerError::Closed => "connection closed"@,
            MessengerError::Timeout(what) => "timeout waiting for "@ + what@,
            MessengerError::Media(m) => "media transfer failed: "@ + m@,
            MessengerError::E2ee(e) => "e2ee error: "@ + e.text(),
        }
    }

    /// The message shown for the failure.
    pub fn to_string(&self) -> (s: String)
        ensures
            s@ == self.text(),
    {
        match self {
            MessengerError::Io(e) => concat2("io error: ", e.message.as_str()),
            MessengerError::Protocol(m) => concat2("protocol violation: ", m.as_str()),
            MessengerError::FrameTooLarge { size, max } => {
                let mut s = "frame too large: ".to_string();
                push_decimal(&mut s, *size as u64);
                s.push_str(" bytes (max ");
                push_decimal(&mut s, *max as u64);
                s.push_str(")");
                s
            },
            MessengerError::UnknownPacketType(b) => {
                let mut one: Vec<u8> = Vec::new();
                one.push(*b);
                assert(one@ =~= seq![*b]);
                concat2("unknown packet type: 0x", hex_encode(one.as_slice()).as_str())
            },
            MessengerError::UnsupportedVersion(v) => {
                let mut s = "unsupported protocol version: ".to_string();
                push_decimal(&mut s, *v as u64);
                s
            },
            MessengerError::Decode(e) => concat2("decode error: ", e.as_str()),
            MessengerError::AuthFailed => "authentication failed".to_string(),
            MessengerError::Closed => "connection closed".to_string(),
            MessengerError::Timeout(what) => concat2("timeout waiting for ", *what),
            MessengerError::Media(m) => concat2("media transfer failed: ", m.as_str()),
            MessengerError::E2ee(e) => concat2("e2ee error: ", e.to_string().as_str()),
        }
    }
}

} // verus!
