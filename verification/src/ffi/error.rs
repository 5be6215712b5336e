//! Stable error codes for hosts.

use crate::messenger::error::MessengerError;
use crate::text::concat2;
use vstd::prelude::*;

verus! {

/// Numeric codes that hosts receive.
#[derive(Debug, Clone, Copy, PartialEq, Eq, Structural)]
pub enum FfiErrorCode {
    Success,
    Io,
    Protocol,
    FrameTooLarge,
    UnknownPacketType,
    UnsupportedVersion,
    Decode,
    AuthFailed,
    Closed,
    Timeout,
    Media,
    E2ee,
    InvalidArgument,
    NotConnected,
    Internal,
}

impl FfiErrorCode {
    /// The number that stands for the code.
    pub open spec fn number(self) -> i32 {
        match self {
            FfiErrorCode::Success => 0,
            FfiErrorCode::Io => 1,
            FfiErrorCode::Protocol => 2,
            FfiErrorCode::FrameTooLarge => 3,
            FfiErrorCode::UnknownPacketType => 4,
            FfiErrorCode::UnsupportedVersion => 5,
            FfiErrorCode::Decode => 6,
            FfiErrorCode::AuthFailed => 7,
            FfiErrorCode::Closed => 8,
            FfiErrorCode::Timeout => 9,
            FfiErrorCode::Media => 10,
            FfiErrorCode::E2ee => 11,
            FfiErrorCode::InvalidArgument => 12,
            FfiErrorCode::NotConnected => 13,
            FfiErrorCode::Internal => 14,
        }
    }

    /// The number that stands for the code.
    pub fn as_i32(self) -> (n: i32)
        ensures
            n == self.number(),
    {
        match self {
            FfiErrorCode::Success => 0,
            FfiErrorCode::Io => 1,
            FfiErrorCode::Protocol => 2,
            FfiErrorCode::FrameTooLarge => 3,
            FfiErrorCode::UnknownPacketType => 4,
            FfiErrorCode::UnsupportedVersion => 5,
            FfiErrorCode::Decode => 6,
            FfiErrorCode::AuthFailed => 7,
            FfiErrorCode::Closed => 8,
            FfiErrorCode::Timeout => 9,
            FfiErrorCode::Media => 10,
            FfiErrorCode::E2ee => 11,
            FfiErrorCode::InvalidArgument => 12,
            FfiErrorCode::NotConnected => 13,
            FfiErrorCode::Internal => 14,
        }
    }
}

/// A failure with its cause.
#[derive(Debug, PartialEq, Eq)]
pub enum FfiError {
    Messenger(MessengerError),
    InvalidArgument(String),
    NotConnected,
    Internal(String),
    E2ee(String),
}

/// The code of a messenger failure.
pub open spec fn messenger_code(e: MessengerError) -> FfiErrorCode {
    match e {
        MessengerError::Io(_) => FfiErrorCode::Io,
        MessengerError::Protocol(_) => FfiErrorCode::Protocol,
        MessengerError::FrameTooLarge { .. } => FfiErrorCode::FrameTooLarge,
        MessengerError::UnknownPacketType(_) => FfiErrorCode::UnknownPacketType,
        MessengerError::UnsupportedVersion(_) => FfiErrorCode::UnsupportedVersion,
        MessengerError::Decode(_) => FfiErrorCode::Decode,
        MessengerError::AuthFailed => FfiErrorCode::AuthFailed,
        MessengerError::Closed => FfiErrorCode::Closed,
        MessengerError::Timeout(_) => FfiErrorCode::Timeout,
        MessengerError::Media(_) => FfiErrorCode::Media,
        MessengerError::E2ee(_) => FfiErrorCode::E2ee,
    }
}

/// The code of a messenger failure.
fn map_messenger(e: &MessengerError) -> (c: FfiErrorCode)
    ensures
        c == messenger_code(*e),
{
    match e {
        MessengerError::Io(_) => FfiErrorCode::Io,
        MessengerError::Protocol(_) => FfiErrorCode::Protocol,
        MessengerError::FrameTooLarge { .. } => FfiErrorCode::FrameTooLarge,
        MessengerError::UnknownPacketType(_) => FfiErrorCode::UnknownPacketType,
        MessengerError::UnsupportedVersion(_) => FfiErrorCode::UnsupportedVersion,
        MessengerError::Decode(_) => FfiErrorCode::Decode,
        MessengerError::AuthFailed => FfiErrorCode::AuthFailed,
        MessengerError::Closed => FfiErrorCode::Closed,
        MessengerError::Timeout(_) => FfiErrorCode::Timeout,
        MessengerError::Media(_) => FfiErrorCode::Media,
        MessengerError::E2ee(_) => FfiErrorCode::E2ee,
    }
}

impl FfiError {
    /// The code of the failure.
    pub open spec fn code_of(self) -> FfiErrorCode {
        match self {
            FfiError::Messenger(e) => messenger_code(e),
            FfiError::InvalidArgument(_) => FfiErrorCode::InvalidArgument,
            FfiError::NotConnected => FfiErrorCode::NotConnected,
            FfiError::Internal(_) => FfiErrorCode::Internal,
            FfiError::E2ee(_) => FfiErrorCode::E2ee,
        }
    }

    /// The message shown for the failure.
    pub open spec fn text(self) -> Seq<char> {
        match self {
            FfiError::Messenger(e) => e.text(),
            FfiError::InvalidArgument(m) => "invalid argument: "@ + m@,
            FfiError::NotConnected => "not connected"@,
            FfiError::Internal(m) => "internal: "@ + m@,
            FfiError::E2ee(m) => "e2ee: "@ + m@,
        }
    }

    /// The code of the failure.
    pub fn code(&self) -> (c: FfiErrorCode)
        ensures
            c == self.code_of(),
    {
        match self {
            FfiError::Messenger(e) => map_messenger(e),
            FfiError::InvalidArgument(_) => FfiErrorCode::InvalidArgument,
            FfiError::NotConnected => FfiErrorCode::NotConnected,
            FfiError::Internal(_) => FfiErrorCode::Internal,
            FfiError::E2ee(_) => FfiErrorCode::E2ee,
        }
    }

    /// The message shown for the failure.
    pub fn detail(&self) -> (s: String)
        ensures
            s@ == self.text(),
    {
        match self {
            FfiError::Messenger(e) => e.to_string(),
            FfiError::InvalidArgument(m) => concat2("invalid argument: ", m.as_str()),
            FfiError::NotConnected => "not connected".to_string(),
            FfiError::Internal(m) => concat2("internal: ", m.as_str()),
            FfiError::E2ee(m) => concat2("e2ee: ", m.as_str()),
        }
    }
}

/// A failure as generated bindings show it.
#[derive(Debug, PartialEq, Eq)]
pub enum LaneError {
    Io { message: String },
    Protocol { message: String },
    AuthFailed,
    Closed,
    Timeout { message: String },
    Media { message: String },
    E2ee { message: String },
    InvalidArgument { message: String },
    NotConnected,
    Internal { message: String },
}

impl LaneError {
    /// The code that the failure is shown for; codes without a variant of their
    /// own are shown as internal.
    pub open spec fn code_of(self) -> FfiErrorCode {
        match self {
            LaneError::Io { .. } => FfiErrorCode::Io,
            LaneError::Protocol { .. } => FfiErrorCode::Protocol,
            LaneError::AuthFailed => FfiErrorCode::AuthFailed,
            LaneError::Closed => FfiErrorCode::Closed,
            LaneError::Timeout { .. } => FfiErrorCode::Timeout,
            LaneError::Media { .. } => FfiErrorCode::Media,
            LaneError::E2ee { .. } => FfiErrorCode::E2ee,
            LaneError::InvalidArgument { .. } => FfiErrorCode::InvalidArgument,
            LaneError::NotConnected => FfiErrorCode::NotConnected,
            LaneError::Internal { .. } => FfiErrorCode::Internal,
        }
    }

    /// The message shown for the failure.
    pub open spec fn text(self) -> Seq<char> {
        match self {
            LaneError::Io { message } => message@,
            LaneError::Protocol { message } => message@,
            LaneError::AuthFailed => "authentication failed"@,
            LaneError::Closed => "connection closed"@,
            LaneError::Timeout { message } => message@,
            LaneError::Media { message } => message@,
            LaneError::E2ee { message } => message@,
            LaneError::InvalidArgument { message } => message@,
            LaneError::NotConnected => "not connected"@,
            LaneError::Internal { message } => message@,
        }
    }

    /// The message shown for the failure.
    pub fn to_string(&self) -> (s: String)
        ensures
            s@ == self.text(),
    {
        match self {
            LaneError::Io { message } => message.clone(),
            LaneError::Protocol { message } => message.clone(),
            LaneError::AuthFailed => "authentication failed".to_string(),
            LaneError::Closed => "connection closed".to_string(),
            LaneError::Timeout { message } => message.clone(),
            LaneError::Media { message } => message.clone(),
            LaneError::E2ee { message } => message.clone(),
            LaneError::InvalidArgument { message } => message.clone(),
            LaneError::NotConnected => "not connected".to_string(),
            LaneError::Internal { message } => message.clone(),
        }
    }

    /// The failure as generated bindings show it.
    pub fn from_ffi(e: &FfiError) -> (r: LaneError)
        ensures
            carried_over(*e, r),
    {
        let message = e.detail();
        match e.code() {
            FfiErrorCode::Io => LaneError::Io { message },
            FfiErrorCode::Protocol => LaneError::Protocol { message },
            FfiErrorCode::AuthFailed => LaneError::AuthFailed,
            FfiErrorCode::Closed => LaneError::Closed,
            FfiErrorCode::Timeout => LaneError::Timeout { message },
            FfiErrorCode::Media => LaneError::Media { message },
            FfiErrorCode::E2ee => LaneError::E2ee { message },
            FfiErrorCode::InvalidArgument => LaneError::InvalidArgument { message },
            FfiErrorCode::NotConnected => LaneError::NotConnected,
            _ => LaneError::Internal { message },
        }
    }
}

/// No two codes share a number.
pub proof fn law_code_numbers_are_unique(a: FfiErrorCode, b: FfiErrorCode)
    requires
        a.number() == b.number(),
    ensures
        a == b,
{
}

/// A failure as the bindings show it.
pub open spec fn carried_over(e: FfiError, r: LaneError) -> bool {
    &&& r.code_of() == (match e.code_of() {
        FfiErrorCode::FrameTooLarge => FfiErrorCode::Internal,
        FfiErrorCode::UnknownPacketType => FfiErrorCode::Internal,
        FfiErrorCode::UnsupportedVersion => FfiErrorCode::Internal,
        FfiErrorCode::Decode => FfiErrorCode::Internal,
        FfiErrorCode::Success => FfiErrorCode::Internal,
        c => c,
    })
    &&& r.text() == e.text()
}

/// A failure keeps its kind and its text on the way to the host; kinds that the
/// bindings do not know are internal ones.
pub proof fn law_failures_keep_their_kind(e: FfiError, r: LaneError)
    requires
        carried_over(e, r),
    ensures
        e is NotConnected ==> r is NotConnected,
        e is InvalidArgument ==> r is InvalidArgument,
        e is Internal ==> r is Internal,
        e is E2ee ==> r is E2ee,
        e is Messenger ==> match e->Messenger_0 {
            MessengerError::Io(_) => r is Io,
            MessengerError::Protocol(_) => r is Protocol,
            MessengerError::AuthFailed => r is AuthFailed,
            MessengerError::Closed => r is Closed,
            MessengerError::Timeout(_) => r is Timeout,
            MessengerError::Media(_) => r is Media,
            MessengerError::E2ee(_) => r is E2ee,
            _ => r is Internal,
        },
        r.text() == e.text(),
{
}

} // verus!
