//! I/O failures as plain values.

use crate::consistency::ConsistencyError;
use vstd::prelude::*;

verus! {

/// What kind of I/O failure occurred.
#[derive(Clone, Copy, Debug, PartialEq, Eq, Structural)]
pub enum IoErrorKind {
    InvalidData,
    InvalidInput,
    NotConnected,
    NotFound,
    Other,
}

/// An I/O failure: its kind and the message shown for it.
#[derive(Debug, PartialEq, Eq)]
pub struct IoError {
    pub kind: IoErrorKind,
    pub message: String,
}

impl IoError {
    /// A failure of the given kind.
    pub fn new(kind: IoErrorKind, message: String) -> (e: IoError)
        ensures
            e == (IoError { kind, message }),
    {
        IoError { kind, message }
    }

    /// A failure without a more precise kind.
    pub fn other(message: String) -> (e: IoError)
        ensures
            e == (IoError { kind: IoErrorKind::Other, message }),
    {
        IoError { kind: IoErrorKind::Other, message }
    }

    /// The kind of the failure.
    pub fn kind(&self) -> (k: IoErrorKind)
        ensures
            k == self.kind,
    {
        self.kind
    }

    /// A consistency failure, reported through an I/O interface.
    pub fn from_consistency(err: ConsistencyError) -> (e: IoError)
        requires
            err.wf(),
        ensures
            e.kind == IoErrorKind::Other,
            e.message@ == err.text(),
    {
        IoError { kind: IoErrorKind::Other, message: err.to_string() }
    }
}

} // verus!
