//! Error taxonomy for the bus: construction, bind, connect, I/O, protocol
//! and corruption failures, each carried with a human-readable message.
use vstd::prelude::*;

verus! {

/// Which class of failure occurred; the class decides propagation:
/// construction and bind failures abort node construction, connect failures
/// are skipped per peer, corruption is retried by the reader.
#[derive(Clone, Copy, PartialEq, Eq, Structural, Debug)]
pub enum ErrorKind {
    /// A kernel resource (socket, readiness facility, signal counter,
    /// memory region) could not be allocated.
    Construction,
    /// The whole slot pool is taken; no identity is available.
    Bind,
    /// One specific peer was unreachable; always recoverable.
    Connect,
    /// A send, receive or accept failed on an established endpoint.
    Io,
    /// The multiplexer produced an event for an unregistered key, or an
    /// unexpected signal identifier arrived.
    Protocol,
    /// A ring-segment checksum mismatch on read; retry the slot later.
    Corruption,
}

/// An error of the bus, with its class and a description.
#[derive(Debug)]
pub struct SocketError {
    pub kind: ErrorKind,
    pub message: String,
}

impl SocketError {
    /// A general I/O failure with the given description.
    pub fn new(descr: String) -> (r: SocketError)
        ensures
            r.kind == ErrorKind::Io,
            r.message == descr,
    {
        SocketError { kind: ErrorKind::Io, message: descr }
    }

    /// An error of the given class with the given description.
    pub fn with_kind(kind: ErrorKind, descr: &str) -> (r: SocketError)
        ensures
            r.kind == kind,
            r.message@ == descr@,
    {
        SocketError { kind, message: descr.to_owned() }
    }

    /// The description text, for callers that want to log it.
    pub fn describe(&self) -> (r: &String)
        ensures
            r == &self.message,
    {
        &self.message
    }
}

} // verus!
