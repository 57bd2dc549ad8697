//! Model of the cross-thread signal source: a countable wake primitive.
//! Signalling increments a counter; consuming reads and resets it in one
//! step, so after a consume the counter is definitionally zero again —
//! which the multiplexer relies on to avoid spurious re-firing. The kernel
//! counter object that backs this across threads lives outside the
//! library; this model is what its operations must do to the count.
use crate::errors::{ErrorKind, SocketError};
use vstd::prelude::*;

verus! {

/// The largest value the kernel counter can hold; an increment past it is
/// refused by the kernel and surfaces as an I/O error.
pub const SIGNAL_COUNT_MAX: u64 = 0xffff_ffff_ffff_fffe;

/// The count of signals raised and not yet consumed.
pub struct SignalCounter {
    pub count: u64,
}

impl SignalCounter {
    /// A fresh counter holds zero.
    pub fn new() -> (r: SignalCounter)
        ensures
            r.count == 0,
    {
        SignalCounter { count: 0 }
    }

    /// Raise the signal once: the count goes up by one. Fails, changing
    /// nothing, exactly when the counter is saturated.
    pub fn signal(&mut self) -> (r: Result<(), SocketError>)
        ensures
            r is Ok <==> old(self).count < SIGNAL_COUNT_MAX,
            r is Ok ==> final(self).count == old(self).count + 1,
            r is Err ==> final(self).count == old(self).count,
            r matches Err(e) ==> e.kind == ErrorKind::Io,
    {
        if self.count >= SIGNAL_COUNT_MAX {
            return Err(SocketError::with_kind(ErrorKind::Io, "signal counter is saturated"));
        }
        self.count = self.count + 1;
        Ok(())
    }

    /// Consume all raised signals in one step: returns the count as it
    /// was and leaves the counter at zero.
    pub fn consume(&mut self) -> (r: u64)
        ensures
            r == old(self).count,
            final(self).count == 0,
    {
        let r = self.count;
        self.count = 0;
        r
    }
}

} // verus!
