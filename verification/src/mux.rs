//! Event multiplexer model: the registration table that maps a per-source
//! numeric key to the kind of source registered under it, and the dispatch
//! decision that turns one readiness report into one typed action. The
//! blocking wait itself and the sockets it watches live outside the
//! library; the table and the decisions here are what make one readiness
//! report become exactly one decoded input, and never one for an
//! unregistered key.
use crate::errors::{ErrorKind, SocketError};
use vstd::prelude::*;

verus! {

/// The kind of event source registered under a key: a listening endpoint,
/// a connected endpoint, or a signal source with its logical identifier.
#[derive(Clone, Copy, PartialEq, Eq, Structural, Debug)]
pub enum SourceKind {
    Listener,
    Stream,
    Event(u64),
}

/// What the owner of the multiplexer must do for one ready source:
/// accept exactly one pending connection, perform one bounded receive, or
/// consume the signal counter registered under the given logical id.
#[derive(Clone, Copy, PartialEq, Eq, Structural, Debug)]
pub enum DispatchAction {
    AcceptConnection,
    ReceivePacket,
    ConsumeSignal(u64),
}

/// A received packet may carry at most this many ancillary descriptors
/// alongside its payload bytes; the receive buffer is sized to it.
pub const MAX_ANCILLARY_FDS: usize = 3;

/// One received message: its payload bytes and the descriptors (at most
/// three) that rode along with it.
pub struct Packet {
    pub bytes: Vec<u8>,
    pub fds: Vec<i32>,
}

impl Packet {
    /// Shape a packet from a bounded receive: the receive fills prefixes
    /// of two fixed-size buffers and reports how much of each is real.
    pub fn from_recv(bytes: Vec<u8>, fds: Vec<i32>, nbytes: usize, nfds: usize) -> (p: Packet)
        requires
            nbytes <= bytes@.len(),
            nfds <= fds@.len(),
        ensures
            p.bytes@ == bytes@.subrange(0, nbytes as int),
            p.fds@ == fds@.subrange(0, nfds as int),
    {
        let mut bytes = bytes;
        let mut fds = fds;
        bytes.truncate(nbytes);
        fds.truncate(nfds);
        Packet { bytes, fds }
    }
}

/// The kind registered under `key`, if any.
pub open spec fn spec_lookup(entries: Seq<(u64, SourceKind)>, key: u64) -> Option<SourceKind>
    decreases entries.len(),
{
    if entries.len() == 0 {
        None
    } else if entries.last().0 == key {
        Some(entries.last().1)
    } else {
        spec_lookup(entries.drop_last(), key)
    }
}

/// A key occurs in the table.
pub open spec fn spec_contains(entries: Seq<(u64, SourceKind)>, key: u64) -> bool {
    exists|i: int| 0 <= i < entries.len() && (#[trigger] entries[i]).0 == key
}

/// A present key looks up to something; an absent key to nothing.
pub proof fn lemma_lookup_contains(entries: Seq<(u64, SourceKind)>, key: u64)
    ensures
        spec_contains(entries, key) <==> spec_lookup(entries, key) is Some,
    decreases entries.len(),
{
    if entries.len() > 0 {
        lemma_lookup_contains(entries.drop_last(), key);
        if entries.last().0 == key {
            assert(entries[entries.len() - 1].0 == key);
        } else if spec_contains(entries, key) {
            let i = choose|i: int| 0 <= i < entries.len() && (#[trigger] entries[i]).0 == key;
            assert(entries.drop_last()[i].0 == key);
        } else {
            assert forall|i: int|
                0 <= i < entries.drop_last().len() implies (#[trigger] entries.drop_last()[
            i]).0 != key by {
                assert(entries[i] == entries.drop_last()[i]);
            }
        }
    }
}

/// The multiplexer's registration table. The multiplexer exclusively owns
/// every source once registered; this table records, per key, which kind
/// of source that is, so that one readiness report decodes to one action.
pub struct MuxTable {
    pub entries: Vec<(u64, SourceKind)>,
}

impl MuxTable {
    /// No key is registered twice.
    pub open spec fn wf(&self) -> bool {
        forall|i: int, j: int|
            0 <= i < j < self.entries@.len() ==> (#[trigger] self.entries@[i]).0 != (
            #[trigger] self.entries@[j]).0
    }

    /// An empty registration table.
    pub fn new() -> (r: MuxTable)
        ensures
            r.wf(),
            r.entries@.len() == 0,
    {
        MuxTable { entries: Vec::new() }
    }

    /// Whether a key is already registered.
    pub fn contains(&self, key: u64) -> (r: bool)
        ensures
            r == spec_contains(self.entries@, key),
            r == (spec_lookup(self.entries@, key) is Some),
    {
        let mut i: usize = 0;
        let n = self.entries.len();
        proof {
            lemma_lookup_contains(self.entries@, key);
        }
        while i < n
            invariant
                n == self.entries@.len(),
                i <= n,
                forall|k: int| 0 <= k < i ==> (#[trigger] self.entries@[k]).0 != key,
            decreases n - i,
        {
            if self.entries[i].0 == key {
                proof {
                    assert((self.entries@[i as int]).0 == key);
                    lemma_lookup_contains(self.entries@, key);
                }
                return true;
            }
            i = i + 1;
        }
        false
    }

    /// Register one source under `key`. The caller must not register the
    /// same key twice; the multiplexer's owner keys sources by descriptor
    /// value, which the kernel keeps unique among live descriptors.
    pub fn register(&mut self, key: u64, kind: SourceKind)
        requires
            old(self).wf(),
            !spec_contains(old(self).entries@, key),
        ensures
            final(self).wf(),
            final(self).entries@ == old(self).entries@.push((key, kind)),
            spec_lookup(final(self).entries@, key) == Some(kind),
            forall|k: u64|
                k != key ==> #[trigger] spec_lookup(final(self).entries@, k) == spec_lookup(
                    old(self).entries@,
                    k,
                ),
    {
        self.entries.push((key, kind));
        proof {
            assert(self.entries@.drop_last() =~= old(self).entries@);
            assert forall|k: u64| k != key implies #[trigger] spec_lookup(self.entries@, k)
                == spec_lookup(old(self).entries@, k) by {
                assert(spec_lookup(self.entries@, k) == spec_lookup(self.entries@.drop_last(), k));
            }
        }
    }

    /// Decode one readiness report: the action for the source registered
    /// under `key`, or a protocol error — never an input — when the key is
    /// not registered.
    pub fn dispatch(&self, key: u64) -> (r: Result<DispatchAction, SocketError>)
        ensures
            (r is Err) <==> spec_lookup(self.entries@, key) is None,
            r matches Err(e) ==> e.kind == ErrorKind::Protocol,
            spec_lookup(self.entries@, key) == Some(SourceKind::Listener) <==> (r matches Ok(a)
                && a == DispatchAction::AcceptConnection),
            spec_lookup(self.entries@, key) == Some(SourceKind::Stream) <==> (r matches Ok(a) && a
                == DispatchAction::ReceivePacket),
            spec_lookup(self.entries@, key) matches Some(SourceKind::Event(id)) ==> (r matches Ok(
                a,
            ) && a == DispatchAction::ConsumeSignal(id)),
            r matches Ok(a) ==> (a matches DispatchAction::ConsumeSignal(id) ==> spec_lookup(
                self.entries@,
                key,
            ) == Some(SourceKind::Event(id))),
    {
        let n = self.entries.len();
        let mut i: usize = n;
        proof {
            assert(self.entries@.subrange(0, n as int) =~= self.entries@);
        }
        while i > 0
            invariant
                n == self.entries@.len(),
                i <= n,
                spec_lookup(self.entries@, key) == spec_lookup(
                    self.entries@.subrange(0, i as int),
                    key,
                ),
            decreases i,
        {
            let (k, kind) = self.entries[i - 1];
            proof {
                assert(self.entries@.subrange(0, i as int).last() == self.entries@[i - 1]);
                assert(self.entries@.subrange(0, i as int).drop_last() =~= self.entries@.subrange(
                    0,
                    i as int - 1,
                ));
            }
            if k == key {
                return Ok(
                    match kind {
                        SourceKind::Listener => DispatchAction::AcceptConnection,
                        SourceKind::Stream => DispatchAction::ReceivePacket,
                        SourceKind::Event(id) => DispatchAction::ConsumeSignal(id),
                    },
                );
            }
            i = i - 1;
        }
        proof {
            assert(self.entries@.subrange(0, 0) =~= Seq::<(u64, SourceKind)>::empty());
        }
        Err(SocketError::with_kind(ErrorKind::Protocol, "no source registered under ready key"))
    }
}

/// How often `key` was reported ready in a run of readiness reports.
pub open spec fn spec_ready_count(readies: Seq<u64>, key: u64) -> nat
    decreases readies.len(),
{
    if readies.len() == 0 {
        0
    } else {
        spec_ready_count(readies.drop_last(), key) + if readies.last() == key {
            1nat
        } else {
            0nat
        }
    }
}

/// How many inputs a run of dispatches delivers for the source under
/// `key`: one per readiness report of that key, and none at all when the
/// key is unregistered.
pub open spec fn spec_fire_count(
    entries: Seq<(u64, SourceKind)>,
    readies: Seq<u64>,
    key: u64,
) -> nat
    decreases readies.len(),
{
    if readies.len() == 0 {
        0
    } else {
        spec_fire_count(entries, readies.drop_last(), key) + if readies.last() == key
            && spec_lookup(entries, key) is Some {
            1nat
        } else {
            0nat
        }
    }
}

/// Over any run of readiness reports, a registered source fires at most
/// the number of times it was reported ready, and an unregistered key
/// never fires at all.
pub proof fn lemma_fires_bounded(entries: Seq<(u64, SourceKind)>, readies: Seq<u64>, key: u64)
    ensures
        spec_fire_count(entries, readies, key) <= spec_ready_count(readies, key),
        spec_lookup(entries, key) is None ==> spec_fire_count(entries, readies, key) == 0,
    decreases readies.len(),
{
    if readies.len() > 0 {
        lemma_fires_bounded(entries, readies.drop_last(), key);
    }
}

} // verus!
