//! Mesh node lifecycle decisions: claiming a slot identity from the
//! bounded pool (first free identity wins, and the scan stops there),
//! the set of sibling identities to dial, and the control loop's reaction
//! to each decoded input — including clean, signal-based cancellation.
//! The sockets, the thread, and the channel that carry these decisions
//! out live outside the library; every decision itself is made here.
use crate::errors::{ErrorKind, SocketError};
use vstd::prelude::*;

verus! {

/// Construction parameters of a node: its free-text name and the size of
/// the slot-identity pool (and thus the largest possible mesh).
pub struct NodeConfig {
    pub name: String,
    pub max_nodes: u32,
}

/// Identity `i` is the one the binding scan claims: it is free and every
/// lower identity is taken.
pub open spec fn spec_is_first_free(pool: Seq<bool>, i: int) -> bool {
    &&& 0 <= i < pool.len()
    &&& !pool[i]
    &&& forall|k: int| 0 <= k < i ==> pool[k]
}

/// Scan the identity pool in order and claim the first free identity;
/// the scan stops at the first success and keeps that result. Fails with
/// a bind error exactly when the whole pool is taken.
pub fn scan_bind(taken: &Vec<bool>) -> (r: Result<usize, SocketError>)
    ensures
        r matches Ok(i) ==> spec_is_first_free(taken@, i as int),
        (r is Err) <==> (forall|k: int| 0 <= k < taken@.len() ==> taken@[k]),
        r matches Err(e) ==> e.kind == ErrorKind::Bind,
{
    let n = taken.len();
    let mut i: usize = 0;
    while i < n
        invariant
            n == taken@.len(),
            i <= n,
            forall|k: int| 0 <= k < i ==> taken@[k],
        decreases n - i,
    {
        if !taken[i] {
            return Ok(i);
        }
        i = i + 1;
    }
    Err(SocketError::with_kind(ErrorKind::Bind, "no available sockets"))
}

/// Sequential mesh formation claims identities in order: with exactly the
/// first `m` identities of the pool taken, the next bind claims identity
/// `m`, and marking it taken leaves exactly the first `m + 1` taken. So
/// nodes bound in sequence occupy the distinct identities `0, 1, …` and
/// each claim is pinned before the next scan begins.
pub proof fn lemma_bind_claims_next(pool: Seq<bool>, m: int, i: int)
    requires
        0 <= m < pool.len(),
        forall|k: int| 0 <= k < pool.len() ==> ((#[trigger] pool[k]) <==> k < m),
        spec_is_first_free(pool, i),
    ensures
        i == m,
        forall|k: int|
            0 <= k < pool.len() ==> ((#[trigger] pool.update(m, true)[k]) <==> k < m + 1),
{
    if i < m {
        assert(pool[i]);
    }
    if i > m {
        assert(!pool[m]);
        assert(pool[m]);
    }
}

/// Once every identity of the pool is taken, no scan finds a free
/// identity: the next node construction fails with a bind error.
pub proof fn lemma_bind_pool_exhausted(pool: Seq<bool>)
    requires
        forall|k: int| 0 <= k < pool.len() ==> pool[k],
    ensures
        forall|i: int| !spec_is_first_free(pool, i),
{
}

/// The identities a freshly bound node dials: every identity of the pool
/// other than its own, in ascending order. Each dial is best-effort; a
/// sibling that is not yet listening is skipped, never fatal.
pub fn peer_identities(self_id: u32, max_nodes: u32) -> (r: Vec<u32>)
    requires
        self_id < max_nodes,
    ensures
        r@.len() == max_nodes - 1,
        forall|k: int|
            0 <= k < r@.len() ==> (#[trigger] r@[k]) as int == (if k < self_id as int {
                k
            } else {
                k + 1
            }),
{
    let mut r: Vec<u32> = Vec::new();
    let mut i: u32 = 0;
    while i < max_nodes
        invariant
            self_id < max_nodes,
            i <= max_nodes,
            i <= self_id ==> r@.len() == i,
            i > self_id ==> r@.len() == i - 1,
            forall|k: int|
                0 <= k < r@.len() ==> (#[trigger] r@[k]) as int == (if k < self_id as int {
                    k
                } else {
                    k + 1
                }),
        decreases max_nodes - i,
    {
        if i != self_id {
            r.push(i);
        }
        i = i + 1;
    }
    r
}

/// The logical identifier the cancellation signal source is registered
/// under in the control thread's multiplexer.
pub const CANCEL_EVENT_ID: u64 = 0;

/// One decoded input as the control loop sees it: a fresh inbound
/// connection, a packet from a connected peer, a signal source firing
/// with its logical id, or a readiness report the multiplexer could not
/// decode.
#[derive(Clone, Copy, PartialEq, Eq, Structural, Debug)]
pub enum LoopEvent {
    NewConnection,
    PacketArrived,
    SignalFired(u64),
    DecodeFailed,
}

/// What the control loop does with one decoded input.
#[derive(Clone, Copy, PartialEq, Eq, Structural, Debug)]
pub enum LoopStep {
    /// Register the new connection with the multiplexer and keep going.
    RegisterConnection,
    /// Forward the packet to the owner's channel and keep going.
    ForwardPacket,
    /// Cancellation was signalled: leave the loop with a clean result.
    ExitClean,
    /// A signal fired under an unexpected id: leave the loop with a
    /// protocol error.
    ExitProtocolError,
    /// A single bad readiness decode is logged and the loop keeps going.
    ContinueAfterError,
}

/// The loop's decision for one decoded input.
pub open spec fn spec_control_step(ev: LoopEvent) -> LoopStep {
    match ev {
        LoopEvent::NewConnection => LoopStep::RegisterConnection,
        LoopEvent::PacketArrived => LoopStep::ForwardPacket,
        LoopEvent::SignalFired(id) => if id == CANCEL_EVENT_ID {
            LoopStep::ExitClean
        } else {
            LoopStep::ExitProtocolError
        },
        LoopEvent::DecodeFailed => LoopStep::ContinueAfterError,
    }
}

/// The step leaves the loop.
pub open spec fn spec_step_exits(s: LoopStep) -> bool {
    s == LoopStep::ExitClean || s == LoopStep::ExitProtocolError
}

/// Decide what the control loop does with one decoded input.
pub fn control_step(ev: &LoopEvent) -> (r: LoopStep)
    ensures
        r == spec_control_step(*ev),
{
    match ev {
        LoopEvent::NewConnection => LoopStep::RegisterConnection,
        LoopEvent::PacketArrived => LoopStep::ForwardPacket,
        LoopEvent::SignalFired(id) => {
            if *id == CANCEL_EVENT_ID {
                LoopStep::ExitClean
            } else {
                LoopStep::ExitProtocolError
            }
        },
        LoopEvent::DecodeFailed => LoopStep::ContinueAfterError,
    }
}

/// After forwarding a packet, the loop keeps going exactly while the
/// owner's channel still has its receiver; when the receiver is gone the
/// loop ends cleanly, since nobody is left to consume.
pub fn after_forward(delivered: bool) -> (keep_going: bool)
    ensures
        keep_going == delivered,
{
    delivered
}

/// Cancellation is honored within one wait cycle: in a run of decoded
/// inputs whose first signal is the cancellation signal, every earlier
/// input leaves the loop running, and the cancellation input itself exits
/// the loop cleanly — a non-error join result when nothing else failed.
pub proof fn lemma_cancellation_exits_once(events: Seq<LoopEvent>, p: int)
    requires
        0 <= p < events.len(),
        events[p] == LoopEvent::SignalFired(CANCEL_EVENT_ID),
        forall|k: int| 0 <= k < p ==> !((#[trigger] events[k]) is SignalFired),
    ensures
        forall|k: int| 0 <= k < p ==> !spec_step_exits(spec_control_step(#[trigger] events[k])),
        spec_control_step(events[p]) == LoopStep::ExitClean,
{
    assert forall|k: int| 0 <= k < p implies !spec_step_exits(
        spec_control_step(#[trigger] events[k]),
    ) by {
        let ev = events[k];
        assert(!(ev is SignalFired));
    }
}

/// Where a node stands in its lifecycle, from construction to teardown.
#[derive(Clone, Copy, PartialEq, Eq, Structural, Debug)]
pub enum NodePhase {
    /// No identity claimed yet.
    Unbound,
    /// An identity is claimed and its listening endpoint is open.
    Bound,
    /// Every sibling identity has been dialed, best effort.
    Meshed,
    /// The control thread runs the multiplexer loop.
    Running,
    /// Cancellation has been signalled; the loop has one cycle to see it.
    ShuttingDown,
    /// The control thread is joined and every resource released.
    Stopped,
}

/// What just happened to the node, advancing its lifecycle.
#[derive(Clone, Copy, PartialEq, Eq, Structural, Debug)]
pub enum NodeStep {
    /// The binding scan claimed an identity.
    IdentityClaimed,
    /// Every sibling identity was dialed.
    PeersDialed,
    /// The control thread was spawned with the endpoint and the signal.
    ControlThreadSpawned,
    /// The owner signalled cancellation once.
    CancellationSignalled,
    /// The owner joined the control thread.
    ControlThreadJoined,
}

/// The lifecycle transition relation: which phase each step leads to, and
/// from which phase alone it is allowed. A step taken in any other phase
/// is refused.
pub open spec fn spec_node_phase_next(phase: NodePhase, step: NodeStep) -> Option<NodePhase> {
    match (phase, step) {
        (NodePhase::Unbound, NodeStep::IdentityClaimed) => Some(NodePhase::Bound),
        (NodePhase::Bound, NodeStep::PeersDialed) => Some(NodePhase::Meshed),
        (NodePhase::Meshed, NodeStep::ControlThreadSpawned) => Some(NodePhase::Running),
        (NodePhase::Running, NodeStep::CancellationSignalled) => Some(NodePhase::ShuttingDown),
        (NodePhase::ShuttingDown, NodeStep::ControlThreadJoined) => Some(NodePhase::Stopped),
        _ => None,
    }
}

/// Advance the lifecycle by one step, refusing a step out of order.
pub fn node_phase_next(phase: NodePhase, step: NodeStep) -> (r: Option<NodePhase>)
    ensures
        r == spec_node_phase_next(phase, step),
{
    match (phase, step) {
        (NodePhase::Unbound, NodeStep::IdentityClaimed) => Some(NodePhase::Bound),
        (NodePhase::Bound, NodeStep::PeersDialed) => Some(NodePhase::Meshed),
        (NodePhase::Meshed, NodeStep::ControlThreadSpawned) => Some(NodePhase::Running),
        (NodePhase::Running, NodeStep::CancellationSignalled) => Some(NodePhase::ShuttingDown),
        (NodePhase::ShuttingDown, NodeStep::ControlThreadJoined) => Some(NodePhase::Stopped),
        _ => None,
    }
}

/// One pass of the segment-walking loop that the memory-backed counting
/// primitive would drive. That primitive is constructed but not wired
/// into any protocol, so a pass performs no work.
pub fn futex_loop() {
}

} // verus!
