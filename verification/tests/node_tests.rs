use inps::errors::ErrorKind;
use inps::mux::{DispatchAction, MuxTable, SourceKind};
use inps::node::{
    control_step, futex_loop, node_phase_next, peer_identities, scan_bind, LoopEvent, LoopStep,
    NodeConfig, NodePhase, NodeStep, CANCEL_EVENT_ID,
};

#[test]
fn binding_four_nodes_claims_distinct_identities_then_fails() {
    let max_nodes = 4;
    let mut taken = vec![false; max_nodes];
    let mut claimed = Vec::new();
    for _ in 0..max_nodes {
        let id = scan_bind(&taken).unwrap();
        taken[id] = true;
        claimed.push(id);
    }
    assert_eq!(claimed, vec![0, 1, 2, 3]);
    let e = scan_bind(&taken).unwrap_err();
    assert_eq!(e.kind, ErrorKind::Bind);
}

#[test]
fn bind_scan_claims_first_free_identity() {
    let taken = vec![true, false, false];
    assert_eq!(scan_bind(&taken).unwrap(), 1);
    let taken = vec![true, true, false, true];
    assert_eq!(scan_bind(&taken).unwrap(), 2);
}

#[test]
fn bind_scan_on_empty_pool_fails() {
    let taken: Vec<bool> = Vec::new();
    let e = scan_bind(&taken).unwrap_err();
    assert_eq!(e.kind, ErrorKind::Bind);
}

#[test]
fn peers_are_every_other_identity_in_order() {
    assert_eq!(peer_identities(1, 4), vec![0, 2, 3]);
    assert_eq!(peer_identities(0, 4), vec![1, 2, 3]);
    assert_eq!(peer_identities(3, 4), vec![0, 1, 2]);
    assert_eq!(peer_identities(0, 1), Vec::<u32>::new());
}

#[test]
fn cancellation_exits_the_loop_cleanly() {
    assert_eq!(
        control_step(&LoopEvent::SignalFired(CANCEL_EVENT_ID)),
        LoopStep::ExitClean
    );
}

#[test]
fn unexpected_signal_id_is_a_protocol_exit() {
    assert_eq!(
        control_step(&LoopEvent::SignalFired(7)),
        LoopStep::ExitProtocolError
    );
}

#[test]
fn ordinary_events_keep_the_loop_running() {
    assert_eq!(
        control_step(&LoopEvent::NewConnection),
        LoopStep::RegisterConnection
    );
    assert_eq!(control_step(&LoopEvent::PacketArrived), LoopStep::ForwardPacket);
    assert_eq!(
        control_step(&LoopEvent::DecodeFailed),
        LoopStep::ContinueAfterError
    );
}

#[test]
fn forwarding_stops_when_the_receiver_is_gone() {
    assert!(inps::node::after_forward(true));
    assert!(!inps::node::after_forward(false));
}

#[test]
fn two_nodes_mesh_and_the_first_sees_a_connection() {
    // Four slots; node A claims identity zero, node B identity one.
    let mut taken = vec![false; 4];
    let a = scan_bind(&taken).unwrap();
    taken[a] = true;
    assert_eq!(a, 0);
    let b = scan_bind(&taken).unwrap();
    taken[b] = true;
    assert_eq!(b, 1);
    // B's mesh formation dials every other identity, A's first.
    let peers = peer_identities(b as u32, 4);
    assert_eq!(peers[0], a as u32);
    // A's multiplexer watches its listening endpoint; when B's dial makes
    // it ready, the decoded input is a new connection to accept.
    let mut mux = MuxTable::new();
    let listener_key = 5;
    assert!(!mux.contains(listener_key));
    mux.register(listener_key, SourceKind::Listener);
    assert_eq!(
        mux.dispatch(listener_key).unwrap(),
        DispatchAction::AcceptConnection
    );
    assert_eq!(
        control_step(&LoopEvent::NewConnection),
        LoopStep::RegisterConnection
    );
}

#[test]
fn lifecycle_phases_advance_in_order_only() {
    let p = node_phase_next(NodePhase::Unbound, NodeStep::IdentityClaimed).unwrap();
    assert_eq!(p, NodePhase::Bound);
    let p = node_phase_next(p, NodeStep::PeersDialed).unwrap();
    assert_eq!(p, NodePhase::Meshed);
    let p = node_phase_next(p, NodeStep::ControlThreadSpawned).unwrap();
    assert_eq!(p, NodePhase::Running);
    let p = node_phase_next(p, NodeStep::CancellationSignalled).unwrap();
    assert_eq!(p, NodePhase::ShuttingDown);
    let p = node_phase_next(p, NodeStep::ControlThreadJoined).unwrap();
    assert_eq!(p, NodePhase::Stopped);
    assert!(node_phase_next(NodePhase::Unbound, NodeStep::PeersDialed).is_none());
    assert!(node_phase_next(NodePhase::Running, NodeStep::ControlThreadJoined).is_none());
}

#[test]
fn node_config_carries_name_and_pool_size() {
    let cfg = NodeConfig { name: "hello".to_string(), max_nodes: 20 };
    assert_eq!(cfg.name, "hello");
    assert_eq!(cfg.max_nodes, 20);
    futex_loop();
}
