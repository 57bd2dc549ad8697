use inps::errors::ErrorKind;
use inps::mux::{DispatchAction, MuxTable, Packet, SourceKind};

#[test]
fn dispatch_decodes_each_registered_kind() {
    let mut mux = MuxTable::new();
    mux.register(3, SourceKind::Listener);
    mux.register(4, SourceKind::Stream);
    mux.register(9, SourceKind::Event(0));
    assert_eq!(mux.dispatch(3).unwrap(), DispatchAction::AcceptConnection);
    assert_eq!(mux.dispatch(4).unwrap(), DispatchAction::ReceivePacket);
    assert_eq!(mux.dispatch(9).unwrap(), DispatchAction::ConsumeSignal(0));
}

#[test]
fn unregistered_key_never_yields_an_input() {
    let mut mux = MuxTable::new();
    mux.register(3, SourceKind::Listener);
    let e = mux.dispatch(11).unwrap_err();
    assert_eq!(e.kind, ErrorKind::Protocol);
    let e = MuxTable::new().dispatch(0).unwrap_err();
    assert_eq!(e.kind, ErrorKind::Protocol);
}

#[test]
fn contains_reports_registrations() {
    let mut mux = MuxTable::new();
    assert!(!mux.contains(8));
    mux.register(8, SourceKind::Stream);
    assert!(mux.contains(8));
    assert!(!mux.contains(9));
}

#[test]
fn signal_dispatch_returns_the_logical_id_not_the_key() {
    let mut mux = MuxTable::new();
    mux.register(42, SourceKind::Event(7));
    assert_eq!(mux.dispatch(42).unwrap(), DispatchAction::ConsumeSignal(7));
}

#[test]
fn packet_keeps_only_the_received_prefixes() {
    let bytes = vec![1u8, 2, 3, 4, 5, 6, 7, 8];
    let fds = vec![-1, -1, -1];
    let p = Packet::from_recv(bytes, fds, 3, 1);
    assert_eq!(p.bytes, vec![1, 2, 3]);
    assert_eq!(p.fds, vec![-1]);
}

#[test]
fn packet_may_carry_no_descriptors() {
    let p = Packet::from_recv(vec![9u8; 16], vec![-1; 3], 16, 0);
    assert_eq!(p.bytes.len(), 16);
    assert!(p.fds.is_empty());
}
