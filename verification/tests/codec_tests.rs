use inps::bytes::{load_u64, store_u64};
use inps::checksum::{checksum_all, checksum_range, CHECKSUM_PRIME, CHECKSUM_SEED};
use inps::errors::{ErrorKind, SocketError};
use inps::naming::{encode_sockaddr_data, slot_addr_data, slot_name};
use inps::signal::{SignalCounter, SIGNAL_COUNT_MAX};

#[test]
fn words_are_stored_least_significant_byte_first() {
    let mut b = vec![0u8; 16];
    store_u64(&mut b, 4, 0x0123_4567_89ab_cdef);
    assert_eq!(
        &b[4..12],
        &[0xef, 0xcd, 0xab, 0x89, 0x67, 0x45, 0x23, 0x01]
    );
    assert_eq!(load_u64(&b, 4), 0x0123_4567_89ab_cdef);
    assert_eq!(b[0], 0);
    assert_eq!(b[12], 0);
}

#[test]
fn checksum_folds_seed_through_each_byte() {
    assert_eq!(checksum_all(&Vec::new()), CHECKSUM_SEED);
    let one = CHECKSUM_SEED.wrapping_mul(CHECKSUM_PRIME).wrapping_add(9);
    assert_eq!(checksum_all(&vec![9u8]), one);
    let two = one.wrapping_mul(CHECKSUM_PRIME).wrapping_add(4);
    assert_eq!(checksum_all(&vec![9u8, 4u8]), two);
}

#[test]
fn checksum_range_matches_whole_vector() {
    let v = vec![1u8, 2, 3, 4, 5];
    assert_eq!(checksum_range(&v, 0, 5), checksum_all(&v));
    assert_eq!(checksum_range(&v, 1, 2), checksum_all(&vec![2u8, 3u8]));
}

#[test]
fn checksum_distinguishes_payloads() {
    assert_ne!(checksum_all(&vec![0u8]), checksum_all(&vec![1u8]));
    assert_ne!(checksum_all(&vec![1u8, 2u8]), checksum_all(&vec![2u8, 1u8]));
}

#[test]
fn slot_names_are_prefix_plus_two_digits() {
    assert_eq!(slot_name(0).unwrap(), b"\0inps.00");
    assert_eq!(slot_name(7).unwrap(), b"\0inps.07");
    assert_eq!(slot_name(42).unwrap(), b"\0inps.42");
    assert_eq!(slot_name(99).unwrap(), b"\0inps.99");
}

#[test]
fn identities_without_a_two_digit_name_are_rejected() {
    let e = slot_name(100).unwrap_err();
    assert_eq!(e.kind, ErrorKind::Construction);
}

#[test]
fn sockaddr_data_is_zero_led_and_zero_padded() {
    let name = slot_name(3).unwrap();
    let d = encode_sockaddr_data(&name).unwrap();
    assert_eq!(d.len(), 14);
    assert_eq!(d[0], 0);
    assert_eq!(&d[1..9], b"\0inps.03");
    assert_eq!(&d[9..], &[0, 0, 0, 0, 0]);
}

#[test]
fn names_longer_than_the_buffer_are_rejected() {
    let name = vec![b'x'; 13];
    let e = encode_sockaddr_data(&name).unwrap_err();
    assert_eq!(e.kind, ErrorKind::Construction);
    let name = vec![b'x'; 12];
    assert!(encode_sockaddr_data(&name).is_ok());
}

#[test]
fn slot_addr_data_composes_name_and_encoding() {
    let d = slot_addr_data(17).unwrap();
    assert_eq!(d.len(), 14);
    assert_eq!(&d[1..9], b"\0inps.17");
    assert!(slot_addr_data(200).is_err());
}

#[test]
fn signal_counter_counts_and_resets() {
    let mut s = SignalCounter::new();
    assert_eq!(s.count, 0);
    s.signal().unwrap();
    s.signal().unwrap();
    assert_eq!(s.consume(), 2);
    assert_eq!(s.count, 0);
    assert_eq!(s.consume(), 0);
}

#[test]
fn saturated_signal_counter_reports_io_error() {
    let mut s = SignalCounter::new();
    s.count = SIGNAL_COUNT_MAX;
    let e = s.signal().unwrap_err();
    assert_eq!(e.kind, ErrorKind::Io);
    assert_eq!(s.count, SIGNAL_COUNT_MAX);
}

#[test]
fn socket_errors_carry_kind_and_message() {
    let e = SocketError::new("receive failed".to_string());
    assert_eq!(e.kind, ErrorKind::Io);
    assert_eq!(e.describe().as_str(), "receive failed");
    let e = SocketError::with_kind(ErrorKind::Connect, "peer not listening");
    assert_eq!(e.kind, ErrorKind::Connect);
    assert_eq!(e.message, "peer not listening");
}
