use argus_mesh::clock::Timestamp;
use argus_mesh::transport::connection::ConnectionTable;
use argus_mesh::transport::fragment::{fragment, CHUNK};
use argus_mesh::transport::messaging::{decode_ack, encode_ack, is_ack_packet, Ack, AckTracker};
use argus_mesh::transport::reassembly::Reassembler;

fn fresh_id() -> u128 {
    uuid::Uuid::new_v4().as_u128()
}

#[test]
fn test_fragment_small() {
    let id = fresh_id();
    let data = vec![1, 2, 3, 4];
    let parts = fragment(id, &data);

    assert_eq!(parts.len(), 1);
    let part = &parts[0];

    // Header: 16 (UUID) + 2 (seq) + 2 (total) = 20 bytes
    assert!(part.len() > 20);
    assert_eq!(part[16..18], [0, 0]); // seq 0
    assert_eq!(part[18..20], [0, 1]); // total 1
    assert_eq!(&part[20..], &data[..]);
}

#[test]
fn test_fragment_large() {
    let id = fresh_id();
    let data = vec![0u8; CHUNK + 10]; // 1 full chunk + 10 bytes
    let parts = fragment(id, &data);

    assert_eq!(parts.len(), 2);

    // Check first part
    assert_eq!(parts[0][16..18], [0, 0]); // seq 0
    assert_eq!(parts[0][18..20], [0, 2]); // total 2
    assert_eq!(parts[0].len(), 20 + CHUNK);

    // Check second part
    assert_eq!(parts[1][16..18], [0, 1]); // seq 1
    assert_eq!(parts[1][18..20], [0, 2]); // total 2
    assert_eq!(parts[1].len(), 20 + 10);
}

#[test]
fn fragment_header_carries_id_bytes() {
    let id: u128 = 0x0102030405060708090a0b0c0d0e0f10;
    let parts = fragment(id, &[42u8]);
    assert_eq!(&parts[0][0..16], &uuid::Uuid::from_u128(id).as_bytes()[..]);
    assert!(fragment(id, &[]).is_empty());
    assert_eq!(fragment(id, &vec![5u8; CHUNK]).len(), 1);
    assert_eq!(fragment(id, &vec![5u8; CHUNK + 1]).len(), 2);
}

#[test]
fn ack_encode_decode_roundtrip() {
    let id = fresh_id();
    let raw = encode_ack(id, true);
    assert_eq!(raw.len(), 17);
    assert!(is_ack_packet(&raw));

    match decode_ack(&raw) {
        Some(Ack::Ack(decoded_id)) => assert_eq!(decoded_id, id),
        _ => panic!("Expected Ack"),
    }
}

#[test]
fn nack_encode_decode_roundtrip() {
    let id = fresh_id();
    let raw = encode_ack(id, false);
    match decode_ack(&raw) {
        Some(Ack::Nack(decoded_id)) => assert_eq!(decoded_id, id),
        _ => panic!("Expected Nack"),
    }
}

#[test]
fn invalid_length_returns_none() {
    assert!(decode_ack(&[1, 2, 3]).is_none());
    assert!(!is_ack_packet(&[1, 2, 3]));
}

#[test]
fn ack_packet_layout() {
    let raw = encode_ack(1, true);
    assert_eq!(raw[0], 1);
    assert_eq!(raw[16], 1);
    assert_eq!(&raw[1..16], &[0u8; 15]);
    let mut other = raw.clone();
    other[0] = 7;
    assert_eq!(decode_ack(&other), Some(Ack::Nack(1)));
}

#[test]
fn ack_tracker_register_and_receive() {
    let mut tracker = AckTracker::new(30);
    let id = fresh_id();

    tracker.register(id);
    assert_eq!(tracker.pending_count(), 1);
    assert!(!tracker.is_acked(&id));

    let ack = Ack::Ack(id);
    assert!(tracker.receive_ack(&ack));
    assert_eq!(tracker.pending_count(), 0);
    assert!(tracker.is_acked(&id));
}

#[test]
fn ack_tracker_unknown_id_ignored() {
    let mut tracker = AckTracker::new(30);
    let unknown = Ack::Ack(fresh_id());
    assert!(!tracker.receive_ack(&unknown));
}

#[test]
fn ack_tracker_nack_and_expiry() {
    let mut tracker = AckTracker::new(30);
    tracker.register_at(1, Timestamp { secs: 100, nanos: 0 });
    tracker.register_at(2, Timestamp { secs: 120, nanos: 0 });
    assert_eq!(tracker.stats(), (2, 0));
    // a NACK for a pending message also settles it
    assert!(tracker.receive_ack(&Ack::Nack(1)));
    assert!(tracker.is_acked(&1));
    assert_eq!(tracker.pending_count(), 1);
    tracker.prune_expired_at(Timestamp { secs: 149, nanos: 999_999_999 });
    assert_eq!(tracker.pending_count(), 1);
    tracker.prune_expired_at(Timestamp { secs: 150, nanos: 0 });
    assert_eq!(tracker.pending_count(), 0);
    assert_eq!(tracker.acked_count(), 1);
}

#[test]
fn test_reassembly_single() {
    let mut r = Reassembler::new();
    let id = uuid::Uuid::new_v4();
    let data = vec![1, 2, 3, 4];

    // Header: 16 (UUID) + 2 (seq=0) + 2 (total=1) + Payload
    let mut packet = Vec::new();
    packet.extend_from_slice(id.as_bytes());
    packet.extend_from_slice(&(0u16).to_be_bytes());
    packet.extend_from_slice(&(1u16).to_be_bytes());
    packet.extend_from_slice(&data);

    let res = r.push(packet);
    assert_eq!(res, Some(data));
}

#[test]
fn test_reassembly_multi() {
    let mut r = Reassembler::new();
    let id = fresh_id();
    let data = vec![0u8; 300]; // Should be 2 fragments (chunk=160)

    let parts = fragment(id, &data);
    assert_eq!(parts.len(), 2);

    let res1 = r.push(parts[0].clone());
    assert_eq!(res1, None);

    let res2 = r.push(parts[1].clone());
    assert_eq!(res2, Some(data));
}

#[test]
fn test_reassembly_out_of_order() {
    let mut r = Reassembler::new();
    let id = fresh_id();
    let data = vec![0u8; 300];
    let parts = fragment(id, &data);

    let res1 = r.push(parts[1].clone());
    assert_eq!(res1, None);

    let res2 = r.push(parts[0].clone());
    assert_eq!(res2, Some(data));
}

#[test]
fn reassembly_short_and_stale_packets() {
    let mut r = Reassembler::new();
    assert_eq!(r.push_at(vec![1, 2, 3], Timestamp { secs: 10, nanos: 0 }), None);
    let data: Vec<u8> = (0..200u32).map(|x| x as u8).collect();
    let parts = fragment(9, &data);
    assert_eq!(r.push_at(parts[0].clone(), Timestamp { secs: 10, nanos: 0 }), None);
    assert_eq!(r.metrics(), (1, 2));
    // after 30 seconds the partial message is dropped: the second half alone
    // starts a new partial message
    assert_eq!(r.push_at(parts[1].clone(), Timestamp { secs: 40, nanos: 0 }), None);
    assert_eq!(r.metrics(), (1, 2));
    assert_eq!(r.push_at(parts[0].clone(), Timestamp { secs: 41, nanos: 0 }), Some(data));
    assert_eq!(r.metrics(), (0, 0));
}

#[test]
fn reassembly_overflow_is_detected() {
    let mut r = Reassembler::new();
    let parts = fragment(5, &[1u8, 2, 3]);
    let now = Timestamp { secs: 1, nanos: 0 };
    let mut big = parts[0].clone();
    big[17] = 3; // index 3
    big[19] = 4; // of 4 fragments
    let mut first = big.clone();
    first[17] = 0;
    first[19] = 2;
    assert!(!r.overflows_at(&first, now));
    assert_eq!(r.push_at(first, now), None);
    assert!(r.overflows_at(&big, now));
}

#[test]
fn connection_table_tracks_peers() {
    let mut t = ConnectionTable::new();
    t.connect("a".to_string());
    t.connect("b".to_string());
    t.connect("a".to_string());
    assert!(t.is_connected("a"));
    assert!(t.is_connected("b"));
    t.disconnect("a");
    assert!(!t.is_connected("a"));
    assert!(t.is_connected("b"));
    t.disconnect("zzz");
    assert!(!t.is_connected("zzz"));
}

#[test]
fn reassembly_in_any_order() {
    let data: Vec<u8> = (0..500u32).map(|x| (x % 251) as u8).collect();
    let parts = fragment(77, &data);
    assert_eq!(parts.len(), 4);
    let mut r = Reassembler::new();
    let now = Timestamp { secs: 5, nanos: 0 };
    for &i in &[2usize, 0, 3] {
        assert!(!r.overflows_at(&parts[i], now));
        assert_eq!(r.push_at(parts[i].clone(), now), None);
    }
    assert_eq!(r.push_at(parts[1].clone(), now), Some(data));
    assert_eq!(r.metrics(), (0, 0));
}

#[test]
fn reassembly_spaced_arrivals_beside_other_messages() {
    let mut r = Reassembler::new();
    // another, incomplete message
    let other = fragment(1, &vec![7u8; 200]);
    assert_eq!(r.push_at(other[0].clone(), Timestamp { secs: 100, nanos: 0 }), None);
    let data: Vec<u8> = (0..400u32).map(|x| (x % 13) as u8).collect();
    let parts = fragment(2, &data);
    assert_eq!(parts.len(), 3);
    // 29 seconds apart, in the order 1, 2, 0
    assert_eq!(r.push_at(parts[1].clone(), Timestamp { secs: 110, nanos: 0 }), None);
    assert_eq!(r.metrics(), (2, 5));
    assert_eq!(r.push_at(parts[2].clone(), Timestamp { secs: 139, nanos: 0 }), None);
    // the other message went stale meanwhile
    assert_eq!(r.metrics(), (1, 3));
    assert_eq!(r.push_at(parts[0].clone(), Timestamp { secs: 168, nanos: 0 }), Some(data));
    assert_eq!(r.metrics(), (0, 0));
}
