use argus_mesh::builder::node_builder::NodeBuilder;
use argus_mesh::builder::router_builder::RouterBuilder;
use argus_mesh::clock::Timestamp;
use argus_mesh::crypto::keys::NodeKeys;
use argus_mesh::envelope::{Envelope, Priority};
use argus_mesh::factory::router_factory::RouterFactory;
use argus_mesh::node::Node;
use argus_mesh::router::{Router, TickAction};
use argus_mesh::transport::discovery::is_mesh_peer_name;
use argus_mesh::transport::fragment::fragment;
use argus_mesh::transport::link::BleLinkState;
use argus_mesh::transport::messaging::encode_ack;
use std::time::Duration;

#[test]
fn router_builder_requires_transport_then_store() {
    let b: RouterBuilder<u8, u16> = RouterBuilder::new();
    assert_eq!(b.build().err(), Some("Transport is required".to_string()));
    let b: RouterBuilder<u8, u16> = RouterBuilder::new().with_transport(1);
    assert_eq!(b.build().err(), Some("Store is required".to_string()));
    let b: RouterBuilder<u8, u16> = RouterBuilder::new().with_store(2);
    assert_eq!(b.build().err(), Some("Transport is required".to_string()));
}

#[test]
fn router_builder_uses_given_identity() {
    let keys = NodeKeys::from_secret_bytes(&[4u8; 32]);
    let public = keys.public_bytes();
    let (t, s, mut router) = RouterBuilder::new()
        .with_transport(7u8)
        .with_store("store")
        .with_keys(keys)
        .with_sym_key([2u8; 32])
        .with_dedup_size(10)
        .with_replay_size(10)
        .build()
        .unwrap();
    assert_eq!(t, 7);
    assert_eq!(s, "store");
    router
        .enqueue_local(Envelope::new("x".to_string(), Priority::Low, vec![1]))
        .unwrap();
    let out = router.next_outbound().unwrap();
    assert_eq!(out.sender_pubkey, public);
    // a peer with the same shared key accepts it
    let mut peer = RouterFactory::create_with_keys(NodeKeys::generate(), [2u8; 32]);
    assert_eq!(peer.receive(out).unwrap().payload, vec![1]);
}

#[test]
fn router_factory_makes_empty_routers() {
    let r = RouterFactory::create();
    assert!(r.queue_is_empty());
}

#[test]
fn node_builder_requires_router_then_transport() {
    let b: NodeBuilder<u8, u16> = NodeBuilder::new();
    assert_eq!(b.build().err(), Some("Router is required".to_string()));
    let b: NodeBuilder<u8, u16> = NodeBuilder::new().with_router(1);
    assert_eq!(b.build().err(), Some("Transport is required".to_string()));
    let n: Node<u8, u16> = NodeBuilder::new()
        .with_tick_interval(Duration::from_millis(10))
        .with_router(1)
        .with_transport(2)
        .build()
        .unwrap();
    assert_eq!((n.router, n.transport), (1, 2));
}

#[test]
fn tick_sends_when_connected_and_persists_otherwise() {
    let mut r = Router::new(NodeKeys::generate(), [0u8; 32]);
    assert!(matches!(r.tick(true), TickAction::Idle));
    let e1 = Envelope::new("a".to_string(), Priority::High, vec![1]);
    let id1 = e1.msg_id;
    let e2 = Envelope::new("a".to_string(), Priority::High, vec![2]);
    let id2 = e2.msg_id;
    r.enqueue_local(e1).unwrap();
    r.enqueue_local(e2).unwrap();
    match r.tick(true) {
        TickAction::Send(e) => assert_eq!(e.msg_id, id1),
        other => panic!("expected a send, got {:?}", other),
    }
    match r.tick(false) {
        TickAction::Persist(key, e) => {
            assert_eq!(e.msg_id, id2);
            assert_eq!(key, *uuid::Uuid::from_u128(id2).as_bytes());
        }
        other => panic!("expected a persist, got {:?}", other),
    }
    assert!(matches!(r.tick(false), TickAction::Idle));
}

#[test]
fn outbound_burst_takes_at_most_max() {
    let mut r = Router::new(NodeKeys::generate(), [0u8; 32]);
    for i in 0..7u8 {
        r.enqueue_local(Envelope::new("a".to_string(), Priority::Normal, vec![i])).unwrap();
    }
    assert_eq!(r.outbound_burst(5).len(), 5);
    assert_eq!(r.outbound_burst(5).len(), 2);
    assert_eq!(r.outbound_burst(5).len(), 0);
    assert!(r.queue_is_empty());
}

#[test]
fn link_reassembles_and_settles_acks() {
    let mut link = BleLinkState::new();
    let now = Timestamp { secs: 1000, nanos: 0 };
    let data: Vec<u8> = (0..250u32).map(|x| x as u8).collect();
    let parts = link.prepare_send_at(&data, true, now);
    assert_eq!(parts.len(), 2);
    assert_eq!(link.ack_stats(), (1, 0));
    // the receiving side puts the message back together
    let mut other = BleLinkState::new();
    assert_eq!(other.on_packet_at(parts[1].clone(), now), None);
    assert_eq!(other.on_packet_at(parts[0].clone(), now), Some(data.clone()));
    // and acknowledges it; the ack is consumed, not delivered
    let id = u128::from_be_bytes(parts[0][0..16].try_into().unwrap());
    assert_eq!(link.on_packet_at(encode_ack(id, true), now), None);
    assert_eq!(link.ack_stats(), (0, 1));
    // no peers: nothing registered, nothing to send
    assert!(link.prepare_send_at(&data, false, now).is_empty());
    assert_eq!(link.ack_stats(), (0, 1));
}

#[test]
fn link_start_drops_timed_out_messages() {
    let mut link = BleLinkState::new();
    let parts = link.prepare_send_at(&[1, 2, 3], true, Timestamp { secs: 10, nanos: 0 });
    assert_eq!(parts.len(), 1);
    link.start_at(Timestamp { secs: 39, nanos: 0 });
    assert_eq!(link.ack_stats(), (1, 0));
    link.start_at(Timestamp { secs: 40, nanos: 0 });
    assert_eq!(link.ack_stats(), (0, 0));
}

#[test]
fn link_detects_overflowing_fragment() {
    let mut link = BleLinkState::new();
    let now = Timestamp { secs: 1, nanos: 0 };
    let mut first = fragment(3, &[1u8])[0].clone();
    first[19] = 2; // one of two fragments
    assert!(!link.overflows_at(&first, now));
    assert_eq!(link.on_packet_at(first.clone(), now), None);
    let mut bad = first.clone();
    bad[17] = 4;
    bad[19] = 5;
    assert!(link.overflows_at(&bad, now));
    assert!(!link.overflows_at(&encode_ack(3, false), now));
}

#[test]
fn mesh_peer_names() {
    assert!(is_mesh_peer_name("ArgusMesh"));
    assert!(is_mesh_peer_name("node-ArgusMesh-7"));
    assert!(!is_mesh_peer_name("ArgusMes"));
    assert!(!is_mesh_peer_name("argusmesh"));
    assert!(!is_mesh_peer_name(""));
    assert!(is_mesh_peer_name("ééArgusMesh"));
}

fn sealed_copy(sym: [u8; 32], payload: &[u8]) -> Envelope {
    let mut sender = RouterFactory::create_with_keys(NodeKeys::generate(), sym);
    sender.enqueue_local(Envelope::new("s".to_string(), Priority::Normal, payload.to_vec())).unwrap();
    sender.next_outbound().unwrap()
}

#[test]
fn router_builder_cache_sizes_take_effect() {
    let build = |size: Option<usize>| {
        let mut b: RouterBuilder<u8, u8> = RouterBuilder::new().with_transport(0).with_store(0).with_sym_key([3u8; 32]);
        if let Some(n) = size {
            b = b.with_dedup_size(n).with_replay_size(n);
        }
        b.build().unwrap().2
    };
    let a = sealed_copy([3u8; 32], b"a");
    let b = sealed_copy([3u8; 32], b"b");
    // caches of one entry forget `a` once `b` arrives, so `a` is taken again
    let mut small = build(Some(1));
    assert!(small.receive(a.duplicate()).is_some());
    assert!(small.receive(b.duplicate()).is_some());
    assert!(small.receive(a.duplicate()).is_some());
    // default caches remember it
    let mut large = build(None);
    assert!(large.receive(a.duplicate()).is_some());
    assert!(large.receive(b.duplicate()).is_some());
    assert!(large.receive(a).is_none());
}

#[test]
fn router_builder_zero_cache_size_means_default() {
    let a = sealed_copy([4u8; 32], b"a");
    let b = sealed_copy([4u8; 32], b"b");
    let mut r = RouterBuilder::<u8, u8>::new()
        .with_transport(0)
        .with_store(0)
        .with_sym_key([4u8; 32])
        .with_dedup_size(0)
        .with_replay_size(0)
        .build()
        .unwrap()
        .2;
    assert!(r.receive(a.duplicate()).is_some());
    assert!(r.receive(b.duplicate()).is_some());
    // the default-sized caches still remember `a`
    assert!(r.receive(a).is_none());
}
