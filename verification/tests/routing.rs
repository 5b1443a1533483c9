use argus_mesh::clock::Timestamp;
use argus_mesh::conflict::{ConflictIndex, Versioned};
use argus_mesh::dedup::DedupCache;
use argus_mesh::envelope::{Envelope, Priority};
use argus_mesh::priority_queue::PriorityQueue;
use argus_mesh::propagation::{should_forward, should_forward_at};

fn v(id: u128, version: u32) -> Versioned {
    Versioned { id, version, data: vec![version as u8] }
}

fn fresh_id() -> u128 {
    uuid::Uuid::new_v4().as_u128()
}

#[test]
fn latest_version_wins() {
    let id = fresh_id();
    let mut idx = ConflictIndex::new();

    assert!(idx.merge(v(id, 1)));
    assert!(idx.merge(v(id, 2)));

    assert_eq!(idx.get(id).unwrap().version, 2);
}

#[test]
fn older_version_rejected() {
    let id = fresh_id();
    let mut idx = ConflictIndex::new();

    idx.merge(v(id, 5));
    let accepted = idx.merge(v(id, 3));

    assert!(!accepted);
    assert_eq!(idx.get(id).unwrap().version, 5);
}

#[test]
fn equal_version_is_not_accepted() {
    let id = fresh_id();
    let mut idx = ConflictIndex::new();
    assert!(idx.merge(v(id, 4)));
    assert!(!idx.merge(Versioned { id, version: 4, data: vec![9] }));
    assert_eq!(idx.get(id).unwrap().data, vec![4u8]);
    assert!(idx.get(fresh_id()).is_none());
}

#[test]
fn hop_increment_stops_at_max() {
    let mut env = Envelope::new("n".to_string(), Priority::Low, vec![]);
    env.max_hops = 2;

    assert!(env.next_hop()); // hop = 1
    assert!(env.next_hop()); // hop = 2
    assert!(!env.next_hop()); // blocked
}

#[test]
fn ttl_exhaustion_hops() {
    let mut env = Envelope::new("n".to_string(), Priority::Normal, vec![]);
    env.max_hops = 3;

    assert!(env.next_hop());
    assert!(env.next_hop());
    assert!(env.next_hop());
    assert!(!env.next_hop());
}

#[test]
fn next_hop_blocked_leaves_count() {
    let mut env = Envelope::new("n".to_string(), Priority::Normal, vec![]);
    env.max_hops = 0;
    assert!(!env.next_hop());
    assert_eq!(env.hop_count, 0);
}

fn seconds_ago(secs: u64) -> Timestamp {
    let now = std::time::SystemTime::now()
        .duration_since(std::time::UNIX_EPOCH)
        .unwrap();
    Timestamp { secs: now.as_secs() - secs, nanos: now.subsec_nanos() }
}

#[test]
fn expired_by_time() {
    let mut env = Envelope::new("n".to_string(), Priority::Normal, vec![]);
    env.ttl_secs = 1;
    env.created_at = seconds_ago(10);

    assert!(env.expired());
}

#[test]
fn not_expired_when_recent() {
    let env = Envelope::new("n".to_string(), Priority::Normal, vec![]);
    assert!(!env.expired());
}

#[test]
fn expiry_at_exact_times() {
    let mut env = Envelope::new("n".to_string(), Priority::Normal, vec![]);
    env.ttl_secs = 5;
    env.created_at = Timestamp { secs: 100, nanos: 0 };
    // exactly the ttl elapsed: not yet expired
    assert!(!env.expired_at(Timestamp { secs: 105, nanos: 999_999_999 }));
    assert!(env.expired_at(Timestamp { secs: 106, nanos: 0 }));
    // a clock that went backwards never expires an envelope
    assert!(!env.expired_at(Timestamp { secs: 50, nanos: 0 }));
}

#[test]
fn new_envelope_defaults() {
    let env = Envelope::new("alice".to_string(), Priority::High, vec![7, 8]);
    assert_eq!(env.sender_id, "alice");
    assert_eq!(env.hop_count, 0);
    assert_eq!(env.max_hops, 10);
    assert_eq!(env.ttl_secs, 300);
    assert_eq!(env.payload, vec![7, 8]);
    assert_eq!(env.signature, vec![0u8; 64]);
    assert_eq!(env.nonce, [0u8; 12]);
    let other = Envelope::new("alice".to_string(), Priority::High, vec![7, 8]);
    assert_ne!(env.msg_id, other.msg_id);
    let u = uuid::Uuid::from_u128(env.msg_id);
    assert_eq!(u.get_version_num(), 4);
    assert_eq!(u.get_variant(), uuid::Variant::RFC4122);
}

#[test]
fn expired_messages_not_forwarded() {
    let mut env = Envelope::new("node".to_string(), Priority::Normal, vec![]);
    env.ttl_secs = 1;
    env.created_at = seconds_ago(9999);

    assert!(!should_forward(&env));
}

#[test]
fn hop_limit_blocks_forward() {
    let mut env = Envelope::new("node".to_string(), Priority::Normal, vec![]);
    env.hop_count = 5;
    env.max_hops = 5;

    assert!(!should_forward(&env));
}

#[test]
fn valid_message_is_forwarded() {
    let mut env = Envelope::new("node".to_string(), Priority::Normal, vec![]);
    env.hop_count = 2;
    env.max_hops = 5;
    env.ttl_secs = 1000;

    assert!(should_forward(&env));
}

#[test]
fn should_forward_at_fixed_time() {
    let mut env = Envelope::new("node".to_string(), Priority::Normal, vec![]);
    env.created_at = Timestamp { secs: 1000, nanos: 0 };
    env.ttl_secs = 10;
    env.hop_count = 1;
    env.max_hops = 2;
    assert!(should_forward_at(&env, Timestamp { secs: 1005, nanos: 0 }));
    assert!(!should_forward_at(&env, Timestamp { secs: 1011, nanos: 0 }));
    env.hop_count = 2;
    assert!(!should_forward_at(&env, Timestamp { secs: 1005, nanos: 0 }));
}

#[test]
fn churn_simulation_dedup_stability() {
    let mut d = DedupCache::new(1000);
    for _ in 0..500 {
        let id = fresh_id();

        assert!(!d.seen(id));
        assert!(d.seen(id));
    }
}

#[test]
fn dedup_evicts_least_recent_when_full() {
    let mut d = DedupCache::new(2);
    assert!(!d.seen(1));
    assert!(!d.seen(2));
    assert!(!d.seen(3)); // evicts 1
    assert!(!d.seen(1)); // 1 was forgotten; evicts 2
    assert!(d.seen(3));
}

#[test]
fn stress_100_alerts_queue() {
    let mut q = PriorityQueue::new();

    for _ in 0..100 {
        q.push(Envelope::new("n".to_string(), Priority::Normal, vec![1, 2, 3]));
    }

    let mut count = 0;
    while q.pop().is_some() {
        count += 1;
    }
    assert_eq!(count, 100);
}

fn tagged(p: Priority, tag: u8) -> Envelope {
    Envelope::new("n".to_string(), p, vec![tag])
}

#[test]
fn weighted_schedule_order() {
    let mut q = PriorityQueue::new();
    for t in 0..6u8 {
        q.push(tagged(Priority::Critical, t));
        q.push(tagged(Priority::High, 10 + t));
        q.push(tagged(Priority::Normal, 20 + t));
        q.push(tagged(Priority::Low, 30 + t));
    }
    // critical traffic always goes first
    for t in 0..6u8 {
        assert_eq!(q.pop().unwrap().payload[0], t);
    }
    // then the schedule: slots 7 high, 8-9 normal, 10 low, 0-4 (critical
    // slots) high, 5-6 high, ...
    let mut order = Vec::new();
    for _ in 0..11 {
        order.push(q.pop().unwrap().payload[0]);
    }
    assert_eq!(order, vec![10, 20, 21, 30, 11, 12, 13, 14, 15, 22, 23]);
}

#[test]
fn empty_lane_falls_back_in_priority_order() {
    let mut q = PriorityQueue::new();
    q.push(tagged(Priority::Low, 1));
    q.push(tagged(Priority::Normal, 2));
    // critical slot, critical lane empty: the highest non-empty lane serves
    assert_eq!(q.pop().unwrap().payload[0], 2);
    assert_eq!(q.pop().unwrap().payload[0], 1);
    assert!(q.pop().is_none());
    assert!(q.is_empty());
}

#[test]
fn critical_first_on_fresh_queue() {
    let mut q = PriorityQueue::new();
    q.push(tagged(Priority::Low, 1));
    q.push(tagged(Priority::Critical, 2));
    assert_eq!(q.pop().unwrap().payload[0], 2);
}

#[test]
fn critical_first_at_any_slot() {
    let mut q = PriorityQueue::new();
    for t in 0..6u8 {
        q.push(tagged(Priority::High, t));
    }
    // advance the schedule to a high slot
    for _ in 0..5 {
        q.pop();
    }
    q.push(tagged(Priority::Critical, 99));
    assert_eq!(q.pop().unwrap().payload[0], 99);
    assert_eq!(q.pop().unwrap().payload[0], 5);
}

#[test]
fn expiry_is_permanent() {
    let mut env = Envelope::new("n".to_string(), Priority::Normal, vec![]);
    env.ttl_secs = 2;
    env.created_at = Timestamp { secs: 10, nanos: 500 };
    assert!(env.expired_at(Timestamp { secs: 13, nanos: 500 }));
    for later in [13u64, 14, 100, 1_000_000] {
        assert!(env.expired_at(Timestamp { secs: later, nanos: 999_999_999 }));
    }
}
