use argus_mesh::alert_index::{add_alert, clear_alerts, list_alerts, AlertIndex, StoredEnvelope};
use argus_mesh::api::AlertSummary;
use argus_mesh::crypto::keys::NodeKeys;
use argus_mesh::envelope::{Envelope, Priority};
use argus_mesh::repository::alert_repository::AlertRepository;
use argus_mesh::repository::traits::Repository;
use argus_mesh::router::Router;
use argus_mesh::runtime::{get_runtime_tag, has_mesh_runtime, RuntimeState};
use argus_mesh::services::alert_service::AlertService;
use argus_mesh::services::mesh_service::MeshService;
use argus_mesh::storage::mem_store::MemStore;
use argus_mesh::storage::store_factory::StoreFactory;
use argus_mesh::storage::traits::Store;
use argus_mesh::types::{decremented_ttl, ttl_exhausted, Severity, DEFAULT_TTL};

#[test]
fn stress_create_and_list_alerts_api() {
    let mut state = RuntimeState::new();
    let mut index = AlertIndex::new();
    let mut router: Option<Router> = None;
    MeshService::initialize(&mut state, &mut index, "node".to_string(), Vec::new())
        .expect("init_node should succeed");

    let count = 500;
    let mut ids = Vec::with_capacity(count);

    for i in 0..count {
        let (id, _record) = AlertService::create_alert(
            &mut index,
            &mut router,
            format!("stress-{}", i),
            Priority::Normal,
            format!("payload-{}", i).into_bytes(),
        )
        .expect("create_alert should succeed");
        let text = uuid::Uuid::from_u128(id).to_string();
        assert!(!text.is_empty(), "alert id should not be empty");
        ids.push(text);
    }

    let all = AlertService::list_alerts(&mut index, Vec::new());
    assert!(
        all.len() >= count,
        "Expected at least {} alerts, got {}",
        count,
        all.len()
    );
}

#[test]
fn create_alert_queues_on_running_router() {
    let mut index = AlertIndex::new();
    let mut router = Some(Router::new(NodeKeys::generate(), [1u8; 32]));
    let (id, record) = AlertService::create_alert(
        &mut index,
        &mut router,
        "s".to_string(),
        Priority::Critical,
        b"p".to_vec(),
    )
    .unwrap();
    assert_eq!(record.msg_id, id);
    assert_eq!(record.payload, b"p".to_vec());
    let rt = router.as_mut().unwrap();
    let out = rt.next_outbound().unwrap();
    assert_eq!(out.msg_id, id);
    assert_ne!(out.payload, b"p".to_vec());
    let found = AlertService::get_alert(&mut index, Vec::new(), id).unwrap();
    assert_eq!(found.sender_id, "s");
    assert!(AlertService::get_alert(&mut index, Vec::new(), id ^ 1).is_none());
    AlertService::clear_alerts(&mut index);
    assert!(AlertService::list_alerts(&mut index, Vec::new()).is_empty());
}

#[test]
fn index_prefers_database_contents() {
    let mut index = AlertIndex::new();
    let a = Envelope::new("a".to_string(), Priority::Low, vec![1]);
    let b = Envelope::new("b".to_string(), Priority::Low, vec![2]);
    let b_id = b.msg_id;
    add_alert(&mut index, a.duplicate());
    // adding the same alert twice keeps one copy
    add_alert(&mut index, a.duplicate());
    assert_eq!(list_alerts(&mut index, Vec::new()).len(), 1);
    // what the database holds wins
    let listed = list_alerts(&mut index, vec![b]);
    assert_eq!(listed.len(), 1);
    assert_eq!(listed[0].msg_id, b_id);
    clear_alerts(&mut index);
    assert!(list_alerts(&mut index, Vec::new()).is_empty());
}

#[test]
fn stored_envelope_roundtrip() {
    let e = Envelope::new("a".to_string(), Priority::High, vec![1, 2, 3]);
    let s = StoredEnvelope::from_envelope(&e);
    assert_eq!(s.created_at_secs, e.created_at.secs);
    let back = s.into_envelope();
    assert_eq!(back.msg_id, e.msg_id);
    assert_eq!(back.payload, e.payload);
    assert_eq!(back.created_at.secs, e.created_at.secs);
    assert_eq!(back.created_at.nanos, 0);
}

#[test]
fn summary_of_envelope() {
    let e = Envelope::new("alice".to_string(), Priority::High, vec![]);
    let s = AlertSummary::from_envelope(&e);
    assert_eq!(s.msg_id, uuid::Uuid::from_u128(e.msg_id).to_string());
    assert_eq!(s.sender_id, "alice");
    assert_eq!(s.hop_count, 0);
    let mut fixed = Envelope::new("b".to_string(), Priority::Low, vec![]);
    fixed.msg_id = 0x0123456789abcdef0123456789abcdef;
    assert_eq!(AlertSummary::from_envelope(&fixed).msg_id, "01234567-89ab-cdef-0123-456789abcdef");
}

#[test]
fn mesh_service_lifecycle() {
    let mut state = RuntimeState::new();
    assert_eq!(MeshService::get_status(&state), "not-initialized");
    assert!(!MeshService::is_running(&state));
    assert!(MeshService::start_mesh_node(&mut state, "t1".to_string()));
    assert!(has_mesh_runtime(&state));
    // a second start changes nothing
    assert!(!MeshService::start_mesh_node(&mut state, "t2".to_string()));
    assert_eq!(get_runtime_tag(&state), Some("t1".to_string()));
    assert_eq!(MeshService::get_status(&state), "t1");
}

#[test]
fn mem_store_persist_load_remove() {
    let mut s: MemStore = StoreFactory::create_default().unwrap();
    s.persist(vec![1], vec![10]);
    s.persist(vec![2], vec![20]);
    s.persist(vec![1], vec![11]);
    assert_eq!(s.load_all(), vec![vec![11], vec![20]]);
    s.remove(vec![1]);
    assert_eq!(s.load_all(), vec![vec![20]]);
    s.remove(vec![9]);
    assert_eq!(s.load_all().len(), 1);
}

#[test]
fn alert_repository_operations() {
    let mut repo = AlertRepository::new();
    let e = Envelope::new("r".to_string(), Priority::Normal, vec![3]);
    let id = e.msg_id;
    repo.save(&e).unwrap();
    repo.save(&e).unwrap();
    assert_eq!(repo.list_all().unwrap().len(), 1);
    assert_eq!(repo.find_by_id(&id).unwrap().unwrap().msg_id, id);
    assert!(repo.find_by_id(&(id ^ 1)).unwrap().is_none());
    let other = Envelope::new("r".to_string(), Priority::Normal, vec![4]);
    repo.save(&other).unwrap();
    assert_eq!(repo.remove(&id), Ok(()));
    assert!(repo.find_by_id(&id).unwrap().is_none());
    assert_eq!(repo.list_all().unwrap().len(), 1);
    repo.clear().unwrap();
    assert!(repo.list_all().unwrap().is_empty());
}

#[test]
fn severity_orders_from_low_to_critical() {
    assert!(Severity::Low < Severity::Medium);
    assert!(Severity::Medium < Severity::High);
    assert!(Severity::High < Severity::Critical);
}

#[test]
fn ttl_steps_down_to_zero_and_stays() {
    assert_eq!(decremented_ttl(DEFAULT_TTL), DEFAULT_TTL - 1);
    assert_eq!(decremented_ttl(1), 0);
    assert_eq!(decremented_ttl(0), 0);
    assert!(ttl_exhausted(0));
    assert!(!ttl_exhausted(DEFAULT_TTL));
}
