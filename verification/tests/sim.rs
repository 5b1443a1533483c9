use argus_mesh::envelope::Priority;
use argus_mesh::sim::{
    sim_create_alert, sim_get_alerts, sim_node_count, sim_propagate, sim_start, sim_stop, SimMesh,
};

#[test]
fn stress_sim_round_trip() {
    let mut mesh: Option<SimMesh> = None;
    sim_stop(&mut mesh);

    sim_start(&mut mesh, 4).expect("sim_start should succeed");

    let alert_count = 50;
    let mut created_ids = Vec::with_capacity(alert_count);

    for i in 0..alert_count {
        let id = sim_create_alert(
            &mut mesh,
            0,
            format!("sim-sender-{}", i),
            Priority::High,
            format!("sim-payload-{}", i),
        )
        .expect("sim_create_alert should succeed");
        created_ids.push(id);
    }

    for _ in 0..5 {
        sim_propagate(&mut mesh).expect("sim_propagate should succeed");
    }

    let node1 = sim_get_alerts(&mesh, 1).expect("sim_get_alerts should succeed");
    assert!(
        !node1.is_empty(),
        "Node 1 should have received at least some alerts after 5 propagation rounds"
    );

    sim_stop(&mut mesh);
}

#[test]
fn sim_rejects_bad_sizes_and_nodes() {
    let mut mesh: Option<SimMesh> = None;
    assert_eq!(sim_propagate(&mut mesh), Err("sim not started".to_string()));
    assert_eq!(sim_get_alerts(&mesh, 0).err(), Some("sim not started".to_string()));
    assert_eq!(sim_start(&mut mesh, 0), Err("n must be 1..64".to_string()));
    assert_eq!(sim_start(&mut mesh, 65), Err("n must be 1..64".to_string()));
    assert_eq!(sim_node_count(&mesh), 0);
    sim_start(&mut mesh, 64).unwrap();
    assert_eq!(sim_node_count(&mesh), 64);
    let r = sim_create_alert(&mut mesh, 64, "s".to_string(), Priority::Low, "p".to_string());
    assert_eq!(r, Err("invalid node_id".to_string()));
    assert_eq!(sim_get_alerts(&mesh, 64).err(), Some("invalid node_id".to_string()));
}

#[test]
fn sim_alert_reaches_both_neighbours_only() {
    let mut mesh: Option<SimMesh> = None;
    sim_start(&mut mesh, 5).unwrap();
    let id = sim_create_alert(&mut mesh, 2, "s".to_string(), Priority::Critical, "hello".to_string()).unwrap();
    sim_propagate(&mut mesh).unwrap();
    for node in [1usize, 3] {
        let got = sim_get_alerts(&mesh, node).unwrap();
        assert_eq!(got.len(), 1);
        assert_eq!(got[0].msg_id, id);
        assert_eq!(got[0].sender_id, "s");
    }
    assert!(sim_get_alerts(&mesh, 0).unwrap().is_empty());
    assert!(sim_get_alerts(&mesh, 2).unwrap().is_empty());
    // forwarded copies carry the plaintext under the sender's signature, so
    // the far nodes reject them, and nobody accepts the alert twice
    sim_propagate(&mut mesh).unwrap();
    sim_propagate(&mut mesh).unwrap();
    assert!(sim_get_alerts(&mesh, 0).unwrap().is_empty());
    assert!(sim_get_alerts(&mesh, 4).unwrap().is_empty());
    for node in [1usize, 3] {
        assert_eq!(sim_get_alerts(&mesh, node).unwrap().len(), 1);
    }
}
