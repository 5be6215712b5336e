use lane_switchboards::consistency::{ConsistencyConfig, ConsistencyError, WriteConsistency};
use lane_switchboards::error::{IoError, IoErrorKind};
use lane_switchboards::hash_ring::FnvHasher;
use lane_switchboards::mesh::{ServiceMesh, ServiceRecord};
use lane_switchboards::mesh_registry::{
    ack_error, ack_ok, grpc_endpoint, tls_domain_from_addr, Ack, MeshRegistry, ServiceEvent,
    ServiceRecordMsg,
};
use lane_switchboards::quorum::{fan_out_result, AckTally, WritePlan};
use lane_switchboards::time::Duration;

fn sample_record() -> ServiceRecord {
    ServiceRecord {
        service: "orders".to_string(),
        instance_id: "orders-1".to_string(),
        address: "127.0.0.1:9000".to_string(),
        target: "orders-1".to_string(),
        dc: Some("east".to_string()),
        registered_at: 1_700_000_000,
    }
}

#[test]
fn service_record_round_trip() {
    let original = sample_record();
    let proto: ServiceRecordMsg = original.clone().into_msg();
    let back = ServiceRecord::try_from(proto, 7).expect("try_from");

    assert_eq!(back.service, original.service);
    assert_eq!(back.instance_id, original.instance_id);
    assert_eq!(back.address, original.address);
    assert_eq!(back.target, original.target);
    assert_eq!(back.dc, original.dc);
    assert_eq!(back.registered_at, 7);
}

#[test]
fn missing_service_field_errors() {
    let proto = ServiceRecordMsg {
        service: String::new(),
        instance_id: "id".to_string(),
        address: "127.0.0.1:1".to_string(),
        target: "id".to_string(),
        dc: String::new(),
    };
    let err = ServiceRecord::try_from(proto, 0).unwrap_err();
    assert!(err.contains("service"));
}

#[test]
fn dc_field_round_trips() {
    let with_dc = sample_record();
    let proto: ServiceRecordMsg = with_dc.clone().into_msg();
    assert_eq!(proto.dc, "east");
    let back = ServiceRecord::try_from(proto, 0).expect("with dc");
    assert_eq!(back.dc.as_deref(), Some("east"));

    let mut no_dc = with_dc;
    no_dc.dc = None;
    let proto: ServiceRecordMsg = no_dc.into_msg();
    assert!(proto.dc.is_empty());
    let back = ServiceRecord::try_from(proto, 0).expect("no dc");
    assert!(back.dc.is_none());
}

#[test]
fn empty_target_stands_for_the_instance() {
    let mut r = sample_record();
    r.target = String::new();
    let back = ServiceRecord::try_from(r.into_msg(), 0).unwrap();
    assert_eq!(back.target, "orders-1");
}

#[test]
fn other_missing_fields() {
    let mut m = sample_record().into_msg();
    m.address = String::new();
    assert_eq!(
        ServiceRecord::try_from(m, 0).unwrap_err(),
        "missing required field: address"
    );
    let mut m = sample_record().into_msg();
    m.instance_id = String::new();
    assert_eq!(
        ServiceRecord::try_from(m, 0).unwrap_err(),
        "missing required field: instance_id"
    );
}

#[test]
fn registry_control_plane() {
    let mut reg = MeshRegistry::new();
    let record = ServiceRecord {
        service: "inventory".to_string(),
        instance_id: "inv-1".to_string(),
        address: "127.0.0.1:9999".to_string(),
        target: "inv-1".to_string(),
        dc: None,
        registered_at: 0,
    };
    match reg.register(record.clone(), 100) {
        ServiceEvent::Registered(r) => assert_eq!(r.registered_at, 100),
        _ => panic!("expected a registration"),
    }
    let list = reg.list(100);
    assert_eq!(list.len(), 1);
    assert_eq!(list[0].service, record.service);
    assert_eq!(list[0].instance_id, record.instance_id);
    assert!(list[0].registered_at > 0);
}

#[test]
fn records_expire_unless_renewed() {
    let mut reg = MeshRegistry::with_ttl(Duration::from_secs(30));
    reg.register(sample_record(), 100);
    assert_eq!(reg.list(130).len(), 1);
    assert_eq!(reg.list(131).len(), 0);
    reg.register(sample_record(), 130);
    assert_eq!(reg.list(160).len(), 1);
    reg.evict_expired(160);
    assert_eq!(reg.list(160).len(), 1);
    reg.evict_expired(161);
    assert_eq!(reg.records.len(), 0);
    reg.register(sample_record(), 200);
    assert!(reg.deregister("orders", "orders-1").is_some());
    assert!(reg.deregister("orders", "orders-1").is_none());
}

#[test]
fn apply_snapshot_diff_keeps_routes_during_sync() {
    let a = sample_record();
    let mut mesh = ServiceMesh::new();
    mesh.register(a.clone());
    assert_eq!(mesh.instance_count("orders"), 1);

    mesh.apply_snapshot_diff(vec![a.clone()]);
    assert_eq!(mesh.instance_count("orders"), 1);
    mesh.apply_snapshot_diff(vec![]);
    assert_eq!(mesh.instance_count("orders"), 0);
}

fn echo(id: &str, port: &str) -> ServiceRecord {
    ServiceRecord {
        service: "echo".to_string(),
        instance_id: id.to_string(),
        address: port.to_string(),
        target: id.to_string(),
        dc: None,
        registered_at: 0,
    }
}

#[test]
fn quorum_plan_survives_one_replica_loss() {
    let config = ConsistencyConfig {
        rf: 3,
        local_rf: 3,
        write_cl: WriteConsistency::Quorum,
        ack_timeout: Duration::from_secs(2),
        ..ConsistencyConfig::default()
    };
    let mut mesh = ServiceMesh::with_consistency(config);
    mesh.register(echo("echo-1", "127.0.0.1:7001"));
    mesh.register(echo("echo-2", "127.0.0.1:7002"));
    mesh.register(echo("echo-3", "127.0.0.1:7003"));
    assert!(matches!(
        mesh.plan_write("echo", "k"),
        WritePlan::Quorum { ref replicas, required: 2 } if replicas.len() == 3
    ));
    mesh.deregister("echo", "echo-3");
    assert!(matches!(
        mesh.plan_write("echo", "k"),
        WritePlan::Quorum { ref replicas, required: 2 } if replicas.len() == 2
    ));
    let (r, stats) = fan_out_result(2, 2, Some(1), Duration::from_secs(2), None);
    assert!(matches!(
        r,
        Err(ConsistencyError::NotEnoughAcks { required: 2, received: 1, .. })
    ));
    assert_eq!(stats.acks_received, 1);
    assert!(fan_out_result(2, 3, Some(2), Duration::from_secs(2), None).0.is_ok());
    assert!(matches!(
        fan_out_result(2, 3, None, Duration::from_secs(2), None).0,
        Err(ConsistencyError::Timeout { .. })
    ));
}

#[test]
fn tally_stops_at_the_quorum() {
    let mut t = AckTally::new(2);
    t.observe(true);
    assert!(!t.done());
    t.observe(false);
    t.observe(true);
    assert!(t.done());
}

#[test]
fn registry_answers() {
    assert!(ack_error(ack_ok()).is_ok());
    assert_eq!(
        ack_error(Ack { ok: false, error: String::new() }),
        Err("registry error".to_string())
    );
    assert_eq!(
        ack_error(Ack { ok: false, error: "full".to_string() }),
        Err("full".to_string())
    );
    assert_eq!(grpc_endpoint("h:1"), "http://h:1");
}

#[test]
fn domain_of_an_address() {
    assert_eq!(tls_domain_from_addr("example.org:443"), "example.org");
    assert_eq!(tls_domain_from_addr("[::1]:443"), "::1");
    assert_eq!(tls_domain_from_addr("plain"), "plain");
}

#[test]
fn unknown_service_has_no_route() {
    let mesh = ServiceMesh::new();
    match mesh.route("nope") {
        Err(e) => assert_eq!(e.kind(), IoErrorKind::NotFound),
        Ok(_) => panic!("no route expected"),
    }
    let e = IoError::other("x".to_string());
    assert_eq!(e.kind(), IoErrorKind::Other);
    assert!(matches!(
        ConsistencyError::NotEnoughAcks { required: 1, received: 0, dc: None },
        ConsistencyError::NotEnoughAcks { .. }
    ));
}

#[test]
fn too_few_local_replicas_send_nothing() {
    let mut config = ConsistencyConfig::default();
    config.rf = 3;
    config.local_rf = 3;
    config.local_dc = "east".to_string();
    config.write_cl = WriteConsistency::LocalQuorum;
    let mut mesh = ServiceMesh::with_consistency(config);
    for (id, dc) in [("e1", "east"), ("w1", "west"), ("w2", "west")] {
        mesh.register(ServiceRecord {
            service: "orders".to_string(),
            instance_id: id.to_string(),
            address: "127.0.0.1:1".to_string(),
            target: id.to_string(),
            dc: Some(dc.to_string()),
            registered_at: 0,
        });
    }
    for key in ["order-1", "order-2", "order-99"] {
        match mesh.plan_write("orders", key) {
            WritePlan::Conclude(c) => assert_eq!(
                c.result,
                Err(ConsistencyError::NotEnoughReplicas { required: 2, available: 1 })
            ),
            _ => panic!("nothing is sent"),
        }
    }
    mesh.register(ServiceRecord {
        service: "orders".to_string(),
        instance_id: "e2".to_string(),
        address: "127.0.0.1:1".to_string(),
        target: "e2".to_string(),
        dc: Some("east".to_string()),
        registered_at: 0,
    });
    match mesh.plan_write_at("orders", 7) {
        WritePlan::Quorum { replicas, required } => {
            assert_eq!((replicas.len(), required), (2, 2));
        }
        _ => panic!("two local replicas are a quorum"),
    }
}

#[test]
fn overrides_live_as_long_as_their_service() {
    let custom = || {
        let mut c = ConsistencyConfig::default();
        c.rf = 7;
        c
    };
    let mut mesh = ServiceMesh::new();
    assert_eq!(mesh.config_for("echo").rf, 3);
    mesh.register(echo("e1", "127.0.0.1:1"));
    mesh.register(echo("e2", "127.0.0.1:2"));
    mesh.set_service_consistency("echo", custom());
    assert_eq!(mesh.config_for("echo").rf, 7);
    mesh.register(echo("e1", "127.0.0.1:3"));
    mesh.deregister("echo", "e2");
    assert_eq!(mesh.config_for("echo").rf, 7);
    mesh.deregister("echo", "e1");
    mesh.register(echo("e1", "127.0.0.1:1"));
    assert_eq!(mesh.config_for("echo").rf, 3);

    mesh.set_service_consistency("echo", custom());
    mesh.apply_snapshot(vec![echo("e1", "127.0.0.1:1"), echo("e3", "127.0.0.1:3")]);
    assert_eq!(mesh.config_for("echo").rf, 7);
    mesh.apply_snapshot(vec![echo("e4", "127.0.0.1:4")]);
    assert_eq!(mesh.config_for("echo").rf, 3);
}

#[test]
fn mesh_routes_by_service_name() {
    let record = |id: &str, port: u16| ServiceRecord {
        service: "orders".to_string(),
        instance_id: id.to_string(),
        address: format!("127.0.0.1:{port}"),
        target: id.to_string(),
        dc: None,
        registered_at: 0,
    };
    let mut mesh = ServiceMesh::new();
    mesh.register(record("orders-1", 1));
    mesh.register(record("orders-2", 2));
    assert_eq!(mesh.instance_count("orders"), 2);
    let mut h = FnvHasher::new();
    h.write(&42u64.to_le_bytes());
    let to = mesh.ref_at("orders", h.finish()).expect("invoke");
    assert!(to.target == "orders-1" || to.target == "orders-2");
    assert!(mesh.ref_at("payments", h.finish()).is_none());
}
