use lane_switchboards::distributed::{grpc_data_endpoint, Cluster, ClusterMember};
use lane_switchboards::hash_ring::{hash_key, parse_host_port, FnvHasher, HashRing, RingNode};

fn ring_with(ids: &[&str]) -> HashRing {
    let mut ring = HashRing::new(8);
    for (i, id) in ids.iter().enumerate() {
        ring.add_node(RingNode::new(*id, "127.0.0.1", 9000 + i as u16));
    }
    ring
}

#[test]
fn add_and_lookup_node() {
    let mut ring = HashRing::new(4);
    ring.add_node(RingNode::new("a", "10.0.0.1", 9001));
    assert_eq!(ring.node_count(), 1);
    assert!(ring.get_node("job-1").is_some());
}

#[test]
fn remove_node() {
    let mut ring = ring_with(&["a", "b"]);
    assert_eq!(ring.remove_node("a").map(|n| n.id), Some("a".to_string()));
    assert_eq!(ring.node_count(), 1);
    assert!(!ring.contains("a"));
}

#[test]
fn same_key_same_node() {
    let ring = ring_with(&["a", "b", "c"]);
    let k = "user-42";
    let first = ring.get_node(k).map(|n| n.id.clone());
    assert_eq!(ring.get_node(k).map(|n| n.id.clone()), first);
}

#[test]
fn get_nodes_replicas() {
    let ring = ring_with(&["a", "b", "c"]);
    let nodes = ring.get_nodes("order-7", 2);
    assert_eq!(nodes.len(), 2);
    assert_ne!(nodes[0].id, nodes[1].id);
}

#[test]
fn parse_host_port_rejects_bad_input() {
    assert!(parse_host_port("10.0.0.1").is_err());
    assert!(parse_host_port("10.0.0.1:notaport").is_err());
    assert_eq!(parse_host_port("127.0.0.1:9001").unwrap(), ("127.0.0.1".to_string(), 9001));
}

#[test]
fn bad_port_is_quoted_in_the_error() {
    let e = parse_host_port("h:x\ty").unwrap_err();
    assert!(e.contains("\"x\\ty\""));
}

#[test]
fn fnv_reference_values() {
    let mut h = FnvHasher::new();
    assert_eq!(h.finish(), 0xcbf29ce484222325);
    h.write(b"a");
    assert_eq!(h.finish(), 0xaf63dc4c8601ec8c);
    assert_ne!(hash_key("a"), hash_key("b"));
}

#[test]
fn adding_a_node_moves_keys_only_to_it() {
    let before = ring_with(&["a", "b", "c"]);
    let after = ring_with(&["a", "b", "c", "d"]);
    let mut moved = 0;
    for i in 0..500 {
        let key = format!("{i}-{}", i * 7919);
        let x = before.get_node(&key).unwrap().id.clone();
        let y = after.get_node(&key).unwrap().id.clone();
        if x != y {
            assert_eq!(y, "d");
            moved += 1;
        }
    }
    assert!(moved > 0);
}

#[test]
fn endpoint_gets_a_scheme() {
    assert_eq!(grpc_data_endpoint("127.0.0.1:9000", false), "http://127.0.0.1:9000");
    assert_eq!(grpc_data_endpoint("127.0.0.1:9000", true), "https://127.0.0.1:9000");
    assert_eq!(grpc_data_endpoint("http://h:1", true), "http://h:1");
}

fn cluster() -> Cluster {
    let mut c = Cluster::new();
    c.join(ClusterMember::new("n1", "127.0.0.1:7001", "t").with_dc("east"));
    c.join(ClusterMember::new("n2", "127.0.0.1:7002", "t").with_dc("west"));
    c.join(ClusterMember::new("n3", "127.0.0.1:7003", "t"));
    c
}

#[test]
fn replicas_are_distinct_and_filtered_by_datacenter() {
    let c = cluster();
    let all = c.replicas_for_key("k", 3);
    assert_eq!(all.len(), 3);
    let local = c.local_replicas_for_key("k", 3, "east");
    assert_eq!(local.len(), 2);
    assert_eq!(c.dc_members("west").len(), 1);
    assert_eq!(c.datacenters("east"), vec!["east".to_string(), "west".to_string()]);
}

#[test]
fn leaving_and_round_robin() {
    let mut c = cluster();
    let first = c.next().unwrap().node_addr.clone();
    let second = c.next().unwrap().node_addr.clone();
    let third = c.next().unwrap().node_addr.clone();
    let fourth = c.next().unwrap().node_addr.clone();
    assert_eq!(first, fourth);
    assert_ne!(first, second);
    assert_ne!(second, third);
    assert_eq!(c.leave("n2").map(|m| m.name), Some("n2".to_string()));
    assert_eq!(c.len(), 2);
    assert!(c.ref_by_name("n2").is_none());
}

#[test]
fn positions_are_counted_per_node() {
    let mut ring = ring_with(&["a", "b", "c"]);
    assert_eq!(ring.virtual_node_count(), 24);
    ring.add_node(RingNode::new("b", "127.0.0.1", 9100));
    assert_eq!(ring.virtual_node_count(), 24);
    assert!(ring.remove_node("b").is_some());
    assert_eq!(ring.virtual_node_count(), 16);
    assert!(ring.remove_node("b").is_none());
    assert_eq!(ring.virtual_node_count(), 16);
    assert!(ring.remove_node("a").is_some());
    assert!(ring.remove_node("c").is_some());
    assert_eq!(ring.virtual_node_count(), 0);
}

#[test]
fn replicas_are_as_many_as_asked_for_or_there_are() {
    let ring = ring_with(&["a", "b", "c"]);
    for key in ["order-1", "order-2", "order-3"] {
        let all: Vec<String> = ring.get_nodes(key, 9).iter().map(|n| n.id.clone()).collect();
        assert_eq!(all.len(), 3);
        for count in 0..4 {
            let some: Vec<String> =
                ring.get_nodes(key, count).iter().map(|n| n.id.clone()).collect();
            assert_eq!(some, all[..count].to_vec());
        }
        assert_eq!(ring.get_node(key).map(|n| n.id.clone()), Some(all[0].clone()));
    }
}

#[test]
fn removing_a_node_moves_only_its_own_keys() {
    let before = ring_with(&["a", "b", "c"]);
    let mut after = ring_with(&["a", "b", "c"]);
    after.remove_node("b");
    for n in 0..200 {
        let key = format!("key-{n}");
        let owner = before.get_node(&key).map(|n| n.id.clone());
        if owner != Some("b".to_string()) {
            assert_eq!(after.get_node(&key).map(|n| n.id.clone()), owner);
        }
    }
}

#[test]
fn keys_of_other_types_go_by_their_position() {
    let mut h = FnvHasher::new();
    h.write(&42u64.to_le_bytes());
    assert_eq!(h.finish(), 0xff3add6b3789daef);
    let ring = ring_with(&["a", "b", "c"]);
    let at = h.finish();
    assert_eq!(
        ring.get_node_at(at).map(|n| n.id.clone()),
        Some(ring.get_nodes_at(at, 1)[0].id.clone())
    );
    let text = hash_key("order-7");
    assert_eq!(ring.get_node_at(text), ring.get_node("order-7"));
    assert_eq!(ring.get_nodes_at(text, 2), ring.get_nodes("order-7", 2));
    let c = cluster();
    assert_eq!(c.member_at(text).map(|m| &m.name), c.member_for_key("order-7").map(|m| &m.name));
    assert_eq!(
        c.target_at(text).unwrap().node_addr,
        c.target_for_key("order-7").unwrap().node_addr
    );
    let names = |v: Vec<&lane_switchboards::distributed::RemoteActorRef>| -> Vec<String> {
        v.iter().map(|r| r.node_addr.clone()).collect()
    };
    assert_eq!(names(c.replicas_at(text, 2)), names(c.replicas_for_key("order-7", 2)));
    assert_eq!(
        names(c.local_replicas_at(text, 3, "east")),
        names(c.local_replicas_for_key("order-7", 3, "east"))
    );
    assert_eq!(names(c.replicas_at(at, 9)).len(), 3);
}

#[test]
fn a_nodes_address_is_read_back() {
    for (host, port) in [("10.0.0.1", 9001), ("::1", 0), ("", 65535), ("a:b", 80)] {
        let n = RingNode::new("id", host, port);
        let back = RingNode::try_from_socket_addr("id", &n.socket_addr()).unwrap();
        assert_eq!(back, n);
    }
}
