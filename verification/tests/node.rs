use percas::node::{NodeInfo, PersistentNodeInfo};

#[test]
fn init_starts_at_incarnation_zero() {
    let n = NodeInfo::init(b"id".to_vec(), "cluster".to_string(), "a".to_string(), "p".to_string());
    assert_eq!(n.node_id, b"id".to_vec());
    assert_eq!(n.cluster_id, "cluster");
    assert_eq!(n.advertise_addr, "a");
    assert_eq!(n.advertise_peer_addr, "p");
    assert_eq!(n.incarnation, 0);
}

#[test]
fn advance_incarnation_adds_one() {
    let mut n = NodeInfo::init(b"id".to_vec(), "c".to_string(), "a".to_string(), "p".to_string());
    n.advance_incarnation();
    n.advance_incarnation();
    assert_eq!(n.incarnation, 2);
    assert_eq!(n.advertise_addr, "a");
}

#[test]
fn persistent_part_leaves_the_addresses_out() {
    let mut n = NodeInfo::init(b"id".to_vec(), "c".to_string(), "a".to_string(), "p".to_string());
    n.incarnation = 4;
    let p = PersistentNodeInfo::from_node(&n);
    assert_eq!(p.node_id, b"id".to_vec());
    assert_eq!(p.cluster_id, "c");
    assert_eq!(p.incarnation, 4);
    let back = NodeInfo::restore(p, "a2".to_string(), "p2".to_string());
    assert_eq!(back.node_id, b"id".to_vec());
    assert_eq!(back.incarnation, 4);
    assert_eq!(back.advertise_addr, "a2");
    assert_eq!(back.advertise_peer_addr, "p2");
}

#[test]
fn a_restart_takes_the_next_incarnation() {
    let stored = PersistentNodeInfo {
        node_id: b"old".to_vec(),
        cluster_id: "kept".to_string(),
        incarnation: 7,
    };
    let n = NodeInfo::startup(
        Some(stored),
        b"new".to_vec(),
        "configured".to_string(),
        "a".to_string(),
        "p".to_string(),
    );
    assert_eq!(n.node_id, b"old".to_vec());
    assert_eq!(n.cluster_id, "kept");
    assert_eq!(n.incarnation, 8);
    assert_eq!(n.advertise_addr, "a");

    let last = PersistentNodeInfo {
        node_id: b"old".to_vec(),
        cluster_id: "kept".to_string(),
        incarnation: u64::MAX,
    };
    let n = NodeInfo::startup(Some(last), b"new".to_vec(), "c".to_string(), "a".to_string(), "p".to_string());
    assert_eq!(n.incarnation, u64::MAX);
}

#[test]
fn a_first_start_is_fresh() {
    let n = NodeInfo::startup(
        None,
        b"new".to_vec(),
        "configured".to_string(),
        "a".to_string(),
        "p".to_string(),
    );
    assert_eq!(n.node_id, b"new".to_vec());
    assert_eq!(n.cluster_id, "configured");
    assert_eq!(n.incarnation, 0);
}
