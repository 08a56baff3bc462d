use percas::member::{elapsed_more_than, MemberState, MemberStatus, Membership, Timestamp};
use percas::node::NodeInfo;

fn nil_id() -> Vec<u8> {
    uuid::Uuid::nil().as_bytes().to_vec()
}

fn now() -> Timestamp {
    jiff::Timestamp::now().as_nanosecond()
}

fn make_node(id: Vec<u8>, _inc: u64) -> NodeInfo {
    NodeInfo::init(id, "c".to_string(), "a".to_string(), "p".to_string())
}

fn with_incarnation(node: &NodeInfo, incarnation: u64) -> NodeInfo {
    let mut n = node.clone();
    n.incarnation = incarnation;
    n
}

#[test]
fn add_new_member() {
    let mut m = Membership::default();
    let id = nil_id();
    let node = make_node(id.clone(), 0);
    m.update_member(MemberState {
        info: node.clone(),
        status: MemberStatus::Alive,
        heartbeat: now(),
    });

    assert!(m.contains(&id));
    assert!(m.members().iter().any(|s| s.info.node_id == id));
}

#[test]
fn heartbeat_and_incarnation_merge() {
    let mut m = Membership::default();
    let id = nil_id();
    let node = make_node(id.clone(), 0);

    // insert with heartbeat t0
    let t0 = now();
    m.update_member(MemberState {
        info: node.clone(),
        status: MemberStatus::Alive,
        heartbeat: t0,
    });

    // same incarnation but later heartbeat t1
    let t1 = now();
    m.update_member(MemberState {
        info: node.clone(),
        status: MemberStatus::Alive,
        heartbeat: t1,
    });

    let stored = m.get(&id).unwrap();
    assert!(stored.heartbeat >= t0);
    assert!(stored.heartbeat >= t1);
}

#[test]
fn higher_incarnation_replaces() {
    let mut m = Membership::default();
    let id = nil_id();
    let node = make_node(id.clone(), 0);

    m.update_member(MemberState {
        info: with_incarnation(&node, 1),
        status: MemberStatus::Alive,
        heartbeat: now(),
    });

    // higher incarnation
    m.update_member(MemberState {
        info: with_incarnation(&node, 2),
        status: MemberStatus::Dead,
        heartbeat: now(),
    });

    let stored = m.get(&id).unwrap();
    assert_eq!(stored.info.incarnation, 2);
    assert_eq!(stored.status, MemberStatus::Dead);
}

#[test]
fn incarnation_override_revives_a_dead_member() {
    let mut m = Membership::new();
    let id = b"X".to_vec();
    let node = make_node(id.clone(), 0);
    assert!(m.update_member(MemberState {
        info: with_incarnation(&node, 1),
        status: MemberStatus::Dead,
        heartbeat: 1_000,
    }));
    assert!(m.is_dead(&id));
    assert!(m.update_member(MemberState {
        info: with_incarnation(&node, 2),
        status: MemberStatus::Alive,
        heartbeat: 2_000,
    }));
    let stored = m.get(&id).unwrap();
    assert_eq!(stored.info.incarnation, 2);
    assert_eq!(stored.status, MemberStatus::Alive);
    assert_eq!(stored.heartbeat, 2_000);
    assert!(m.is_alive(&id));
}

#[test]
fn lower_incarnation_is_ignored() {
    let mut m = Membership::new();
    let id = b"X".to_vec();
    let node = make_node(id.clone(), 0);
    m.update_member(MemberState {
        info: with_incarnation(&node, 5),
        status: MemberStatus::Alive,
        heartbeat: 100,
    });
    let changed = m.update_member(MemberState {
        info: with_incarnation(&node, 4),
        status: MemberStatus::Dead,
        heartbeat: 900,
    });
    assert!(!changed);
    let stored = m.get(&id).unwrap();
    assert_eq!(stored.info.incarnation, 5);
    assert_eq!(stored.status, MemberStatus::Alive);
    assert_eq!(stored.heartbeat, 100);
}

#[test]
fn same_incarnation_takes_the_status_of_a_fresh_report() {
    let mut m = Membership::new();
    let id = b"X".to_vec();
    let node = make_node(id.clone(), 0);
    m.update_member(MemberState { info: node.clone(), status: MemberStatus::Dead, heartbeat: 100 });
    // as fresh as what is known: the status is taken, dead to alive included
    assert!(m.update_member(MemberState {
        info: node.clone(),
        status: MemberStatus::Alive,
        heartbeat: 100,
    }));
    assert_eq!(m.get(&id).unwrap().status, MemberStatus::Alive);
    assert_eq!(m.get(&id).unwrap().heartbeat, 100);
    assert!(m.update_member(MemberState {
        info: node.clone(),
        status: MemberStatus::Dead,
        heartbeat: 150,
    }));
    assert_eq!(m.get(&id).unwrap().status, MemberStatus::Dead);
    assert_eq!(m.get(&id).unwrap().heartbeat, 150);
}

#[test]
fn same_incarnation_stale_report_only_downgrades() {
    let mut m = Membership::new();
    let id = b"X".to_vec();
    let node = make_node(id.clone(), 0);
    m.update_member(MemberState { info: node.clone(), status: MemberStatus::Dead, heartbeat: 100 });
    // a staler report of alive does not revive
    let changed = m.update_member(MemberState {
        info: node.clone(),
        status: MemberStatus::Alive,
        heartbeat: 99,
    });
    assert!(!changed);
    assert_eq!(m.get(&id).unwrap().status, MemberStatus::Dead);
    assert_eq!(m.get(&id).unwrap().heartbeat, 100);

    let mut m = Membership::new();
    m.update_member(MemberState { info: node.clone(), status: MemberStatus::Alive, heartbeat: 100 });
    // a staler report of dead does lower the status; the heartbeat stays
    let changed = m.update_member(MemberState {
        info: node.clone(),
        status: MemberStatus::Dead,
        heartbeat: 99,
    });
    assert!(changed);
    assert_eq!(m.get(&id).unwrap().status, MemberStatus::Dead);
    assert_eq!(m.get(&id).unwrap().heartbeat, 100);
}

#[test]
fn same_report_twice_changes_nothing() {
    let mut m = Membership::new();
    let node = make_node(b"X".to_vec(), 0);
    let report = MemberState { info: node, status: MemberStatus::Alive, heartbeat: 7 };
    assert!(m.update_member(report.clone()));
    assert!(!m.update_member(report));
}

#[test]
fn same_incarnation_keeps_the_known_addresses() {
    let mut m = Membership::new();
    let id = b"X".to_vec();
    m.update_member(MemberState {
        info: NodeInfo::init(id.clone(), "c".to_string(), "a1".to_string(), "p1".to_string()),
        status: MemberStatus::Alive,
        heartbeat: 1,
    });
    m.update_member(MemberState {
        info: NodeInfo::init(id.clone(), "c".to_string(), "a2".to_string(), "p2".to_string()),
        status: MemberStatus::Alive,
        heartbeat: 2,
    });
    let stored = m.get(&id).unwrap();
    assert_eq!(stored.info.advertise_addr, "a1");
    assert_eq!(stored.info.advertise_peer_addr, "p1");
    assert_eq!(stored.heartbeat, 2);
}

#[test]
fn incarnation_never_falls() {
    let mut m = Membership::new();
    let id = b"X".to_vec();
    let node = make_node(id.clone(), 0);
    let mut last = 0;
    for (inc, status, hb) in [
        (3, MemberStatus::Alive, 10),
        (1, MemberStatus::Dead, 50),
        (3, MemberStatus::Dead, 5),
        (7, MemberStatus::Alive, 1),
        (6, MemberStatus::Dead, 100),
        (7, MemberStatus::Dead, 100),
    ] {
        m.update_member(MemberState {
            info: with_incarnation(&node, inc),
            status,
            heartbeat: hb,
        });
        let stored = m.get(&id).unwrap().info.incarnation;
        assert!(stored >= last);
        last = stored;
    }
    assert_eq!(last, 7);
    assert_eq!(m.get(&id).unwrap().status, MemberStatus::Dead);
}

#[test]
fn members_are_kept_in_order_of_identifier() {
    let mut m = Membership::new();
    for id in ["node3", "node1", "node10", "node2"] {
        m.update_member(MemberState {
            info: make_node(id.as_bytes().to_vec(), 0),
            status: MemberStatus::Alive,
            heartbeat: 1,
        });
    }
    assert_eq!(m.len(), 4);
    assert_eq!(
        m.node_ids(),
        vec![b"node1".to_vec(), b"node10".to_vec(), b"node2".to_vec(), b"node3".to_vec()]
    );
    m.remove_member(b"node10");
    m.remove_member(b"absent");
    assert_eq!(m.node_ids(), vec![b"node1".to_vec(), b"node2".to_vec(), b"node3".to_vec()]);
    assert!(!m.contains(b"node10"));
    assert!(m.get(b"node10").is_none());
    assert!(!m.is_dead(b"node10"));
    assert!(!m.is_empty());
}

#[test]
fn update_all_merges_in_order() {
    let mut m = Membership::new();
    let a = make_node(b"a".to_vec(), 0);
    let b = make_node(b"b".to_vec(), 0);
    m.update_all(&vec![
        MemberState { info: a.clone(), status: MemberStatus::Alive, heartbeat: 1 },
        MemberState { info: b.clone(), status: MemberStatus::Alive, heartbeat: 1 },
        MemberState { info: a.clone(), status: MemberStatus::Dead, heartbeat: 2 },
        MemberState { info: with_incarnation(&b, 1), status: MemberStatus::Dead, heartbeat: 0 },
    ]);
    assert_eq!(m.len(), 2);
    assert!(m.is_dead(b"a"));
    assert_eq!(m.get(b"a").unwrap().heartbeat, 2);
    assert!(m.is_dead(b"b"));
    assert_eq!(m.get(b"b").unwrap().info.incarnation, 1);
    assert_eq!(m.get(b"b").unwrap().heartbeat, 0);
}

#[test]
fn alive_lists_the_live_members_only() {
    let mut m = Membership::new();
    for (id, status) in [
        ("c", MemberStatus::Alive),
        ("a", MemberStatus::Dead),
        ("b", MemberStatus::Alive),
    ] {
        m.update_member(MemberState {
            info: make_node(id.as_bytes().to_vec(), 0),
            status,
            heartbeat: 1,
        });
    }
    let alive: Vec<Vec<u8>> = m.alive().into_iter().map(|n| n.node_id).collect();
    assert_eq!(alive, vec![b"b".to_vec(), b"c".to_vec()]);
}

#[test]
fn remove_stale_forgets_the_long_dead() {
    let mut m = Membership::new();
    let deadline: u64 = 30;
    for (id, status, hb) in [
        ("a", MemberStatus::Dead, 69),
        ("b", MemberStatus::Dead, 70),
        ("c", MemberStatus::Alive, 0),
        ("d", MemberStatus::Dead, 0),
    ] {
        m.update_member(MemberState {
            info: make_node(id.as_bytes().to_vec(), 0),
            status,
            heartbeat: hb,
        });
    }
    let removed: Vec<Vec<u8>> = m.remove_stale(100, deadline).into_iter().map(|n| n.node_id).collect();
    // exactly 30 back is not yet stale; alive is never stale
    assert_eq!(removed, vec![b"a".to_vec(), b"d".to_vec()]);
    assert_eq!(m.node_ids(), vec![b"b".to_vec(), b"c".to_vec()]);
    assert!(m.remove_stale(100, deadline).is_empty());
}

#[test]
fn elapsed_time_is_compared_without_overflow() {
    assert!(!elapsed_more_than(0, 30, 30));
    assert!(elapsed_more_than(0, 31, 30));
    assert!(!elapsed_more_than(50, 40, 0));
    assert!(elapsed_more_than(i128::MIN, i128::MAX, u64::MAX));
    assert!(elapsed_more_than(-1, i128::MAX, 5));
    assert!(!elapsed_more_than(i128::MAX, i128::MIN, 0));
}

#[test]
fn downgrade_only_lowers() {
    let mut s = MemberStatus::Alive;
    s.downgrade_to(&MemberStatus::Alive);
    assert_eq!(s, MemberStatus::Alive);
    s.downgrade_to(&MemberStatus::Dead);
    assert_eq!(s, MemberStatus::Dead);
    s.downgrade_to(&MemberStatus::Alive);
    assert_eq!(s, MemberStatus::Dead);
    s.downgrade_to(&MemberStatus::Dead);
    assert_eq!(s, MemberStatus::Dead);
}

#[test]
fn uuid_order_is_byte_order() {
    let mut m = Membership::new();
    let low = uuid::Uuid::from_u64_pair(1, 9);
    let high = uuid::Uuid::from_u64_pair(2, 0);
    assert!(low < high);
    for id in [high, low] {
        m.update_member(MemberState {
            info: make_node(id.as_bytes().to_vec(), 0),
            status: MemberStatus::Alive,
            heartbeat: 1,
        });
    }
    assert_eq!(m.node_ids(), vec![low.as_bytes().to_vec(), high.as_bytes().to_vec()]);
}
