use percas::gossip::{Exchange, GossipError, GossipMessage, GossipState, Step};
use percas::member::{MemberState, MemberStatus};
use percas::node::NodeInfo;

const SEC: i128 = 1_000_000_000;

fn node(id: &str) -> NodeInfo {
    NodeInfo::init(
        id.as_bytes().to_vec(),
        "cluster".to_string(),
        format!("http://{id}:7654"),
        format!("http://{id}:7655"),
    )
}

fn state(id: &str) -> GossipState {
    let mut g = GossipState::new(node(id));
    g.bootstrap(0);
    g
}

fn status_of(g: &GossipState, id: &str) -> Option<MemberStatus> {
    g.membership().get(id.as_bytes()).map(|m| m.status)
}

#[test]
fn a_new_state_knows_nobody() {
    let g = GossipState::new(node("a"));
    assert!(g.membership().is_empty());
    assert_eq!(g.ring().len(), 0);
    assert_eq!(g.ring().vnode_count(), 64);
    assert_eq!(g.current().node_id, b"a".to_vec());
    let err = g.check_bootstrapped().unwrap_err();
    assert_eq!(
        err.to_string(),
        "failed to bootstrap the cluster: no initial peer available"
    );
}

#[test]
fn bootstrap_inserts_the_node_alive() {
    let mut g = GossipState::new(node("a"));
    g.bootstrap(5 * SEC);
    assert_eq!(g.membership().len(), 1);
    let me = g.membership().get(b"a").unwrap();
    assert_eq!(me.status, MemberStatus::Alive);
    assert_eq!(me.heartbeat, 5 * SEC);
    assert!(g.check_bootstrapped().is_ok());
}

#[test]
fn a_ping_is_answered_with_an_ack() {
    let mut g = state("a");
    let done = g.handle_message(GossipMessage::Ping(node("b")), 3 * SEC);
    match done.reply {
        Some(GossipMessage::Ack(info)) => {
            assert_eq!(info.node_id, b"a".to_vec());
            assert_eq!(info.incarnation, 0);
        }
        other => panic!("unexpected reply {other:?}"),
    }
    assert!(!done.advanced);
    let b = g.membership().get(b"b").unwrap();
    assert_eq!(b.status, MemberStatus::Alive);
    assert_eq!(b.heartbeat, 3 * SEC);
    // the node asserted itself at the time of the message
    assert_eq!(g.membership().get(b"a").unwrap().heartbeat, 3 * SEC);
}

#[test]
fn an_ack_is_not_answered() {
    let mut g = state("a");
    let done = g.handle_message(GossipMessage::Ack(node("b")), SEC);
    assert!(done.reply.is_none());
    assert_eq!(status_of(&g, "b"), Some(MemberStatus::Alive));
}

#[test]
fn a_sync_is_answered_with_the_merged_view() {
    let mut g = state("b");
    let members = vec![
        MemberState { info: node("c"), status: MemberStatus::Dead, heartbeat: 2 * SEC },
        MemberState { info: node("a"), status: MemberStatus::Alive, heartbeat: SEC },
    ];
    let done = g.handle_message(GossipMessage::Sync { members }, 4 * SEC);
    match done.reply {
        Some(GossipMessage::Sync { members }) => {
            let listed: Vec<(Vec<u8>, MemberStatus, i128)> = members
                .into_iter()
                .map(|m| (m.info.node_id, m.status, m.heartbeat))
                .collect();
            assert_eq!(
                listed,
                vec![
                    (b"a".to_vec(), MemberStatus::Alive, SEC),
                    (b"b".to_vec(), MemberStatus::Alive, 4 * SEC),
                    (b"c".to_vec(), MemberStatus::Dead, 2 * SEC),
                ]
            );
        }
        other => panic!("unexpected reply {other:?}"),
    }
    assert!(!done.advanced);
}

#[test]
fn a_stale_report_of_death_is_displaced_by_the_refresh() {
    let mut g = state("a");
    let members = vec![MemberState {
        info: node("a"),
        status: MemberStatus::Dead,
        heartbeat: 2 * SEC,
    }];
    let done = g.handle_message(GossipMessage::Sync { members }, 3 * SEC);
    assert!(!done.advanced);
    assert_eq!(status_of(&g, "a"), Some(MemberStatus::Alive));
    assert_eq!(g.current().incarnation, 0);
}

#[test]
fn an_outvoted_node_advances_its_incarnation() {
    // dead at a later incarnation: the node's own report is ignored
    let mut g = state("a");
    let mut ahead = node("a");
    ahead.incarnation = 1;
    let members = vec![MemberState { info: ahead, status: MemberStatus::Dead, heartbeat: SEC }];
    let done = g.handle_message(GossipMessage::Sync { members }, 3 * SEC);
    assert!(done.advanced);
    assert_eq!(g.current().incarnation, 1);
    assert_eq!(status_of(&g, "a"), Some(MemberStatus::Dead));
    // at the new incarnation the next handled message revives the node
    let done = g.handle_message(GossipMessage::Ack(node("b")), 4 * SEC);
    assert!(!done.advanced);
    assert_eq!(status_of(&g, "a"), Some(MemberStatus::Alive));

    // dead at the same incarnation with a heartbeat in the future
    let mut g = state("a");
    let members = vec![MemberState {
        info: node("a"),
        status: MemberStatus::Dead,
        heartbeat: 9 * SEC,
    }];
    let done = g.handle_message(GossipMessage::Sync { members }, 3 * SEC);
    assert!(done.advanced);
    assert_eq!(g.current().incarnation, 1);
    assert_eq!(status_of(&g, "a"), Some(MemberStatus::Dead));
}

#[test]
fn the_node_stays_alive_through_any_messages_that_do_not_outvote_it() {
    let mut g = state("a");
    let mut t = SEC;
    for peer in ["b", "c", "d", "b", "a"] {
        g.handle_message(GossipMessage::Ping(node(peer)), t);
        assert_eq!(status_of(&g, "a"), Some(MemberStatus::Alive));
        t += SEC;
        g.handle_message(
            GossipMessage::Sync {
                members: vec![
                    MemberState { info: node(peer), status: MemberStatus::Dead, heartbeat: t },
                    MemberState { info: node("a"), status: MemberStatus::Dead, heartbeat: t - 1 },
                ],
            },
            t,
        );
        assert_eq!(status_of(&g, "a"), Some(MemberStatus::Alive));
        t += SEC;
    }
    assert_eq!(g.current().incarnation, 0);
}

#[test]
fn mark_dead_uses_the_heartbeat_last_seen() {
    let mut g = state("a");
    g.handle_message(GossipMessage::Ping(node("b")), 2 * SEC);
    g.mark_dead(&node("b"));
    let b = g.membership().get(b"b").unwrap();
    assert_eq!(b.status, MemberStatus::Dead);
    assert_eq!(b.heartbeat, 2 * SEC);
    // an unknown peer leaves no trace
    g.mark_dead(&node("z"));
    assert!(g.membership().get(b"z").is_none());
    assert_eq!(g.membership().len(), 2);
}

#[test]
fn exchange_outcomes() {
    let mut g = state("a");
    g.handle_message(GossipMessage::Ping(node("b")), SEC);
    // the right answer is handled
    let advanced = g.exchange_done(Exchange::Ping, &node("b"), Some(GossipMessage::Ack(node("b"))), 5 * SEC);
    assert!(!advanced);
    assert_eq!(g.membership().get(b"b").unwrap().heartbeat, 5 * SEC);
    assert_eq!(status_of(&g, "b"), Some(MemberStatus::Alive));
    // no answer counts against the peer
    g.exchange_done(Exchange::Ping, &node("b"), None, 6 * SEC);
    assert_eq!(status_of(&g, "b"), Some(MemberStatus::Dead));
    assert_eq!(g.membership().get(b"b").unwrap().heartbeat, 5 * SEC);
    // so does the wrong kind of answer
    let mut g = state("a");
    g.handle_message(GossipMessage::Ping(node("b")), SEC);
    g.exchange_done(
        Exchange::Sync,
        &node("b"),
        Some(GossipMessage::Ack(node("b"))),
        6 * SEC,
    );
    assert_eq!(status_of(&g, "b"), Some(MemberStatus::Dead));
    g.exchange_done(
        Exchange::Sync,
        &node("b"),
        Some(GossipMessage::Sync {
            members: vec![MemberState {
                info: node("b"),
                status: MemberStatus::Alive,
                heartbeat: 7 * SEC,
            }],
        }),
        7 * SEC,
    );
    assert_eq!(status_of(&g, "b"), Some(MemberStatus::Alive));
}

#[test]
fn bootstrap_outcomes_pass_over_failures() {
    let mut g = state("a");
    assert!(!g.bootstrap_done(Exchange::Ping, None, SEC));
    assert_eq!(g.membership().len(), 1);
    assert!(!g.bootstrap_done(Exchange::Ping, Some(GossipMessage::Ping(node("b"))), SEC));
    assert_eq!(g.membership().len(), 1);
    assert!(!g.bootstrap_done(Exchange::Ping, Some(GossipMessage::Ack(node("b"))), SEC));
    assert_eq!(g.membership().len(), 2);
    assert!(GossipState::reply_fits(Exchange::Ping, &Some(GossipMessage::Ack(node("b")))));
    assert!(!GossipState::reply_fits(Exchange::Sync, &Some(GossipMessage::Ack(node("b")))));
    assert!(GossipState::reply_fits(Exchange::Sync, &Some(GossipMessage::Sync { members: vec![] })));
    assert!(!GossipState::reply_fits(Exchange::Sync, &None));
}

#[test]
fn rebuild_ring_covers_the_members() {
    let mut g = state("a");
    g.handle_message(GossipMessage::Ping(node("b")), SEC);
    g.handle_message(GossipMessage::Ping(node("c")), SEC);
    assert_eq!(g.ring().len(), 0);
    g.rebuild_ring(2 * SEC);
    assert_eq!(g.ring().vnode_count(), 64);
    assert_eq!(g.ring().len(), 3 * 64);
    assert_eq!(g.membership().get(b"a").unwrap().heartbeat, 2 * SEC);
    let mut all = std::collections::BTreeSet::new();
    for (_, n) in g.ring().slots() {
        all.insert(n);
    }
    assert_eq!(all.into_iter().collect::<Vec<_>>(), vec![b"a".to_vec(), b"b".to_vec(), b"c".to_vec()]);
}

#[test]
fn harvest_forgets_after_the_deadline_and_rebuilds() {
    let mut g = state("a");
    g.handle_message(GossipMessage::Ping(node("b")), SEC);
    g.handle_message(GossipMessage::Ping(node("c")), SEC);
    g.rebuild_ring(SEC);
    g.mark_dead(&node("b"));
    // 30 s after the last heartbeat: not yet
    assert!(g.harvest(31 * SEC).is_empty());
    assert_eq!(g.ring().len(), 3 * 64);
    assert_eq!(g.membership().len(), 3);
    let removed = g.harvest(31 * SEC + 1);
    assert_eq!(removed.len(), 1);
    assert_eq!(removed[0].node_id, b"b".to_vec());
    assert_eq!(g.membership().len(), 2);
    assert_eq!(g.ring().len(), 2 * 64);
    assert!(g.remove_dead_members(90 * SEC).is_empty());
}

#[test]
fn plan_picks_among_the_live_members() {
    let mut g = state("a");
    g.handle_message(GossipMessage::Ping(node("b")), SEC);
    g.handle_message(GossipMessage::Ping(node("c")), SEC);
    g.mark_dead(&node("b"));
    match g.plan(Exchange::Ping, 1) {
        Step::Send { peer, message } => {
            assert_eq!(peer.node_id, b"c".to_vec());
            assert!(matches!(message, GossipMessage::Ping(me) if me.node_id == b"a".to_vec()));
        }
        other => panic!("unexpected step {other:?}"),
    }
    match g.plan(Exchange::Sync, 0) {
        Step::Send { peer, message } => {
            assert_eq!(peer.node_id, b"a".to_vec());
            match message {
                GossipMessage::Sync { members } => assert_eq!(members.len(), 3),
                other => panic!("unexpected message {other:?}"),
            }
        }
        other => panic!("unexpected step {other:?}"),
    }
    assert!(matches!(g.plan(Exchange::Ping, 2), Step::Bootstrap));
    for _ in 0..50 {
        match g.plan_random(Exchange::Ping) {
            Step::Send { peer, .. } => {
                assert!(peer.node_id == b"a".to_vec() || peer.node_id == b"c".to_vec())
            }
            other => panic!("unexpected step {other:?}"),
        }
    }
    let empty = GossipState::new(node("a"));
    assert!(matches!(empty.plan_random(Exchange::Sync), Step::Bootstrap));
}

#[test]
fn list_members_shows_each_member_with_its_vnodes() {
    let mut g = state("node1");
    g.handle_message(GossipMessage::Ping(node("node2")), SEC);
    g.rebuild_ring(SEC);
    let listed = g.list_members();
    assert_eq!(listed.len(), 2);
    assert_eq!(listed[0].node_id, b"node1".to_vec());
    assert_eq!(listed[0].cluster_id, "cluster");
    assert_eq!(listed[0].advertise_addr, "http://node1:7654");
    assert_eq!(listed[0].advertise_peer_addr, "http://node1:7655");
    assert_eq!(listed[0].incarnation, 0);
    assert_eq!(listed[0].status, MemberStatus::Alive);
    assert_eq!(listed[0].heartbeat, SEC);
    assert_eq!(listed[0].vnodes.len(), 64);
    assert_eq!(&listed[0].vnodes[..3], &[2055369648, 2867117499, 1990303436]);
    assert_eq!(listed[1].node_id, b"node2".to_vec());
    assert_eq!(listed[1].vnodes[0], 1791529263);
    assert_eq!(listed[1].vnodes, g.ring().list_vnodes(b"node2"));
}

#[test]
fn gossip_error_carries_its_message() {
    let e = GossipError::new("boom".to_string());
    assert_eq!(e.to_string(), "boom");
}
