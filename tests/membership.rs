use dynamic_hash_ring::gossip::{admit_notice, bootstrap_input, Action, Delay, EngineOutputs, Input, Notice};
use dynamic_hash_ring::node::{Endpoint, Host, NodeIdentity, NodeUUID, DEFAULT_PREFIX, ID};
use dynamic_hash_ring::node_membership::NodeMembership;

const LOCALHOST: u32 = 0x7f00_0001;

fn endpoint(port: u16) -> Endpoint {
    Endpoint { host: Host::V4(LOCALHOST), port }
}

fn node(port: u16) -> NodeIdentity<NodeUUID> {
    NodeIdentity::new(NodeUUID::default(), endpoint(port))
}

fn node_with_uuid(uuid: u128, port: u16) -> NodeIdentity<NodeUUID> {
    NodeIdentity::new(NodeUUID::with_uuid(DEFAULT_PREFIX, uuid), endpoint(port))
}

#[test]
fn add_twice_returns_true_then_false() {
    let mut table = NodeMembership::new(3);
    let n = node(9001);
    assert!(table.add_node(n.clone()));
    assert!(!table.add_node(n.clone()));
    assert_eq!(table.len(), 1);
}

#[test]
fn add_same_key_other_address_is_rejected() {
    let mut table = NodeMembership::new(3);
    let n = node(9001);
    let moved = NodeIdentity::new(n.id().clone(), endpoint(9100));
    assert!(table.add_node(n));
    assert!(!table.add_node(moved));
    assert_eq!(table.snapshot()[0].addr(), endpoint(9001));
}

#[test]
fn remove_absent_returns_false_and_keeps_table() {
    let mut table = NodeMembership::for_local_node(node(9001), 3);
    let before = table.snapshot();
    assert!(!table.remove_node(node(9002)));
    let after = table.snapshot();
    assert_eq!(before, after);
    assert_eq!(table.len(), 1);
}

#[test]
fn remove_present_returns_true_once() {
    let mut table = NodeMembership::new(3);
    let a = node(9001);
    let b = node(9002);
    table.add_node(a.clone());
    table.add_node(b.clone());
    assert!(table.remove_node(a.clone()));
    assert!(!table.remove_node(a.clone()));
    assert_eq!(table.snapshot(), vec![b]);
}

#[test]
fn lookup_reaches_exactly_the_members() {
    let mut table = NodeMembership::new(3);
    let nodes: Vec<NodeIdentity<NodeUUID>> = (0..4).map(|i| node(9001 + i)).collect();
    for n in &nodes {
        assert!(table.add_node(n.clone()));
    }
    assert!(table.remove_node(nodes[1].clone()));
    let mut seen = vec![false; 4];
    for k in 0..1000 {
        let owner = table.get_node(&format!("key-{}", k)).expect("table is not empty");
        let idx = nodes.iter().position(|n| n == &owner).expect("owner is a known node");
        assert_ne!(idx, 1);
        assert_eq!(owner.addr(), nodes[idx].addr());
        seen[idx] = true;
    }
    assert_eq!(seen, vec![true, false, true, true]);
}

#[test]
fn fresh_table_contains_local_node() {
    let local = node(9001);
    let table = NodeMembership::for_local_node(local.clone(), 3);
    assert_eq!(table.snapshot(), vec![local.clone()]);
    assert_eq!(table.get_node("anything"), Some(local));
}

#[test]
fn empty_table_answers_none() {
    let table: NodeMembership<NodeUUID> = NodeMembership::new(3);
    assert_eq!(table.get_node("x"), None);
    let mut single = NodeMembership::new(1);
    assert!(single.add_node(node(9001)));
    assert!(single.get_node("x").is_some());
}

#[test]
fn distinct_adds_all_succeed_once() {
    let mut table = NodeMembership::new(3);
    let nodes: Vec<NodeIdentity<NodeUUID>> = (0..20).map(|i| node(9000 + i)).collect();
    for n in &nodes {
        assert!(table.add_node(n.clone()));
    }
    for n in &nodes {
        assert!(!table.add_node(n.clone()));
    }
    assert_eq!(table.snapshot(), nodes);
}

#[test]
fn replayed_notice_changes_nothing() {
    let mut table = NodeMembership::for_local_node(node(9001), 3);
    let b = node(9002);
    assert!(table.apply_notice(Notice::MemberUp(b.clone())));
    assert!(!table.apply_notice(Notice::MemberUp(b.clone())));
    assert_eq!(table.len(), 2);
    assert!(table.apply_notice(Notice::MemberDown(b.clone())));
    assert!(!table.apply_notice(Notice::MemberDown(b.clone())));
    assert!(!table.apply_notice(Notice::Other));
    assert_eq!(table.len(), 1);
}

#[test]
fn scenario_two_nodes_then_remove_first() {
    let a = node(9001);
    let b = node(9002);
    let mut table = NodeMembership::for_local_node(a.clone(), 3);
    assert_eq!(table.get_node("x"), Some(a.clone()));
    assert!(table.add_node(b.clone()));
    let mut got_a = false;
    let mut got_b = false;
    for k in 0..1000 {
        let owner = table.get_node(&k.to_string()).unwrap();
        if owner == a {
            got_a = true;
        } else if owner == b {
            got_b = true;
        } else {
            panic!("lookup answered a node that is not a member");
        }
    }
    assert!(got_a && got_b);
    assert!(table.remove_node(a.clone()));
    for k in 0..1000 {
        assert_eq!(table.get_node(&k.to_string()), Some(b.clone()));
    }
}

#[test]
fn scenario_seed_announce_then_member_up() {
    let a = node(9001);
    let b = node(9002);
    let seed = a.addr();
    match bootstrap_input::<u32>(Some(seed)) {
        Some(Input::Announce(e)) => assert_eq!(e, endpoint(9001)),
        _ => panic!("expected an announce to the seed"),
    }
    assert!(bootstrap_input::<u32>(None).is_none());

    let mut table_a = NodeMembership::for_local_node(a.clone(), 3);
    let mut outputs: EngineOutputs<NodeUUID, u32> = EngineOutputs::new();
    outputs.notify(Notice::MemberUp(b.clone()));
    let actions = outputs.drain_into(&mut table_a);
    assert_eq!(actions.len(), 1);
    assert!(matches!(actions[0], Action::LogMembers));
    assert!(table_a.snapshot().contains(&b));
}

#[test]
fn drain_orders_sends_timers_then_log() {
    let mut table = NodeMembership::for_local_node(node(9001), 3);
    let mut outputs: EngineOutputs<NodeUUID, u32> = EngineOutputs::new();
    outputs.send_to(node(9002), &[1, 2, 3]);
    outputs.send_to(node(9003), &[4]);
    outputs.submit_after(7, Delay { secs: 1, nanos: 0 });
    outputs.submit_after(8, Delay { secs: 0, nanos: 500 });
    outputs.notify(Notice::MemberUp(node(9004)));
    outputs.notify(Notice::Other);
    let actions = outputs.drain_into(&mut table);
    assert_eq!(actions.len(), 5);
    match &actions[0] {
        Action::Send(e, d) => {
            assert_eq!(*e, endpoint(9002));
            assert_eq!(d, &vec![1u8, 2, 3]);
        }
        _ => panic!("expected a send"),
    }
    match &actions[1] {
        Action::Send(e, d) => {
            assert_eq!(*e, endpoint(9003));
            assert_eq!(d, &vec![4u8]);
        }
        _ => panic!("expected a send"),
    }
    match &actions[2] {
        Action::Schedule(d, t) => {
            assert_eq!(*d, Delay { secs: 1, nanos: 0 });
            assert_eq!(*t, 7);
        }
        _ => panic!("expected a schedule"),
    }
    match &actions[3] {
        Action::Schedule(d, t) => {
            assert_eq!(*d, Delay { secs: 0, nanos: 500 });
            assert_eq!(*t, 8);
        }
        _ => panic!("expected a schedule"),
    }
    assert!(matches!(actions[4], Action::LogMembers));
    assert_eq!(table.len(), 2);
    assert!(outputs.to_send.is_empty());
    assert!(outputs.to_schedule.is_empty());
    assert!(outputs.notifications.is_empty());
}

#[test]
fn drain_without_change_logs_nothing() {
    let local = node(9001);
    let mut table = NodeMembership::for_local_node(local.clone(), 3);
    let mut outputs: EngineOutputs<NodeUUID, u32> = EngineOutputs::new();
    outputs.notify(Notice::MemberUp(local.clone()));
    outputs.notify(Notice::MemberDown(node(9005)));
    let actions = outputs.drain_into(&mut table);
    assert!(actions.is_empty());
    assert_eq!(table.len(), 1);
}

#[test]
fn notices_are_applied_in_emitted_order() {
    let mut table = NodeMembership::for_local_node(node(9001), 3);
    let b = node(9002);
    let mut batch = vec![Notice::MemberUp(b.clone()), Notice::MemberDown(b.clone())];
    assert!(table.apply_notifications(&mut batch));
    assert!(batch.is_empty());
    assert!(!table.contains(&b));
    let mut again = vec![Notice::MemberDown(b.clone()), Notice::MemberUp(b.clone())];
    assert!(table.apply_notifications(&mut again));
    assert!(table.contains(&b));
}

#[test]
fn foreign_cluster_notices_are_ignored() {
    let local = node_with_uuid(1, 9001);
    let foreign = NodeIdentity::new(NodeUUID::with_uuid("other-cluster", 2), endpoint(9002));
    let friend = node_with_uuid(3, 9003);
    assert!(matches!(admit_notice(&local, Notice::MemberUp(foreign.clone())), Notice::Other));
    assert!(matches!(admit_notice(&local, Notice::MemberDown(foreign)), Notice::Other));
    match admit_notice(&local, Notice::MemberUp(friend.clone())) {
        Notice::MemberUp(n) => assert!(n == friend),
        _ => panic!("a notice of the same cluster passes"),
    }
}

#[test]
fn default_uuid_is_version_four() {
    let id = NodeUUID::default();
    assert_eq!((id.uuid() >> 76) & 0xf, 4);
    assert_eq!((id.uuid() >> 62) & 3, 2);
    assert_eq!(&id.id()[DEFAULT_PREFIX.len() + 1 + 14..DEFAULT_PREFIX.len() + 1 + 15], "4");
}

#[test]
fn uuid_identity_key_is_prefix_and_hyphenated_uuid() {
    let id = NodeUUID::with_uuid("my-cluster", 1);
    assert_eq!(id.id(), "my-cluster-00000000-0000-0000-0000-000000000001");
    assert_eq!(id.prefix(), "my-cluster");
    assert_eq!(id.uuid(), 1);
    let other = NodeUUID::with_uuid("edge", 0x0123_4567_89ab_cdef_0123_4567_89ab_cdef);
    assert_eq!(other.id(), "edge-01234567-89ab-cdef-0123-456789abcdef");
}

#[test]
fn default_identities_are_fresh() {
    let a = NodeUUID::default();
    let b = NodeUUID::default();
    assert_eq!(a.prefix(), DEFAULT_PREFIX);
    assert_eq!(a.id().len(), DEFAULT_PREFIX.len() + 1 + 36);
    assert_ne!(a.id(), b.id());
}

#[test]
fn identity_equality_is_by_key_alone() {
    let a = node_with_uuid(5, 9001);
    let moved = node_with_uuid(5, 9009);
    let other = node_with_uuid(6, 9001);
    assert!(a == moved);
    assert!(a.same_node(&moved));
    assert!(a != other);
    assert!(a.has_same_prefix(&other));
    let foreign = NodeIdentity::new(NodeUUID::with_uuid("other-cluster", 5), endpoint(9001));
    assert!(!a.has_same_prefix(&foreign));
    assert!(a.renew().is_none());
    assert_eq!(a.key_string(), "my-cluster-00000000-0000-0000-0000-000000000005");
}

#[test]
fn member_with_key_finds_by_unique_key() {
    let a = node_with_uuid(11, 9001);
    let b = node_with_uuid(12, 9002);
    let mut table = NodeMembership::for_local_node(a.clone(), 3);
    table.add_node(b.clone());
    let found = table.member_with_key(&b.key_string()).expect("b is a member");
    assert_eq!(found.addr(), endpoint(9002));
    assert!(found == b);
    assert!(table.member_with_key("my-cluster-00000000-0000-0000-0000-000000000099").is_none());
    assert!(table.contains(&a));
    assert!(!table.contains(&node_with_uuid(13, 9003)));
}

#[test]
fn lookup_is_stable_for_a_key() {
    let mut table = NodeMembership::new(3);
    for i in 0..5u128 {
        table.add_node(node_with_uuid(100 + i, 9100 + i as u16));
    }
    for k in 0..50 {
        let key = format!("stable-{}", k);
        assert_eq!(table.get_node(&key), table.get_node(&key));
    }
}
