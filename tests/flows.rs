use dns_udp_tunnel::{
    decode_answer, encode_answer_with_id, Dispatch, Flow, FlowAction, FlowEvent, FlowTable,
    PeerAddress, Role,
};

fn peer(port: u16) -> PeerAddress {
    PeerAddress { ip: 0x7f00_0001, port, v6: false }
}

#[test]
fn table_insert_lookup_remove() {
    let mut t: FlowTable<u32> = FlowTable::new();
    assert!(!t.contains(peer(1)));
    assert!(t.insert(peer(1), 10));
    assert!(!t.insert(peer(1), 11));
    assert_eq!(t.lookup(peer(1)), Some(&10));
    assert!(t.insert(peer(2), 20));
    assert!(t.insert(PeerAddress { v6: true, ..peer(1) }, 30));
    assert_eq!(t.lookup(PeerAddress { v6: true, ..peer(1) }), Some(&30));
    assert_eq!(t.lookup(PeerAddress { ip: 5, ..peer(1) }), None);
    assert!(t.remove(peer(1)));
    assert!(!t.remove(peer(1)));
    assert_eq!(t.lookup(peer(1)), None);
    assert_eq!(t.lookup(peer(2)), Some(&20));
    assert_eq!(t.lookup(PeerAddress { v6: true, ..peer(1) }), Some(&30));
    assert!(t.remove(peer(2)));
    assert!(t.remove(PeerAddress { v6: true, ..peer(1) }));
    assert!(!t.contains(peer(2)));
}

#[test]
fn dispatch_decisions() {
    let dst = peer(53);
    let mut t: FlowTable<u32> = FlowTable::new();
    assert_eq!(t.classify(dst, dst), Dispatch::FromDestination);
    assert_eq!(t.classify(peer(1), dst), Dispatch::NewPeer);
    t.insert(peer(1), 1);
    assert_eq!(t.classify(peer(1), dst), Dispatch::Existing);
    assert_eq!(t.classify(PeerAddress { v6: true, ..peer(1) }, dst), Dispatch::NewPeer);
}

#[test]
fn one_flow_per_peer_under_many_datagrams() {
    let dst = peer(53);
    let mut t: FlowTable<usize> = FlowTable::new();
    let mut started = Vec::new();
    let arrivals = [1u16, 2, 1, 53, 3, 2, 2, 1, 3, 4];
    for (i, p) in arrivals.iter().enumerate() {
        if t.classify(peer(*p), dst) == Dispatch::NewPeer {
            assert!(t.insert(peer(*p), i));
            started.push(*p);
        }
    }
    assert_eq!(started, vec![1, 2, 3, 4]);
    for p in [1u16, 2, 3, 4] {
        assert!(t.contains(peer(p)));
    }
    assert!(!t.contains(dst));
}

#[test]
fn scenario_two_datagrams_same_new_peer() {
    let dst = peer(53);
    let from = peer(4000);
    let mut t: FlowTable<u8> = FlowTable::new();
    let mut spawned = 0;
    let mut queue: Vec<Vec<u8>> = Vec::new();
    for d in [b"first".to_vec(), b"second".to_vec()] {
        match t.classify(from, dst) {
            Dispatch::NewPeer => {
                t.insert(from, 0);
                spawned += 1;
                queue.push(d);
            }
            Dispatch::Existing => queue.push(d),
            Dispatch::FromDestination => {}
        }
    }
    assert_eq!(spawned, 1);
    let mut flow = Flow::new(Role::Server, from, 60, 0);
    let mut sent = Vec::new();
    for (i, d) in queue.into_iter().enumerate() {
        match flow.step(FlowEvent::Inbound { data: d }, i as u64 + 1) {
            FlowAction::ToDestination(b) => sent.push(b),
            _ => panic!("inbound payload not forwarded"),
        }
    }
    assert_eq!(sent, vec![b"first".to_vec(), b"second".to_vec()]);
}

#[test]
fn scenario_idle_flow_leaves_table() {
    let from = peer(4001);
    let mut t: FlowTable<u8> = FlowTable::new();
    t.insert(from, 0);
    let mut flow = Flow::new(Role::Client, from, 1, 100);
    assert!(matches!(flow.step(FlowEvent::TimerFired, 100), FlowAction::Nothing));
    assert!(matches!(flow.step(FlowEvent::TimerFired, 102), FlowAction::Expire));
    assert!(flow.expired);
    t.remove(from);
    assert_eq!(t.lookup(from), None);
}

#[test]
fn traffic_resets_deadline() {
    let mut flow = Flow::new(Role::Client, peer(1), 10, 0);
    assert!(flow.is_idle(10));
    assert!(matches!(flow.step(FlowEvent::Inbound { data: vec![1] }, 5), FlowAction::ToDestination(_)));
    assert_eq!(flow.last_activity, 5);
    assert!(!flow.is_idle(10));
    assert!(matches!(flow.step(FlowEvent::TimerFired, 12), FlowAction::Nothing));
    assert!(matches!(flow.step(FlowEvent::TimerFired, 15), FlowAction::Expire));
}

#[test]
fn client_decodes_destination_reply() {
    let mut flow = Flow::new(Role::Client, peer(1), 10, 0);
    let wire = encode_answer_with_id(b"pong", 3).unwrap();
    match flow.step(FlowEvent::Upstream { from_destination: true, data: wire }, 4) {
        FlowAction::ToPeer(m) => assert_eq!(m, b"pong".to_vec()),
        _ => panic!("reply not delivered"),
    }
    assert_eq!(flow.last_activity, 4);
}

#[test]
fn client_drops_garbled_reply_without_reset() {
    let mut flow = Flow::new(Role::Client, peer(1), 10, 0);
    let r = flow.step(FlowEvent::Upstream { from_destination: true, data: vec![1, 2, 3] }, 4);
    assert!(matches!(r, FlowAction::Nothing));
    assert_eq!(flow.last_activity, 0);
}

#[test]
fn server_wraps_destination_reply() {
    let mut flow = Flow::new(Role::Server, peer(1), 10, 0);
    match flow.step(FlowEvent::Upstream { from_destination: true, data: b"pong".to_vec() }, 6) {
        FlowAction::ToPeer(w) => assert_eq!(decode_answer(&w), Some(b"pong".to_vec())),
        _ => panic!("reply not delivered"),
    }
    assert_eq!(flow.last_activity, 6);
}

#[test]
fn foreign_upstream_datagram_ignored() {
    let mut flow = Flow::new(Role::Server, peer(1), 10, 0);
    let r = flow.step(FlowEvent::Upstream { from_destination: false, data: b"x".to_vec() }, 6);
    assert!(matches!(r, FlowAction::Nothing));
    assert_eq!(flow.last_activity, 0);
}

#[test]
fn on_reply_outcomes() {
    let mut flow = Flow::new(Role::Client, peer(1), 10, 0);
    assert!(matches!(flow.on_reply(None, 3), FlowAction::Nothing));
    assert_eq!(flow.last_activity, 0);
    match flow.on_reply(Some(vec![9]), 3) {
        FlowAction::ToPeer(m) => assert_eq!(m, vec![9]),
        _ => panic!("reply not delivered"),
    }
    assert_eq!(flow.last_activity, 3);
}

#[test]
fn server_drops_reply_too_large_for_an_answer() {
    let mut flow = Flow::new(Role::Server, peer(1), 10, 0);
    let r = flow.step(FlowEvent::Upstream { from_destination: true, data: vec![1; 60000] }, 6);
    assert!(matches!(r, FlowAction::Nothing));
    assert_eq!(flow.last_activity, 0);
}
