use udp_proxy::health::{ProbeAction, ProbeState, ReadOutcome};
use udp_proxy::node::ServerNode;
use udp_proxy::proxy::{key_end, Dispatch, EventTarget, Proxy, TICK_TOKEN};

fn two_backends() -> Proxy {
    let nodes = vec![ServerNode::new("1.1.1.1", 9001, 9101), ServerNode::new("1.1.1.2", 9002, 9102)];
    Proxy::new(1000, &nodes, 0)
}

fn forward_slot(p: &Proxy, packet: &[u8]) -> Option<usize> {
    match p.parse(packet) {
        Dispatch::Forward { slot, payload } => {
            assert_eq!(payload, packet.to_vec());
            Some(slot)
        }
        _ => None,
    }
}

/// Drives record `i` through one probe that gets `reply`.
fn probe(p: &mut Proxy, i: usize, reply: &[u8]) {
    p.conns[i].state = ProbeState::Connecting;
    assert!(p.probe_ready(i, false) == ProbeAction::SendProbe);
    assert!(p.probe_ready(i, false) == ProbeAction::ReadReply);
    assert!(p.probe_reply(i, &ReadOutcome::Data(reply.to_vec())) == ProbeAction::ArmWritable);
    assert!(p.conns[i].state == ProbeState::Writing);
}

#[test]
fn key_end_finds_first_colon() {
    assert_eq!(key_end(b"user42:payload"), Some(6));
    assert_eq!(key_end(b"a:b:c"), Some(1));
    assert_eq!(key_end(b":x"), Some(0));
    assert_eq!(key_end(b"no-colon-here"), None);
    assert_eq!(key_end(b""), None);
}

#[test]
fn new_engine_has_all_backends() {
    let p = two_backends();
    assert_eq!(p.conns.len(), 2);
    assert_eq!(p.members, vec![true, true]);
    assert_eq!(p.conns[0].token, 1);
    assert_eq!(p.conns[1].token, 2);
    assert!(p.conns[0].state == ProbeState::Connecting);
    assert_eq!(p.names, vec!["1.1.1.1:9001".to_string(), "1.1.1.2:9002".to_string()]);
}

#[test]
fn new_engine_keeps_first_of_a_name() {
    let nodes = vec![
        ServerNode::new("1.1.1.1", 9001, 9101),
        ServerNode::new("1.1.1.1", 9001, 9999),
        ServerNode::new("1.1.1.2", 9002, 9102),
    ];
    let p = Proxy::new(500, &nodes, 0);
    assert_eq!(p.conns.len(), 2);
    assert_eq!(p.nodes[0].adminport, 9101);
    assert_eq!(p.nodes[1].port, 9002);
    assert_eq!(p.check_interval, 500);
}

#[test]
fn minimal_route_is_verbatim_and_stable() {
    let p = two_backends();
    let packet = b"user42:payload";
    let first = forward_slot(&p, packet);
    assert!(first == Some(0) || first == Some(1));
    assert_eq!(forward_slot(&p, packet), first);
}

#[test]
fn routing_uses_bytes_before_first_colon() {
    let p = two_backends();
    let a = forward_slot(&p, b"user42:one");
    let b = forward_slot(&p, b"user42:two:three");
    let c = forward_slot(&p, b"user42:");
    assert_eq!(a, b);
    assert_eq!(a, c);
    assert_eq!(p.ring.get(b"user42"), a);
}

#[test]
fn malformed_datagram_is_dropped() {
    let p = two_backends();
    assert!(matches!(p.parse(b"no-colon-here"), Dispatch::Malformed));
    assert_eq!(p.members, vec![true, true]);
    assert!(forward_slot(&p, b"user42:payload").is_some());
}

#[test]
fn empty_engine_has_no_backend() {
    let p = Proxy::new(1000, &Vec::new(), 0);
    assert!(matches!(p.parse(b"user42:payload"), Dispatch::NoBackend));
}

#[test]
fn token_targets() {
    let p = two_backends();
    assert!(p.token_target(0) == EventTarget::Ingress);
    assert!(p.token_target(1) == EventTarget::Probe(0));
    assert!(p.token_target(2) == EventTarget::Probe(1));
    assert!(p.token_target(3) == EventTarget::Unknown);
    assert!(p.token_target(TICK_TOKEN) == EventTarget::Tick);
}

#[test]
fn three_failures_evict_on_next_tick() {
    let mut p = two_backends();
    for _ in 0..3 {
        probe(&mut p, 0, b"health: down");
    }
    assert_eq!(p.conns[0].failure, 3);
    let actions = p.timeout(1000);
    assert_eq!(actions, vec![ProbeAction::SendProbe, ProbeAction::Idle]);
    assert!(p.conns[0].state == ProbeState::Reading);
    assert_eq!(p.members, vec![false, true]);
    assert_eq!(p.conns[0].failure, 0);
    for i in 0..200 {
        let key = format!("user{}:payload", i);
        assert_eq!(forward_slot(&p, key.as_bytes()), Some(1));
    }
}

#[test]
fn two_failures_do_not_evict() {
    let mut p = two_backends();
    probe(&mut p, 0, b"health: down");
    probe(&mut p, 0, b"health: down");
    p.timeout(1000);
    assert_eq!(p.members, vec![true, true]);
    assert_eq!(p.conns[0].failure, 2);
}

#[test]
fn success_reinstates_on_next_tick() {
    let mut p = two_backends();
    let before = forward_slot(&p, b"user42:payload");
    for _ in 0..3 {
        probe(&mut p, 0, b"health: down");
    }
    p.timeout(1000);
    assert_eq!(p.members, vec![false, true]);
    p.timeout(2000);
    assert_eq!(p.members, vec![false, true]);
    probe(&mut p, 0, b"health: up");
    assert_eq!(p.conns[0].success, 1);
    p.timeout(3000);
    assert_eq!(p.members, vec![true, true]);
    assert_eq!(p.conns[0].success, 0);
    assert_eq!(forward_slot(&p, b"user42:payload"), before);
}

#[test]
fn old_failures_age_out() {
    let mut p = two_backends();
    probe(&mut p, 1, b"health: down");
    probe(&mut p, 1, b"health: down");
    p.timeout(30_000);
    assert_eq!(p.conns[1].failure, 2);
    p.timeout(30_001);
    assert_eq!(p.conns[1].failure, 0);
    assert_eq!(p.conns[1].last_reset, 30_001);
    assert_eq!(p.members, vec![true, true]);
}

#[test]
fn engine_with_backends_routes_every_key() {
    let p = two_backends();
    assert!(forward_slot(&p, b"a:b:c").is_some());
    assert!(forward_slot(&p, b":rest").is_some());
    assert_eq!(forward_slot(&p, b":rest"), p.ring.get(b""));
}

#[test]
fn hangup_on_closed_record_counts() {
    let mut p = two_backends();
    assert!(p.probe_ready(1, true) == ProbeAction::Shutdown);
    assert!(p.probe_ready(1, true) == ProbeAction::Shutdown);
    assert_eq!(p.conns[1].failure, 2);
    assert!(p.conns[1].state == ProbeState::Closed);
}

#[test]
fn closed_probe_reconnects_on_tick() {
    let mut p = two_backends();
    assert!(p.probe_ready(0, true) == ProbeAction::Shutdown);
    assert!(p.conns[0].state == ProbeState::Closed);
    let actions = p.timeout(10);
    assert_eq!(actions[0], ProbeAction::Reconnect);
    assert!(p.conns[0].state == ProbeState::Connecting);
    assert_eq!(p.conns[0].failure, 1);
}
