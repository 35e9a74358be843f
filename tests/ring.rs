use udp_proxy::ring::{Ring, RingNode};

fn node(name: &str, slot: usize) -> RingNode {
    RingNode { name: name.to_string(), slot }
}

fn keys() -> Vec<String> {
    (0..500).map(|i| format!("user{}", i)).collect()
}

fn routes(r: &Ring) -> Vec<Option<usize>> {
    keys().iter().map(|k| r.get(k.as_bytes())).collect()
}

#[test]
fn empty_ring_has_no_backend() {
    let r = Ring::new();
    assert_eq!(r.get(b"user42"), None);
    assert_eq!(r.get(b""), None);
}

#[test]
fn single_member_takes_every_key() {
    let mut r = Ring::new();
    r.add(&node("1.1.1.1:9001", 0), 20);
    for s in routes(&r) {
        assert_eq!(s, Some(0));
    }
}

#[test]
fn repeated_lookups_agree() {
    let mut r = Ring::new();
    r.add(&node("1.1.1.1:9001", 0), 20);
    r.add(&node("1.1.1.2:9002", 1), 20);
    let first = routes(&r);
    let second = routes(&r);
    assert_eq!(first, second);
}

#[test]
fn both_members_get_keys() {
    let mut r = Ring::new();
    r.add(&node("1.1.1.1:9001", 0), 20);
    r.add(&node("1.1.1.2:9002", 1), 20);
    let rs = routes(&r);
    assert!(rs.iter().any(|s| *s == Some(0)));
    assert!(rs.iter().any(|s| *s == Some(1)));
    assert!(rs.iter().all(|s| s.is_some()));
}

#[test]
fn add_then_remove_restores_routes() {
    let mut r = Ring::new();
    r.add(&node("1.1.1.1:9001", 0), 20);
    r.add(&node("1.1.1.2:9002", 1), 20);
    let before = routes(&r);
    r.add(&node("1.1.1.3:9003", 2), 20);
    r.remove(&node("1.1.1.3:9003", 2));
    assert_eq!(routes(&r), before);
}

#[test]
fn add_twice_same_as_once() {
    let mut once = Ring::new();
    once.add(&node("1.1.1.1:9001", 0), 20);
    once.add(&node("1.1.1.2:9002", 1), 20);
    let mut twice = Ring::new();
    twice.add(&node("1.1.1.1:9001", 0), 20);
    twice.add(&node("1.1.1.2:9002", 1), 20);
    twice.add(&node("1.1.1.2:9002", 1), 20);
    assert_eq!(routes(&once), routes(&twice));
}

#[test]
fn remove_twice_same_as_once() {
    let mut once = Ring::new();
    once.add(&node("1.1.1.1:9001", 0), 20);
    once.add(&node("1.1.1.2:9002", 1), 20);
    once.remove(&node("1.1.1.1:9001", 0));
    let mut twice = Ring::new();
    twice.add(&node("1.1.1.1:9001", 0), 20);
    twice.add(&node("1.1.1.2:9002", 1), 20);
    twice.remove(&node("1.1.1.1:9001", 0));
    twice.remove(&node("1.1.1.1:9001", 0));
    assert_eq!(routes(&once), routes(&twice));
    assert!(routes(&twice).iter().all(|s| *s == Some(1)));
}

#[test]
fn removal_moves_only_the_removed_members_keys() {
    let mut r = Ring::new();
    r.add(&node("1.1.1.1:9001", 0), 20);
    r.add(&node("1.1.1.2:9002", 1), 20);
    r.add(&node("1.1.1.3:9003", 2), 20);
    let before = routes(&r);
    r.remove(&node("1.1.1.2:9002", 1));
    let after = routes(&r);
    for (b, a) in before.iter().zip(after.iter()) {
        if *b != Some(1) {
            assert_eq!(a, b);
        } else {
            assert_ne!(*a, Some(1));
        }
    }
}

#[test]
fn addition_keeps_surviving_assignments() {
    let mut r = Ring::new();
    r.add(&node("1.1.1.1:9001", 0), 20);
    r.add(&node("1.1.1.2:9002", 1), 20);
    let before = r.get(b"user42");
    r.add(&node("1.1.1.3:9003", 2), 20);
    let after = r.get(b"user42");
    if after != Some(2) {
        assert_eq!(after, before);
    }
}

#[test]
fn removing_absent_member_changes_nothing() {
    let mut r = Ring::new();
    r.add(&node("1.1.1.1:9001", 0), 20);
    let before = routes(&r);
    r.remove(&node("9.9.9.9:1", 5));
    assert_eq!(routes(&r), before);
}
