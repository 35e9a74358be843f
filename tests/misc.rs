use udp_proxy::clock::{millis_of_nanos, now_ms};
use udp_proxy::config::Settings;
use udp_proxy::node::ServerNode;

#[test]
fn node_name_is_host_and_port() {
    let n = ServerNode::new("1.1.1.1", 9001, 9101);
    assert_eq!(n.name(), "1.1.1.1:9001");
    assert_eq!(n.host, "1.1.1.1");
    assert_eq!(n.port, 9001);
    assert_eq!(n.adminport, 9101);
    assert_eq!(ServerNode::new("h", 0, 1).name(), "h:0");
    assert_eq!(ServerNode::new("localhost", 65535, 1).name(), "localhost:65535");
}

#[test]
fn settings_defaults() {
    let s = Settings::resolve(None, None, None);
    assert_eq!(s.bind, 8977);
    assert_eq!(s.threads, 4);
    assert_eq!(s.check_interval, 1000);
}

#[test]
fn settings_given() {
    let s = Settings::resolve(Some(9000), Some(2), Some(250));
    assert_eq!(s.bind, 9000);
    assert_eq!(s.threads, 2);
    assert_eq!(s.check_interval, 250);
    let t = Settings::resolve(Some(65536 + 5), None, Some(-1));
    assert_eq!(t.bind, 5);
    assert_eq!(t.check_interval, u64::MAX);
}

#[test]
fn millis_conversion() {
    assert_eq!(millis_of_nanos(-5), 0);
    assert_eq!(millis_of_nanos(0), 0);
    assert_eq!(millis_of_nanos(1_999_999), 1);
    assert_eq!(millis_of_nanos(1_700_000_000_000_000_000), 1_700_000_000_000);
    assert_eq!(millis_of_nanos(i128::MAX), u64::MAX);
}

#[test]
fn clock_is_after_2020() {
    assert!(now_ms() > 1_577_836_800_000);
}
