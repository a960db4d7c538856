use dnsd::net::IpAddr;
use dnsd::recursor::rrl::{bucket_key, RateLimit, Rrl};

fn ip(s: &str) -> IpAddr {
    IpAddr::parse(s).unwrap()
}

#[test]
fn v4_bucket_is_slash_24() {
    assert_eq!(bucket_key(ip("10.0.1.5")), (4, (10 << 16) | (0 << 8) | 1));
    assert_eq!(bucket_key(ip("10.0.1.5")), bucket_key(ip("10.0.1.250")));
    assert_ne!(bucket_key(ip("10.0.1.5")), bucket_key(ip("10.0.2.5")));
}

#[test]
fn v6_bucket_is_slash_64() {
    assert_eq!(bucket_key(ip("2001:db8::1")), bucket_key(ip("2001:db8::dead:beef")));
    assert_ne!(bucket_key(ip("2001:db8::1")), bucket_key(ip("2001:db8:1::1")));
}

#[test]
fn disabled_rrl_returns_none() {
    assert!(Rrl::from_config(None).is_none());
    let cfg = RateLimit { per_client_qps: None, per_client_burst: None };
    assert!(Rrl::from_config(Some(&cfg)).is_none());
}

#[test]
fn enabled_rrl_admits_then_blocks() {
    let cfg = RateLimit { per_client_qps: Some(2), per_client_burst: Some(2) };
    let rrl = Rrl::from_config(Some(&cfg)).expect("enabled");
    let peer = ip("10.0.0.1");
    assert!(rrl.check(peer));
    assert!(rrl.check(peer));
    assert!(!rrl.check(peer));
    assert!(rrl.check(ip("10.0.1.1")));
}
