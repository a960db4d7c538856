use dnsd::acl::ClientAcl;
use dnsd::net::{IpAddr, IpNet};

fn ip(s: &str) -> IpAddr {
    IpAddr::parse(s).unwrap()
}

fn net(s: &str) -> IpNet {
    let (addr, len) = s.split_once('/').unwrap();
    IpNet { addr: ip(addr), prefix_len: len.parse().unwrap() }
}

#[test]
fn allow_list_matches_v4_and_v6() {
    let acl = ClientAcl::new(vec![net("10.0.0.0/8"), net("2602:f90e::/48")]);
    assert!(acl.allows(ip("10.1.2.3")));
    assert!(!acl.allows(ip("192.168.1.1")));
    assert!(acl.allows(ip("2602:f90e::1")));
    assert!(!acl.allows(ip("2001:db8::1")));
}

#[test]
fn empty_allow_denies_all() {
    let acl = ClientAcl::new(vec![]);
    assert!(!acl.allows(ip("127.0.0.1")));
}

#[test]
fn zero_length_prefix_matches_its_own_family_only() {
    let acl = ClientAcl::new(vec![net("::/0")]);
    assert!(acl.allows(ip("2001:db8::1")));
    assert!(!acl.allows(ip("192.0.2.1")));
    let host = ClientAcl::new(vec![net("192.0.2.1/32")]);
    assert!(host.allows(ip("192.0.2.1")));
    assert!(!host.allows(ip("192.0.2.2")));
}

#[test]
fn more_networks_admit_more() {
    let few = ClientAcl::new(vec![net("10.0.0.0/8")]);
    let more = ClientAcl::new(vec![net("10.0.0.0/8"), net("172.16.0.0/12")]);
    for a in ["10.0.0.1", "172.16.0.1", "172.32.0.1"] {
        assert!(!few.allows(ip(a)) || more.allows(ip(a)));
    }
    assert!(more.allows(ip("172.31.255.255")));
    assert!(!more.allows(ip("172.32.0.1")));
}
