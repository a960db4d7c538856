use dnsd::name::Name;
use dnsd::recursor::local_zones::is_private_reverse;

fn n(s: &str) -> Name {
    Name::from_ascii(s).unwrap().0
}

#[test]
fn rfc1918_class_a() {
    assert!(is_private_reverse(&n("1.2.10.in-addr.arpa.")));
    assert!(is_private_reverse(&n("1.2.3.10.in-addr.arpa.")));
    assert!(is_private_reverse(&n("10.in-addr.arpa.")));
}

#[test]
fn rfc1918_class_c() {
    assert!(is_private_reverse(&n("1.20.168.192.in-addr.arpa.")));
    assert!(is_private_reverse(&n("168.192.in-addr.arpa.")));
    assert!(is_private_reverse(&n("db._dns-sd._udp.0.20.168.192.in-addr.arpa.")));
}

#[test]
fn rfc1918_class_b() {
    assert!(is_private_reverse(&n("1.16.172.in-addr.arpa.")));
    assert!(is_private_reverse(&n("1.31.172.in-addr.arpa.")));
    assert!(!is_private_reverse(&n("1.32.172.in-addr.arpa.")));
    assert!(!is_private_reverse(&n("1.15.172.in-addr.arpa.")));
}

#[test]
fn ipv6_link_local() {
    assert!(is_private_reverse(&n(
        "0.0.0.0.0.0.0.0.0.0.0.0.0.0.0.0.0.0.0.0.0.0.0.0.0.0.0.8.e.f.ip6.arpa."
    )));
}

#[test]
fn public_addr_not_private() {
    assert!(!is_private_reverse(&n("8.8.8.8.in-addr.arpa.")));
    assert!(!is_private_reverse(&n("1.1.1.1.in-addr.arpa.")));
    assert!(!is_private_reverse(&n("notreally.10.in-addr.arpa.example.com.")));
}

#[test]
fn forward_names_not_matched() {
    assert!(!is_private_reverse(&n("example.com.")));
    assert!(!is_private_reverse(&n("apple.com.")));
}

#[test]
fn special_use_tlds() {
    assert!(is_private_reverse(&n("home.arpa.")));
    assert!(is_private_reverse(&n("b._dns-sd._udp.home.arpa.")));
    assert!(is_private_reverse(&n("anything.under.home.arpa.")));
}

#[test]
fn letter_case_does_not_matter() {
    assert!(is_private_reverse(&n("x.HOME.arpa.")));
    assert!(is_private_reverse(&n("1.10.In-Addr.ARPA.")));
}
