use dnsd::name::Name;
use dnsd::net::IpAddr;
use dnsd::recursor::ddr::{
    build_ddr_records, is_ddr_question, svcb_bytes, synth_response, Svcb, KEY_ALPN, KEY_DOHPATH,
    KEY_IPV4HINT, KEY_IPV6HINT,
};
use dnsd::recursor::reply::{new_header, new_message, one_query};
use dnsd::wire::{CLASS_IN, OPCODE_QUERY, TYPE_A, TYPE_SVCB};

fn n(s: &str) -> Name {
    Name::from_ascii(s).unwrap().0
}

fn ip(s: &str) -> IpAddr {
    IpAddr::parse(s).unwrap()
}

fn octets(s: &str) -> Vec<u8> {
    match ip(s) {
        IpAddr::V4(a) => a.to_be_bytes().to_vec(),
        IpAddr::V6(a) => a.to_be_bytes().to_vec(),
    }
}

fn param(s: &Svcb, key: u16) -> Option<Vec<u8>> {
    s.params.iter().find(|p| p.key == key).map(|p| p.value.clone())
}

#[test]
fn recognises_resolver_arpa() {
    assert!(is_ddr_question(&n("_dns.resolver.arpa.")));
    assert!(is_ddr_question(&n("_DNS.Resolver.ARPA.")));
    assert!(!is_ddr_question(&n("resolver.arpa.")));
    assert!(!is_ddr_question(&n("foo._dns.resolver.arpa.")));
    assert!(!is_ddr_question(&n("example.com.")));
}

#[test]
fn build_records_keeps_only_global_scope() {
    let name = n("dns.example.net.");
    let addrs = vec![
        ip("192.168.20.1"),
        ip("23.177.24.9"),
        ip("fe80::1"),
        ip("fd00::1"),
        ip("2602:f90e:10::ffff:ffff:ffff:fffe"),
    ];
    let recs = build_ddr_records(&name, &addrs, &addrs);
    assert_eq!(recs.len(), 2, "one DoT + one DoH record");

    let dot = &recs[0];
    assert_eq!(dot.priority, 1);
    assert_eq!(param(dot, KEY_IPV4HINT), Some(octets("23.177.24.9")));
    assert_eq!(param(dot, KEY_IPV6HINT), Some(octets("2602:f90e:10::ffff:ffff:ffff:fffe")));

    let doh = &recs[1];
    assert_eq!(doh.priority, 2);
    assert_eq!(param(doh, KEY_IPV4HINT), Some(octets("23.177.24.9")));
    assert_eq!(param(doh, KEY_IPV6HINT), Some(octets("2602:f90e:10::ffff:ffff:ffff:fffe")));
    assert_eq!(param(doh, KEY_ALPN), Some(b"\x02h2".to_vec()));
    assert_eq!(param(doh, KEY_DOHPATH), Some(b"/dns-query{?dns}".to_vec()));
    let keys: Vec<u16> = doh.params.iter().map(|p| p.key).collect();
    let mut sorted = keys.clone();
    sorted.sort_unstable();
    assert_eq!(keys, sorted, "DoH SvcParams not in ascending key order");
}

#[test]
fn build_records_doh_only_when_doh_addrs_present() {
    let name = n("dns.example.net.");
    let dot = vec![ip("23.177.24.9")];
    let doh_private = vec![ip("192.168.20.1")];
    let recs = build_ddr_records(&name, &dot, &doh_private);
    assert_eq!(recs.len(), 1);
    assert_eq!(recs[0].priority, 1);
}

#[test]
fn build_records_empty_when_no_global_addr() {
    let name = n("dns.example.net.");
    let addrs = vec![ip("192.168.20.1"), ip("fd00::1")];
    assert!(build_ddr_records(&name, &addrs, &addrs).is_empty());
}

#[test]
fn service_records_are_encoded() {
    let recs = build_ddr_records(&n("d.e."), &vec![ip("23.177.24.9")], &vec![]);
    // Priority, target, then alpn "dot", port 853 and the address hint.
    let mut want = vec![0, 1, 1, b'd', 1, b'e', 0];
    want.extend_from_slice(&[0, 1, 0, 4, 3, b'd', b'o', b't']);
    want.extend_from_slice(&[0, 3, 0, 2, 3, 0x55]);
    want.extend_from_slice(&[0, 4, 0, 4, 23, 177, 24, 9]);
    assert_eq!(svcb_bytes(&recs[0]), want);
}

#[test]
fn only_service_questions_are_answered() {
    let recs = build_ddr_records(&n("dns.example.net."), &vec![ip("23.177.24.9")], &vec![]);
    let qname = n("_dns.resolver.arpa.");
    let q = new_message(new_header(9, false, OPCODE_QUERY), one_query(&qname, TYPE_SVCB, CLASS_IN));
    let r = synth_response(&q, &recs);
    assert_eq!(r.header.id, 9);
    assert_eq!(r.answers.len(), 1);
    assert_eq!(r.answers[0].rtype, TYPE_SVCB);
    let q = new_message(new_header(9, false, OPCODE_QUERY), one_query(&qname, TYPE_A, CLASS_IN));
    assert!(synth_response(&q, &recs).answers.is_empty());
}
