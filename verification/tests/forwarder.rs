use dnsd::config::{Forwarder, ForwarderServer, ServerError, ServerSpec, ServerSpecFull, Transport, Via};
use dnsd::name::Name;
use dnsd::net::{IpAddr, SocketAddr};
use dnsd::recursor::forwarder::{
    after_udp, check_tcp_reply, check_udp_reply, choose_v4_source, choose_v6_source,
    is_globally_routable_v4, is_globally_routable_v6, normalise_reply, prepare_query, server_path,
    source_for, upstream_timeout_ms, ForwarderError, Forwarders, Pending, ReplyError, ServerPath,
    UdpNext,
};
use dnsd::recursor::iterative::make_addr_record;
use dnsd::recursor::reply::{new_header, new_message, one_query};
use dnsd::recursor::zeroxtwenty::EchoError;
use dnsd::wire::{Message, CLASS_IN, OPCODE_QUERY, TYPE_A};

fn n(s: &str) -> Name {
    Name::from_ascii(s).unwrap().0
}

fn ip(s: &str) -> IpAddr {
    IpAddr::parse(s).unwrap()
}

fn v4(s: &str) -> u32 {
    match ip(s) {
        IpAddr::V4(a) => a,
        IpAddr::V6(_) => panic!("not an IPv4 address"),
    }
}

fn v6(s: &str) -> u128 {
    match ip(s) {
        IpAddr::V6(a) => a,
        IpAddr::V4(_) => panic!("not an IPv6 address"),
    }
}

fn fwd(domain: &str, servers: &[&str]) -> Forwarder {
    Forwarder {
        domain: domain.into(),
        servers: servers.iter().map(|s| ServerSpec::Bare(ip(s))).collect(),
    }
}

fn addrs(servers: &Vec<ForwarderServer>) -> Vec<IpAddr> {
    servers.iter().map(|s| s.address).collect()
}

#[test]
fn longest_suffix_wins() {
    let configs = vec![
        fwd("jdt.io", &["10.42.128.19"]),
        fwd("k8s.jdt.io", &["10.42.113.4"]),
        fwd("emeraldbroadband.net", &["10.10.90.35", "10.10.90.36"]),
    ];
    let f = Forwarders::new(&configs).unwrap();

    let hit = f.lookup(&n("foo.k8s.jdt.io.")).unwrap();
    assert_eq!(addrs(hit), vec![ip("10.42.113.4")]);

    let hit2 = f.lookup(&n("www.jdt.io.")).unwrap();
    assert_eq!(addrs(hit2), vec![ip("10.42.128.19")]);

    let hit3 = f.lookup(&n("ns1.emeraldbroadband.net.")).unwrap();
    assert_eq!(hit3.len(), 2);
}

#[test]
fn lookup_names_the_domain() {
    let f = Forwarders::new(&vec![fwd("jdt.io", &["10.42.128.19"])]).unwrap();
    let (domain, servers) = f.lookup_with_domain(&n("WWW.jdt.io.")).unwrap();
    assert_eq!(domain.text(), "jdt.io.");
    assert_eq!(addrs(servers), vec![ip("10.42.128.19")]);
    assert!(f.lookup_with_domain(&n("jdt.com.")).is_none());
}

#[test]
fn non_matching_returns_none() {
    let f = Forwarders::new(&vec![fwd("jdt.io", &["10.42.128.19"])]).unwrap();
    assert!(f.lookup(&n("example.com.")).is_none());
}

#[test]
fn config_without_trailing_dot_matches_fqdn_query() {
    let f = Forwarders::new(&vec![fwd("iana.org", &["1.1.1.1"])]).unwrap();
    let hit = f.lookup(&n("www.iana.org.")).unwrap();
    assert_eq!(addrs(hit), vec![ip("1.1.1.1")]);
}

#[test]
fn bad_blocks_are_rejected() {
    assert_eq!(
        Forwarders::new(&vec![fwd("a..b", &["1.1.1.1"])]).unwrap_err(),
        ForwarderError::BadDomain
    );
    let tor = Forwarder {
        domain: "x".to_string(),
        servers: vec![ServerSpec::Full(ServerSpecFull {
            address: ip("9.9.9.9"),
            transport: Transport::Udp,
            tls_name: None,
            via: Via::Tor,
        })],
    };
    assert_eq!(
        Forwarders::new(&vec![tor]).unwrap_err(),
        ForwarderError::Servers(ServerError::TorWithoutDot(ip("9.9.9.9"), Transport::Udp))
    );
}

#[test]
fn snapshots_list_every_block() {
    let f = Forwarders::new(&vec![fwd("jdt.io", &["10.42.128.19", "10.42.128.20"])]).unwrap();
    let s = f.snapshot();
    assert_eq!(s.len(), 1);
    assert_eq!(s[0].0, "jdt.io.");
    assert_eq!(s[0].1, vec![ip("10.42.128.19"), ip("10.42.128.20")]);
}

fn query_bytes() -> Vec<u8> {
    let m = new_message(new_header(7, false, OPCODE_QUERY), one_query(&n("example.com."), TYPE_A, CLASS_IN));
    m.to_bytes().unwrap()
}

#[test]
fn replies_must_match_the_question() {
    let out = prepare_query(&query_bytes(), 0xabcd, &vec![true; 13]).unwrap();
    assert_eq!(&out.bytes[..2], &[0xab, 0xcd]);
    assert_eq!(out.txid, 0xabcd);
    assert_eq!(out.qname, b"\x07EXAMPLE\x03COM\x00");
    let a = ip("192.0.2.1");
    let b = ip("192.0.2.2");
    assert_eq!(check_udp_reply(a, a, &out.bytes, 0xabcd, &out.qname), Ok(()));
    assert_eq!(
        check_udp_reply(b, a, &out.bytes, 0xabcd, &out.qname),
        Err(ReplyError::WrongSource)
    );
    assert_eq!(
        check_udp_reply(a, a, &out.bytes, 0xabce, &out.qname),
        Err(ReplyError::WrongId)
    );
    assert_eq!(check_tcp_reply(&[1], 0xabcd, &out.qname), Err(ReplyError::TooShort));
    assert_eq!(
        check_tcp_reply(&out.bytes, 0xabcd, b"\x07example\x03org\x00"),
        Err(ReplyError::Question(EchoError::Mismatch))
    );
}

#[test]
fn truncated_replies_are_asked_again() {
    let mut m =
        new_message(new_header(7, true, OPCODE_QUERY), one_query(&n("example.com."), TYPE_A, CLASS_IN));
    assert_eq!(after_udp(&m.to_bytes().unwrap()), UdpNext::Use);
    m.header.truncated = true;
    assert_eq!(after_udp(&m.to_bytes().unwrap()), UdpNext::RetryTcp);
    assert_eq!(after_udp(b"junk"), UdpNext::Unreadable);
}

#[test]
fn replies_are_lowered_and_renumbered() {
    let mut m =
        new_message(new_header(7, true, OPCODE_QUERY), one_query(&n("ExAmple.com."), TYPE_A, CLASS_IN));
    m.answers.push(make_addr_record(&n("ExAmple.com."), 60, ip("192.0.2.1")));
    let r = normalise_reply(&m.to_bytes().unwrap(), 0x1111).unwrap();
    let r = Message::from_bytes(&r).unwrap();
    assert_eq!(r.header.id, 0x1111);
    assert_eq!(r.queries[0].name.text(), "example.com.");
    assert_eq!(r.answers[0].name.text(), "example.com.");
    assert!(normalise_reply(b"junk", 1).is_none());
}

#[test]
fn datagrams_reach_their_waiter_once() {
    let mut p = Pending::new();
    let a = ip("192.0.2.1");
    assert!(p.register(a, 5, 100));
    assert!(!p.register(a, 5, 101));
    assert!(p.register(a, 6, 102));
    assert_eq!(p.route(a, &[0, 5, 0, 0, 0, 0, 0, 0, 0, 0, 0, 0]), Some(100));
    assert_eq!(p.route(a, &[0, 5, 0, 0, 0, 0, 0, 0, 0, 0, 0, 0]), None);
    assert_eq!(p.route(ip("192.0.2.2"), &[0, 6, 0, 0, 0, 0, 0, 0, 0, 0, 0, 0]), None);
    assert_eq!(p.route(a, &[0, 6, 0, 0, 0, 0, 0, 0, 0, 0, 0]), None);
    assert_eq!(p.take(a, 6), Some(102));
    assert_eq!(p.take(a, 6), None);
}

#[test]
fn sources_prefer_global_addresses() {
    assert!(is_globally_routable_v4(v4("23.177.24.9")));
    for a in ["10.0.0.1", "172.16.0.1", "192.168.0.1", "127.0.0.1", "169.254.0.1", "0.0.0.0"] {
        assert!(!is_globally_routable_v4(v4(a)), "{a}");
    }
    assert!(is_globally_routable_v6(v6("2602:f90e::1")));
    for a in ["fe80::1", "fd00::1", "::1", "::"] {
        assert!(!is_globally_routable_v6(v6(a)), "{a}");
    }
    assert_eq!(
        choose_v4_source(&vec![v4("10.0.0.1"), v4("23.177.24.9")]),
        Some(v4("23.177.24.9"))
    );
    assert_eq!(choose_v6_source(&vec![v6("fe80::1")]), None);
    let s4 = Some(v4("23.177.24.9"));
    let s6 = Some(v6("2602:f90e::1"));
    assert_eq!(source_for(ip("1.1.1.1"), s4, s6), Some(ip("23.177.24.9")));
    assert_eq!(source_for(ip("2001:db8::1"), s4, s6), Some(ip("2602:f90e::1")));
    assert_eq!(source_for(ip("2001:db8::1"), s4, None), None);
}

#[test]
fn upstream_timeout_has_a_default() {
    assert_eq!(upstream_timeout_ms(None), 2500);
    assert_eq!(upstream_timeout_ms(Some(700)), 700);
}

fn server(transport: Transport, tls_name: Option<&str>, via: Via) -> ForwarderServer {
    ForwarderServer {
        address: ip("9.9.9.9"),
        transport,
        tls_name: tls_name.map(|s| s.to_string()),
        via,
    }
}

#[test]
fn tor_servers_fail_closed() {
    let proxy = SocketAddr { ip: ip("127.0.0.1"), port: 9050 };
    let dot = Some("dns.quad9.net");
    match server_path(&server(Transport::Dot, dot, Via::Tor), proxy, "example.com.") {
        ServerPath::Tls(k) => {
            assert_eq!(k.resolver, SocketAddr { ip: ip("9.9.9.9"), port: 853 });
            assert_eq!(k.tls_name, "dns.quad9.net");
            assert_eq!(k.tor_socks, Some(proxy));
            assert_eq!(k.iso_user.as_deref(), Some("example.com."));
        }
        other => panic!("expected TLS, got {other:?}"),
    }
    assert!(matches!(
        server_path(&server(Transport::Udp, None, Via::Tor), proxy, "x."),
        ServerPath::Refused
    ));
    assert!(matches!(
        server_path(&server(Transport::Tcp, dot, Via::Tor), proxy, "x."),
        ServerPath::Refused
    ));
    assert!(matches!(
        server_path(&server(Transport::Dot, None, Via::Tor), proxy, "x."),
        ServerPath::Refused
    ));
}

#[test]
fn direct_servers_need_no_proxy() {
    let proxy = SocketAddr { ip: ip("127.0.0.1"), port: 9050 };
    assert!(matches!(
        server_path(&server(Transport::Udp, None, Via::Direct), proxy, "x."),
        ServerPath::Plain(a) if a.port == 53 && a.ip == ip("9.9.9.9")
    ));
    match server_path(&server(Transport::Dot, Some("a.b"), Via::Direct), proxy, "x.") {
        ServerPath::Tls(k) => assert!(k.tor_socks.is_none() && k.iso_user.is_none()),
        other => panic!("expected TLS, got {other:?}"),
    }
}
