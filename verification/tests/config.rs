use dnsd::config::{
    default_port, select_vrf, transport_name, DnsConfig, DnsVrfConfig, Forwarder, Listener, ServerError,
    ServerSpec, ServerSpecFull, Transport, Via, VrfError, VrfYaml,
};
use dnsd::net::{IpAddr, IpNet, SocketAddr};

fn ip(s: &str) -> IpAddr {
    IpAddr::parse(s).unwrap()
}

fn net(s: &str) -> IpNet {
    let (addr, len) = s.split_once('/').unwrap();
    IpNet { addr: ip(addr), prefix_len: len.parse().unwrap() }
}

fn full(address: &str, transport: Transport, tls_name: Option<&str>, via: Via) -> ServerSpec {
    ServerSpec::Full(ServerSpecFull {
        address: ip(address),
        transport,
        tls_name: tls_name.map(|s| s.to_string()),
        via,
    })
}

fn forwarder(domain: &str, servers: Vec<ServerSpec>) -> Forwarder {
    Forwarder { domain: domain.to_string(), servers }
}

fn listener(name: &str, address: &str, protocols: &[&str]) -> Listener {
    Listener {
        name: name.to_string(),
        address: ip(address),
        port: default_port(),
        interface: None,
        protocols: protocols.iter().map(|s| s.to_string()).collect(),
        allow_from: vec![],
        dns64: false,
        max_inflight: None,
        auth_token: None,
    }
}

fn describe(e: &ServerError, domain: &str, address: &str) -> String {
    e.describe(domain, address)
}

#[test]
fn parses_vyos_shape() {
    let mut v4 = listener("v4-lan", "192.168.37.1", &["udp", "tcp"]);
    v4.port = 53;
    v4.interface = Some("loop0".to_string());
    v4.allow_from = vec![net("10.0.0.0/8"), net("192.168.0.0/16")];
    let mut v6 = listener("v6-lan", "2602:f90e::1", &["udp", "tcp", "dot", "doh"]);
    v6.allow_from = vec![net("::/0")];
    v6.dns64 = true;
    let dns = DnsConfig {
        enabled: true,
        listeners: vec![v4, v6],
        forwarders: vec![
            forwarder("jdt.io", vec![ServerSpec::Bare(ip("10.42.128.19"))]),
            forwarder(
                "emeraldbroadband.net",
                vec![
                    ServerSpec::Bare(ip("10.10.90.35")),
                    ServerSpec::Bare(ip("2604:2940:f1b0::1:53")),
                ],
            ),
        ],
        ..DnsConfig::default()
    };
    assert!(dns.enabled);
    assert_eq!(dns.listeners.len(), 2);
    assert_eq!(dns.listeners[0].port, 53);
    assert!(dns.listeners[1].has_protocol("dot"));
    assert!(!dns.listeners[0].has_protocol("dot"));
    assert!(dns.listeners[1].has_protocol("DoH"));
    assert!(dns.listeners[1].dns64);
    assert_eq!(dns.forwarders.len(), 2);
    assert_eq!(dns.forwarders[1].servers.len(), 2);
}

#[test]
fn forwarder_bare_and_full_specs() {
    let first = forwarder(
        "a.example",
        vec![ServerSpec::Bare(ip("10.0.0.1")), ServerSpec::Bare(ip("10.0.0.2"))],
    );
    let second =
        forwarder("b.example", vec![full("10.0.0.3", Transport::Udp, None, Via::Direct)]);
    // Bare addresses become direct UDP.
    let a = first.resolved_servers().unwrap();
    assert_eq!(a.len(), 2);
    assert_eq!(a[0].transport, Transport::Udp);
    assert_eq!(a[0].via, Via::Direct);
    // So does an explicit full entry.
    let b = second.resolved_servers().unwrap();
    assert_eq!(b.len(), 1);
    assert_eq!(b[0].address.text(), "10.0.0.3");
}

#[test]
fn forwarder_rejects_dot_without_tls_name() {
    let f = forwarder("x", vec![full("9.9.9.9", Transport::Dot, None, Via::Direct)]);
    let err = f.resolved_servers().unwrap_err();
    assert_eq!(err, ServerError::DotWithoutTlsName(ip("9.9.9.9")));
    let text = describe(&err, "x", "9.9.9.9");
    assert!(text.contains("tls_name"), "got: {text}");
}

#[test]
fn forwarder_rejects_via_tor_without_dot() {
    let f = forwarder("x", vec![full("9.9.9.9", Transport::Udp, None, Via::Tor)]);
    let err = f.resolved_servers().unwrap_err();
    assert_eq!(err, ServerError::TorWithoutDot(ip("9.9.9.9"), Transport::Udp));
    let text = describe(&err, "x", "9.9.9.9");
    assert!(text.contains("via: tor requires transport: dot"), "got: {text}");

    let f = forwarder("x", vec![full("9.9.9.9", Transport::Tcp, None, Via::Tor)]);
    assert!(f.resolved_servers().is_err());
}

#[test]
fn forwarder_rejects_plain_tcp() {
    let f = forwarder("x", vec![full("9.9.9.9", Transport::Tcp, None, Via::Direct)]);
    assert_eq!(f.resolved_servers().unwrap_err(), ServerError::TcpNotWired(ip("9.9.9.9")));
}

#[test]
fn forwarder_rejects_mixed_tor_and_direct() {
    let f = forwarder(
        "x",
        vec![
            full("9.9.9.9", Transport::Dot, Some("dns.quad9.net"), Via::Tor),
            full("1.1.1.1", Transport::Dot, Some("cloudflare-dns.com"), Via::Direct),
        ],
    );
    let err = f.resolved_servers().unwrap_err();
    assert_eq!(err, ServerError::Mixed);
    let text = describe(&err, "x", "");
    assert!(text.contains("mixes via: tor and via: direct"), "got: {text}");
}

#[test]
fn forwarder_accepts_dot_direct_and_dot_tor() {
    let f = forwarder(
        "x",
        vec![full("9.9.9.9", Transport::Dot, Some("dns.quad9.net"), Via::Direct)],
    );
    let srv = f.resolved_servers().unwrap();
    assert_eq!(srv.len(), 1);
    assert_eq!(srv[0].transport, Transport::Dot);
    assert_eq!(srv[0].via, Via::Direct);
    assert_eq!(srv[0].tls_name.as_deref(), Some("dns.quad9.net"));

    let f =
        forwarder(".", vec![full("9.9.9.9", Transport::Dot, Some("dns.quad9.net"), Via::Tor)]);
    let srv = f.resolved_servers().unwrap();
    assert_eq!(srv.len(), 1);
    assert_eq!(srv[0].transport, Transport::Dot);
    assert_eq!(srv[0].via, Via::Tor);
}

#[test]
fn tor_socks_default_and_override() {
    let dns = DnsConfig { enabled: true, ..DnsConfig::default() };
    assert_eq!(dns.tor_socks, SocketAddr { ip: ip("127.0.0.1"), port: 9050 });
    let dns = DnsConfig {
        enabled: true,
        tor_socks: SocketAddr { ip: ip("10.0.0.1"), port: 9150 },
        ..DnsConfig::default()
    };
    assert_eq!(dns.tor_socks, SocketAddr { ip: ip("10.0.0.1"), port: 9150 });
}

fn declared() -> Vec<VrfYaml> {
    vec![VrfYaml {
        name: "cust-a".to_string(),
        table_id_v4: 100,
        table_id_v6: 200,
        description: None,
    }]
}

fn with_vrf(name: &str) -> DnsConfig {
    DnsConfig {
        enabled: false,
        vrfs: vec![DnsVrfConfig {
            name: name.to_string(),
            enabled: true,
            listeners: vec![listener("cust-a-lan", "10.42.0.1", &["udp", "tcp"])],
            forwarders: vec![forwarder(
                "cust-a.local",
                vec![ServerSpec::Bare(ip("10.42.0.53"))],
            )],
            recursion: None,
            cache: None,
            dns64: None,
            tls: None,
            rate_limit: None,
            sfw: None,
            tcp_workers: None,
        }],
        ..DnsConfig::default()
    }
}

#[test]
fn per_vrf_loader_picks_named_slice() {
    let cfg = select_vrf(&declared(), with_vrf("cust-a"), "cust-a").unwrap();
    assert!(cfg.enabled);
    assert_eq!(cfg.listeners.len(), 1);
    assert_eq!(cfg.listeners[0].name, "cust-a-lan");
    assert_eq!(cfg.forwarders.len(), 1);
    assert_eq!(cfg.forwarders[0].domain, "cust-a.local");
}

#[test]
fn per_vrf_loader_rejects_unknown_vrf() {
    let err = select_vrf(&declared(), with_vrf("cust-a"), "cust-b").unwrap_err();
    assert_eq!(err, VrfError::NotDeclared);
}

#[test]
fn declared_vrf_without_a_block_is_rejected() {
    let err = select_vrf(&declared(), with_vrf("cust-c"), "cust-a").unwrap_err();
    assert_eq!(err, VrfError::NotConfigured);
}

#[test]
fn transports_have_their_yaml_names() {
    assert_eq!(transport_name(Transport::Udp), "udp");
    assert_eq!(transport_name(Transport::Tcp), "tcp");
    assert_eq!(transport_name(Transport::Dot), "dot");
}
