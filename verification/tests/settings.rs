use dnsd::config::{
    Acme, DnsConfig, DnssecMode, Forwarder, Listener, Recursion, ServerSpec, Tls, CacheBounds,
};
use dnsd::control::{
    describe_line, dispatch, filter_dump, flushed, parse_cache_op, reload_sent, show_forwarders, CacheOp,
    ControlPlan, ControlRequest, ControlResponse,
};
use dnsd::listeners::{
    after_bind_round, bind_action, desired, pending, reload_diff, snapshot_listeners, BindAction,
    BindNext, ListenerInfo, ListenerKey, Protocol,
};
use dnsd::metrics::Metrics;
use dnsd::name::Name;
use dnsd::net::IpAddr;
use dnsd::recursor::anchor::Dnskey;
use dnsd::recursor::cache::{CacheDumpEntry, CacheKey};
use dnsd::recursor::dnssec::DnssecPolicy;
use dnsd::recursor::iterative::make_addr_record;
use dnsd::recursor::reply::{new_header, new_message};
use dnsd::recursor::settings::{
    after_probe, build_cache_from_config, build_forwarders_from_config, dns64_from_config, from_parts,
    initial_readiness, prewarm_names, AnchorSource, Readiness,
};
use dnsd::wire::{CLASS_IN, OPCODE_QUERY, TYPE_A};

fn ip(s: &str) -> IpAddr {
    IpAddr::parse(s).unwrap()
}

fn listener(name: &str, address: &str, port: u16, protocols: &[&str]) -> Listener {
    Listener {
        name: name.to_string(),
        address: ip(address),
        port,
        interface: None,
        protocols: protocols.iter().map(|s| s.to_string()).collect(),
        allow_from: vec![],
        dns64: false,
        max_inflight: None,
        auth_token: None,
    }
}

#[test]
fn cache_bounds_have_defaults() {
    let c = build_cache_from_config(&DnsConfig::default());
    assert_eq!(c.limits.min_ttl, 0);
    assert_eq!(c.limits.max_ttl, 604_800);
    assert_eq!(c.limits.negative_ttl, 3_600);
    assert_eq!(c.limits.max_negative_ttl, 600);
    let cfg = DnsConfig {
        cache: Some(CacheBounds {
            max_entries: None,
            min_ttl: Some(5),
            max_ttl: None,
            negative_ttl: Some(7),
            max_negative_ttl: None,
        }),
        ..DnsConfig::default()
    };
    let c = build_cache_from_config(&cfg);
    assert_eq!((c.limits.min_ttl, c.limits.negative_ttl), (5, 7));
}

#[test]
fn dns64_is_on_where_a_listener_wants_it() {
    assert!(dns64_from_config(&DnsConfig::default()).is_none());
    let mut l = listener("lan", "10.0.0.1", 53, &["udp"]);
    l.dns64 = true;
    let cfg = DnsConfig { listeners: vec![l], ..DnsConfig::default() };
    assert_eq!(dns64_from_config(&cfg).unwrap().prefix.len, 96);
}

#[test]
fn settings_follow_the_configuration() {
    let mut doh = listener("doh", "23.177.24.10", 443, &["doh"]);
    doh.auth_token = Some("t".to_string());
    let cfg = DnsConfig {
        listeners: vec![
            listener("lan", "10.0.0.1", 53, &["udp", "tcp"]),
            listener("dot", "23.177.24.9", 853, &["DoT"]),
            doh,
        ],
        forwarders: vec![Forwarder {
            domain: "corp.example".to_string(),
            servers: vec![ServerSpec::Bare(ip("10.9.9.9"))],
        }],
        recursion: Some(Recursion {
            dnssec: DnssecMode::Validate,
            upstream_timeout_ms: Some(900),
            max_cname_depth: Some(3),
            ipv6_upstream: false,
            source_v6: Some(7),
            ..Recursion::default()
        }),
        tls: Some(Tls {
            cert_source: "acme".to_string(),
            acme: Some(Acme {
                directory: String::new(),
                email: String::new(),
                domains: vec!["dns.example.net".to_string()],
                challenge: String::new(),
                dns01: None,
            }),
            cert_path: None,
            key_path: None,
        }),
        ..DnsConfig::default()
    };
    let f = build_forwarders_from_config(&cfg).unwrap();
    let s = from_parts(&cfg, f, Some(1), Some(2), true);
    assert_eq!(s.engine.dnssec, DnssecPolicy::Validate);
    assert!(s.engine.iterative);
    assert_eq!(s.upstream_timeout_ms, 900);
    assert_eq!(s.max_cname, 3);
    assert!(!s.ipv6_upstream);
    assert_eq!(s.source_v6, Some(7));
    assert_eq!(s.source_v4, Some(2));
    assert!(matches!(s.anchors, AnchorSource::SelfManaged));
    // The DoH listener asks for a token, so clients are told of DoT only.
    assert_eq!(s.engine.ddr.len(), 1);
    assert_eq!(s.engine.ddr[0].priority, 1);
}

#[test]
fn sources_fall_back_to_listeners() {
    let cfg = DnsConfig {
        listeners: vec![listener("lan", "10.0.0.1", 53, &["udp"])],
        ..DnsConfig::default()
    };
    let f = build_forwarders_from_config(&cfg).unwrap();
    let s = from_parts(&cfg, f, None, None, false);
    assert_eq!(s.source_v4, Some(0x0a00_0001));
    assert_eq!(s.source_v6, None);
    assert_eq!(s.upstream_timeout_ms, 2500);
    assert!(matches!(s.anchors, AnchorSource::Unused));
    let cfg = DnsConfig {
        recursion: Some(Recursion {
            dnssec: DnssecMode::Validate,
            trust_anchor: Some("/a.key".to_string()),
            ..Recursion::default()
        }),
        ..DnsConfig::default()
    };
    let f = build_forwarders_from_config(&cfg).unwrap();
    let s = from_parts(&cfg, f, None, None, false);
    assert!(matches!(s.anchors, AnchorSource::Operator(p) if p == "/a.key"));
}

#[test]
fn validating_resolvers_prove_themselves_first() {
    assert_eq!(initial_readiness(true, DnssecPolicy::Validate), Readiness::Probe);
    assert_eq!(initial_readiness(true, DnssecPolicy::Strip), Readiness::Ready);
    assert_eq!(initial_readiness(false, DnssecPolicy::Validate), Readiness::Ready);
    assert_eq!(after_probe(0), Readiness::ProbeAfter(5_000));
    assert_eq!(after_probe(1), Readiness::Ready);
    let names = prewarm_names();
    assert_eq!(names.len(), 8);
    assert_eq!(names[0].text(), "iana.org.");
    assert_eq!(names[7].text(), "google.app.");
}

#[test]
fn reload_keeps_wanted_sockets() {
    let ls = vec![
        listener("a", "10.0.0.1", 53, &["udp", "TCP"]),
        listener("b", "10.0.0.2", 853, &["dot"]),
    ];
    let want = desired(&ls);
    assert_eq!(want.len(), 3);
    assert_eq!(want[2].key.proto, Protocol::Dot);
    assert_eq!(want[2].listener, 1);
    let bound = want[0].key;
    let gone = ListenerKey { addr: ip("10.0.0.9"), port: 53, proto: Protocol::Udp };
    assert_eq!(pending(&ls, &vec![bound]).len(), 2);
    assert_eq!(reload_diff(&ls, &vec![bound, gone]), vec![Some(0), None]);
}

#[test]
fn binding_is_retried_until_the_deadline() {
    assert_eq!(bind_action(Protocol::Dot, false, None), BindAction::Skip);
    assert_eq!(bind_action(Protocol::Udp, false, None), BindAction::Bind { max_inflight: 1024 });
    assert_eq!(bind_action(Protocol::Doh, true, Some(5)), BindAction::Bind { max_inflight: 5 });
    assert_eq!(after_bind_round(0, 10, 0), BindNext::Done);
    assert_eq!(after_bind_round(1, 10, 10), BindNext::GiveUp);
    assert_eq!(after_bind_round(1, 9, 10), BindNext::Retry(200));
}

#[test]
fn listener_rows_are_sorted() {
    let row = |address: &str, port: u16, protocol: &str| ListenerInfo {
        name: "x".to_string(),
        address: address.to_string(),
        port,
        protocol: protocol.to_string(),
        allow_from: vec![],
        dns64: false,
    };
    let rows = snapshot_listeners(vec![
        row("10.0.0.2", 53, "udp"),
        row("10.0.0.10", 53, "udp"),
        row("10.0.0.2", 53, "tcp"),
        row("10.0.0.2", 5, "udp"),
    ]);
    let got: Vec<(&str, u16, &str)> =
        rows.iter().map(|r| (r.address.as_str(), r.port, r.protocol.as_str())).collect();
    assert_eq!(
        got,
        vec![
            ("10.0.0.10", 53, "udp"),
            ("10.0.0.2", 5, "udp"),
            ("10.0.0.2", 53, "tcp"),
            ("10.0.0.2", 53, "udp"),
        ]
    );
}

#[test]
fn control_requests_are_dispatched() {
    let cache = |op: Option<&str>| ControlRequest::Cache {
        op: op.map(|s| s.to_string()),
        name: None,
        rrtype: None,
    };
    assert!(matches!(dispatch(ControlRequest::Stats), ControlPlan::ShowStats));
    assert!(matches!(dispatch(cache(None)), ControlPlan::ShowCacheStats));
    assert!(matches!(dispatch(cache(Some("flush"))), ControlPlan::FlushCache));
    assert!(matches!(dispatch(cache(Some("dump"))), ControlPlan::ShowCache { .. }));
    match dispatch(cache(Some("drop"))) {
        ControlPlan::Answer(ControlResponse::Error { error }) => {
            assert_eq!(error, "unknown cache op \"drop\" (want stats|flush|dump)")
        }
        other => panic!("expected an error, got {other:?}"),
    }
    assert!(matches!(dispatch(ControlRequest::Listeners), ControlPlan::ShowListeners));
    assert!(matches!(dispatch(ControlRequest::Tls), ControlPlan::ShowTls));
    assert!(matches!(dispatch(ControlRequest::Forwarders), ControlPlan::ShowForwarders));
    assert!(matches!(dispatch(ControlRequest::Reload), ControlPlan::SendReload));
    match dispatch(ControlRequest::Upstream { name: "a.b".to_string() }) {
        ControlPlan::Answer(ControlResponse::Trace { steps }) => {
            assert!(steps[0].contains("\"a.b\""), "{steps:?}")
        }
        other => panic!("expected a trace, got {other:?}"),
    }
    assert_eq!(parse_cache_op(&Some("stats".to_string())), CacheOp::Stats);
    assert_eq!(parse_cache_op(&Some("Stats".to_string())), CacheOp::Unknown);
    assert!(matches!(flushed(), ControlResponse::Done { message } if message == "cache flushed"));
    assert!(matches!(reload_sent(0), ControlResponse::Done { .. }));
    assert!(matches!(
        reload_sent(-1),
        ControlResponse::Error { error } if error == "kill(SIGHUP) failed: rc=-1"
    ));
}

#[test]
fn dumps_are_filtered_by_name_and_type() {
    let row = |name: &str, rtype: &str| CacheDumpEntry {
        name: name.to_string(),
        rtype: rtype.to_string(),
        class: "IN".to_string(),
        ttl_remaining_secs: 1,
        size_bytes: 1,
    };
    let rows = || vec![row("www.Example.com.", "A"), row("b\u{fc}ro.example.", "AAAA"), row("x.org.", "A")];
    let got = filter_dump(rows(), &Some("EXAMPLE".to_string()), &None);
    assert_eq!(got.len(), 2);
    let got = filter_dump(rows(), &Some("B\u{dc}RO".to_string()), &Some("aaaa".to_string()));
    assert_eq!(got.len(), 1);
    assert_eq!(got[0].rtype, "AAAA");
    assert_eq!(filter_dump(rows(), &None, &Some("a".to_string())).len(), 2);
    assert_eq!(filter_dump(rows(), &None, &None).len(), 3);
}

#[test]
fn cache_lines_are_put_in_words() {
    let mut cache = build_cache_from_config(&DnsConfig::default());
    let name = Name::from_ascii("Example.com.").unwrap().0;
    let mut msg = new_message(new_header(1, true, OPCODE_QUERY), vec![]);
    msg.answers.push(make_addr_record(&name, 300, IpAddr::V4(1)));
    cache.put(&CacheKey::new(&name, TYPE_A, CLASS_IN), &msg, vec![1, 2, 3], 0);
    assert_eq!(cache.entry_count(), 1);
    let row = describe_line(&cache.dump(0)[0]);
    assert_eq!(row.name, "example.com.");
    assert_eq!(row.rtype, "A");
    assert_eq!(row.class, "IN");
    assert_eq!(row.ttl_remaining_secs, 300);
    assert_eq!(row.size_bytes, 3);
}

#[test]
fn forwarders_are_shown_by_domain() {
    let cfg = DnsConfig {
        forwarders: vec![Forwarder {
            domain: "corp.example".to_string(),
            servers: vec![ServerSpec::Bare(ip("10.9.9.9")), ServerSpec::Bare(ip("2001:db8::1"))],
        }],
        ..DnsConfig::default()
    };
    let rows = show_forwarders(&build_forwarders_from_config(&cfg).unwrap());
    assert_eq!(rows.len(), 1);
    assert_eq!(rows[0].domain, "corp.example.");
    assert_eq!(rows[0].servers, vec!["10.9.9.9", "2001:db8::1"]);
}

#[test]
fn counters_are_copied() {
    let mut m = Metrics::default();
    m.cache_hits = 3;
    m.udp_inflight_shed = 4;
    let s = m.snapshot();
    assert_eq!(s.cache_hits, 3);
    assert_eq!(s.udp_inflight_shed, 4);
    assert_eq!(s.queries_udp, 0);
}

#[test]
fn key_flags_are_read() {
    let k = Dnskey { flags: 0x0181, algorithm: 8, public_key: vec![] };
    assert!(k.zone_key() && k.secure_entry_point() && k.revoke());
    let k = Dnskey { flags: 0x0100, algorithm: 8, public_key: vec![1, 2] };
    assert!(k.zone_key() && !k.secure_entry_point() && !k.revoke());
    assert_eq!(k.rdata(), vec![1, 0, 3, 8, 1, 2]);
}
