use dnsd::name::Name;
use dnsd::net::IpAddr;
use dnsd::recursor::dns64::{
    embed_v4, extract_v4, ip6_arpa_to_addr, rewrap_ptr_response, rewrite_ptr_question,
    should_synthesise, synthesise_from_a, Dns64, Dns64Error, Dns64Policy, Prefix,
};
use dnsd::recursor::iterative::make_addr_record;
use dnsd::recursor::reply::{new_header, new_message, one_query};
use dnsd::wire::{
    Message, Record, CLASS_IN, OPCODE_QUERY, RCODE_NOERROR, RCODE_NXDOMAIN, RCODE_SERVFAIL, TYPE_A,
    TYPE_AAAA, TYPE_PTR,
};

fn n(s: &str) -> Name {
    Name::from_ascii(s).unwrap().0
}

fn v4(s: &str) -> u32 {
    match IpAddr::parse(s).unwrap() {
        IpAddr::V4(a) => a,
        IpAddr::V6(_) => panic!("not an IPv4 address"),
    }
}

fn v6(s: &str) -> u128 {
    match IpAddr::parse(s).unwrap() {
        IpAddr::V6(a) => a,
        IpAddr::V4(_) => panic!("not an IPv6 address"),
    }
}

fn prefix(s: &str) -> Prefix {
    let (addr, len) = s.split_once('/').unwrap();
    Prefix { addr: v6(addr), len: len.parse().unwrap() }
}

fn wkp() -> Dns64Policy {
    Dns64Policy::default_wkp()
}

const IP6_PTR: &str = "1.2.2.0.0.0.0.c.0.0.0.0.0.0.0.0.0.0.0.0.0.0.0.0.b.9.f.f.4.6.0.0.ip6.arpa.";

#[test]
fn embed_and_extract_wkp() {
    let policy = wkp();
    let a = v4("192.0.2.33");
    let b = embed_v4(&policy.prefix, a);
    assert_eq!(b, v6("64:ff9b::c000:221"));
    assert_eq!(extract_v4(&policy.prefix, b), Some(a));
}

#[test]
fn embed_and_extract_all_lengths() {
    let cases = [
        ("2001:db8::/32", "203.0.113.5"),
        ("2001:db8:1234::/48", "203.0.113.5"),
        ("2001:db8:aaaa:bbbb::/64", "203.0.113.5"),
        ("64:ff9b::/96", "203.0.113.5"),
    ];
    for (p, a) in cases {
        let p = prefix(p);
        let b = embed_v4(&p, v4(a));
        assert_eq!(extract_v4(&p, b), Some(v4(a)), "round-trip failed for prefix {p:?}");
    }
}

#[test]
fn shorter_prefixes_skip_the_reserved_octet() {
    assert_eq!(embed_v4(&prefix("2001:db8::/32"), v4("192.0.2.33")), v6("2001:db8:c000:221::"));
    assert_eq!(
        embed_v4(&prefix("2001:db8:100::/40"), v4("192.0.2.33")),
        v6("2001:db8:1c0:2:21::")
    );
    assert_eq!(
        embed_v4(&prefix("2001:db8:122::/48"), v4("192.0.2.33")),
        v6("2001:db8:122:c000:2:2100::")
    );
    assert_eq!(
        embed_v4(&prefix("2001:db8:122:300::/56"), v4("192.0.2.33")),
        v6("2001:db8:122:3c0:0:221::")
    );
    assert_eq!(
        embed_v4(&prefix("2001:db8:122:344::/64"), v4("192.0.2.33")),
        v6("2001:db8:122:344:c0:2:2100::")
    );
}

#[test]
fn ip6_arpa_decodes_to_address() {
    let addr = ip6_arpa_to_addr(&n(IP6_PTR)).unwrap();
    assert_eq!(addr, v6("64:ff9b::c000:221"));
    assert!(ip6_arpa_to_addr(&n("1.2.ip6.arpa.")).is_none());
    assert!(ip6_arpa_to_addr(&n("example.com.")).is_none());
}

#[test]
fn ptr_question_rewrite_only_under_prefix() {
    let policy = wkp();
    let rewritten = rewrite_ptr_question(&policy, &n(IP6_PTR)).unwrap();
    assert!(rewritten.same_case(&n("33.2.0.192.in-addr.arpa.")));

    let outside =
        n("1.0.0.0.0.0.0.0.0.0.0.0.0.0.0.0.0.0.0.0.0.0.0.0.0.0.0.0.0.0.0.2.ip6.arpa.");
    assert!(rewrite_ptr_question(&policy, &outside).is_none());
}

#[test]
fn exclusions_cover_ipv4only_arpa() {
    let policy = wkp();
    assert!(policy.is_excluded(&n("ipv4only.arpa.")));
    assert!(policy.is_excluded(&n("sub.ipv4only.arpa.")));
    assert!(!policy.is_excluded(&n("example.com.")));
}

#[test]
fn should_synthesise_triggers() {
    let policy = wkp();
    let mut resp = new_message(new_header(0, true, OPCODE_QUERY), vec![]);
    resp.header.rcode = RCODE_NOERROR;
    assert!(should_synthesise(Some(&policy), true, &n("example.com."), TYPE_AAAA, &resp));

    resp.header.rcode = RCODE_NXDOMAIN;
    assert!(should_synthesise(Some(&policy), true, &n("example.com."), TYPE_AAAA, &resp));

    resp.header.rcode = RCODE_SERVFAIL;
    assert!(!should_synthesise(Some(&policy), true, &n("example.com."), TYPE_AAAA, &resp));

    resp.header.rcode = RCODE_NOERROR;
    assert!(!should_synthesise(Some(&policy), true, &n("example.com."), TYPE_A, &resp));

    assert!(!should_synthesise(Some(&policy), false, &n("example.com."), TYPE_AAAA, &resp));

    assert!(!should_synthesise(Some(&policy), true, &n("ipv4only.arpa."), TYPE_AAAA, &resp));

    assert!(!should_synthesise(None, true, &n("example.com."), TYPE_AAAA, &resp));
}

fn question(qtype: u16) -> Message {
    new_message(new_header(0xbeef, false, OPCODE_QUERY), one_query(&n("example.com."), qtype, CLASS_IN))
}

#[test]
fn synthesise_preserves_ttl_and_clears_ad() {
    let policy = wkp();
    let original = question(TYPE_AAAA);
    let mut a_resp = new_message(new_header(0xbeef, true, OPCODE_QUERY), vec![]);
    a_resp.header.authentic_data = true;
    a_resp.answers.push(make_addr_record(&n("example.com."), 123, IpAddr::V4(v4("192.0.2.33"))));

    let synth = synthesise_from_a(&policy, &original, &a_resp);
    assert_eq!(synth.header.id, 0xbeef);
    assert_eq!(synth.queries.len(), 1);
    assert_eq!(synth.answers.len(), 1);
    let ans = &synth.answers[0];
    assert_eq!(ans.ttl, 123);
    assert_eq!(ans.rtype, TYPE_AAAA);
    assert!(!synth.header.authentic_data, "AD must be cleared for synthesised AAAA");
    assert_eq!(ans.address(), Some(IpAddr::V6(v6("64:ff9b::c000:221"))));
}

#[test]
fn reject_bad_prefix_lengths() {
    for bad in [24u8, 50, 72, 100, 128] {
        let cfg = Dns64 { prefix: Some(format!("2001:db8::/{bad}")), exclusions: vec![] };
        assert_eq!(
            Dns64Policy::from_config(&cfg).err(),
            Some(Dns64Error::BadPrefixLength),
            "prefix /{bad} should be rejected"
        );
    }
}

#[test]
fn configuration_errors_are_told_apart() {
    let cfg = Dns64 { prefix: Some("nonsense".to_string()), exclusions: vec![] };
    assert_eq!(Dns64Policy::from_config(&cfg).err(), Some(Dns64Error::BadPrefix));
    let cfg = Dns64 { prefix: Some("10.0.0.0/8".to_string()), exclusions: vec![] };
    assert_eq!(Dns64Policy::from_config(&cfg).err(), Some(Dns64Error::BadPrefix));
    let cfg = Dns64 { prefix: None, exclusions: vec!["a..b".to_string()] };
    assert_eq!(Dns64Policy::from_config(&cfg).err(), Some(Dns64Error::BadExclusion));
    let cfg = Dns64 {
        prefix: Some("2001:db8::/32".to_string()),
        exclusions: vec!["corp.example".to_string()],
    };
    let p = Dns64Policy::from_config(&cfg).unwrap();
    assert_eq!(p.prefix, prefix("2001:db8::/32"));
    assert!(p.is_excluded(&n("host.corp.example.")));
}

#[test]
fn pointer_answers_are_renamed() {
    let q = new_message(new_header(5, false, OPCODE_QUERY), one_query(&n(IP6_PTR), TYPE_PTR, CLASS_IN));
    let mut v4_resp = new_message(new_header(6, true, OPCODE_QUERY), vec![]);
    v4_resp.answers.push(Record {
        name: n("33.2.0.192.in-addr.arpa."),
        rtype: TYPE_PTR,
        class: CLASS_IN,
        ttl: 77,
        rdata: b"\x04host\x07example\x00".to_vec(),
    });
    let r = rewrap_ptr_response(&q, &v4_resp);
    assert_eq!(r.header.id, 5);
    assert_eq!(r.answers.len(), 1);
    assert!(r.answers[0].name.same(&n(IP6_PTR)));
    assert_eq!(r.answers[0].ttl, 77);
    assert!(r.answers[0].target(TYPE_PTR).unwrap().same(&n("host.example.")));
}
