use dnsd::name::Name;
use dnsd::net::IpAddr;
use dnsd::recursor::iterative::{
    classify, default_root_hints, effective_max_cname, extract_ds_and_rrsig, glue_ips, initial_roots,
    make_addr_record, usable_ips, Budget, BudgetError, Classification,
};
use dnsd::recursor::reply::{new_header, new_message, one_query};
use dnsd::recursor::root_hints::{parse_root_hints, render_root_hints};
use dnsd::recursor::walk::{
    build_synthetic_answer, build_zone_ns_answer, merge_cname, plan_ns, prime_seed, primed_roots,
    start_candidates, stitch, synthesize_local_nxdomain, Next, NsPlan, PrimeError, Race, RaceNext, Walk,
    WalkError,
};
use dnsd::wire::{
    Message, Record, CLASS_IN, OPCODE_QUERY, RCODE_NOERROR, RCODE_NXDOMAIN, RCODE_SERVFAIL, TYPE_A,
    TYPE_CNAME, TYPE_DS, TYPE_NS,
};

fn n(s: &str) -> Name {
    Name::from_ascii(s).unwrap().0
}

fn ip(s: &str) -> IpAddr {
    IpAddr::parse(s).unwrap()
}

fn wire_name(s: &str) -> Vec<u8> {
    let mut v = vec![];
    for l in &n(s).labels {
        v.push(l.len() as u8);
        v.extend_from_slice(l);
    }
    v.push(0);
    v
}

fn named(owner: &str, rtype: u16, target: &str) -> Record {
    Record { name: n(owner), rtype, class: CLASS_IN, ttl: 300, rdata: wire_name(target) }
}

fn reply(rcode: u16) -> Message {
    let mut m = new_message(new_header(0, true, OPCODE_QUERY), vec![]);
    m.header.rcode = rcode;
    m
}

#[test]
fn root_hints_parse() {
    let roots = default_root_hints();
    assert_eq!(roots.len(), 26, "13 roots, 2 families");
    assert!(roots.iter().any(|ip| ip.is_ipv4()));
    assert!(roots.iter().any(|ip| !ip.is_ipv4()));
}

#[test]
fn budget_counts_down() {
    let mut b = Budget::new(2, 3, 2);
    assert!(b.referral().is_ok());
    assert!(b.referral().is_ok());
    assert!(b.referral().is_err());

    assert!(b.query().is_ok());
    assert!(b.query().is_ok());
    assert!(b.query().is_ok());
    assert!(b.query().is_err());

    assert!(b.cname().is_ok());
    assert!(b.cname().is_ok());
    assert!(b.cname().is_err());
}

#[test]
fn each_budget_has_its_error() {
    let mut b = Budget::new(0, 0, 0);
    assert_eq!(b.referral(), Err(BudgetError::ReferralDepth));
    assert_eq!(b.query(), Err(BudgetError::Queries));
    assert_eq!(b.cname(), Err(BudgetError::CnameDepth));
    assert!(!b.can_substep());
    assert!(Budget::new(1, 1, 0).can_substep());
}

#[test]
fn classify_direct_answer() {
    let mut m = reply(RCODE_NOERROR);
    m.answers.push(make_addr_record(&n("example.com."), 300, ip("93.184.216.34")));
    let c = classify(&m, &n("example.com."), TYPE_A);
    assert!(matches!(c, Classification::Answer));
}

#[test]
fn classify_nxdomain() {
    let m = reply(RCODE_NXDOMAIN);
    let c = classify(&m, &n("nope.example."), TYPE_A);
    assert!(matches!(c, Classification::NxDomain));
}

#[test]
fn classify_cname_takes_priority_over_nodata() {
    let mut m = reply(RCODE_NOERROR);
    m.answers.push(named("www.example.com.", TYPE_CNAME, "cdn.example.net."));
    match classify(&m, &n("www.example.com."), TYPE_A) {
        Classification::Cname(target) => assert!(target.same_case(&n("cdn.example.net."))),
        other => panic!("expected Cname, got {other:?}"),
    }
}

#[test]
fn classify_referral_with_glue() {
    let mut m = reply(RCODE_NOERROR);
    m.authorities.push(named("com.", TYPE_NS, "a.gtld-servers.net."));
    m.additionals.push(make_addr_record(&n("a.gtld-servers.net."), 300, ip("192.5.6.30")));
    match classify(&m, &n("example.com."), TYPE_A) {
        Classification::Referral(zone, ns) => {
            assert!(zone.same_case(&n("com.")));
            assert_eq!(ns.len(), 1);
            let glue = glue_ips(&m.additionals, &n("a.gtld-servers.net."));
            assert_eq!(glue.first().copied(), Some(ip("192.5.6.30")));
        }
        other => panic!("expected Referral classification, got {other:?}"),
    }
}

#[test]
fn classify_failures_and_nodata() {
    assert!(matches!(classify(&reply(RCODE_SERVFAIL), &n("a."), TYPE_A), Classification::ServFail));
    assert!(matches!(classify(&reply(RCODE_NOERROR), &n("a."), TYPE_A), Classification::Empty));
}

#[test]
fn hints_depend_on_the_family() {
    assert_eq!(initial_roots(None, false).len(), 13);
    assert_eq!(initial_roots(None, true).len(), 26);
    let kept = vec![ip("192.0.2.1"), ip("2001:db8::1")];
    assert_eq!(initial_roots(Some(kept.clone()), false), vec![ip("192.0.2.1")]);
    assert_eq!(usable_ips(&kept, true), kept);
    assert_eq!(effective_max_cname(0), 1);
    assert_eq!(effective_max_cname(100), 16);
    assert_eq!(effective_max_cname(3), 3);
}

#[test]
fn root_hints_file_round_trips() {
    let ips = vec![ip("198.41.0.4"), ip("2001:503:ba3e::2:30")];
    let text = render_root_hints(&ips);
    assert_eq!(parse_root_hints(&text), Some(ips));
    assert_eq!(parse_root_hints("# nothing\n\n"), None);
}

#[test]
fn delegation_signers_are_extracted() {
    let mut m = reply(RCODE_NOERROR);
    m.authorities.push(Record {
        name: n("example."),
        rtype: TYPE_DS,
        class: CLASS_IN,
        ttl: 60,
        rdata: vec![0, 1, 8, 2, 9, 9],
    });
    m.authorities.push(named("example.", TYPE_NS, "ns.example."));
    let (ds, sigs) = extract_ds_and_rrsig(&m, &n("example."));
    assert_eq!(ds.len(), 1);
    assert!(sigs.is_empty());
    assert!(extract_ds_and_rrsig(&m, &n("other.")).0.is_empty());
}

fn start(b: &mut Budget) -> Walk {
    Walk::start(&n("www.example.com."), TYPE_A, CLASS_IN, None, &vec![ip("198.41.0.4")], true, b)
        .unwrap()
}

#[test]
fn walks_go_down_only() {
    let mut b = Budget::new(4, 10, 2);
    let mut w = start(&mut b);
    assert!(w.zone.is_root());
    let mut m = reply(RCODE_NOERROR);
    m.authorities.push(named("com.", TYPE_NS, "a.gtld-servers.net."));
    m.additionals.push(make_addr_record(&n("a.gtld-servers.net."), 300, ip("192.5.6.30")));
    let r = match w.on_response(&m, &mut b).unwrap() {
        Next::Follow(r) => r,
        other => panic!("expected a referral, got {other:?}"),
    };
    w.descend(r, vec![ip("192.5.6.30")]).unwrap();
    assert!(w.zone.same(&n("com.")));
    assert_eq!(w.ns_ips, vec![ip("192.5.6.30")]);
    // The same referral again leads nowhere.
    assert!(matches!(w.on_response(&m, &mut b), Err(WalkError::NonProgressive)));
    // Neither does one without addresses.
    let mut deeper = reply(RCODE_NOERROR);
    deeper.authorities.push(named("example.com.", TYPE_NS, "ns.example.com."));
    match w.on_response(&deeper, &mut b).unwrap() {
        Next::Follow(r) => {
            assert!(matches!(w.descend(r, vec![]), Err(WalkError::NoNsAddresses)))
        }
        other => panic!("expected a referral, got {other:?}"),
    }
}

#[test]
fn walks_never_go_back_up_or_sideways() {
    let mut b = Budget::new(4, 10, 2);
    let mut w = start(&mut b);
    let refer = |zone: &str| {
        let mut m = reply(RCODE_NOERROR);
        m.authorities.push(named(zone, TYPE_NS, "ns.example."));
        m
    };
    match w.on_response(&refer("com."), &mut b).unwrap() {
        Next::Follow(r) => w.descend(r, vec![ip("192.5.6.30")]).unwrap(),
        other => panic!("expected a referral, got {other:?}"),
    }
    for zone in [".", "com.", "net.", "example.net.", "a.b.example.net."] {
        assert!(
            matches!(w.on_response(&refer(zone), &mut b), Err(WalkError::NonProgressive)),
            "{zone}"
        );
    }
    assert!(matches!(w.on_response(&refer("Example.COM."), &mut b), Ok(Next::Follow(_))));
}

#[test]
fn failed_servers_are_left_out() {
    let mut b = Budget::new(4, 10, 2);
    let roots = vec![ip("198.41.0.4"), ip("192.0.2.2"), ip("198.41.0.4")];
    let mut w =
        Walk::start(&n("www.example.com."), TYPE_A, CLASS_IN, None, &roots, true, &mut b).unwrap();
    assert!(matches!(w.on_response(&reply(RCODE_SERVFAIL), &mut b), Ok(Next::TryAnother)));
    assert_eq!(w.leave_out(ip("198.41.0.4")), Ok(()));
    assert_eq!(w.ns_ips, vec![ip("192.0.2.2")]);
    assert!(w.zone.is_root());
    assert_eq!(w.leave_out(ip("192.0.2.2")), Err(WalkError::ServFail));
}

#[test]
fn walks_chase_aliases_within_budget() {
    let mut b = Budget::new(4, 10, 1);
    let w = start(&mut b);
    let mut m = reply(RCODE_NOERROR);
    m.answers.push(named("www.example.com.", TYPE_CNAME, "cdn.example.net."));
    assert!(matches!(w.on_response(&m, &mut b), Ok(Next::Chase(t)) if t.same(&n("cdn.example.net."))));
    assert!(matches!(
        w.on_response(&m, &mut b),
        Err(WalkError::Budget(BudgetError::CnameDepth))
    ));
}

#[test]
fn alias_answers_are_joined() {
    let mut first = reply(RCODE_NOERROR);
    first.answers.push(named("www.example.com.", TYPE_CNAME, "cdn.example.net."));
    let mut chased = reply(RCODE_NXDOMAIN);
    chased.answers.push(make_addr_record(&n("cdn.example.net."), 60, ip("192.0.2.1")));
    let merged = merge_cname(first, &chased);
    assert_eq!(merged.answers.len(), 2);
    assert_eq!(merged.answers[0].rtype, TYPE_CNAME);
    assert_eq!(merged.answers[1].address(), Some(ip("192.0.2.1")));
    assert_eq!(merged.header.rcode, RCODE_NXDOMAIN);
}

#[test]
fn servers_are_raced_two_at_a_time() {
    let mut b = Budget::new(4, 10, 1);
    let ips: Vec<IpAddr> = (1..=6).map(|i| IpAddr::V4(i)).collect();
    let mut r = Race::new(&ips);
    assert_eq!(r.launch(&mut b), Ok(Some(IpAddr::V4(1))));
    assert_eq!(r.launch(&mut b), Ok(Some(IpAddr::V4(2))));
    assert_eq!(r.launch(&mut b), Ok(None));
    assert_eq!(r.failed(&mut b), Ok(RaceNext::Launch(IpAddr::V4(3))));
    assert_eq!(r.failed(&mut b), Ok(RaceNext::Launch(IpAddr::V4(4))));
    // Four servers at most.
    assert_eq!(r.failed(&mut b), Ok(RaceNext::Wait));
    assert_eq!(r.failed(&mut b), Ok(RaceNext::GiveUp));
}

#[test]
fn server_addresses_come_from_glue_first() {
    let glue = vec![make_addr_record(&n("ns.example."), 60, ip("192.0.2.1"))];
    let b = Budget::new(1, 1, 1);
    assert!(matches!(
        plan_ns(&n("ns.example."), &glue, vec![], false, &b),
        NsPlan::Use(v) if v == vec![ip("192.0.2.1")]
    ));
    assert!(matches!(
        plan_ns(&n("ns.other."), &glue, vec![ip("192.0.2.9")], false, &b),
        NsPlan::Use(v) if v == vec![ip("192.0.2.9")]
    ));
    assert!(matches!(plan_ns(&n("ns.other."), &glue, vec![], false, &b), NsPlan::Resolve));
    let spent = Budget::new(0, 1, 1);
    assert!(matches!(plan_ns(&n("ns.other."), &glue, vec![], false, &spent), NsPlan::Skip));
}

#[test]
fn closest_known_zone_is_tried_first() {
    let c = start_candidates(&n("www.example.com."));
    let texts: Vec<String> = c.iter().map(|x| x.text()).collect();
    assert_eq!(texts.first().map(|s| s.as_str()), Some("example.com."));
    assert_eq!(texts.last().map(|s| s.as_str()), Some("."));
}

#[test]
fn priming_needs_glue() {
    assert_eq!(prime_seed(&vec![]), Err(PrimeError::NoRoots));
    assert_eq!(prime_seed(&vec![ip("192.0.2.1")]), Ok(ip("192.0.2.1")));
    let mut m = reply(RCODE_NOERROR);
    assert_eq!(primed_roots(&m, false), Err(PrimeError::NoNsRecords));
    m.answers.push(named(".", TYPE_NS, "a.root-servers.net."));
    assert_eq!(primed_roots(&m, false), Err(PrimeError::NoGlue));
    m.additionals.push(make_addr_record(&n("a.root-servers.net."), 60, ip("198.41.0.4")));
    assert_eq!(primed_roots(&m, false), Ok(vec![ip("198.41.0.4")]));
}

#[test]
fn answers_take_the_clients_header() {
    let client = new_message(
        new_header(0x77, false, OPCODE_QUERY),
        one_query(&n("www.example.com."), TYPE_A, CLASS_IN),
    );
    let mut answer = reply(RCODE_NOERROR);
    answer.answers.push(make_addr_record(&n("www.example.com."), 60, ip("192.0.2.1")));
    let s = stitch(&client, &answer);
    assert_eq!(s.header.id, 0x77);
    assert!(s.header.response);
    assert!(s.header.recursion_available);
    assert_eq!(s.queries.len(), 1);
    assert_eq!(s.answers.len(), 1);
    let nx = synthesize_local_nxdomain(&client);
    assert_eq!(nx.header.rcode, RCODE_NXDOMAIN);
    assert_eq!(nx.header.id, 0x77);
}

#[test]
fn learned_addresses_become_answers() {
    let m = build_synthetic_answer(&n("ns.example."), TYPE_A, &vec![ip("192.0.2.1")]).unwrap();
    assert_eq!(m.answers.len(), 1);
    assert_eq!(m.answers[0].address(), Some(ip("192.0.2.1")));
    assert!(build_synthetic_answer(&n("ns.example."), TYPE_A, &vec![]).is_none());
    assert!(build_zone_ns_answer(&n("example."), &vec![]).is_none());
    let z = build_zone_ns_answer(&n("example."), &vec![named("example.", TYPE_NS, "ns.example.")])
        .unwrap();
    assert_eq!(z.answers.len(), 1);
}
