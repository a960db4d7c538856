use dnsd::config::{Forwarder, ServerSpec};
use dnsd::handler::ListenerContext;
use dnsd::name::Name;
use dnsd::net::IpAddr;
use dnsd::recursor::ddr::build_ddr_records;
use dnsd::recursor::dns64::Dns64Policy;
use dnsd::recursor::dnssec::{DnssecPolicy, ValidationStatus, WalkChain};
use dnsd::recursor::forwarder::Forwarders;
use dnsd::recursor::iterative::make_addr_record;
use dnsd::recursor::pipeline::{
    after_forward_a, after_forward_bytes, after_walk, build_from_cache_value, conclude_walk, finish_ptr,
    finish_walk, follow_up, look_up, plan, receive, respond_with_policy, route, take_turn, within_rate,
    AfterWalk, Engine, Forwarded, Plan, Received, ResolveOutcome, Route, Turn,
};
use dnsd::recursor::reply::{new_header, new_message, one_query};
use dnsd::wire::{
    Message, Record, CLASS_IN, OPCODE_QUERY, RCODE_REFUSED, RCODE_SERVFAIL, TYPE_A, TYPE_AAAA, TYPE_PTR,
    TYPE_SVCB,
};

const IP6_PTR: &str = "1.2.2.0.0.0.0.c.0.0.0.0.0.0.0.0.0.0.0.0.0.0.0.0.b.9.f.f.4.6.0.0.ip6.arpa.";

fn n(s: &str) -> Name {
    Name::from_ascii(s).unwrap().0
}

fn ip(s: &str) -> IpAddr {
    IpAddr::parse(s).unwrap()
}

fn engine(policy: DnssecPolicy, dns64: bool) -> Engine {
    let fwd = Forwarder {
        domain: "corp.example".to_string(),
        servers: vec![ServerSpec::Bare(ip("10.0.0.1"))],
    };
    Engine {
        dns64: if dns64 { Some(Dns64Policy::default_wkp()) } else { None },
        dnssec: policy,
        iterative: true,
        ddr: build_ddr_records(&n("dns.example.net."), &vec![ip("23.177.24.9")], &vec![]),
        forwarders: Forwarders::new(&vec![fwd]).unwrap(),
    }
}

fn ctx(dns64: bool) -> ListenerContext {
    ListenerContext::new("lan".to_string(), dns64, None)
}

fn query(name: &str, qtype: u16) -> Message {
    let mut h = new_header(0x77, false, OPCODE_QUERY);
    h.recursion_desired = true;
    new_message(h, one_query(&n(name), qtype, CLASS_IN))
}

fn answer(name: &str, qtype: u16, addr: Option<&str>) -> Message {
    let mut m =
        new_message(new_header(0x11, true, OPCODE_QUERY), one_query(&n(name), qtype, CLASS_IN));
    m.header.authentic_data = true;
    if let Some(a) = addr {
        m.answers.push(make_addr_record(&n(name), 60, ip(a)));
    }
    m
}

fn read(b: &[u8]) -> Message {
    Message::from_bytes(b).unwrap()
}

#[test]
fn not_ready_means_refused() {
    let q = query("example.com.", TYPE_A).to_bytes().unwrap();
    match receive(false, &q) {
        Received::Reply(b) => assert_eq!(read(&b).header.rcode, RCODE_REFUSED),
        other => panic!("expected a reply, got {other:?}"),
    }
    assert!(matches!(receive(true, &q), Received::Ask(m) if m.header.id == 0x77));
    assert!(matches!(receive(true, b"junk"), Received::Drop));
    let empty = new_message(new_header(1, false, OPCODE_QUERY), vec![]).to_bytes().unwrap();
    assert!(matches!(receive(true, &empty), Received::Drop));
}

#[test]
fn over_rate_is_silent() {
    let e = engine(DnssecPolicy::PassThrough, false);
    assert!(within_rate(None, ip("10.0.0.1")));
    let q = query("ipv4only.arpa.", TYPE_A);
    assert!(matches!(route(&e, false, &ctx(false), &q), Route::Drop));
    assert!(matches!(route(&e, true, &ctx(false), &q), Route::Reply(_)));
}

#[test]
fn some_names_never_leave() {
    let e = engine(DnssecPolicy::PassThrough, true);
    match route(&e, true, &ctx(true), &query("ipv4only.arpa.", TYPE_AAAA)) {
        Route::Reply(b) => assert_eq!(read(&b).answers.len(), 2),
        other => panic!("expected a reply, got {other:?}"),
    }
    match route(&e, true, &ctx(false), &query("_dns.resolver.arpa.", TYPE_SVCB)) {
        Route::Reply(b) => assert_eq!(read(&b).answers.len(), 1),
        other => panic!("expected a reply, got {other:?}"),
    }
    match route(&e, true, &ctx(true), &query(IP6_PTR, TYPE_PTR)) {
        Route::AskPtr(name) => assert_eq!(name.text(), "33.2.0.192.in-addr.arpa."),
        other => panic!("expected a rewrite, got {other:?}"),
    }
    assert!(matches!(route(&e, true, &ctx(false), &query(IP6_PTR, TYPE_PTR)), Route::LookUp));
    assert!(matches!(route(&e, true, &ctx(true), &query("example.com.", TYPE_A)), Route::LookUp));
}

#[test]
fn reverse_answers_come_back_under_the_asked_name() {
    let msg = query(IP6_PTR, TYPE_PTR);
    let mut v4 = answer("33.2.0.192.in-addr.arpa.", TYPE_PTR, None);
    v4.answers.push(Record {
        name: n("33.2.0.192.in-addr.arpa."),
        rtype: TYPE_PTR,
        class: CLASS_IN,
        ttl: 9,
        rdata: b"\x04host\x07example\x00".to_vec(),
    });
    let b = v4.to_bytes().unwrap();
    let r = read(&finish_ptr(DnssecPolicy::Strip, &msg, Some(&b)).unwrap());
    assert!(r.answers[0].name.same(&n(IP6_PTR)));
    assert!(!r.header.authentic_data);
    let f = read(&finish_ptr(DnssecPolicy::Strip, &msg, None).unwrap());
    assert_eq!(f.header.rcode, RCODE_SERVFAIL);
    assert!(finish_ptr(DnssecPolicy::Strip, &msg, Some(&b"junk".to_vec())).is_none());
}

#[test]
fn kept_replies_are_renumbered_and_stripped() {
    let msg = query("example.com.", TYPE_A);
    let kept = answer("example.com.", TYPE_A, Some("192.0.2.1")).to_bytes().unwrap();
    let e = engine(DnssecPolicy::Strip, false);
    let r = read(&build_from_cache_value(&e, &ctx(false), &msg, kept.clone(), None).unwrap());
    assert_eq!(r.header.id, 0x77);
    assert!(!r.header.authentic_data);
    assert_eq!(r.answers.len(), 1);
    let e = engine(DnssecPolicy::Validate, false);
    let r = read(&build_from_cache_value(&e, &ctx(false), &msg, kept, None).unwrap());
    assert!(r.header.authentic_data);
    // What cannot be read is sent on with the client's id.
    let r = build_from_cache_value(&e, &ctx(false), &msg, vec![1, 2, 3], None).unwrap();
    assert_eq!(r, vec![0, 0x77, 3]);
}

#[test]
fn kept_empty_replies_are_synthesised_from_the_kept_address() {
    let msg = query("example.com.", TYPE_AAAA);
    let kept = answer("example.com.", TYPE_AAAA, None).to_bytes().unwrap();
    let a = answer("example.com.", TYPE_A, Some("192.0.2.33")).to_bytes().unwrap();
    let e = engine(DnssecPolicy::PassThrough, true);
    let r = build_from_cache_value(&e, &ctx(true), &msg, kept.clone(), Some(&a)).unwrap();
    assert_eq!(read(&r).answers[0].address(), Some(ip("64:ff9b::c000:221")));
    assert!(build_from_cache_value(&e, &ctx(true), &msg, kept.clone(), None).is_none());
    let r = build_from_cache_value(&e, &ctx(false), &msg, kept, Some(&a)).unwrap();
    assert!(read(&r).answers.is_empty());
}

#[test]
fn names_are_forwarded_or_walked() {
    let mut e = engine(DnssecPolicy::PassThrough, false);
    assert_eq!(plan(&e, &n("host.corp.example.")), Plan::Forward);
    assert_eq!(plan(&e, &n("example.com.")), Plan::Iterate);
    e.iterative = false;
    assert_eq!(plan(&e, &n("example.com.")), Plan::Fail);
}

#[test]
fn failures_and_kept_replies_are_given_at_once() {
    let e = engine(DnssecPolicy::PassThrough, false);
    let msg = query("example.com.", TYPE_A);
    let kept = || Some(answer("example.com.", TYPE_A, Some("192.0.2.1")).to_bytes().unwrap());
    let c = ctx(false);
    let r = look_up(&e, &c, &msg, true, kept(), None).unwrap();
    assert_eq!(read(&r).header.rcode, RCODE_SERVFAIL);
    let r = look_up(&e, &c, &msg, false, kept(), None).unwrap();
    assert_eq!(read(&r).answers.len(), 1);
    assert!(look_up(&e, &c, &msg, false, None, None).is_none());
    assert!(look_up(&e, &c, &msg, false, Some(vec![1]), None).is_none());
    // On its turn a query looks at the cache before it looks at failures.
    assert!(matches!(
        take_turn(&e, &c, &msg, true, kept(), None),
        Turn::Reply(b) if read(&b).answers.len() == 1
    ));
    assert!(matches!(
        take_turn(&e, &c, &msg, true, None, None),
        Turn::Reply(b) if read(&b).header.rcode == RCODE_SERVFAIL
    ));
    assert!(matches!(take_turn(&e, &c, &msg, false, None, None), Turn::Walk));
}

#[test]
fn forwarded_names_are_not_walked() {
    let e = engine(DnssecPolicy::PassThrough, false);
    let msg = query("host.corp.example.", TYPE_A);
    assert!(matches!(take_turn(&e, &ctx(false), &msg, false, None, None), Turn::Forward));
    let mut e = engine(DnssecPolicy::PassThrough, false);
    e.iterative = false;
    assert!(matches!(
        take_turn(&e, &ctx(false), &query("example.com.", TYPE_A), false, None, None),
        Turn::Reply(b) if read(&b).header.rcode == RCODE_SERVFAIL
    ));
}

#[test]
fn walks_end_in_a_reply_or_an_address_query() {
    let e = engine(DnssecPolicy::PassThrough, true);
    let msg = query("example.com.", TYPE_AAAA);
    let c = ctx(true);
    assert!(matches!(
        after_walk(&e, &c, &msg, None),
        AfterWalk::Failed(b) if read(&b).header.rcode == RCODE_SERVFAIL
    ));
    let bogus = ResolveOutcome::Bogus(vec![1, 2]);
    assert!(matches!(after_walk(&e, &c, &msg, Some(bogus)), AfterWalk::Reply(b) if b == vec![1, 2]));
    let empty = || ResolveOutcome::Answer {
        bytes: vec![3],
        parsed: answer("example.com.", TYPE_AAAA, None),
        keep: true,
    };
    assert!(matches!(
        after_walk(&e, &c, &msg, Some(empty())),
        AfterWalk::AskA(q, b) if q.queries[0].qtype == TYPE_A && b == vec![3]
    ));
    assert!(matches!(
        after_walk(&e, &ctx(false), &msg, Some(empty())),
        AfterWalk::Reply(b) if b == vec![3]
    ));
}

#[test]
fn bogus_answers_are_never_passed_on() {
    let msg = query("example.com.", TYPE_A);
    let walked = answer("example.com.", TYPE_A, Some("192.0.2.1")).to_bytes().unwrap();
    let parsed = || Message::from_bytes(&walked);
    let bogus = ValidationStatus::Bogus("bad".to_string());
    match conclude_walk(DnssecPolicy::Validate, &msg, walked.clone(), parsed(), Some(bogus)) {
        ResolveOutcome::Bogus(b) => {
            let m = read(&b);
            assert_eq!(m.header.rcode, RCODE_SERVFAIL);
            assert!(m.answers.is_empty());
            assert_eq!(m.edns.unwrap().options, vec![0, 15, 0, 5, 0, 6, b'b', b'a', b'd']);
        }
        other => panic!("expected bogus, got {other:?}"),
    }
}

#[test]
fn authenticated_means_secure() {
    let msg = query("example.com.", TYPE_A);
    let walked = answer("example.com.", TYPE_A, Some("192.0.2.1")).to_bytes().unwrap();
    let ad = |p: DnssecPolicy, s: Option<ValidationStatus>| {
        match conclude_walk(p, &msg, walked.clone(), Message::from_bytes(&walked), s) {
            ResolveOutcome::Answer { parsed, keep, .. } => {
                assert!(keep);
                parsed.header.authentic_data
            }
            other => panic!("expected an answer, got {other:?}"),
        }
    };
    assert!(ad(DnssecPolicy::Validate, Some(ValidationStatus::Secure)));
    assert!(!ad(DnssecPolicy::Validate, Some(ValidationStatus::Insecure)));
    assert!(!ad(DnssecPolicy::Strip, None));
    match conclude_walk(DnssecPolicy::Strip, &msg, vec![1, 2], None, None) {
        ResolveOutcome::Answer { bytes, keep, .. } => {
            assert_eq!(bytes, vec![1, 2]);
            assert!(!keep);
        }
        other => panic!("expected an answer, got {other:?}"),
    }
}

#[test]
fn empty_walks_are_followed_by_an_address_query() {
    let e = engine(DnssecPolicy::PassThrough, true);
    let msg = query("example.com.", TYPE_AAAA);
    let empty = answer("example.com.", TYPE_AAAA, None);
    let a_query = follow_up(&e, &ctx(true), &msg, &empty).unwrap();
    assert_eq!(a_query.queries[0].qtype, TYPE_A);
    assert_eq!(a_query.header.id, 0x77);
    assert!(follow_up(&e, &ctx(false), &msg, &empty).is_none());
    let full = answer("example.com.", TYPE_AAAA, Some("2001:db8::1"));
    assert!(follow_up(&e, &ctx(true), &msg, &full).is_none());

    let a = answer("example.com.", TYPE_A, Some("192.0.2.33"));
    let r = finish_walk(&e, &msg, vec![9, 9], Some(&a));
    assert_eq!(read(&r).answers[0].address(), Some(ip("64:ff9b::c000:221")));
    let none = answer("example.com.", TYPE_A, None);
    assert_eq!(finish_walk(&e, &msg, vec![9, 9], Some(&none)), vec![9, 9]);
    assert_eq!(finish_walk(&e, &msg, vec![9, 9], None), vec![9, 9]);
}

#[test]
fn forwarded_replies_lose_their_ad_bit() {
    let e = engine(DnssecPolicy::Validate, false);
    let msg = query("host.corp.example.", TYPE_A);
    let resp = answer("host.corp.example.", TYPE_A, Some("10.1.1.1")).to_bytes().unwrap();
    match after_forward_bytes(&e, &ctx(false), &msg, Some(&resp)) {
        Forwarded::Keep(b, m) => {
            assert!(!m.header.authentic_data);
            assert!(!read(&b).header.authentic_data);
        }
        other => panic!("expected a reply to keep, got {other:?}"),
    }
    match after_forward_bytes(&e, &ctx(false), &msg, None) {
        Forwarded::Reply(b) => assert_eq!(read(&b).header.rcode, RCODE_SERVFAIL),
        other => panic!("expected a failure, got {other:?}"),
    }
}

#[test]
fn forwarded_empty_replies_are_synthesised() {
    let e = engine(DnssecPolicy::PassThrough, true);
    let msg = query("host.corp.example.", TYPE_AAAA);
    let resp = answer("host.corp.example.", TYPE_AAAA, None).to_bytes().unwrap();
    let (q, resp) = match after_forward_bytes(&e, &ctx(true), &msg, Some(&resp)) {
        Forwarded::AskA(q, m) => (q, m),
        other => panic!("expected an address query, got {other:?}"),
    };
    assert_eq!(read(&q).queries[0].qtype, TYPE_A);
    let a = answer("host.corp.example.", TYPE_A, Some("192.0.2.33"));
    match after_forward_a(&e, &msg, resp.clone(), Some(&a)) {
        Forwarded::Reply(b) => {
            assert_eq!(read(&b).answers[0].address(), Some(ip("64:ff9b::c000:221")))
        }
        other => panic!("expected a reply, got {other:?}"),
    }
    assert!(matches!(after_forward_a(&e, &msg, resp, None), Forwarded::Keep(..)));
}

#[test]
fn policies_are_applied_on_the_way_out() {
    let m = answer("example.com.", TYPE_A, Some("192.0.2.1"));
    let kept = read(&respond_with_policy(m.clone(), DnssecPolicy::PassThrough));
    assert!(kept.header.authentic_data);
    let stripped = read(&respond_with_policy(m, DnssecPolicy::Strip));
    assert!(!stripped.header.authentic_data);
}

#[test]
fn an_empty_walk_has_no_zone() {
    assert!(WalkChain::default().answer_zone().is_none());
}
