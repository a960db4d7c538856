use dnsd::name::Name;
use dnsd::net::IpAddr;
use dnsd::recursor::dns64::Dns64Policy;
use dnsd::recursor::ipv4only::{is_local_question, synth_response, A_170, A_171};
use dnsd::recursor::reply::{new_header, new_message, one_query};
use dnsd::wire::{Message, CLASS_IN, OPCODE_QUERY, RCODE_NOERROR, TYPE_A, TYPE_AAAA, TYPE_PTR};

const TYPE_MX: u16 = 15;

fn n(s: &str) -> Name {
    Name::from_ascii(s).unwrap().0
}

fn build_query(name: &str, qtype: u16) -> Message {
    let mut header = new_header(0xabcd, false, OPCODE_QUERY);
    header.recursion_desired = true;
    new_message(header, one_query(&n(name), qtype, CLASS_IN))
}

#[test]
fn recognises_ipv4only_a_and_aaaa() {
    let q = n("ipv4only.arpa.");
    assert!(is_local_question(&q, TYPE_A));
    assert!(is_local_question(&q, TYPE_AAAA));
    assert!(!is_local_question(&q, TYPE_MX));
    let sub = n("foo.ipv4only.arpa.");
    assert!(!is_local_question(&sub, TYPE_A));
}

#[test]
fn recognises_ptr_names() {
    let n170 = n("170.0.0.192.in-addr.arpa.");
    let n171 = n("171.0.0.192.in-addr.arpa.");
    assert!(is_local_question(&n170, TYPE_PTR));
    assert!(is_local_question(&n171, TYPE_PTR));
    assert!(!is_local_question(&n170, TYPE_A));
    let n172 = n("172.0.0.192.in-addr.arpa.");
    assert!(!is_local_question(&n172, TYPE_PTR));
}

#[test]
fn case_insensitive() {
    let q = n("IPv4Only.ARPA.");
    assert!(is_local_question(&q, TYPE_A));
}

#[test]
fn a_query_returns_both_records() {
    let q = build_query("ipv4only.arpa.", TYPE_A);
    let resp = synth_response(&q, None, false);
    assert_eq!(resp.header.id, 0xabcd);
    assert_eq!(resp.header.rcode, RCODE_NOERROR);
    assert_eq!(resp.answers.len(), 2);
    let got: Vec<Option<IpAddr>> = resp.answers.iter().map(|r| r.address()).collect();
    assert_eq!(got, vec![Some(IpAddr::V4(A_170)), Some(IpAddr::V4(A_171))]);
    assert_eq!(IpAddr::V4(A_170).text(), "192.0.0.170");
    assert_eq!(IpAddr::V4(A_171).text(), "192.0.0.171");
    assert!(!resp.header.authentic_data);
}

#[test]
fn aaaa_without_dns64_is_nodata() {
    let q = build_query("ipv4only.arpa.", TYPE_AAAA);
    let resp = synth_response(&q, None, false);
    assert_eq!(resp.header.rcode, RCODE_NOERROR);
    assert!(resp.answers.is_empty());
}

#[test]
fn aaaa_with_dns64_synthesises() {
    let policy = Dns64Policy::default_wkp();
    let q = build_query("ipv4only.arpa.", TYPE_AAAA);
    let resp = synth_response(&q, Some(&policy), true);
    assert_eq!(resp.answers.len(), 2);
    let want_170 = IpAddr::parse("64:ff9b::c000:aa").unwrap();
    let want_171 = IpAddr::parse("64:ff9b::c000:ab").unwrap();
    let got: Vec<IpAddr> = resp.answers.iter().filter_map(|r| r.address()).collect();
    assert!(got.contains(&want_170));
    assert!(got.contains(&want_171));
    assert!(!resp.header.authentic_data);
}

#[test]
fn ptr_returns_ipv4only_arpa() {
    let q = build_query("170.0.0.192.in-addr.arpa.", TYPE_PTR);
    let resp = synth_response(&q, None, false);
    assert_eq!(resp.answers.len(), 1);
    let target = resp.answers[0].target(TYPE_PTR).expect("expected PTR");
    assert!(target.same_case(&n("ipv4only.arpa.")));
    assert!(!resp.header.authentic_data);
}
