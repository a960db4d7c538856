use dnsd::codec::{plain_bytes, read_name, read_query, read_record, record_bytes};
use dnsd::name::Name;
use dnsd::net::{read_be, sort_dedup, write_be, IpAddr};
use dnsd::recursor::iterative::make_addr_record;
use dnsd::recursor::reply::{
    build_dnskey_query, build_query, encode_query, lowercase_response_names, new_header, new_message,
    one_query, rewrite_query_name, rewrite_query_with_id, servfail, servfail_with_ede, EDNS_PAYLOAD,
};
use dnsd::wire::{
    Edns, Message, Record, CLASS_IN, OPCODE_QUERY, RCODE_SERVFAIL, TYPE_A, TYPE_AAAA, TYPE_DNSKEY, TYPE_PTR,
    TYPE_SOA,
};

fn n(s: &str) -> Name {
    Name::from_ascii(s).unwrap().0
}

fn ip(s: &str) -> IpAddr {
    IpAddr::parse(s).unwrap()
}

#[test]
fn lowercases_question_and_answer() {
    let mut m = new_message(new_header(1, true, OPCODE_QUERY), one_query(&n("CnN.COm."), TYPE_A, CLASS_IN));
    m.answers.push(make_addr_record(&n("CnN.COm."), 60, ip("1.2.3.4")));
    lowercase_response_names(&mut m);
    assert_eq!(m.queries[0].name.text(), "cnn.com.");
    assert_eq!(m.answers[0].name.text(), "cnn.com.");
    let before = m.clone();
    lowercase_response_names(&mut m);
    assert!(m.answers[0].name.same_case(&before.answers[0].name));
}

#[test]
fn messages_survive_the_wire() {
    let mut m = new_message(
        new_header(0xbeef, true, OPCODE_QUERY),
        one_query(&n("www.example.com."), TYPE_A, CLASS_IN),
    );
    m.header.recursion_desired = true;
    m.header.checking_disabled = true;
    m.answers.push(make_addr_record(&n("www.example.com."), 60, ip("192.0.2.1")));
    m.answers.push(make_addr_record(&n("www.example.com."), 61, ip("2001:db8::1")));
    m.edns = Some(Edns { max_payload: 1232, version: 0, flags: 0x8000, options: vec![] });
    let bytes = m.to_bytes().unwrap();
    assert!(bytes.len() < plain_bytes(&m).unwrap().len(), "owner names are compressed");
    let back = Message::from_bytes(&bytes).unwrap();
    assert_eq!(back.header, m.header);
    assert_eq!(back.queries.len(), 1);
    assert!(back.queries[0].name.same_case(&n("www.example.com.")));
    assert_eq!(back.answers.len(), 2);
    assert_eq!(back.answers[1].address(), Some(ip("2001:db8::1")));
    assert_eq!(back.answers[1].ttl, 61);
    assert_eq!(back.answers[1].rtype, TYPE_AAAA);
    let e = back.edns.unwrap();
    assert_eq!(e.max_payload, 1232);
    assert_eq!(e.flags & 0x8000, 0x8000);
}

#[test]
fn compressed_rdata_is_spelled_out() {
    // One question, one SOA answer whose names point into the message.
    let mut b = vec![0, 7, 0x81, 0x80, 0, 1, 0, 1, 0, 0, 0, 0];
    b.extend_from_slice(b"\x07example\x00\x00\x06\x00\x01");
    b.extend_from_slice(b"\xc0\x0c\x00\x06\x00\x01\x00\x00\x00\x3c\x00\x1b");
    b.extend_from_slice(b"\x02ns\xc0\x0c\xc0\x0c");
    b.extend_from_slice(&[0u8; 20]);
    let m = Message::from_bytes(&b).unwrap();
    assert_eq!(m.answers[0].rtype, TYPE_SOA);
    assert_eq!(&m.answers[0].rdata[..21], b"\x02ns\x07example\x00\x07example\x00");
    assert_eq!(m.answers[0].rdata.len(), 41);
}

#[test]
fn junk_is_not_a_message() {
    assert!(Message::from_bytes(&[]).is_none());
    assert!(Message::from_bytes(&[0; 11]).is_none());
    assert!(Message::from_bytes(&[0, 1, 0, 0, 0, 1, 0, 0, 0, 0, 0, 0]).is_none());
    assert!(Message::from_bytes(&[0; 12]).is_some());
}

#[test]
fn records_and_questions_read_back() {
    let r = make_addr_record(&n("a.b."), 9, ip("192.0.2.1"));
    let b = record_bytes(&r);
    assert_eq!(b, b"\x01a\x01b\x00\x00\x01\x00\x01\x00\x00\x00\x09\x00\x04\xc0\x00\x02\x01");
    let back = read_record(&b).unwrap();
    assert!(back.name.same_case(&r.name));
    assert_eq!(back.rdata, r.rdata);
    assert_eq!(read_query(b"\x01a\x00\x00\x1c\x00\x01").unwrap().qtype, TYPE_AAAA);
    assert!(read_query(b"\x01a\x00\x00").is_none());
    assert!(read_name(b"\x05ab", 0).is_none());
    assert_eq!(read_name(b"\x01a\x00", 0).unwrap().1, 3);
}

#[test]
fn names_are_read_and_printed() {
    let name = n("WWW.Example.com.");
    assert_eq!(name.num_labels(), 3);
    assert_eq!(name.text(), "WWW.Example.com.");
    assert_eq!(name.to_ascii().as_deref(), Some("WWW.Example.com."));
    assert_eq!(name.to_lowercase().text(), "www.example.com.");
    assert!(n("example.com.").zone_of(&name));
    assert!(!name.zone_of(&n("example.com.")));
    assert!(name.base_name().same(&n("example.com.")));
    assert!(name.trim_to(1).same(&n("com.")));
    assert!(n("a.").prepend(b"*").is_wildcard());
    assert!(Name::from_ascii("a..b.").is_none());
    assert_eq!(Name::from_ascii("example.com").map(|p| p.1), Some(false));
    assert_eq!(Name::from_ascii("example.com.").map(|p| p.1), Some(true));
    assert_eq!(n(".").text(), ".");
}

#[test]
fn addresses_are_read_and_printed() {
    for a in ["192.0.2.1", "0.0.0.0", "255.255.255.255", "2001:db8::1", "::", "64:ff9b::c000:221"] {
        assert_eq!(ip(a).text(), a);
    }
    assert!(IpAddr::parse("192.0.2").is_none());
    assert!(IpAddr::parse("192.0.2.256").is_none());
    assert!(IpAddr::parse("example").is_none());
    assert_eq!(ip("192.0.2.1"), IpAddr::V4(0xc000_0201));
    assert_eq!(ip("::1"), IpAddr::V6(1));
}

#[test]
fn address_lists_are_sorted_once_each() {
    let v = vec![ip("2001:db8::1"), ip("192.0.2.9"), ip("192.0.2.1"), ip("192.0.2.9")];
    assert_eq!(sort_dedup(&v), vec![ip("192.0.2.1"), ip("192.0.2.9"), ip("2001:db8::1")]);
    assert_eq!(read_be(&[1, 2]), 258);
    assert_eq!(write_be(258, 4), vec![0, 0, 1, 2]);
}

#[test]
fn outgoing_queries_ask_for_signatures() {
    let b = encode_query(0x1111, &n("example.com."), TYPE_A, CLASS_IN, true).unwrap();
    let m = Message::from_bytes(&b).unwrap();
    assert_eq!(m.header.id, 0x1111);
    assert!(!m.header.recursion_desired);
    let e = m.edns.unwrap();
    assert_eq!(e.max_payload, EDNS_PAYLOAD);
    assert_eq!(e.flags & 0x8000, 0x8000);
    let plain = encode_query(0x1111, &n("example.com."), TYPE_A, CLASS_IN, false).unwrap();
    let flags = Message::from_bytes(&plain).unwrap().edns.map(|e| e.flags & 0x8000).unwrap_or(0);
    assert_eq!(flags, 0);
    let k = Message::from_bytes(&build_dnskey_query(&n("example.com.")).unwrap()).unwrap();
    assert_eq!(k.queries[0].qtype, TYPE_DNSKEY);
}

#[test]
fn query_ids_are_random() {
    let first = build_query(&n("a."), TYPE_A, CLASS_IN, false).unwrap()[..2].to_vec();
    assert!((0..64).any(|_| build_query(&n("a."), TYPE_A, CLASS_IN, false).unwrap()[..2] != first[..]));
}

#[test]
fn questions_can_be_renamed() {
    let q = new_message(new_header(3, false, OPCODE_QUERY), one_query(&n("a."), TYPE_AAAA, CLASS_IN));
    let r = rewrite_query_with_id(9, &q, &n("b."));
    assert_eq!(r.header.id, 9);
    assert!(r.queries[0].name.same(&n("b.")));
    assert_eq!(r.queries[0].qtype, TYPE_PTR);
    assert!(rewrite_query_name(&q, &n("c.")).queries[0].name.same(&n("c.")));
}

#[test]
fn failures_name_their_reason() {
    let mut q = new_message(new_header(3, false, OPCODE_QUERY), one_query(&n("a."), TYPE_A, CLASS_IN));
    q.edns = Some(Edns { max_payload: 1232, version: 0, flags: 0, options: vec![] });
    let plain = Message::from_bytes(&servfail(&q)).unwrap();
    assert_eq!(plain.header.rcode, RCODE_SERVFAIL);
    assert_eq!(plain.header.id, 3);
    let m = Message::from_bytes(&servfail_with_ede(&q, 6, "bad")).unwrap();
    assert_eq!(m.header.rcode, RCODE_SERVFAIL);
    let options = m.edns.unwrap().options;
    assert_eq!(options, vec![0, 15, 0, 5, 0, 6, b'b', b'a', b'd']);
}

#[test]
fn signatures_survive_the_wire() {
    let mut rdata = b"\x0bhmac-sha256\x00".to_vec();
    rdata.extend_from_slice(&[0, 0, 0x65, 0, 0, 0, 1, 44, 0, 4, 9, 8, 7, 6, 0, 3, 0, 0, 0, 0]);
    let mut m = new_message(
        new_header(3, true, OPCODE_QUERY),
        one_query(&n("www.example.com."), TYPE_A, CLASS_IN),
    );
    m.edns = Some(Edns { max_payload: 1232, version: 0, flags: 0, options: vec![] });
    m.additionals.push(make_addr_record(&n("ns.example.com."), 60, ip("192.0.2.1")));
    m.signature = Some(Record {
        name: n("key.example.com."),
        rtype: 250,
        class: 255,
        ttl: 0,
        rdata: rdata.clone(),
    });
    let back = Message::from_bytes(&m.to_bytes().unwrap()).unwrap();
    let sig = back.signature.as_ref().expect("signature");
    assert_eq!(sig.rtype, 250);
    assert_eq!(sig.rdata, rdata);
    assert!(sig.name.same(&n("key.example.com.")));
    assert_eq!(back.additionals.len(), 1);
    assert!(back.edns.is_some());
    let again = Message::from_bytes(&back.clone().to_bytes().unwrap()).unwrap();
    assert!(again.signature.is_some());
}
