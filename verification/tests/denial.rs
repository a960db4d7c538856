use dnsd::name::Name;
use dnsd::recursor::crypto::nsec3_hash;
use dnsd::recursor::denial::{prove_denial_nsec, prove_denial_nsec3, validate_denial};
use dnsd::recursor::dnssec::ValidationStatus;
use dnsd::recursor::reply::{new_header, new_message};
use dnsd::wire::{
    Record, CLASS_IN, OPCODE_QUERY, RCODE_NOERROR, RCODE_NXDOMAIN, RCODE_SERVFAIL, TYPE_A, TYPE_AAAA,
    TYPE_NSEC, TYPE_NSEC3,
};

fn n(s: &str) -> Name {
    Name::from_ascii(s).unwrap().0
}

fn wire(name: &Name) -> Vec<u8> {
    let mut v = vec![];
    for l in &name.labels {
        v.push(l.len() as u8);
        v.extend_from_slice(l);
    }
    v.push(0);
    v
}

// One window, of one byte: types 1 (A) to 7.
fn nsec(owner: &str, next: &str, bits: u8) -> Vec<Record> {
    let mut rdata = wire(&n(next));
    rdata.extend_from_slice(&[0, 1, bits]);
    vec![Record { name: n(owner), rtype: TYPE_NSEC, class: CLASS_IN, ttl: 60, rdata }]
}

const ONLY_A: u8 = 0x40;

#[test]
fn nsec_at_the_name_denies_other_types() {
    let sets = vec![nsec("www.example.", "z.example.", ONLY_A)];
    let q = n("WWW.example.");
    assert!(matches!(
        prove_denial_nsec(&sets, &q, TYPE_AAAA, RCODE_NOERROR),
        ValidationStatus::Secure
    ));
    assert!(matches!(
        prove_denial_nsec(&sets, &q, TYPE_A, RCODE_NOERROR),
        ValidationStatus::Bogus(_)
    ));
    assert!(matches!(
        prove_denial_nsec(&sets, &n("other.example."), TYPE_A, RCODE_NOERROR),
        ValidationStatus::Insecure
    ));
    assert!(matches!(
        prove_denial_nsec(&sets, &q, TYPE_A, RCODE_SERVFAIL),
        ValidationStatus::Insecure
    ));
}

#[test]
fn nsec_denies_a_name_and_its_wildcard() {
    let name = n("b.example.");
    let both = vec![
        nsec("a.example.", "c.example.", ONLY_A),
        nsec("example.", "a.example.", ONLY_A),
    ];
    let s = prove_denial_nsec(&both, &name, TYPE_A, RCODE_NXDOMAIN);
    assert!(matches!(s, ValidationStatus::Secure), "{s:?}");
    let one = vec![nsec("c.example.", "d.example.", ONLY_A)];
    let s = prove_denial_nsec(&one, &name, TYPE_A, RCODE_NXDOMAIN);
    match s {
        ValidationStatus::Bogus(why) => {
            assert!(why.contains("NSEC NXDOMAIN proof incomplete for b.example."), "{why}");
            assert!(why.contains("name_cover=false"), "{why}");
        }
        other => panic!("expected bogus, got {other:?}"),
    }
}

// An interval that ends right behind `upto`.
fn nsec3(owner_hash: &[u8], next: &[u8], bits: u8) -> Vec<Record> {
    let label = data_encoding::BASE32HEX_NOPAD.encode(owner_hash).to_lowercase();
    let owner = n("example.").prepend(label.as_bytes());
    let mut rdata = vec![1, 0, 0, 0, 0, next.len() as u8];
    rdata.extend_from_slice(next);
    rdata.extend_from_slice(&[0, 1, bits]);
    vec![Record { name: owner, rtype: TYPE_NSEC3, class: CLASS_IN, ttl: 60, rdata }]
}

fn hash(s: &str) -> Vec<u8> {
    nsec3_hash(&[], &n(s), 0).unwrap()
}

fn below(h: &[u8]) -> Vec<u8> {
    let mut v = h.to_vec();
    let last = v.len() - 1;
    v[last] = v[last].wrapping_sub(1);
    v
}

fn above(h: &[u8]) -> Vec<u8> {
    let mut v = h.to_vec();
    let last = v.len() - 1;
    v[last] = v[last].wrapping_add(1);
    v
}

#[test]
fn nsec3_at_the_name_denies_other_types() {
    let h = hash("www.example.");
    let sets = vec![nsec3(&h, &above(&h), ONLY_A)];
    let q = n("www.example.");
    let s = prove_denial_nsec3(&sets, &q, TYPE_AAAA, RCODE_NOERROR);
    assert!(matches!(s, ValidationStatus::Secure), "{s:?}");
    let s = prove_denial_nsec3(&sets, &q, TYPE_A, RCODE_NOERROR);
    assert!(matches!(s, ValidationStatus::Bogus(_)), "{s:?}");
}

#[test]
fn nsec3_denies_a_name_by_its_encloser() {
    let enc = hash("example.");
    let next_closer = hash("b.example.");
    let wild = hash("*.example.");
    let q = n("b.example.");
    let sets = vec![
        nsec3(&enc, &above(&enc), ONLY_A),
        nsec3(&below(&next_closer), &above(&next_closer), ONLY_A),
        nsec3(&below(&wild), &above(&wild), ONLY_A),
    ];
    let s = prove_denial_nsec3(&sets, &q, TYPE_A, RCODE_NXDOMAIN);
    assert!(matches!(s, ValidationStatus::Secure), "{s:?}");
    let short = vec![nsec3(&enc, &above(&enc), ONLY_A)];
    let s = prove_denial_nsec3(&short, &q, TYPE_A, RCODE_NXDOMAIN);
    assert!(!matches!(s, ValidationStatus::Secure), "{s:?}");
}

#[test]
fn unsigned_denials_are_not_secure() {
    let mut m = new_message(new_header(1, true, OPCODE_QUERY), vec![]);
    let q = n("www.example.");
    let s = validate_denial(&m, &vec![], &q, TYPE_AAAA, 0);
    assert!(matches!(s, ValidationStatus::Insecure));
    m.authorities = nsec("www.example.", "z.example.", ONLY_A);
    match validate_denial(&m, &vec![], &q, TYPE_AAAA, 0) {
        ValidationStatus::Bogus(why) => {
            assert_eq!(why, "denial RRset at www.example. has no RRSIG")
        }
        other => panic!("expected bogus, got {other:?}"),
    }
}
