use dnsd::name::Name;
use dnsd::net::IpAddr;
use dnsd::recursor::anchor::Dnskey;
use dnsd::recursor::cache::{fresh, rewrite_txid, CacheKey, DnsCache, Found};
use dnsd::recursor::iterative::make_addr_record;
use dnsd::recursor::reply::{new_header, new_message};
use dnsd::recursor::timed::{DnskeyCache, NegResolveCache, NEGATIVE_TTL_MS, NEG_RESOLVE_TTL_MS};
use dnsd::wire::{
    Message, Record, CLASS_IN, OPCODE_QUERY, RCODE_NXDOMAIN, RCODE_SERVFAIL, TYPE_A, TYPE_AAAA,
    TYPE_SOA,
};

fn name(s: &str) -> Name {
    Name::from_ascii(s).unwrap().0
}

fn build_positive() -> (Message, Vec<u8>) {
    let mut msg = new_message(new_header(0x1234, true, OPCODE_QUERY), vec![]);
    msg.answers.push(make_addr_record(
        &name("example.com."),
        300,
        IpAddr::parse("192.0.2.1").unwrap(),
    ));
    let bytes = msg.to_bytes().unwrap();
    (msg, bytes)
}

fn soa(owner: &str, ttl: u32, minimum: u32) -> Record {
    let mut rdata = vec![];
    for n in ["example.com.", "hostmaster.example.com."] {
        for l in &name(n).labels {
            rdata.push(l.len() as u8);
            rdata.extend_from_slice(l);
        }
        rdata.push(0);
    }
    for v in [1u32, 7200, 3600, 1_209_600, minimum] {
        rdata.extend_from_slice(&v.to_be_bytes());
    }
    Record { name: name(owner), rtype: TYPE_SOA, class: CLASS_IN, ttl, rdata }
}

#[test]
fn hit_miss_and_expiry() {
    let mut cache = DnsCache::new(100, 0, 3600, 60, 600);
    let (msg, bytes) = build_positive();
    let key = CacheKey::new(&name("example.com."), TYPE_A, CLASS_IN);
    assert!(cache.get(&key, 1_000).is_none());
    cache.put(&key, &msg, bytes.clone(), 1_000);
    let hit = cache.get(&key, 1_000).expect("hit");
    assert_eq!(hit, bytes);
    // Kept for its TTL and no longer.
    assert_eq!(cache.get(&key, 300_999), Some(bytes));
    assert!(cache.get(&key, 301_000).is_none());
}

#[test]
fn lookups_ignore_case_and_respect_the_type() {
    let mut cache = DnsCache::new(100, 0, 3600, 60, 600);
    let (msg, bytes) = build_positive();
    cache.put(&CacheKey::new(&name("Example.COM."), TYPE_A, CLASS_IN), &msg, bytes.clone(), 0);
    assert_eq!(cache.get(&CacheKey::new(&name("example.com."), TYPE_A, CLASS_IN), 1), Some(bytes));
    assert!(cache.get(&CacheKey::new(&name("example.com."), TYPE_AAAA, CLASS_IN), 1).is_none());
}

#[test]
fn txid_rewrite_preserves_rest() {
    let (_msg, mut bytes) = build_positive();
    let before = bytes[2..].to_vec();
    rewrite_txid(&mut bytes, 0xcafe);
    assert_eq!(&bytes[0..2], &[0xca, 0xfe]);
    assert_eq!(&bytes[2..], &before[..]);
}

#[test]
fn negative_ttl_capped_by_max_negative_ttl() {
    let cache = DnsCache::new(100, 0, 604_800, 3_600, 600);
    let mut msg = new_message(new_header(1, true, OPCODE_QUERY), vec![]);
    msg.authorities.push(soa("example.com.", 86_400, 86_400));
    let ttl = cache.limits.compute_ttl(&msg);
    assert_eq!(
        ttl, 600,
        "SOA MINIMUM of 86400 must be capped to max_negative_ttl=600, not max_ttl=604800"
    );
}

#[test]
fn servfail_not_cached() {
    let mut cache = DnsCache::new(100, 0, 3600, 60, 600);
    let mut msg = new_message(new_header(1, true, OPCODE_QUERY), vec![]);
    msg.header.rcode = RCODE_SERVFAIL;
    let bytes = msg.to_bytes().unwrap();
    let key = CacheKey::new(&name("sf.test."), TYPE_A, CLASS_IN);
    cache.put(&key, &msg, bytes, 0);
    assert!(cache.get(&key, 0).is_none());
}

#[test]
fn lifetimes_follow_every_rule() {
    let limits = DnsCache::new(100, 60, 3600, 90, 600).limits;
    let (mut msg, _) = build_positive();
    assert_eq!(limits.compute_ttl(&msg), 300);
    msg.answers[0].ttl = 10;
    assert_eq!(limits.compute_ttl(&msg), 60);
    msg.answers[0].ttl = 100_000;
    assert_eq!(limits.compute_ttl(&msg), 3600);
    // A name that does not exist is kept for the minimum of the zone's SOA record.
    let mut none = new_message(new_header(1, true, OPCODE_QUERY), vec![]);
    none.header.rcode = RCODE_NXDOMAIN;
    none.authorities.push(soa("example.com.", 200, 120));
    assert_eq!(limits.compute_ttl(&none), 120);
    // Without one the configured negative lifetime holds.
    let mut bare = new_message(new_header(1, true, OPCODE_QUERY), vec![]);
    bare.header.rcode = RCODE_NXDOMAIN;
    assert_eq!(limits.compute_ttl(&bare), 90);
    // The cap on negative replies holds over the lower bound on all replies too.
    let tight = DnsCache::new(100, 700, 3600, 90, 600).limits;
    assert_eq!(tight.compute_ttl(&none), 600);
    assert_eq!(tight.compute_ttl(&bare), 600);
    assert_eq!(tight.compute_ttl(&build_positive().0), 700);
}

#[test]
fn flush_forgets_everything() {
    let mut cache = DnsCache::new(100, 0, 3600, 60, 600);
    let (msg, bytes) = build_positive();
    let key = CacheKey::new(&name("example.com."), TYPE_A, CLASS_IN);
    cache.put(&key, &msg, bytes.clone(), 0);
    let lines = cache.dump(100_000);
    assert_eq!(lines.len(), 1);
    assert_eq!(lines[0].ttl_remaining_secs, 200);
    assert_eq!(lines[0].size_bytes, bytes.len());
    cache.flush();
    assert!(cache.get(&key, 0).is_none());
    assert!(cache.dump(0).is_empty());
}

#[test]
fn failed_lookups_are_remembered_for_a_while() {
    let mut neg = NegResolveCache::new();
    let n = name("ns1.example.");
    assert!(!neg.hit(&n, TYPE_A, 0));
    neg.insert(&n, TYPE_A, 0);
    assert!(neg.hit(&name("NS1.example."), TYPE_A, NEG_RESOLVE_TTL_MS - 1));
    assert!(!neg.hit(&n, TYPE_AAAA, 1));
    assert!(!neg.hit(&n, TYPE_A, NEG_RESOLVE_TTL_MS));
    neg.insert_with_ttl(&n, TYPE_A, 10, 1_000_000);
    assert!(neg.hit(&n, TYPE_A, 1_000_009));
    assert!(!neg.hit(&n, TYPE_A, 1_000_010));
}

#[test]
fn zone_keys_are_remembered_within_bounds() {
    let mut c = DnskeyCache::new();
    let z = name("example.");
    let key = Dnskey { flags: 257, algorithm: 13, public_key: vec![1, 2, 3] };
    assert!(c.get_positive(&z, 0).is_none());
    // A short lifetime is raised to a minute.
    c.put_positive(&z, vec![key.clone()], 1, 0);
    assert_eq!(c.get_positive(&z, 59_999).unwrap()[0].public_key, vec![1, 2, 3]);
    assert!(c.get_positive(&z, 60_000).is_none());
    // A long one is cut to a day.
    c.put_positive(&z, vec![key], 1_000_000, 0);
    assert!(c.get_positive(&z, 86_399_999).is_some());
    assert!(c.get_positive(&z, 86_400_000).is_none());
    c.invalidate_positive(&z);
    assert!(c.get_positive(&z, 0).is_none());
    assert!(!c.has_negative(&z, 0));
    c.put_negative(&z, 0);
    assert!(c.has_negative(&z, NEGATIVE_TTL_MS - 1));
    assert!(!c.has_negative(&z, NEGATIVE_TTL_MS));
}

#[test]
fn entries_count_until_their_time() {
    assert!(matches!(fresh(None, 5), Found::Nothing));
    assert!(matches!(fresh(Some((vec![1], 6)), 5), Found::Live(b) if b == vec![1]));
    assert!(matches!(fresh(Some((vec![1], 5)), 5), Found::Expired));
    let limits = DnsCache::new(100, 0, 3600, 60, 600).limits;
    let (mut msg, _) = build_positive();
    assert_eq!(limits.keep_until(&msg, 7), Some(300_007));
    assert_eq!(limits.keep_until(&msg, u64::MAX), Some(u64::MAX));
    msg.header.rcode = RCODE_SERVFAIL;
    assert_eq!(limits.keep_until(&msg, 7), None);
}

#[test]
fn every_live_entry_is_listed_once() {
    let mut cache = DnsCache::new(100, 0, 3600, 60, 600);
    let (msg, bytes) = build_positive();
    for n in ["a.example.", "b.example.", "c.example."] {
        cache.put(&CacheKey::new(&name(n), TYPE_A, CLASS_IN), &msg, bytes.clone(), 0);
    }
    assert_eq!(cache.entry_count(), 3);
    let mut keys: Vec<Vec<u8>> = cache.dump(0).iter().map(|l| l.key[0].clone()).collect();
    keys.sort();
    assert_eq!(keys, vec![b"a".to_vec(), b"b".to_vec(), b"c".to_vec()]);
    assert!(cache.dump(299_001).is_empty());
}

#[test]
fn a_cache_for_no_entries_keeps_none() {
    let mut cache = DnsCache::new(0, 0, 3600, 60, 600);
    let (msg, bytes) = build_positive();
    let key = CacheKey::new(&name("example.com."), TYPE_A, CLASS_IN);
    cache.put(&key, &msg, bytes, 0);
    assert!(cache.get(&key, 0).is_none());
    assert_eq!(cache.entry_count(), 0);
}

#[test]
fn a_reply_just_written_is_read_even_from_a_full_cache() {
    let mut cache = DnsCache::new(2, 0, 3600, 60, 600);
    let (msg, _) = build_positive();
    for i in 0..500u16 {
        let n = name(&format!("n{i}.example."));
        let key = CacheKey::new(&n, TYPE_A, CLASS_IN);
        cache.put(&key, &msg, i.to_be_bytes().to_vec(), 0);
        assert_eq!(cache.get(&key, 0), Some(i.to_be_bytes().to_vec()), "n{i}");
    }
    let key = CacheKey::new(&name("n0.example."), TYPE_A, CLASS_IN);
    for i in 0..500u16 {
        cache.put(&key, &msg, i.to_be_bytes().to_vec(), 0);
        assert_eq!(cache.get(&key, 0), Some(i.to_be_bytes().to_vec()), "again {i}");
    }
}

#[test]
fn what_is_put_in_a_table_leaves_the_rest() {
    let mut neg = NegResolveCache::new();
    neg.insert(&name("a."), TYPE_A, 0);
    neg.insert_with_ttl(&name("b."), TYPE_A, 50, 0);
    assert!(neg.hit(&name("a."), TYPE_A, 10));
    let mut c = DnskeyCache::new();
    let key = Dnskey { flags: 257, algorithm: 13, public_key: vec![1] };
    c.put_positive(&name("a."), vec![key.clone()], 60, 0);
    c.put_positive(&name("b."), vec![key], 60, 0);
    c.put_negative(&name("x."), 0);
    c.put_negative(&name("y."), 0);
    c.invalidate_positive(&name("a."));
    assert!(c.get_positive(&name("a."), 1).is_none());
    assert!(c.get_positive(&name("b."), 1).is_some());
    assert!(c.has_negative(&name("x."), 1) && c.has_negative(&name("y."), 1));
}
