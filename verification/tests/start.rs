use dnsd::name::Name;
use dnsd::net::IpAddr;
use dnsd::recursor::cache::{CacheKey, DnsCache};
use dnsd::recursor::iterative::make_addr_record;
use dnsd::recursor::reply::{new_header, new_message};
use dnsd::recursor::start::{closest_known, kept_addresses, look_up_reply};
use dnsd::wire::{Record, CLASS_IN, OPCODE_QUERY, TYPE_A, TYPE_AAAA, TYPE_NS};

fn n(s: &str) -> Name {
    Name::from_ascii(s).unwrap().0
}

fn ip(s: &str) -> IpAddr {
    IpAddr::parse(s).unwrap()
}

fn ns(zone: &str, target: &str, ttl: u32) -> Record {
    let mut rdata = vec![];
    for l in &n(target).labels {
        rdata.push(l.len() as u8);
        rdata.extend_from_slice(l);
    }
    rdata.push(0);
    Record { name: n(zone), rtype: TYPE_NS, class: CLASS_IN, ttl, rdata }
}

fn keep(cache: &mut DnsCache, owner: &str, rtype: u16, answers: Vec<Record>) {
    let mut m = new_message(new_header(0, true, OPCODE_QUERY), vec![]);
    m.answers = answers;
    let bytes = m.to_bytes().unwrap();
    cache.put(&CacheKey::new(&n(owner), rtype, CLASS_IN), &m, bytes, 0);
}

fn keep_ip(cache: &mut DnsCache, owner: &str, addr: &str, ttl: u32) {
    let a = ip(addr);
    let rtype = if matches!(a, IpAddr::V4(_)) { TYPE_A } else { TYPE_AAAA };
    keep(cache, owner, rtype, vec![make_addr_record(&n(owner), ttl, a)]);
}

#[test]
fn walks_start_at_the_closest_kept_zone() {
    let mut cache = DnsCache::new(100, 0, 86400, 60, 600);
    let start = |cache: &mut DnsCache, ipv6: bool, now: u64| {
        closest_known(cache, &n("www.example.com."), CLASS_IN, ipv6, now)
            .map(|(zone, ips)| (zone.text(), ips))
    };
    assert_eq!(start(&mut cache, true, 1), None);
    keep(&mut cache, "com.", TYPE_NS, vec![
        ns("com.", "b.gtld.net.", 600),
        ns("com.", "A.gtld.net.", 600),
        ns("com.", "c.gtld.net.", 600),
    ]);
    assert_eq!(start(&mut cache, true, 1), None, "servers without an address are of no use");
    keep_ip(&mut cache, "a.gtld.net.", "192.0.2.9", 300);
    keep_ip(&mut cache, "b.gtld.net.", "192.0.2.1", 300);
    keep_ip(&mut cache, "b.gtld.net.", "2001:db8::1", 300);
    let com = Some(("com.".to_string(), vec![ip("192.0.2.1"), ip("192.0.2.9")]));
    assert_eq!(start(&mut cache, false, 1), com);
    let both = vec![ip("192.0.2.1"), ip("192.0.2.9"), ip("2001:db8::1")];
    assert_eq!(start(&mut cache, true, 1), Some(("com.".to_string(), both)));
    // A closer zone is passed over until an address of its servers is kept.
    keep(&mut cache, "example.com.", TYPE_NS, vec![ns("example.com.", "ns.example.com.", 600)]);
    assert_eq!(start(&mut cache, false, 1), com);
    keep_ip(&mut cache, "ns.example.com.", "192.0.2.53", 100);
    let own = Some(("example.com.".to_string(), vec![ip("192.0.2.53")]));
    assert_eq!(start(&mut cache, false, 1), own);
    // The servers of the name itself are not asked about it.
    keep(&mut cache, "www.example.com.", TYPE_NS, vec![
        ns("www.example.com.", "ns.example.com.", 600),
    ]);
    assert_eq!(start(&mut cache, false, 1), own);
    // What has expired no longer counts.
    assert_eq!(start(&mut cache, false, 100_000), com);
    assert_eq!(start(&mut cache, false, 300_000), None);
}

#[test]
fn kept_addresses_come_by_family() {
    let mut cache = DnsCache::new(100, 0, 86400, 60, 600);
    keep_ip(&mut cache, "ns.example.", "2001:db8::1", 300);
    keep_ip(&mut cache, "ns.example.", "192.0.2.1", 300);
    let name = n("NS.example.");
    assert_eq!(kept_addresses(&mut cache, &name, false, 1), vec![ip("192.0.2.1")]);
    assert_eq!(
        kept_addresses(&mut cache, &name, true, 1),
        vec![ip("192.0.2.1"), ip("2001:db8::1")]
    );
    assert!(kept_addresses(&mut cache, &n("other.example."), true, 1).is_empty());
    assert_eq!(look_up_reply(&mut cache, &name, TYPE_A, CLASS_IN, 1).unwrap().answers.len(), 1);
    assert!(look_up_reply(&mut cache, &name, TYPE_NS, CLASS_IN, 1).is_none());
}
