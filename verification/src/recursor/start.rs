//! Where a walk starts: at the closest zone above the name whose servers, with an address
//! of theirs, are in the cache.

use crate::codec::decoded;
use crate::name::{lower, Labels, Name};
use crate::net::{ips_sorted, sort_dedup, IpAddr};
use crate::recursor::cache::{key_parts, CacheKey, DnsCache};
use crate::recursor::walk::{
    addresses_in, cached_ns_ips, names_v, ns_targets, server_names, start_candidates, start_zones,
};
use crate::wire::{Message, MessageV, CLASS_IN, TYPE_A, TYPE_AAAA, TYPE_NS};
use vstd::prelude::*;

verus! {

/// Kept replies by key, each with the time at which it expires.
pub type Replies = Map<Seq<Seq<u8>>, (Seq<u8>, u64)>;

/// The reply that is kept for a question, where it has not expired and can be read.
pub open spec fn kept_reply(m: Replies, name: Labels, rtype: u16, class: u16, now: u64) -> Option<
    MessageV,
> {
    let k = key_parts(lower(name), rtype, class);
    if m.contains_key(k) && now < m[k].1 {
        decoded(m[k].0)
    } else {
        None
    }
}

/// The addresses of one family that are kept for a server.
pub open spec fn kept_family(m: Replies, name: Labels, rtype: u16, now: u64) -> Seq<IpAddr> {
    match kept_reply(m, name, rtype, CLASS_IN, now) {
        Some(reply) => addresses_in(reply.answers, rtype),
        None => Seq::empty(),
    }
}

/// Whether an address is kept for a server: IPv6 counts only where it is used upstream.
pub open spec fn keeps_address(m: Replies, name: Labels, ipv6: bool, now: u64, ip: IpAddr) -> bool {
    ||| kept_family(m, name, TYPE_A, now).contains(ip)
    ||| ipv6 && kept_family(m, name, TYPE_AAAA, now).contains(ip)
}

/// Whether an address is kept for some server of a zone whose servers are kept.
pub open spec fn serves(
    m: Replies,
    zone: Labels,
    class: u16,
    ipv6: bool,
    now: u64,
    ip: IpAddr,
) -> bool {
    match kept_reply(m, zone, TYPE_NS, class, now) {
        Some(reply) => exists|i: int|
            0 <= i < ns_targets(reply.answers).len() && keeps_address(
                m,
                #[trigger] ns_targets(reply.answers)[i],
                ipv6,
                now,
                ip,
            ),
        None => false,
    }
}

/// No address is kept for a server of the zone.
pub open spec fn unserved(m: Replies, zone: Labels, class: u16, ipv6: bool, now: u64) -> bool {
    forall|ip: IpAddr| !#[trigger] serves(m, zone, class, ipv6, now, ip)
}

/// Where a walk starts, for a cache that held `before` and holds `after`: at the first of
/// the zones whose servers have a kept address, with those addresses, in order and
/// each once. A cache may forget while it is asked. So of the zones passed over no address
/// is kept afterwards, and the addresses are those kept afterwards and perhaps some that were
/// kept before.
pub open spec fn starts(
    r: Option<(Labels, Seq<IpAddr>)>,
    before: Replies,
    after: Replies,
    zones: Seq<Labels>,
    class: u16,
    ipv6: bool,
    now: u64,
) -> bool {
    match r {
        None => forall|j: int|
            0 <= j < zones.len() ==> unserved(after, #[trigger] zones[j], class, ipv6, now),
        Some((zone, ips)) => exists|j: int|
            {
                &&& 0 <= j < zones.len()
                &&& #[trigger] zones[j] == zone
                &&& ips.len() > 0
                &&& ips_sorted(ips)
                &&& forall|ip: IpAddr| #[trigger]
                    ips.contains(ip) ==> serves(before, zone, class, ipv6, now, ip)
                &&& forall|ip: IpAddr| #[trigger]
                    serves(after, zone, class, ipv6, now, ip) ==> ips.contains(ip)
                &&& forall|i: int|
                    0 <= i < j ==> unserved(after, #[trigger] zones[i], class, ipv6, now)
            },
    }
}

proof fn lemma_sum_contains(a: Seq<IpAddr>, b: Seq<IpAddr>, x: IpAddr)
    ensures
        (a + b).contains(x) <==> a.contains(x) || b.contains(x),
{
    if a.contains(x) {
        let i = choose|i: int| 0 <= i < a.len() && a[i] == x;
        assert((a + b)[i] == x);
    }
    if b.contains(x) {
        let i = choose|i: int| 0 <= i < b.len() && b[i] == x;
        assert((a + b)[a.len() + i] == x);
    }
    if (a + b).contains(x) {
        let i = choose|i: int| 0 <= i < (a + b).len() && (a + b)[i] == x;
        if i < a.len() {
            assert(a[i] == x);
        } else {
            assert(b[i - a.len()] == x);
        }
    }
}

// A smaller map keeps a reply as it is, or not at all.
proof fn lemma_reply_shrinks(
    a: Replies,
    b: Replies,
    name: Labels,
    rtype: u16,
    class: u16,
    now: u64,
)
    requires
        a.submap_of(b),
    ensures
        kept_reply(a, name, rtype, class, now) is None || kept_reply(a, name, rtype, class, now)
            == kept_reply(b, name, rtype, class, now),
{
    let k = key_parts(lower(name), rtype, class);
    if a.contains_key(k) {
        assert(b.contains_key(k) && a[k] == b[k]);
    }
}

proof fn lemma_address_shrinks(
    a: Replies,
    b: Replies,
    name: Labels,
    ipv6: bool,
    now: u64,
    ip: IpAddr,
)
    requires
        a.submap_of(b),
        keeps_address(a, name, ipv6, now, ip),
    ensures
        keeps_address(b, name, ipv6, now, ip),
{
    lemma_reply_shrinks(a, b, name, TYPE_A, CLASS_IN, now);
    lemma_reply_shrinks(a, b, name, TYPE_AAAA, CLASS_IN, now);
}

proof fn lemma_serves_shrinks(
    a: Replies,
    b: Replies,
    zone: Labels,
    class: u16,
    ipv6: bool,
    now: u64,
    ip: IpAddr,
)
    requires
        a.submap_of(b),
        serves(a, zone, class, ipv6, now, ip),
    ensures
        serves(b, zone, class, ipv6, now, ip),
{
    lemma_reply_shrinks(a, b, zone, TYPE_NS, class, now);
    let targets = ns_targets(kept_reply(a, zone, TYPE_NS, class, now)->0.answers);
    let i = choose|i: int|
        0 <= i < targets.len() && keeps_address(a, #[trigger] targets[i], ipv6, now, ip);
    lemma_address_shrinks(a, b, targets[i], ipv6, now, ip);
}

/// The reply kept for a question, where it has not expired and can be read.
pub fn look_up_reply(cache: &mut DnsCache, name: &Name, rtype: u16, class: u16, now: u64) -> (r:
    Option<Message>)
    ensures
        final(cache).limits == old(cache).limits,
        final(cache).capacity() == old(cache).capacity(),
        final(cache).entries().submap_of(old(cache).entries()),
        kept_reply(old(cache).entries(), name@, rtype, class, now) == (match r {
            Some(m) => Some(m@),
            None => None,
        }),
{
    match cache.get(&CacheKey::new(name, rtype, class), now) {
        Some(bytes) => Message::from_bytes(bytes.as_slice()),
        None => None,
    }
}

/// The addresses kept for a server: IPv4 first, and IPv6 where it is used upstream. The two
/// are looked up one after the other, and the cache may forget in between.
pub fn kept_addresses(cache: &mut DnsCache, name: &Name, ipv6: bool, now: u64) -> (r: Vec<IpAddr>)
    ensures
        final(cache).limits == old(cache).limits,
        final(cache).capacity() == old(cache).capacity(),
        final(cache).entries().submap_of(old(cache).entries()),
        exists|mid: Replies| #[trigger]
            mid.submap_of(old(cache).entries()) && final(cache).entries().submap_of(mid) && r@
                == kept_family(old(cache).entries(), name@, TYPE_A, now) + (if ipv6 {
                kept_family(mid, name@, TYPE_AAAA, now)
            } else {
                Seq::empty()
            }),
{
    let ghost before = cache.entries();
    let a = look_up_reply(cache, name, TYPE_A, CLASS_IN, now);
    let ghost mid = cache.entries();
    let aaaa = if ipv6 {
        look_up_reply(cache, name, TYPE_AAAA, CLASS_IN, now)
    } else {
        None
    };
    proof {
        assert(mid.submap_of(before));
        vstd::map_lib::lemma_submap_of_trans(cache.entries(), mid, before);
    }
    cached_ns_ips(a.as_ref(), aaaa.as_ref(), ipv6)
}

/// The addresses kept for the servers of a zone, where the cache knows them.
fn zone_addresses(cache: &mut DnsCache, zone: &Name, class: u16, ipv6: bool, now: u64) -> (r: Vec<
    IpAddr,
>)
    ensures
        final(cache).limits == old(cache).limits,
        final(cache).capacity() == old(cache).capacity(),
        final(cache).entries().submap_of(old(cache).entries()),
        forall|ip: IpAddr| #[trigger]
            r@.contains(ip) ==> serves(old(cache).entries(), zone@, class, ipv6, now, ip),
        forall|ip: IpAddr| #[trigger]
            serves(final(cache).entries(), zone@, class, ipv6, now, ip) ==> r@.contains(ip),
{
    let ghost before = cache.entries();
    let reply = match look_up_reply(cache, zone, TYPE_NS, class, now) {
        Some(m) => m,
        None => {
            proof {
                lemma_reply_shrinks(cache.entries(), before, zone@, TYPE_NS, class, now);
            }
            return Vec::new();
        },
    };
    let names = server_names(&reply.answers);
    let ghost targets = ns_targets(reply@.answers);
    let mut out: Vec<IpAddr> = Vec::new();
    let mut i: usize = 0;
    while i < names.len()
        invariant
            i <= names@.len(),
            names_v(names@) == targets,
            targets == ns_targets(reply@.answers),
            kept_reply(before, zone@, TYPE_NS, class, now) == Some(reply@),
            cache.limits == old(cache).limits,
            cache.capacity() == old(cache).capacity(),
            cache.entries().submap_of(before),
            forall|ip: IpAddr| #[trigger]
                out@.contains(ip) ==> serves(before, zone@, class, ipv6, now, ip),
            forall|ip: IpAddr, j: int|
                0 <= j < i && #[trigger] keeps_address(
                    cache.entries(),
                    targets[j],
                    ipv6,
                    now,
                    ip,
                ) ==> out@.contains(ip),
        decreases names@.len() - i,
    {
        let ghost had = out@;
        let ghost start = cache.entries();
        assert(targets[i as int] == names@[i as int]@);
        let mut more = kept_addresses(cache, &names[i], ipv6, now);
        let ghost found = more@;
        out.append(&mut more);
        proof {
            let end = cache.entries();
            let name = targets[i as int];
            vstd::map_lib::lemma_submap_of_trans(end, start, before);
            let mid = choose|mid: Replies| #[trigger]
                mid.submap_of(start) && end.submap_of(mid) && found == kept_family(
                    start,
                    name,
                    TYPE_A,
                    now,
                ) + (if ipv6 {
                    kept_family(mid, name, TYPE_AAAA, now)
                } else {
                    Seq::empty()
                });
            let six = if ipv6 {
                kept_family(mid, name, TYPE_AAAA, now)
            } else {
                Seq::empty()
            };
            lemma_reply_shrinks(mid, start, name, TYPE_AAAA, CLASS_IN, now);
            lemma_reply_shrinks(end, mid, name, TYPE_AAAA, CLASS_IN, now);
            lemma_reply_shrinks(end, start, name, TYPE_A, CLASS_IN, now);
            assert forall|ip: IpAddr| #[trigger] out@.contains(ip) implies serves(
                before,
                zone@,
                class,
                ipv6,
                now,
                ip,
            ) by {
                lemma_sum_contains(had, found, ip);
                lemma_sum_contains(kept_family(start, name, TYPE_A, now), six, ip);
                if !had.contains(ip) {
                    assert(keeps_address(start, name, ipv6, now, ip));
                    lemma_address_shrinks(start, before, name, ipv6, now, ip);
                    assert(keeps_address(before, targets[i as int], ipv6, now, ip));
                }
            }
            assert forall|ip: IpAddr, j: int|
                0 <= j < i + 1 && #[trigger] keeps_address(end, targets[j], ipv6, now, ip) implies out@.contains(
                ip,
            ) by {
                lemma_sum_contains(had, found, ip);
                lemma_sum_contains(kept_family(start, name, TYPE_A, now), six, ip);
                if j < i {
                    lemma_address_shrinks(end, start, targets[j], ipv6, now, ip);
                }
            }
        }
        i += 1;
    }
    proof {
        lemma_reply_shrinks(cache.entries(), before, zone@, TYPE_NS, class, now);
    }
    out
}

/// Where a walk for `qname` can start, going by the cache.
pub fn closest_known(cache: &mut DnsCache, qname: &Name, class: u16, ipv6: bool, now: u64) -> (r:
    Option<(Name, Vec<IpAddr>)>)
    ensures
        final(cache).limits == old(cache).limits,
        final(cache).capacity() == old(cache).capacity(),
        final(cache).entries().submap_of(old(cache).entries()),
        starts(
            match r {
                Some((zone, ips)) => Some((zone@, ips@)),
                None => None,
            },
            old(cache).entries(),
            final(cache).entries(),
            start_zones(qname@),
            class,
            ipv6,
            now,
        ),
{
    let zones = start_candidates(qname);
    let ghost before = cache.entries();
    let ghost zv = start_zones(qname@);
    let mut i: usize = 0;
    while i < zones.len()
        invariant
            i <= zones@.len(),
            zv == names_v(zones@),
            zv == start_zones(qname@),
            before == old(cache).entries(),
            cache.limits == old(cache).limits,
            cache.capacity() == old(cache).capacity(),
            cache.entries().submap_of(before),
            forall|j: int|
                0 <= j < i ==> unserved(cache.entries(), #[trigger] zv[j], class, ipv6, now),
        decreases zones@.len() - i,
    {
        let ghost start = cache.entries();
        assert(zv[i as int] == zones@[i as int]@);
        let found = zone_addresses(cache, &zones[i], class, ipv6, now);
        let ips = sort_dedup(&found);
        proof {
            let end = cache.entries();
            vstd::map_lib::lemma_submap_of_trans(end, start, before);
            assert forall|j: int| 0 <= j < i implies unserved(
                end,
                #[trigger] zv[j],
                class,
                ipv6,
                now,
            ) by {
                assert forall|ip: IpAddr| !serves(end, zv[j], class, ipv6, now, ip) by {
                    if serves(end, zv[j], class, ipv6, now, ip) {
                        lemma_serves_shrinks(end, start, zv[j], class, ipv6, now, ip);
                    }
                }
            }
            assert forall|ip: IpAddr| #[trigger] ips@.contains(ip) implies serves(
                before,
                zv[i as int],
                class,
                ipv6,
                now,
                ip,
            ) by {
                lemma_serves_shrinks(start, before, zv[i as int], class, ipv6, now, ip);
            }
        }
        if ips.len() > 0 {
            let zone = zones[i].clone();
            assert(zv[i as int] == zone@);
            return Some((zone, ips));
        }
        i += 1;
    }
    None
}

/// The replies that have not expired.
pub open spec fn live(m: Replies, now: u64) -> Replies {
    Map::new(|k: Seq<Seq<u8>>| m.contains_key(k) && now < m[k].1, |k: Seq<Seq<u8>>| m[k])
}

proof fn lemma_live_reply(a: Replies, b: Replies, name: Labels, rtype: u16, class: u16, now: u64)
    requires
        live(a, now) == live(b, now),
    ensures
        kept_reply(a, name, rtype, class, now) == kept_reply(b, name, rtype, class, now),
{
    let k = key_parts(lower(name), rtype, class);
    assert(live(a, now).contains_key(k) == live(b, now).contains_key(k));
    if live(a, now).contains_key(k) {
        assert(live(a, now)[k] == live(b, now)[k]);
    }
}

proof fn lemma_live_serves(
    a: Replies,
    b: Replies,
    zone: Labels,
    class: u16,
    ipv6: bool,
    now: u64,
    ip: IpAddr,
)
    requires
        live(a, now) == live(b, now),
        serves(a, zone, class, ipv6, now, ip),
    ensures
        serves(b, zone, class, ipv6, now, ip),
{
    lemma_live_reply(a, b, zone, TYPE_NS, class, now);
    let targets = ns_targets(kept_reply(a, zone, TYPE_NS, class, now)->0.answers);
    let i = choose|i: int|
        0 <= i < targets.len() && keeps_address(a, #[trigger] targets[i], ipv6, now, ip);
    lemma_live_reply(a, b, targets[i], TYPE_A, CLASS_IN, now);
    lemma_live_reply(a, b, targets[i], TYPE_AAAA, CLASS_IN, now);
    assert(keeps_address(b, targets[i], ipv6, now, ip));
}

/// Where a cache forgets nothing but what has expired, a walk starts at the first of the
/// zones above the name for whose servers an address is kept, with exactly the addresses
/// kept for them; and at none only where there is no such zone.
pub proof fn law_start_is_the_closest_kept_zone(
    r: Option<(Labels, Seq<IpAddr>)>,
    before: Replies,
    after: Replies,
    zones: Seq<Labels>,
    class: u16,
    ipv6: bool,
    now: u64,
)
    requires
        live(before, now) == live(after, now),
        starts(r, before, after, zones, class, ipv6, now),
    ensures
        starts(r, before, before, zones, class, ipv6, now),
{
    assert forall|zone: Labels| #[trigger] unserved(after, zone, class, ipv6, now) implies unserved(
        before,
        zone,
        class,
        ipv6,
        now,
    ) by {
        assert forall|ip: IpAddr| !#[trigger] serves(before, zone, class, ipv6, now, ip) by {
            if serves(before, zone, class, ipv6, now, ip) {
                lemma_live_serves(before, after, zone, class, ipv6, now, ip);
            }
        }
    }
    if let Some((zone, ips)) = r {
        assert forall|ip: IpAddr| #[trigger]
            serves(before, zone, class, ipv6, now, ip) implies ips.contains(ip) by {
            lemma_live_serves(before, after, zone, class, ipv6, now, ip);
        }
    }
}

/// An address of any server named in the kept NS reply of a zone, kept under that server's
/// name in a reply that has not expired, serves the zone: IPv4 always, IPv6 where it is used.
pub proof fn law_kept_addresses_serve(
    m: Replies,
    zone: Labels,
    class: u16,
    ipv6: bool,
    now: u64,
    ip: IpAddr,
    ns: MessageV,
    i: int,
    a: MessageV,
)
    requires
        kept_reply(m, zone, TYPE_NS, class, now) == Some(ns),
        0 <= i < ns_targets(ns.answers).len(),
        (kept_reply(m, ns_targets(ns.answers)[i], TYPE_A, CLASS_IN, now) == Some(a) && addresses_in(
            a.answers,
            TYPE_A,
        ).contains(ip)) || (ipv6 && kept_reply(
            m,
            ns_targets(ns.answers)[i],
            TYPE_AAAA,
            CLASS_IN,
            now,
        ) == Some(a) && addresses_in(a.answers, TYPE_AAAA).contains(ip)),
    ensures
        serves(m, zone, class, ipv6, now, ip),
{
    assert(keeps_address(m, ns_targets(ns.answers)[i], ipv6, now, ip));
}

/// A reply is kept for a question, in any case of its name, until it expires.
pub proof fn law_kept_replies_are_found(
    m: Replies,
    name: Labels,
    other: Labels,
    rtype: u16,
    class: u16,
    now: u64,
    bytes: Seq<u8>,
    expires: u64,
)
    requires
        crate::name::same_name(name, other),
        m.contains_key(key_parts(lower(other), rtype, class)),
        m[key_parts(lower(other), rtype, class)] == (bytes, expires),
    ensures
        now < expires ==> kept_reply(m, name, rtype, class, now) == decoded(bytes),
        now >= expires ==> kept_reply(m, name, rtype, class, now) is None,
{
}

} // verus!
