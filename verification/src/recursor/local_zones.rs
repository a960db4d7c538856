//! Zones that are answered locally because they mean nothing outside the local network
//! (RFC 6303).

use crate::name::{in_zone, Labels, Name};
use crate::plain_names::{dotted, is_under};
use vstd::prelude::*;

verus! {

/// The zones that are answered locally: reverse zones of private, link-local, loopback
/// and documentation addresses, and the home network's own domain.
pub open spec fn local_zones() -> Seq<Seq<char>> {
    seq![
        "10.in-addr.arpa."@,
        "16.172.in-addr.arpa."@,
        "17.172.in-addr.arpa."@,
        "18.172.in-addr.arpa."@,
        "19.172.in-addr.arpa."@,
        "20.172.in-addr.arpa."@,
        "21.172.in-addr.arpa."@,
        "22.172.in-addr.arpa."@,
        "23.172.in-addr.arpa."@,
        "24.172.in-addr.arpa."@,
        "25.172.in-addr.arpa."@,
        "26.172.in-addr.arpa."@,
        "27.172.in-addr.arpa."@,
        "28.172.in-addr.arpa."@,
        "29.172.in-addr.arpa."@,
        "30.172.in-addr.arpa."@,
        "31.172.in-addr.arpa."@,
        "168.192.in-addr.arpa."@,
        "254.169.in-addr.arpa."@,
        "0.in-addr.arpa."@,
        "127.in-addr.arpa."@,
        "2.0.192.in-addr.arpa."@,
        "100.51.198.in-addr.arpa."@,
        "113.0.203.in-addr.arpa."@,
        "255.255.255.255.in-addr.arpa."@,
        "d.f.ip6.arpa."@,
        "c.f.ip6.arpa."@,
        "8.e.f.ip6.arpa."@,
        "9.e.f.ip6.arpa."@,
        "a.e.f.ip6.arpa."@,
        "b.e.f.ip6.arpa."@,
        "8.b.d.0.1.0.0.2.ip6.arpa."@,
        "home.arpa."@,
    ]
}

/// The name lies in a zone that is answered locally.
pub open spec fn in_local_zone(name: Labels) -> bool {
    exists|i: int|
        0 <= i < local_zones().len() && in_zone(dotted(#[trigger] local_zones()[i]), name)
}

/// Whether the name lies in a zone that is answered locally.
pub fn is_private_reverse(qname: &Name) -> (r: bool)
    ensures
        r == in_local_zone(qname@),
{
    let zones: Vec<&str> = vec![
        "10.in-addr.arpa.",
        "16.172.in-addr.arpa.",
        "17.172.in-addr.arpa.",
        "18.172.in-addr.arpa.",
        "19.172.in-addr.arpa.",
        "20.172.in-addr.arpa.",
        "21.172.in-addr.arpa.",
        "22.172.in-addr.arpa.",
        "23.172.in-addr.arpa.",
        "24.172.in-addr.arpa.",
        "25.172.in-addr.arpa.",
        "26.172.in-addr.arpa.",
        "27.172.in-addr.arpa.",
        "28.172.in-addr.arpa.",
        "29.172.in-addr.arpa.",
        "30.172.in-addr.arpa.",
        "31.172.in-addr.arpa.",
        "168.192.in-addr.arpa.",
        "254.169.in-addr.arpa.",
        "0.in-addr.arpa.",
        "127.in-addr.arpa.",
        "2.0.192.in-addr.arpa.",
        "100.51.198.in-addr.arpa.",
        "113.0.203.in-addr.arpa.",
        "255.255.255.255.in-addr.arpa.",
        "d.f.ip6.arpa.",
        "c.f.ip6.arpa.",
        "8.e.f.ip6.arpa.",
        "9.e.f.ip6.arpa.",
        "a.e.f.ip6.arpa.",
        "b.e.f.ip6.arpa.",
        "8.b.d.0.1.0.0.2.ip6.arpa.",
        "home.arpa.",
    ];
    let ghost z = local_zones();
    assert(zones@.len() == z.len());
    assert forall|j: int| 0 <= j < z.len() implies (#[trigger] zones@[j])@ == z[j] by {}
    let mut i: usize = 0;
    while i < zones.len()
        invariant
            i <= zones@.len(),
            z == local_zones(),
            zones@.len() == z.len(),
            forall|j: int| 0 <= j < z.len() ==> (#[trigger] zones@[j])@ == z[j],
            forall|j: int| 0 <= j < i ==> !in_zone(dotted(#[trigger] z[j]), qname@),
        decreases zones@.len() - i,
    {
        let zone: &str = zones[i];
        if is_under(qname, zone) {
            assert(in_zone(dotted(z[i as int]), qname@));
            return true;
        }
        i += 1;
    }
    false
}

/// A name below a locally answered one is answered locally too.
pub proof fn law_local_zones_are_closed(upper: Labels, below: Labels)
    requires
        in_local_zone(upper),
        in_zone(upper, below),
    ensures
        in_local_zone(below),
{
    let i = choose|i: int|
        0 <= i < local_zones().len() && in_zone(dotted(#[trigger] local_zones()[i]), upper);
    crate::name::lemma_zone_transitive(dotted(local_zones()[i]), upper, below);
}

/// Names are answered locally exactly where they lie under the reverse zone of a private,
/// loopback, link-local, unique-local or documentation network, of no or all addresses, or
/// under the zone for homes.
pub proof fn law_local_names(name: Labels)
    ensures
        in_local_zone(name) <==> {
            ||| in_zone(dotted("10.in-addr.arpa."@), name)
            ||| in_zone(dotted("16.172.in-addr.arpa."@), name)
            ||| in_zone(dotted("17.172.in-addr.arpa."@), name)
            ||| in_zone(dotted("18.172.in-addr.arpa."@), name)
            ||| in_zone(dotted("19.172.in-addr.arpa."@), name)
            ||| in_zone(dotted("20.172.in-addr.arpa."@), name)
            ||| in_zone(dotted("21.172.in-addr.arpa."@), name)
            ||| in_zone(dotted("22.172.in-addr.arpa."@), name)
            ||| in_zone(dotted("23.172.in-addr.arpa."@), name)
            ||| in_zone(dotted("24.172.in-addr.arpa."@), name)
            ||| in_zone(dotted("25.172.in-addr.arpa."@), name)
            ||| in_zone(dotted("26.172.in-addr.arpa."@), name)
            ||| in_zone(dotted("27.172.in-addr.arpa."@), name)
            ||| in_zone(dotted("28.172.in-addr.arpa."@), name)
            ||| in_zone(dotted("29.172.in-addr.arpa."@), name)
            ||| in_zone(dotted("30.172.in-addr.arpa."@), name)
            ||| in_zone(dotted("31.172.in-addr.arpa."@), name)
            ||| in_zone(dotted("168.192.in-addr.arpa."@), name)
            ||| in_zone(dotted("254.169.in-addr.arpa."@), name)
            ||| in_zone(dotted("0.in-addr.arpa."@), name)
            ||| in_zone(dotted("127.in-addr.arpa."@), name)
            ||| in_zone(dotted("2.0.192.in-addr.arpa."@), name)
            ||| in_zone(dotted("100.51.198.in-addr.arpa."@), name)
            ||| in_zone(dotted("113.0.203.in-addr.arpa."@), name)
            ||| in_zone(dotted("255.255.255.255.in-addr.arpa."@), name)
            ||| in_zone(dotted("d.f.ip6.arpa."@), name)
            ||| in_zone(dotted("c.f.ip6.arpa."@), name)
            ||| in_zone(dotted("8.e.f.ip6.arpa."@), name)
            ||| in_zone(dotted("9.e.f.ip6.arpa."@), name)
            ||| in_zone(dotted("a.e.f.ip6.arpa."@), name)
            ||| in_zone(dotted("b.e.f.ip6.arpa."@), name)
            ||| in_zone(dotted("8.b.d.0.1.0.0.2.ip6.arpa."@), name)
            ||| in_zone(dotted("home.arpa."@), name)
        },
{
    let z = local_zones();
    assert(z.len() == 33);
    assert(z[0] == "10.in-addr.arpa."@);
    assert(z[1] == "16.172.in-addr.arpa."@);
    assert(z[2] == "17.172.in-addr.arpa."@);
    assert(z[3] == "18.172.in-addr.arpa."@);
    assert(z[4] == "19.172.in-addr.arpa."@);
    assert(z[5] == "20.172.in-addr.arpa."@);
    assert(z[6] == "21.172.in-addr.arpa."@);
    assert(z[7] == "22.172.in-addr.arpa."@);
    assert(z[8] == "23.172.in-addr.arpa."@);
    assert(z[9] == "24.172.in-addr.arpa."@);
    assert(z[10] == "25.172.in-addr.arpa."@);
    assert(z[11] == "26.172.in-addr.arpa."@);
    assert(z[12] == "27.172.in-addr.arpa."@);
    assert(z[13] == "28.172.in-addr.arpa."@);
    assert(z[14] == "29.172.in-addr.arpa."@);
    assert(z[15] == "30.172.in-addr.arpa."@);
    assert(z[16] == "31.172.in-addr.arpa."@);
    assert(z[17] == "168.192.in-addr.arpa."@);
    assert(z[18] == "254.169.in-addr.arpa."@);
    assert(z[19] == "0.in-addr.arpa."@);
    assert(z[20] == "127.in-addr.arpa."@);
    assert(z[21] == "2.0.192.in-addr.arpa."@);
    assert(z[22] == "100.51.198.in-addr.arpa."@);
    assert(z[23] == "113.0.203.in-addr.arpa."@);
    assert(z[24] == "255.255.255.255.in-addr.arpa."@);
    assert(z[25] == "d.f.ip6.arpa."@);
    assert(z[26] == "c.f.ip6.arpa."@);
    assert(z[27] == "8.e.f.ip6.arpa."@);
    assert(z[28] == "9.e.f.ip6.arpa."@);
    assert(z[29] == "a.e.f.ip6.arpa."@);
    assert(z[30] == "b.e.f.ip6.arpa."@);
    assert(z[31] == "8.b.d.0.1.0.0.2.ip6.arpa."@);
    assert(z[32] == "home.arpa."@);
}

} // verus!
