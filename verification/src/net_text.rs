//! Addresses in text form.

use crate::net::{be_bytes, write_be, IpAddr};
use crate::text::{dec, push_dec, push_text};
use vstd::prelude::*;

verus! {

/// How an IPv6 address is written (RFC 5952), by the `Display` of std's `Ipv6Addr`.
pub uninterp spec fn v6_text(a: u128) -> Seq<char>;

/// The address that a text stands for, by the `FromStr` of std's `IpAddr`.
pub uninterp spec fn ip_in_text(s: Seq<char>) -> Option<IpAddr>;

/// The `Display` of the address that `ipnet::Ipv6Net` holds. The result depends on the
/// address alone.
#[verifier::external_body]
fn print_v6(a: u128) -> (r: String)
    ensures
        r@ == v6_text(a),
{
    ipnet::Ipv6Net::new(a.into(), 128).map(|n| n.addr().to_string()).unwrap_or_default()
}

/// The `FromStr` of the address that `ipnet::IpNet::new` takes. The result depends on the
/// text alone.
#[verifier::external_body]
fn read_ip(s: &str) -> (r: Option<IpAddr>)
    ensures
        r == ip_in_text(s@),
{
    match ipnet::IpNet::new(s.parse().ok()?, 0).ok()? {
        ipnet::IpNet::V4(n) => Some(IpAddr::V4(n.addr().into())),
        ipnet::IpNet::V6(n) => Some(IpAddr::V6(n.addr().into())),
    }
}

/// How an IPv4 address is written, by its four bytes.
pub open spec fn v4_text(o: Seq<u8>) -> Seq<char> {
    dec(o[0] as nat) + "."@ + dec(o[1] as nat) + "."@ + dec(o[2] as nat) + "."@ + dec(
        o[3] as nat,
    )
}

/// How an address is written.
pub open spec fn ip_text(ip: IpAddr) -> Seq<char> {
    match ip {
        IpAddr::V4(a) => v4_text(be_bytes(a as nat, 4)),
        IpAddr::V6(a) => v6_text(a),
    }
}

/// An IPv4 address in text form, from its four bytes.
pub fn print_v4(o: &[u8]) -> (r: String)
    requires
        o@.len() == 4,
    ensures
        r@ == v4_text(o@),
{
    let mut s = String::new();
    push_dec(&mut s, o[0] as u64);
    push_text(&mut s, ".");
    push_dec(&mut s, o[1] as u64);
    push_text(&mut s, ".");
    push_dec(&mut s, o[2] as u64);
    push_text(&mut s, ".");
    push_dec(&mut s, o[3] as u64);
    assert(s@ =~= v4_text(o@));
    s
}

impl IpAddr {
    /// The address in text form.
    pub fn text(&self) -> (r: String)
        ensures
            r@ == ip_text(*self),
    {
        match self {
            IpAddr::V4(a) => print_v4(write_be(*a as u128, 4).as_slice()),
            IpAddr::V6(a) => print_v6(*a),
        }
    }

    /// The address that a text stands for.
    pub fn parse(s: &str) -> (r: Option<IpAddr>)
        ensures
            r == ip_in_text(s@),
    {
        read_ip(s)
    }
}

} // verus!
