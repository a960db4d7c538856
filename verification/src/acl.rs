//! Which clients may ask.

use crate::net::{net_contains, IpAddr, IpNet};
use vstd::prelude::*;

verus! {

/// The networks whose clients are served.
#[derive(Debug)]
pub struct ClientAcl {
    pub nets: Vec<IpNet>,
}

/// Some network of the list holds the address.
pub open spec fn allowed(nets: Seq<IpNet>, ip: IpAddr) -> bool {
    exists|i: int| 0 <= i < nets.len() && net_contains(#[trigger] nets[i], ip)
}

impl ClientAcl {
    /// An access list.
    pub fn new(nets: Vec<IpNet>) -> (r: ClientAcl)
        ensures
            r.nets@ == nets@,
    {
        ClientAcl { nets }
    }

    /// Whether the address may ask.
    pub fn allows(&self, ip: IpAddr) -> (r: bool)
        ensures
            r == allowed(self.nets@, ip),
    {
        let mut i: usize = 0;
        while i < self.nets.len()
            invariant
                i <= self.nets@.len(),
                forall|j: int| 0 <= j < i ==> !net_contains(#[trigger] self.nets@[j], ip),
            decreases self.nets@.len() - i,
        {
            if self.nets[i].contains(ip) {
                return true;
            }
            i += 1;
        }
        false
    }
}

/// An empty access list lets nobody in.
pub proof fn law_empty_list_denies_all(ip: IpAddr)
    ensures
        !allowed(Seq::empty(), ip),
{
}

/// A longer access list lets in everyone that the shorter one does.
pub proof fn law_more_networks_admit_more(nets: Seq<IpNet>, more: Seq<IpNet>, ip: IpAddr)
    requires
        allowed(nets, ip),
    ensures
        allowed(nets + more, ip),
{
    let i = choose|i: int| 0 <= i < nets.len() && net_contains(#[trigger] nets[i], ip);
    assert((nets + more)[i] == nets[i]);
}

/// A client is admitted exactly where some network of the list, any one, holds its address.
pub proof fn law_any_one_network_admits(nets: Seq<IpNet>, ip: IpAddr)
    ensures
        forall|i: int|
            0 <= i < nets.len() && net_contains(#[trigger] nets[i], ip) ==> allowed(nets, ip),
        (forall|i: int| 0 <= i < nets.len() ==> !net_contains(#[trigger] nets[i], ip)) ==> !allowed(
            nets,
            ip,
        ),
{
}

} // verus!
