//! Counters that operators look at.

use vstd::prelude::*;

verus! {

/// The counters as they stand.
#[derive(Debug, Clone, Copy, PartialEq, Eq, Structural)]
pub struct MetricsSnapshot {
    pub queries_udp: u64,
    pub queries_tcp: u64,
    pub queries_dot: u64,
    pub queries_doh: u64,
    pub cache_hits: u64,
    pub cache_misses: u64,
    pub forwarder_matched: u64,
    pub recursion_walked: u64,
    pub rrl_dropped: u64,
    pub acl_denied: u64,
    pub dns64_synthesised: u64,
    pub dnssec_validated: u64,
    pub dnssec_failed: u64,
    pub udp_inflight_shed: u64,
}

/// The counters.
#[derive(Debug, Clone, Copy, PartialEq, Eq, Structural)]
pub struct Metrics {
    pub queries_udp: u64,
    pub queries_tcp: u64,
    pub queries_dot: u64,
    pub queries_doh: u64,
    pub cache_hits: u64,
    pub cache_misses: u64,
    pub forwarder_matched: u64,
    pub recursion_walked: u64,
    pub rrl_dropped: u64,
    pub acl_denied: u64,
    pub dns64_synthesised: u64,
    pub dnssec_validated: u64,
    pub dnssec_failed: u64,
    /// Queries refused because too many were under way.
    pub udp_inflight_shed: u64,
}

impl Metrics {
    /// The counters as they stand.
    pub fn snapshot(&self) -> (r: MetricsSnapshot)
        ensures
            r == (MetricsSnapshot {
                queries_udp: self.queries_udp,
                queries_tcp: self.queries_tcp,
                queries_dot: self.queries_dot,
                queries_doh: self.queries_doh,
                cache_hits: self.cache_hits,
                cache_misses: self.cache_misses,
                forwarder_matched: self.forwarder_matched,
                recursion_walked: self.recursion_walked,
                rrl_dropped: self.rrl_dropped,
                acl_denied: self.acl_denied,
                dns64_synthesised: self.dns64_synthesised,
                dnssec_validated: self.dnssec_validated,
                dnssec_failed: self.dnssec_failed,
                udp_inflight_shed: self.udp_inflight_shed,
            }),
    {
        MetricsSnapshot {
            queries_udp: self.queries_udp,
            queries_tcp: self.queries_tcp,
            queries_dot: self.queries_dot,
            queries_doh: self.queries_doh,
            cache_hits: self.cache_hits,
            cache_misses: self.cache_misses,
            forwarder_matched: self.forwarder_matched,
            recursion_walked: self.recursion_walked,
            rrl_dropped: self.rrl_dropped,
            acl_denied: self.acl_denied,
            dns64_synthesised: self.dns64_synthesised,
            dnssec_validated: self.dnssec_validated,
            dnssec_failed: self.dnssec_failed,
            udp_inflight_shed: self.udp_inflight_shed,
        }
    }
}

impl Default for Metrics {
    fn default() -> (r: Metrics)
        ensures
            r == (Metrics {
                queries_udp: 0,
                queries_tcp: 0,
                queries_dot: 0,
                queries_doh: 0,
                cache_hits: 0,
                cache_misses: 0,
                forwarder_matched: 0,
                recursion_walked: 0,
                rrl_dropped: 0,
                acl_denied: 0,
                dns64_synthesised: 0,
                dnssec_validated: 0,
                dnssec_failed: 0,
                udp_inflight_shed: 0,
            }),
    {
        Metrics {
            queries_udp: 0,
            queries_tcp: 0,
            queries_dot: 0,
            queries_doh: 0,
            cache_hits: 0,
            cache_misses: 0,
            forwarder_matched: 0,
            recursion_walked: 0,
            rrl_dropped: 0,
            acl_denied: 0,
            dns64_synthesised: 0,
            dnssec_validated: 0,
            dnssec_failed: 0,
            udp_inflight_shed: 0,
        }
    }
}

} // verus!
