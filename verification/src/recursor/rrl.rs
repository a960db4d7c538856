//! Response rate limiting: one token bucket for each client network.

use crate::net::{pow2, same_prefix, IpAddr};
use vstd::prelude::*;

verus! {

/// How clients are limited.
#[derive(Debug, Clone, Copy, PartialEq, Eq, Structural)]
pub struct RateLimit {
    pub per_client_qps: Option<u32>,
    pub per_client_burst: Option<u32>,
}

/// The keyed rate limiter of the `governor` crate.
#[verifier::external_body]
pub struct Limiter {
    inner: governor::DefaultKeyedRateLimiter<(u8, u64)>,
}

/// The rate and burst that a limiter was made with.
pub uninterp spec fn quota(l: Limiter) -> (u32, u32);

/// `governor::RateLimiter::keyed` with `Quota::per_second(qps).allow_burst(burst)`.
#[verifier::external_body]
fn limiter_new(qps: u32, burst: u32) -> (r: Limiter)
    requires
        qps > 0,
        burst > 0,
    ensures
        quota(r) == (qps, burst),
{
    let qps = std::num::NonZeroU32::new(qps).unwrap();
    let burst = std::num::NonZeroU32::new(burst).unwrap();
    let quota = governor::Quota::per_second(qps).allow_burst(burst);
    Limiter { inner: governor::RateLimiter::keyed(quota) }
}

/// `governor::RateLimiter::check_key`: whether the bucket of the key lets one more
/// through. That depends on the time, so nothing is claimed of it.
#[verifier::external_body]
fn limiter_check(l: &Limiter, key: (u8, u64)) -> bool {
    l.inner.check_key(&key).is_ok()
}

/// The limiter for client queries.
pub struct Rrl {
    pub limiter: Limiter,
}

/// The rate and burst that a configuration stands for; none where clients are not
/// limited.
pub open spec fn quota_of(cfg: Option<RateLimit>) -> Option<(u32, u32)> {
    match cfg {
        None => None,
        Some(c) => match c.per_client_qps {
            None => None,
            Some(q) => {
                let qps: u32 = if q == 0 {
                    1
                } else {
                    q
                };
                let b = match c.per_client_burst {
                    Some(b) => b,
                    None => q,
                };
                Some(
                    (
                        qps,
                        if b == 0 {
                            qps
                        } else {
                            b
                        },
                    ),
                )
            },
        },
    }
}

/// The bucket of a client: that of its /24 or /64 network.
pub open spec fn bucket(peer: IpAddr) -> (u8, u64) {
    match peer {
        IpAddr::V4(a) => (4, (a / 0x100) as u64),
        IpAddr::V6(a) => (6, (a / 0x1_0000_0000_0000_0000) as u64),
    }
}

/// The bucket of a client.
pub fn bucket_key(peer: IpAddr) -> (r: (u8, u64))
    ensures
        r == bucket(peer),
{
    match peer {
        IpAddr::V4(a) => (4, (a / 0x100) as u64),
        IpAddr::V6(a) => (6, (a / 0x1_0000_0000_0000_0000) as u64),
    }
}

impl Rrl {
    /// The limiter that a configuration asks for.
    pub fn from_config(cfg: Option<&RateLimit>) -> (r: Option<Rrl>)
        ensures
            quota_of(
                match cfg {
                    Some(c) => Some(*c),
                    None => None,
                },
            ) == (match r {
                Some(l) => Some(quota(l.limiter)),
                None => None,
            }),
    {
        let c: &RateLimit = match cfg {
            Some(c) => c,
            None => return None,
        };
        let q: u32 = match c.per_client_qps {
            Some(q) => q,
            None => return None,
        };
        let qps: u32 = if q == 0 {
            1
        } else {
            q
        };
        let b: u32 = match c.per_client_burst {
            Some(b) => b,
            None => q,
        };
        let burst: u32 = if b == 0 {
            qps
        } else {
            b
        };
        Some(Rrl { limiter: limiter_new(qps, burst) })
    }

    /// Whether a query of this client is let through. The bucket asked is that of the
    /// client's network; what it says depends on the time.
    pub fn check(&self, peer: IpAddr) -> bool {
        limiter_check(&self.limiter, bucket_key(peer))
    }
}

/// Two clients share a bucket if and only if they are of one family and in one network:
/// the first 24 bits for IPv4, the first 64 for IPv6.
pub proof fn law_bucket_is_network(a: IpAddr, b: IpAddr)
    ensures
        bucket(a) == bucket(b) <==> (match (a, b) {
            (IpAddr::V4(x), IpAddr::V4(y)) => same_prefix(x as nat, y as nat, 24, 32),
            (IpAddr::V6(x), IpAddr::V6(y)) => same_prefix(x as nat, y as nat, 64, 128),
            _ => false,
        }),
{
    reveal_with_fuel(pow2, 9);
    assert(pow2(8) == 0x100);
    lemma_pow2_64();
}

proof fn lemma_pow2_64()
    ensures
        pow2(64) == 0x1_0000_0000_0000_0000,
{
    reveal_with_fuel(pow2, 17);
    assert(pow2(16) == 0x1_0000);
    assert(pow2(32) == 0x1_0000_0000);
    assert(pow2(48) == 0x1_0000_0000_0000);
    assert(pow2(64) == 0x1_0000_0000_0000_0000);
}

/// A client network may ask as often per second as configured, at least once, and may save up
/// as much as configured, or else that many; without a rate there is no limit.
pub proof fn law_configured_rates(c: RateLimit)
    ensures
        quota_of(None) is None,
        c.per_client_qps is None ==> quota_of(Some(c)) is None,
        match (c.per_client_qps, c.per_client_burst) {
            (Some(q), Some(b)) => q > 0 && b > 0 ==> quota_of(Some(c)) == Some((q, b)),
            (Some(q), None) => q > 0 ==> quota_of(Some(c)) == Some((q, q)),
            _ => true,
        },
        c.per_client_qps == Some(0u32) ==> quota_of(Some(c)) is Some && (quota_of(Some(c))->0).0
            == 1,
        match quota_of(Some(c)) {
            Some((q, b)) => q > 0 && b > 0,
            None => true,
        },
{
}

} // verus!
