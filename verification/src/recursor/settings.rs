//! From configuration to what the resolver is set up to do.

use crate::codec::{name_fits, name_ok};
use crate::config::{
    dnssec_mode, lists_protocol, mode_policy, text_v, CacheBounds, DnsConfig, Listener, Recursion,
};
use crate::name::{Labels, Name};
use crate::names::ascii_name;
use crate::net::IpAddr;
use crate::recursor::cache::{no_entries, DnsCache, TtlLimits};
use crate::recursor::ddr::{
    build_ddr_records, ddr_records, svcbs_ok, svcbs_v, Svcb, SvcbV,
};
use crate::recursor::dns64::{policy_of, strings_v, Dns64Policy};
use crate::recursor::dnssec::DnssecPolicy;
use crate::recursor::forwarder::{entries_of, Forwarders, ForwarderError};
use crate::recursor::iterative::DEFAULT_MAX_CNAME;
use crate::recursor::pipeline::Engine;
use crate::recursor::walk::names_v;
use vstd::prelude::*;

verus! {

/// How long to wait before the readiness probe is repeated, in milliseconds.
pub const PREWARM_BACKOFF_MS: u64 = 5_000;

/// A configured value, or else the default.
pub open spec fn or_default(v: Option<u32>, default: u32) -> u32 {
    match v {
        Some(v) => v,
        None => default,
    }
}

fn value_or(v: Option<u32>, default: u32) -> (r: u32)
    ensures
        r == or_default(v, default),
{
    match v {
        Some(v) => v,
        None => default,
    }
}

/// The limits of the reply cache.
pub open spec fn cache_limits(c: Option<CacheBounds>) -> TtlLimits {
    match c {
        None => TtlLimits {
            min_ttl: 0,
            max_ttl: 604_800,
            negative_ttl: 3_600,
            max_negative_ttl: 600,
        },
        Some(c) => TtlLimits {
            min_ttl: or_default(c.min_ttl, 0),
            max_ttl: or_default(c.max_ttl, 604_800),
            negative_ttl: or_default(c.negative_ttl, 3_600),
            max_negative_ttl: or_default(c.max_negative_ttl, 600),
        },
    }
}

/// The number of replies that a configuration has room for.
pub open spec fn cache_entries(c: Option<CacheBounds>) -> u64 {
    match c {
        Some(c) => match c.max_entries {
            Some(n) => n as u64,
            None => 10_000,
        },
        None => 10_000,
    }
}

/// The reply cache that a configuration asks for.
pub fn build_cache_from_config(cfg: &DnsConfig) -> (r: DnsCache)
    ensures
        r.entries() == no_entries(),
        r.capacity() == cache_entries(cfg.cache),
        r.limits == cache_limits(cfg.cache),
{
    let c: CacheBounds = match &cfg.cache {
        Some(c) => *c,
        None => CacheBounds {
            max_entries: None,
            min_ttl: None,
            max_ttl: None,
            negative_ttl: None,
            max_negative_ttl: None,
        },
    };
    DnsCache::new(
        value_or(c.max_entries, 10_000) as u64,
        value_or(c.min_ttl, 0),
        value_or(c.max_ttl, 604_800),
        value_or(c.negative_ttl, 3_600),
        value_or(c.max_negative_ttl, 600),
    )
}

/// The forwarders that a configuration asks for.
pub fn build_forwarders_from_config(cfg: &DnsConfig) -> (r: Result<Forwarders, ForwarderError>)
    ensures
        entries_of(cfg.forwarders@) == (match r {
            Ok(f) => Ok(f@),
            Err(e) => Err(e),
        }),
{
    Forwarders::new(&cfg.forwarders)
}

/// The first IPv4 address that is listened on, from listener `i` on.
pub open spec fn listener_v4(ls: Seq<Listener>, i: int) -> Option<u32>
    decreases ls.len() - i,
{
    if i < 0 || i >= ls.len() {
        None
    } else {
        match ls[i].address {
            IpAddr::V4(a) => Some(a),
            IpAddr::V6(_) => listener_v4(ls, i + 1),
        }
    }
}

/// The first IPv6 address that is listened on, from listener `i` on.
pub open spec fn listener_v6(ls: Seq<Listener>, i: int) -> Option<u128>
    decreases ls.len() - i,
{
    if i < 0 || i >= ls.len() {
        None
    } else {
        match ls[i].address {
            IpAddr::V6(a) => Some(a),
            IpAddr::V4(_) => listener_v6(ls, i + 1),
        }
    }
}

/// The source address of IPv4 queries: the one found, else the first listened on.
pub open spec fn source_v4_of(ls: Seq<Listener>, discovered: Option<u32>) -> Option<u32> {
    match discovered {
        Some(a) => Some(a),
        None => listener_v4(ls, 0),
    }
}

/// The source address of IPv6 queries: the configured one, else the one found, else the
/// first listened on.
pub open spec fn source_v6_of(
    ls: Seq<Listener>,
    configured: Option<u128>,
    discovered: Option<u128>,
) -> Option<u128> {
    match configured {
        Some(a) => Some(a),
        None => match discovered {
            Some(a) => Some(a),
            None => listener_v6(ls, 0),
        },
    }
}

fn first_v4(ls: &Vec<Listener>) -> (r: Option<u32>)
    ensures
        r == listener_v4(ls@, 0),
{
    let mut i: usize = 0;
    while i < ls.len()
        invariant
            i <= ls@.len(),
            listener_v4(ls@, 0) == listener_v4(ls@, i as int),
        decreases ls@.len() - i,
    {
        if let IpAddr::V4(a) = ls[i].address {
            return Some(a);
        }
        i += 1;
    }
    None
}

fn first_v6(ls: &Vec<Listener>) -> (r: Option<u128>)
    ensures
        r == listener_v6(ls@, 0),
{
    let mut i: usize = 0;
    while i < ls.len()
        invariant
            i <= ls@.len(),
            listener_v6(ls@, 0) == listener_v6(ls@, i as int),
        decreases ls@.len() - i,
    {
        if let IpAddr::V6(a) = ls[i].address {
            return Some(a);
        }
        i += 1;
    }
    None
}

/// Some listener makes DNS64 addresses.
pub open spec fn any_dns64(ls: Seq<Listener>) -> bool {
    exists|i: int| 0 <= i < ls.len() && (#[trigger] ls[i]).dns64
}

fn has_dns64(ls: &Vec<Listener>) -> (r: bool)
    ensures
        r == any_dns64(ls@),
{
    let mut i: usize = 0;
    while i < ls.len()
        invariant
            i <= ls@.len(),
            forall|j: int| 0 <= j < i ==> !(#[trigger] ls@[j]).dns64,
        decreases ls@.len() - i,
    {
        if ls[i].dns64 {
            return true;
        }
        i += 1;
    }
    false
}

/// The policy is the one that the configuration stands for; the usual one where that is
/// faulty.
pub open spec fn is_dns64_policy(
    prefix: Option<Seq<char>>,
    exclusions: Seq<Seq<char>>,
    p: Dns64Policy,
) -> bool {
    match policy_of(prefix, exclusions) {
        Ok(v) => v == (p.prefix, names_v(p.exclusions@)),
        Err(_) => policy_of(None, Seq::empty()) == Ok::<
            (crate::recursor::dns64::Prefix, Seq<Labels>),
            crate::recursor::dns64::Dns64Error,
        >((p.prefix, names_v(p.exclusions@))),
    }
}

/// The DNS64 policy: there is one where a listener makes DNS64 addresses or DNS64 is
/// configured.
pub fn dns64_from_config(cfg: &DnsConfig) -> (r: Option<Dns64Policy>)
    ensures
        r is Some <==> any_dns64(cfg.listeners@) || cfg.dns64 is Some,
        match r {
            Some(p) => p.wf() && (match cfg.dns64 {
                Some(c) => is_dns64_policy(text_v(c.prefix), strings_v(c.exclusions@), p),
                None => is_dns64_policy(None, Seq::empty(), p),
            }),
            None => true,
        },
{
    let usual = Dns64Policy::default_wkp();
    proof {
        assert(policy_of(None, Seq::empty())->Ok_0.1 =~= names_v(usual.exclusions@));
    }
    match &cfg.dns64 {
        Some(c) => match Dns64Policy::from_config(c) {
            Ok(p) => Some(p),
            Err(_) => Some(usual),
        },
        None => if has_dns64(&cfg.listeners) {
            Some(usual)
        } else {
            None
        },
    }
}

/// The listener is one that clients may be told of, for the given protocol: one with a
/// token is not.
pub open spec fn is_announced(l: Listener, proto: Seq<char>, without_token: bool) -> bool {
    lists_protocol(strings_v(l.protocols@), proto) && (without_token ==> l.auth_token is None)
}

/// The addresses at which a protocol is spoken, in order.
pub open spec fn protocol_addrs(ls: Seq<Listener>, proto: Seq<char>, without_token: bool) -> Seq<
    IpAddr,
>
    decreases ls.len(),
{
    if ls.len() == 0 {
        Seq::empty()
    } else {
        let rest = protocol_addrs(ls.drop_last(), proto, without_token);
        if is_announced(ls.last(), proto, without_token) {
            rest.push(ls.last().address)
        } else {
            rest
        }
    }
}

fn list_addrs(ls: &Vec<Listener>, proto: &str, without_token: bool) -> (r: Vec<IpAddr>)
    ensures
        r@ == protocol_addrs(ls@, proto@, without_token),
{
    let mut out: Vec<IpAddr> = Vec::new();
    let mut i: usize = 0;
    while i < ls.len()
        invariant
            i <= ls@.len(),
            out@ == protocol_addrs(ls@.subrange(0, i as int), proto@, without_token),
        decreases ls@.len() - i,
    {
        proof {
            assert(ls@.subrange(0, i + 1).drop_last() =~= ls@.subrange(0, i as int));
        }
        if ls[i].has_protocol(proto) && (!without_token || ls[i].auth_token.is_none()) {
            out.push(ls[i].address);
        }
        i += 1;
    }
    assert(ls@.subrange(0, ls@.len() as int) =~= ls@);
    out
}

/// The name on the certificate: the first domain that one is ordered for.
pub open spec fn certificate_name(cfg: DnsConfig) -> Option<Labels> {
    match cfg.tls {
        None => None,
        Some(t) => match t.acme {
            None => None,
            Some(a) => if a.domains@.len() == 0 {
                None
            } else {
                match ascii_name(a.domains@[0]@) {
                    Some((n, _)) => if name_ok(n) {
                        Some(n)
                    } else {
                        None
                    },
                    None => None,
                }
            },
        },
    }
}

/// The encrypted protocols that clients are told of: none without a name on the
/// certificate.
pub open spec fn announced(cfg: DnsConfig) -> Seq<SvcbV> {
    match certificate_name(cfg) {
        None => Seq::empty(),
        Some(n) => ddr_records(
            n,
            protocol_addrs(cfg.listeners@, "dot"@, false),
            protocol_addrs(cfg.listeners@, "doh"@, true),
        ),
    }
}

fn cert_name(cfg: &DnsConfig) -> (r: Option<Name>)
    ensures
        certificate_name(*cfg) == (match r {
            Some(n) => Some(n@),
            None => None,
        }),
{
    match &cfg.tls {
        None => None,
        Some(t) => match &t.acme {
            None => None,
            Some(a) => {
                if a.domains.len() == 0 {
                    return None;
                }
                match Name::from_ascii(a.domains[0].as_str()) {
                    Some((n, _)) => if name_fits(&n) {
                        Some(n)
                    } else {
                        None
                    },
                    None => None,
                }
            },
        },
    }
}

/// Every parameter is short enough for the wire.
fn params_fit(s: &Vec<Svcb>) -> (r: bool)
    ensures
        r == (forall|i: int, j: int|
            0 <= i < s@.len() && 0 <= j < s@[i].params@.len() ==> (
            #[trigger] s@[i].params@[j]).value@.len() <= 0xffff),
{
    let mut i: usize = 0;
    while i < s.len()
        invariant
            i <= s@.len(),
            forall|a: int, b: int|
                0 <= a < i && 0 <= b < s@[a].params@.len() ==> (
                #[trigger] s@[a].params@[b]).value@.len() <= 0xffff,
        decreases s@.len() - i,
    {
        let mut j: usize = 0;
        while j < s[i].params.len()
            invariant
                i < s@.len(),
                j <= s@[i as int].params@.len(),
                forall|b: int|
                    0 <= b < j ==> (#[trigger] s@[i as int].params@[b]).value@.len() <= 0xffff,
            decreases s@[i as int].params@.len() - j,
        {
            if s[i].params[j].value.len() > 0xffff {
                assert(s@[i as int].params@[j as int].value@.len() > 0xffff);
                return false;
            }
            j += 1;
        }
        i += 1;
    }
    true
}

/// The bindings that clients are told of; none where they do not fit the wire.
pub open spec fn usable_bindings(s: Seq<SvcbV>) -> Seq<SvcbV> {
    if svcbs_ok(s) {
        s
    } else {
        Seq::empty()
    }
}

fn announce(cfg: &DnsConfig) -> (r: Vec<Svcb>)
    ensures
        svcbs_v(r@) == usable_bindings(announced(*cfg)),
        svcbs_ok(svcbs_v(r@)),
{
    match cert_name(cfg) {
        None => {
            let r: Vec<Svcb> = Vec::new();
            assert(svcbs_v(r@) =~= Seq::empty());
            r
        },
        Some(n) => {
            let dot = list_addrs(&cfg.listeners, "dot", false);
            let doh = list_addrs(&cfg.listeners, "doh", true);
            let r = build_ddr_records(&n, &dot, &doh);
            let ghost v = svcbs_v(r@);
            if params_fit(&r) {
                assert forall|i: int| 0 <= i < v.len() implies crate::recursor::ddr::svcb_ok(
                    #[trigger] v[i],
                ) by {
                    assert(v[i].target == n@);
                    assert forall|j: int| 0 <= j < v[i].params.len() implies (
                    #[trigger] v[i].params[j]).1.len() <= 0xffff by {
                        assert(r@[i].params@[j].value@.len() <= 0xffff);
                    }
                }
                r
            } else {
                proof {
                    let (i, j) = choose|i: int, j: int|
                        0 <= i < r@.len() && 0 <= j < r@[i].params@.len() && (
                        #[trigger] r@[i].params@[j]).value@.len() > 0xffff;
                    assert(v[i].params[j].1.len() > 0xffff);
                    assert(!crate::recursor::ddr::svcb_ok(v[i]));
                }
                let e: Vec<Svcb> = Vec::new();
                assert(svcbs_v(e@) =~= Seq::empty());
                e
            }
        },
    }
}

/// Where the trust anchors are kept.
#[derive(Debug)]
pub enum AnchorSource {
    /// Validation is off.
    Unused,
    /// In the operator's file.
    Operator(String),
    /// In the resolver's own directory.
    SelfManaged,
    /// Nowhere: nothing can be validated.
    Missing,
}

/// What the resolver is set up to do.
#[derive(Debug)]
pub struct Settings {
    pub engine: Engine,
    pub upstream_timeout_ms: u64,
    pub source_v4: Option<u32>,
    pub source_v6: Option<u128>,
    pub max_cname: u32,
    pub ipv6_upstream: bool,
    pub anchors: AnchorSource,
}

/// The DNSSEC policy of a configuration.
pub open spec fn policy_in(r: Option<Recursion>) -> DnssecPolicy {
    match r {
        Some(r) => mode_policy(dnssec_mode(r)),
        None => DnssecPolicy::PassThrough,
    }
}

/// What the resolver is set up to do. `have_anchor_dir` says whether it has a directory of
/// its own for trust anchors.
pub fn from_parts(
    cfg: &DnsConfig,
    forwarders: Forwarders,
    discovered_v6: Option<u128>,
    discovered_v4: Option<u32>,
    have_anchor_dir: bool,
) -> (r: Settings)
    ensures
        r.engine.wf(),
        r.engine.forwarders == forwarders,
        r.engine.dnssec == policy_in(cfg.recursion),
        r.engine.iterative == (cfg.recursion is Some ==> cfg.recursion->0.enabled),
        svcbs_v(r.engine.ddr@) == usable_bindings(announced(*cfg)),
        r.engine.dns64 is Some <==> any_dns64(cfg.listeners@) || cfg.dns64 is Some,
        match r.engine.dns64 {
            Some(p) => match cfg.dns64 {
                Some(c) => is_dns64_policy(text_v(c.prefix), strings_v(c.exclusions@), p),
                None => is_dns64_policy(None, Seq::empty(), p),
            },
            None => true,
        },
        r.upstream_timeout_ms == (match cfg.recursion {
            Some(c) => match c.upstream_timeout_ms {
                Some(t) => t as u64,
                None => crate::recursor::forwarder::DEFAULT_UPSTREAM_TIMEOUT_MS,
            },
            None => crate::recursor::forwarder::DEFAULT_UPSTREAM_TIMEOUT_MS,
        }),
        r.source_v4 == source_v4_of(cfg.listeners@, discovered_v4),
        r.source_v6 == source_v6_of(
            cfg.listeners@,
            match cfg.recursion {
                Some(c) => c.source_v6,
                None => None,
            },
            discovered_v6,
        ),
        r.max_cname == (match cfg.recursion {
            Some(c) => or_default(c.max_cname_depth, DEFAULT_MAX_CNAME),
            None => DEFAULT_MAX_CNAME,
        }),
        r.ipv6_upstream == (cfg.recursion is Some ==> cfg.recursion->0.ipv6_upstream),
        match r.anchors {
            AnchorSource::Unused => policy_in(cfg.recursion) != DnssecPolicy::Validate,
            AnchorSource::Operator(p) => policy_in(cfg.recursion) == DnssecPolicy::Validate
                && text_v(cfg.recursion->0.trust_anchor) == Some(p@),
            AnchorSource::SelfManaged => policy_in(cfg.recursion) == DnssecPolicy::Validate
                && cfg.recursion->0.trust_anchor is None && have_anchor_dir,
            AnchorSource::Missing => policy_in(cfg.recursion) == DnssecPolicy::Validate
                && cfg.recursion->0.trust_anchor is None && !have_anchor_dir,
        },
{
    let rec: Option<&Recursion> = match &cfg.recursion {
        Some(r) => Some(r),
        None => None,
    };
    let dnssec: DnssecPolicy = DnssecPolicy::from_recursion(rec);
    let timeout: Option<u32> = match rec {
        Some(r) => r.upstream_timeout_ms,
        None => None,
    };
    let configured: Option<u128> = match rec {
        Some(r) => r.source_v6,
        None => None,
    };
    let source_v6: Option<u128> = match configured {
        Some(a) => Some(a),
        None => match discovered_v6 {
            Some(a) => Some(a),
            None => first_v6(&cfg.listeners),
        },
    };
    let source_v4: Option<u32> = match discovered_v4 {
        Some(a) => Some(a),
        None => first_v4(&cfg.listeners),
    };
    let anchors = if dnssec != DnssecPolicy::Validate {
        AnchorSource::Unused
    } else {
        match rec {
            Some(r) => match &r.trust_anchor {
                Some(p) => AnchorSource::Operator(p.clone()),
                None => if have_anchor_dir {
                    AnchorSource::SelfManaged
                } else {
                    AnchorSource::Missing
                },
            },
            None => AnchorSource::Missing,
        }
    };
    let engine = Engine {
        dns64: dns64_from_config(cfg),
        dnssec,
        iterative: match rec {
            Some(r) => r.enabled,
            None => true,
        },
        ddr: announce(cfg),
        forwarders,
    };
    Settings {
        engine,
        upstream_timeout_ms: crate::recursor::forwarder::upstream_timeout_ms(timeout),
        source_v4,
        source_v6,
        max_cname: match rec {
            Some(r) => value_or(r.max_cname_depth, DEFAULT_MAX_CNAME),
            None => DEFAULT_MAX_CNAME,
        },
        ipv6_upstream: match rec {
            Some(r) => r.ipv6_upstream,
            None => true,
        },
        anchors,
    }
}

/// What to do about readiness.
#[derive(Debug, Clone, Copy, PartialEq, Eq, Structural)]
pub enum Readiness {
    /// Queries are answered from now on.
    Ready,
    /// Resolve the probe names.
    Probe,
    /// Wait so many milliseconds, then resolve them again.
    ProbeAfter(u64),
}

/// What to do about readiness at the start: only a validating resolver has to prove that
/// it can resolve names.
pub fn initial_readiness(iterative: bool, policy: DnssecPolicy) -> (r: Readiness)
    ensures
        r == (if iterative && policy == DnssecPolicy::Validate {
            Readiness::Probe
        } else {
            Readiness::Ready
        }),
{
    if iterative && policy == DnssecPolicy::Validate {
        Readiness::Probe
    } else {
        Readiness::Ready
    }
}

/// What to do about readiness after a round of probes: one success is enough.
pub fn after_probe(successes: usize) -> (r: Readiness)
    ensures
        r == (if successes > 0 {
            Readiness::Ready
        } else {
            Readiness::ProbeAfter(PREWARM_BACKOFF_MS)
        }),
{
    if successes > 0 {
        Readiness::Ready
    } else {
        Readiness::ProbeAfter(PREWARM_BACKOFF_MS)
    }
}

/// The names that are resolved to prove readiness: one under each of the busiest signed
/// top-level domains.
pub open spec fn probe_names() -> Seq<Seq<char>> {
    seq![
        "iana.org."@,
        "cloudflare.com."@,
        "internic.net."@,
        "nominet.uk."@,
        "denic.de."@,
        "nic.io."@,
        "google.dev."@,
        "google.app."@,
    ]
}

/// The names that are resolved to prove readiness.
pub fn prewarm_names() -> (r: Vec<Name>)
    ensures
        names_v(r@) == Seq::new(
            8,
            |i: int| crate::plain_names::dotted(probe_names()[i]),
        ),
{
    let texts: Vec<&str> = vec![
        "iana.org.",
        "cloudflare.com.",
        "internic.net.",
        "nominet.uk.",
        "denic.de.",
        "nic.io.",
        "google.dev.",
        "google.app.",
    ];
    let ghost p = probe_names();
    assert forall|j: int| 0 <= j < 8 implies (#[trigger] texts@[j])@ == p[j] by {}
    let mut out: Vec<Name> = Vec::new();
    let mut i: usize = 0;
    while i < 8
        invariant
            i <= 8,
            texts@.len() == 8,
            p == probe_names(),
            forall|j: int| 0 <= j < 8 ==> (#[trigger] texts@[j])@ == p[j],
            out@.len() == i,
            forall|j: int|
                0 <= j < i ==> (#[trigger] out@[j])@ == crate::plain_names::dotted(p[j]),
        decreases 8 - i,
    {
        let t: &str = texts[i];
        out.push(crate::plain_names::name_of(t));
        i += 1;
    }
    assert(names_v(out@) =~= Seq::new(
        8,
        |i: int| crate::plain_names::dotted(probe_names()[i]),
    ));
    out
}

/// The addresses announced for a protocol are those of all the listeners that name it, in
/// order, and, where that counts, need no token.
pub proof fn law_announced_addresses(ls: Seq<Listener>, proto: Seq<char>, without_token: bool)
    ensures
        protocol_addrs(ls, proto, without_token) == ls.filter(|x: Listener| lists_protocol(strings_v(x.protocols@), proto) && (without_token ==> x.auth_token is None)).map_values(
            |x: Listener| x.address,
        ),
    decreases ls.len(),
{
    let p = |x: Listener| lists_protocol(strings_v(x.protocols@), proto) && (without_token ==> x.auth_token is None);
    let f = |x: Listener| x.address;
    if ls.len() == 0 {
        crate::lists::lemma_pick_none(ls, p, f);
    } else {
        law_announced_addresses(ls.drop_last(), proto, without_token);
        crate::lists::lemma_pick_last(ls, p, f);
    }
}


/// A cache keeps ten thousand replies, for up to a week, and denials for an hour where they do
/// not say, ten minutes at most, unless it is told otherwise.
pub proof fn law_cache_defaults(c: CacheBounds)
    ensures
        cache_limits(None) == (TtlLimits {
            min_ttl: 0,
            max_ttl: 604_800,
            negative_ttl: 3_600,
            max_negative_ttl: 600,
        }),
        cache_entries(None) == 10_000,
        c.max_entries is Some ==> cache_entries(Some(c)) == c.max_entries->0,
        c.min_ttl is Some ==> cache_limits(Some(c)).min_ttl == c.min_ttl->0,
        c.max_ttl is Some ==> cache_limits(Some(c)).max_ttl == c.max_ttl->0,
        c.negative_ttl is Some ==> cache_limits(Some(c)).negative_ttl == c.negative_ttl->0,
        c.max_negative_ttl is Some ==> cache_limits(Some(c)).max_negative_ttl
            == c.max_negative_ttl->0,
        c.min_ttl is None ==> cache_limits(Some(c)).min_ttl == 0,
        c.max_ttl is None ==> cache_limits(Some(c)).max_ttl == 604_800,
        c.negative_ttl is None ==> cache_limits(Some(c)).negative_ttl == 3_600,
        c.max_negative_ttl is None ==> cache_limits(Some(c)).max_negative_ttl == 600,
{
}

/// The source of queries is the discovered or configured address, and else that of the first
/// listener of the family.
pub proof fn law_sources_of_queries(ls: Seq<Listener>, from: int, d4: u32, c6: u128, d6: u128)
    requires
        0 <= from <= ls.len(),
    ensures
        source_v4_of(ls, Some(d4)) == Some(d4),
        source_v6_of(ls, Some(c6), Some(d6)) == Some(c6),
        source_v6_of(ls, None, Some(d6)) == Some(d6),
        match listener_v4(ls, from) {
            Some(a) => exists|i: int|
                from <= i < ls.len() && (#[trigger] ls[i]).address == IpAddr::V4(a) && forall|j: int|
                    from <= j < i ==> (#[trigger] ls[j]).address is V6,
            None => forall|j: int| from <= j < ls.len() ==> (#[trigger] ls[j]).address is V6,
        },
        match listener_v6(ls, from) {
            Some(a) => exists|i: int|
                from <= i < ls.len() && (#[trigger] ls[i]).address == IpAddr::V6(a) && forall|j: int|
                    from <= j < i ==> (#[trigger] ls[j]).address is V4,
            None => forall|j: int| from <= j < ls.len() ==> (#[trigger] ls[j]).address is V4,
        },
        source_v4_of(ls, None) == listener_v4(ls, 0),
        source_v6_of(ls, None, None) == listener_v6(ls, 0),
    decreases ls.len() - from,
{
    if from < ls.len() {
        law_sources_of_queries(ls, from + 1, d4, c6, d6);
        match ls[from].address {
            IpAddr::V4(a) => {
                assert(listener_v4(ls, from) == Some(a));
            },
            IpAddr::V6(a) => {
                assert(listener_v6(ls, from) == Some(a));
            },
        }
    }
}

/// DNS64 is set up from the configuration, and where that is wrong as by default: with the
/// well-known prefix, and nothing excluded but the name by which clients look for it.
pub proof fn law_dns64_setup(prefix: Option<Seq<char>>, exclusions: Seq<Seq<char>>, p: Dns64Policy)
    requires
        is_dns64_policy(prefix, exclusions, p),
    ensures
        policy_of(prefix, exclusions) is Ok ==> policy_of(prefix, exclusions)->Ok_0 == (
            p.prefix,
            names_v(p.exclusions@),
        ),
        policy_of(prefix, exclusions) is Err ==> policy_of(None, Seq::empty())->Ok_0 == (
            p.prefix,
            names_v(p.exclusions@),
        ),
{
}

/// Clients are told of the encrypted transports where the certificate has a name: of DNS over
/// TLS on all the listeners that speak it, and of DNS over HTTPS on those that need no token.
pub proof fn law_announcements(cfg: DnsConfig, n: Labels)
    ensures
        certificate_name(cfg) is None ==> announced(cfg).len() == 0,
        certificate_name(cfg) == Some(n) ==> announced(cfg) == ddr_records(
            n,
            protocol_addrs(cfg.listeners@, "dot"@, false),
            protocol_addrs(cfg.listeners@, "doh"@, true),
        ),
        svcbs_ok(announced(cfg)) ==> usable_bindings(announced(cfg)) == announced(cfg),
        cfg.tls is Some && cfg.tls->0.acme is Some && cfg.tls->0.acme->0.domains@.len() > 0
            && ascii_name(cfg.tls->0.acme->0.domains@[0]@) is Some && name_ok(
            (ascii_name(cfg.tls->0.acme->0.domains@[0]@)->0).0,
        ) ==> certificate_name(cfg) == Some((ascii_name(cfg.tls->0.acme->0.domains@[0]@)->0).0),
        cfg.tls is None ==> certificate_name(cfg) is None,
{
}

/// The policy is the effective mode of the configuration, and to pass through without one;
/// DNS64 is used where any listener, any one, asks for it.
pub proof fn law_policy_of_the_configuration(r: Recursion, ls: Seq<Listener>)
    ensures
        policy_in(None) == DnssecPolicy::PassThrough,
        policy_in(Some(r)) == mode_policy(dnssec_mode(r)),
        any_dns64(ls) <==> exists|i: int| 0 <= i < ls.len() && (#[trigger] ls[i]).dns64,
{
}

} // verus!
