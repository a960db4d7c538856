//! Configuration as plain values, and the rules it has to keep.

use crate::net::{IpAddr, IpNet, SocketAddr};
use crate::recursor::dns64::{strings_v, Dns64};
use crate::recursor::dnssec::DnssecPolicy;
use crate::recursor::rrl::RateLimit;
use crate::text::{join4, lower_text, push_text, str_eq, str_same};
use vstd::prelude::*;

verus! {

/// How many queries of one UDP listener may be under way where nothing is configured.
pub const DEFAULT_MAX_INFLIGHT: u32 = 1024;

/// A routing domain that is declared for the router as a whole.
#[derive(Debug)]
pub struct VrfYaml {
    pub name: String,
    pub table_id_v4: u32,
    pub table_id_v6: u32,
    pub description: Option<String>,
}

/// An address that is listened on.
#[derive(Debug)]
pub struct Listener {
    pub name: String,
    pub address: IpAddr,
    pub port: u16,
    pub interface: Option<String>,
    pub protocols: Vec<String>,
    pub allow_from: Vec<IpNet>,
    pub dns64: bool,
    pub max_inflight: Option<u32>,
    pub auth_token: Option<String>,
}

/// How a forwarder's server is spoken to.
#[derive(Debug, Clone, Copy, PartialEq, Eq, Structural)]
pub enum Transport {
    Udp,
    Tcp,
    Dot,
}

/// By which way a forwarder's server is reached.
#[derive(Debug, Clone, Copy, PartialEq, Eq, Structural)]
pub enum Via {
    Direct,
    Tor,
}

/// A forwarder's server.
#[derive(Debug)]
pub struct ForwarderServer {
    pub address: IpAddr,
    pub transport: Transport,
    pub tls_name: Option<String>,
    pub via: Via,
}

/// A forwarder's server as configured: a bare address, which stands for direct UDP, or
/// everything spelled out.
#[derive(Debug)]
pub enum ServerSpec {
    Bare(IpAddr),
    Full(ServerSpecFull),
}

/// A forwarder's server, everything spelled out.
#[derive(Debug)]
pub struct ServerSpecFull {
    pub address: IpAddr,
    pub transport: Transport,
    pub tls_name: Option<String>,
    pub via: Via,
}

/// The servers to which questions under a domain are forwarded.
#[derive(Debug)]
pub struct Forwarder {
    pub domain: String,
    pub servers: Vec<ServerSpec>,
}

/// What is done about DNSSEC.
#[derive(Debug, Clone, Copy, PartialEq, Eq, Structural)]
pub enum DnssecMode {
    PassThrough,
    Strip,
    Validate,
}

/// How names are resolved.
#[derive(Debug)]
pub struct Recursion {
    pub enabled: bool,
    pub dnssec: DnssecMode,
    /// The older way to ask for validation.
    pub dnssec_validate: bool,
    pub trust_anchor: Option<String>,
    pub serve_stale_seconds: Option<u32>,
    pub upstream_timeout_ms: Option<u32>,
    pub max_cname_depth: Option<u32>,
    pub ipv6_upstream: bool,
    pub source_v6: Option<u128>,
}

/// Bounds of the reply cache.
#[derive(Debug, Clone, Copy, PartialEq, Eq, Structural)]
pub struct CacheBounds {
    pub max_entries: Option<u32>,
    pub min_ttl: Option<u32>,
    pub max_ttl: Option<u32>,
    pub negative_ttl: Option<u32>,
    pub max_negative_ttl: Option<u32>,
}

/// Where certificates come from.
#[derive(Debug)]
pub struct Tls {
    pub cert_source: String,
    pub acme: Option<Acme>,
    pub cert_path: Option<String>,
    pub key_path: Option<String>,
}

/// How certificates are ordered.
#[derive(Debug)]
pub struct Acme {
    pub directory: String,
    pub email: String,
    pub domains: Vec<String>,
    pub challenge: String,
    pub dns01: Option<AcmeDns01>,
}

/// How DNS challenges are met.
#[derive(Debug)]
pub struct AcmeDns01 {
    pub provider: String,
    pub endpoint: Option<String>,
    pub tsig_key_name: Option<String>,
    pub tsig_key_secret: Option<String>,
    pub api_token: Option<String>,
    pub zone: Option<String>,
}

/// A hint for the firewall.
#[derive(Debug, Clone, Copy, PartialEq, Eq, Structural)]
pub struct SfwHint {
    pub auto: bool,
}

/// The whole configuration.
#[derive(Debug)]
pub struct DnsConfig {
    pub enabled: bool,
    pub listeners: Vec<Listener>,
    pub forwarders: Vec<Forwarder>,
    pub recursion: Option<Recursion>,
    pub cache: Option<CacheBounds>,
    pub dns64: Option<Dns64>,
    pub tls: Option<Tls>,
    pub rate_limit: Option<RateLimit>,
    pub sfw: Option<SfwHint>,
    pub tcp_workers: Option<u32>,
    pub tor_socks: SocketAddr,
    pub vrfs: Vec<DnsVrfConfig>,
}

/// The configuration of one routing domain.
#[derive(Debug)]
pub struct DnsVrfConfig {
    pub name: String,
    pub enabled: bool,
    pub listeners: Vec<Listener>,
    pub forwarders: Vec<Forwarder>,
    pub recursion: Option<Recursion>,
    pub cache: Option<CacheBounds>,
    pub dns64: Option<Dns64>,
    pub tls: Option<Tls>,
    pub rate_limit: Option<RateLimit>,
    pub sfw: Option<SfwHint>,
    pub tcp_workers: Option<u32>,
}

/// The port that is listened on where none is configured.
pub fn default_port() -> (r: u16)
    ensures
        r == 53,
{
    53
}

/// The SOCKS proxy of a local Tor where none is configured: 127.0.0.1:9050.
pub fn default_tor_socks() -> (r: SocketAddr)
    ensures
        r == (SocketAddr { ip: IpAddr::V4(0x7f00_0001), port: 9050 }),
{
    SocketAddr { ip: IpAddr::V4(0x7f00_0001), port: 9050 }
}

impl Default for DnsConfig {
    fn default() -> (r: DnsConfig)
        ensures
            !r.enabled,
            r.listeners@.len() == 0,
            r.forwarders@.len() == 0,
            r.recursion is None,
            r.cache is None,
            r.dns64 is None,
            r.tls is None,
            r.rate_limit is None,
            r.sfw is None,
            r.tcp_workers is None,
            r.tor_socks == (SocketAddr { ip: IpAddr::V4(0x7f00_0001), port: 9050 }),
            r.vrfs@.len() == 0,
    {
        DnsConfig {
            enabled: false,
            listeners: Vec::new(),
            forwarders: Vec::new(),
            recursion: None,
            cache: None,
            dns64: None,
            tls: None,
            rate_limit: None,
            sfw: None,
            tcp_workers: None,
            tor_socks: default_tor_socks(),
            vrfs: Vec::new(),
        }
    }
}

impl Default for Recursion {
    fn default() -> (r: Recursion)
        ensures
            r.enabled,
            r.dnssec == DnssecMode::PassThrough,
            !r.dnssec_validate,
            r.trust_anchor is None,
            r.serve_stale_seconds is None,
            r.upstream_timeout_ms is None,
            r.max_cname_depth is None,
            r.ipv6_upstream,
            r.source_v6 is None,
    {
        Recursion {
            enabled: true,
            dnssec: DnssecMode::PassThrough,
            dnssec_validate: false,
            trust_anchor: None,
            serve_stale_seconds: None,
            upstream_timeout_ms: None,
            max_cname_depth: None,
            ipv6_upstream: true,
            source_v6: None,
        }
    }
}

/// The DNSSEC mode in effect: the older flag counts only where the mode was left alone.
pub open spec fn dnssec_mode(r: Recursion) -> DnssecMode {
    if r.dnssec == DnssecMode::PassThrough && r.dnssec_validate {
        DnssecMode::Validate
    } else {
        r.dnssec
    }
}

impl Recursion {
    /// The DNSSEC mode in effect.
    pub fn effective_dnssec(&self) -> (r: DnssecMode)
        ensures
            r == dnssec_mode(*self),
    {
        if self.dnssec == DnssecMode::PassThrough && self.dnssec_validate {
            DnssecMode::Validate
        } else {
            self.dnssec
        }
    }
}

/// The policy that a mode stands for.
pub open spec fn mode_policy(m: DnssecMode) -> DnssecPolicy {
    match m {
        DnssecMode::PassThrough => DnssecPolicy::PassThrough,
        DnssecMode::Strip => DnssecPolicy::Strip,
        DnssecMode::Validate => DnssecPolicy::Validate,
    }
}

impl DnssecPolicy {
    /// The policy in effect; pass-through where resolution is not configured.
    pub fn from_recursion(r: Option<&Recursion>) -> (p: DnssecPolicy)
        ensures
            p == (match r {
                Some(r) => mode_policy(dnssec_mode(*r)),
                None => DnssecPolicy::PassThrough,
            }),
    {
        match r {
            None => DnssecPolicy::PassThrough,
            Some(r) => match r.effective_dnssec() {
                DnssecMode::PassThrough => DnssecPolicy::PassThrough,
                DnssecMode::Strip => DnssecPolicy::Strip,
                DnssecMode::Validate => DnssecPolicy::Validate,
            },
        }
    }
}

/// Some protocol of the list is the given one, in any case.
pub open spec fn lists_protocol(protocols: Seq<Seq<char>>, proto: Seq<char>) -> bool {
    exists|i: int|
        0 <= i < protocols.len() && lower_text(#[trigger] protocols[i]) == lower_text(proto)
}

impl Listener {
    /// Whether the listener speaks the protocol.
    pub fn has_protocol(&self, proto: &str) -> (r: bool)
        ensures
            r == lists_protocol(strings_v(self.protocols@), proto@),
    {
        let ghost v = strings_v(self.protocols@);
        let mut i: usize = 0;
        while i < self.protocols.len()
            invariant
                i <= self.protocols@.len(),
                v == strings_v(self.protocols@),
                forall|j: int|
                    0 <= j < i ==> lower_text(#[trigger] v[j]) != lower_text(proto@),
            decreases self.protocols@.len() - i,
        {
            assert(v[i as int] == self.protocols@[i as int]@);
            if str_same(self.protocols[i].as_str(), proto) {
                return true;
            }
            i += 1;
        }
        false
    }
}

/// The name of a transport.
pub open spec fn transport_text(t: Transport) -> Seq<char> {
    match t {
        Transport::Udp => "udp"@,
        Transport::Tcp => "tcp"@,
        Transport::Dot => "dot"@,
    }
}

/// The name of a transport.
pub fn transport_name(t: Transport) -> (r: &'static str)
    ensures
        r@ == transport_text(t),
{
    match t {
        Transport::Udp => "udp",
        Transport::Tcp => "tcp",
        Transport::Dot => "dot",
    }
}

/// Why the servers of a forwarder were turned down.
#[derive(Debug, Clone, Copy, PartialEq, Eq, Structural)]
pub enum ServerError {
    /// TLS without a name to verify.
    DotWithoutTlsName(IpAddr),
    /// TCP is not in use towards forwarders.
    TcpNotWired(IpAddr),
    /// Tor without TLS would show every question to the exit node.
    TorWithoutDot(IpAddr, Transport),
    /// Direct servers beside ones reached through Tor.
    Mixed,
}

/// The value of a [`ForwarderServer`].
#[verifier::ext_equal]
pub ghost struct ServerV {
    pub address: IpAddr,
    pub transport: Transport,
    pub tls_name: Option<Seq<char>>,
    pub via: Via,
}

/// The value of an optional string.
pub open spec fn text_v(s: Option<String>) -> Option<Seq<char>> {
    match s {
        Some(s) => Some(s@),
        None => None,
    }
}

impl View for ForwarderServer {
    type V = ServerV;

    open spec fn view(&self) -> ServerV {
        ServerV {
            address: self.address,
            transport: self.transport,
            tls_name: text_v(self.tls_name),
            via: self.via,
        }
    }
}

impl View for ServerSpec {
    type V = ServerV;

    open spec fn view(&self) -> ServerV {
        match self {
            ServerSpec::Bare(address) => ServerV {
                address: *address,
                transport: Transport::Udp,
                tls_name: None,
                via: Via::Direct,
            },
            ServerSpec::Full(f) => ServerV {
                address: f.address,
                transport: f.transport,
                tls_name: text_v(f.tls_name),
                via: f.via,
            },
        }
    }
}

/// The values of a list of servers.
pub open spec fn servers_v(s: Seq<ForwarderServer>) -> Seq<ServerV> {
    Seq::new(s.len(), |i: int| s[i]@)
}

/// The values of a list of configured servers.
pub open spec fn specs_v(s: Seq<ServerSpec>) -> Seq<ServerV> {
    Seq::new(s.len(), |i: int| s[i]@)
}

/// What is wrong with one server, if anything.
pub open spec fn server_error(s: ServerV) -> Option<ServerError> {
    if s.transport == Transport::Dot && s.tls_name is None {
        Some(ServerError::DotWithoutTlsName(s.address))
    } else if s.transport == Transport::Tcp {
        Some(ServerError::TcpNotWired(s.address))
    } else if s.via == Via::Tor && s.transport != Transport::Dot {
        Some(ServerError::TorWithoutDot(s.address, s.transport))
    } else {
        None
    }
}

/// What is wrong with the first faulty server from `i` on, if any.
pub open spec fn first_server_error(s: Seq<ServerV>, i: int) -> Option<ServerError>
    decreases s.len() - i,
{
    if i < 0 || i >= s.len() {
        None
    } else if server_error(s[i]) is Some {
        server_error(s[i])
    } else {
        first_server_error(s, i + 1)
    }
}

/// Some server is reached this way.
pub open spec fn any_via(s: Seq<ServerV>, via: Via) -> bool {
    exists|i: int| 0 <= i < s.len() && (#[trigger] s[i]).via == via
}

/// The servers of a forwarder, or why they are turned down.
pub open spec fn checked_servers(s: Seq<ServerV>) -> Result<Seq<ServerV>, ServerError> {
    match first_server_error(s, 0) {
        Some(e) => Err(e),
        None => if any_via(s, Via::Tor) && any_via(s, Via::Direct) {
            Err(ServerError::Mixed)
        } else {
            Ok(s)
        },
    }
}

/// A copy of an optional string.
pub fn clone_text(s: &Option<String>) -> (r: Option<String>)
    ensures
        text_v(r) == text_v(*s),
{
    match s {
        Some(s) => Some(s.clone()),
        None => None,
    }
}

fn normalise(spec: &ServerSpec) -> (r: ForwarderServer)
    ensures
        r@ == spec@,
{
    match spec {
        ServerSpec::Bare(ip) => ForwarderServer {
            address: *ip,
            transport: Transport::Udp,
            tls_name: None,
            via: Via::Direct,
        },
        ServerSpec::Full(f) => ForwarderServer {
            address: f.address,
            transport: f.transport,
            tls_name: clone_text(&f.tls_name),
            via: f.via,
        },
    }
}

fn check_server(s: &ForwarderServer) -> (r: Option<ServerError>)
    ensures
        r == server_error(s@),
{
    if s.transport == Transport::Dot && s.tls_name.is_none() {
        Some(ServerError::DotWithoutTlsName(s.address))
    } else if s.transport == Transport::Tcp {
        Some(ServerError::TcpNotWired(s.address))
    } else if s.via == Via::Tor && s.transport != Transport::Dot {
        Some(ServerError::TorWithoutDot(s.address, s.transport))
    } else {
        None
    }
}

impl Forwarder {
    /// The servers of the forwarder, checked: it is all Tor or all direct, and what goes
    /// through Tor goes by TLS.
    pub fn resolved_servers(&self) -> (r: Result<Vec<ForwarderServer>, ServerError>)
        ensures
            checked_servers(specs_v(self.servers@)) == (match r {
                Ok(s) => Ok(servers_v(s@)),
                Err(e) => Err(e),
            }),
    {
        let ghost v = specs_v(self.servers@);
        let mut out: Vec<ForwarderServer> = Vec::new();
        let mut tor: bool = false;
        let mut direct: bool = false;
        let mut i: usize = 0;
        while i < self.servers.len()
            invariant
                i <= self.servers@.len(),
                v == specs_v(self.servers@),
                out@.len() == i,
                forall|j: int| 0 <= j < i ==> (#[trigger] out@[j])@ == v[j],
                first_server_error(v, 0) == first_server_error(v, i as int),
                tor <==> exists|j: int| 0 <= j < i && (#[trigger] v[j]).via == Via::Tor,
                direct <==> exists|j: int| 0 <= j < i && (#[trigger] v[j]).via == Via::Direct,
            decreases self.servers@.len() - i,
        {
            let s = normalise(&self.servers[i]);
            assert(v[i as int] == s@);
            if let Some(e) = check_server(&s) {
                return Err(e);
            }
            match s.via {
                Via::Tor => {
                    tor = true;
                },
                Via::Direct => {
                    direct = true;
                },
            }
            out.push(s);
            i += 1;
        }
        assert(tor == any_via(v, Via::Tor));
        assert(direct == any_via(v, Via::Direct));
        if tor && direct {
            return Err(ServerError::Mixed);
        }
        assert(servers_v(out@) =~= v);
        Ok(out)
    }
}

/// Fail closed: in a forwarder that passes, a server reached through Tor has no direct
/// sibling to fall back to.
pub proof fn law_tor_never_mixes_with_direct(s: Seq<ServerV>, i: int, j: int)
    requires
        checked_servers(s) is Ok,
        0 <= i < s.len(),
        0 <= j < s.len(),
    ensures
        s[i].via == s[j].via,
{
    assert(s[i].via == Via::Tor || s[i].via == Via::Direct);
    assert(s[j].via == Via::Tor || s[j].via == Via::Direct);
}

/// In a forwarder that passes, what goes through Tor goes by TLS with a verified name,
/// so that the exit node sees no question.
pub proof fn law_tor_requires_tls(s: Seq<ServerV>, i: int)
    requires
        checked_servers(s) is Ok,
        0 <= i < s.len(),
    ensures
        s[i].via == Via::Tor ==> s[i].transport == Transport::Dot,
        s[i].transport == Transport::Dot ==> s[i].tls_name is Some,
        s[i].transport != Transport::Tcp,
{
    lemma_no_error(s, 0, i);
}

proof fn lemma_no_error(s: Seq<ServerV>, from: int, i: int)
    requires
        0 <= from <= i < s.len(),
        first_server_error(s, from) is None,
    ensures
        server_error(s[i]) is None,
    decreases i - from,
{
    if from < i {
        lemma_no_error(s, from + 1, i);
    }
}

/// Why the servers of the forwarder for `domain` were turned down, in words; `address` is
/// the server's address in text form.
pub open spec fn server_error_text(
    e: ServerError,
    domain: Seq<char>,
    address: Seq<char>,
) -> Seq<char> {
    match e {
        ServerError::DotWithoutTlsName(_) => "forwarder "@ + domain + ": server "@ + address
            + " sets transport: dot but no tls_name"@,
        ServerError::TcpNotWired(_) => "forwarder "@ + domain + ": server "@ + address
            + ": transport: tcp is not yet wired (see DESIGN-tor-forwarder.md)"@,
        ServerError::TorWithoutDot(_, t) => "forwarder "@ + domain + ": server "@ + address
            + ": via: tor requires transport: dot (plain "@ + transport_text(t)
            + " would expose queries to the Tor exit; see DESIGN-tor-forwarder.md)"@,
        ServerError::Mixed => "forwarder "@ + domain
            + ": mixes via: tor and via: direct servers — a forwarder must be all-tor or all-direct so a tor query can never fall back to a leaking direct sibling (see DESIGN-tor-forwarder.md §10.4)"@,
    }
}

impl ServerError {
    /// The error in words.
    pub fn describe(&self, domain: &str, address: &str) -> (r: String)
        ensures
            r@ == server_error_text(*self, domain@, address@),
    {
        let mut s = join4("forwarder ", domain, ": server ", address);
        match self {
            ServerError::DotWithoutTlsName(_) => {
                push_text(&mut s, " sets transport: dot but no tls_name");
            },
            ServerError::TcpNotWired(_) => {
                push_text(
                    &mut s,
                    ": transport: tcp is not yet wired (see DESIGN-tor-forwarder.md)",
                );
            },
            ServerError::TorWithoutDot(_, t) => {
                push_text(&mut s, ": via: tor requires transport: dot (plain ");
                push_text(&mut s, transport_name(*t));
                push_text(
                    &mut s,
                    " would expose queries to the Tor exit; see DESIGN-tor-forwarder.md)",
                );
            },
            ServerError::Mixed => {
                let m = crate::text::join3(
                    "forwarder ",
                    domain,
                    ": mixes via: tor and via: direct servers — a forwarder must be all-tor or all-direct so a tor query can never fall back to a leaking direct sibling (see DESIGN-tor-forwarder.md §10.4)",
                );
                return m;
            },
        }
        s
    }
}

/// Why there is no configuration for a routing domain.
#[derive(Debug, Clone, Copy, PartialEq, Eq, Structural)]
pub enum VrfError {
    /// The router has no such domain.
    NotDeclared,
    /// The domain has no DNS configuration.
    NotConfigured,
}

/// The position of the first domain of this name, from `i` on.
pub open spec fn vrf_at(s: Seq<DnsVrfConfig>, name: Seq<char>, i: int) -> Option<int>
    decreases s.len() - i,
{
    if i < 0 || i >= s.len() {
        None
    } else if s[i].name@ == name {
        Some(i)
    } else {
        vrf_at(s, name, i + 1)
    }
}

/// The router declares a domain of this name.
pub open spec fn declares(s: Seq<VrfYaml>, name: Seq<char>) -> bool {
    exists|i: int| 0 <= i < s.len() && (#[trigger] s[i]).name@ == name
}

/// The configuration is that of one routing domain, with the given SOCKS proxy.
pub open spec fn is_vrf_config(c: DnsConfig, v: DnsVrfConfig, tor_socks: SocketAddr) -> bool {
    &&& c.enabled == v.enabled
    &&& c.listeners == v.listeners
    &&& c.forwarders == v.forwarders
    &&& c.recursion == v.recursion
    &&& c.cache == v.cache
    &&& c.dns64 == v.dns64
    &&& c.tls == v.tls
    &&& c.rate_limit == v.rate_limit
    &&& c.sfw == v.sfw
    &&& c.tcp_workers == v.tcp_workers
    &&& c.tor_socks == tor_socks
    &&& c.vrfs@.len() == 0
}

/// The configuration of one routing domain. The SOCKS proxy is the router's.
pub fn select_vrf(declared: &Vec<VrfYaml>, dns: DnsConfig, vrf_name: &str) -> (r: Result<
    DnsConfig,
    VrfError,
>)
    ensures
        match r {
            Err(VrfError::NotDeclared) => !declares(declared@, vrf_name@),
            Err(VrfError::NotConfigured) => declares(declared@, vrf_name@) && vrf_at(
                dns.vrfs@,
                vrf_name@,
                0,
            ) is None,
            Ok(c) => declares(declared@, vrf_name@) && vrf_at(dns.vrfs@, vrf_name@, 0) is Some
                && is_vrf_config(
                c,
                dns.vrfs@[vrf_at(dns.vrfs@, vrf_name@, 0)->0],
                dns.tor_socks,
            ),
        },
{
    let mut found: bool = false;
    let mut i: usize = 0;
    while i < declared.len()
        invariant
            i <= declared@.len(),
            found <==> exists|j: int| 0 <= j < i && (#[trigger] declared@[j]).name@ == vrf_name@,
        decreases declared@.len() - i,
    {
        if str_eq(declared[i].name.as_str(), vrf_name) {
            found = true;
        }
        i += 1;
    }
    if !found {
        return Err(VrfError::NotDeclared);
    }
    let tor_socks: SocketAddr = dns.tor_socks;
    let mut vrfs: Vec<DnsVrfConfig> = dns.vrfs;
    let mut k: usize = 0;
    while k < vrfs.len()
        invariant
            k <= vrfs@.len(),
            vrfs@ == dns.vrfs@,
            declares(declared@, vrf_name@),
            tor_socks == dns.tor_socks,
            vrf_at(vrfs@, vrf_name@, 0) == vrf_at(vrfs@, vrf_name@, k as int),
        decreases vrfs@.len() - k,
    {
        if str_eq(vrfs[k].name.as_str(), vrf_name) {
            let v = vrfs.swap_remove(k);
            return Ok(
                DnsConfig {
                    enabled: v.enabled,
                    listeners: v.listeners,
                    forwarders: v.forwarders,
                    recursion: v.recursion,
                    cache: v.cache,
                    dns64: v.dns64,
                    tls: v.tls,
                    rate_limit: v.rate_limit,
                    sfw: v.sfw,
                    tcp_workers: v.tcp_workers,
                    tor_socks,
                    vrfs: Vec::new(),
                },
            );
        }
        k += 1;
    }
    Err(VrfError::NotConfigured)
}

/// The servers of a forwarder are refused for the first of them that is wrong.
pub proof fn law_first_bad_server_is_named(s: Seq<ServerV>, from: int)
    requires
        0 <= from <= s.len(),
    ensures
        match first_server_error(s, from) {
            Some(v) => exists|i: int|
                {
                    &&& from <= i < s.len()
                    &&& server_error((#[trigger] s[i])) is Some
                    &&& v == server_error(s[i])->0
                    &&& forall|j: int| from <= j < i ==> !(server_error((#[trigger] s[j])) is Some)
                },
            None => forall|j: int| from <= j < s.len() ==> !(server_error((#[trigger] s[j])) is Some),
        },
    decreases s.len() - from,
{
    if from < s.len() {
        if server_error(s[from]) is Some {
            assert(first_server_error(s, from) == Some(server_error(s[from])->0));
        } else {
            law_first_bad_server_is_named(s, from + 1);
        }
    }
}


/// The servers of a forwarder are taken, all of them and in order, exactly where each is
/// plain and direct, or has TLS with a name to verify, and none or all of them go through Tor.
pub proof fn law_good_servers_are_taken(s: Seq<ServerV>)
    ensures
        checked_servers(s) is Ok <==> (forall|i: int|
            0 <= i < s.len() ==> server_usable(#[trigger] s[i])) && (forall|i: int, j: int|
            0 <= i < s.len() && 0 <= j < s.len() ==> (#[trigger] s[i]).via == (#[trigger] s[j]).via),
        checked_servers(s) is Ok ==> checked_servers(s)->Ok_0 == s,
{
    law_first_bad_server_is_named(s, 0);
    assert forall|i: int| 0 <= i < s.len() implies server_usable(#[trigger] s[i]) == (server_error(
        s[i],
    ) is None) by {}
    if checked_servers(s) is Ok {
        assert forall|i: int, j: int| 0 <= i < s.len() && 0 <= j < s.len() implies (
        #[trigger] s[i]).via == (#[trigger] s[j]).via by {
            law_tor_never_mixes_with_direct(s, i, j);
        }
    } else if first_server_error(s, 0) is None {
        let i = choose|i: int| 0 <= i < s.len() && (#[trigger] s[i]).via == Via::Tor;
        let j = choose|j: int| 0 <= j < s.len() && (#[trigger] s[j]).via == Via::Direct;
        assert(s[i].via != s[j].via);
    }
}

/// A server that can be asked: plainly and directly, or with TLS under a name to verify.
pub open spec fn server_usable(s: ServerV) -> bool {
    ||| s.transport == Transport::Udp && s.via == Via::Direct
    ||| s.transport == Transport::Dot && s.tls_name is Some
}

/// The DNSSEC mode is the configured one, but for the older switch, which turns validation on
/// where nothing else was chosen.
pub proof fn law_effective_mode(r: Recursion)
    ensures
        r.dnssec != DnssecMode::PassThrough ==> dnssec_mode(r) == r.dnssec,
        r.dnssec == DnssecMode::PassThrough && r.dnssec_validate ==> dnssec_mode(r)
            == DnssecMode::Validate,
        r.dnssec == DnssecMode::PassThrough && !r.dnssec_validate ==> dnssec_mode(r)
            == DnssecMode::PassThrough,
        mode_policy(DnssecMode::PassThrough) == DnssecPolicy::PassThrough,
        mode_policy(DnssecMode::Strip) == DnssecPolicy::Strip,
        mode_policy(DnssecMode::Validate) == DnssecPolicy::Validate,
{
}

/// The configuration of a VRF is the first of its name.
pub proof fn law_first_vrf_of_the_name(s: Seq<DnsVrfConfig>, name: Seq<char>, from: int)
    requires
        0 <= from <= s.len(),
    ensures
        match vrf_at(s, name, from) {
            Some(i) => {
                &&& from <= i < s.len()
                &&& s[i].name@ == name
                &&& forall|j: int| from <= j < i ==> !((#[trigger] s[j]).name@ == name)
            },
            None => forall|j: int| from <= j < s.len() ==> !((#[trigger] s[j]).name@ == name),
        },
    decreases s.len() - from,
{
    if from < s.len() && !(s[from].name@ == name) {
        law_first_vrf_of_the_name(s, name, from + 1);
    }
}

/// The configuration of a VRF is its own in every part, but for the way to Tor, which all
/// share.
pub proof fn law_vrf_has_its_own_configuration(c: DnsConfig, v: DnsVrfConfig, tor_socks: SocketAddr)
    requires
        is_vrf_config(c, v, tor_socks),
    ensures
        c.enabled == v.enabled,
        c.listeners == v.listeners,
        c.forwarders == v.forwarders,
        c.recursion == v.recursion,
        c.cache == v.cache,
        c.dns64 == v.dns64,
        c.tls == v.tls,
        c.rate_limit == v.rate_limit,
        c.tor_socks == tor_socks,
        c.vrfs@.len() == 0,
{
}

} // verus!
