//! Forwarding: which servers are asked for a name, and which replies are believed.

use crate::bytes::{be16_at, be16_bytes, copy_bytes, read_be16};
use crate::codec::{decoded, encoded};
use crate::config::{
    checked_servers, law_tor_requires_tls, servers_v, specs_v, Forwarder, ForwarderServer,
    ServerError, ServerV, Transport, Via,
};
use crate::name::{counted_labels, in_zone, lower, Labels, Name};
use crate::names::{ascii_name, name_text};
use crate::net::{IpAddr, SocketAddr};
use crate::recursor::cache::rewrite_txid;
use crate::recursor::ddr::DOT_PORT;
use crate::recursor::dot_pool::{DotConnKey, KeyV};
use crate::recursor::reply::{lowercase_response_names, lowered};
use crate::recursor::zeroxtwenty::{
    echo_error, encode_with, flipped, qname_end, verify, EchoError, QnameError,
};
use crate::wire::{Header, Message, MessageV};
use vstd::prelude::*;

verus! {

/// How long a server is waited for where nothing is configured, in milliseconds.
pub const DEFAULT_UPSTREAM_TIMEOUT_MS: u64 = 2500;

/// The port of plain DNS.
pub const DNS_PORT: u16 = 53;

/// The largest message that a length prefix can announce.
pub const MAX_TCP_MESSAGE: usize = 65535;

/// The servers for one domain.
#[derive(Debug)]
pub struct ForwarderEntry {
    pub domain: Name,
    pub servers: Vec<ForwarderServer>,
}

/// The value of a [`ForwarderEntry`].
#[verifier::ext_equal]
pub ghost struct EntryV {
    pub domain: Labels,
    pub servers: Seq<ServerV>,
}

impl View for ForwarderEntry {
    type V = EntryV;

    open spec fn view(&self) -> EntryV {
        EntryV { domain: self.domain@, servers: servers_v(self.servers@) }
    }
}

/// All forwarders, the deepest domains first.
#[derive(Debug)]
pub struct Forwarders {
    pub entries: Vec<ForwarderEntry>,
}

/// The values of a list of entries.
pub open spec fn entries_v(s: Seq<ForwarderEntry>) -> Seq<EntryV> {
    Seq::new(s.len(), |i: int| s[i]@)
}

impl View for Forwarders {
    type V = Seq<EntryV>;

    open spec fn view(&self) -> Seq<EntryV> {
        entries_v(self.entries@)
    }
}

/// Why forwarders were turned down.
#[derive(Debug, Clone, Copy, PartialEq, Eq, Structural)]
pub enum ForwarderError {
    BadDomain,
    Servers(ServerError),
}

/// The first position, from `i` on, of an entry less deep than `depth`.
pub open spec fn slot_for(s: Seq<EntryV>, depth: nat, i: int) -> int
    decreases s.len() - i,
{
    if i < 0 || i >= s.len() {
        i
    } else if counted_labels(s[i].domain) < depth {
        i
    } else {
        slot_for(s, depth, i + 1)
    }
}

/// The entries with one more, behind those at least as deep.
pub open spec fn with_entry(s: Seq<EntryV>, e: EntryV) -> Seq<EntryV> {
    s.insert(slot_for(s, counted_labels(e.domain), 0), e)
}

/// The entry that one configured forwarder stands for. Its domain is absolute however it
/// was written.
pub open spec fn entry_of(domain: Seq<char>, servers: Seq<ServerV>) -> Result<
    EntryV,
    ForwarderError,
> {
    match ascii_name(domain) {
        None => Err(ForwarderError::BadDomain),
        Some((n, _)) => match checked_servers(servers) {
            Err(e) => Err(ForwarderError::Servers(e)),
            Ok(servers) => Ok(EntryV { domain: lower(n), servers }),
        },
    }
}

/// The entries that configured forwarders stand for; the first fault decides.
pub open spec fn entries_of(cfgs: Seq<Forwarder>) -> Result<Seq<EntryV>, ForwarderError>
    decreases cfgs.len(),
{
    if cfgs.len() == 0 {
        Ok(Seq::empty())
    } else {
        match entries_of(cfgs.drop_last()) {
            Err(e) => Err(e),
            Ok(rest) => match entry_of(cfgs.last().domain@, specs_v(cfgs.last().servers@)) {
                Err(e) => Err(e),
                Ok(e) => Ok(with_entry(rest, e)),
            },
        }
    }
}

/// The name lies under the domain.
pub open spec fn is_under(name: Labels, domain: Labels) -> bool {
    counted_labels(name) >= counted_labels(domain) && in_zone(domain, name)
}

/// The first entry, from `i` on, for the name.
pub open spec fn entry_at(s: Seq<EntryV>, name: Labels, i: int) -> Option<int>
    decreases s.len() - i,
{
    if i < 0 || i >= s.len() {
        None
    } else if is_under(name, s[i].domain) {
        Some(i)
    } else {
        entry_at(s, name, i + 1)
    }
}

/// Whether the name lies under the domain.
pub fn is_suffix(name: &Name, suffix: &Name) -> (r: bool)
    ensures
        r == is_under(name@, suffix@),
{
    name.num_labels() >= suffix.num_labels() && suffix.zone_of(name)
}

fn insert_entry(s: &mut Vec<ForwarderEntry>, e: ForwarderEntry)
    ensures
        entries_v(final(s)@) == with_entry(entries_v(old(s)@), e@),
{
    let ghost v = entries_v(s@);
    let depth: usize = e.domain.num_labels();
    let n: usize = s.len();
    let mut p: usize = 0;
    while p < n && s[p].domain.num_labels() >= depth
        invariant
            p <= n,
            n == s@.len(),
            v == entries_v(s@),
            depth == counted_labels(e@.domain),
            slot_for(v, depth as nat, 0) == slot_for(v, depth as nat, p as int),
        decreases n - p,
    {
        assert(v[p as int] == s@[p as int]@);
        p += 1;
    }
    proof {
        if p < n {
            assert(v[p as int] == s@[p as int]@);
        }
        assert(slot_for(v, depth as nat, 0) == p);
    }
    s.insert(p, e);
    assert(entries_v(s@) =~= v.insert(p as int, e@));
}

impl Forwarders {
    /// The forwarders that a configuration stands for.
    pub fn new(configs: &Vec<Forwarder>) -> (r: Result<Forwarders, ForwarderError>)
        ensures
            entries_of(configs@) == (match r {
                Ok(f) => Ok(f@),
                Err(e) => Err(e),
            }),
    {
        let ghost v = configs@;
        let mut entries: Vec<ForwarderEntry> = Vec::new();
        let mut failed: Option<ForwarderError> = None;
        let mut i: usize = 0;
        assert(entries_v(entries@) =~= Seq::empty());
        while i < configs.len()
            invariant
                i <= configs@.len(),
                v == configs@,
                entries_of(v.subrange(0, i as int)) == (match failed {
                    None => Ok(entries_v(entries@)),
                    Some(e) => Err(e),
                }),
            decreases configs@.len() - i,
        {
            let c: &Forwarder = &configs[i];
            proof {
                assert(v.subrange(0, i + 1).drop_last() =~= v.subrange(0, i as int));
                assert(v.subrange(0, i + 1).last() == *c);
            }
            if failed.is_none() {
                match Name::from_ascii(c.domain.as_str()) {
                    None => {
                        failed = Some(ForwarderError::BadDomain);
                    },
                    Some((n, _)) => match c.resolved_servers() {
                        Err(e) => {
                            failed = Some(ForwarderError::Servers(e));
                        },
                        Ok(servers) => {
                            insert_entry(
                                &mut entries,
                                ForwarderEntry { domain: n.to_lowercase(), servers },
                            );
                        },
                    },
                }
            }
            i += 1;
        }
        assert(v.subrange(0, v.len() as int) =~= v);
        match failed {
            Some(e) => Err(e),
            None => Ok(Forwarders { entries }),
        }
    }

    /// The domain under which a name is forwarded, and its servers; none where it is not
    /// forwarded.
    pub fn lookup_with_domain(&self, qname: &Name) -> (r: Option<(&Name, &Vec<ForwarderServer>)>)
        ensures
            match (r, entry_at(self@, qname@, 0)) {
                (Some((d, s)), Some(i)) => d@ == self@[i].domain && servers_v(s@)
                    == self@[i].servers,
                (None, None) => true,
                _ => false,
            },
    {
        let mut i: usize = 0;
        while i < self.entries.len()
            invariant
                i <= self.entries@.len(),
                entry_at(self@, qname@, 0) == entry_at(self@, qname@, i as int),
            decreases self.entries@.len() - i,
        {
            assert(self@[i as int] == self.entries@[i as int]@);
            if is_suffix(qname, &self.entries[i].domain) {
                return Some((&self.entries[i].domain, &self.entries[i].servers));
            }
            i += 1;
        }
        None
    }

    /// The servers for a name; none where it is not forwarded.
    pub fn lookup(&self, qname: &Name) -> (r: Option<&Vec<ForwarderServer>>)
        ensures
            match (r, entry_at(self@, qname@, 0)) {
                (Some(s), Some(i)) => servers_v(s@) == self@[i].servers,
                (None, None) => true,
                _ => false,
            },
    {
        match self.lookup_with_domain(qname) {
            Some((_, servers)) => Some(servers),
            None => None,
        }
    }

    /// The domains and the addresses of their servers, for display.
    pub fn snapshot(&self) -> (r: Vec<(String, Vec<IpAddr>)>)
        ensures
            r@.len() == self@.len(),
            forall|i: int|
                0 <= i < r@.len() ==> (#[trigger] r@[i]).0@ == name_text(self@[i].domain)
                    && r@[i].1@ == addresses_of(self@[i].servers),
    {
        let mut out: Vec<(String, Vec<IpAddr>)> = Vec::new();
        let mut i: usize = 0;
        while i < self.entries.len()
            invariant
                i <= self.entries@.len(),
                out@.len() == i,
                forall|j: int|
                    0 <= j < i ==> (#[trigger] out@[j]).0@ == name_text(self@[j].domain)
                        && out@[j].1@ == addresses_of(self@[j].servers),
            decreases self.entries@.len() - i,
        {
            let e: &ForwarderEntry = &self.entries[i];
            assert(self@[i as int] == e@);
            let mut ips: Vec<IpAddr> = Vec::new();
            let mut j: usize = 0;
            while j < e.servers.len()
                invariant
                    j <= e.servers@.len(),
                    ips@.len() == j,
                    forall|k: int| 0 <= k < j ==> #[trigger] ips@[k] == e.servers@[k]@.address,
                decreases e.servers@.len() - j,
            {
                ips.push(e.servers[j].address);
                j += 1;
            }
            assert(ips@ =~= addresses_of(e@.servers));
            out.push((e.domain.text(), ips));
            i += 1;
        }
        out
    }
}

/// The addresses of a list of servers.
pub open spec fn addresses_of(s: Seq<ServerV>) -> Seq<IpAddr> {
    Seq::new(s.len(), |i: int| s[i].address)
}

/// Entries in order of depth, the deepest first.
pub open spec fn deepest_first(s: Seq<EntryV>) -> bool {
    forall|i: int, j: int|
        0 <= i < j < s.len() ==> counted_labels((#[trigger] s[i]).domain) >= counted_labels(
            (#[trigger] s[j]).domain,
        )
}

proof fn lemma_slot(s: Seq<EntryV>, depth: nat, i: int)
    requires
        0 <= i <= s.len(),
        deepest_first(s),
        forall|j: int| 0 <= j < i ==> counted_labels((#[trigger] s[j]).domain) >= depth,
    ensures
        i <= slot_for(s, depth, i) <= s.len(),
        forall|j: int|
            0 <= j < slot_for(s, depth, i) ==> counted_labels((#[trigger] s[j]).domain) >= depth,
        forall|j: int|
            slot_for(s, depth, i) <= j < s.len() ==> counted_labels((#[trigger] s[j]).domain)
                < depth,
    decreases s.len() - i,
{
    if i < s.len() {
        if counted_labels(s[i].domain) < depth {
            assert forall|j: int| i <= j < s.len() implies counted_labels(
                (#[trigger] s[j]).domain,
            ) < depth by {
                if j > i {
                    assert(counted_labels(s[i].domain) >= counted_labels(s[j].domain));
                }
            }
        } else {
            lemma_slot(s, depth, i + 1);
        }
    }
}

proof fn lemma_entries_sorted(cfgs: Seq<Forwarder>)
    requires
        entries_of(cfgs) is Ok,
    ensures
        deepest_first(entries_of(cfgs)->Ok_0),
    decreases cfgs.len(),
{
    if cfgs.len() > 0 {
        lemma_entries_sorted(cfgs.drop_last());
        let rest = entries_of(cfgs.drop_last())->Ok_0;
        let e = entry_of(cfgs.last().domain@, specs_v(cfgs.last().servers@))->Ok_0;
        let d = counted_labels(e.domain);
        lemma_slot(rest, d, 0);
        let p = slot_for(rest, d, 0);
        let s = with_entry(rest, e);
        assert forall|i: int, j: int| 0 <= i < j < s.len() implies counted_labels(
            (#[trigger] s[i]).domain,
        ) >= counted_labels((#[trigger] s[j]).domain) by {
            let a = if i < p {
                i
            } else {
                i - 1
            };
            let b = if j < p {
                j
            } else {
                j - 1
            };
            if i == p {
                assert(s[j] == rest[b]);
            } else if j == p {
                assert(s[i] == rest[a]);
            } else {
                assert(s[i] == rest[a]);
                assert(s[j] == rest[b]);
            }
        }
    }
}

proof fn lemma_entry_at(s: Seq<EntryV>, name: Labels, from: int, k: int)
    requires
        0 <= from <= k < s.len(),
        is_under(name, s[k].domain),
    ensures
        entry_at(s, name, from) is Some,
        from <= entry_at(s, name, from)->0 <= k,
        is_under(name, s[entry_at(s, name, from)->0].domain),
    decreases k - from,
{
    if !is_under(name, s[from].domain) {
        lemma_entry_at(s, name, from + 1, k);
    }
}

/// The longest suffix wins: of all forwarders whose domain a name lies under, the one
/// that is asked has the deepest domain.
pub proof fn law_longest_suffix_wins(cfgs: Seq<Forwarder>, name: Labels, k: int)
    requires
        entries_of(cfgs) is Ok,
        0 <= k < entries_of(cfgs)->Ok_0.len(),
        is_under(name, entries_of(cfgs)->Ok_0[k].domain),
    ensures
        entry_at(entries_of(cfgs)->Ok_0, name, 0) is Some,
        is_under(
            name,
            entries_of(cfgs)->Ok_0[entry_at(entries_of(cfgs)->Ok_0, name, 0)->0].domain,
        ),
        counted_labels(entries_of(cfgs)->Ok_0[k].domain) <= counted_labels(
            entries_of(cfgs)->Ok_0[entry_at(entries_of(cfgs)->Ok_0, name, 0)->0].domain,
        ),
{
    let s = entries_of(cfgs)->Ok_0;
    lemma_entries_sorted(cfgs);
    lemma_entry_at(s, name, 0, k);
    let i = entry_at(s, name, 0)->0;
    if i < k {
        assert(counted_labels(s[i].domain) >= counted_labels(s[k].domain));
    }
}

/// Why a reply is not believed.
#[derive(Debug, Clone, Copy, PartialEq, Eq, Structural)]
pub enum ReplyError {
    WrongSource,
    TooShort,
    TooLong,
    WrongId,
    Question(EchoError),
}

/// What is wrong with a reply's id or question, if anything.
pub open spec fn reply_error(resp: Seq<u8>, txid: u16, qname: Seq<u8>) -> Option<ReplyError> {
    if resp.len() < 12 {
        Some(ReplyError::TooShort)
    } else if be16_at(resp, 0) != txid {
        Some(ReplyError::WrongId)
    } else {
        match echo_error(resp, qname) {
            Some(e) => Some(ReplyError::Question(e)),
            None => None,
        }
    }
}

fn check_reply(resp: &[u8], txid: u16, qname: &[u8]) -> (r: Result<(), ReplyError>)
    ensures
        reply_error(resp@, txid, qname@) == (match r {
            Ok(()) => None,
            Err(e) => Some(e),
        }),
{
    if resp.len() < 12 {
        return Err(ReplyError::TooShort);
    }
    if read_be16(resp, 0) != txid {
        return Err(ReplyError::WrongId);
    }
    match verify(resp, qname) {
        Ok(()) => Ok(()),
        Err(e) => Err(ReplyError::Question(e)),
    }
}

/// Check a reply that came by UDP: from the server that was asked, with the id and the
/// question of the query.
pub fn check_udp_reply(
    from: IpAddr,
    peer: IpAddr,
    resp: &[u8],
    expected_txid: u16,
    expected_qname: &[u8],
) -> (r: Result<(), ReplyError>)
    ensures
        (if from != peer {
            Some(ReplyError::WrongSource)
        } else {
            reply_error(resp@, expected_txid, expected_qname@)
        }) == (match r {
            Ok(()) => None,
            Err(e) => Some(e),
        }),
{
    if from != peer {
        return Err(ReplyError::WrongSource);
    }
    check_reply(resp, expected_txid, expected_qname)
}

/// Check a reply that came by TCP.
pub fn check_tcp_reply(resp: &[u8], expected_txid: u16, expected_qname: &[u8]) -> (r: Result<
    (),
    ReplyError,
>)
    ensures
        (if resp@.len() < 12 {
            Some(ReplyError::TooShort)
        } else if resp@.len() > MAX_TCP_MESSAGE {
            Some(ReplyError::TooLong)
        } else {
            reply_error(resp@, expected_txid, expected_qname@)
        }) == (match r {
            Ok(()) => None,
            Err(e) => Some(e),
        }),
{
    if resp.len() < 12 {
        return Err(ReplyError::TooShort);
    }
    if resp.len() > MAX_TCP_MESSAGE {
        return Err(ReplyError::TooLong);
    }
    check_reply(resp, expected_txid, expected_qname)
}

/// A query as it goes upstream.
#[derive(Debug)]
pub struct Outgoing {
    pub bytes: Vec<u8>,
    pub txid: u16,
    /// The question name as sent, which the reply has to echo.
    pub qname: Vec<u8>,
}

/// The query with another id.
pub open spec fn with_id(query: Seq<u8>, txid: u16) -> Seq<u8> {
    be16_bytes(txid) + query.subrange(2, query.len() as int)
}

/// Make a client's query ready to go upstream: an id of its own and, where `flips` says
/// so, letters in the other case.
pub fn prepare_query(orig: &[u8], txid: u16, flips: &Vec<bool>) -> (r: Result<Outgoing, QnameError>)
    requires
        orig@.len() >= 2,
        orig@.len() <= flips@.len() + 12,
    ensures
        match r {
            Ok(o) => {
                &&& qname_end(with_id(orig@, txid)) is Ok
                &&& o.txid == txid
                &&& o.bytes@ == flipped(with_id(orig@, txid), flips@)
                &&& o.qname@ == o.bytes@.subrange(12, qname_end(with_id(orig@, txid))->Ok_0)
            },
            Err(e) => qname_end(with_id(orig@, txid)) == Err::<int, QnameError>(e),
        },
{
    let mut bytes = copy_bytes(orig);
    rewrite_txid(&mut bytes, txid);
    assert(bytes@ == with_id(orig@, txid));
    match encode_with(&mut bytes, flips) {
        Ok(qname) => Ok(Outgoing { bytes, txid, qname }),
        Err(e) => Err(e),
    }
}

/// What to do with a reply that came by UDP.
#[derive(Debug, Clone, Copy, PartialEq, Eq, Structural)]
pub enum UdpNext {
    /// It was cut off: ask again by TCP.
    RetryTcp,
    /// Use it.
    Use,
    /// It is no message.
    Unreadable,
}

/// What to do with a reply that came by UDP.
pub fn after_udp(resp: &[u8]) -> (r: UdpNext)
    ensures
        r == (match decoded(resp@) {
            None => UdpNext::Unreadable,
            Some(m) => if m.header.truncated {
                UdpNext::RetryTcp
            } else {
                UdpNext::Use
            },
        }),
{
    match Message::from_bytes(resp) {
        None => UdpNext::Unreadable,
        Some(m) => if m.header.truncated {
            UdpNext::RetryTcp
        } else {
            UdpNext::Use
        },
    }
}

/// A reply as it goes back to the client: names in lower case, the client's id.
pub open spec fn normalised(resp: Seq<u8>, client_txid: u16) -> Option<Seq<u8>> {
    match decoded(resp) {
        None => None,
        Some(m) => encoded(normalised_message(m, client_txid)),
    }
}

/// A reply message as it goes back to the client.
pub open spec fn normalised_message(m: MessageV, client_txid: u16) -> MessageV {
    MessageV { header: Header { id: client_txid, ..m.header }, ..lowered(m) }
}

/// Make a reply message ready to go back to the client.
pub fn normalise_message(m: Message, client_txid: u16) -> (r: Message)
    ensures
        r@ == normalised_message(m@, client_txid),
{
    let mut m = m;
    lowercase_response_names(&mut m);
    m.header.id = client_txid;
    m
}

/// Make a reply ready to go back to the client.
pub fn normalise_reply(resp: &[u8], client_txid: u16) -> (r: Option<Vec<u8>>)
    ensures
        normalised(resp@, client_txid) == (match r {
            Some(b) => Some(b@),
            None => None,
        }),
{
    match Message::from_bytes(resp) {
        None => None,
        Some(m) => normalise_message(m, client_txid).to_bytes(),
    }
}

/// A query that waits for its reply.
#[derive(Debug, Clone, Copy, PartialEq, Eq, Structural)]
pub struct Waiting {
    pub peer: IpAddr,
    pub txid: u16,
    pub waiter: u64,
}

/// The queries that wait for replies on one socket; each waiter is known by a number.
#[derive(Debug)]
pub struct Pending {
    pub slots: Vec<Waiting>,
}

/// Who waits for a reply of this server with this id.
pub open spec fn waiter_at(s: Seq<Waiting>, peer: IpAddr, txid: u16, i: int) -> Option<int>
    decreases s.len() - i,
{
    if i < 0 || i >= s.len() {
        None
    } else if s[i].peer == peer && s[i].txid == txid {
        Some(i)
    } else {
        waiter_at(s, peer, txid, i + 1)
    }
}

impl Pending {
    /// No two queries to one server have the same id.
    pub open spec fn wf(&self) -> bool {
        forall|i: int, j: int|
            0 <= i < j < self.slots@.len() ==> !((#[trigger] self.slots@[i]).peer == (
            #[trigger] self.slots@[j]).peer && self.slots@[i].txid == self.slots@[j].txid)
    }

    /// The waiter for a reply of this server with this id.
    pub open spec fn waiter(&self, peer: IpAddr, txid: u16) -> Option<u64> {
        match waiter_at(self.slots@, peer, txid, 0) {
            Some(i) => Some(self.slots@[i].waiter),
            None => None,
        }
    }

    /// Nobody waits.
    pub fn new() -> (r: Pending)
        ensures
            r.wf(),
            forall|p: IpAddr, t: u16| r.waiter(p, t) is None,
    {
        Pending { slots: Vec::new() }
    }

    fn find(&self, peer: IpAddr, txid: u16) -> (r: Option<usize>)
        ensures
            waiter_at(self.slots@, peer, txid, 0) == (match r {
                Some(i) => Some(i as int),
                None => None,
            }),
            r is Some ==> r->0 < self.slots@.len() && self.slots@[r->0 as int].peer == peer
                && self.slots@[r->0 as int].txid == txid,
            r is None ==> forall|j: int|
                0 <= j < self.slots@.len() ==> !((#[trigger] self.slots@[j]).peer == peer
                    && self.slots@[j].txid == txid),
    {
        let mut i: usize = 0;
        while i < self.slots.len()
            invariant
                i <= self.slots@.len(),
                waiter_at(self.slots@, peer, txid, 0) == waiter_at(
                    self.slots@,
                    peer,
                    txid,
                    i as int,
                ),
                forall|j: int|
                    0 <= j < i ==> !((#[trigger] self.slots@[j]).peer == peer
                        && self.slots@[j].txid == txid),
            decreases self.slots@.len() - i,
        {
            if self.slots[i].peer == peer && self.slots[i].txid == txid {
                return Some(i);
            }
            i += 1;
        }
        None
    }

    /// Wait for a reply. A query whose id is in use towards the server is turned away.
    pub fn register(&mut self, peer: IpAddr, txid: u16, waiter: u64) -> (r: bool)
        requires
            old(self).wf(),
        ensures
            final(self).wf(),
            r == (old(self).waiter(peer, txid) is None),
            !r ==> final(self).slots@ == old(self).slots@,
            r ==> final(self).slots@ == old(self).slots@.push(Waiting { peer, txid, waiter }),
            r ==> final(self).waiter(peer, txid) == Some(waiter),
    {
        if self.find(peer, txid).is_some() {
            return false;
        }
        let ghost before = self.slots@;
        self.slots.push(Waiting { peer, txid, waiter });
        proof {
            lemma_waiter_push(before, Waiting { peer, txid, waiter }, peer, txid, 0);
            assert(self.slots@[before.len() as int] == (Waiting { peer, txid, waiter }));
        }
        true
    }

    /// Take out whoever waits for a reply of this server with this id.
    pub fn take(&mut self, peer: IpAddr, txid: u16) -> (r: Option<u64>)
        requires
            old(self).wf(),
        ensures
            final(self).wf(),
            r == old(self).waiter(peer, txid),
            r is None ==> final(self).slots@ == old(self).slots@,
            r is Some ==> final(self).slots@ == old(self).slots@.remove(
                waiter_at(old(self).slots@, peer, txid, 0)->0,
            ),
            final(self).waiter(peer, txid) is None,
    {
        match self.find(peer, txid) {
            None => None,
            Some(i) => {
                let ghost before = self.slots@;
                let w: Waiting = self.slots.remove(i);
                proof {
                    let after = self.slots@;
                    assert forall|a: int, b: int| 0 <= a < b < after.len() implies !((
                    #[trigger] after[a]).peer == (#[trigger] after[b]).peer && after[a].txid
                        == after[b].txid) by {
                        let x = if a < i {
                            a
                        } else {
                            a + 1
                        };
                        let y = if b < i {
                            b
                        } else {
                            b + 1
                        };
                        assert(after[a] == before[x]);
                        assert(after[b] == before[y]);
                    }
                    assert forall|j: int| 0 <= j < after.len() implies !((
                    #[trigger] after[j]).peer == peer && after[j].txid == txid) by {
                        let x = if j < i {
                            j
                        } else {
                            j + 1
                        };
                        assert(after[j] == before[x]);
                        assert(before[i as int].peer == peer);
                    }
                    lemma_no_waiter(after, peer, txid, 0);
                }
                Some(w.waiter)
            },
        }
    }

    /// Who a datagram is for, if anybody; that waiter is taken out. Datagrams too short
    /// for a header are for nobody.
    pub fn route(&mut self, from: IpAddr, datagram: &[u8]) -> (r: Option<u64>)
        requires
            old(self).wf(),
        ensures
            final(self).wf(),
            r == (if datagram@.len() < 12 {
                None
            } else {
                old(self).waiter(from, be16_at(datagram@, 0))
            }),
            r is None ==> final(self).slots@ == old(self).slots@,
            r is Some ==> final(self).slots@ == old(self).slots@.remove(
                waiter_at(old(self).slots@, from, be16_at(datagram@, 0), 0)->0,
            ),
    {
        if datagram.len() < 12 {
            return None;
        }
        self.take(from, read_be16(datagram, 0))
    }
}

proof fn lemma_waiter_push(s: Seq<Waiting>, w: Waiting, peer: IpAddr, txid: u16, i: int)
    requires
        0 <= i <= s.len(),
        waiter_at(s, peer, txid, i) is None,
        w.peer == peer,
        w.txid == txid,
    ensures
        waiter_at(s.push(w), peer, txid, i) == Some(s.len() as int),
    decreases s.len() - i,
{
    if i < s.len() {
        assert(s.push(w)[i] == s[i]);
        lemma_waiter_push(s, w, peer, txid, i + 1);
    } else {
        assert(s.push(w)[i] == w);
    }
}

proof fn lemma_no_waiter(s: Seq<Waiting>, peer: IpAddr, txid: u16, i: int)
    requires
        0 <= i <= s.len(),
        forall|j: int|
            0 <= j < s.len() ==> !((#[trigger] s[j]).peer == peer && s[j].txid == txid),
    ensures
        waiter_at(s, peer, txid, i) is None,
    decreases s.len() - i,
{
    if i < s.len() {
        lemma_no_waiter(s, peer, txid, i + 1);
    }
}

/// The IPv4 address is one that the Internet routes.
pub open spec fn routable_v4(a: u32) -> bool {
    &&& a != 0
    &&& a / 0x100_0000 != 127
    &&& !(224 <= a / 0x100_0000 <= 239)
    &&& a != 0xffff_ffff
    &&& a / 0x1_0000 != 0xa9fe
    &&& !private_v4(a)
}

/// The IPv4 address is a private one (RFC 1918).
pub open spec fn private_v4(a: u32) -> bool {
    a / 0x100_0000 == 10 || a / 0x10_0000 == 0xac1 || a / 0x1_0000 == 0xc0a8
}

/// Whether the IPv4 address is one that the Internet routes.
pub fn is_globally_routable_v4(a: u32) -> (r: bool)
    ensures
        r == routable_v4(a),
{
    let private: bool = a / 0x100_0000 == 10 || a / 0x10_0000 == 0xac1 || a / 0x1_0000 == 0xc0a8;
    a != 0 && a / 0x100_0000 != 127 && !(224 <= a / 0x100_0000 && a / 0x100_0000 <= 239) && a
        != 0xffff_ffff && a / 0x1_0000 != 0xa9fe && !private
}

/// The first sixteen bits of an IPv6 address.
pub open spec fn top16(a: u128) -> u128 {
    a / 0x1_0000_0000_0000_0000_0000_0000_0000
}

/// The IPv6 address is one that the Internet routes: none of unspecified, loopback,
/// multicast, link-local, unique-local and IPv4-mapped.
pub open spec fn routable_v6(a: u128) -> bool {
    &&& a > 1
    &&& top16(a) / 0x100 != 0xff
    &&& top16(a) / 0x40 != 0x3fa
    &&& top16(a) / 0x200 != 0x7e
    &&& a / 0x1_0000_0000 != 0xffff
}

/// Whether the IPv6 address is one that the Internet routes.
pub fn is_globally_routable_v6(a: u128) -> (r: bool)
    ensures
        r == routable_v6(a),
{
    let top: u128 = a / 0x1_0000_0000_0000_0000_0000_0000_0000;
    a > 1 && top / 0x100 != 0xff && top / 0x40 != 0x3fa && top / 0x200 != 0x7e && a
        / 0x1_0000_0000 != 0xffff
}

/// The first IPv6 address, from `i` on, that the Internet routes.
pub open spec fn first_routable_v6(s: Seq<u128>, i: int) -> Option<u128>
    decreases s.len() - i,
{
    if i < 0 || i >= s.len() {
        None
    } else if routable_v6(s[i]) {
        Some(s[i])
    } else {
        first_routable_v6(s, i + 1)
    }
}

/// The source address for IPv6 queries among the addresses of interfaces that are up.
pub fn choose_v6_source(addrs: &Vec<u128>) -> (r: Option<u128>)
    ensures
        r == first_routable_v6(addrs@, 0),
{
    let mut i: usize = 0;
    while i < addrs.len()
        invariant
            i <= addrs@.len(),
            first_routable_v6(addrs@, 0) == first_routable_v6(addrs@, i as int),
        decreases addrs@.len() - i,
    {
        if is_globally_routable_v6(addrs[i]) {
            return Some(addrs[i]);
        }
        i += 1;
    }
    None
}

/// The first IPv4 address, from `i` on, that the Internet routes.
pub open spec fn first_routable_v4(s: Seq<u32>, i: int) -> Option<u32>
    decreases s.len() - i,
{
    if i < 0 || i >= s.len() {
        None
    } else if routable_v4(s[i]) {
        Some(s[i])
    } else {
        first_routable_v4(s, i + 1)
    }
}

/// The source address for IPv4 queries among the addresses of interfaces that are up.
pub fn choose_v4_source(addrs: &Vec<u32>) -> (r: Option<u32>)
    ensures
        r == first_routable_v4(addrs@, 0),
{
    let mut i: usize = 0;
    while i < addrs.len()
        invariant
            i <= addrs@.len(),
            first_routable_v4(addrs@, 0) == first_routable_v4(addrs@, i as int),
        decreases addrs@.len() - i,
    {
        if is_globally_routable_v4(addrs[i]) {
            return Some(addrs[i]);
        }
        i += 1;
    }
    None
}

/// The source address for a query to `peer`: of its family.
pub fn source_for(peer: IpAddr, source_v4: Option<u32>, source_v6: Option<u128>) -> (r: Option<
    IpAddr,
>)
    ensures
        r == (match peer {
            IpAddr::V4(_) => match source_v4 {
                Some(a) => Some(IpAddr::V4(a)),
                None => None,
            },
            IpAddr::V6(_) => match source_v6 {
                Some(a) => Some(IpAddr::V6(a)),
                None => None,
            },
        }),
{
    match peer {
        IpAddr::V4(_) => match source_v4 {
            Some(a) => Some(IpAddr::V4(a)),
            None => None,
        },
        IpAddr::V6(_) => match source_v6 {
            Some(a) => Some(IpAddr::V6(a)),
            None => None,
        },
    }
}

/// How long a server is waited for, in milliseconds.
pub fn upstream_timeout_ms(configured: Option<u32>) -> (r: u64)
    ensures
        r == (match configured {
            Some(t) => t as u64,
            None => DEFAULT_UPSTREAM_TIMEOUT_MS,
        }),
{
    match configured {
        Some(t) => t as u64,
        None => DEFAULT_UPSTREAM_TIMEOUT_MS,
    }
}

/// How a forwarder's server is reached.
#[derive(Debug)]
pub enum ServerPath {
    /// With a datagram to this address, and over TCP where the reply is cut short.
    Plain(SocketAddr),
    /// Over TLS, on a connection of this kind.
    Tls(DotConnKey),
    /// Not at all.
    Refused,
}

/// The value of a [`ServerPath`].
pub ghost enum PathV {
    Plain(SocketAddr),
    Tls(KeyV),
    Refused,
}

impl View for ServerPath {
    type V = PathV;

    open spec fn view(&self) -> PathV {
        match self {
            ServerPath::Plain(a) => PathV::Plain(*a),
            ServerPath::Tls(k) => PathV::Tls(k@),
            ServerPath::Refused => PathV::Refused,
        }
    }
}

/// How a server is reached. Through Tor only TLS goes, by the proxy, in a circuit of the
/// forwarder's own; every other way to a Tor server is refused.
pub open spec fn path_to(s: ServerV, tor_socks: SocketAddr, domain: Seq<char>) -> PathV {
    if s.transport == Transport::Udp && s.via == Via::Direct {
        PathV::Plain(SocketAddr { ip: s.address, port: DNS_PORT })
    } else if s.transport == Transport::Dot && s.tls_name is Some {
        PathV::Tls(
            KeyV {
                resolver: SocketAddr { ip: s.address, port: DOT_PORT },
                tls_name: s.tls_name->0,
                via: s.via,
                tor_socks: if s.via == Via::Tor {
                    Some(tor_socks)
                } else {
                    None
                },
                iso_user: if s.via == Via::Tor {
                    Some(domain)
                } else {
                    None
                },
            },
        )
    } else {
        PathV::Refused
    }
}

/// How a forwarder's server is reached.
pub fn server_path(s: &ForwarderServer, tor_socks: SocketAddr, domain: &str) -> (r: ServerPath)
    ensures
        r@ == path_to(s@, tor_socks, domain@),
{
    if s.transport == Transport::Udp && s.via == Via::Direct {
        return ServerPath::Plain(SocketAddr { ip: s.address, port: DNS_PORT });
    }
    if s.transport == Transport::Dot {
        if let Some(name) = &s.tls_name {
            let tor: bool = s.via == Via::Tor;
            return ServerPath::Tls(
                DotConnKey {
                    resolver: SocketAddr { ip: s.address, port: DOT_PORT },
                    tls_name: name.clone(),
                    via: s.via,
                    tor_socks: if tor {
                        Some(tor_socks)
                    } else {
                        None
                    },
                    iso_user: if tor {
                        Some(domain.to_owned())
                    } else {
                        None
                    },
                },
            );
        }
    }
    ServerPath::Refused
}

/// Fail closed: a server behind Tor is reached over TLS through the proxy or not at all,
/// whatever else is configured, and no direct connection is ever taken for it.
pub proof fn law_tor_fails_closed(
    s: ServerV,
    direct: ServerV,
    tor_socks: SocketAddr,
    domain: Seq<char>,
)
    requires
        s.via == Via::Tor,
        direct.via == Via::Direct,
    ensures
        match path_to(s, tor_socks, domain) {
            PathV::Plain(_) => false,
            PathV::Tls(k) => k.tor_socks == Some(tor_socks) && path_to(direct, tor_socks, domain)
                != PathV::Tls(k),
            PathV::Refused => true,
        },
{
}

/// Every server of a forwarder that passes can be reached.
pub proof fn law_checked_servers_are_reachable(
    s: Seq<ServerV>,
    i: int,
    tor_socks: SocketAddr,
    domain: Seq<char>,
)
    requires
        checked_servers(s) is Ok,
        0 <= i < s.len(),
    ensures
        path_to(s[i], tor_socks, domain) != PathV::Refused,
{
    law_tor_requires_tls(s, i);
}

/// A name is forwarded by the first entry whose domain it lies under, and by none where there
/// is no such entry.
pub proof fn law_first_entry_that_fits(s: Seq<EntryV>, name: Labels, from: int)
    requires
        0 <= from <= s.len(),
    ensures
        match entry_at(s, name, from) {
            Some(i) => {
                &&& from <= i < s.len()
                &&& is_under(name, s[i].domain)
                &&& forall|j: int| from <= j < i ==> !is_under(name, (#[trigger] s[j]).domain)
            },
            None => forall|j: int|
                from <= j < s.len() ==> !is_under(name, (#[trigger] s[j]).domain),
        },
    decreases s.len() - from,
{
    if from < s.len() && !is_under(name, s[from].domain) {
        law_first_entry_that_fits(s, name, from + 1);
    }
}

/// A name lies under a forwarder's domain exactly where it lies in that zone.
pub proof fn law_forwarded_domains_are_zones(name: Labels, domain: Labels)
    ensures
        is_under(name, domain) <==> in_zone(domain, name),
{
    if in_zone(domain, name) && name.len() == domain.len() && name.len() > 0 {
        let n = name.len() as int;
        assert(crate::name::last_labels(name, n) =~= name);
        assert(lower(domain)[0] == lower(name)[0]);
        assert(crate::name::lower_label(domain[0]) == crate::name::lower_label(name[0]));
        crate::name::lemma_star_in_any_case(domain[0], name[0]);
    }
}

/// Every configured forwarder is in the table once, under its domain in lower case and with
/// all its servers, and the table holds nothing else; deeper domains come first.
pub proof fn law_every_forwarder_is_in_the_table(cfgs: Seq<Forwarder>)
    requires
        entries_of(cfgs) is Ok,
    ensures
        entries_of(cfgs)->Ok_0.len() == cfgs.len(),
        forall|i: int|
            0 <= i < cfgs.len() ==> in_table(entries_of(cfgs)->Ok_0, #[trigger] cfgs[i]),
        deepest_first(entries_of(cfgs)->Ok_0),
    decreases cfgs.len(),
{
    if cfgs.len() > 0 {
        let before = cfgs.drop_last();
        let c = cfgs.last();
        law_every_forwarder_is_in_the_table(before);
        let s = entries_of(before)->Ok_0;
        let e = entry_of(c.domain@, specs_v(c.servers@))->Ok_0;
        let at = slot_for(s, counted_labels(e.domain), 0);
        lemma_slot_of(s, counted_labels(e.domain), 0);
        let r = entries_of(cfgs)->Ok_0;
        assert(r == s.insert(at, e));
        assert forall|i: int| 0 <= i < cfgs.len() implies in_table(r, #[trigger] cfgs[i]) by {
            if i < before.len() {
                assert(before[i] == cfgs[i]);
                let k = choose|k: int| 0 <= k < s.len() && is_entry_for(#[trigger] s[k], before[i]);
                if k < at {
                    assert(r[k] == s[k]);
                    assert(is_entry_for(r[k], cfgs[i]));
                } else {
                    assert(r[k + 1] == s[k]);
                    assert(is_entry_for(r[k + 1], cfgs[i]));
                }
            } else {
                assert(r[at] == e);
                assert(is_entry_for(r[at], cfgs[i]));
            }
        }
        assert forall|i: int, j: int| 0 <= i < j < r.len() implies counted_labels(
            (#[trigger] r[i]).domain,
        ) >= counted_labels((#[trigger] r[j]).domain) by {
            let x = if i < at {
                i
            } else {
                i - 1
            };
            let y = if j < at {
                j
            } else {
                j - 1
            };
            if i == at {
                assert(r[j] == s[j - 1]);
                if j - 1 > at {
                    assert(counted_labels(s[at].domain) >= counted_labels(s[j - 1].domain));
                }
            } else if j == at {
                assert(r[i] == s[i]);
            } else {
                assert(r[i] == s[x] && r[j] == s[y]);
            }
        }
    }
}

proof fn lemma_slot_of(s: Seq<EntryV>, depth: nat, i: int)
    requires
        0 <= i <= s.len(),
        forall|j: int| 0 <= j < i ==> counted_labels((#[trigger] s[j]).domain) >= depth,
    ensures
        i <= slot_for(s, depth, i) <= s.len(),
        forall|j: int|
            0 <= j < slot_for(s, depth, i) ==> counted_labels((#[trigger] s[j]).domain) >= depth,
        slot_for(s, depth, i) < s.len() ==> counted_labels(s[slot_for(s, depth, i)].domain) < depth,
    decreases s.len() - i,
{
    if i < s.len() && counted_labels(s[i].domain) >= depth {
        lemma_slot_of(s, depth, i + 1);
    }
}

/// An entry is the one for a configured forwarder: its domain, in lower case, and all its
/// servers, in order.
pub open spec fn is_entry_for(e: EntryV, c: Forwarder) -> bool {
    &&& ascii_name(c.domain@) is Some
    &&& e.domain == lower((ascii_name(c.domain@)->0).0)
    &&& e.servers == specs_v(c.servers@)
}

/// The table holds the entry for a configured forwarder.
pub open spec fn in_table(s: Seq<EntryV>, c: Forwarder) -> bool {
    exists|k: int| 0 <= k < s.len() && is_entry_for(#[trigger] s[k], c)
}

/// A forwarder's reply goes to the client as it came, under the client's identifier and with
/// names in lower case: same code and flags, same records in the same sections.
pub proof fn law_forwarders_replies_are_passed_on(m: MessageV, client_txid: u16)
    ensures
        ({
            let r = normalised_message(m, client_txid);
            &&& r.header.id == client_txid
            &&& r.header == (Header { id: client_txid, ..m.header })
            &&& crate::recursor::walk::same_records(r.answers, m.answers)
            &&& crate::recursor::walk::same_records(r.authorities, m.authorities)
            &&& crate::recursor::walk::same_records(r.additionals, m.additionals)
            &&& r.queries.len() == m.queries.len()
            &&& r.edns == m.edns
        }),
{
    crate::recursor::walk::law_lowering_keeps_records(m.answers);
    crate::recursor::walk::law_lowering_keeps_records(m.authorities);
    crate::recursor::walk::law_lowering_keeps_records(m.additionals);
}

/// Putting an identifier on a message changes its first two octets to it, the higher one
/// first, and nothing else.
pub proof fn law_identifier_takes_two_octets(query: Seq<u8>, txid: u16)
    requires
        query.len() >= 2,
    ensures
        with_id(query, txid).len() == query.len(),
        with_id(query, txid)[0] * 256 + with_id(query, txid)[1] == txid,
        forall|i: int| 2 <= i < query.len() ==> #[trigger] with_id(query, txid)[i] == query[i],
{
}

/// A reply is taken exactly where it is long enough, has the identifier that was sent and
/// echoes the question.
pub proof fn law_replies_must_match(resp: Seq<u8>, txid: u16, qname: Seq<u8>)
    ensures
        reply_error(resp, txid, qname) is None <==> resp.len() >= 12 && resp[0] * 256 + resp[1]
            == txid && echo_error(resp, qname) is None,
{
}

/// Plain servers are asked on port 53; servers with TLS on port 853, under the name to verify,
/// through Tor exactly where that is configured.
pub proof fn law_servers_are_asked_as_configured(
    s: ServerV,
    tor_socks: SocketAddr,
    domain: Seq<char>,
)
    ensures
        s.transport == Transport::Udp && s.via == Via::Direct ==> path_to(s, tor_socks, domain)
            == PathV::Plain(SocketAddr { ip: s.address, port: 53 }),
        s.transport == Transport::Dot && s.tls_name is Some ==> match path_to(s, tor_socks, domain) {
            PathV::Tls(k) => {
                &&& k.resolver == (SocketAddr { ip: s.address, port: 853 })
                &&& Some(k.tls_name) == s.tls_name
                &&& k.via == s.via
                &&& s.via == Via::Tor ==> k.tor_socks == Some(tor_socks) && k.iso_user == Some(
                    domain,
                )
                &&& s.via == Via::Direct ==> k.tor_socks is None && k.iso_user is None
            },
            _ => false,
        },
{
}

/// An IPv4 address is one to be reached from outside, unless it is none at all, loopback,
/// link-local, multicast, broadcast, or in one of the three private ranges.
pub proof fn law_routable_ipv4(a: u32)
    ensures
        routable_v4(a) <==> {
            &&& a != 0
            &&& a != 0xffff_ffff
            &&& !(0x7f00_0000 <= a <= 0x7fff_ffff)
            &&& !(0xe000_0000 <= a <= 0xefff_ffff)
            &&& !(0xa9fe_0000 <= a <= 0xa9fe_ffff)
            &&& !(0x0a00_0000 <= a <= 0x0aff_ffff)
            &&& !(0xac10_0000 <= a <= 0xac1f_ffff)
            &&& !(0xc0a8_0000 <= a <= 0xc0a8_ffff)
        },
{
}

/// An IPv6 address is one to be reached from outside, unless it is none at all, loopback,
/// multicast, link-local, unique-local, or an IPv4 address in disguise.
pub proof fn law_routable_ipv6(a: u128)
    ensures
        routable_v6(a) <==> {
            &&& a > 1
            &&& a < 0xff00_0000_0000_0000_0000_0000_0000_0000
            &&& !(0xfe80_0000_0000_0000_0000_0000_0000_0000 <= a
                <= 0xfebf_ffff_ffff_ffff_ffff_ffff_ffff_ffff)
            &&& !(0xfc00_0000_0000_0000_0000_0000_0000_0000 <= a
                <= 0xfdff_ffff_ffff_ffff_ffff_ffff_ffff_ffff)
            &&& !(0xffff_0000_0000 <= a <= 0xffff_ffff_ffff)
        },
{
}

/// The IPv4 source is the first address that can be reached from outside.
pub proof fn law_first_routable_ipv4(s: Seq<u32>, from: int)
    requires
        0 <= from <= s.len(),
    ensures
        match first_routable_v4(s, from) {
            Some(v) => exists|i: int|
                {
                    &&& from <= i < s.len()
                    &&& routable_v4((#[trigger] s[i]))
                    &&& v == s[i]
                    &&& forall|j: int| from <= j < i ==> !(routable_v4((#[trigger] s[j])))
                },
            None => forall|j: int| from <= j < s.len() ==> !(routable_v4((#[trigger] s[j]))),
        },
    decreases s.len() - from,
{
    if from < s.len() {
        if routable_v4(s[from]) {
            assert(first_routable_v4(s, from) == Some(s[from]));
        } else {
            law_first_routable_ipv4(s, from + 1);
        }
    }
}

/// The IPv6 source is the first address that can be reached from outside.
pub proof fn law_first_routable_ipv6(s: Seq<u128>, from: int)
    requires
        0 <= from <= s.len(),
    ensures
        match first_routable_v6(s, from) {
            Some(v) => exists|i: int|
                {
                    &&& from <= i < s.len()
                    &&& routable_v6((#[trigger] s[i]))
                    &&& v == s[i]
                    &&& forall|j: int| from <= j < i ==> !(routable_v6((#[trigger] s[j])))
                },
            None => forall|j: int| from <= j < s.len() ==> !(routable_v6((#[trigger] s[j]))),
        },
    decreases s.len() - from,
{
    if from < s.len() {
        if routable_v6(s[from]) {
            assert(first_routable_v6(s, from) == Some(s[from]));
        } else {
            law_first_routable_ipv6(s, from + 1);
        }
    }
}

/// A reply goes to the first that waits for its server and identifier.
pub proof fn law_first_waiter(s: Seq<Waiting>, peer: IpAddr, txid: u16, from: int)
    requires
        0 <= from <= s.len(),
    ensures
        match waiter_at(s, peer, txid, from) {
            Some(i) => {
                &&& from <= i < s.len()
                &&& s[i].peer == peer && s[i].txid == txid
                &&& forall|j: int| from <= j < i ==> !((#[trigger] s[j]).peer == peer && (#[trigger] s[j]).txid == txid)
            },
            None => forall|j: int| from <= j < s.len() ==> !((#[trigger] s[j]).peer == peer && (#[trigger] s[j]).txid == txid),
        },
    decreases s.len() - from,
{
    if from < s.len() && !(s[from].peer == peer && s[from].txid == txid) {
        law_first_waiter(s, peer, txid, from + 1);
    }
}

/// The one that waits for a server's reply with an identifier is found where there is one.
pub proof fn law_waiters_are_found(p: Pending, i: int)
    requires
        p.wf(),
        0 <= i < p.slots@.len(),
    ensures
        p.waiter(p.slots@[i].peer, p.slots@[i].txid) == Some(p.slots@[i].waiter),
{
    let s = p.slots@;
    law_first_waiter(s, s[i].peer, s[i].txid, 0);
    let k = waiter_at(s, s[i].peer, s[i].txid, 0)->0;
    if k < i {
        assert(!(s[k].peer == s[i].peer && s[k].txid == s[i].txid));
    }
}

/// A reply that can be read goes on as the message that it holds; one that cannot does not.
pub proof fn law_readable_replies_go_on(resp: Seq<u8>, client_txid: u16)
    ensures
        decoded(resp) is None ==> normalised(resp, client_txid) is None,
        decoded(resp) is Some ==> normalised(resp, client_txid) == encoded(
            normalised_message(decoded(resp)->0, client_txid),
        ),
{
}

} // verus!
