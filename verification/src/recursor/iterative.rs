//! Iterative resolution: following referrals from the root down to an answer. The
//! network and the cache are driven from outside; the decisions are here.

use crate::name::{lower, same_name, Labels, Name};
use crate::net::{
    be_bytes, be_nat, lemma_be_nat_bound, lemma_pow256_values, read_be, write_be, IpAddr,
};
use crate::rdata::{name_in, rrsig_in};
use crate::wire::{
    records_v, Message, MessageV, Record, RecordV, CLASS_IN, RCODE_NXDOMAIN, RCODE_REFUSED,
    RCODE_SERVFAIL, TYPE_A, TYPE_AAAA, TYPE_CNAME, TYPE_DS, TYPE_NS,
};
use vstd::prelude::*;

verus! {

/// How many referrals a resolution may follow, sub-resolutions included.
pub const DEFAULT_MAX_DEPTH: u32 = 16;

/// How many queries a resolution may send, sub-resolutions included.
pub const DEFAULT_MAX_QUERIES: u32 = 256;

/// How many aliases a resolution may follow.
pub const DEFAULT_MAX_CNAME: u32 = 8;

/// How many servers of a zone are tried.
pub const MAX_NS_ATTEMPTS: usize = 4;

/// How many servers of a zone are asked at the same time.
pub const NS_PARALLEL: usize = 2;

/// TTL of answers made from glue, in seconds.
pub const GLUE_TTL: u32 = 300;

/// Which limit of a resolution was reached.
#[derive(Debug, Clone, Copy, PartialEq, Eq, Structural)]
pub enum BudgetError {
    ReferralDepth,
    Queries,
    CnameDepth,
}

/// What a resolution may still spend.
#[derive(Debug, Clone, Copy, PartialEq, Eq, Structural)]
pub struct Budget {
    pub depth_remaining: u32,
    pub queries_remaining: u32,
    pub cname_remaining: u32,
}

impl Budget {
    /// A fresh budget.
    pub fn new(depth: u32, queries: u32, cname: u32) -> (r: Budget)
        ensures
            r == (Budget {
                depth_remaining: depth,
                queries_remaining: queries,
                cname_remaining: cname,
            }),
    {
        Budget { depth_remaining: depth, queries_remaining: queries, cname_remaining: cname }
    }

    /// Spend one referral.
    pub fn referral(&mut self) -> (r: Result<(), BudgetError>)
        ensures
            old(self).depth_remaining == 0 ==> r == Err::<(), _>(BudgetError::ReferralDepth)
                && *final(self) == *old(self),
            old(self).depth_remaining > 0 ==> r is Ok && *final(self) == (Budget {
                depth_remaining: (old(self).depth_remaining - 1) as u32,
                ..*old(self)
            }),
    {
        if self.depth_remaining == 0 {
            return Err(BudgetError::ReferralDepth);
        }
        self.depth_remaining = self.depth_remaining - 1;
        Ok(())
    }

    /// Spend one query.
    pub fn query(&mut self) -> (r: Result<(), BudgetError>)
        ensures
            old(self).queries_remaining == 0 ==> r == Err::<(), _>(BudgetError::Queries)
                && *final(self) == *old(self),
            old(self).queries_remaining > 0 ==> r is Ok && *final(self) == (Budget {
                queries_remaining: (old(self).queries_remaining - 1) as u32,
                ..*old(self)
            }),
    {
        if self.queries_remaining == 0 {
            return Err(BudgetError::Queries);
        }
        self.queries_remaining = self.queries_remaining - 1;
        Ok(())
    }

    /// Spend one alias.
    pub fn cname(&mut self) -> (r: Result<(), BudgetError>)
        ensures
            old(self).cname_remaining == 0 ==> r == Err::<(), _>(BudgetError::CnameDepth)
                && *final(self) == *old(self),
            old(self).cname_remaining > 0 ==> r is Ok && *final(self) == (Budget {
                cname_remaining: (old(self).cname_remaining - 1) as u32,
                ..*old(self)
            }),
    {
        if self.cname_remaining == 0 {
            return Err(BudgetError::CnameDepth);
        }
        self.cname_remaining = self.cname_remaining - 1;
        Ok(())
    }

    /// Whether a sub-resolution can still be started.
    pub fn can_substep(&self) -> (r: bool)
        ensures
            r == (self.depth_remaining > 0 && self.queries_remaining > 0),
    {
        self.depth_remaining > 0 && self.queries_remaining > 0
    }
}

/// The addresses of the thirteen root servers.
pub open spec fn root_hints() -> Seq<IpAddr> {
    seq![
        IpAddr::V4(0xc6290004), // 198.41.0.4
        IpAddr::V6(0x2001_0503_ba3e_0000_0000_0000_0002_0030), // 2001:503:ba3e::2:30
        IpAddr::V4(0xaaf7aa02), // 170.247.170.2
        IpAddr::V6(0x2801_01b8_0010_0000_0000_0000_0000_000b), // 2801:1b8:10::b
        IpAddr::V4(0xc021040c), // 192.33.4.12
        IpAddr::V6(0x2001_0500_0002_0000_0000_0000_0000_000c), // 2001:500:2::c
        IpAddr::V4(0xc7075b0d), // 199.7.91.13
        IpAddr::V6(0x2001_0500_002d_0000_0000_0000_0000_000d), // 2001:500:2d::d
        IpAddr::V4(0xc0cbe60a), // 192.203.230.10
        IpAddr::V6(0x2001_0500_00a8_0000_0000_0000_0000_000e), // 2001:500:a8::e
        IpAddr::V4(0xc00505f1), // 192.5.5.241
        IpAddr::V6(0x2001_0500_002f_0000_0000_0000_0000_000f), // 2001:500:2f::f
        IpAddr::V4(0xc0702404), // 192.112.36.4
        IpAddr::V6(0x2001_0500_0012_0000_0000_0000_0000_0d0d), // 2001:500:12::d0d
        IpAddr::V4(0xc661be35), // 198.97.190.53
        IpAddr::V6(0x2001_0500_0001_0000_0000_0000_0000_0053), // 2001:500:1::53
        IpAddr::V4(0xc0249411), // 192.36.148.17
        IpAddr::V6(0x2001_07fe_0000_0000_0000_0000_0000_0053), // 2001:7fe::53
        IpAddr::V4(0xc03a801e), // 192.58.128.30
        IpAddr::V6(0x2001_0503_0c27_0000_0000_0000_0002_0030), // 2001:503:c27::2:30
        IpAddr::V4(0xc1000e81), // 193.0.14.129
        IpAddr::V6(0x2001_07fd_0000_0000_0000_0000_0000_0001), // 2001:7fd::1
        IpAddr::V4(0xc707532a), // 199.7.83.42
        IpAddr::V6(0x2001_0500_009f_0000_0000_0000_0000_0042), // 2001:500:9f::42
        IpAddr::V4(0xca0c1b21), // 202.12.27.33
        IpAddr::V6(0x2001_0dc3_0000_0000_0000_0000_0000_0035), // 2001:dc3::35
    ]
}

/// The addresses of the thirteen root servers.
pub fn default_root_hints() -> (r: Vec<IpAddr>)
    ensures
        r@ == root_hints(),
{
    let v: Vec<IpAddr> = vec![
        IpAddr::V4(0xc6290004), // 198.41.0.4
        IpAddr::V6(0x2001_0503_ba3e_0000_0000_0000_0002_0030), // 2001:503:ba3e::2:30
        IpAddr::V4(0xaaf7aa02), // 170.247.170.2
        IpAddr::V6(0x2801_01b8_0010_0000_0000_0000_0000_000b), // 2801:1b8:10::b
        IpAddr::V4(0xc021040c), // 192.33.4.12
        IpAddr::V6(0x2001_0500_0002_0000_0000_0000_0000_000c), // 2001:500:2::c
        IpAddr::V4(0xc7075b0d), // 199.7.91.13
        IpAddr::V6(0x2001_0500_002d_0000_0000_0000_0000_000d), // 2001:500:2d::d
        IpAddr::V4(0xc0cbe60a), // 192.203.230.10
        IpAddr::V6(0x2001_0500_00a8_0000_0000_0000_0000_000e), // 2001:500:a8::e
        IpAddr::V4(0xc00505f1), // 192.5.5.241
        IpAddr::V6(0x2001_0500_002f_0000_0000_0000_0000_000f), // 2001:500:2f::f
        IpAddr::V4(0xc0702404), // 192.112.36.4
        IpAddr::V6(0x2001_0500_0012_0000_0000_0000_0000_0d0d), // 2001:500:12::d0d
        IpAddr::V4(0xc661be35), // 198.97.190.53
        IpAddr::V6(0x2001_0500_0001_0000_0000_0000_0000_0053), // 2001:500:1::53
        IpAddr::V4(0xc0249411), // 192.36.148.17
        IpAddr::V6(0x2001_07fe_0000_0000_0000_0000_0000_0053), // 2001:7fe::53
        IpAddr::V4(0xc03a801e), // 192.58.128.30
        IpAddr::V6(0x2001_0503_0c27_0000_0000_0000_0002_0030), // 2001:503:c27::2:30
        IpAddr::V4(0xc1000e81), // 193.0.14.129
        IpAddr::V6(0x2001_07fd_0000_0000_0000_0000_0000_0001), // 2001:7fd::1
        IpAddr::V4(0xc707532a), // 199.7.83.42
        IpAddr::V6(0x2001_0500_009f_0000_0000_0000_0000_0042), // 2001:500:9f::42
        IpAddr::V4(0xca0c1b21), // 202.12.27.33
        IpAddr::V6(0x2001_0dc3_0000_0000_0000_0000_0000_0035), // 2001:dc3::35
    ];
    assert(v@ =~= root_hints());
    v
}

/// The IPv4 addresses of a list.
pub open spec fn only_v4(s: Seq<IpAddr>) -> Seq<IpAddr>
    decreases s.len(),
{
    if s.len() == 0 {
        Seq::empty()
    } else if s.last() is V4 {
        only_v4(s.drop_last()).push(s.last())
    } else {
        only_v4(s.drop_last())
    }
}

/// The addresses that may be used: all, or the IPv4 ones.
pub open spec fn usable(s: Seq<IpAddr>, ipv6: bool) -> Seq<IpAddr> {
    if ipv6 {
        s
    } else {
        only_v4(s)
    }
}

/// The addresses that may be used.
pub fn usable_ips(s: &Vec<IpAddr>, ipv6: bool) -> (r: Vec<IpAddr>)
    ensures
        r@ == usable(s@, ipv6),
{
    let mut all: Vec<IpAddr> = Vec::new();
    let mut v4: Vec<IpAddr> = Vec::new();
    let mut i: usize = 0;
    while i < s.len()
        invariant
            i <= s@.len(),
            all@ == s@.subrange(0, i as int),
            v4@ == only_v4(s@.subrange(0, i as int)),
        decreases s@.len() - i,
    {
        proof {
            assert(s@.subrange(0, i + 1).drop_last() =~= s@.subrange(0, i as int));
        }
        let ip: IpAddr = s[i];
        all.push(ip);
        if ip.is_ipv4() {
            v4.push(ip);
        }
        i += 1;
        assert(all@ =~= s@.subrange(0, i as int));
    }
    assert(s@.subrange(0, s@.len() as int) =~= s@);
    if ipv6 {
        all
    } else {
        v4
    }
}

/// The root addresses to start with: those kept from an earlier run, if any, else the
/// built-in ones; IPv6 only where it is used upstream.
pub fn initial_roots(kept: Option<Vec<IpAddr>>, ipv6_upstream: bool) -> (r: Vec<IpAddr>)
    ensures
        r@ == usable(
            if kept is Some && kept->0@.len() > 0 {
                kept->0@
            } else {
                root_hints()
            },
            ipv6_upstream,
        ),
{
    let roots: Vec<IpAddr> = match kept {
        Some(ips) => if ips.len() > 0 {
            ips
        } else {
            default_root_hints()
        },
        None => default_root_hints(),
    };
    usable_ips(&roots, ipv6_upstream)
}

/// The alias limit in effect: at least one, at most twice the usual.
pub fn effective_max_cname(configured: u32) -> (r: u32)
    ensures
        r == (if configured < 1 {
            1
        } else if configured > 16 {
            16
        } else {
            configured
        }),
{
    if configured < 1 {
        1
    } else if configured > DEFAULT_MAX_CNAME * 2 {
        DEFAULT_MAX_CNAME * 2
    } else {
        configured
    }
}

/// The address in an A or AAAA record.
pub open spec fn addr_in(r: RecordV) -> Option<IpAddr> {
    if r.rtype == TYPE_A && r.rdata.len() == 4 {
        Some(IpAddr::V4(be_nat(r.rdata) as u32))
    } else if r.rtype == TYPE_AAAA && r.rdata.len() == 16 {
        Some(IpAddr::V6(be_nat(r.rdata) as u128))
    } else {
        None
    }
}

impl Record {
    /// The address in this record.
    pub fn address(&self) -> (r: Option<IpAddr>)
        ensures
            r == addr_in(self@),
    {
        proof {
            lemma_be_nat_bound(self.rdata@);
            lemma_pow256_values();
        }
        if self.rtype == TYPE_A && self.rdata.len() == 4 {
            Some(IpAddr::V4(read_be(self.rdata.as_slice()) as u32))
        } else if self.rtype == TYPE_AAAA && self.rdata.len() == 16 {
            Some(IpAddr::V6(read_be(self.rdata.as_slice())))
        } else {
            None
        }
    }
}

/// The record that gives `name` the address.
pub open spec fn addr_record(name: Labels, ttl: u32, ip: IpAddr) -> RecordV {
    match ip {
        IpAddr::V4(v) => RecordV {
            name,
            rtype: TYPE_A,
            class: CLASS_IN,
            ttl,
            rdata: be_bytes(v as nat, 4),
        },
        IpAddr::V6(v) => RecordV {
            name,
            rtype: TYPE_AAAA,
            class: CLASS_IN,
            ttl,
            rdata: be_bytes(v as nat, 16),
        },
    }
}

/// The record that gives `name` the address.
pub fn make_addr_record(name: &Name, ttl: u32, ip: IpAddr) -> (r: Record)
    ensures
        r@ == addr_record(name@, ttl, ip),
{
    match ip {
        IpAddr::V4(v) => Record {
            name: name.clone(),
            rtype: TYPE_A,
            class: CLASS_IN,
            ttl,
            rdata: write_be(v as u128, 4),
        },
        IpAddr::V6(v) => Record {
            name: name.clone(),
            rtype: TYPE_AAAA,
            class: CLASS_IN,
            ttl,
            rdata: write_be(v, 16),
        },
    }
}

/// The address written into a record is read back.
pub proof fn law_address_roundtrip(name: Labels, ttl: u32, ip: IpAddr)
    ensures
        addr_in(addr_record(name, ttl, ip)) == Some(ip),
{
    lemma_pow256_values();
    match ip {
        IpAddr::V4(v) => {
            crate::net::lemma_be_roundtrip(v as nat, 4);
        },
        IpAddr::V6(v) => {
            crate::net::lemma_be_roundtrip(v as nat, 16);
        },
    }
}

/// The addresses that the records give to `owner`, in order.
pub open spec fn glue_of(rs: Seq<RecordV>, owner: Labels) -> Seq<IpAddr>
    decreases rs.len(),
{
    if rs.len() == 0 {
        Seq::empty()
    } else {
        let rest = glue_of(rs.drop_last(), owner);
        if same_name(rs.last().name, owner) && addr_in(rs.last()) is Some {
            rest.push(addr_in(rs.last())->0)
        } else {
            rest
        }
    }
}

/// The addresses that the records give to `owner`, in order.
pub fn glue_ips(rs: &Vec<Record>, owner: &Name) -> (r: Vec<IpAddr>)
    ensures
        r@ == glue_of(records_v(rs@), owner@),
{
    let ghost v = records_v(rs@);
    let mut out: Vec<IpAddr> = Vec::new();
    let mut i: usize = 0;
    while i < rs.len()
        invariant
            i <= rs@.len(),
            v == records_v(rs@),
            out@ == glue_of(v.subrange(0, i as int), owner@),
        decreases rs@.len() - i,
    {
        proof {
            assert(v.subrange(0, i + 1).drop_last() =~= v.subrange(0, i as int));
            assert(v.subrange(0, i + 1).last() == rs@[i as int]@);
        }
        if rs[i].name.same(owner) {
            if let Some(ip) = rs[i].address() {
                out.push(ip);
            }
        }
        i += 1;
    }
    assert(v.subrange(0, v.len() as int) =~= v);
    out
}

/// What a server's answer means for the walk.
#[derive(Debug)]
pub enum Classification {
    /// The answer to the question.
    Answer,
    /// The name does not exist.
    NxDomain,
    /// The name exists, without records of this type.
    Empty,
    /// The name is an alias.
    Cname(Name),
    /// Another zone's servers are to be asked.
    Referral(Name, Vec<Record>),
    /// The server failed.
    ServFail,
}

/// The value of a [`Classification`].
pub enum ClassV {
    Answer,
    NxDomain,
    Empty,
    Cname(Labels),
    Referral(Labels, Seq<RecordV>),
    ServFail,
}

impl View for Classification {
    type V = ClassV;

    open spec fn view(&self) -> ClassV {
        match self {
            Classification::Answer => ClassV::Answer,
            Classification::NxDomain => ClassV::NxDomain,
            Classification::Empty => ClassV::Empty,
            Classification::Cname(n) => ClassV::Cname(n@),
            Classification::Referral(n, rs) => ClassV::Referral(n@, records_v(rs@)),
            Classification::ServFail => ClassV::ServFail,
        }
    }
}

/// The name that the first alias record of `qname`, from `i` on, points at.
pub open spec fn alias_of(rs: Seq<RecordV>, qname: Labels, i: int) -> Option<Labels>
    decreases rs.len() - i,
{
    if i < 0 || i >= rs.len() {
        None
    } else if same_name(rs[i].name, qname) && name_in(rs[i], TYPE_CNAME) is Some {
        name_in(rs[i], TYPE_CNAME)
    } else {
        alias_of(rs, qname, i + 1)
    }
}

/// The records of one type, in order.
pub open spec fn of_type(rs: Seq<RecordV>, rtype: u16) -> Seq<RecordV>
    decreases rs.len(),
{
    if rs.len() == 0 {
        Seq::empty()
    } else if rs.last().rtype == rtype {
        of_type(rs.drop_last(), rtype).push(rs.last())
    } else {
        of_type(rs.drop_last(), rtype)
    }
}

/// What a server's answer means for the walk. An alias goes before an answer unless
/// aliases were asked for.
pub open spec fn class_of(resp: MessageV, qname: Labels, qtype: u16) -> ClassV {
    if resp.header.rcode == RCODE_NXDOMAIN {
        ClassV::NxDomain
    } else if resp.header.rcode == RCODE_SERVFAIL || resp.header.rcode == RCODE_REFUSED {
        ClassV::ServFail
    } else if qtype != TYPE_CNAME && alias_of(resp.answers, qname, 0) is Some {
        ClassV::Cname(lower(alias_of(resp.answers, qname, 0)->0))
    } else if resp.answers.len() > 0 {
        ClassV::Answer
    } else {
        let ns = of_type(resp.authorities, TYPE_NS);
        if ns.len() > 0 {
            ClassV::Referral(lower(ns[0].name), ns)
        } else {
            ClassV::Empty
        }
    }
}

fn find_alias(rs: &Vec<Record>, qname: &Name) -> (r: Option<Name>)
    ensures
        alias_of(records_v(rs@), qname@, 0) == (match r {
            Some(n) => Some(n@),
            None => None,
        }),
{
    let mut i: usize = 0;
    while i < rs.len()
        invariant
            i <= rs@.len(),
            alias_of(records_v(rs@), qname@, 0) == alias_of(records_v(rs@), qname@, i as int),
        decreases rs@.len() - i,
    {
        assert(records_v(rs@)[i as int] == rs@[i as int]@);
        if rs[i].name.same(qname) {
            if let Some(n) = rs[i].target(TYPE_CNAME) {
                return Some(n);
            }
        }
        i += 1;
    }
    None
}

/// The records of one type, in order.
pub fn records_of_type(rs: &Vec<Record>, rtype: u16) -> (r: Vec<Record>)
    ensures
        records_v(r@) == of_type(records_v(rs@), rtype),
{
    let ghost v = records_v(rs@);
    let mut out: Vec<Record> = Vec::new();
    let mut i: usize = 0;
    assert(records_v(out@) =~= Seq::empty());
    while i < rs.len()
        invariant
            i <= rs@.len(),
            v == records_v(rs@),
            records_v(out@) == of_type(v.subrange(0, i as int), rtype),
        decreases rs@.len() - i,
    {
        let ghost had = records_v(out@);
        proof {
            assert(v.subrange(0, i + 1).drop_last() =~= v.subrange(0, i as int));
            assert(v.subrange(0, i + 1).last() == rs@[i as int]@);
        }
        if rs[i].rtype == rtype {
            let c = rs[i].clone();
            out.push(c);
            assert(records_v(out@) =~= had.push(rs@[i as int]@));
        }
        i += 1;
    }
    assert(v.subrange(0, v.len() as int) =~= v);
    out
}

/// What a server's answer means for the walk.
pub fn classify(resp: &Message, qname: &Name, qtype: u16) -> (r: Classification)
    ensures
        r@ == class_of(resp@, qname@, qtype),
{
    let rcode: u16 = resp.header.rcode;
    if rcode == RCODE_NXDOMAIN {
        return Classification::NxDomain;
    }
    if rcode == RCODE_SERVFAIL || rcode == RCODE_REFUSED {
        return Classification::ServFail;
    }
    if qtype != TYPE_CNAME {
        if let Some(target) = find_alias(&resp.answers, qname) {
            return Classification::Cname(target.to_lowercase());
        }
    }
    if resp.answers.len() > 0 {
        return Classification::Answer;
    }
    let ns = records_of_type(&resp.authorities, TYPE_NS);
    assert(records_v(ns@).len() == ns@.len());
    if ns.len() > 0 {
        let zone = ns[0].name.to_lowercase();
        assert(records_v(ns@)[0] == ns@[0]@);
        Classification::Referral(zone, ns)
    } else {
        Classification::Empty
    }
}

/// The DS records of the child zone, in order.
pub open spec fn ds_of(rs: Seq<RecordV>, child: Labels) -> Seq<RecordV>
    decreases rs.len(),
{
    if rs.len() == 0 {
        Seq::empty()
    } else if same_name(rs.last().name, child) && rs.last().rtype == TYPE_DS {
        ds_of(rs.drop_last(), child).push(rs.last())
    } else {
        ds_of(rs.drop_last(), child)
    }
}

/// The signatures over the DS records of the child zone, in order.
pub open spec fn ds_sigs_of(rs: Seq<RecordV>, child: Labels) -> Seq<RecordV>
    decreases rs.len(),
{
    if rs.len() == 0 {
        Seq::empty()
    } else if same_name(rs.last().name, child) && rrsig_in(rs.last()) is Some && rrsig_in(
        rs.last(),
    )->0.type_covered == TYPE_DS {
        ds_sigs_of(rs.drop_last(), child).push(rs.last())
    } else {
        ds_sigs_of(rs.drop_last(), child)
    }
}

/// The DS records of the child zone in a referral, and the signatures over them.
pub fn extract_ds_and_rrsig(resp: &Message, child_zone: &Name) -> (r: (Vec<Record>, Vec<Record>))
    ensures
        records_v(r.0@) == ds_of(resp@.authorities, child_zone@),
        records_v(r.1@) == ds_sigs_of(resp@.authorities, child_zone@),
{
    let ghost v = records_v(resp.authorities@);
    let mut ds: Vec<Record> = Vec::new();
    let mut sigs: Vec<Record> = Vec::new();
    let mut i: usize = 0;
    assert(records_v(ds@) =~= Seq::empty());
    assert(records_v(sigs@) =~= Seq::empty());
    while i < resp.authorities.len()
        invariant
            i <= resp.authorities@.len(),
            v == records_v(resp.authorities@),
            records_v(ds@) == ds_of(v.subrange(0, i as int), child_zone@),
            records_v(sigs@) == ds_sigs_of(v.subrange(0, i as int), child_zone@),
        decreases resp.authorities@.len() - i,
    {
        let r: &Record = &resp.authorities[i];
        let ghost had_ds = records_v(ds@);
        let ghost had_sigs = records_v(sigs@);
        proof {
            assert(v.subrange(0, i + 1).drop_last() =~= v.subrange(0, i as int));
            assert(v.subrange(0, i + 1).last() == r@);
        }
        if r.name.same(child_zone) {
            if r.rtype == TYPE_DS {
                let c = r.clone();
                ds.push(c);
                assert(records_v(ds@) =~= had_ds.push(r@));
            } else if let Some(s) = r.rrsig() {
                if s.type_covered == TYPE_DS {
                    let c = r.clone();
                    sigs.push(c);
                    assert(records_v(sigs@) =~= had_sigs.push(r@));
                }
            }
        }
        i += 1;
    }
    assert(v.subrange(0, v.len() as int) =~= v);
    (ds, sigs)
}

/// An address record holds its address with the most significant octet first, four octets
/// of type A and sixteen of type AAAA; no other record holds one.
pub proof fn law_addresses_in_records(r: RecordV)
    ensures
        match addr_in(r) {
            Some(IpAddr::V4(a)) => {
                &&& r.rtype == TYPE_A
                &&& r.rdata.len() == 4
                &&& a == r.rdata[0] * 0x100_0000 + r.rdata[1] * 0x1_0000 + r.rdata[2] * 0x100
                    + r.rdata[3]
            },
            Some(IpAddr::V6(a)) => {
                &&& r.rtype == TYPE_AAAA
                &&& r.rdata.len() == 16
                &&& forall|k: int|
                    0 <= k < 16 ==> #[trigger] r.rdata[k] == be_bytes(a as nat, 16)[k]
            },
            None => !(r.rtype == TYPE_A && r.rdata.len() == 4) && !(r.rtype == TYPE_AAAA
                && r.rdata.len() == 16),
        },
{
    let d = r.rdata;
    crate::net::lemma_be_nat_bound(d);
    crate::net::lemma_pow256_values();
    if r.rtype == TYPE_A && d.len() == 4 {
        reveal_with_fuel(be_nat, 5);
        assert(d.drop_last().drop_last().drop_last().drop_last().len() == 0);
    } else if r.rtype == TYPE_AAAA && d.len() == 16 {
        crate::net::lemma_be_unique(d);
    }
}

/// Where IPv6 is not used upstream, what is left of a list of addresses is its IPv4
/// addresses, in order; otherwise it is left as it is.
pub proof fn law_usable_addresses(s: Seq<IpAddr>, ipv6: bool)
    ensures
        usable(s, ipv6) == s.filter(|x: IpAddr| ipv6 || x is V4),
    decreases s.len(),
{
    let p = |x: IpAddr| ipv6 || x is V4;
    crate::lists::lemma_filter_last(s, p);
    if s.len() > 0 {
        law_usable_addresses(s.drop_last(), ipv6);
        assert(s.drop_last().push(s.last()) =~= s);
    } else {
        assert(s =~= Seq::empty());
    }
}

/// The glue of a server is every address given under its name, in order.
pub proof fn law_glue_of_a_server(rs: Seq<RecordV>, owner: Labels)
    ensures
        glue_of(rs, owner) == rs.filter(|x: RecordV| same_name(x.name, owner) && addr_in(x) is Some).map_values(
            |x: RecordV| addr_in(x)->0,
        ),
    decreases rs.len(),
{
    let p = |x: RecordV| same_name(x.name, owner) && addr_in(x) is Some;
    let f = |x: RecordV| addr_in(x)->0;
    if rs.len() == 0 {
        crate::lists::lemma_pick_none(rs, p, f);
    } else {
        law_glue_of_a_server(rs.drop_last(), owner);
        crate::lists::lemma_pick_last(rs, p, f);
    }
}

/// The records of a type are all of them, in order.
pub proof fn law_records_of_a_type(rs: Seq<RecordV>, rtype: u16)
    ensures
        of_type(rs, rtype) == rs.filter(|x: RecordV| x.rtype == rtype),
    decreases rs.len(),
{
    let p = |x: RecordV| x.rtype == rtype;
    crate::lists::lemma_filter_last(rs, p);
    if rs.len() > 0 {
        law_records_of_a_type(rs.drop_last(), rtype);
    }
}

/// The DS records of a referral are all those for the zone, in order.
pub proof fn law_ds_records_of_a_zone(rs: Seq<RecordV>, child: Labels)
    ensures
        ds_of(rs, child) == rs.filter(|x: RecordV| same_name(x.name, child) && x.rtype == TYPE_DS),
    decreases rs.len(),
{
    let p = |x: RecordV| same_name(x.name, child) && x.rtype == TYPE_DS;
    crate::lists::lemma_filter_last(rs, p);
    if rs.len() > 0 {
        law_ds_records_of_a_zone(rs.drop_last(), child);
    }
}

/// The signatures of a referral are all those for the zone that cover DS records, in order.
pub proof fn law_ds_signatures_of_a_zone(rs: Seq<RecordV>, child: Labels)
    ensures
        ds_sigs_of(rs, child) == rs.filter(|x: RecordV| same_name(x.name, child) && rrsig_in(x) is Some && rrsig_in(x)->0.type_covered == TYPE_DS),
    decreases rs.len(),
{
    let p = |x: RecordV| same_name(x.name, child) && rrsig_in(x) is Some && rrsig_in(x)->0.type_covered == TYPE_DS;
    crate::lists::lemma_filter_last(rs, p);
    if rs.len() > 0 {
        law_ds_signatures_of_a_zone(rs.drop_last(), child);
    }
}

/// The alias of a name is the target of the first CNAME record for it.
pub proof fn law_alias_is_the_first(rs: Seq<RecordV>, qname: Labels, from: int)
    requires
        0 <= from <= rs.len(),
    ensures
        match alias_of(rs, qname, from) {
            Some(v) => exists|i: int|
                {
                    &&& from <= i < rs.len()
                    &&& same_name((#[trigger] rs[i]).name, qname) && name_in((#[trigger] rs[i]), TYPE_CNAME) is Some
                    &&& v == name_in(rs[i], TYPE_CNAME)->0
                    &&& forall|j: int| from <= j < i ==> !(same_name((#[trigger] rs[j]).name, qname) && name_in((#[trigger] rs[j]), TYPE_CNAME) is Some)
                },
            None => forall|j: int| from <= j < rs.len() ==> !(same_name((#[trigger] rs[j]).name, qname) && name_in((#[trigger] rs[j]), TYPE_CNAME) is Some),
        },
    decreases rs.len() - from,
{
    if from < rs.len() {
        if same_name(rs[from].name, qname) && name_in(rs[from], TYPE_CNAME) is Some {
            assert(alias_of(rs, qname, from) == Some(name_in(rs[from], TYPE_CNAME)->0));
        } else {
            law_alias_is_the_first(rs, qname, from + 1);
        }
    }
}


/// What a reply is: a denial where it says that the name does not exist; a failure where the
/// server failed or refused; an alias where it has one for the name and something else was
/// asked for; an answer where it has records; a referral where it names servers; and
/// otherwise a reply without data.
pub proof fn law_replies_are_classified(resp: MessageV, qname: Labels, qtype: u16)
    ensures
        ({
            let c = class_of(resp, qname, qtype);
            let fails = resp.header.rcode == RCODE_SERVFAIL || resp.header.rcode == RCODE_REFUSED;
            let alias = exists|i: int|
                0 <= i < resp.answers.len() && same_name(
                    (#[trigger] resp.answers[i]).name,
                    qname,
                ) && name_in(resp.answers[i], TYPE_CNAME) is Some;
            let ns = resp.authorities.filter(|x: RecordV| x.rtype == TYPE_NS);
            &&& resp.header.rcode == RCODE_NXDOMAIN <==> c == ClassV::NxDomain
            &&& fails <==> c == ClassV::ServFail
            &&& resp.header.rcode != RCODE_NXDOMAIN && !fails ==> {
                &&& qtype != TYPE_CNAME && alias <==> c is Cname
                &&& !(qtype != TYPE_CNAME && alias) ==> {
                    &&& resp.answers.len() > 0 <==> c == ClassV::Answer
                    &&& resp.answers.len() == 0 && ns.len() > 0 ==> c == ClassV::Referral(
                        lower(ns[0].name),
                        ns,
                    )
                    &&& resp.answers.len() == 0 && ns.len() == 0 ==> c == ClassV::Empty
                }
            }
        }),
{
    law_alias_is_the_first(resp.answers, qname, 0);
    law_records_of_a_type(resp.authorities, TYPE_NS);
}

} // verus!
