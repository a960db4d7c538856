//! One walk from the root to an answer: what to do next after each reply.

use crate::name::{counted_labels, in_zone, lower, parent, same_name, Labels, Name};
use crate::net::IpAddr;
use crate::rdata::{name_in, rrsig_in};
use crate::recursor::dnssec::{steps_v, ChainStep, ChainStepV};
use crate::recursor::iterative::{
    addr_in, addr_record, class_of, classify, ds_of, ds_sigs_of, extract_ds_and_rrsig, glue_ips,
    glue_of, make_addr_record, usable, usable_ips, Budget, BudgetError, ClassV, Classification,
    GLUE_TTL, MAX_NS_ATTEMPTS, NS_PARALLEL,
};
use crate::recursor::reply::{
    bare, lowercase_response_names, lowered, new_header, new_message, one_query, plain_header,
};
use crate::wire::{
    clone_queries, clone_records, records_v, Header, Message, MessageV, QueryV, Record, RecordV,
    CLASS_IN, OPCODE_QUERY, RCODE_NXDOMAIN, TYPE_A, TYPE_AAAA, TYPE_DS, TYPE_NS,
};
use vstd::prelude::*;

verus! {

/// Why a walk ended without an answer.
#[derive(Debug, Clone, Copy, PartialEq, Eq, Structural)]
pub enum WalkError {
    Budget(BudgetError),
    /// A referral led no deeper.
    NonProgressive,
    /// A referral led to servers without addresses.
    NoNsAddresses,
    /// Every server of the zone failed.
    ServFail,
}

/// A walk under way.
#[derive(Debug)]
pub struct Walk {
    pub qname: Name,
    pub qtype: u16,
    pub qclass: u16,
    /// The zone whose servers are being asked.
    pub zone: Name,
    /// Their addresses.
    pub ns_ips: Vec<IpAddr>,
    /// The delegations followed so far.
    pub steps: Vec<ChainStep>,
}

/// A referral to another zone.
#[derive(Debug)]
pub struct Referral {
    pub zone: Name,
    pub ns_records: Vec<Record>,
    /// The additional section, which may hold addresses of the servers.
    pub glue: Vec<Record>,
    pub ds: Vec<Record>,
    pub ds_rrsig: Vec<Record>,
}

/// The value of a [`Referral`].
#[verifier::ext_equal]
pub ghost struct ReferralV {
    pub zone: Labels,
    pub ns_records: Seq<RecordV>,
    pub glue: Seq<RecordV>,
    pub ds: Seq<RecordV>,
    pub ds_rrsig: Seq<RecordV>,
}

impl View for Referral {
    type V = ReferralV;

    open spec fn view(&self) -> ReferralV {
        ReferralV {
            zone: self.zone@,
            ns_records: records_v(self.ns_records@),
            glue: records_v(self.glue@),
            ds: records_v(self.ds@),
            ds_rrsig: records_v(self.ds_rrsig@),
        }
    }
}

/// What to do after a reply.
#[derive(Debug)]
pub enum Next {
    /// The reply is the answer.
    Done,
    /// The server failed: leave it out, and ask another.
    TryAnother,
    /// Resolve the alias, then put the two replies together.
    Chase(Name),
    /// Find the addresses of the zone's servers, then ask them.
    Follow(Referral),
}

/// The value of a [`Next`].
pub enum NextV {
    Done,
    TryAnother,
    Chase(Labels),
    Follow(ReferralV),
}

impl View for Next {
    type V = NextV;

    open spec fn view(&self) -> NextV {
        match self {
            Next::Done => NextV::Done,
            Next::TryAnother => NextV::TryAnother,
            Next::Chase(n) => NextV::Chase(n@),
            Next::Follow(r) => NextV::Follow(r@),
        }
    }
}

/// The referral that a reply makes to `zone`.
pub open spec fn referral_in(resp: MessageV, zone: Labels, ns: Seq<RecordV>) -> ReferralV {
    ReferralV {
        zone,
        ns_records: ns,
        glue: resp.additionals,
        ds: ds_of(resp.authorities, zone),
        ds_rrsig: ds_sigs_of(resp.authorities, zone),
    }
}

/// The referral leads nowhere: only a zone strictly below the one just asked is progress.
pub open spec fn no_progress(new_zone: Labels, zone: Labels) -> bool {
    !(in_zone(zone, new_zone) && new_zone.len() > zone.len())
}

/// What to do after a reply, and whether an alias has to be paid for.
pub open spec fn next_after(
    resp: MessageV,
    qname: Labels,
    qtype: u16,
    zone: Labels,
    budget: Budget,
) -> Result<NextV, WalkError> {
    match class_of(resp, qname, qtype) {
        ClassV::Answer | ClassV::NxDomain | ClassV::Empty => Ok(NextV::Done),
        ClassV::ServFail => Ok(NextV::TryAnother),
        ClassV::Cname(target) => if budget.cname_remaining == 0 {
            Err(WalkError::Budget(BudgetError::CnameDepth))
        } else {
            Ok(NextV::Chase(target))
        },
        ClassV::Referral(new_zone, ns) => if no_progress(new_zone, zone) {
            Err(WalkError::NonProgressive)
        } else {
            Ok(NextV::Follow(referral_in(resp, new_zone, ns)))
        },
    }
}

/// The addresses other than `server`, in order.
pub open spec fn without(s: Seq<IpAddr>, server: IpAddr) -> Seq<IpAddr>
    decreases s.len(),
{
    if s.len() == 0 {
        Seq::empty()
    } else {
        let rest = without(s.drop_last(), server);
        if s.last() != server {
            rest.push(s.last())
        } else {
            rest
        }
    }
}

impl Walk {
    /// Start a walk: at the closest zone whose servers are known, or at the root. A walk
    /// that is to be validated always starts at the root.
    pub fn start(
        qname: &Name,
        qtype: u16,
        qclass: u16,
        known: Option<(Name, Vec<IpAddr>)>,
        roots: &Vec<IpAddr>,
        dnssec_ok: bool,
        budget: &mut Budget,
    ) -> (r: Result<Walk, WalkError>)
        ensures
            r is Err <==> old(budget).depth_remaining == 0,
            r is Err ==> r->Err_0 == WalkError::Budget(BudgetError::ReferralDepth)
                && *final(budget) == *old(budget),
            r is Ok ==> *final(budget) == (Budget {
                depth_remaining: (old(budget).depth_remaining - 1) as u32,
                ..*old(budget)
            }),
            match r {
                Ok(w) => {
                    &&& w.qname@ == qname@
                    &&& w.qtype == qtype
                    &&& w.qclass == qclass
                    &&& w.steps@.len() == 0
                    &&& match known {
                        Some((zone, ips)) => if dnssec_ok {
                            w.zone@.len() == 0 && w.ns_ips@ == roots@
                        } else {
                            w.zone@ == zone@ && w.ns_ips@ == ips@
                        },
                        None => w.zone@.len() == 0 && w.ns_ips@ == roots@,
                    }
                },
                Err(_) => true,
            },
    {
        if let Err(e) = budget.referral() {
            return Err(WalkError::Budget(e));
        }
        let (zone, ns_ips) = match known {
            Some((zone, ips)) => if dnssec_ok {
                (Name::root(), copy_ips(roots))
            } else {
                (zone, ips)
            },
            None => (Name::root(), copy_ips(roots)),
        };
        Ok(Walk { qname: qname.clone(), qtype, qclass, zone, ns_ips, steps: Vec::new() })
    }

    /// What to do after a reply of the current zone's servers.
    pub fn on_response(&self, resp: &Message, budget: &mut Budget) -> (r: Result<Next, WalkError>)
        ensures
            next_after(resp@, self.qname@, self.qtype, self.zone@, *old(budget)) == (match r {
                Ok(n) => Ok(n@),
                Err(e) => Err(e),
            }),
            match r {
                Ok(Next::Chase(_)) => *final(budget) == (Budget {
                    cname_remaining: (old(budget).cname_remaining - 1) as u32,
                    ..*old(budget)
                }),
                _ => *final(budget) == *old(budget),
            },
    {
        match classify(resp, &self.qname, self.qtype) {
            Classification::Answer => Ok(Next::Done),
            Classification::NxDomain => Ok(Next::Done),
            Classification::Empty => Ok(Next::Done),
            Classification::ServFail => Ok(Next::TryAnother),
            Classification::Cname(target) => match budget.cname() {
                Ok(()) => Ok(Next::Chase(target)),
                Err(e) => Err(WalkError::Budget(e)),
            },
            Classification::Referral(zone, ns_records) => {
                if !self.zone.zone_of(&zone) || zone.labels.len() <= self.zone.labels.len() {
                    return Err(WalkError::NonProgressive);
                }
                let (ds, ds_rrsig) = extract_ds_and_rrsig(resp, &zone);
                let r = Referral {
                    zone,
                    ns_records,
                    glue: clone_records(&resp.additionals),
                    ds,
                    ds_rrsig,
                };
                Ok(Next::Follow(r))
            },
        }
    }

    /// Leave out a server that failed. The walk ends where no other is left.
    pub fn leave_out(&mut self, server: IpAddr) -> (r: Result<(), WalkError>)
        ensures
            r is Err <==> without(old(self).ns_ips@, server).len() == 0,
            r is Err ==> r->Err_0 == WalkError::ServFail,
            final(self).ns_ips@ == without(old(self).ns_ips@, server),
            final(self).qname == old(self).qname,
            final(self).qtype == old(self).qtype,
            final(self).qclass == old(self).qclass,
            final(self).zone == old(self).zone,
            final(self).steps == old(self).steps,
    {
        let mut rest: Vec<IpAddr> = Vec::new();
        let mut i: usize = 0;
        while i < self.ns_ips.len()
            invariant
                i <= self.ns_ips@.len(),
                *self == *old(self),
                rest@ == without(self.ns_ips@.subrange(0, i as int), server),
            decreases self.ns_ips@.len() - i,
        {
            proof {
                assert(self.ns_ips@.subrange(0, i + 1).drop_last() =~= self.ns_ips@.subrange(
                    0,
                    i as int,
                ));
            }
            if self.ns_ips[i] != server {
                rest.push(self.ns_ips[i]);
            }
            i += 1;
        }
        assert(self.ns_ips@.subrange(0, self.ns_ips@.len() as int) =~= self.ns_ips@);
        let none: bool = rest.len() == 0;
        self.ns_ips = rest;
        if none {
            Err(WalkError::ServFail)
        } else {
            Ok(())
        }
    }

    /// Go on to the zone of a referral, once the addresses of its servers are known. The
    /// delegation is recorded for validation.
    pub fn descend(&mut self, referral: Referral, ips: Vec<IpAddr>) -> (r: Result<(), WalkError>)
        ensures
            r is Err <==> ips@.len() == 0,
            r is Err ==> r->Err_0 == WalkError::NoNsAddresses && *final(self) == *old(self),
            r is Ok ==> {
                &&& final(self).qname@ == old(self).qname@
                &&& final(self).qtype == old(self).qtype
                &&& final(self).qclass == old(self).qclass
                &&& final(self).zone@ == referral@.zone
                &&& final(self).ns_ips@ == ips@
                &&& final(self).steps@.len() == old(self).steps@.len() + 1
                &&& steps_v(final(self).steps@) == steps_v(old(self).steps@).push(
                    ChainStepV {
                        zone: referral@.zone,
                        ds: referral@.ds,
                        ds_rrsig: referral@.ds_rrsig,
                        ns_ips: ips@,
                    },
                )
            },
    {
        if ips.len() == 0 {
            return Err(WalkError::NoNsAddresses);
        }
        let ghost had = steps_v(self.steps@);
        let step = ChainStep {
            zone: referral.zone.clone(),
            ds: referral.ds,
            ds_rrsig: referral.ds_rrsig,
            ns_ips: copy_ips(&ips),
        };
        self.steps.push(step);
        assert(steps_v(self.steps@) =~= had.push(step@));
        self.zone = referral.zone;
        self.ns_ips = ips;
        Ok(())
    }
}

/// A server that failed is not asked again, the others still are, and leaving out one that
/// was asked leaves fewer: after as many failures as there are servers a walk ends.
pub proof fn law_failed_servers_are_left_out(s: Seq<IpAddr>, server: IpAddr)
    ensures
        forall|x: IpAddr|
            without(s, server).contains(x) <==> s.contains(x) && x != server,
        without(s, server).len() <= s.len(),
        s.contains(server) ==> without(s, server).len() < s.len(),
    decreases s.len(),
{
    if s.len() > 0 {
        let init = s.drop_last();
        let rest = without(init, server);
        law_failed_servers_are_left_out(init, server);
        assert forall|x: IpAddr|
            without(s, server).contains(x) <==> s.contains(x) && x != server by {
            if s.contains(x) && x != server {
                let i = choose|i: int| 0 <= i < s.len() && s[i] == x;
                if i < init.len() {
                    assert(init[i] == x);
                    assert(init.contains(x));
                    assert(rest.contains(x));
                    let j = choose|j: int| 0 <= j < rest.len() && rest[j] == x;
                    assert(without(s, server)[j] == x);
                } else {
                    assert(without(s, server)[rest.len() as int] == x);
                }
            }
            if without(s, server).contains(x) {
                let j = choose|j: int|
                    0 <= j < without(s, server).len() && without(s, server)[j] == x;
                if j < rest.len() {
                    assert(rest[j] == x);
                    assert(rest.contains(x));
                    assert(init.contains(x));
                    let i = choose|i: int| 0 <= i < init.len() && init[i] == x;
                    assert(s[i] == x);
                } else {
                    assert(s[s.len() - 1] == x);
                }
            }
        }
        if s.contains(server) {
            let i = choose|i: int| 0 <= i < s.len() && s[i] == server;
            if i < init.len() {
                assert(init[i] == server);
            }
        }
    }
}

/// A copy of a list of addresses.
pub fn copy_ips(s: &Vec<IpAddr>) -> (r: Vec<IpAddr>)
    ensures
        r@ == s@,
{
    usable_ips(s, true)
}

/// Each referral that is followed leads to a zone strictly below the one just asked: never
/// sideways, never back up the tree, so that no walk goes in circles.
pub proof fn law_referrals_descend(
    resp: MessageV,
    qname: Labels,
    qtype: u16,
    zone: Labels,
    budget: Budget,
    r: ReferralV,
)
    requires
        next_after(resp, qname, qtype, zone, budget) == Ok::<NextV, WalkError>(NextV::Follow(r)),
    ensures
        in_zone(zone, r.zone),
        r.zone.len() > zone.len(),
{
}

/// The reply to an alias with the answers of its target behind it, and with the
/// target's response code.
pub open spec fn merged(first: MessageV, chased: MessageV) -> MessageV {
    MessageV {
        header: Header { rcode: chased.header.rcode, ..first.header },
        answers: first.answers + chased.answers,
        ..first
    }
}

/// Put the reply to an alias and the answer for its target together.
pub fn merge_cname(first: Message, chased: &Message) -> (r: Message)
    ensures
        r@ == merged(first@, chased@),
{
    let mut m = first;
    append_records(&mut m.answers, &chased.answers);
    m.header.rcode = chased.header.rcode;
    m
}

/// Append copies of records.
pub fn append_records(dst: &mut Vec<Record>, src: &Vec<Record>)
    ensures
        records_v(final(dst)@) == records_v(old(dst)@) + records_v(src@),
{
    let ghost start = records_v(dst@);
    let ghost v = records_v(src@);
    let mut i: usize = 0;
    assert(start + v.subrange(0, 0) =~= start);
    while i < src.len()
        invariant
            i <= src@.len(),
            v == records_v(src@),
            records_v(dst@) == start + v.subrange(0, i as int),
        decreases src@.len() - i,
    {
        let ghost had = records_v(dst@);
        let c = src[i].clone();
        dst.push(c);
        assert(records_v(dst@) =~= had.push(v[i as int]));
        assert(records_v(dst@) =~= start + v.subrange(0, i + 1));
        i += 1;
    }
    assert(v.subrange(0, v.len() as int) =~= v);
}

/// The reply to a client that an answer becomes: the client's id and question, the
/// answer's code, answers and authority records, names in lower case.
pub open spec fn stitched(client: MessageV, answer: MessageV) -> MessageV {
    lowered(
        MessageV {
            answers: answer.answers,
            authorities: answer.authorities,
            ..bare(
                Header {
                    recursion_desired: client.header.recursion_desired,
                    recursion_available: true,
                    rcode: answer.header.rcode,
                    ..plain_header(client.header.id, true, OPCODE_QUERY)
                },
                client.queries,
            )
        },
    )
}

/// The reply to a client that an answer becomes.
pub fn stitch(client: &Message, answer: &Message) -> (r: Message)
    ensures
        r@ == stitched(client@, answer@),
{
    let mut h: Header = new_header(client.header.id, true, OPCODE_QUERY);
    h.recursion_desired = client.header.recursion_desired;
    h.recursion_available = true;
    h.rcode = answer.header.rcode;
    let mut m = new_message(h, clone_queries(&client.queries));
    m.answers = clone_records(&answer.answers);
    m.authorities = clone_records(&answer.authorities);
    lowercase_response_names(&mut m);
    m
}

/// The reply that a name in a local zone does not exist.
pub open spec fn local_nxdomain(client: MessageV) -> MessageV {
    lowered(
        bare(
            Header {
                recursion_desired: client.header.recursion_desired,
                recursion_available: true,
                authoritative: true,
                rcode: RCODE_NXDOMAIN,
                ..plain_header(client.header.id, true, OPCODE_QUERY)
            },
            client.queries,
        ),
    )
}

/// The reply that a name in a local zone does not exist.
pub fn synthesize_local_nxdomain(client: &Message) -> (r: Message)
    ensures
        r@ == local_nxdomain(client@),
{
    let mut h: Header = new_header(client.header.id, true, OPCODE_QUERY);
    h.recursion_desired = client.header.recursion_desired;
    h.recursion_available = true;
    h.authoritative = true;
    h.rcode = RCODE_NXDOMAIN;
    let mut m = new_message(h, clone_queries(&client.queries));
    lowercase_response_names(&mut m);
    m
}

/// The servers of a zone being asked, a few at a time.
#[derive(Debug)]
pub struct Race {
    pub order: Vec<IpAddr>,
    pub next: usize,
    pub in_flight: usize,
}

/// What to do after a server has failed.
#[derive(Debug, Clone, Copy, PartialEq, Eq, Structural)]
pub enum RaceNext {
    /// Ask this one too.
    Launch(IpAddr),
    /// Wait for the others.
    Wait,
    /// Nobody is left.
    GiveUp,
}

impl Race {
    /// Few servers are tried, fewer at a time.
    pub open spec fn wf(&self) -> bool {
        self.order@.len() <= MAX_NS_ATTEMPTS && self.in_flight <= NS_PARALLEL && self.in_flight
            <= self.next <= self.order@.len()
    }

    /// Start with addresses in the order in which they are to be tried.
    pub fn new(shuffled: &Vec<IpAddr>) -> (r: Race)
        ensures
            r.wf(),
            r.next == 0,
            r.in_flight == 0,
            r.order@ == (if shuffled@.len() <= MAX_NS_ATTEMPTS {
                shuffled@
            } else {
                shuffled@.subrange(0, MAX_NS_ATTEMPTS as int)
            }),
    {
        let mut order: Vec<IpAddr> = Vec::new();
        let mut i: usize = 0;
        while i < shuffled.len() && i < MAX_NS_ATTEMPTS
            invariant
                i <= shuffled@.len(),
                i <= MAX_NS_ATTEMPTS,
                order@ == shuffled@.subrange(0, i as int),
            decreases shuffled@.len() - i,
        {
            order.push(shuffled[i]);
            i += 1;
            assert(order@ =~= shuffled@.subrange(0, i as int));
        }
        proof {
            if shuffled@.len() <= MAX_NS_ATTEMPTS {
                assert(order@ =~= shuffled@);
            }
        }
        Race { order, next: 0, in_flight: 0 }
    }

    /// The next server to ask at the start, while fewer than the limit are being asked.
    /// Each one is paid for.
    pub fn launch(&mut self, budget: &mut Budget) -> (r: Result<Option<IpAddr>, BudgetError>)
        requires
            old(self).wf(),
        ensures
            final(self).wf(),
            final(self).order@ == old(self).order@,
            ({
                let more = old(self).in_flight < NS_PARALLEL && old(self).next < old(
                    self,
                ).order@.len();
                match r {
                    Ok(None) => !more && *final(self) == *old(self) && *final(budget) == *old(
                        budget,
                    ),
                    Ok(Some(ip)) => {
                        &&& more
                        &&& ip == old(self).order@[old(self).next as int]
                        &&& final(self).next == old(self).next + 1
                        &&& final(self).in_flight == old(self).in_flight + 1
                        &&& old(budget).queries_remaining > 0
                        &&& *final(budget) == (Budget {
                            queries_remaining: (old(budget).queries_remaining - 1) as u32,
                            ..*old(budget)
                        })
                    },
                    Err(e) => more && e == BudgetError::Queries && old(budget).queries_remaining
                        == 0 && *final(self) == *old(self) && *final(budget) == *old(budget),
                }
            }),
    {
        if self.in_flight >= NS_PARALLEL || self.next >= self.order.len() {
            return Ok(None);
        }
        match budget.query() {
            Err(e) => Err(e),
            Ok(()) => {
                let ip: IpAddr = self.order[self.next];
                self.next = self.next + 1;
                self.in_flight = self.in_flight + 1;
                Ok(Some(ip))
            },
        }
    }

    /// What to do after one of the servers has failed.
    pub fn failed(&mut self, budget: &mut Budget) -> (r: Result<RaceNext, BudgetError>)
        requires
            old(self).wf(),
            old(self).in_flight > 0,
        ensures
            final(self).wf(),
            final(self).order@ == old(self).order@,
            ({
                let more = old(self).next < old(self).order@.len();
                match r {
                    Ok(RaceNext::Launch(ip)) => {
                        &&& more
                        &&& ip == old(self).order@[old(self).next as int]
                        &&& final(self).next == old(self).next + 1
                        &&& final(self).in_flight == old(self).in_flight
                        &&& old(budget).queries_remaining > 0
                        &&& *final(budget) == (Budget {
                            queries_remaining: (old(budget).queries_remaining - 1) as u32,
                            ..*old(budget)
                        })
                    },
                    Ok(n) => {
                        &&& !more
                        &&& (n == RaceNext::GiveUp <==> old(self).in_flight == 1)
                        &&& final(self).next == old(self).next
                        &&& final(self).in_flight == old(self).in_flight - 1
                        &&& *final(budget) == *old(budget)
                    },
                    Err(e) => more && e == BudgetError::Queries && old(budget).queries_remaining
                        == 0 && final(self).next == old(self).next && final(self).in_flight == old(
                        self,
                    ).in_flight - 1 && *final(budget) == *old(budget),
                }
            }),
    {
        self.in_flight = self.in_flight - 1;
        if self.next < self.order.len() {
            match budget.query() {
                Err(e) => Err(e),
                Ok(()) => {
                    let ip: IpAddr = self.order[self.next];
                    self.next = self.next + 1;
                    self.in_flight = self.in_flight + 1;
                    Ok(RaceNext::Launch(ip))
                },
            }
        } else if self.in_flight == 0 {
            Ok(RaceNext::GiveUp)
        } else {
            Ok(RaceNext::Wait)
        }
    }
}

/// The names of a zone's servers, in lower case, in order.
pub open spec fn ns_targets(rs: Seq<RecordV>) -> Seq<Labels>
    decreases rs.len(),
{
    if rs.len() == 0 {
        Seq::empty()
    } else {
        let rest = ns_targets(rs.drop_last());
        match name_in(rs.last(), TYPE_NS) {
            Some(n) => rest.push(lower(n)),
            None => rest,
        }
    }
}

/// The values of a list of names.
pub open spec fn names_v(s: Seq<Name>) -> Seq<Labels> {
    Seq::new(s.len(), |i: int| s[i]@)
}

/// The names of a zone's servers.
pub fn server_names(rs: &Vec<Record>) -> (r: Vec<Name>)
    ensures
        names_v(r@) == ns_targets(records_v(rs@)),
{
    let ghost v = records_v(rs@);
    let mut out: Vec<Name> = Vec::new();
    let mut i: usize = 0;
    assert(names_v(out@) =~= Seq::empty());
    while i < rs.len()
        invariant
            i <= rs@.len(),
            v == records_v(rs@),
            names_v(out@) == ns_targets(v.subrange(0, i as int)),
        decreases rs@.len() - i,
    {
        let ghost had = names_v(out@);
        proof {
            assert(v.subrange(0, i + 1).drop_last() =~= v.subrange(0, i as int));
            assert(v.subrange(0, i + 1).last() == rs@[i as int]@);
        }
        if let Some(n) = rs[i].target(TYPE_NS) {
            let l = n.to_lowercase();
            out.push(l);
            assert(names_v(out@) =~= had.push(l@));
        }
        i += 1;
    }
    assert(v.subrange(0, v.len() as int) =~= v);
    out
}

/// How to come by the addresses of one server.
#[derive(Debug)]
pub enum NsPlan {
    /// These.
    Use(Vec<IpAddr>),
    /// By a resolution of its own.
    Resolve,
    /// Not at all: the budget is spent.
    Skip,
}

/// How to come by the addresses of the server `target`: from the referral's glue, else
/// from the cache, else by a resolution of its own.
pub fn plan_ns(
    target: &Name,
    glue: &Vec<Record>,
    cached: Vec<IpAddr>,
    ipv6_upstream: bool,
    budget: &Budget,
) -> (r: NsPlan)
    ensures
        ({
            let glued = glue_of(records_v(glue@), target@);
            match r {
                NsPlan::Use(ips) => if glued.len() > 0 {
                    ips@ == usable(glued, ipv6_upstream)
                } else {
                    cached@.len() > 0 && ips@ == cached@
                },
                NsPlan::Resolve => glued.len() == 0 && cached@.len() == 0
                    && budget.depth_remaining > 0 && budget.queries_remaining > 0,
                NsPlan::Skip => glued.len() == 0 && cached@.len() == 0 && !(
                budget.depth_remaining > 0 && budget.queries_remaining > 0),
            }
        }),
{
    let glued = glue_ips(glue, target);
    if glued.len() > 0 {
        NsPlan::Use(usable_ips(&glued, ipv6_upstream))
    } else if cached.len() > 0 {
        NsPlan::Use(cached)
    } else if budget.can_substep() {
        NsPlan::Resolve
    } else {
        NsPlan::Skip
    }
}

/// The addresses in records of one type, in order.
pub open spec fn addresses_in(rs: Seq<RecordV>, rtype: u16) -> Seq<IpAddr>
    decreases rs.len(),
{
    if rs.len() == 0 {
        Seq::empty()
    } else {
        let rest = addresses_in(rs.drop_last(), rtype);
        if rs.last().rtype == rtype && addr_in(rs.last()) is Some {
            rest.push(addr_in(rs.last())->0)
        } else {
            rest
        }
    }
}

/// The addresses in records of one type, in order.
pub fn record_addresses(rs: &Vec<Record>, rtype: u16) -> (r: Vec<IpAddr>)
    ensures
        r@ == addresses_in(records_v(rs@), rtype),
{
    let ghost v = records_v(rs@);
    let mut out: Vec<IpAddr> = Vec::new();
    let mut i: usize = 0;
    while i < rs.len()
        invariant
            i <= rs@.len(),
            v == records_v(rs@),
            out@ == addresses_in(v.subrange(0, i as int), rtype),
        decreases rs@.len() - i,
    {
        proof {
            assert(v.subrange(0, i + 1).drop_last() =~= v.subrange(0, i as int));
            assert(v.subrange(0, i + 1).last() == rs@[i as int]@);
        }
        if rs[i].rtype == rtype {
            if let Some(ip) = rs[i].address() {
                out.push(ip);
            }
        }
        i += 1;
    }
    assert(v.subrange(0, v.len() as int) =~= v);
    out
}

/// The addresses that kept answers give for a server: IPv4 first, and IPv6 where it is
/// used upstream.
pub fn cached_ns_ips(a: Option<&Message>, aaaa: Option<&Message>, ipv6_upstream: bool) -> (r: Vec<
    IpAddr,
>)
    ensures
        r@ == (match a {
            Some(m) => addresses_in(m@.answers, TYPE_A),
            None => Seq::empty(),
        }) + (match aaaa {
            Some(m) if ipv6_upstream => addresses_in(m@.answers, TYPE_AAAA),
            _ => Seq::empty(),
        }),
{
    let mut out: Vec<IpAddr> = match a {
        Some(m) => record_addresses(&m.answers, TYPE_A),
        None => Vec::new(),
    };
    let ghost first = out@;
    if ipv6_upstream {
        if let Some(m) = aaaa {
            let more = record_addresses(&m.answers, TYPE_AAAA);
            let mut i: usize = 0;
            assert(first + more@.subrange(0, 0) =~= first);
            while i < more.len()
                invariant
                    i <= more@.len(),
                    out@ == first + more@.subrange(0, i as int),
                decreases more@.len() - i,
            {
                out.push(more[i]);
                i += 1;
                assert(out@ =~= first + more@.subrange(0, i as int));
            }
            assert(more@.subrange(0, more@.len() as int) =~= more@);
            return out;
        }
    }
    assert(first + Seq::<IpAddr>::empty() =~= first);
    out
}

/// The zones above a name, from the closest to the root.
pub open spec fn zones_from(zone: Labels) -> Seq<Labels>
    decreases zone.len(),
{
    if zone.len() == 0 {
        seq![zone]
    } else {
        seq![zone] + zones_from(parent(zone))
    }
}

/// The zones at which a walk for `qname` could start, from the closest to the root: the
/// name itself is not among them.
pub open spec fn start_zones(qname: Labels) -> Seq<Labels> {
    zones_from(
        if counted_labels(qname) > 0 {
            parent(qname)
        } else {
            qname
        },
    )
}

/// The zones at which a walk for `qname` could start, from the closest to the root: the
/// name itself is not among them.
pub fn start_candidates(qname: &Name) -> (r: Vec<Name>)
    ensures
        names_v(r@) == start_zones(qname@),
{
    let mut zone = if qname.num_labels() > 0 {
        qname.base_name()
    } else {
        qname.clone()
    };
    let ghost first = zone@;
    let mut out: Vec<Name> = Vec::new();
    assert(names_v(out@) + zones_from(zone@) =~= zones_from(zone@));
    while !zone.is_root()
        invariant
            zones_from(first) == names_v(out@) + zones_from(zone@),
        decreases zone@.len(),
    {
        let ghost had = names_v(out@);
        let up = zone.base_name();
        let c = zone.clone();
        out.push(c);
        proof {
            assert(names_v(out@) =~= had.push(zone@));
            assert(had + (seq![zone@] + zones_from(parent(zone@))) =~= names_v(out@) + zones_from(
                up@,
            ));
        }
        zone = up;
    }
    let ghost had = names_v(out@);
    let ghost last = zone@;
    out.push(zone);
    assert(names_v(out@) =~= had + seq![last]);
    out
}

/// An answer made from glue: the addresses of one family that were given for a name.
pub open spec fn glue_answer(name: Labels, rtype: u16, ips: Seq<IpAddr>) -> MessageV {
    MessageV {
        answers: glue_records(name, rtype, ips),
        ..bare(
            plain_header(0, true, OPCODE_QUERY),
            seq![QueryV { name, qtype: rtype, qclass: CLASS_IN }],
        )
    }
}

/// The record type of an address.
pub open spec fn family(ip: IpAddr) -> u16 {
    match ip {
        IpAddr::V4(_) => TYPE_A,
        IpAddr::V6(_) => TYPE_AAAA,
    }
}

/// Records for the addresses of one family.
pub open spec fn glue_records(name: Labels, rtype: u16, ips: Seq<IpAddr>) -> Seq<RecordV>
    decreases ips.len(),
{
    if ips.len() == 0 {
        Seq::empty()
    } else {
        let rest = glue_records(name, rtype, ips.drop_last());
        if family(ips.last()) == rtype {
            rest.push(addr_record(name, GLUE_TTL, ips.last()))
        } else {
            rest
        }
    }
}

/// An answer made from glue, to be kept; none where no address is of the family.
pub fn build_synthetic_answer(name: &Name, rtype: u16, ips: &Vec<IpAddr>) -> (r: Option<Message>)
    ensures
        r is Some <==> glue_records(name@, rtype, ips@).len() > 0,
        r is Some ==> r->0@ == glue_answer(name@, rtype, ips@),
{
    let mut answers: Vec<Record> = Vec::new();
    let mut i: usize = 0;
    assert(records_v(answers@) =~= Seq::empty());
    while i < ips.len()
        invariant
            i <= ips@.len(),
            records_v(answers@) == glue_records(name@, rtype, ips@.subrange(0, i as int)),
        decreases ips@.len() - i,
    {
        let ghost had = records_v(answers@);
        proof {
            assert(ips@.subrange(0, i + 1).drop_last() =~= ips@.subrange(0, i as int));
        }
        let ip: IpAddr = ips[i];
        let fam: u16 = match ip {
            IpAddr::V4(_) => TYPE_A,
            IpAddr::V6(_) => TYPE_AAAA,
        };
        if fam == rtype {
            let r = make_addr_record(name, GLUE_TTL, ip);
            answers.push(r);
            assert(records_v(answers@) =~= had.push(r@));
        }
        i += 1;
    }
    assert(ips@.subrange(0, ips@.len() as int) =~= ips@);
    assert(records_v(answers@).len() == answers@.len());
    if answers.len() == 0 {
        return None;
    }
    let mut m = new_message(
        new_header(0, true, OPCODE_QUERY),
        one_query(name, rtype, CLASS_IN),
    );
    m.answers = answers;
    Some(m)
}

/// The NS records that belong to `zone`, in order.
pub open spec fn ns_of(rs: Seq<RecordV>, zone: Labels) -> Seq<RecordV>
    decreases rs.len(),
{
    if rs.len() == 0 {
        Seq::empty()
    } else if rs.last().rtype == TYPE_NS && same_name(rs.last().name, zone) {
        ns_of(rs.drop_last(), zone).push(rs.last())
    } else {
        ns_of(rs.drop_last(), zone)
    }
}

/// An answer made from the NS records of a referral, to be kept; none where no record
/// belongs to the zone.
pub fn build_zone_ns_answer(zone: &Name, ns_records: &Vec<Record>) -> (r: Option<Message>)
    ensures
        r is Some <==> ns_of(records_v(ns_records@), zone@).len() > 0,
        r is Some ==> r->0@ == (MessageV {
            answers: ns_of(records_v(ns_records@), zone@),
            ..bare(
                plain_header(0, true, OPCODE_QUERY),
                seq![QueryV { name: zone@, qtype: TYPE_NS, qclass: CLASS_IN }],
            )
        }),
{
    let ghost v = records_v(ns_records@);
    let mut answers: Vec<Record> = Vec::new();
    let mut i: usize = 0;
    assert(records_v(answers@) =~= Seq::empty());
    while i < ns_records.len()
        invariant
            i <= ns_records@.len(),
            v == records_v(ns_records@),
            records_v(answers@) == ns_of(v.subrange(0, i as int), zone@),
        decreases ns_records@.len() - i,
    {
        let ghost had = records_v(answers@);
        let r: &Record = &ns_records[i];
        proof {
            assert(v.subrange(0, i + 1).drop_last() =~= v.subrange(0, i as int));
            assert(v.subrange(0, i + 1).last() == r@);
        }
        if r.rtype == TYPE_NS && r.name.same(zone) {
            let c = r.clone();
            answers.push(c);
            assert(records_v(answers@) =~= had.push(r@));
        }
        i += 1;
    }
    assert(v.subrange(0, v.len() as int) =~= v);
    assert(records_v(answers@).len() == answers@.len());
    if answers.len() == 0 {
        return None;
    }
    let mut m = new_message(
        new_header(0, true, OPCODE_QUERY),
        one_query(zone, TYPE_NS, CLASS_IN),
    );
    m.answers = answers;
    Some(m)
}

/// Whether a name is on the list.
pub open spec fn listed(s: Seq<Labels>, n: Labels) -> bool {
    exists|i: int| 0 <= i < s.len() && same_name(#[trigger] s[i], n)
}

/// The owners of address records, in lower case, each once, in order of appearance.
pub open spec fn glue_owners(rs: Seq<RecordV>) -> Seq<Labels>
    decreases rs.len(),
{
    if rs.len() == 0 {
        Seq::empty()
    } else {
        let rest = glue_owners(rs.drop_last());
        if addr_in(rs.last()) is Some && !listed(rest, rs.last().name) {
            rest.push(lower(rs.last().name))
        } else {
            rest
        }
    }
}

/// The owners of address records.
pub fn list_glue_owners(rs: &Vec<Record>) -> (r: Vec<Name>)
    ensures
        names_v(r@) == glue_owners(records_v(rs@)),
{
    let ghost v = records_v(rs@);
    let mut out: Vec<Name> = Vec::new();
    let mut i: usize = 0;
    assert(names_v(out@) =~= Seq::empty());
    while i < rs.len()
        invariant
            i <= rs@.len(),
            v == records_v(rs@),
            names_v(out@) == glue_owners(v.subrange(0, i as int)),
        decreases rs@.len() - i,
    {
        let ghost had = names_v(out@);
        let r: &Record = &rs[i];
        proof {
            assert(v.subrange(0, i + 1).drop_last() =~= v.subrange(0, i as int));
            assert(v.subrange(0, i + 1).last() == r@);
        }
        if r.address().is_some() && !is_listed(&out, &r.name) {
            let l = r.name.to_lowercase();
            out.push(l);
            assert(names_v(out@) =~= had.push(l@));
        }
        i += 1;
    }
    assert(v.subrange(0, v.len() as int) =~= v);
    out
}

fn is_listed(s: &Vec<Name>, n: &Name) -> (r: bool)
    ensures
        r == listed(names_v(s@), n@),
{
    let mut i: usize = 0;
    while i < s.len()
        invariant
            i <= s@.len(),
            forall|j: int| 0 <= j < i ==> !same_name(#[trigger] names_v(s@)[j], n@),
        decreases s@.len() - i,
    {
        assert(names_v(s@)[i as int] == s@[i as int]@);
        if s[i].same(n) {
            return true;
        }
        i += 1;
    }
    false
}

/// Why the root servers' addresses could not be refreshed.
#[derive(Debug, Clone, Copy, PartialEq, Eq, Structural)]
pub enum PrimeError {
    NoRoots,
    NoNsRecords,
    NoGlue,
}

/// The first IPv4 address, from `i` on.
pub open spec fn first_v4(s: Seq<IpAddr>, i: int) -> Option<IpAddr>
    decreases s.len() - i,
{
    if i < 0 || i >= s.len() {
        None
    } else if s[i] is V4 {
        Some(s[i])
    } else {
        first_v4(s, i + 1)
    }
}

/// The root server to ask for the others: the first with an IPv4 address, else the
/// first.
pub fn prime_seed(roots: &Vec<IpAddr>) -> (r: Result<IpAddr, PrimeError>)
    ensures
        r == (match first_v4(roots@, 0) {
            Some(ip) => Ok(ip),
            None => if roots@.len() > 0 {
                Ok(roots@[0])
            } else {
                Err(PrimeError::NoRoots)
            },
        }),
{
    let mut i: usize = 0;
    while i < roots.len()
        invariant
            i <= roots@.len(),
            first_v4(roots@, 0) == first_v4(roots@, i as int),
        decreases roots@.len() - i,
    {
        if roots[i].is_ipv4() {
            return Ok(roots[i]);
        }
        i += 1;
    }
    if roots.len() > 0 {
        Ok(roots[0])
    } else {
        Err(PrimeError::NoRoots)
    }
}

/// The addresses that the glue gives to the first `n` of the servers.
pub open spec fn roots_from(
    targets: Seq<Labels>,
    glue: Seq<RecordV>,
    ipv6: bool,
    n: int,
) -> Seq<IpAddr>
    decreases n,
{
    if n <= 0 {
        Seq::empty()
    } else {
        roots_from(targets, glue, ipv6, n - 1) + usable(glue_of(glue, targets[n - 1]), ipv6)
    }
}

/// The root addresses that a reply with the root's NS records gives.
pub open spec fn primed(resp: MessageV, ipv6: bool) -> Result<Seq<IpAddr>, PrimeError> {
    let targets = ns_targets(resp.answers);
    let ips = roots_from(targets, resp.additionals, ipv6, targets.len() as int);
    if targets.len() == 0 {
        Err(PrimeError::NoNsRecords)
    } else if ips.len() == 0 {
        Err(PrimeError::NoGlue)
    } else {
        Ok(ips)
    }
}

/// The root addresses that a reply with the root's NS records gives.
pub fn primed_roots(resp: &Message, ipv6_upstream: bool) -> (r: Result<Vec<IpAddr>, PrimeError>)
    ensures
        primed(resp@, ipv6_upstream) == (match r {
            Ok(v) => Ok(v@),
            Err(e) => Err(e),
        }),
{
    let targets = server_names(&resp.answers);
    let ghost t = names_v(targets@);
    assert(t.len() == targets@.len());
    if targets.len() == 0 {
        return Err(PrimeError::NoNsRecords);
    }
    let mut out: Vec<IpAddr> = Vec::new();
    let mut i: usize = 0;
    while i < targets.len()
        invariant
            i <= targets@.len(),
            t == names_v(targets@),
            out@ == roots_from(t, resp@.additionals, ipv6_upstream, i as int),
        decreases targets@.len() - i,
    {
        let ghost had = out@;
        assert(t[i as int] == targets@[i as int]@);
        let ips = usable_ips(&glue_ips(&resp.additionals, &targets[i]), ipv6_upstream);
        let mut j: usize = 0;
        assert(had + ips@.subrange(0, 0) =~= had);
        while j < ips.len()
            invariant
                j <= ips@.len(),
                out@ == had + ips@.subrange(0, j as int),
            decreases ips@.len() - j,
        {
            out.push(ips[j]);
            j += 1;
            assert(out@ =~= had + ips@.subrange(0, j as int));
        }
        assert(ips@.subrange(0, ips@.len() as int) =~= ips@);
        i += 1;
    }
    if out.len() == 0 {
        Err(PrimeError::NoGlue)
    } else {
        Ok(out)
    }
}

/// The reply to a client tells what the walk found out: it has the response code of the
/// answer, and its answers and authorities, record for record, with names in lower case. It
/// echoes the client's identifier, question and wish for recursion, says that recursion is
/// available, and claims neither authority nor authenticity.
pub proof fn law_reply_tells_what_the_walk_found(client: MessageV, answer: MessageV)
    ensures
        ({
            let r = stitched(client, answer);
            &&& r.header.rcode == answer.header.rcode
            &&& r.header.id == client.header.id
            &&& r.header.response
            &&& r.header.opcode == OPCODE_QUERY
            &&& r.header.recursion_desired == client.header.recursion_desired
            &&& r.header.recursion_available
            &&& !r.header.authoritative
            &&& !r.header.truncated
            &&& !r.header.authentic_data
            &&& !r.header.checking_disabled
            &&& r.queries.len() == client.queries.len()
            &&& forall|i: int|
                0 <= i < client.queries.len() ==> same_name(
                    (#[trigger] r.queries[i]).name,
                    client.queries[i].name,
                ) && r.queries[i].qtype == client.queries[i].qtype && r.queries[i].qclass
                    == client.queries[i].qclass
            &&& same_records(r.answers, answer.answers)
            &&& same_records(r.authorities, answer.authorities)
            &&& r.additionals.len() == 0
            &&& r.edns is None
            &&& r.signature is None
        }),
{
    law_lowering_keeps_records(answer.answers);
    law_lowering_keeps_records(answer.authorities);
    assert forall|i: int| 0 <= i < client.queries.len() implies same_name(
        (#[trigger] stitched(client, answer).queries[i]).name,
        client.queries[i].name,
    ) by {
        crate::name::lemma_lower_idempotent(client.queries[i].name);
    }
}

/// Two lists hold the same records, in order, names compared without case.
pub open spec fn same_records(a: Seq<RecordV>, b: Seq<RecordV>) -> bool {
    &&& a.len() == b.len()
    &&& forall|i: int|
        0 <= i < a.len() ==> same_name((#[trigger] a[i]).name, b[i].name) && a[i].rtype
            == b[i].rtype && a[i].class == b[i].class && a[i].ttl == b[i].ttl && a[i].rdata
            == b[i].rdata
}

/// Lower case changes nothing of a record but the case of its owner name.
pub proof fn law_lowering_keeps_records(rs: Seq<RecordV>)
    ensures
        same_records(crate::recursor::reply::lowered_records(rs), rs),
{
    assert forall|i: int| 0 <= i < rs.len() implies same_name(
        (#[trigger] crate::recursor::reply::lowered_records(rs)[i]).name,
        rs[i].name,
    ) by {
        crate::name::lemma_lower_idempotent(rs[i].name);
    }
}

/// A reply that was put together along an alias holds the records of both replies, the
/// alias first, under the response code that the alias's target was answered with; for the
/// rest it is the first reply.
pub proof fn law_alias_reply_holds_both(first: MessageV, chased: MessageV)
    ensures
        ({
            let r = merged(first, chased);
            &&& r.header.rcode == chased.header.rcode
            &&& r.header.id == first.header.id
            &&& r.queries == first.queries
            &&& r.answers.len() == first.answers.len() + chased.answers.len()
            &&& forall|i: int|
                0 <= i < first.answers.len() ==> #[trigger] r.answers[i] == first.answers[i]
            &&& forall|i: int|
                0 <= i < chased.answers.len() ==> r.answers[first.answers.len() + i]
                    == #[trigger] chased.answers[i]
            &&& r.authorities == first.authorities
            &&& r.additionals == first.additionals
            &&& r.edns == first.edns
        }),
{
}

/// The reply for a name of a local zone is an authoritative denial that echoes the client's
/// identifier and question, and holds no records.
pub proof fn law_local_names_are_denied(client: MessageV)
    ensures
        ({
            let r = local_nxdomain(client);
            &&& r.header.rcode == RCODE_NXDOMAIN
            &&& r.header.authoritative
            &&& r.header.response
            &&& r.header.recursion_available
            &&& !r.header.authentic_data
            &&& r.header.id == client.header.id
            &&& r.header.recursion_desired == client.header.recursion_desired
            &&& r.queries.len() == client.queries.len()
            &&& forall|i: int|
                0 <= i < client.queries.len() ==> same_name(
                    (#[trigger] r.queries[i]).name,
                    client.queries[i].name,
                ) && r.queries[i].qtype == client.queries[i].qtype
            &&& r.answers.len() == 0
            &&& r.authorities.len() == 0
            &&& r.additionals.len() == 0
        }),
{
    assert forall|i: int| 0 <= i < client.queries.len() implies same_name(
        (#[trigger] local_nxdomain(client).queries[i]).name,
        client.queries[i].name,
    ) by {
        crate::name::lemma_lower_idempotent(client.queries[i].name);
    }
}

/// The servers of a zone are the targets of all its NS records, in order, in lower case.
pub proof fn law_servers_of_a_zone(rs: Seq<RecordV>)
    ensures
        ns_targets(rs) == rs.filter(|x: RecordV| name_in(x, TYPE_NS) is Some).map_values(
            |x: RecordV| lower(name_in(x, TYPE_NS)->0),
        ),
    decreases rs.len(),
{
    let p = |x: RecordV| name_in(x, TYPE_NS) is Some;
    let f = |x: RecordV| lower(name_in(x, TYPE_NS)->0);
    if rs.len() == 0 {
        crate::lists::lemma_pick_none(rs, p, f);
    } else {
        law_servers_of_a_zone(rs.drop_last());
        crate::lists::lemma_pick_last(rs, p, f);
    }
}

/// The addresses in records of a type are those of all such records, in order.
pub proof fn law_addresses_of_a_type(rs: Seq<RecordV>, rtype: u16)
    ensures
        addresses_in(rs, rtype) == rs.filter(|x: RecordV| x.rtype == rtype && addr_in(x) is Some).map_values(
            |x: RecordV| addr_in(x)->0,
        ),
    decreases rs.len(),
{
    let p = |x: RecordV| x.rtype == rtype && addr_in(x) is Some;
    let f = |x: RecordV| addr_in(x)->0;
    if rs.len() == 0 {
        crate::lists::lemma_pick_none(rs, p, f);
    } else {
        law_addresses_of_a_type(rs.drop_last(), rtype);
        crate::lists::lemma_pick_last(rs, p, f);
    }
}

/// An answer made from glue has a record for every address of the family, in order, under the
/// name and with the TTL of glue.
pub proof fn law_glue_answers_hold_every_address(name: Labels, rtype: u16, ips: Seq<IpAddr>)
    ensures
        glue_records(name, rtype, ips) == ips.filter(|x: IpAddr| (x is V4 ==> rtype == TYPE_A) && (x is V6 ==> rtype == TYPE_AAAA)).map_values(
            |x: IpAddr| addr_record(name, 300, x),
        ),
    decreases ips.len(),
{
    let p = |x: IpAddr| (x is V4 ==> rtype == TYPE_A) && (x is V6 ==> rtype == TYPE_AAAA);
    let f = |x: IpAddr| addr_record(name, 300, x);
    if ips.len() == 0 {
        crate::lists::lemma_pick_none(ips, p, f);
    } else {
        law_glue_answers_hold_every_address(name, rtype, ips.drop_last());
        crate::lists::lemma_pick_last(ips, p, f);
    }
}

/// The servers kept for a zone are all the NS records under its name, in order.
pub proof fn law_kept_servers_are_the_zones_own(rs: Seq<RecordV>, zone: Labels)
    ensures
        ns_of(rs, zone) == rs.filter(|x: RecordV| x.rtype == TYPE_NS && same_name(x.name, zone)),
    decreases rs.len(),
{
    let p = |x: RecordV| x.rtype == TYPE_NS && same_name(x.name, zone);
    crate::lists::lemma_filter_last(rs, p);
    if rs.len() > 0 {
        law_kept_servers_are_the_zones_own(rs.drop_last(), zone);
    }
}

/// Leaving a server out keeps all the others, in order.
pub proof fn law_only_the_failed_server_is_left_out(s: Seq<IpAddr>, server: IpAddr)
    ensures
        without(s, server) == s.filter(|x: IpAddr| x != server),
    decreases s.len(),
{
    let p = |x: IpAddr| x != server;
    crate::lists::lemma_filter_last(s, p);
    if s.len() > 0 {
        law_only_the_failed_server_is_left_out(s.drop_last(), server);
    }
}


/// Priming asks the first IPv4 root server, and where there is none the first of all.
pub proof fn law_priming_prefers_ipv4(s: Seq<IpAddr>, from: int)
    requires
        0 <= from <= s.len(),
    ensures
        match first_v4(s, from) {
            Some(ip) => exists|i: int|
                {
                    &&& from <= i < s.len()
                    &&& ip == #[trigger] s[i]
                    &&& s[i] is V4
                    &&& forall|j: int| from <= j < i ==> (#[trigger] s[j]) is V6
                },
            None => forall|j: int| from <= j < s.len() ==> (#[trigger] s[j]) is V6,
        },
    decreases s.len() - from,
{
    if from < s.len() {
        if s[from] is V4 {
            assert(first_v4(s, from) == Some(s[from]));
        } else {
            law_priming_prefers_ipv4(s, from + 1);
        }
    }
}

/// A walk could start at the parent of the name, or at any zone above that, each with one
/// label less than the one before, down to the root.
pub proof fn law_start_zones_climb_to_the_root(zone: Labels)
    ensures
        zones_from(zone).len() == zone.len() + 1,
        forall|i: int|
            0 <= i <= zone.len() ==> #[trigger] zones_from(zone)[i] == zone.subrange(
                i,
                zone.len() as int,
            ),
    decreases zone.len(),
{
    if zone.len() > 0 {
        let up = parent(zone);
        law_start_zones_climb_to_the_root(up);
        assert forall|i: int| 0 <= i <= zone.len() implies #[trigger] zones_from(zone)[i]
            == zone.subrange(i, zone.len() as int) by {
            if i == 0 {
                assert(zone.subrange(0, zone.len() as int) =~= zone);
            } else {
                assert(zones_from(zone)[i] == zones_from(up)[i - 1]);
                assert(up.subrange(i - 1, up.len() as int) =~= zone.subrange(
                    i,
                    zone.len() as int,
                ));
            }
        }
    } else {
        assert(zone.subrange(0, 0) =~= zone);
    }
}

/// The primed roots are the glue of every root server named in the reply, server by server.
pub proof fn law_primed_roots_have_all_glue(
    targets: Seq<Labels>,
    glue: Seq<RecordV>,
    ipv6: bool,
    n: int,
    k: int,
    ip: IpAddr,
)
    requires
        0 <= k < n <= targets.len(),
        glue_of(glue, targets[k]).contains(ip),
        ipv6 || ip is V4,
    ensures
        roots_from(targets, glue, ipv6, n).contains(ip),
    decreases n,
{
    let all = roots_from(targets, glue, ipv6, n);
    let rest = roots_from(targets, glue, ipv6, n - 1);
    let last = usable(glue_of(glue, targets[n - 1]), ipv6);
    if k == n - 1 {
        let s = glue_of(glue, targets[k]);
        crate::recursor::iterative::law_usable_addresses(s, ipv6);
        let p = |x: IpAddr| ipv6 || x is V4;
        lemma_filter_keeps(s, p, ip);
        let i = choose|i: int| 0 <= i < last.len() && last[i] == ip;
        assert(all[rest.len() + i] == ip);
    } else {
        law_primed_roots_have_all_glue(targets, glue, ipv6, n - 1, k, ip);
        let i = choose|i: int| 0 <= i < rest.len() && rest[i] == ip;
        assert(all[i] == ip);
    }
}

proof fn lemma_filter_keeps(s: Seq<IpAddr>, p: spec_fn(IpAddr) -> bool, x: IpAddr)
    requires
        s.contains(x),
        p(x),
    ensures
        s.filter(p).contains(x),
    decreases s.len(),
{
    crate::lists::lemma_filter_last(s, p);
    let i = choose|i: int| 0 <= i < s.len() && s[i] == x;
    if i < s.len() - 1 {
        assert(s.drop_last()[i] == x);
        lemma_filter_keeps(s.drop_last(), p, x);
        let f = s.drop_last().filter(p);
        let j = choose|j: int| 0 <= j < f.len() && f[j] == x;
        assert(s.filter(p)[j] == x);
    } else {
        assert(s.filter(p)[s.filter(p).len() - 1] == x);
    }
}

/// What a walk does with a reply: it is done with answers, denials and replies without data;
/// asks another server after a failure; chases an alias while it may; and follows a referral
/// that leads down, with all its servers, its glue, and the DS records and signatures for the
/// zone.
pub proof fn law_walk_goes_on(
    resp: MessageV,
    qname: Labels,
    qtype: u16,
    zone: Labels,
    budget: Budget,
)
    ensures
        ({
            let next = next_after(resp, qname, qtype, zone, budget);
            &&& class_of(resp, qname, qtype) == ClassV::Answer ==> next == Ok::<NextV, WalkError>(
                NextV::Done,
            )
            &&& resp.header.rcode == RCODE_NXDOMAIN ==> next == Ok::<NextV, WalkError>(NextV::Done)
            &&& class_of(resp, qname, qtype) == ClassV::Empty ==> next == Ok::<NextV, WalkError>(
                NextV::Done,
            )
            &&& class_of(resp, qname, qtype) == ClassV::ServFail ==> next == Ok::<
                NextV,
                WalkError,
            >(NextV::TryAnother)
            &&& match class_of(resp, qname, qtype) {
                ClassV::Cname(target) => if budget.cname_remaining > 0 {
                    next == Ok::<NextV, WalkError>(NextV::Chase(target))
                } else {
                    next == Err::<NextV, WalkError>(WalkError::Budget(BudgetError::CnameDepth))
                },
                ClassV::Referral(to, ns) => if in_zone(zone, to) && to.len() > zone.len() {
                    next == Ok::<NextV, WalkError>(
                        NextV::Follow(
                            ReferralV {
                                zone: to,
                                ns_records: ns,
                                glue: resp.additionals,
                                ds: resp.authorities.filter(
                                    |x: RecordV| same_name(x.name, to) && x.rtype == TYPE_DS,
                                ),
                                ds_rrsig: resp.authorities.filter(
                                    |x: RecordV|
                                        same_name(x.name, to) && rrsig_in(x) is Some && rrsig_in(
                                            x,
                                        )->0.type_covered == TYPE_DS,
                                ),
                            },
                        ),
                    )
                } else {
                    next == Err::<NextV, WalkError>(WalkError::NonProgressive)
                },
                _ => true,
            }
        }),
{
    if let ClassV::Referral(to, _) = class_of(resp, qname, qtype) {
        crate::recursor::iterative::law_ds_records_of_a_zone(resp.authorities, to);
        crate::recursor::iterative::law_ds_signatures_of_a_zone(resp.authorities, to);
    }
}

/// The owners of glue are every name with an address, each once, in lower case.
pub proof fn law_every_glue_owner_is_listed(rs: Seq<RecordV>)
    ensures
        forall|i: int|
            0 <= i < rs.len() && addr_in(#[trigger] rs[i]) is Some ==> listed(
                glue_owners(rs),
                rs[i].name,
            ),
        forall|k: int|
            0 <= k < glue_owners(rs).len() ==> glue_owner_of(rs, #[trigger] glue_owners(rs)[k]),
        forall|a: int, b: int|
            0 <= a < b < glue_owners(rs).len() ==> !same_name(
                #[trigger] glue_owners(rs)[a],
                #[trigger] glue_owners(rs)[b],
            ),
    decreases rs.len(),
{
    if rs.len() > 0 {
        let before = rs.drop_last();
        let r = rs.last();
        law_every_glue_owner_is_listed(before);
        let was = glue_owners(before);
        let now = glue_owners(rs);
        crate::name::lemma_lower_idempotent(r.name);
        assert forall|i: int| 0 <= i < rs.len() && addr_in(#[trigger] rs[i]) is Some implies listed(
            now,
            rs[i].name,
        ) by {
            if i < before.len() {
                assert(before[i] == rs[i]);
                let k = choose|k: int| 0 <= k < was.len() && same_name(#[trigger] was[k], rs[i].name);
                assert(now[k] == was[k]);
            } else if listed(was, r.name) {
                let k = choose|k: int| 0 <= k < was.len() && same_name(#[trigger] was[k], r.name);
                assert(now[k] == was[k]);
            } else {
                assert(same_name(now[was.len() as int], r.name));
            }
        }
        assert forall|k: int| 0 <= k < now.len() implies glue_owner_of(rs, #[trigger] now[k]) by {
            if k < was.len() {
                assert(now[k] == was[k]);
                let i = choose|i: int|
                    0 <= i < before.len() && addr_in(#[trigger] before[i]) is Some && was[k]
                        == lower(before[i].name);
                assert(rs[i] == before[i]);
            } else {
                assert(rs[rs.len() - 1] == r);
            }
        }
        assert forall|a: int, b: int| 0 <= a < b < now.len() implies !same_name(
            #[trigger] now[a],
            #[trigger] now[b],
        ) by {
            assert(now[a] == was[a]);
            if b < was.len() {
                assert(now[b] == was[b]);
            } else {
                assert(!same_name(was[a], r.name));
            }
        }
    }
}

/// A name, in lower case, is the owner of some address.
pub open spec fn glue_owner_of(rs: Seq<RecordV>, n: Labels) -> bool {
    exists|i: int| 0 <= i < rs.len() && addr_in(#[trigger] rs[i]) is Some && n == lower(rs[i].name)
}

/// Priming succeeds where the reply names servers and has an address of one of them, and why
/// it fails otherwise is told apart.
pub proof fn law_priming_outcome(resp: MessageV, ipv6: bool)
    ensures
        ({
            let t = ns_targets(resp.answers);
            let ips = roots_from(t, resp.additionals, ipv6, t.len() as int);
            &&& t.len() == 0 <==> primed(resp, ipv6) == Err::<Seq<IpAddr>, PrimeError>(
                PrimeError::NoNsRecords,
            )
            &&& t.len() > 0 && ips.len() == 0 <==> primed(resp, ipv6) == Err::<
                Seq<IpAddr>,
                PrimeError,
            >(PrimeError::NoGlue)
            &&& t.len() > 0 && ips.len() > 0 <==> primed(resp, ipv6) == Ok::<
                Seq<IpAddr>,
                PrimeError,
            >(ips)
        }),
{
}

/// A walk could start at any zone above the name, from its parent to the root, but not at the
/// name itself.
pub proof fn law_walks_start_above_the_name(qname: Labels)
    requires
        qname.len() > 0,
        qname[0] != seq![42u8],
    ensures
        start_zones(qname).len() == qname.len(),
        forall|i: int|
            0 <= i < qname.len() ==> #[trigger] start_zones(qname)[i] == qname.subrange(
                i + 1,
                qname.len() as int,
            ),
{
    let up = parent(qname);
    law_start_zones_climb_to_the_root(up);
    assert forall|i: int| 0 <= i < qname.len() implies #[trigger] start_zones(qname)[i]
        == qname.subrange(i + 1, qname.len() as int) by {
        assert(up.subrange(i, up.len() as int) =~= qname.subrange(i + 1, qname.len() as int));
    }
}

/// An answer made from glue is a successful reply to the question for the name's addresses.
pub proof fn law_glue_answers_answer_the_question(name: Labels, rtype: u16, ips: Seq<IpAddr>)
    ensures
        ({
            let m = glue_answer(name, rtype, ips);
            &&& m.header.response
            &&& m.header.rcode == 0
            &&& m.queries.len() == 1
            &&& m.queries[0].name == name
            &&& m.queries[0].qtype == rtype
            &&& m.queries[0].qclass == CLASS_IN
            &&& m.answers == glue_records(name, rtype, ips)
            &&& m.authorities.len() == 0
        }),
{
}

} // verus!
