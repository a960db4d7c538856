//! The way of a query through the resolver: what to do at each point, given what the
//! cache, the servers and the validator have said so far.

use crate::bytes::be16_bytes;
use crate::codec::{decoded, encoded};
use crate::handler::ListenerContext;
use crate::name::{Labels, Name};
use crate::net::IpAddr;
use crate::recursor::cache::rewrite_txid;
use crate::recursor::ddr::{
    asks_for_resolver, ddr_reply, is_ddr_question, svcbs_ok, svcbs_v, Svcb,
};
use crate::recursor::dns64::{
    rewrap_ptr_response, rewrapped, rewrite_ptr_question, rewritten, should_synthesise,
    synthesis_due, synthesise_from_a, synthesised, Dns64Policy, Prefix,
};
use crate::recursor::dnssec::{
    with_ad, DnssecPolicy, StatusV, ValidationStatus, EDE_DNSSEC_BOGUS,
};
use crate::recursor::forwarder::{entry_at, with_id, Forwarders};
use crate::recursor::ipv4only::{is_local, is_local_question, local_reply};
use crate::recursor::reply::{
    bare, build_refused, ede_bytes, new_header, new_message, one_query, plain_header, refusal,
    servfail, servfail_bytes, servfail_with_ede,
};
use crate::recursor::rrl::Rrl;
use crate::recursor::walk::names_v;
use crate::wire::{
    records_v, Message, MessageV, QueryV, Record, RecordV, CLASS_IN, OPCODE_QUERY, TYPE_A,
    RCODE_NXDOMAIN, TYPE_AAAA, TYPE_PTR,
};
use vstd::prelude::*;

verus! {

/// What the resolver is set up to do.
#[derive(Debug)]
pub struct Engine {
    pub dns64: Option<Dns64Policy>,
    pub dnssec: DnssecPolicy,
    /// Whether names that are not forwarded are resolved.
    pub iterative: bool,
    /// The encrypted protocols that clients are told of.
    pub ddr: Vec<Svcb>,
    pub forwarders: Forwarders,
}

impl Engine {
    /// Prefix and bindings are usable.
    pub open spec fn wf(&self) -> bool {
        (self.dns64 is Some ==> self.dns64->0.wf()) && svcbs_ok(svcbs_v(self.ddr@))
    }

    /// The DNS64 prefix on a listener.
    pub open spec fn prefix(&self, listener_dns64: bool) -> Option<Prefix> {
        match self.dns64 {
            Some(p) if listener_dns64 => Some(p.prefix),
            _ => None,
        }
    }

    /// The names for which DNS64 makes no address.
    pub open spec fn exclusions(&self) -> Option<Seq<Labels>> {
        match self.dns64 {
            Some(p) => Some(names_v(p.exclusions@)),
            None => None,
        }
    }

    /// DNS64 addresses are made for this question and reply.
    pub open spec fn synthesises(&self, listener_dns64: bool, q: QueryV, resp: MessageV) -> bool {
        synthesis_due(self.exclusions(), listener_dns64, q.name, q.qtype, resp)
    }
}

/// A response with the policy applied.
pub open spec fn under_policy(p: DnssecPolicy, m: MessageV) -> MessageV {
    match p {
        DnssecPolicy::PassThrough => m,
        _ => with_ad(m, false),
    }
}

/// What to do with received bytes.
#[derive(Debug)]
pub enum Received {
    /// Nothing.
    Drop,
    /// Send this.
    Reply(Vec<u8>),
    /// Answer this query.
    Ask(Message),
}

/// The value of a [`Received`].
pub enum ReceivedV {
    Drop,
    Reply(Seq<u8>),
    Ask(MessageV),
}

impl View for Received {
    type V = ReceivedV;

    open spec fn view(&self) -> ReceivedV {
        match self {
            Received::Drop => ReceivedV::Drop,
            Received::Reply(b) => ReceivedV::Reply(b@),
            Received::Ask(m) => ReceivedV::Ask(m@),
        }
    }
}

/// Send what there is to send.
pub open spec fn reply_or_drop(b: Option<Seq<u8>>) -> ReceivedV {
    match b {
        Some(b) => ReceivedV::Reply(b),
        None => ReceivedV::Drop,
    }
}

/// What to do with received bytes: refuse them while the resolver is not ready, and drop
/// what is no query.
pub open spec fn received(ready: bool, query: Seq<u8>) -> ReceivedV {
    if !ready {
        reply_or_drop(refusal(query))
    } else {
        match decoded(query) {
            None => ReceivedV::Drop,
            Some(m) => if m.queries.len() == 0 {
                ReceivedV::Drop
            } else {
                ReceivedV::Ask(m)
            },
        }
    }
}

fn send(b: Option<Vec<u8>>) -> (r: Received)
    ensures
        r@ == reply_or_drop(
            match b {
                Some(b) => Some(b@),
                None => None,
            },
        ),
{
    match b {
        Some(b) => Received::Reply(b),
        None => Received::Drop,
    }
}

/// What to do with received bytes.
pub fn receive(ready: bool, query: &[u8]) -> (r: Received)
    ensures
        r@ == received(ready, query@),
{
    if !ready {
        return send(build_refused(query));
    }
    match Message::from_bytes(query) {
        None => Received::Drop,
        Some(m) => {
            assert(m@.queries.len() == m.queries@.len());
            if m.queries.len() == 0 {
                Received::Drop
            } else {
                Received::Ask(m)
            }
        },
    }
}

/// Whether the client may have one more query answered. Without a limiter it may; what a
/// limiter says depends on the time.
pub fn within_rate(rrl: Option<&Rrl>, peer: IpAddr) -> (r: bool)
    ensures
        rrl is None ==> r,
{
    match rrl {
        None => true,
        Some(l) => l.check(peer),
    }
}

/// Which way a query goes.
#[derive(Debug)]
pub enum Route {
    /// It is dropped.
    Drop,
    /// It is answered here.
    Reply(Vec<u8>),
    /// The reverse name of an IPv4 address is asked for in its place.
    AskPtr(Name),
    /// It is looked up.
    LookUp,
}

/// The value of a [`Route`].
pub enum RouteV {
    Drop,
    Reply(Seq<u8>),
    AskPtr(Labels),
    LookUp,
}

impl View for Route {
    type V = RouteV;

    open spec fn view(&self) -> RouteV {
        match self {
            Route::Drop => RouteV::Drop,
            Route::Reply(b) => RouteV::Reply(b@),
            Route::AskPtr(n) => RouteV::AskPtr(n@),
            Route::LookUp => RouteV::LookUp,
        }
    }
}

/// Answer with this message, if it has a wire form.
pub open spec fn answer_here(m: MessageV) -> RouteV {
    match encoded(m) {
        Some(b) => RouteV::Reply(b),
        None => RouteV::Drop,
    }
}

/// Which way a query goes, once the rate limiter has spoken.
pub open spec fn route_of(e: Engine, within_rate: bool, listener_dns64: bool, m: MessageV) -> RouteV {
    let q = m.queries[0];
    let ptr = match e.prefix(listener_dns64) {
        Some(p) => if q.qtype == TYPE_PTR {
            rewritten(p, q.name)
        } else {
            None
        },
        None => None,
    };
    if !within_rate {
        RouteV::Drop
    } else if is_local(q.name, q.qtype) {
        answer_here(local_reply(m, e.prefix(listener_dns64)))
    } else if e.ddr@.len() > 0 && asks_for_resolver(q.name) {
        answer_here(ddr_reply(m, svcbs_v(e.ddr@)))
    } else {
        match ptr {
            Some(n) => RouteV::AskPtr(n),
            None => RouteV::LookUp,
        }
    }
}

fn reply_here(m: &Message) -> (r: Route)
    ensures
        r@ == answer_here(m@),
{
    match m.to_bytes() {
        Some(b) => Route::Reply(b),
        None => Route::Drop,
    }
}

/// Which way a query goes: some names are answered here and never leave the resolver.
pub fn route(e: &Engine, within_rate: bool, ctx: &ListenerContext, msg: &Message) -> (r: Route)
    requires
        e.wf(),
        msg@.queries.len() > 0,
    ensures
        r@ == route_of(*e, within_rate, ctx.dns64, msg@),
{
    if !within_rate {
        return Route::Drop;
    }
    let qname: &Name = &msg.queries[0].name;
    let qtype: u16 = msg.queries[0].qtype;
    assert(msg@.queries[0] == msg.queries@[0]@);
    if is_local_question(qname, qtype) {
        let policy: Option<&Dns64Policy> = match &e.dns64 {
            Some(p) => Some(p),
            None => None,
        };
        let m = crate::recursor::ipv4only::synth_response(msg, policy, ctx.dns64);
        return reply_here(&m);
    }
    if e.ddr.len() > 0 && is_ddr_question(qname) {
        let m = crate::recursor::ddr::synth_response(msg, &e.ddr);
        return reply_here(&m);
    }
    if ctx.dns64 && qtype == TYPE_PTR {
        if let Some(p) = &e.dns64 {
            if let Some(n) = rewrite_ptr_question(p, qname) {
                return Route::AskPtr(n);
            }
        }
    }
    Route::LookUp
}

/// The reply to a reverse question for a synthesised address; `answer` is the reply for
/// the IPv4 address, if there was one.
pub open spec fn ptr_reply(p: DnssecPolicy, msg: MessageV, answer: Option<Seq<u8>>) -> Option<
    Seq<u8>,
> {
    match answer {
        None => Some(servfail_bytes(msg)),
        Some(b) => match decoded(b) {
            None => None,
            Some(v4) => encoded(under_policy(p, rewrapped(msg, v4))),
        },
    }
}

/// The reply message to a reverse question for a synthesised address.
pub fn wrap_ptr(p: DnssecPolicy, msg: &Message, v4: &Message) -> (r: Message)
    ensures
        r@ == under_policy(p, rewrapped(msg@, v4@)),
{
    let mut m = rewrap_ptr_response(msg, v4);
    p.apply_to_response(&mut m);
    m
}

/// The reply to a reverse question for a synthesised address.
pub fn finish_ptr(p: DnssecPolicy, msg: &Message, answer: Option<&Vec<u8>>) -> (r: Option<Vec<u8>>)
    ensures
        ptr_reply(
            p,
            msg@,
            match answer {
                Some(b) => Some(b@),
                None => None,
            },
        ) == (match r {
            Some(b) => Some(b@),
            None => None,
        }),
{
    match answer {
        None => Some(servfail(msg)),
        Some(b) => match Message::from_bytes(b.as_slice()) {
            None => None,
            Some(v4) => wrap_ptr(p, msg, &v4).to_bytes(),
        },
    }
}

/// Some record has this type.
pub open spec fn has_type(rs: Seq<RecordV>, rtype: u16) -> bool {
    exists|i: int| 0 <= i < rs.len() && (#[trigger] rs[i]).rtype == rtype
}

fn any_of_type(rs: &Vec<Record>, rtype: u16) -> (r: bool)
    ensures
        r == has_type(records_v(rs@), rtype),
{
    let ghost v = records_v(rs@);
    let mut i: usize = 0;
    while i < rs.len()
        invariant
            i <= rs@.len(),
            v == records_v(rs@),
            forall|j: int| 0 <= j < i ==> (#[trigger] v[j]).rtype != rtype,
        decreases rs@.len() - i,
    {
        assert(v[i as int] == rs@[i as int]@);
        if rs[i].rtype == rtype {
            return true;
        }
        i += 1;
    }
    false
}

/// The reply that a kept AAAA denial and a kept A reply make together.
pub open spec fn synthesised_from_kept(e: Engine, msg: MessageV, kept_a: Option<Seq<u8>>) -> Option<
    Seq<u8>,
> {
    match (e.dns64, kept_a) {
        (Some(p), Some(b)) => match decoded(b) {
            None => None,
            Some(a) => if has_type(a.answers, TYPE_A) {
                encoded(under_policy(e.dnssec, synthesised(p.prefix, msg, a)))
            } else {
                None
            },
        },
        _ => None,
    }
}

/// The reply that a kept one makes, by what it decodes to; none where the query has to be
/// resolved after all.
pub open spec fn kept_reply(
    e: Engine,
    listener_dns64: bool,
    msg: MessageV,
    kept: Seq<u8>,
    parsed: Option<MessageV>,
    kept_a: Option<Seq<u8>>,
) -> Option<Seq<u8>> {
    match parsed {
        None => Some(kept),
        Some(m) => if e.synthesises(listener_dns64, msg.queries[0], m) {
            synthesised_from_kept(e, msg, kept_a)
        } else {
            let out = if e.dnssec == DnssecPolicy::Validate {
                m
            } else {
                under_policy(e.dnssec, m)
            };
            match encoded(out) {
                Some(b) => Some(b),
                None => Some(kept),
            }
        },
    }
}

fn reply_from_kept_a(e: &Engine, msg: &Message, kept_a: Option<&Vec<u8>>) -> (r: Option<Vec<u8>>)
    requires
        e.wf(),
    ensures
        synthesised_from_kept(
            *e,
            msg@,
            match kept_a {
                Some(b) => Some(b@),
                None => None,
            },
        ) == (match r {
            Some(b) => Some(b@),
            None => None,
        }),
{
    let p: &Dns64Policy = match &e.dns64 {
        Some(p) => p,
        None => return None,
    };
    match kept_a {
        None => None,
        Some(b) => match Message::from_bytes(b.as_slice()) {
            None => None,
            Some(a) => {
                if !any_of_type(&a.answers, TYPE_A) {
                    return None;
                }
                let mut m = synthesise_from_a(p, msg, &a);
                e.dnssec.apply_to_response(&mut m);
                m.to_bytes()
            },
        },
    }
}

/// The reply that a kept one makes, by what it decodes to.
pub fn answer_from_kept(
    e: &Engine,
    ctx: &ListenerContext,
    msg: &Message,
    kept: Vec<u8>,
    parsed: Option<Message>,
    kept_a: Option<&Vec<u8>>,
) -> (r: Option<Vec<u8>>)
    requires
        e.wf(),
        msg@.queries.len() > 0,
    ensures
        kept_reply(
            *e,
            ctx.dns64,
            msg@,
            kept@,
            match parsed {
                Some(m) => Some(m@),
                None => None,
            },
            match kept_a {
                Some(b) => Some(b@),
                None => None,
            },
        ) == (match r {
            Some(b) => Some(b@),
            None => None,
        }),
{
    let mut m = match parsed {
        None => return Some(kept),
        Some(m) => m,
    };
    assert(msg@.queries[0] == msg.queries@[0]@);
    let policy: Option<&Dns64Policy> = match &e.dns64 {
        Some(p) => Some(p),
        None => None,
    };
    if should_synthesise(policy, ctx.dns64, &msg.queries[0].name, msg.queries[0].qtype, &m) {
        return reply_from_kept_a(e, msg, kept_a);
    }
    if e.dnssec != DnssecPolicy::Validate {
        e.dnssec.apply_to_response(&mut m);
    }
    match m.to_bytes() {
        Some(b) => Some(b),
        None => Some(kept),
    }
}

/// The reply that a kept one makes. DNS64 addresses are made anew from the kept A reply,
/// since they depend on the listener. Replies that were validated keep their AD bit.
pub fn build_from_cache_value(
    e: &Engine,
    ctx: &ListenerContext,
    msg: &Message,
    cached: Vec<u8>,
    kept_a: Option<&Vec<u8>>,
) -> (r: Option<Vec<u8>>)
    requires
        e.wf(),
        msg@.queries.len() > 0,
        cached@.len() >= 2,
    ensures
        ({
            let kept = with_id(cached@, msg@.header.id);
            kept_reply(
                *e,
                ctx.dns64,
                msg@,
                kept,
                decoded(kept),
                match kept_a {
                    Some(b) => Some(b@),
                    None => None,
                },
            )
        }) == (match r {
            Some(b) => Some(b@),
            None => None,
        }),
{
    let mut kept = cached;
    rewrite_txid(&mut kept, msg.header.id);
    let parsed = Message::from_bytes(kept.as_slice());
    answer_from_kept(e, ctx, msg, kept, parsed, kept_a)
}

/// The reply that the cache gives, if any. What is too short to be a reply gives none.
pub open spec fn cached_answer(
    e: Engine,
    listener_dns64: bool,
    msg: MessageV,
    kept: Option<Seq<u8>>,
    kept_a: Option<Seq<u8>>,
) -> Option<Seq<u8>> {
    match kept {
        Some(b) if b.len() >= 2 => {
            let k = with_id(b, msg.header.id);
            kept_reply(e, listener_dns64, msg, k, decoded(k), kept_a)
        },
        _ => None,
    }
}

fn answer_from_cache(
    e: &Engine,
    ctx: &ListenerContext,
    msg: &Message,
    kept: Option<Vec<u8>>,
    kept_a: Option<&Vec<u8>>,
) -> (r: Option<Vec<u8>>)
    requires
        e.wf(),
        msg@.queries.len() > 0,
    ensures
        cached_answer(
            *e,
            ctx.dns64,
            msg@,
            match kept {
                Some(b) => Some(b@),
                None => None,
            },
            match kept_a {
                Some(b) => Some(b@),
                None => None,
            },
        ) == (match r {
            Some(b) => Some(b@),
            None => None,
        }),
{
    match kept {
        None => None,
        Some(b) => if b.len() >= 2 {
            build_from_cache_value(e, ctx, msg, b, kept_a)
        } else {
            None
        },
    }
}

/// The reply that can be given at once: a failure where the name failed a moment ago, else
/// what the cache gives. None where the question has to be resolved.
pub fn look_up(
    e: &Engine,
    ctx: &ListenerContext,
    msg: &Message,
    failed_before: bool,
    kept: Option<Vec<u8>>,
    kept_a: Option<&Vec<u8>>,
) -> (r: Option<Vec<u8>>)
    requires
        e.wf(),
        msg@.queries.len() > 0,
    ensures
        (if failed_before {
            Some(servfail_bytes(msg@))
        } else {
            cached_answer(
                *e,
                ctx.dns64,
                msg@,
                match kept {
                    Some(b) => Some(b@),
                    None => None,
                },
                match kept_a {
                    Some(b) => Some(b@),
                    None => None,
                },
            )
        }) == (match r {
            Some(b) => Some(b@),
            None => None,
        }),
{
    if failed_before {
        return Some(servfail(msg));
    }
    answer_from_cache(e, ctx, msg, kept, kept_a)
}

/// How a query that is not in the cache is resolved.
#[derive(Debug, Clone, Copy, PartialEq, Eq, Structural)]
pub enum Plan {
    /// By a forwarder's servers.
    Forward,
    /// From the root down.
    Iterate,
    /// Not at all.
    Fail,
}

/// How a query that is not in the cache is resolved.
pub open spec fn plan_of(e: Engine, qname: Labels) -> Plan {
    if entry_at(e.forwarders@, qname, 0) is Some {
        Plan::Forward
    } else if e.iterative {
        Plan::Iterate
    } else {
        Plan::Fail
    }
}

/// How a query that is not in the cache is resolved.
pub fn plan(e: &Engine, qname: &Name) -> (r: Plan)
    ensures
        r == plan_of(*e, qname@),
{
    if e.forwarders.lookup(qname).is_some() {
        Plan::Forward
    } else if e.iterative {
        Plan::Iterate
    } else {
        Plan::Fail
    }
}

/// What to do with a question once it is this query's turn to resolve it.
#[derive(Debug)]
pub enum Turn {
    /// Send this: another query has resolved it meanwhile, or it cannot be resolved.
    Reply(Vec<u8>),
    /// Ask the forwarder's servers.
    Forward,
    /// Go from the root down.
    Walk,
}

/// The value of a [`Turn`].
pub enum TurnV {
    Reply(Seq<u8>),
    Forward,
    Walk,
}

impl View for Turn {
    type V = TurnV;

    open spec fn view(&self) -> TurnV {
        match self {
            Turn::Reply(b) => TurnV::Reply(b@),
            Turn::Forward => TurnV::Forward,
            Turn::Walk => TurnV::Walk,
        }
    }
}

/// What to do with a question once it is this query's turn to resolve it: the cache goes
/// before the memory of failures, and only then servers are asked.
pub open spec fn turn_of(
    e: Engine,
    listener_dns64: bool,
    msg: MessageV,
    failed_before: bool,
    kept: Option<Seq<u8>>,
    kept_a: Option<Seq<u8>>,
) -> TurnV {
    match cached_answer(e, listener_dns64, msg, kept, kept_a) {
        Some(b) => TurnV::Reply(b),
        None => if failed_before {
            TurnV::Reply(servfail_bytes(msg))
        } else {
            match plan_of(e, msg.queries[0].name) {
                Plan::Forward => TurnV::Forward,
                Plan::Iterate => TurnV::Walk,
                Plan::Fail => TurnV::Reply(servfail_bytes(msg)),
            }
        },
    }
}

/// What to do with a question once it is this query's turn to resolve it.
pub fn take_turn(
    e: &Engine,
    ctx: &ListenerContext,
    msg: &Message,
    failed_before: bool,
    kept: Option<Vec<u8>>,
    kept_a: Option<&Vec<u8>>,
) -> (r: Turn)
    requires
        e.wf(),
        msg@.queries.len() > 0,
    ensures
        r@ == turn_of(
            *e,
            ctx.dns64,
            msg@,
            failed_before,
            match kept {
                Some(b) => Some(b@),
                None => None,
            },
            match kept_a {
                Some(b) => Some(b@),
                None => None,
            },
        ),
{
    if let Some(b) = answer_from_cache(e, ctx, msg, kept, kept_a) {
        return Turn::Reply(b);
    }
    if failed_before {
        return Turn::Reply(servfail(msg));
    }
    assert(msg@.queries[0] == msg.queries@[0]@);
    match plan(e, &msg.queries[0].name) {
        Plan::Forward => Turn::Forward,
        Plan::Iterate => Turn::Walk,
        Plan::Fail => Turn::Reply(servfail(msg)),
    }
}

/// What a finished walk comes to.
#[derive(Debug)]
pub enum ResolveOutcome {
    /// The reply as bytes and as message; `keep` says whether it may be kept.
    Answer { bytes: Vec<u8>, parsed: Message, keep: bool },
    /// The chain of trust is broken: send this.
    Bogus(Vec<u8>),
}

/// The value of a [`ResolveOutcome`].
pub enum OutcomeV {
    Answer { bytes: Seq<u8>, parsed: MessageV, keep: bool },
    Bogus(Seq<u8>),
}

impl View for ResolveOutcome {
    type V = OutcomeV;

    open spec fn view(&self) -> OutcomeV {
        match self {
            ResolveOutcome::Answer { bytes, parsed, keep } => OutcomeV::Answer {
                bytes: bytes@,
                parsed: parsed@,
                keep: *keep,
            },
            ResolveOutcome::Bogus(b) => OutcomeV::Bogus(b@),
        }
    }
}

/// The message that stands for a reply that cannot be read.
pub open spec fn unreadable() -> MessageV {
    bare(plain_header(0, true, OPCODE_QUERY), Seq::empty())
}

/// What a finished walk comes to: `status` is the validator's verdict, where one was
/// asked for.
pub open spec fn outcome_of(
    p: DnssecPolicy,
    msg: MessageV,
    walked: Seq<u8>,
    parsed: Option<MessageV>,
    status: Option<StatusV>,
) -> OutcomeV {
    match parsed {
        None => OutcomeV::Answer { bytes: walked, parsed: unreadable(), keep: false },
        Some(m) => {
            let done = match status {
                Some(StatusV::Secure) => Ok(with_ad(m, true)),
                Some(StatusV::Insecure) => Ok(with_ad(m, false)),
                Some(StatusV::Bogus(reason)) => Err(reason),
                None => Ok(under_policy(p, m)),
            };
            match done {
                Err(reason) => OutcomeV::Bogus(ede_bytes(msg, EDE_DNSSEC_BOGUS, reason)),
                Ok(out) => OutcomeV::Answer {
                    bytes: match encoded(out) {
                        Some(b) => b,
                        None => walked,
                    },
                    parsed: out,
                    keep: true,
                },
            }
        },
    }
}

/// The value of an optional verdict.
pub open spec fn status_v(s: Option<ValidationStatus>) -> Option<StatusV> {
    match s {
        Some(s) => Some(s@),
        None => None,
    }
}

/// What a finished walk comes to.
pub fn conclude_walk(
    p: DnssecPolicy,
    msg: &Message,
    walked: Vec<u8>,
    parsed: Option<Message>,
    status: Option<ValidationStatus>,
) -> (r: ResolveOutcome)
    ensures
        r@ == outcome_of(
            p,
            msg@,
            walked@,
            match parsed {
                Some(m) => Some(m@),
                None => None,
            },
            status_v(status),
        ),
{
    let mut m = match parsed {
        None => {
            let queries: Vec<crate::wire::Query> = Vec::new();
            assert(crate::wire::queries_v(queries@) =~= Seq::empty());
            return ResolveOutcome::Answer {
                bytes: walked,
                parsed: new_message(new_header(0, true, OPCODE_QUERY), queries),
                keep: false,
            };
        },
        Some(m) => m,
    };
    match status {
        Some(ValidationStatus::Secure) => {
            m.header.authentic_data = true;
        },
        Some(ValidationStatus::Insecure) => {
            m.header.authentic_data = false;
        },
        Some(ValidationStatus::Bogus(reason)) => {
            return ResolveOutcome::Bogus(
                servfail_with_ede(msg, EDE_DNSSEC_BOGUS, reason.as_str()),
            );
        },
        None => {
            p.apply_to_response(&mut m);
        },
    }
    let bytes = match m.to_bytes() {
        Some(b) => b,
        None => walked,
    };
    ResolveOutcome::Answer { bytes, parsed: m, keep: true }
}

/// The query for IPv4 addresses that goes with one for IPv6 addresses.
pub open spec fn a_query_of(msg: MessageV) -> MessageV {
    MessageV {
        queries: seq![QueryV { name: msg.queries[0].name, qtype: TYPE_A, qclass: CLASS_IN }],
        ..msg
    }
}

/// The query for IPv4 addresses that has to be answered first, where DNS64 addresses are
/// made for this question and reply.
pub fn follow_up(e: &Engine, ctx: &ListenerContext, msg: &Message, resp: &Message) -> (r: Option<
    Message,
>)
    requires
        msg@.queries.len() > 0,
    ensures
        r is Some <==> e.synthesises(ctx.dns64, msg@.queries[0], resp@),
        r is Some ==> r->0@ == a_query_of(msg@),
{
    assert(msg@.queries[0] == msg.queries@[0]@);
    let policy: Option<&Dns64Policy> = match &e.dns64 {
        Some(p) => Some(p),
        None => None,
    };
    if !should_synthesise(policy, ctx.dns64, &msg.queries[0].name, msg.queries[0].qtype, resp) {
        return None;
    }
    let mut q = msg.clone();
    q.queries = one_query(&msg.queries[0].name, TYPE_A, CLASS_IN);
    Some(q)
}

/// The synthesised reply, if the A reply has answers and the result a wire form.
pub open spec fn synthesis_of(e: Engine, msg: MessageV, a: Option<MessageV>) -> Option<Seq<u8>> {
    match (e.dns64, a) {
        (Some(p), Some(a)) => if a.answers.len() > 0 {
            encoded(under_policy(e.dnssec, synthesised(p.prefix, msg, a)))
        } else {
            None
        },
        _ => None,
    }
}

fn synthesise(e: &Engine, msg: &Message, a: Option<&Message>) -> (r: Option<Vec<u8>>)
    requires
        e.wf(),
    ensures
        synthesis_of(
            *e,
            msg@,
            match a {
                Some(m) => Some(m@),
                None => None,
            },
        ) == (match r {
            Some(b) => Some(b@),
            None => None,
        }),
{
    match (&e.dns64, a) {
        (Some(p), Some(a)) => {
            assert(a@.answers.len() == a.answers@.len());
            if a.answers.len() == 0 {
                return None;
            }
            let mut m = synthesise_from_a(p, msg, a);
            e.dnssec.apply_to_response(&mut m);
            m.to_bytes()
        },
        _ => None,
    }
}

/// What to do after a walk.
#[derive(Debug)]
pub enum AfterWalk {
    /// It failed: remember that, and send this.
    Failed(Vec<u8>),
    /// Send this.
    Reply(Vec<u8>),
    /// Resolve this query for IPv4 addresses first; the bytes are the reply so far.
    AskA(Message, Vec<u8>),
}

/// The value of an [`AfterWalk`].
pub enum AfterWalkV {
    Failed(Seq<u8>),
    Reply(Seq<u8>),
    AskA(MessageV, Seq<u8>),
}

impl View for AfterWalk {
    type V = AfterWalkV;

    open spec fn view(&self) -> AfterWalkV {
        match self {
            AfterWalk::Failed(b) => AfterWalkV::Failed(b@),
            AfterWalk::Reply(b) => AfterWalkV::Reply(b@),
            AfterWalk::AskA(m, b) => AfterWalkV::AskA(m@, b@),
        }
    }
}

/// What to do after a walk; `outcome` is none where it reached no answer.
pub open spec fn walk_next(
    e: Engine,
    listener_dns64: bool,
    msg: MessageV,
    outcome: Option<OutcomeV>,
) -> AfterWalkV {
    match outcome {
        None => AfterWalkV::Failed(servfail_bytes(msg)),
        Some(OutcomeV::Bogus(b)) => AfterWalkV::Reply(b),
        Some(OutcomeV::Answer { bytes, parsed, .. }) => if e.synthesises(
            listener_dns64,
            msg.queries[0],
            parsed,
        ) {
            AfterWalkV::AskA(a_query_of(msg), bytes)
        } else {
            AfterWalkV::Reply(bytes)
        },
    }
}

/// What to do after a walk; `outcome` is none where it reached no answer.
pub fn after_walk(
    e: &Engine,
    ctx: &ListenerContext,
    msg: &Message,
    outcome: Option<ResolveOutcome>,
) -> (r: AfterWalk)
    requires
        msg@.queries.len() > 0,
    ensures
        r@ == walk_next(
            *e,
            ctx.dns64,
            msg@,
            match outcome {
                Some(o) => Some(o@),
                None => None,
            },
        ),
{
    match outcome {
        None => AfterWalk::Failed(servfail(msg)),
        Some(ResolveOutcome::Bogus(b)) => AfterWalk::Reply(b),
        Some(ResolveOutcome::Answer { bytes, parsed, .. }) => match follow_up(
            e,
            ctx,
            msg,
            &parsed,
        ) {
            Some(q) => AfterWalk::AskA(q, bytes),
            None => AfterWalk::Reply(bytes),
        },
    }
}

/// The reply after a walk whose AAAA reply was empty: addresses made from the A reply,
/// where it has any, else the AAAA reply.
pub fn finish_walk(e: &Engine, msg: &Message, bytes: Vec<u8>, a: Option<&Message>) -> (r: Vec<u8>)
    requires
        e.wf(),
    ensures
        r@ == (match synthesis_of(
            *e,
            msg@,
            match a {
                Some(m) => Some(m@),
                None => None,
            },
        ) {
            Some(b) => b,
            None => bytes@,
        }),
{
    match synthesise(e, msg, a) {
        Some(b) => b,
        None => bytes,
    }
}

/// What to do with a forwarder's reply.
#[derive(Debug)]
pub enum Forwarded {
    /// Send this.
    Reply(Vec<u8>),
    /// Send this and keep the message.
    Keep(Vec<u8>, Message),
    /// Ask the forwarder this first.
    AskA(Vec<u8>, Message),
}

/// The value of a [`Forwarded`].
pub enum ForwardedV {
    Reply(Seq<u8>),
    Keep(Seq<u8>, MessageV),
    AskA(Seq<u8>, MessageV),
}

impl View for Forwarded {
    type V = ForwardedV;

    open spec fn view(&self) -> ForwardedV {
        match self {
            Forwarded::Reply(b) => ForwardedV::Reply(b@),
            Forwarded::Keep(b, m) => ForwardedV::Keep(b@, m@),
            Forwarded::AskA(b, m) => ForwardedV::AskA(b@, m@),
        }
    }
}

/// A forwarder's reply as it is sent and kept.
pub open spec fn kept_forwarded(p: DnssecPolicy, msg: MessageV, resp: MessageV) -> ForwardedV {
    let m = under_policy(p, resp);
    ForwardedV::Keep(
        match encoded(m) {
            Some(b) => b,
            None => servfail_bytes(msg),
        },
        m,
    )
}

/// What to do with a forwarder's reply, by what it decodes to; none where it did not come
/// or cannot be read.
pub open spec fn forwarded(
    e: Engine,
    listener_dns64: bool,
    msg: MessageV,
    resp: Option<MessageV>,
) -> ForwardedV {
    match resp {
        None => ForwardedV::Reply(servfail_bytes(msg)),
        Some(m) => if e.synthesises(listener_dns64, msg.queries[0], m) {
            match encoded(a_query_of(msg)) {
                Some(q) => ForwardedV::AskA(q, m),
                None => ForwardedV::Reply(
                    match encoded(under_policy(e.dnssec, m)) {
                        Some(b) => b,
                        None => Seq::empty(),
                    },
                ),
            }
        } else {
            kept_forwarded(e.dnssec, msg, m)
        },
    }
}

/// A response with the policy applied, in wire form; empty where it has none.
pub fn respond_with_policy(msg: Message, policy: DnssecPolicy) -> (r: Vec<u8>)
    ensures
        r@ == (match encoded(under_policy(policy, msg@)) {
            Some(b) => b,
            None => Seq::empty(),
        }),
{
    let mut m = msg;
    policy.apply_to_response(&mut m);
    match m.to_bytes() {
        Some(b) => b,
        None => {
            let empty: Vec<u8> = Vec::new();
            assert(empty@ =~= Seq::empty());
            empty
        },
    }
}

fn keep_forwarded(p: DnssecPolicy, msg: &Message, resp: Message) -> (r: Forwarded)
    ensures
        r@ == kept_forwarded(p, msg@, resp@),
{
    let mut m = resp;
    p.apply_to_response(&mut m);
    let out = match m.to_bytes() {
        Some(b) => b,
        None => servfail(msg),
    };
    Forwarded::Keep(out, m)
}

/// What to do with a forwarder's reply.
pub fn after_forward(e: &Engine, ctx: &ListenerContext, msg: &Message, resp: Option<Message>) -> (r:
    Forwarded)
    requires
        e.wf(),
        msg@.queries.len() > 0,
    ensures
        r@ == forwarded(
            *e,
            ctx.dns64,
            msg@,
            match resp {
                Some(m) => Some(m@),
                None => None,
            },
        ),
{
    let m = match resp {
        None => return Forwarded::Reply(servfail(msg)),
        Some(m) => m,
    };
    match follow_up(e, ctx, msg, &m) {
        None => keep_forwarded(e.dnssec, msg, m),
        Some(q) => match q.to_bytes() {
            Some(b) => Forwarded::AskA(b, m),
            None => Forwarded::Reply(respond_with_policy(m, e.dnssec)),
        },
    }
}

/// What to do with a forwarder's bytes; none where no server answered.
pub fn after_forward_bytes(
    e: &Engine,
    ctx: &ListenerContext,
    msg: &Message,
    resp: Option<&Vec<u8>>,
) -> (r: Forwarded)
    requires
        e.wf(),
        msg@.queries.len() > 0,
    ensures
        r@ == forwarded(
            *e,
            ctx.dns64,
            msg@,
            match resp {
                Some(b) => decoded(b@),
                None => None,
            },
        ),
{
    match resp {
        None => after_forward(e, ctx, msg, None),
        Some(b) => {
            let m = Message::from_bytes(b.as_slice());
            after_forward(e, ctx, msg, m)
        },
    }
}

/// What to do with a forwarder's AAAA reply once its A reply is there: send addresses made
/// from it, where it has any, else the AAAA reply. Only the latter is kept.
pub fn after_forward_a(e: &Engine, msg: &Message, resp: Message, a: Option<&Message>) -> (r:
    Forwarded)
    requires
        e.wf(),
        e.dns64 is Some,
    ensures
        r@ == (match a {
            Some(a) if a@.answers.len() > 0 => ForwardedV::Reply(
                match synthesis_of(*e, msg@, Some(a@)) {
                    Some(b) => b,
                    None => servfail_bytes(msg@),
                },
            ),
            _ => kept_forwarded(e.dnssec, msg@, resp@),
        }),
{
    match a {
        Some(m) => {
            assert(m@.answers.len() == m.answers@.len());
            if m.answers.len() > 0 {
                return Forwarded::Reply(
                    match synthesise(e, msg, a) {
                        Some(b) => b,
                        None => servfail(msg),
                    },
                );
            }
        },
        None => {},
    }
    keep_forwarded(e.dnssec, msg, resp)
}

/// While the resolver is not ready, every query that can be read is refused, and nothing
/// is answered.
pub proof fn law_not_ready_refuses(query: Seq<u8>)
    ensures
        received(false, query) == reply_or_drop(refusal(query)),
        !(received(false, query) is Ask),
{
}

/// A client over its rate gets nothing, not even a refusal.
pub proof fn law_over_rate_is_silent(e: Engine, listener_dns64: bool, m: MessageV)
    ensures
        route_of(e, false, listener_dns64, m) == RouteV::Drop,
{
}

/// A reply whose chain of trust is broken is never passed on: the client gets SERVFAIL
/// with the reason, and nothing is kept.
pub proof fn law_bogus_is_never_passed_on(
    e: Engine,
    listener_dns64: bool,
    msg: MessageV,
    walked: Seq<u8>,
    m: MessageV,
    reason: Seq<char>,
)
    ensures
        ({
            let o = outcome_of(e.dnssec, msg, walked, Some(m), Some(StatusV::Bogus(reason)));
            let b = ede_bytes(msg, EDE_DNSSEC_BOGUS, reason);
            o == OutcomeV::Bogus(b) && walk_next(e, listener_dns64, msg, Some(o))
                == AfterWalkV::Reply(b)
        }),
{
}

/// A name under a forwarder's domain is never resolved from the root down, and a query for
/// it that the forwarder's servers leave unanswered fails.
pub proof fn law_forwarded_names_are_not_walked(
    e: Engine,
    listener_dns64: bool,
    msg: MessageV,
    failed_before: bool,
    kept: Option<Seq<u8>>,
    kept_a: Option<Seq<u8>>,
)
    requires
        entry_at(e.forwarders@, msg.queries[0].name, 0) is Some,
    ensures
        turn_of(e, listener_dns64, msg, failed_before, kept, kept_a) != TurnV::Walk,
        forwarded(e, listener_dns64, msg, None) == ForwardedV::Reply(servfail_bytes(msg)),
{
}

/// A validated reply says AD if and only if its chain of trust was found intact.
pub proof fn law_ad_means_secure(
    p: DnssecPolicy,
    msg: MessageV,
    walked: Seq<u8>,
    m: MessageV,
    status: StatusV,
)
    requires
        !(status is Bogus),
    ensures
        match outcome_of(p, msg, walked, Some(m), Some(status)) {
            OutcomeV::Answer { bytes, parsed, keep } => parsed.header.authentic_data == (status
                == StatusV::Secure) && keep,
            OutcomeV::Bogus(_) => false,
        },
{
}

/// Unless it is passed through, a forwarder's word on AD does not reach the client.
pub proof fn law_forwarded_ad_is_cleared(p: DnssecPolicy, msg: MessageV, resp: MessageV)
    requires
        p != DnssecPolicy::PassThrough,
    ensures
        match kept_forwarded(p, msg, resp) {
            ForwardedV::Keep(_, m) => !m.header.authentic_data,
            _ => false,
        },
{
}

/// Two messages that differ in nothing but, perhaps, the AD bit.
pub open spec fn alike_but_for_ad(a: MessageV, b: MessageV) -> bool {
    &&& a.queries == b.queries
    &&& a.answers == b.answers
    &&& a.authorities == b.authorities
    &&& a.additionals == b.additionals
    &&& a.edns == b.edns
    &&& a.signature == b.signature
    &&& a.header.id == b.header.id
    &&& a.header.response == b.header.response
    &&& a.header.opcode == b.header.opcode
    &&& a.header.authoritative == b.header.authoritative
    &&& a.header.truncated == b.header.truncated
    &&& a.header.recursion_desired == b.header.recursion_desired
    &&& a.header.recursion_available == b.header.recursion_available
    &&& a.header.checking_disabled == b.header.checking_disabled
    &&& a.header.rcode == b.header.rcode
}

/// A policy changes nothing of a reply but the AD bit: it stays where the upstream is
/// trusted with validation, and is cleared otherwise.
pub proof fn law_policy_touches_ad_alone(p: DnssecPolicy, m: MessageV)
    ensures
        alike_but_for_ad(under_policy(p, m), m),
        under_policy(p, m).header.authentic_data == (p == DnssecPolicy::PassThrough
            && m.header.authentic_data),
{
}

/// Where nothing is to be made from a forwarder's reply, what is sent and kept of it is the
/// reply itself, in full, but for the AD bit.
#[verifier::rlimit(40)]
pub proof fn law_forwarded_replies_pass_unchanged(
    e: Engine,
    listener_dns64: bool,
    msg: MessageV,
    resp: MessageV,
)
    requires
        !(listener_dns64 && e.dns64 is Some && msg.queries[0].qtype == TYPE_AAAA && (
        resp.header.rcode == RCODE_NXDOMAIN || resp.answers.len() == 0)),
    ensures
        match forwarded(e, listener_dns64, msg, Some(resp)) {
            ForwardedV::Keep(sent, kept) => {
                &&& alike_but_for_ad(kept, resp)
                &&& kept.header.authentic_data == (e.dnssec == DnssecPolicy::PassThrough
                    && resp.header.authentic_data)
                &&& encoded(kept) is Some ==> Some(sent) == encoded(kept)
            },
            _ => false,
        },
{
}

/// The same where addresses were to be made, and no IPv4 address was found to make them of.
pub proof fn law_forwarded_replies_pass_where_nothing_is_made(
    p: DnssecPolicy,
    msg: MessageV,
    resp: MessageV,
)
    ensures
        match kept_forwarded(p, msg, resp) {
            ForwardedV::Keep(sent, kept) => {
                &&& alike_but_for_ad(kept, resp)
                &&& encoded(kept) is Some ==> Some(sent) == encoded(kept)
                &&& encoded(kept) is None ==> sent == servfail_bytes(msg)
            },
            _ => false,
        },
{
}

/// A walk's answer is handed on and kept in full: only its AD bit is set, to what the
/// validation said, or by the policy where nothing was validated.
pub proof fn law_walked_answers_pass_unchanged(
    p: DnssecPolicy,
    msg: MessageV,
    walked: Seq<u8>,
    m: MessageV,
    status: Option<StatusV>,
)
    requires
        status is Some ==> !(status->0 is Bogus),
    ensures
        match outcome_of(p, msg, walked, Some(m), status) {
            OutcomeV::Answer { bytes, parsed, keep } => {
                &&& keep
                &&& alike_but_for_ad(parsed, m)
                &&& encoded(parsed) is Some ==> Some(bytes) == encoded(parsed)
                &&& encoded(parsed) is None ==> bytes == walked
                &&& parsed.header.authentic_data == (match status {
                    Some(s) => s == StatusV::Secure,
                    None => p == DnssecPolicy::PassThrough && m.header.authentic_data,
                })
            },
            _ => false,
        },
{
}

/// An answer that calls for no synthesis goes to the client as it was found; an answer that
/// cannot be read goes on too, and is not kept; a failed walk is answered with a server
/// failure.
pub proof fn law_walks_are_answered(
    e: Engine,
    listener_dns64: bool,
    msg: MessageV,
    bytes: Seq<u8>,
    parsed: MessageV,
    keep: bool,
    walked: Seq<u8>,
    status: Option<StatusV>,
)
    ensures
        !(listener_dns64 && e.dns64 is Some && msg.queries[0].qtype == TYPE_AAAA) ==> walk_next(
            e,
            listener_dns64,
            msg,
            Some(OutcomeV::Answer { bytes, parsed, keep }),
        ) == AfterWalkV::Reply(bytes),
        walk_next(e, listener_dns64, msg, None) == AfterWalkV::Failed(servfail_bytes(msg)),
        match outcome_of(e.dnssec, msg, walked, None, status) {
            OutcomeV::Answer { bytes, keep, .. } => bytes == walked && !keep,
            _ => false,
        },
{
}

/// A kept reply that can be read and calls for no synthesis is given again in full, under
/// the client's identifier: only the AD bit may be cleared, by a policy that does not
/// validate.
pub proof fn law_kept_replies_are_given_again(
    e: Engine,
    listener_dns64: bool,
    msg: MessageV,
    kept: Seq<u8>,
    kept_a: Option<Seq<u8>>,
    m: MessageV,
)
    requires
        kept.len() >= 2,
        decoded(be16_bytes(msg.header.id) + kept.subrange(2, kept.len() as int)) == Some(m),
        !(listener_dns64 && e.dns64 is Some && msg.queries[0].qtype == TYPE_AAAA),
    ensures
        match cached_answer(e, listener_dns64, msg, Some(kept), kept_a) {
            Some(sent) => exists|out: MessageV|
                {
                    &&& #[trigger] alike_but_for_ad(out, m)
                    &&& out.header.authentic_data == (e.dnssec != DnssecPolicy::Strip
                        && m.header.authentic_data)
                    &&& encoded(out) is Some ==> Some(sent) == encoded(out)
                    &&& encoded(out) is None ==> sent == be16_bytes(msg.header.id) + kept.subrange(
                        2,
                        kept.len() as int,
                    )
                },
            None => false,
        },
{
    let out = if e.dnssec == DnssecPolicy::Strip {
        with_ad(m, false)
    } else {
        m
    };
    assert(alike_but_for_ad(out, m));
}

/// What is not kept is looked for elsewhere: a name that failed a moment ago is answered with
/// a server failure, one of a forwarded domain goes to its servers, any other is walked for
/// where that is allowed, and is a server failure where it is not.
pub proof fn law_misses_go_on(
    e: Engine,
    listener_dns64: bool,
    msg: MessageV,
    failed_before: bool,
    kept_a: Option<Seq<u8>>,
)
    ensures
        ({
            let t = turn_of(e, listener_dns64, msg, failed_before, None, kept_a);
            let name = msg.queries[0].name;
            let forwarded = exists|i: int|
                0 <= i < e.forwarders@.len() && crate::recursor::forwarder::is_under(
                    name,
                    (#[trigger] e.forwarders@[i]).domain,
                );
            &&& failed_before ==> t == TurnV::Reply(servfail_bytes(msg))
            &&& !failed_before && forwarded ==> t == TurnV::Forward
            &&& !failed_before && !forwarded && e.iterative ==> t == TurnV::Walk
            &&& !failed_before && !forwarded && !e.iterative ==> t == TurnV::Reply(
                servfail_bytes(msg),
            )
        }),
{
    crate::recursor::forwarder::law_first_entry_that_fits(e.forwarders@, msg.queries[0].name, 0);
}

/// The question asked in place of one for IPv6 addresses is the same question for IPv4
/// addresses: the same name, the same identifier, all else as the client sent it.
pub proof fn law_follow_up_asks_for_ipv4(msg: MessageV)
    ensures
        ({
            let q = a_query_of(msg);
            &&& q.queries.len() == 1
            &&& q.queries[0].name == msg.queries[0].name
            &&& q.queries[0].qtype == TYPE_A
            &&& q.queries[0].qclass == CLASS_IN
            &&& q.header == msg.header
            &&& q.edns == msg.edns
            &&& q.answers == msg.answers
            &&& q.authorities == msg.authorities
            &&& q.additionals == msg.additionals
        }),
{
}

/// A query is taken up exactly where the resolver is ready and the query can be read and
/// asks something.
pub proof fn law_readable_questions_are_taken_up(ready: bool, query: Seq<u8>)
    ensures
        received(ready, query) is Ask <==> ready && decoded(query) is Some
            && decoded(query)->0.queries.len() > 0,
        received(ready, query) is Ask ==> received(ready, query)->Ask_0 == decoded(query)->0,
{
}

/// A query within its rate that no local answer is due for is looked up, unless it asks, on a
/// listener with DNS64, for the name of an address under the prefix.
pub proof fn law_other_queries_are_looked_up(e: Engine, listener_dns64: bool, m: MessageV)
    requires
        !is_local(m.queries[0].name, m.queries[0].qtype),
        e.ddr@.len() == 0 || !asks_for_resolver(m.queries[0].name),
        !listener_dns64 || e.dns64 is None || m.queries[0].qtype != TYPE_PTR,
    ensures
        route_of(e, true, listener_dns64, m) == RouteV::LookUp,
{
}

/// Where an IPv4 reply with answers is there, the addresses made of it are what is sent, with
/// the AD bit off; without one nothing is made.
pub proof fn law_made_addresses_are_sent(e: Engine, p: Dns64Policy, msg: MessageV, a: MessageV)
    requires
        e.dns64 == Some(p),
    ensures
        a.answers.len() > 0 ==> synthesis_of(e, msg, Some(a)) == encoded(
            synthesised(p.prefix, msg, a),
        ),
        a.answers.len() == 0 ==> synthesis_of(e, msg, Some(a)) is None,
        synthesis_of(e, msg, None) is None,
{
    crate::recursor::dns64::law_each_address_is_mapped(p.prefix, msg, a);
    let s = synthesised(p.prefix, msg, a);
    assert(with_ad(s, false) =~= s);
}

/// A kept denial for IPv6 addresses, on a listener with DNS64, is answered from the kept IPv4
/// reply where that has IPv4 addresses, and is otherwise looked for again.
pub proof fn law_kept_ipv4_replies_serve(
    e: Engine,
    p: Dns64Policy,
    msg: MessageV,
    kept: Seq<u8>,
    m: MessageV,
    bytes: Seq<u8>,
    a: MessageV,
)
    requires
        e.dns64 == Some(p),
        msg.queries[0].qtype == TYPE_AAAA,
        forall|i: int|
            0 <= i < p.exclusions@.len() ==> !crate::name::in_zone(
                (#[trigger] p.exclusions@[i])@,
                msg.queries[0].name,
            ),
        m.header.rcode == RCODE_NXDOMAIN || (m.header.rcode == 0 && m.answers.len() == 0),
        decoded(bytes) == Some(a),
    ensures
        (exists|i: int| 0 <= i < a.answers.len() && (#[trigger] a.answers[i]).rtype == TYPE_A)
            ==> kept_reply(e, true, msg, kept, Some(m), Some(bytes)) == encoded(
            synthesised(p.prefix, msg, a),
        ),
        (forall|i: int| 0 <= i < a.answers.len() ==> (#[trigger] a.answers[i]).rtype != TYPE_A)
            ==> kept_reply(e, true, msg, kept, Some(m), Some(bytes)) is None,
        kept_reply(e, true, msg, kept, Some(m), None) is None,
{
    lemma_synthesises(e, p, msg, m);
    crate::recursor::dns64::law_each_address_is_mapped(p.prefix, msg, a);
    let s = synthesised(p.prefix, msg, a);
    assert(with_ad(s, false) =~= s);
}

proof fn lemma_synthesises(e: Engine, p: Dns64Policy, msg: MessageV, m: MessageV)
    requires
        e.dns64 == Some(p),
        msg.queries[0].qtype == TYPE_AAAA,
        forall|i: int|
            0 <= i < p.exclusions@.len() ==> !crate::name::in_zone(
                (#[trigger] p.exclusions@[i])@,
                msg.queries[0].name,
            ),
        m.header.rcode == RCODE_NXDOMAIN || (m.header.rcode == 0 && m.answers.len() == 0),
    ensures
        e.synthesises(true, msg.queries[0], m),
{
    let ex = names_v(p.exclusions@);
    assert forall|i: int| 0 <= i < ex.len() implies !crate::name::in_zone(
        #[trigger] ex[i],
        msg.queries[0].name,
    ) by {
        assert(ex[i] == p.exclusions@[i]@);
    }
    crate::recursor::dns64::law_synthesis_is_for_missing_addresses(
        ex,
        true,
        msg.queries[0].name,
        TYPE_AAAA,
        m,
    );
}

/// A denial for IPv6 addresses that was walked for, or came from a forwarder, on a listener
/// with DNS64, leads to the question for IPv4 addresses, and keeps what was found for the case
/// that there are none.
pub proof fn law_missing_addresses_are_asked_for(
    e: Engine,
    msg: MessageV,
    bytes: Seq<u8>,
    m: MessageV,
    keep: bool,
    q: Seq<u8>,
    p: Dns64Policy,
)
    requires
        e.dns64 == Some(p),
        msg.queries[0].qtype == TYPE_AAAA,
        forall|i: int|
            0 <= i < p.exclusions@.len() ==> !crate::name::in_zone(
                (#[trigger] p.exclusions@[i])@,
                msg.queries[0].name,
            ),
        m.header.rcode == RCODE_NXDOMAIN || (m.header.rcode == 0 && m.answers.len() == 0),
    ensures
        walk_next(e, true, msg, Some(OutcomeV::Answer { bytes, parsed: m, keep }))
            == AfterWalkV::AskA(a_query_of(msg), bytes),
        encoded(a_query_of(msg)) == Some(q) ==> forwarded(e, true, msg, Some(m))
            == ForwardedV::AskA(q, m),
        forwarded(e, true, msg, None) == ForwardedV::Reply(servfail_bytes(msg)),
{
    lemma_synthesises(e, p, msg, m);
}

/// The answer about an IPv4 address is given as one about the IPv6 address asked for; where
/// there is none the client is told of a server failure.
pub proof fn law_names_of_addresses_are_given(
    p: DnssecPolicy,
    msg: MessageV,
    bytes: Seq<u8>,
    v4: MessageV,
)
    requires
        msg.queries.len() > 0,
        decoded(bytes) == Some(v4),
    ensures
        ptr_reply(p, msg, None) == Some(servfail_bytes(msg)),
        ptr_reply(p, msg, Some(bytes)) == encoded(rewrapped(msg, v4)),
{
    crate::recursor::dns64::law_each_target_is_passed_on(msg, v4);
    let s = rewrapped(msg, v4);
    assert(with_ad(s, false) =~= s);
}

/// Local questions are answered at once, a question for the resolver with what is announced,
/// and one for the name of an address under the prefix is asked of the IPv4 address.
pub proof fn law_local_questions_are_answered(e: Engine, listener_dns64: bool, m: MessageV, n: Labels)
    ensures
        is_local(m.queries[0].name, m.queries[0].qtype) ==> route_of(e, true, listener_dns64, m)
            == answer_here(
            local_reply(
                m,
                if listener_dns64 && e.dns64 is Some {
                    Some(e.dns64->0.prefix)
                } else {
                    None
                },
            ),
        ),
        !is_local(m.queries[0].name, m.queries[0].qtype) && e.ddr@.len() > 0 && asks_for_resolver(
            m.queries[0].name,
        ) ==> route_of(e, true, listener_dns64, m) == answer_here(ddr_reply(m, svcbs_v(e.ddr@))),
        !is_local(m.queries[0].name, m.queries[0].qtype) && !asks_for_resolver(m.queries[0].name)
            && listener_dns64 && e.dns64 is Some && m.queries[0].qtype == TYPE_PTR && rewritten(
            e.dns64->0.prefix,
            m.queries[0].name,
        ) == Some(n) ==> route_of(e, true, listener_dns64, m) == RouteV::AskPtr(n),
{
}

} // verus!
