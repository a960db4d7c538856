//! Local answers for `ipv4only.arpa` (RFC 8880), by which clients find out the DNS64
//! prefix.

use crate::codec::{name_wire, write_name};
use crate::name::{same_name, Labels, Name};
use crate::net::IpAddr;
use crate::plain_names::{dotted, is_name, lemma_dotted_ok, name_of};
use crate::recursor::dns64::{
    embed, embed_v4, synthetic_header, synthetic_reply, Dns64Policy, Prefix,
};
use crate::recursor::iterative::{addr_in, addr_record, make_addr_record};
use crate::recursor::reply::bare;
use crate::wire::{
    records_v, Message, MessageV, Record, RecordV, CLASS_IN, RCODE_NOERROR, TYPE_A, TYPE_AAAA,
    TYPE_PTR,
};
use vstd::prelude::*;

verus! {

/// TTL of the local answers, in seconds.
pub const LOCAL_TTL: u32 = 3_600;

/// 192.0.0.170 and 192.0.0.171.
pub const A_170: u32 = 0xc000_00aa;

pub const A_171: u32 = 0xc000_00ab;

/// The question is answered here.
pub open spec fn is_local(qname: Labels, qtype: u16) -> bool {
    if qtype == TYPE_A || qtype == TYPE_AAAA {
        same_name(qname, dotted("ipv4only.arpa."@))
    } else {
        qtype == TYPE_PTR && (same_name(qname, dotted("170.0.0.192.in-addr.arpa."@)) || same_name(
            qname,
            dotted("171.0.0.192.in-addr.arpa."@),
        ))
    }
}

/// Whether the question is answered here.
pub fn is_local_question(qname: &Name, qtype: u16) -> (r: bool)
    ensures
        r == is_local(qname@, qtype),
{
    if qtype == TYPE_A || qtype == TYPE_AAAA {
        is_name(qname, "ipv4only.arpa.")
    } else {
        qtype == TYPE_PTR && (is_name(qname, "170.0.0.192.in-addr.arpa.") || is_name(
            qname,
            "171.0.0.192.in-addr.arpa.",
        ))
    }
}

/// The answers to a local question; `prefix` is that of DNS64 where it is in use.
pub open spec fn local_answers(qname: Labels, qtype: u16, prefix: Option<Prefix>) -> Seq<RecordV> {
    if qtype == TYPE_A {
        seq![
            addr_record(qname, LOCAL_TTL, IpAddr::V4(A_170)),
            addr_record(qname, LOCAL_TTL, IpAddr::V4(A_171)),
        ]
    } else if qtype == TYPE_AAAA {
        match prefix {
            Some(p) => seq![
                addr_record(qname, LOCAL_TTL, IpAddr::V6(embed(p, A_170))),
                addr_record(qname, LOCAL_TTL, IpAddr::V6(embed(p, A_171))),
            ],
            None => Seq::empty(),
        }
    } else if qtype == TYPE_PTR {
        seq![
            RecordV {
                name: qname,
                rtype: TYPE_PTR,
                class: CLASS_IN,
                ttl: LOCAL_TTL,
                rdata: name_wire(dotted("ipv4only.arpa."@)),
            },
        ]
    } else {
        Seq::empty()
    }
}

/// The reply to a local question.
pub open spec fn local_reply(query: MessageV, prefix: Option<Prefix>) -> MessageV {
    MessageV {
        answers: local_answers(query.queries[0].name, query.queries[0].qtype, prefix),
        ..bare(synthetic_header(query, RCODE_NOERROR), query.queries)
    }
}

/// The reply to a local question. AAAA answers are made only on a DNS64 listener: a
/// client takes their absence to mean that there is no DNS64.
pub fn synth_response(
    original_query: &Message,
    dns64_policy: Option<&Dns64Policy>,
    dns64_enabled: bool,
) -> (r: Message)
    requires
        original_query@.queries.len() > 0,
        dns64_policy is Some ==> dns64_policy->0.wf(),
    ensures
        r@ == local_reply(
            original_query@,
            match dns64_policy {
                Some(p) if dns64_enabled => Some(p.prefix),
                _ => None,
            },
        ),
{
    let qname: &Name = &original_query.queries[0].name;
    let qtype: u16 = original_query.queries[0].qtype;
    assert(original_query@.queries[0] == original_query.queries@[0]@);
    let ghost prefix: Option<Prefix> = match dns64_policy {
        Some(p) if dns64_enabled => Some(p.prefix),
        _ => None,
    };
    let mut answers: Vec<Record> = Vec::new();
    if qtype == TYPE_A {
        answers.push(make_addr_record(qname, LOCAL_TTL, IpAddr::V4(A_170)));
        answers.push(make_addr_record(qname, LOCAL_TTL, IpAddr::V4(A_171)));
    } else if qtype == TYPE_AAAA {
        if dns64_enabled {
            if let Some(p) = dns64_policy {
                let a: u128 = embed_v4(&p.prefix, A_170);
                let b: u128 = embed_v4(&p.prefix, A_171);
                answers.push(make_addr_record(qname, LOCAL_TTL, IpAddr::V6(a)));
                answers.push(make_addr_record(qname, LOCAL_TTL, IpAddr::V6(b)));
            }
        }
    } else if qtype == TYPE_PTR {
        answers.push(
            Record {
                name: qname.clone(),
                rtype: TYPE_PTR,
                class: CLASS_IN,
                ttl: LOCAL_TTL,
                rdata: ipv4only_rdata(),
            },
        );
    }
    assert(records_v(answers@) =~= local_answers(qname@, qtype, prefix));
    let mut resp = synthetic_reply(original_query, RCODE_NOERROR);
    resp.answers = answers;
    resp
}

fn ipv4only_rdata() -> (r: Vec<u8>)
    ensures
        r@ == name_wire(dotted("ipv4only.arpa."@)),
{
    let n = name_of("ipv4only.arpa.");
    proof {
        lemma_ipv4only_labels();
    }
    let mut out: Vec<u8> = Vec::new();
    write_name(&mut out, &n);
    assert(out@ =~= name_wire(n@));
    out
}

proof fn lemma_ipv4only_labels()
    ensures
        crate::codec::name_ok(dotted("ipv4only.arpa."@)),
{
    reveal_strlit("ipv4only.arpa.");
    lemma_dotted_ok("ipv4only.arpa."@);
}

/// The reply by which clients find out about DNS64 has the two well-known addresses: as they
/// are where IPv4 addresses are asked for, and embedded in the prefix where IPv6 addresses
/// are, which only a listener with DNS64 has. The well-known addresses have that name.
pub proof fn law_wellknown_answers(query: MessageV, prefix: Option<Prefix>)
    requires
        query.queries.len() > 0,
    ensures
        ({
            let r = local_reply(query, prefix);
            let q = query.queries[0];
            &&& r.header.rcode == RCODE_NOERROR
            &&& r.header.response
            &&& r.header.id == query.header.id
            &&& r.header.recursion_desired == query.header.recursion_desired
            &&& !r.header.authentic_data
            &&& r.queries == query.queries
            &&& forall|i: int| 0 <= i < r.answers.len() ==> (#[trigger] r.answers[i]).name == q.name
            &&& q.qtype == TYPE_A ==> r.answers.len() == 2 && addr_in(r.answers[0]) == Some(
                IpAddr::V4(0xc000_00aa),
            ) && addr_in(r.answers[1]) == Some(IpAddr::V4(0xc000_00ab))
            &&& q.qtype == TYPE_AAAA && prefix is Some ==> r.answers.len() == 2 && addr_in(
                r.answers[0],
            ) == Some(IpAddr::V6(embed(prefix->0, 0xc000_00aa))) && addr_in(r.answers[1]) == Some(
                IpAddr::V6(embed(prefix->0, 0xc000_00ab)),
            )
            &&& q.qtype == TYPE_AAAA && prefix is None ==> r.answers.len() == 0
            &&& q.qtype == TYPE_PTR ==> r.answers.len() == 1 && r.answers[0].rtype == TYPE_PTR
                && r.answers[0].rdata == name_wire(dotted("ipv4only.arpa."@))
        }),
{
    let q = query.queries[0];
    crate::recursor::iterative::law_address_roundtrip(q.name, LOCAL_TTL, IpAddr::V4(0xc000_00aa));
    crate::recursor::iterative::law_address_roundtrip(q.name, LOCAL_TTL, IpAddr::V4(0xc000_00ab));
    if let Some(p) = prefix {
        crate::recursor::iterative::law_address_roundtrip(
            q.name,
            LOCAL_TTL,
            IpAddr::V6(embed(p, 0xc000_00aa)),
        );
        crate::recursor::iterative::law_address_roundtrip(
            q.name,
            LOCAL_TTL,
            IpAddr::V6(embed(p, 0xc000_00ab)),
        );
    }
}

/// Such a reply is due for the well-known name, asked for addresses, and for the names of the
/// two well-known addresses, asked for their name, in any case, and for nothing else.
pub proof fn law_wellknown_questions(qname: Labels, qtype: u16)
    ensures
        is_local(qname, qtype) <==> ((qtype == TYPE_A || qtype == TYPE_AAAA) && same_name(
            qname,
            dotted("ipv4only.arpa."@),
        )) || (qtype == TYPE_PTR && (same_name(qname, dotted("170.0.0.192.in-addr.arpa."@))
            || same_name(qname, dotted("171.0.0.192.in-addr.arpa."@)))),
{
}

} // verus!
