//! Queries and replies that the resolver writes itself.

use crate::bytes::{be16_bytes, copy_range, push_all, push_be16};
use crate::codec::{decoded, encoded};
use crate::name::{lower, Labels, Name};
use crate::wire::{
    clone_queries, queries_v, records_v, Edns, EdnsV, Header, Message, MessageV, Query, QueryV,
    Record, RecordV, CLASS_IN, OPCODE_QUERY, RCODE_NOERROR, RCODE_NOTIMP, RCODE_REFUSED,
    RCODE_SERVFAIL, TYPE_DNSKEY, TYPE_PTR,
};
use vstd::prelude::*;
use vstd::utf8::encode_utf8;

verus! {

/// EDNS payload size that is offered: what fits the smallest IPv6 MTU.
pub const EDNS_PAYLOAD: u16 = 1232;

/// The EDNS flag by which DNSSEC records are asked for.
pub const EDNS_DO: u16 = 0x8000;

/// The EDNS option of an Extended DNS Error (RFC 8914).
pub const OPTION_EDE: u16 = 15;

/// `rand::random` gives any number; nothing is claimed of it.
#[verifier::external_body]
pub(crate) fn random_id() -> u16 {
    rand::random()
}

/// A header with everything off.
pub open spec fn plain_header(id: u16, response: bool, opcode: u8) -> Header {
    Header {
        id,
        response,
        opcode,
        authoritative: false,
        truncated: false,
        recursion_desired: false,
        recursion_available: false,
        authentic_data: false,
        checking_disabled: false,
        rcode: RCODE_NOERROR,
    }
}

/// A message with a header and questions only.
pub open spec fn bare(header: Header, queries: Seq<QueryV>) -> MessageV {
    MessageV {
        header,
        queries,
        answers: Seq::empty(),
        authorities: Seq::empty(),
        additionals: Seq::empty(),
        edns: None,
        signature: None,
    }
}

/// A header with everything off.
pub fn new_header(id: u16, response: bool, opcode: u8) -> (r: Header)
    ensures
        r == plain_header(id, response, opcode),
{
    Header {
        id,
        response,
        opcode,
        authoritative: false,
        truncated: false,
        recursion_desired: false,
        recursion_available: false,
        authentic_data: false,
        checking_disabled: false,
        rcode: RCODE_NOERROR,
    }
}

/// A message with a header and questions only.
pub fn new_message(header: Header, queries: Vec<Query>) -> (r: Message)
    ensures
        r@ == bare(header, queries_v(queries@)),
{
    let r = Message {
        header,
        queries,
        answers: Vec::new(),
        authorities: Vec::new(),
        additionals: Vec::new(),
        edns: None,
        signature: None,
    };
    assert(r@.answers =~= Seq::empty());
    assert(r@.authorities =~= Seq::empty());
    assert(r@.additionals =~= Seq::empty());
    r
}

/// One question as a list.
pub fn one_query(name: &Name, qtype: u16, qclass: u16) -> (r: Vec<Query>)
    ensures
        queries_v(r@) == seq![QueryV { name: name@, qtype, qclass }],
{
    let mut r: Vec<Query> = Vec::new();
    r.push(Query { name: name.clone(), qtype, qclass });
    assert(queries_v(r@) =~= seq![QueryV { name: name@, qtype, qclass }]);
    r
}

/// A query to an authoritative server: no recursion wanted, EDNS with the given DO flag.
pub open spec fn iterative_query(
    id: u16,
    name: Labels,
    qtype: u16,
    qclass: u16,
    dnssec_ok: bool,
) -> MessageV {
    MessageV {
        edns: Some(
            EdnsV {
                max_payload: EDNS_PAYLOAD,
                version: 0,
                flags: if dnssec_ok {
                    EDNS_DO
                } else {
                    0
                },
                options: Seq::empty(),
            },
        ),
        ..bare(
            plain_header(id, false, OPCODE_QUERY),
            seq![QueryV { name, qtype, qclass }],
        )
    }
}

/// A query to an authoritative server, with the given id, as sent.
pub fn encode_query(id: u16, qname: &Name, qtype: u16, qclass: u16, dnssec_ok: bool) -> (r: Option<
    Vec<u8>,
>)
    ensures
        encoded(iterative_query(id, qname@, qtype, qclass, dnssec_ok)) == (match r {
            Some(b) => Some(b@),
            None => None,
        }),
{
    let mut m = new_message(
        new_header(id, false, OPCODE_QUERY),
        one_query(qname, qtype, qclass),
    );
    let e = Edns {
        max_payload: EDNS_PAYLOAD,
        version: 0,
        flags: if dnssec_ok {
            EDNS_DO
        } else {
            0
        },
        options: Vec::new(),
    };
    assert(e@.options =~= Seq::empty());
    m.edns = Some(e);
    assert(m@ == iterative_query(id, qname@, qtype, qclass, dnssec_ok));
    m.to_bytes()
}

/// A query to an authoritative server, with a random id, as sent.
pub fn build_query(qname: &Name, qtype: u16, qclass: u16, dnssec_ok: bool) -> (r: Option<Vec<u8>>)
    ensures
        exists|id: u16|
            #[trigger] encoded(iterative_query(id, qname@, qtype, qclass, dnssec_ok)) == (match r {
                Some(b) => Some(b@),
                None => None,
            }),
{
    encode_query(random_id(), qname, qtype, qclass, dnssec_ok)
}

/// A query for the DNSKEY set of a zone, with its signatures, as sent.
pub fn build_dnskey_query(zone: &Name) -> (r: Option<Vec<u8>>)
    ensures
        exists|id: u16|
            #[trigger] encoded(iterative_query(id, zone@, TYPE_DNSKEY, CLASS_IN, true)) == (
            match r {
                Some(b) => Some(b@),
                None => None,
            }),
{
    build_query(zone, TYPE_DNSKEY, CLASS_IN, true)
}

/// The query in which a PTR question goes to another name.
pub open spec fn ptr_query(id: u16, original: MessageV, name: Labels) -> MessageV {
    bare(
        Header {
            recursion_desired: original.header.recursion_desired,
            ..plain_header(id, false, OPCODE_QUERY)
        },
        seq![QueryV { name, qtype: TYPE_PTR, qclass: CLASS_IN }],
    )
}

/// The query, with the given id, in which a PTR question goes to another name.
pub fn rewrite_query_with_id(id: u16, original: &Message, new_name: &Name) -> (r: Message)
    ensures
        r@ == ptr_query(id, original@, new_name@),
{
    let mut h: Header = new_header(id, false, OPCODE_QUERY);
    h.recursion_desired = original.header.recursion_desired;
    new_message(h, one_query(new_name, TYPE_PTR, CLASS_IN))
}

/// The query, with a random id, in which a PTR question goes to another name.
pub fn rewrite_query_name(original: &Message, new_name: &Name) -> (r: Message)
    ensures
        r@ == ptr_query(r@.header.id, original@, new_name@),
{
    rewrite_query_with_id(random_id(), original, new_name)
}

/// The reply to a request that is not served: REFUSED, or NOTIMP for anything but a
/// standard query, with the id, opcode and question of the request.
pub open spec fn refused_reply(req: MessageV) -> MessageV {
    bare(
        Header {
            recursion_desired: req.header.recursion_desired,
            rcode: if req.header.opcode == OPCODE_QUERY {
                RCODE_REFUSED
            } else {
                RCODE_NOTIMP
            },
            ..plain_header(req.header.id, true, req.header.opcode)
        },
        req.queries,
    )
}

/// The bytes of the reply to a request that is not served; none where the request is no
/// message, since malformed packets are never answered.
pub open spec fn refusal(query: Seq<u8>) -> Option<Seq<u8>> {
    match decoded(query) {
        Some(m) => encoded(refused_reply(m)),
        None => None,
    }
}

/// The reply to a request that is not served.
pub fn refuse(req: &Message) -> (r: Message)
    ensures
        r@ == refused_reply(req@),
{
    let mut h: Header = new_header(req.header.id, true, req.header.opcode);
    h.recursion_desired = req.header.recursion_desired;
    h.rcode = if req.header.opcode == OPCODE_QUERY {
        RCODE_REFUSED
    } else {
        RCODE_NOTIMP
    };
    new_message(h, clone_queries(&req.queries))
}

/// The bytes of the reply to a request that is not served.
pub fn build_refused(query: &[u8]) -> (r: Option<Vec<u8>>)
    ensures
        refusal(query@) == (match r {
            Some(b) => Some(b@),
            None => None,
        }),
{
    match Message::from_bytes(query) {
        Some(m) => refuse(&m).to_bytes(),
        None => None,
    }
}

/// The reply to a request that could not be resolved.
pub open spec fn servfail_reply(req: MessageV) -> MessageV {
    bare(
        Header {
            recursion_desired: req.header.recursion_desired,
            rcode: RCODE_SERVFAIL,
            ..plain_header(req.header.id, true, OPCODE_QUERY)
        },
        req.queries,
    )
}

/// A SERVFAIL header without question.
pub open spec fn minimal_servfail(id: u16) -> Seq<u8> {
    be16_bytes(id) + seq![0x80u8, 0x02u8, 0, 0, 0, 0, 0, 0, 0, 0]
}

/// The bytes of the reply to a request that could not be resolved.
pub open spec fn servfail_bytes(req: MessageV) -> Seq<u8> {
    match encoded(servfail_reply(req)) {
        Some(b) => b,
        None => minimal_servfail(req.header.id),
    }
}

fn servfail_message(req: &Message) -> (r: Message)
    ensures
        r@ == servfail_reply(req@),
{
    let mut h: Header = new_header(req.header.id, true, OPCODE_QUERY);
    h.recursion_desired = req.header.recursion_desired;
    h.rcode = RCODE_SERVFAIL;
    new_message(h, clone_queries(&req.queries))
}

/// The bytes of the reply to a request that could not be resolved.
pub fn servfail(req: &Message) -> (r: Vec<u8>)
    ensures
        r@ == servfail_bytes(req@),
{
    match servfail_message(req).to_bytes() {
        Some(b) => b,
        None => {
            let mut out: Vec<u8> = Vec::new();
            push_be16(&mut out, req.header.id);
            out.push(0x80);
            out.push(0x02);
            let zeros: [u8; 8] = [0, 0, 0, 0, 0, 0, 0, 0];
            push_all(&mut out, zeros.as_slice());
            assert(out@ =~= minimal_servfail(req@.header.id));
            out
        },
    }
}

/// At most the first 255 bytes.
pub open spec fn clipped(b: Seq<u8>) -> Seq<u8> {
    if b.len() <= 255 {
        b
    } else {
        b.subrange(0, 255)
    }
}

/// The EDNS option that carries an Extended DNS Error.
pub open spec fn ede_option(info_code: u16, text: Seq<char>) -> Seq<u8> {
    let payload = be16_bytes(info_code) + clipped(encode_utf8(text));
    be16_bytes(OPTION_EDE) + be16_bytes(payload.len() as u16) + payload
}

/// A SERVFAIL reply that says why.
pub open spec fn ede_reply(req: MessageV, info_code: u16, text: Seq<char>) -> MessageV {
    MessageV {
        edns: Some(
            EdnsV {
                max_payload: EDNS_PAYLOAD,
                version: 0,
                flags: 0,
                options: ede_option(info_code, text),
            },
        ),
        ..servfail_reply(req)
    }
}

/// The bytes of a SERVFAIL reply that says why.
pub open spec fn ede_bytes(req: MessageV, info_code: u16, text: Seq<char>) -> Seq<u8> {
    match encoded(ede_reply(req, info_code, text)) {
        Some(b) => b,
        None => servfail_bytes(req),
    }
}

/// The bytes of a SERVFAIL reply with an Extended DNS Error (RFC 8914).
pub fn servfail_with_ede(req: &Message, info_code: u16, extra_text: &str) -> (r: Vec<u8>)
    ensures
        r@ == ede_bytes(req@, info_code, extra_text@),
{
    let mut m = servfail_message(req);
    let text: &[u8] = extra_text.as_bytes();
    let n: usize = if text.len() <= 255 {
        text.len()
    } else {
        255
    };
    let mut options: Vec<u8> = Vec::new();
    push_be16(&mut options, OPTION_EDE);
    push_be16(&mut options, (n + 2) as u16);
    push_be16(&mut options, info_code);
    let clip = copy_range(text, 0, n);
    push_all(&mut options, clip.as_slice());
    proof {
        assert(clip@ =~= clipped(encode_utf8(extra_text@)));
        assert(options@ =~= ede_option(info_code, extra_text@));
    }
    m.edns = Some(Edns { max_payload: EDNS_PAYLOAD, version: 0, flags: 0, options });
    assert(m@ == ede_reply(req@, info_code, extra_text@));
    match m.to_bytes() {
        Some(b) => b,
        None => servfail(req),
    }
}

/// The records with owner names in lower case.
pub open spec fn lowered_records(s: Seq<RecordV>) -> Seq<RecordV> {
    Seq::new(s.len(), |i: int| RecordV { name: lower(s[i].name), ..s[i] })
}

/// The questions with names in lower case.
pub open spec fn lowered_queries(s: Seq<QueryV>) -> Seq<QueryV> {
    Seq::new(s.len(), |i: int| QueryV { name: lower(s[i].name), ..s[i] })
}

/// The message with the names of its questions and records in lower case.
pub open spec fn lowered(m: MessageV) -> MessageV {
    MessageV {
        queries: lowered_queries(m.queries),
        answers: lowered_records(m.answers),
        authorities: lowered_records(m.authorities),
        additionals: lowered_records(m.additionals),
        ..m
    }
}

fn lower_records(s: &mut Vec<Record>)
    ensures
        records_v(final(s)@) == lowered_records(records_v(old(s)@)),
        final(s)@.len() == old(s)@.len(),
{
    let ghost v = records_v(s@);
    let n: usize = s.len();
    let mut i: usize = 0;
    while i < n
        invariant
            i <= n,
            n == s@.len(),
            n == v.len(),
            forall|j: int| 0 <= j < i ==> (#[trigger] s@[j])@ == lowered_records(v)[j],
            forall|j: int| i <= j < n ==> (#[trigger] s@[j])@ == v[j],
        decreases n - i,
    {
        let mut r = s[i].clone();
        r.name = r.name.to_lowercase();
        s.set(i, r);
        i += 1;
    }
    assert(records_v(s@) =~= lowered_records(v));
}

/// Put the names of questions and records in lower case, so that the case pattern sent
/// upstream does not reach the client.
pub fn lowercase_response_names(msg: &mut Message)
    ensures
        final(msg)@ == lowered(old(msg)@),
{
    let ghost v = queries_v(msg.queries@);
    let mut queries: Vec<Query> = Vec::new();
    let mut i: usize = 0;
    while i < msg.queries.len()
        invariant
            i <= msg.queries@.len(),
            msg@ == old(msg)@,
            v == queries_v(msg.queries@),
            queries@.len() == i,
            forall|j: int| 0 <= j < i ==> (#[trigger] queries@[j])@ == lowered_queries(v)[j],
        decreases msg.queries@.len() - i,
    {
        let q: &Query = &msg.queries[i];
        queries.push(Query { name: q.name.to_lowercase(), qtype: q.qtype, qclass: q.qclass });
        i += 1;
    }
    assert(queries_v(queries@) =~= lowered_queries(v));
    msg.queries = queries;
    lower_records(&mut msg.answers);
    lower_records(&mut msg.authorities);
    lower_records(&mut msg.additionals);
}

/// Putting names in lower case once is enough.
pub proof fn law_lowercasing_is_idempotent(m: MessageV)
    ensures
        lowered(lowered(m)) == lowered(m),
{
    assert forall|s: Seq<RecordV>| #[trigger]
        lowered_records(lowered_records(s)) == lowered_records(s) by {
        assert forall|i: int| 0 <= i < s.len() implies #[trigger] lowered_records(
            lowered_records(s),
        )[i] == lowered_records(s)[i] by {
            crate::name::lemma_lower_idempotent(s[i].name);
        }
        assert(lowered_records(lowered_records(s)) =~= lowered_records(s));
    }
    let q = m.queries;
    assert forall|i: int| 0 <= i < q.len() implies #[trigger] lowered_queries(
        lowered_queries(q),
    )[i] == lowered_queries(q)[i] by {
        crate::name::lemma_lower_idempotent(q[i].name);
    }
    assert(lowered_queries(lowered_queries(q)) =~= lowered_queries(q));
}

/// A failure is answered under the client's identifier, with its question and its wish for
/// recursion, as a reply without records.
pub proof fn law_failures_echo_the_question(req: MessageV, code: u16, text: Seq<char>)
    ensures
        ({
            let f = servfail_reply(req);
            let e = ede_reply(req, code, text);
            let r = refused_reply(req);
            &&& f.header.rcode == RCODE_SERVFAIL
            &&& e.header == f.header && e.queries == f.queries
            &&& r.header.rcode == (if req.header.opcode == OPCODE_QUERY {
                RCODE_REFUSED
            } else {
                RCODE_NOTIMP
            })
            &&& r.header.opcode == req.header.opcode
            &&& f.header.opcode == OPCODE_QUERY
            &&& echoes_question(f, req) && echoes_question(e, req) && echoes_question(r, req)
            &&& f.edns is None && r.edns is None
        }),
{
}

/// A reply without records that echoes identifier, question and wish for recursion, and
/// claims nothing else.
pub open spec fn echoes_question(reply: MessageV, req: MessageV) -> bool {
    &&& reply.header.response
    &&& reply.header.id == req.header.id
    &&& reply.header.recursion_desired == req.header.recursion_desired
    &&& !reply.header.authoritative
    &&& !reply.header.truncated
    &&& !reply.header.authentic_data
    &&& !reply.header.checking_disabled
    &&& reply.queries == req.queries
    &&& reply.answers.len() == 0
    &&& reply.authorities.len() == 0
    &&& reply.additionals.len() == 0
    &&& reply.signature is None
}

/// An extended error holds, behind the number of the option and its length, the code and as
/// much of the text as fits in 255 octets.
pub proof fn law_extended_error_layout(req: MessageV, code: u16, text: Seq<char>)
    ensures
        ({
            let o = ede_reply(req, code, text).edns->0.options;
            let t = encode_utf8(text);
            &&& ede_reply(req, code, text).edns is Some
            &&& o.len() >= 6
            &&& o[0] == 0 && o[1] == 15
            &&& o[2] * 256 + o[3] == o.len() - 4
            &&& o[4] * 256 + o[5] == code
            &&& t.len() <= 255 ==> o.subrange(6, o.len() as int) == t
            &&& t.len() > 255 ==> o.subrange(6, o.len() as int) == t.subrange(0, 255)
        }),
{
    let o = ede_option(code, text);
    let t = clipped(encode_utf8(text));
    assert(o.subrange(6, o.len() as int) =~= t);
}

/// A query to another server asks one thing, under the given identifier, without a wish for
/// recursion, offers room for 1232 octets, and asks for signatures exactly where told to.
pub proof fn law_queries_to_servers(id: u16, name: Labels, qtype: u16, qclass: u16, ok: bool)
    ensures
        ({
            let q = iterative_query(id, name, qtype, qclass, ok);
            &&& q.header.id == id
            &&& !q.header.response
            &&& q.header.opcode == OPCODE_QUERY
            &&& !q.header.recursion_desired
            &&& q.queries.len() == 1
            &&& q.queries[0].name == name
            &&& q.queries[0].qtype == qtype
            &&& q.queries[0].qclass == qclass
            &&& q.edns is Some
            &&& q.edns->0.max_payload == 1232
            &&& q.edns->0.version == 0
            &&& q.edns->0.flags == (if ok {
                0x8000u16
            } else {
                0
            })
            &&& q.answers.len() == 0 && q.authorities.len() == 0 && q.additionals.len() == 0
        }),
{
}

/// The question for the name of an IPv4 address, asked in place of that for an IPv6 one,
/// keeps the client's wish for recursion.
pub proof fn law_ptr_query(id: u16, original: MessageV, name: Labels)
    ensures
        ({
            let q = ptr_query(id, original, name);
            &&& q.header.id == id
            &&& !q.header.response
            &&& q.header.recursion_desired == original.header.recursion_desired
            &&& q.queries.len() == 1
            &&& q.queries[0].name == name
            &&& q.queries[0].qtype == TYPE_PTR
            &&& q.queries[0].qclass == CLASS_IN
            &&& q.answers.len() == 0 && q.authorities.len() == 0 && q.additionals.len() == 0
        }),
{
}

/// Lower case is put on the names of questions and on the owners of records, and on nothing
/// else: header, types, classes, TTLs and data stay.
pub proof fn law_lowering_touches_names_alone(m: MessageV)
    ensures
        ({
            let r = lowered(m);
            &&& r.header == m.header
            &&& r.edns == m.edns
            &&& r.signature == m.signature
            &&& r.queries.len() == m.queries.len()
            &&& r.answers.len() == m.answers.len()
            &&& r.authorities.len() == m.authorities.len()
            &&& r.additionals.len() == m.additionals.len()
            &&& forall|i: int|
                0 <= i < m.queries.len() ==> (#[trigger] r.queries[i]).name == lower(
                    m.queries[i].name,
                ) && r.queries[i].qtype == m.queries[i].qtype && r.queries[i].qclass
                    == m.queries[i].qclass
            &&& forall|i: int|
                0 <= i < m.answers.len() ==> is_lowered(#[trigger] r.answers[i], m.answers[i])
            &&& forall|i: int|
                0 <= i < m.authorities.len() ==> is_lowered(
                    #[trigger] r.authorities[i],
                    m.authorities[i],
                )
            &&& forall|i: int|
                0 <= i < m.additionals.len() ==> is_lowered(
                    #[trigger] r.additionals[i],
                    m.additionals[i],
                )
        }),
{
}

/// A record with its owner in lower case.
pub open spec fn is_lowered(a: RecordV, b: RecordV) -> bool {
    a.name == lower(b.name) && a.rtype == b.rtype && a.class == b.class && a.ttl == b.ttl && a.rdata
        == b.rdata
}

/// A failure is sent as the message says; where that cannot be written down, as a bare header
/// with the client's identifier and the code for a server failure, and an extended error
/// without its text.
pub proof fn law_failures_are_always_sent(req: MessageV, code: u16, text: Seq<char>)
    ensures
        match encoded(servfail_reply(req)) {
            Some(b) => servfail_bytes(req) == b,
            None => {
                let b = servfail_bytes(req);
                &&& b.len() == 12
                &&& b[0] * 256 + b[1] == req.header.id
                &&& b[2] == 0x80
                &&& b[3] == 2
                &&& forall|i: int| 4 <= i < 12 ==> #[trigger] b[i] == 0
            },
        },
        match encoded(ede_reply(req, code, text)) {
            Some(b) => ede_bytes(req, code, text) == b,
            None => ede_bytes(req, code, text) == servfail_bytes(req),
        },
{
}

/// A query that can be read is refused with the reply that says so, and one that cannot gets
/// none.
pub proof fn law_refusals_are_sent(query: Seq<u8>)
    ensures
        decoded(query) is None ==> refusal(query) is None,
        decoded(query) is Some ==> refusal(query) == encoded(refused_reply(decoded(query)->0)),
{
}

} // verus!
