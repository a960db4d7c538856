//! The wire form of DNS messages.
//!
//! Name compression and the per-type RDATA grammars belong to
//! `hickory_proto`; what crosses to and from it is the uncompressed wire form
//! of questions and records, which this module reads and writes.

use crate::bytes::{
    be16_at, be16_bytes, be32_at, be32_bytes, copy_range, lemma_be16_roundtrip,
    lemma_be32_roundtrip, push_all, push_be16, push_be32, read_be16, read_be32,
};
use crate::name::{Labels, Name};
use crate::wire::{
    byte_strings, queries_v, records_v, Edns, EdnsV, Header, Message, MessageV, Query, QueryV,
    Record, RecordV, TYPE_OPT,
};
use hickory_proto::op::Message as WireMessage;
use hickory_proto::rr::Record as WireRecord;
use hickory_proto::serialize::binary::NameEncoding::Uncompressed;
use hickory_proto::serialize::binary::{BinEncodable, BinEncoder};
use vstd::prelude::*;

verus! {

/// Every label has between one and 63 bytes.
pub open spec fn name_ok(n: Labels) -> bool {
    forall|i: int| 0 <= i < n.len() ==> 1 <= (#[trigger] n[i]).len() <= 63
}

/// Uncompressed wire form of a name.
pub open spec fn name_wire(n: Labels) -> Seq<u8>
    decreases n.len(),
{
    if n.len() == 0 {
        seq![0u8]
    } else {
        seq![n[0].len() as u8] + n[0] + name_wire(n.drop_first())
    }
}

/// The name that starts at `pos` in uncompressed wire form, with the position behind it.
pub open spec fn labels_at(b: Seq<u8>, pos: int) -> Option<(Labels, int)>
    decreases b.len() - pos,
{
    if pos < 0 || pos >= b.len() {
        None
    } else if b[pos] == 0 {
        Some((Seq::empty(), pos + 1))
    } else if b[pos] > 63 || pos + 1 + b[pos] > b.len() {
        None
    } else {
        match labels_at(b, pos + 1 + b[pos]) {
            Some((rest, end)) => Some(
                (seq![b.subrange(pos + 1, pos + 1 + b[pos])] + rest, end),
            ),
            None => None,
        }
    }
}

/// Uncompressed wire form of a question.
pub open spec fn query_wire(q: QueryV) -> Seq<u8> {
    name_wire(q.name) + be16_bytes(q.qtype) + be16_bytes(q.qclass)
}

/// Uncompressed wire form of a record.
pub open spec fn record_wire(r: RecordV) -> Seq<u8> {
    name_wire(r.name) + be16_bytes(r.rtype) + be16_bytes(r.class) + be32_bytes(r.ttl) + be16_bytes(
        r.rdata.len() as u16,
    ) + r.rdata
}

/// The question that a byte string is the uncompressed wire form of.
pub open spec fn query_from(b: Seq<u8>) -> Option<QueryV> {
    match labels_at(b, 0) {
        Some((name, e)) => if b.len() == e + 4 {
            Some(QueryV { name, qtype: be16_at(b, e), qclass: be16_at(b, e + 2) })
        } else {
            None
        },
        None => None,
    }
}

/// The record that a byte string is the uncompressed wire form of.
pub open spec fn record_from(b: Seq<u8>) -> Option<RecordV> {
    match labels_at(b, 0) {
        Some((name, e)) => if b.len() >= e + 10 && b.len() == e + 10 + be16_at(b, e + 8) {
            Some(
                RecordV {
                    name,
                    rtype: be16_at(b, e),
                    class: be16_at(b, e + 2),
                    ttl: be32_at(b, e + 4),
                    rdata: b.subrange(e + 10, b.len() as int),
                },
            )
        } else {
            None
        },
        None => None,
    }
}

/// A record that the wire form can hold.
pub open spec fn record_ok(r: RecordV) -> bool {
    name_ok(r.name) && r.rdata.len() <= 0xffff
}

/// Reading a name that starts somewhere in a byte string gives back the name written there.
pub proof fn lemma_name_roundtrip(n: Labels, pre: Seq<u8>, post: Seq<u8>)
    requires
        name_ok(n),
    ensures
        labels_at(pre + name_wire(n) + post, pre.len() as int) == Some(
            (n, pre.len() as int + name_wire(n).len()),
        ),
    decreases n.len(),
{
    let b = pre + name_wire(n) + post;
    if n.len() == 0 {
        assert(n =~= Seq::empty());
        assert(b[pre.len() as int] == 0);
    } else {
        let l = n[0];
        let rest = n.drop_first();
        let head = seq![l.len() as u8] + l;
        assert forall|i: int| 0 <= i < rest.len() implies 1 <= (#[trigger] rest[i]).len() <= 63 by {
            assert(rest[i] == n[i + 1]);
        }
        lemma_name_roundtrip(rest, pre + head, post);
        assert(b =~= (pre + head) + name_wire(rest) + post);
        assert(b[pre.len() as int] == l.len() as u8);
        assert(b.subrange(pre.len() as int + 1, pre.len() as int + 1 + l.len()) =~= l);
        assert(seq![l] + rest =~= n);
    }
}

/// Reading the wire form of a record gives back the record.
pub proof fn law_records_read_back(r: RecordV)
    requires
        record_ok(r),
    ensures
        record_from(record_wire(r)) == Some(r),
{
    let b = record_wire(r);
    let e = name_wire(r.name).len() as int;
    let post = be16_bytes(r.rtype) + be16_bytes(r.class) + be32_bytes(r.ttl) + be16_bytes(
        r.rdata.len() as u16,
    ) + r.rdata;
    lemma_name_roundtrip(r.name, Seq::empty(), post);
    assert(b =~= Seq::empty() + name_wire(r.name) + post);
    lemma_be16_roundtrip(r.rtype);
    lemma_be16_roundtrip(r.class);
    lemma_be32_roundtrip(r.ttl);
    lemma_be16_roundtrip(r.rdata.len() as u16);
    assert(b.subrange(e + 10, b.len() as int) =~= r.rdata);
    assert(be16_at(b, e) == r.rtype);
    assert(be16_at(b, e + 2) == r.class);
    assert(be32_at(b, e + 4) == r.ttl);
    assert(be16_at(b, e + 8) == r.rdata.len());
}

/// Reading the wire form of a question gives back the question.
pub proof fn law_questions_read_back(q: QueryV)
    requires
        name_ok(q.name),
    ensures
        query_from(query_wire(q)) == Some(q),
{
    let b = query_wire(q);
    let e = name_wire(q.name).len() as int;
    let post = be16_bytes(q.qtype) + be16_bytes(q.qclass);
    lemma_name_roundtrip(q.name, Seq::empty(), post);
    assert(b =~= Seq::empty() + name_wire(q.name) + post);
    lemma_be16_roundtrip(q.qtype);
    lemma_be16_roundtrip(q.qclass);
    assert(be16_at(b, e) == q.qtype);
    assert(be16_at(b, e + 2) == q.qclass);
}

/// Read the uncompressed name at `start`.
pub fn read_name(b: &[u8], start: usize) -> (r: Option<(Name, usize)>)
    ensures
        match r {
            Some((n, e)) => labels_at(b@, start as int) == Some((n@, e as int)) && e <= b@.len(),
            None => labels_at(b@, start as int) is None,
        },
{
    let mut labels: Vec<Vec<u8>> = Vec::new();
    let mut pos: usize = start;
    loop
        invariant
            start as int <= pos,
            labels_at(b@, start as int) == (match labels_at(b@, pos as int) {
                Some((rest, e)) => Some((byte_strings(labels@) + rest, e)),
                None => None,
            }),
        decreases b@.len() - pos,
    {
        if pos >= b.len() {
            return None;
        }
        let n: usize = b[pos] as usize;
        if n == 0 {
            let name = Name { labels };
            assert(byte_strings(labels@) + Seq::<Seq<u8>>::empty() =~= name@);
            return Some((name, pos + 1));
        }
        if n > 63 || n > b.len() - pos - 1 {
            return None;
        }
        let label = copy_range(b, pos + 1, pos + 1 + n);
        let ghost before = byte_strings(labels@);
        labels.push(label);
        proof {
            assert(byte_strings(labels@) =~= before.push(label@));
            match labels_at(b@, pos + 1 + n) {
                Some((rest, e)) => {
                    assert(before + (seq![label@] + rest) =~= byte_strings(labels@) + rest);
                },
                None => {},
            }
        }
        pos = pos + 1 + n;
    }
}

/// Read a question from its uncompressed wire form.
pub fn read_query(b: &[u8]) -> (r: Option<Query>)
    ensures
        query_from(b@) == (match r {
            Some(q) => Some(q@),
            None => None,
        }),
{
    match read_name(b, 0) {
        None => None,
        Some((name, e)) => {
            if b.len() - e != 4 {
                return None;
            }
            Some(Query { name, qtype: read_be16(b, e), qclass: read_be16(b, e + 2) })
        },
    }
}

/// Read a record from its uncompressed wire form.
pub fn read_record(b: &[u8]) -> (r: Option<Record>)
    ensures
        record_from(b@) == (match r {
            Some(r) => Some(r@),
            None => None,
        }),
{
    match read_name(b, 0) {
        None => None,
        Some((name, e)) => {
            if b.len() - e < 10 {
                return None;
            }
            let len: usize = read_be16(b, e + 8) as usize;
            if b.len() - e - 10 != len {
                return None;
            }
            Some(
                Record {
                    name,
                    rtype: read_be16(b, e),
                    class: read_be16(b, e + 2),
                    ttl: read_be32(b, e + 4),
                    rdata: copy_range(b, e + 10, b.len()),
                },
            )
        },
    }
}

/// Whether every label of the name has a length that the wire form can hold.
pub fn name_fits(n: &Name) -> (r: bool)
    ensures
        r == name_ok(n@),
{
    let mut i: usize = 0;
    while i < n.labels.len()
        invariant
            i <= n.labels@.len(),
            forall|j: int| 0 <= j < i ==> 1 <= (#[trigger] n@[j]).len() <= 63,
        decreases n.labels@.len() - i,
    {
        let len: usize = n.labels[i].len();
        if len == 0 || len > 63 {
            assert(n@[i as int].len() == len);
            return false;
        }
        i += 1;
    }
    true
}

/// Append the uncompressed wire form of a name.
pub fn write_name(dst: &mut Vec<u8>, n: &Name)
    requires
        name_ok(n@),
    ensures
        final(dst)@ == old(dst)@ + name_wire(n@),
{
    let ghost start = dst@;
    let mut i: usize = 0;
    proof {
        assert(n@.subrange(0, n@.len() as int) =~= n@);
    }
    while i < n.labels.len()
        invariant
            name_ok(n@),
            i <= n.labels@.len(),
            start + name_wire(n@) == dst@ + name_wire(n@.subrange(i as int, n@.len() as int)),
        decreases n.labels@.len() - i,
    {
        let ghost mid = dst@;
        let ghost rest = n@.subrange(i as int, n@.len() as int);
        assert(rest[0] == n@[i as int]);
        let l: &Vec<u8> = &n.labels[i];
        assert(1 <= n@[i as int].len() <= 63);
        dst.push(l.len() as u8);
        push_all(dst, l.as_slice());
        proof {
            assert(rest.drop_first() =~= n@.subrange(i + 1, n@.len() as int));
            assert(dst@ + name_wire(rest.drop_first()) =~= mid + name_wire(rest));
        }
        i += 1;
    }
    dst.push(0);
    assert(dst@ =~= start + name_wire(n@));
}

/// Append the uncompressed wire form of a question.
pub fn write_query(dst: &mut Vec<u8>, q: &Query)
    requires
        name_ok(q@.name),
    ensures
        final(dst)@ == old(dst)@ + query_wire(q@),
{
    let ghost start = dst@;
    write_name(dst, &q.name);
    push_be16(dst, q.qtype);
    push_be16(dst, q.qclass);
    assert(dst@ =~= start + query_wire(q@));
}

/// Append the uncompressed wire form of a record.
pub fn write_record(dst: &mut Vec<u8>, r: &Record)
    requires
        record_ok(r@),
    ensures
        final(dst)@ == old(dst)@ + record_wire(r@),
{
    let ghost start = dst@;
    write_name(dst, &r.name);
    push_be16(dst, r.rtype);
    push_be16(dst, r.class);
    push_be32(dst, r.ttl);
    push_be16(dst, r.rdata.len() as u16);
    push_all(dst, r.rdata.as_slice());
    assert(dst@ =~= start + record_wire(r@));
}

/// Whether the wire form can hold the record.
pub fn record_fits(r: &Record) -> (ok: bool)
    ensures
        ok == record_ok(r@),
{
    name_fits(&r.name) && r.rdata.len() <= 0xffff
}

/// The uncompressed wire form of one record, for one that has it.
pub fn record_bytes(r: &Record) -> (b: Vec<u8>)
    requires
        record_ok(r@),
    ensures
        b@ == record_wire(r@),
{
    let mut out: Vec<u8> = Vec::new();
    write_record(&mut out, r);
    assert(out@ =~= record_wire(r@));
    out
}

/// The value of one header bit.
pub open spec fn bit(on: bool, weight: int) -> int {
    if on {
        weight
    } else {
        0
    }
}

/// First flag byte of a header.
pub open spec fn flags_hi(h: Header) -> u8 {
    (bit(h.response, 128) + (h.opcode % 16) * 8 + bit(h.authoritative, 4) + bit(h.truncated, 2)
        + bit(h.recursion_desired, 1)) as u8
}

/// Second flag byte of a header.
pub open spec fn flags_lo(h: Header) -> u8 {
    (bit(h.recursion_available, 128) + bit(h.authentic_data, 32) + bit(h.checking_disabled, 16)
        + h.rcode % 16) as u8
}

/// The header that starts a message, with the extended response-code bits `high`.
pub open spec fn header_from(b: Seq<u8>, high: u8) -> Header {
    Header {
        id: be16_at(b, 0),
        response: b[2] / 128 == 1,
        opcode: b[2] / 8 % 16,
        authoritative: b[2] / 4 % 2 == 1,
        truncated: b[2] / 2 % 2 == 1,
        recursion_desired: b[2] % 2 == 1,
        recursion_available: b[3] / 128 == 1,
        authentic_data: b[3] / 32 % 2 == 1,
        checking_disabled: b[3] / 16 % 2 == 1,
        rcode: (high * 16 + b[3] % 16) as u16,
    }
}

/// The record that carries EDNS data, with the extended response-code bits of `rcode`.
pub open spec fn opt_record(e: EdnsV, rcode: u16) -> RecordV {
    RecordV {
        name: Seq::empty(),
        rtype: TYPE_OPT,
        class: e.max_payload,
        ttl: ((rcode / 16 % 256) * 0x100_0000 + e.version * 0x1_0000 + e.flags) as u32,
        rdata: e.options,
    }
}

/// The EDNS data that an OPT record carries.
pub open spec fn edns_from(r: RecordV) -> EdnsV {
    EdnsV {
        max_payload: r.class,
        version: (r.ttl / 0x1_0000 % 256) as u8,
        flags: (r.ttl % 0x1_0000) as u16,
        options: r.rdata,
    }
}

/// Uncompressed wire form of a list of questions.
pub open spec fn queries_wire(s: Seq<QueryV>) -> Seq<u8>
    decreases s.len(),
{
    if s.len() == 0 {
        Seq::empty()
    } else {
        queries_wire(s.drop_last()) + query_wire(s.last())
    }
}

/// Uncompressed wire form of a list of records.
pub open spec fn records_wire(s: Seq<RecordV>) -> Seq<u8>
    decreases s.len(),
{
    if s.len() == 0 {
        Seq::empty()
    } else {
        records_wire(s.drop_last()) + record_wire(s.last())
    }
}

/// Every record of the list has a wire form.
pub open spec fn records_ok(s: Seq<RecordV>) -> bool {
    forall|i: int| 0 <= i < s.len() ==> record_ok(#[trigger] s[i])
}

/// Every question of the list has a wire form.
pub open spec fn queries_ok(s: Seq<QueryV>) -> bool {
    forall|i: int| 0 <= i < s.len() ==> name_ok((#[trigger] s[i]).name)
}

/// Number of additional records, those of EDNS and signature counted.
pub open spec fn additional_count(m: MessageV) -> nat {
    m.additionals.len() + (if m.edns is Some {
        1nat
    } else {
        0
    }) + (if m.signature is Some {
        1nat
    } else {
        0
    })
}

/// A message that the wire form can hold.
pub open spec fn message_ok(m: MessageV) -> bool {
    &&& queries_ok(m.queries)
    &&& records_ok(m.answers)
    &&& records_ok(m.authorities)
    &&& records_ok(m.additionals)
    &&& m.queries.len() <= 0xffff
    &&& m.answers.len() <= 0xffff
    &&& m.authorities.len() <= 0xffff
    &&& additional_count(m) <= 0xffff
    &&& m.edns is Some ==> m.edns->0.options.len() <= 0xffff
    &&& m.signature is Some ==> record_ok(m.signature->0)
}

/// Wire form of the EDNS record, if there is one.
pub open spec fn edns_wire(m: MessageV) -> Seq<u8> {
    match m.edns {
        Some(e) => record_wire(opt_record(e, m.header.rcode)),
        None => Seq::empty(),
    }
}

/// Wire form of the signature, if there is one: the last record of all.
pub open spec fn signature_wire(m: MessageV) -> Seq<u8> {
    match m.signature {
        Some(r) => record_wire(r),
        None => Seq::empty(),
    }
}

/// The fixed start of a message: id, flags and the four counts.
pub open spec fn head_wire(h: Header, n: (u16, u16, u16, u16)) -> Seq<u8> {
    be16_bytes(h.id) + seq![flags_hi(h), flags_lo(h)] + be16_bytes(n.0) + be16_bytes(n.1)
        + be16_bytes(n.2) + be16_bytes(n.3)
}

/// The four section counts of a message.
pub open spec fn counts(m: MessageV) -> (u16, u16, u16, u16) {
    (
        m.queries.len() as u16,
        m.answers.len() as u16,
        m.authorities.len() as u16,
        additional_count(m) as u16,
    )
}

/// Uncompressed wire form of a message.
pub open spec fn plain_wire(m: MessageV) -> Seq<u8> {
    head_wire(m.header, counts(m)) + queries_wire(m.queries) + records_wire(m.answers) + records_wire(m.authorities)
        + records_wire(m.additionals) + edns_wire(m) + signature_wire(m)
}

/// The sections of a message in uncompressed wire form, one byte string for each entry.
#[derive(Debug)]
pub struct Parts {
    pub queries: Vec<Vec<u8>>,
    /// Answers, authorities and additionals.
    pub sections: Vec<Vec<Vec<u8>>>,
    pub edns: Option<Vec<u8>>,
    pub signature: Option<Vec<u8>>,
}

/// The value of [`Parts`].
#[verifier::ext_equal]
pub ghost struct PartsV {
    pub queries: Seq<Seq<u8>>,
    pub sections: Seq<Seq<Seq<u8>>>,
    pub edns: Option<Seq<u8>>,
    pub signature: Option<Seq<u8>>,
}

impl View for Parts {
    type V = PartsV;

    open spec fn view(&self) -> PartsV {
        PartsV {
            queries: byte_strings(self.queries@),
            sections: Seq::new(self.sections@.len(), |i: int| byte_strings(self.sections@[i]@)),
            edns: match self.edns {
                Some(e) => Some(e@),
                None => None,
            },
            signature: match self.signature {
                Some(r) => Some(r@),
                None => None,
            },
        }
    }
}

/// What `hickory_proto` decodes from the bytes of a message, each question and
/// record, EDNS and signature too, written back without compression.
pub uninterp spec fn decoded_parts(bytes: Seq<u8>) -> Option<PartsV>;

/// What `hickory_proto` encodes for the message that the given bytes hold.
pub uninterp spec fn compressed_wire(bytes: Seq<u8>) -> Option<Seq<u8>>;

/// `hickory_proto::op::Message::from_vec`, each question and record of the result
/// emitted with `NameEncoding::Uncompressed`, one that cannot be emitted as no bytes. The
/// result depends on the bytes alone; nothing else is claimed of it.
#[verifier::external_body]
fn decode_parts(bytes: &[u8]) -> (r: Option<Parts>)
    ensures
        decoded_parts(bytes@) == (match r {
            Some(p) => Some(p@),
            None => None,
        }),
{
    let m = WireMessage::from_vec(bytes).ok()?;
    let flat = |r: &dyn BinEncodable| {
        let mut out = vec![];
        let mut encoder = BinEncoder::new(&mut out);
        encoder.set_name_encoding(Uncompressed);
        r.emit(&mut encoder).map(|_| out).unwrap_or_default()
    };
    Some(Parts {
        queries: m.queries.iter().map(|q| flat(q)).collect(),
        sections: [m.answers, m.authorities, m.additionals]
            .map(|s| s.iter().map(|r| flat(r)).collect())
            .into(),
        edns: m.edns.map(|e| flat(&WireRecord::from(&e))),
        signature: m.signature.map(|r| flat(&*r)),
    })
}

/// `hickory_proto::op::Message::from_vec` followed by `Message::to_vec`: the message,
/// written with name compression. The result depends on the bytes alone; nothing else
/// is claimed of it.
#[verifier::external_body]
fn compress(bytes: &[u8]) -> (r: Option<Vec<u8>>)
    ensures
        compressed_wire(bytes@) == (match r {
            Some(v) => Some(v@),
            None => None,
        }),
{
    WireMessage::from_vec(bytes).ok()?.to_vec().ok()
}

/// The records of which the byte strings are the wire form, if each is one.
pub open spec fn records_from(s: Seq<Seq<u8>>) -> Option<Seq<RecordV>> {
    if forall|i: int| 0 <= i < s.len() ==> record_from(#[trigger] s[i]) is Some {
        Some(Seq::new(s.len(), |i: int| record_from(s[i])->0))
    } else {
        None
    }
}

/// The questions of which the byte strings are the wire form, if each is one.
pub open spec fn queries_from(s: Seq<Seq<u8>>) -> Option<Seq<QueryV>> {
    if forall|i: int| 0 <= i < s.len() ==> query_from(#[trigger] s[i]) is Some {
        Some(Seq::new(s.len(), |i: int| query_from(s[i])->0))
    } else {
        None
    }
}

/// The extended response-code bits and the EDNS data of an optional OPT record.
pub open spec fn edns_parts(e: Option<Seq<u8>>) -> Option<(u8, Option<EdnsV>)> {
    match e {
        None => Some((0, None)),
        Some(b) => match record_from(b) {
            Some(r) => Some(((r.ttl / 0x100_0000) as u8, Some(edns_from(r)))),
            None => None,
        },
    }
}

/// The record that an optional byte string is the wire form of, if it is one.
pub open spec fn signature_from(s: Option<Seq<u8>>) -> Option<Option<RecordV>> {
    match s {
        None => Some(None),
        Some(b) => match record_from(b) {
            Some(r) => Some(Some(r)),
            None => None,
        },
    }
}

/// The message made of a header read from `bytes` and of decoded sections.
pub open spec fn assemble(bytes: Seq<u8>, p: PartsV) -> Option<MessageV> {
    if p.sections.len() != 3 {
        None
    } else {
        match (
            queries_from(p.queries),
            records_from(p.sections[0]),
            records_from(p.sections[1]),
            records_from(p.sections[2]),
            edns_parts(p.edns),
            signature_from(p.signature),
        ) {
            (
                Some(queries),
                Some(answers),
                Some(authorities),
                Some(additionals),
                Some((high, edns)),
                Some(signature),
            ) => Some(
                MessageV {
                    header: header_from(bytes, high),
                    queries,
                    answers,
                    authorities,
                    additionals,
                    edns,
                    signature,
                },
            ),
            _ => None,
        }
    }
}

/// The message that a byte string holds.
pub open spec fn decoded(bytes: Seq<u8>) -> Option<MessageV> {
    if bytes.len() < 12 {
        None
    } else {
        match decoded_parts(bytes) {
            Some(p) => assemble(bytes, p),
            None => None,
        }
    }
}

/// The bytes that a message is sent as.
pub open spec fn encoded(m: MessageV) -> Option<Seq<u8>> {
    if message_ok(m) {
        compressed_wire(plain_wire(m))
    } else {
        None
    }
}

/// Read each byte string as a record.
pub fn read_records(s: &Vec<Vec<u8>>) -> (r: Option<Vec<Record>>)
    ensures
        records_from(byte_strings(s@)) == (match r {
            Some(v) => Some(records_v(v@)),
            None => None,
        }),
{
    let mut out: Vec<Record> = Vec::new();
    let mut i: usize = 0;
    let ghost b = byte_strings(s@);
    while i < s.len()
        invariant
            i <= s@.len(),
            b == byte_strings(s@),
            out@.len() == i,
            forall|j: int| 0 <= j < i ==> record_from(#[trigger] b[j]) == Some(out@[j]@),
        decreases s@.len() - i,
    {
        match read_record(s[i].as_slice()) {
            Some(r) => out.push(r),
            None => {
                assert(record_from(b[i as int]) is None);
                return None;
            },
        }
        i += 1;
    }
    assert(records_from(b)->0 =~= records_v(out@));
    Some(out)
}

/// Read each byte string as a question.
pub fn read_queries(s: &Vec<Vec<u8>>) -> (r: Option<Vec<Query>>)
    ensures
        queries_from(byte_strings(s@)) == (match r {
            Some(v) => Some(queries_v(v@)),
            None => None,
        }),
{
    let mut out: Vec<Query> = Vec::new();
    let mut i: usize = 0;
    let ghost b = byte_strings(s@);
    while i < s.len()
        invariant
            i <= s@.len(),
            b == byte_strings(s@),
            out@.len() == i,
            forall|j: int| 0 <= j < i ==> query_from(#[trigger] b[j]) == Some(out@[j]@),
        decreases s@.len() - i,
    {
        match read_query(s[i].as_slice()) {
            Some(r) => out.push(r),
            None => {
                assert(query_from(b[i as int]) is None);
                return None;
            },
        }
        i += 1;
    }
    assert(queries_from(b)->0 =~= queries_v(out@));
    Some(out)
}

/// Read the header of a message.
pub fn read_header(b: &[u8], high: u8) -> (r: Header)
    requires
        b@.len() >= 4,
    ensures
        r == header_from(b@, high),
{
    Header {
        id: read_be16(b, 0),
        response: b[2] / 128 == 1,
        opcode: b[2] / 8 % 16,
        authoritative: b[2] / 4 % 2 == 1,
        truncated: b[2] / 2 % 2 == 1,
        recursion_desired: b[2] % 2 == 1,
        recursion_available: b[3] / 128 == 1,
        authentic_data: b[3] / 32 % 2 == 1,
        checking_disabled: b[3] / 16 % 2 == 1,
        rcode: high as u16 * 16 + (b[3] % 16) as u16,
    }
}

/// Put a message together from the header in `bytes` and decoded sections.
pub fn assemble_parts(bytes: &[u8], p: Parts) -> (r: Option<Message>)
    requires
        bytes@.len() >= 12,
    ensures
        assemble(bytes@, p@) == (match r {
            Some(m) => Some(m@),
            None => None,
        }),
{
    if p.sections.len() != 3 {
        return None;
    }
    let queries = match read_queries(&p.queries) {
        Some(v) => v,
        None => return None,
    };
    let answers = match read_records(&p.sections[0]) {
        Some(v) => v,
        None => return None,
    };
    let authorities = match read_records(&p.sections[1]) {
        Some(v) => v,
        None => return None,
    };
    let additionals = match read_records(&p.sections[2]) {
        Some(v) => v,
        None => return None,
    };
    let mut high: u8 = 0;
    let edns = match p.edns {
        None => None,
        Some(b) => match read_record(b.as_slice()) {
            None => return None,
            Some(r) => {
                high = (r.ttl / 0x100_0000) as u8;
                Some(
                    Edns {
                        max_payload: r.class,
                        version: (r.ttl / 0x1_0000 % 256) as u8,
                        flags: (r.ttl % 0x1_0000) as u16,
                        options: r.rdata,
                    },
                )
            },
        },
    };
    let signature = match p.signature {
        None => None,
        Some(b) => match read_record(b.as_slice()) {
            None => return None,
            Some(r) => Some(r),
        },
    };
    Some(
        Message {
            header: read_header(bytes, high),
            queries,
            answers,
            authorities,
            additionals,
            edns,
            signature,
        },
    )
}

/// Append the uncompressed wire form of a list of records.
fn write_records(dst: &mut Vec<u8>, s: &Vec<Record>)
    requires
        records_ok(records_v(s@)),
    ensures
        final(dst)@ == old(dst)@ + records_wire(records_v(s@)),
{
    let ghost start = dst@;
    let ghost v = records_v(s@);
    let mut i: usize = 0;
    assert(start + records_wire(v.subrange(0, 0)) =~= start);
    while i < s.len()
        invariant
            records_ok(v),
            v == records_v(s@),
            i <= s@.len(),
            dst@ == start + records_wire(v.subrange(0, i as int)),
        decreases s@.len() - i,
    {
        assert(record_ok(v[i as int]));
        write_record(dst, &s[i]);
        proof {
            let next = v.subrange(0, i + 1);
            assert(next.drop_last() =~= v.subrange(0, i as int));
            assert(dst@ =~= start + records_wire(next));
        }
        i += 1;
    }
    assert(v.subrange(0, v.len() as int) =~= v);
}

/// Append the uncompressed wire form of a list of questions.
fn write_queries(dst: &mut Vec<u8>, s: &Vec<Query>)
    requires
        queries_ok(queries_v(s@)),
    ensures
        final(dst)@ == old(dst)@ + queries_wire(queries_v(s@)),
{
    let ghost start = dst@;
    let ghost v = queries_v(s@);
    let mut i: usize = 0;
    assert(start + queries_wire(v.subrange(0, 0)) =~= start);
    while i < s.len()
        invariant
            queries_ok(v),
            v == queries_v(s@),
            i <= s@.len(),
            dst@ == start + queries_wire(v.subrange(0, i as int)),
        decreases s@.len() - i,
    {
        assert(name_ok(v[i as int].name));
        write_query(dst, &s[i]);
        proof {
            let next = v.subrange(0, i + 1);
            assert(next.drop_last() =~= v.subrange(0, i as int));
            assert(dst@ =~= start + queries_wire(next));
        }
        i += 1;
    }
    assert(v.subrange(0, v.len() as int) =~= v);
}

/// Whether every record of the list has a wire form.
fn records_fit(s: &Vec<Record>) -> (r: bool)
    ensures
        r == records_ok(records_v(s@)),
{
    let mut i: usize = 0;
    while i < s.len()
        invariant
            i <= s@.len(),
            forall|j: int| 0 <= j < i ==> record_ok(#[trigger] records_v(s@)[j]),
        decreases s@.len() - i,
    {
        if !record_fits(&s[i]) {
            assert(!record_ok(records_v(s@)[i as int]));
            return false;
        }
        i += 1;
    }
    true
}

/// Whether every question of the list has a wire form.
fn queries_fit(s: &Vec<Query>) -> (r: bool)
    ensures
        r == queries_ok(queries_v(s@)),
{
    let mut i: usize = 0;
    while i < s.len()
        invariant
            i <= s@.len(),
            forall|j: int| 0 <= j < i ==> name_ok((#[trigger] queries_v(s@)[j]).name),
        decreases s@.len() - i,
    {
        if !name_fits(&s[i].name) {
            assert(!name_ok(queries_v(s@)[i as int].name));
            return false;
        }
        i += 1;
    }
    true
}

fn weight(on: bool, w: u8) -> (r: u8)
    ensures
        r == bit(on, w as int),
{
    if on {
        w
    } else {
        0
    }
}

/// The fixed start of a message.
fn head_bytes(h: Header, qd: u16, an: u16, ns: u16, ar: u16) -> (r: Vec<u8>)
    ensures
        r@ == head_wire(h, (qd, an, ns, ar)),
{
    let mut out: Vec<u8> = Vec::new();
    push_be16(&mut out, h.id);
    out.push(
        weight(h.response, 128) + (h.opcode % 16) * 8 + weight(h.authoritative, 4) + weight(
            h.truncated,
            2,
        ) + weight(h.recursion_desired, 1),
    );
    out.push(
        weight(h.recursion_available, 128) + weight(h.authentic_data, 32) + weight(
            h.checking_disabled,
            16,
        ) + (h.rcode % 16) as u8,
    );
    push_be16(&mut out, qd);
    push_be16(&mut out, an);
    push_be16(&mut out, ns);
    push_be16(&mut out, ar);
    assert(out@ =~= head_wire(h, (qd, an, ns, ar)));
    out
}

/// The uncompressed wire form of a message, for one that has it.
pub fn plain_bytes(m: &Message) -> (r: Option<Vec<u8>>)
    ensures
        r is Some <==> message_ok(m@),
        r is Some ==> r->0@ == plain_wire(m@),
{
    let extra: usize = match &m.edns {
        Some(e) => {
            if e.options.len() > 0xffff {
                return None;
            }
            1
        },
        None => 0,
    };
    let signed: usize = match &m.signature {
        Some(r) => {
            if !record_fits(r) {
                return None;
            }
            1
        },
        None => 0,
    };
    if m.queries.len() > 0xffff || m.answers.len() > 0xffff || m.authorities.len() > 0xffff
        || m.additionals.len() > 0xffff - extra - signed {
        return None;
    }
    if !queries_fit(&m.queries) || !records_fit(&m.answers) || !records_fit(&m.authorities)
        || !records_fit(&m.additionals) {
        return None;
    }
    let h: Header = m.header;
    let mut out: Vec<u8> = head_bytes(
        h,
        m.queries.len() as u16,
        m.answers.len() as u16,
        m.authorities.len() as u16,
        (m.additionals.len() + extra + signed) as u16,
    );
    write_queries(&mut out, &m.queries);
    write_records(&mut out, &m.answers);
    write_records(&mut out, &m.authorities);
    write_records(&mut out, &m.additionals);
    match &m.edns {
        Some(e) => {
            let opt = Record {
                name: Name::root(),
                rtype: TYPE_OPT,
                class: e.max_payload,
                ttl: (h.rcode / 16 % 256) as u32 * 0x100_0000 + e.version as u32 * 0x1_0000
                    + e.flags as u32,
                rdata: crate::bytes::copy_bytes(e.options.as_slice()),
            };
            assert(opt@ == opt_record(e@, h.rcode));
            write_record(&mut out, &opt);
        },
        None => {
            assert(out@ + Seq::<u8>::empty() =~= out@);
        },
    }
    match &m.signature {
        Some(r) => {
            write_record(&mut out, r);
        },
        None => {
            assert(out@ + Seq::<u8>::empty() =~= out@);
        },
    }
    Some(out)
}

impl Message {
    /// Decode a message.
    pub fn from_bytes(bytes: &[u8]) -> (r: Option<Message>)
        ensures
            decoded(bytes@) == (match r {
                Some(m) => Some(m@),
                None => None,
            }),
    {
        if bytes.len() < 12 {
            return None;
        }
        match decode_parts(bytes) {
            Some(p) => assemble_parts(bytes, p),
            None => None,
        }
    }

    /// Encode a message.
    pub fn to_bytes(&self) -> (r: Option<Vec<u8>>)
        ensures
            encoded(self@) == (match r {
                Some(b) => Some(b@),
                None => None,
            }),
    {
        match plain_bytes(self) {
            Some(b) => compress(b.as_slice()),
            None => None,
        }
    }
}

/// A header survives the wire: identifier, flags, operation and response code come back,
/// given the high part of the code, which the OPT record carries; and the four counts stand
/// behind them, each in two octets.
pub proof fn law_headers_read_back(h: Header, n: (u16, u16, u16, u16), rest: Seq<u8>)
    requires
        h.opcode < 16,
        h.rcode < 4096,
    ensures
        header_from(head_wire(h, n) + rest, (h.rcode / 16) as u8) == h,
        head_wire(h, n).len() == 12,
        be16_at(head_wire(h, n), 4) == n.0,
        be16_at(head_wire(h, n), 6) == n.1,
        be16_at(head_wire(h, n), 8) == n.2,
        be16_at(head_wire(h, n), 10) == n.3,
{
    let w = head_wire(h, n);
    let b = w + rest;
    crate::bytes::lemma_be16_roundtrip(h.id);
    crate::bytes::lemma_be16_roundtrip(n.0);
    crate::bytes::lemma_be16_roundtrip(n.1);
    crate::bytes::lemma_be16_roundtrip(n.2);
    crate::bytes::lemma_be16_roundtrip(n.3);
    assert(b[0] == w[0] && b[1] == w[1] && b[2] == w[2] && b[3] == w[3]);
    assert(b[2] == flags_hi(h) && b[3] == flags_lo(h));
    lemma_flags(h);
}

proof fn lemma_flags(h: Header)
    requires
        h.opcode < 16,
        h.rcode < 4096,
    ensures
        ({
            let x = flags_hi(h);
            let y = flags_lo(h);
            &&& x / 128 == bit(h.response, 1)
            &&& x / 8 % 16 == h.opcode
            &&& x / 4 % 2 == bit(h.authoritative, 1)
            &&& x / 2 % 2 == bit(h.truncated, 1)
            &&& x % 2 == bit(h.recursion_desired, 1)
            &&& y / 128 == bit(h.recursion_available, 1)
            &&& y / 32 % 2 == bit(h.authentic_data, 1)
            &&& y / 16 % 2 == bit(h.checking_disabled, 1)
            &&& (h.rcode / 16) * 16 + y % 16 == h.rcode
        }),
{
}

/// The extension record survives the wire, and carries the high part of the response code.
pub proof fn law_extensions_read_back(e: EdnsV, rcode: u16)
    requires
        rcode < 4096,
    ensures
        edns_from(opt_record(e, rcode)) == e,
        opt_record(e, rcode).rtype == TYPE_OPT,
        opt_record(e, rcode).name.len() == 0,
        opt_record(e, rcode).ttl / 0x100_0000 == rcode / 16,
{
    let t = opt_record(e, rcode).ttl;
    assert(t == (rcode / 16) * 0x100_0000 + e.version * 0x1_0000 + e.flags);
}

/// The parts of a message, each written down by itself, are put together to the message: no
/// question and no record is lost, added, moved or changed.
pub proof fn law_parts_make_the_message(m: MessageV, rest: Seq<u8>)
    requires
        message_ok(m),
        m.header.opcode < 16,
        m.header.rcode < 4096,
        m.edns is None ==> m.header.rcode < 16,
    ensures
        assemble(
            head_wire(m.header, counts(m)) + rest,
            PartsV {
                queries: Seq::new(m.queries.len(), |i: int| query_wire(m.queries[i])),
                sections: seq![
                    Seq::new(m.answers.len(), |i: int| record_wire(m.answers[i])),
                    Seq::new(m.authorities.len(), |i: int| record_wire(m.authorities[i])),
                    Seq::new(m.additionals.len(), |i: int| record_wire(m.additionals[i])),
                ],
                edns: match m.edns {
                    Some(e) => Some(record_wire(opt_record(e, m.header.rcode))),
                    None => None,
                },
                signature: match m.signature {
                    Some(r) => Some(record_wire(r)),
                    None => None,
                },
            },
        ) == Some(m),
{
    law_headers_read_back(m.header, counts(m), rest);
    let q = Seq::new(m.queries.len(), |i: int| query_wire(m.queries[i]));
    assert forall|i: int| 0 <= i < q.len() implies query_from(#[trigger] q[i]) == Some(
        m.queries[i],
    ) by {
        law_questions_read_back(m.queries[i]);
    }
    assert(queries_from(q)->0 =~= m.queries);
    lemma_section(m.answers);
    lemma_section(m.authorities);
    lemma_section(m.additionals);
    if let Some(e) = m.edns {
        law_extensions_read_back(e, m.header.rcode);
        law_records_read_back(opt_record(e, m.header.rcode));
    }
    if let Some(r) = m.signature {
        law_records_read_back(r);
    }
}

proof fn lemma_section(rs: Seq<RecordV>)
    requires
        records_ok(rs),
    ensures
        records_from(Seq::new(rs.len(), |i: int| record_wire(rs[i]))) == Some(rs),
{
    let s = Seq::new(rs.len(), |i: int| record_wire(rs[i]));
    assert forall|i: int| 0 <= i < s.len() implies record_from(#[trigger] s[i]) == Some(rs[i]) by {
        law_records_read_back(rs[i]);
    }
    assert(records_from(s)->0 =~= rs);
}

/// A section is written record by record, in order, each in full.
pub proof fn law_sections_are_written_in_order(a: Seq<RecordV>, r: RecordV, q: Seq<QueryV>, x: QueryV)
    ensures
        records_wire(a.push(r)) == records_wire(a) + record_wire(r),
        records_wire(Seq::empty()) == Seq::<u8>::empty(),
        queries_wire(q.push(x)) == queries_wire(q) + query_wire(x),
        queries_wire(Seq::empty()) == Seq::<u8>::empty(),
{
    assert(a.push(r).drop_last() =~= a);
    assert(q.push(x).drop_last() =~= q);
}

/// A message is written as its header, with the number of records of each section, its
/// questions, answers, authorities and additional records, and at the end the extension record
/// and the signature, where it has them.
pub proof fn law_messages_are_written_whole(m: MessageV)
    requires
        message_ok(m),
    ensures
        ({
            let w = plain_wire(m);
            let h = 12int;
            let q = h + queries_wire(m.queries).len();
            let a = q + records_wire(m.answers).len();
            let n = a + records_wire(m.authorities).len();
            let d = n + records_wire(m.additionals).len();
            &&& w.len() >= d
            &&& be16_at(w, 4) == m.queries.len()
            &&& be16_at(w, 6) == m.answers.len()
            &&& be16_at(w, 8) == m.authorities.len()
            &&& be16_at(w, 10) == m.additionals.len() + (if m.edns is Some {
                1int
            } else {
                0
            }) + (if m.signature is Some {
                1int
            } else {
                0
            })
            &&& w.subrange(h, q) == queries_wire(m.queries)
            &&& w.subrange(q, a) == records_wire(m.answers)
            &&& w.subrange(a, n) == records_wire(m.authorities)
            &&& w.subrange(n, d) == records_wire(m.additionals)
            &&& m.edns is None && m.signature is None ==> w.len() == d
        }),
{
    let w = plain_wire(m);
    let hw = head_wire(m.header, counts(m));
    let c = counts(m);
    crate::bytes::lemma_be16_roundtrip(c.0);
    crate::bytes::lemma_be16_roundtrip(c.1);
    crate::bytes::lemma_be16_roundtrip(c.2);
    crate::bytes::lemma_be16_roundtrip(c.3);
    assert(hw.len() == 12);
    assert(forall|i: int| 0 <= i < 12 ==> #[trigger] w[i] == hw[i]);
    let h = 12int;
    let q = h + queries_wire(m.queries).len();
    let a = q + records_wire(m.answers).len();
    let n = a + records_wire(m.authorities).len();
    let d = n + records_wire(m.additionals).len();
    assert(w.subrange(h, q) =~= queries_wire(m.queries));
    assert(w.subrange(q, a) =~= records_wire(m.answers));
    assert(w.subrange(a, n) =~= records_wire(m.authorities));
    assert(w.subrange(n, d) =~= records_wire(m.additionals));
}

} // verus!
