//! DNS messages as plain values.

use crate::name::{Labels, Name};
use vstd::prelude::*;

verus! {

/// Record type numbers used by the resolver.
pub const TYPE_A: u16 = 1;

pub const TYPE_NS: u16 = 2;

pub const TYPE_CNAME: u16 = 5;

pub const TYPE_SOA: u16 = 6;

pub const TYPE_PTR: u16 = 12;

pub const TYPE_AAAA: u16 = 28;

pub const TYPE_OPT: u16 = 41;

pub const TYPE_DS: u16 = 43;

pub const TYPE_RRSIG: u16 = 46;

pub const TYPE_NSEC: u16 = 47;

pub const TYPE_DNSKEY: u16 = 48;

pub const TYPE_NSEC3: u16 = 50;

pub const TYPE_SVCB: u16 = 64;

/// The Internet class.
pub const CLASS_IN: u16 = 1;

/// Response codes used by the resolver.
pub const RCODE_NOERROR: u16 = 0;

pub const RCODE_SERVFAIL: u16 = 2;

pub const RCODE_NXDOMAIN: u16 = 3;

pub const RCODE_NOTIMP: u16 = 4;

pub const RCODE_REFUSED: u16 = 5;

/// The opcode of a standard query.
pub const OPCODE_QUERY: u8 = 0;

/// The fixed part of a message, counts aside.
#[derive(Debug, Clone, Copy, PartialEq, Eq, Structural)]
pub struct Header {
    pub id: u16,
    pub response: bool,
    pub opcode: u8,
    pub authoritative: bool,
    pub truncated: bool,
    pub recursion_desired: bool,
    pub recursion_available: bool,
    pub authentic_data: bool,
    pub checking_disabled: bool,
    /// The response code, extended bits included.
    pub rcode: u16,
}

/// A question.
#[derive(Debug)]
pub struct Query {
    pub name: Name,
    pub qtype: u16,
    pub qclass: u16,
}

/// A resource record, its RDATA in uncompressed wire form.
#[derive(Debug)]
pub struct Record {
    pub name: Name,
    pub rtype: u16,
    pub class: u16,
    pub ttl: u32,
    pub rdata: Vec<u8>,
}

/// The EDNS pseudo-record; `options` is its RDATA.
#[derive(Debug)]
pub struct Edns {
    pub max_payload: u16,
    pub version: u8,
    pub flags: u16,
    pub options: Vec<u8>,
}

/// A DNS message.
#[derive(Debug)]
pub struct Message {
    pub header: Header,
    pub queries: Vec<Query>,
    pub answers: Vec<Record>,
    pub authorities: Vec<Record>,
    pub additionals: Vec<Record>,
    pub edns: Option<Edns>,
    /// The record that signs the message as a whole (TSIG).
    pub signature: Option<Record>,
}

/// The value of a [`Query`].
#[verifier::ext_equal]
pub ghost struct QueryV {
    pub name: Labels,
    pub qtype: u16,
    pub qclass: u16,
}

/// The value of a [`Record`].
#[verifier::ext_equal]
pub ghost struct RecordV {
    pub name: Labels,
    pub rtype: u16,
    pub class: u16,
    pub ttl: u32,
    pub rdata: Seq<u8>,
}

/// The value of an [`Edns`].
#[verifier::ext_equal]
pub ghost struct EdnsV {
    pub max_payload: u16,
    pub version: u8,
    pub flags: u16,
    pub options: Seq<u8>,
}

/// The value of a [`Message`].
#[verifier::ext_equal]
pub ghost struct MessageV {
    pub header: Header,
    pub queries: Seq<QueryV>,
    pub answers: Seq<RecordV>,
    pub authorities: Seq<RecordV>,
    pub additionals: Seq<RecordV>,
    pub edns: Option<EdnsV>,
    pub signature: Option<RecordV>,
}

impl View for Query {
    type V = QueryV;

    open spec fn view(&self) -> QueryV {
        QueryV { name: self.name@, qtype: self.qtype, qclass: self.qclass }
    }
}

impl View for Record {
    type V = RecordV;

    open spec fn view(&self) -> RecordV {
        RecordV {
            name: self.name@,
            rtype: self.rtype,
            class: self.class,
            ttl: self.ttl,
            rdata: self.rdata@,
        }
    }
}

impl View for Edns {
    type V = EdnsV;

    open spec fn view(&self) -> EdnsV {
        EdnsV {
            max_payload: self.max_payload,
            version: self.version,
            flags: self.flags,
            options: self.options@,
        }
    }
}

/// The values of a list of questions.
pub open spec fn queries_v(s: Seq<Query>) -> Seq<QueryV> {
    Seq::new(s.len(), |i: int| s[i]@)
}

/// The values of a list of records.
pub open spec fn records_v(s: Seq<Record>) -> Seq<RecordV> {
    Seq::new(s.len(), |i: int| s[i]@)
}

/// The value of an optional EDNS record.
pub open spec fn edns_v(e: Option<Edns>) -> Option<EdnsV> {
    match e {
        Some(e) => Some(e@),
        None => None,
    }
}

/// The value of an optional record.
pub open spec fn record_v(r: Option<Record>) -> Option<RecordV> {
    match r {
        Some(r) => Some(r@),
        None => None,
    }
}

/// The values of a list of byte strings.
pub open spec fn byte_strings(s: Seq<Vec<u8>>) -> Seq<Seq<u8>> {
    Seq::new(s.len(), |i: int| s[i]@)
}

impl View for Message {
    type V = MessageV;

    open spec fn view(&self) -> MessageV {
        MessageV {
            header: self.header,
            queries: queries_v(self.queries@),
            answers: records_v(self.answers@),
            authorities: records_v(self.authorities@),
            additionals: records_v(self.additionals@),
            edns: edns_v(self.edns),
            signature: record_v(self.signature),
        }
    }
}

impl Clone for Query {
    fn clone(&self) -> (r: Query)
        ensures
            r@ == self@,
    {
        Query { name: self.name.clone(), qtype: self.qtype, qclass: self.qclass }
    }
}

impl Clone for Record {
    fn clone(&self) -> (r: Record)
        ensures
            r@ == self@,
    {
        Record {
            name: self.name.clone(),
            rtype: self.rtype,
            class: self.class,
            ttl: self.ttl,
            rdata: crate::bytes::copy_bytes(self.rdata.as_slice()),
        }
    }
}

impl Clone for Edns {
    fn clone(&self) -> (r: Edns)
        ensures
            r@ == self@,
    {
        Edns {
            max_payload: self.max_payload,
            version: self.version,
            flags: self.flags,
            options: crate::bytes::copy_bytes(self.options.as_slice()),
        }
    }
}

/// A copy of a list of questions.
pub fn clone_queries(s: &Vec<Query>) -> (r: Vec<Query>)
    ensures
        queries_v(r@) == queries_v(s@),
{
    let mut out: Vec<Query> = Vec::new();
    let mut i: usize = 0;
    while i < s.len()
        invariant
            i <= s@.len(),
            out@.len() == i,
            forall|j: int| 0 <= j < i ==> (#[trigger] out@[j])@ == s@[j]@,
        decreases s@.len() - i,
    {
        out.push(s[i].clone());
        i += 1;
    }
    assert(queries_v(out@) =~= queries_v(s@));
    out
}

/// A copy of a list of records.
pub fn clone_records(s: &Vec<Record>) -> (r: Vec<Record>)
    ensures
        records_v(r@) == records_v(s@),
        r@.len() == s@.len(),
{
    let mut out: Vec<Record> = Vec::new();
    let mut i: usize = 0;
    while i < s.len()
        invariant
            i <= s@.len(),
            out@.len() == i,
            forall|j: int| 0 <= j < i ==> (#[trigger] out@[j])@ == s@[j]@,
        decreases s@.len() - i,
    {
        out.push(s[i].clone());
        i += 1;
    }
    assert(records_v(out@) =~= records_v(s@));
    out
}

impl Clone for Message {
    fn clone(&self) -> (r: Message)
        ensures
            r@ == self@,
    {
        let edns = match &self.edns {
            Some(e) => Some(e.clone()),
            None => None,
        };
        let signature = match &self.signature {
            Some(r) => Some(r.clone()),
            None => None,
        };
        Message {
            header: self.header,
            queries: clone_queries(&self.queries),
            answers: clone_records(&self.answers),
            authorities: clone_records(&self.authorities),
            additionals: clone_records(&self.additionals),
            edns,
            signature,
        }
    }
}

} // verus!
