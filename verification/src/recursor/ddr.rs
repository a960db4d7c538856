//! Discovery of designated resolvers (RFC 9462): by which encrypted protocols this
//! resolver can be reached.

use crate::bytes::{be16_bytes, push_all, push_be16};
use crate::codec::{name_ok, name_wire, write_name};
use crate::name::{same_name, Labels, Name};
use crate::net::{be_bytes, write_be, IpAddr};
use crate::plain_names::{dotted, is_name};
use crate::recursor::dns64::{synthetic_header, synthetic_reply};
use crate::recursor::forwarder::{private_v4, top16};
use crate::recursor::reply::bare;
use crate::wire::{
    records_v, Message, MessageV, Record, RecordV, CLASS_IN, RCODE_NOERROR, TYPE_SVCB,
};
use vstd::prelude::*;
use vstd::utf8::encode_utf8;

verus! {

/// TTL of the records, in seconds.
pub const DDR_TTL: u32 = 7_200;

/// Service parameter keys (RFC 9460, RFC 9461).
pub const KEY_ALPN: u16 = 1;

pub const KEY_PORT: u16 = 3;

pub const KEY_IPV4HINT: u16 = 4;

pub const KEY_IPV6HINT: u16 = 6;

pub const KEY_DOHPATH: u16 = 7;

/// The port of DNS over TLS.
pub const DOT_PORT: u16 = 853;

/// A service parameter.
#[derive(Debug)]
pub struct SvcParam {
    pub key: u16,
    pub value: Vec<u8>,
}

/// A service binding.
#[derive(Debug)]
pub struct Svcb {
    pub priority: u16,
    pub target: Name,
    pub params: Vec<SvcParam>,
}

/// The value of a [`Svcb`].
#[verifier::ext_equal]
pub ghost struct SvcbV {
    pub priority: u16,
    pub target: Labels,
    pub params: Seq<(u16, Seq<u8>)>,
}

/// The values of a list of parameters.
pub open spec fn params_v(s: Seq<SvcParam>) -> Seq<(u16, Seq<u8>)> {
    Seq::new(s.len(), |i: int| (s[i].key, s[i].value@))
}

impl View for Svcb {
    type V = SvcbV;

    open spec fn view(&self) -> SvcbV {
        SvcbV {
            priority: self.priority,
            target: self.target@,
            params: params_v(self.params@),
        }
    }
}

/// The values of a list of bindings.
pub open spec fn svcbs_v(s: Seq<Svcb>) -> Seq<SvcbV> {
    Seq::new(s.len(), |i: int| s[i]@)
}

/// Wire form of parameters.
pub open spec fn params_wire(p: Seq<(u16, Seq<u8>)>) -> Seq<u8>
    decreases p.len(),
{
    if p.len() == 0 {
        Seq::empty()
    } else {
        params_wire(p.drop_last()) + be16_bytes(p.last().0) + be16_bytes(p.last().1.len() as u16)
            + p.last().1
    }
}

/// Wire form of a binding.
pub open spec fn svcb_wire(s: SvcbV) -> Seq<u8> {
    be16_bytes(s.priority) + name_wire(s.target) + params_wire(s.params)
}

/// A binding that has a wire form.
pub open spec fn svcb_ok(s: SvcbV) -> bool {
    name_ok(s.target) && forall|i: int|
        0 <= i < s.params.len() ==> (#[trigger] s.params[i]).1.len() <= 0xffff
}

/// Every binding has a wire form.
pub open spec fn svcbs_ok(s: Seq<SvcbV>) -> bool {
    forall|i: int| 0 <= i < s.len() ==> svcb_ok(#[trigger] s[i])
}

/// The question is about this resolver.
pub open spec fn asks_for_resolver(qname: Labels) -> bool {
    same_name(qname, dotted("_dns.resolver.arpa."@))
}

/// Whether the question is about this resolver.
pub fn is_ddr_question(qname: &Name) -> (r: bool)
    ensures
        r == asks_for_resolver(qname@),
{
    is_name(qname, "_dns.resolver.arpa.")
}

/// The address can be reached from anywhere, and a certificate can name it.
pub open spec fn is_global(ip: IpAddr) -> bool {
    match ip {
        IpAddr::V4(a) => {
            &&& !private_v4(a)
            &&& a / 0x100_0000 != 127
            &&& a / 0x1_0000 != 0xa9fe
            &&& a != 0
            &&& a != 0xffff_ffff
            &&& a / 0x100 != 0xc0_0002
            &&& a / 0x100 != 0xc6_3364
            &&& a / 0x100 != 0xcb_0071
        },
        IpAddr::V6(a) => {
            &&& a > 1
            &&& top16(a) / 0x200 != 0x7e
            &&& top16(a) / 0x40 != 0x3fa
        },
    }
}

/// Whether the address can be reached from anywhere.
pub fn is_global_scope(ip: IpAddr) -> (r: bool)
    ensures
        r == is_global(ip),
{
    match ip {
        IpAddr::V4(a) => {
            let private: bool = a / 0x100_0000 == 10 || a / 0x10_0000 == 0xac1 || a / 0x1_0000
                == 0xc0a8;
            !private && a / 0x100_0000 != 127 && a / 0x1_0000 != 0xa9fe && a != 0 && a
                != 0xffff_ffff && a / 0x100 != 0xc0_0002 && a / 0x100 != 0xc6_3364 && a / 0x100
                != 0xcb_0071
        },
        IpAddr::V6(a) => {
            let top: u128 = a / 0x1_0000_0000_0000_0000_0000_0000_0000;
            a > 1 && top / 0x200 != 0x7e && top / 0x40 != 0x3fa
        },
    }
}

/// The bytes of the global IPv4 addresses of a list, in order.
pub open spec fn v4_hint(s: Seq<IpAddr>) -> Seq<u8>
    decreases s.len(),
{
    if s.len() == 0 {
        Seq::empty()
    } else {
        let rest = v4_hint(s.drop_last());
        match s.last() {
            IpAddr::V4(a) if is_global(s.last()) => rest + be_bytes(a as nat, 4),
            _ => rest,
        }
    }
}

/// The bytes of the global IPv6 addresses of a list, in order.
pub open spec fn v6_hint(s: Seq<IpAddr>) -> Seq<u8>
    decreases s.len(),
{
    if s.len() == 0 {
        Seq::empty()
    } else {
        let rest = v6_hint(s.drop_last());
        match s.last() {
            IpAddr::V6(a) if is_global(s.last()) => rest + be_bytes(a as nat, 16),
            _ => rest,
        }
    }
}

/// The bytes of the global addresses of a list, by family.
pub fn split_global_hints(addrs: &Vec<IpAddr>) -> (r: (Vec<u8>, Vec<u8>))
    ensures
        r.0@ == v4_hint(addrs@),
        r.1@ == v6_hint(addrs@),
{
    let mut v4: Vec<u8> = Vec::new();
    let mut v6: Vec<u8> = Vec::new();
    let mut i: usize = 0;
    while i < addrs.len()
        invariant
            i <= addrs@.len(),
            v4@ == v4_hint(addrs@.subrange(0, i as int)),
            v6@ == v6_hint(addrs@.subrange(0, i as int)),
        decreases addrs@.len() - i,
    {
        proof {
            assert(addrs@.subrange(0, i + 1).drop_last() =~= addrs@.subrange(0, i as int));
        }
        let ip: IpAddr = addrs[i];
        if is_global_scope(ip) {
            match ip {
                IpAddr::V4(a) => push_all(&mut v4, write_be(a as u128, 4).as_slice()),
                IpAddr::V6(a) => push_all(&mut v6, write_be(a, 16).as_slice()),
            }
        }
        i += 1;
    }
    assert(addrs@.subrange(0, addrs@.len() as int) =~= addrs@);
    (v4, v6)
}

/// The parameter for the value, where there is one.
pub open spec fn hint_param(key: u16, value: Seq<u8>) -> Seq<(u16, Seq<u8>)> {
    if value.len() == 0 {
        Seq::empty()
    } else {
        seq![(key, value)]
    }
}

/// The value of the protocol parameter: one name with its length in front.
pub open spec fn alpn_value(proto: Seq<char>) -> Seq<u8> {
    seq![encode_utf8(proto).len() as u8] + encode_utf8(proto)
}

/// The parameters of a binding for DNS over TLS.
pub open spec fn dot_params(addrs: Seq<IpAddr>) -> Seq<(u16, Seq<u8>)> {
    seq![(KEY_ALPN, alpn_value("dot"@)), (KEY_PORT, be16_bytes(DOT_PORT))] + hint_param(
        KEY_IPV4HINT,
        v4_hint(addrs),
    ) + hint_param(KEY_IPV6HINT, v6_hint(addrs))
}

/// The parameters of a binding for DNS over HTTPS.
pub open spec fn doh_params(addrs: Seq<IpAddr>) -> Seq<(u16, Seq<u8>)> {
    seq![(KEY_ALPN, alpn_value("h2"@))] + hint_param(KEY_IPV4HINT, v4_hint(addrs)) + hint_param(
        KEY_IPV6HINT,
        v6_hint(addrs),
    ) + seq![(KEY_DOHPATH, encode_utf8("/dns-query{?dns}"@))]
}

/// Some address of the list is global.
pub open spec fn any_global(addrs: Seq<IpAddr>) -> bool {
    v4_hint(addrs).len() > 0 || v6_hint(addrs).len() > 0
}

/// The bindings of this resolver: one for each encrypted protocol that has a global
/// address.
pub open spec fn ddr_records(target: Labels, dot: Seq<IpAddr>, doh: Seq<IpAddr>) -> Seq<SvcbV> {
    (if any_global(dot) {
        seq![SvcbV { priority: 1, target, params: dot_params(dot) }]
    } else {
        Seq::empty()
    }) + (if any_global(doh) {
        seq![SvcbV { priority: 2, target, params: doh_params(doh) }]
    } else {
        Seq::empty()
    })
}

fn make_alpn(proto: &str) -> (r: SvcParam)
    requires
        encode_utf8(proto@).len() <= 255,
    ensures
        (r.key, r.value@) == (KEY_ALPN, alpn_value(proto@)),
{
    let b: &[u8] = proto.as_bytes();
    let mut value: Vec<u8> = Vec::new();
    value.push(b.len() as u8);
    push_all(&mut value, b);
    assert(value@ =~= alpn_value(proto@));
    SvcParam { key: KEY_ALPN, value }
}

fn push_param(params: &mut Vec<SvcParam>, key: u16, value: Vec<u8>)
    ensures
        params_v(final(params)@) == params_v(old(params)@) + hint_param(key, value@),
{
    let ghost had = params_v(params@);
    if value.len() > 0 {
        let p = SvcParam { key, value };
        params.push(p);
        assert(params_v(params@) =~= had + seq![(key, value@)]);
    } else {
        assert(had + Seq::<(u16, Seq<u8>)>::empty() =~= had);
    }
}

proof fn lemma_short_ascii(s: Seq<char>)
    requires
        s == "dot"@ || s == "h2"@ || s == "/dns-query{?dns}"@,
    ensures
        0 < encode_utf8(s).len() <= 16,
{
    reveal_strlit("dot");
    reveal_strlit("h2");
    reveal_strlit("/dns-query{?dns}");
    vstd::utf8::is_ascii_chars_encode_utf8(s);
}

/// The bindings of this resolver.
pub fn build_ddr_records(
    resolver_name: &Name,
    dot_addrs: &Vec<IpAddr>,
    doh_addrs: &Vec<IpAddr>,
) -> (r: Vec<Svcb>)
    ensures
        svcbs_v(r@) == ddr_records(resolver_name@, dot_addrs@, doh_addrs@),
{
    let mut out: Vec<Svcb> = Vec::new();
    assert(svcbs_v(out@) =~= Seq::empty());
    let (v4, v6) = split_global_hints(dot_addrs);
    if v4.len() > 0 || v6.len() > 0 {
        proof {
            lemma_short_ascii("dot"@);
        }
        let mut params: Vec<SvcParam> = Vec::new();
        params.push(make_alpn("dot"));
        let mut port: Vec<u8> = Vec::new();
        push_be16(&mut port, DOT_PORT);
        assert(port@ =~= be16_bytes(DOT_PORT));
        params.push(SvcParam { key: KEY_PORT, value: port });
        assert(params_v(params@) =~= seq![
            (KEY_ALPN, alpn_value("dot"@)),
            (KEY_PORT, be16_bytes(DOT_PORT)),
        ]);
        push_param(&mut params, KEY_IPV4HINT, v4);
        push_param(&mut params, KEY_IPV6HINT, v6);
        let s = Svcb { priority: 1, target: resolver_name.clone(), params };
        out.push(s);
        assert(svcbs_v(out@) =~= seq![
            SvcbV { priority: 1, target: resolver_name@, params: dot_params(dot_addrs@) },
        ]);
    }
    let ghost first = svcbs_v(out@);
    let (w4, w6) = split_global_hints(doh_addrs);
    if w4.len() > 0 || w6.len() > 0 {
        proof {
            lemma_short_ascii("h2"@);
            lemma_short_ascii("/dns-query{?dns}"@);
        }
        let mut params: Vec<SvcParam> = Vec::new();
        params.push(make_alpn("h2"));
        assert(params_v(params@) =~= seq![(KEY_ALPN, alpn_value("h2"@))]);
        push_param(&mut params, KEY_IPV4HINT, w4);
        push_param(&mut params, KEY_IPV6HINT, w6);
        let path = crate::bytes::copy_bytes("/dns-query{?dns}".as_bytes());
        push_param(&mut params, KEY_DOHPATH, path);
        let s = Svcb { priority: 2, target: resolver_name.clone(), params };
        out.push(s);
        assert(svcbs_v(out@) =~= first.push(
            SvcbV { priority: 2, target: resolver_name@, params: doh_params(doh_addrs@) },
        ));
    }
    assert(svcbs_v(out@) =~= ddr_records(resolver_name@, dot_addrs@, doh_addrs@));
    out
}

/// The wire form of a binding.
pub fn svcb_bytes(s: &Svcb) -> (r: Vec<u8>)
    requires
        svcb_ok(s@),
    ensures
        r@ == svcb_wire(s@),
{
    let mut out: Vec<u8> = Vec::new();
    push_be16(&mut out, s.priority);
    write_name(&mut out, &s.target);
    let ghost head = out@;
    assert(head =~= be16_bytes(s.priority) + name_wire(s.target@));
    let ghost v = params_v(s.params@);
    let mut i: usize = 0;
    assert(head + params_wire(v.subrange(0, 0)) =~= head);
    while i < s.params.len()
        invariant
            i <= s.params@.len(),
            svcb_ok(s@),
            v == params_v(s.params@),
            out@ == head + params_wire(v.subrange(0, i as int)),
        decreases s.params@.len() - i,
    {
        let p: &SvcParam = &s.params[i];
        let ghost before = out@;
        proof {
            assert(v.subrange(0, i + 1).drop_last() =~= v.subrange(0, i as int));
            assert(v.subrange(0, i + 1).last() == (p.key, p.value@));
            assert(s@.params[i as int].1.len() <= 0xffff);
        }
        push_be16(&mut out, p.key);
        push_be16(&mut out, p.value.len() as u16);
        push_all(&mut out, p.value.as_slice());
        assert(out@ =~= head + params_wire(v.subrange(0, i + 1)));
        i += 1;
    }
    assert(v.subrange(0, v.len() as int) =~= v);
    out
}

/// The answers to a question about this resolver: bindings, where those were asked for.
pub open spec fn ddr_answers(qname: Labels, qtype: u16, s: Seq<SvcbV>) -> Seq<RecordV> {
    if qtype == TYPE_SVCB {
        Seq::new(
            s.len(),
            |i: int|
                RecordV {
                    name: qname,
                    rtype: TYPE_SVCB,
                    class: CLASS_IN,
                    ttl: DDR_TTL,
                    rdata: svcb_wire(s[i]),
                },
        )
    } else {
        Seq::empty()
    }
}

/// The reply to a question about this resolver.
pub open spec fn ddr_reply(query: MessageV, s: Seq<SvcbV>) -> MessageV {
    MessageV {
        answers: ddr_answers(query.queries[0].name, query.queries[0].qtype, s),
        ..bare(synthetic_header(query, RCODE_NOERROR), query.queries)
    }
}

/// The reply to a question about this resolver.
pub fn synth_response(original_query: &Message, svcbs: &Vec<Svcb>) -> (r: Message)
    requires
        original_query@.queries.len() > 0,
        svcbs_ok(svcbs_v(svcbs@)),
    ensures
        r@ == ddr_reply(original_query@, svcbs_v(svcbs@)),
{
    let qname: &Name = &original_query.queries[0].name;
    let qtype: u16 = original_query.queries[0].qtype;
    assert(original_query@.queries[0] == original_query.queries@[0]@);
    let ghost v = svcbs_v(svcbs@);
    let mut answers: Vec<Record> = Vec::new();
    if qtype == TYPE_SVCB {
        let mut i: usize = 0;
        while i < svcbs.len()
            invariant
                i <= svcbs@.len(),
                qtype == TYPE_SVCB,
                v == svcbs_v(svcbs@),
                svcbs_ok(v),
                answers@.len() == i,
                forall|j: int|
                    0 <= j < i ==> (#[trigger] answers@[j])@ == ddr_answers(qname@, qtype, v)[j],
            decreases svcbs@.len() - i,
        {
            assert(v[i as int] == svcbs@[i as int]@);
            let rec = Record {
                name: qname.clone(),
                rtype: TYPE_SVCB,
                class: CLASS_IN,
                ttl: DDR_TTL,
                rdata: svcb_bytes(&svcbs[i]),
            };
            answers.push(rec);
            i += 1;
        }
    }
    assert(records_v(answers@) =~= ddr_answers(qname@, qtype, v));
    let mut resp = synthetic_reply(original_query, RCODE_NOERROR);
    resp.answers = answers;
    resp
}

/// Keys in strictly increasing order, as RFC 9460 asks of the wire form.
pub open spec fn keys_ascend(p: Seq<(u16, Seq<u8>)>) -> bool {
    forall|i: int, j: int| 0 <= i < j < p.len() ==> (#[trigger] p[i]).0 < (#[trigger] p[j]).0
}

/// The parameters of every binding are in ascending order of their keys.
pub proof fn law_svc_params_ascend(addrs: Seq<IpAddr>)
    ensures
        keys_ascend(dot_params(addrs)),
        keys_ascend(doh_params(addrs)),
{
}

/// The hints of a binding are the octets of every address of the family that can be reached
/// from anywhere, in order.
pub proof fn law_every_global_address_is_hinted(s: Seq<IpAddr>, ip: IpAddr)
    ensures
        v4_hint(Seq::empty()) == Seq::<u8>::empty(),
        v6_hint(Seq::empty()) == Seq::<u8>::empty(),
        match ip {
            IpAddr::V4(a) => {
                &&& v4_hint(s.push(ip)) == (if is_global(ip) {
                    v4_hint(s) + be_bytes(a as nat, 4)
                } else {
                    v4_hint(s)
                })
                &&& v6_hint(s.push(ip)) == v6_hint(s)
            },
            IpAddr::V6(a) => {
                &&& v6_hint(s.push(ip)) == (if is_global(ip) {
                    v6_hint(s) + be_bytes(a as nat, 16)
                } else {
                    v6_hint(s)
                })
                &&& v4_hint(s.push(ip)) == v4_hint(s)
            },
        },
{
    assert(s.push(ip).drop_last() =~= s);
    assert(s.push(ip).last() == ip);
}

/// An address can be reached from anywhere unless it is private, loopback, link-local, none,
/// broadcast, for documentation, or unique-local.
pub proof fn law_global_addresses(a: u32, b: u128)
    ensures
        is_global(IpAddr::V4(a)) <==> {
            &&& a != 0
            &&& a != 0xffff_ffff
            &&& !(0x7f00_0000 <= a <= 0x7fff_ffff)
            &&& !(0xa9fe_0000 <= a <= 0xa9fe_ffff)
            &&& !(0x0a00_0000 <= a <= 0x0aff_ffff)
            &&& !(0xac10_0000 <= a <= 0xac1f_ffff)
            &&& !(0xc0a8_0000 <= a <= 0xc0a8_ffff)
            &&& !(0xc000_0200 <= a <= 0xc000_02ff)
            &&& !(0xc633_6400 <= a <= 0xc633_64ff)
            &&& !(0xcb00_7100 <= a <= 0xcb00_71ff)
        },
        is_global(IpAddr::V6(b)) <==> {
            &&& b > 1
            &&& !(0xfe80_0000_0000_0000_0000_0000_0000_0000 <= b
                <= 0xfebf_ffff_ffff_ffff_ffff_ffff_ffff_ffff)
            &&& !(0xfc00_0000_0000_0000_0000_0000_0000_0000 <= b
                <= 0xfdff_ffff_ffff_ffff_ffff_ffff_ffff_ffff)
        },
{
}

/// Each encrypted transport that has an address to be reached from anywhere is announced:
/// DNS over TLS first, on its port, then DNS over HTTPS, with the path of its resource; each
/// under the resolver's name and with the hints of its own addresses.
pub proof fn law_transports_are_announced(target: Labels, dot: Seq<IpAddr>, doh: Seq<IpAddr>)
    ensures
        ({
            let r = ddr_records(target, dot, doh);
            let d = v4_hint(dot).len() > 0 || v6_hint(dot).len() > 0;
            let h = v4_hint(doh).len() > 0 || v6_hint(doh).len() > 0;
            let first = SvcbV { priority: 1, target, params: dot_params(dot) };
            let second = SvcbV { priority: 2, target, params: doh_params(doh) };
            &&& d && h ==> r == seq![first, second]
            &&& d && !h ==> r == seq![first]
            &&& !d && h ==> r == seq![second]
            &&& !d && !h ==> r.len() == 0
            &&& dot_params(dot).len() >= 2
            &&& dot_params(dot)[0] == (1u16, alpn_value("dot"@))
            &&& dot_params(dot)[1] == (3u16, be16_bytes(853))
            &&& v4_hint(dot).len() > 0 ==> dot_params(dot)[2] == (4u16, v4_hint(dot))
            &&& v6_hint(dot).len() > 0 ==> dot_params(dot).last() == (6u16, v6_hint(dot))
            &&& doh_params(doh)[0] == (1u16, alpn_value("h2"@))
            &&& doh_params(doh).last() == (7u16, encode_utf8("/dns-query{?dns}"@))
            &&& v4_hint(doh).len() > 0 ==> doh_params(doh)[1] == (4u16, v4_hint(doh))
            &&& v6_hint(doh).len() > 0 ==> doh_params(doh)[doh_params(doh).len() - 2] == (
                6u16,
                v6_hint(doh),
            )
        }),
{
    let r = ddr_records(target, dot, doh);
    let first = SvcbV { priority: 1, target, params: dot_params(dot) };
    let second = SvcbV { priority: 2, target, params: doh_params(doh) };
    let d = any_global(dot);
    let h = any_global(doh);
    if d && h {
        assert(r =~= seq![first, second]);
    } else if d {
        assert(r =~= seq![first]);
    } else if h {
        assert(r =~= seq![second]);
    }
}

/// The reply to a question for the resolver has every announced transport where service
/// bindings are asked for, each as one record under the question's name, and otherwise no
/// records; it echoes the question, succeeds, and claims no authenticity.
pub proof fn law_resolver_questions_are_answered(query: MessageV, s: Seq<SvcbV>)
    requires
        query.queries.len() > 0,
    ensures
        ({
            let r = ddr_reply(query, s);
            &&& r.header.rcode == RCODE_NOERROR
            &&& r.header.response
            &&& r.header.id == query.header.id
            &&& r.header.recursion_desired == query.header.recursion_desired
            &&& !r.header.authentic_data
            &&& r.queries == query.queries
            &&& query.queries[0].qtype != TYPE_SVCB ==> r.answers.len() == 0
            &&& query.queries[0].qtype == TYPE_SVCB ==> r.answers.len() == s.len() && forall|i: int|
                0 <= i < s.len() ==> (#[trigger] r.answers[i]).name == query.queries[0].name
                    && r.answers[i].rtype == TYPE_SVCB && r.answers[i].class == CLASS_IN
                    && r.answers[i].rdata == be16_bytes(s[i].priority) + name_wire(s[i].target)
                    + params_wire(s[i].params)
        }),
{
}

/// Parameters are written one behind the other, each as its number, the length of its value,
/// and the value.
pub proof fn law_parameters_are_written_in_order(p: Seq<(u16, Seq<u8>)>, key: u16, value: Seq<u8>)
    ensures
        params_wire(Seq::empty()) == Seq::<u8>::empty(),
        params_wire(p.push((key, value))) == params_wire(p) + be16_bytes(key) + be16_bytes(
            value.len() as u16,
        ) + value,
{
    assert(p.push((key, value)).drop_last() =~= p);
}

} // verus!
