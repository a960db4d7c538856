//! DNS64 (RFC 6147): IPv6 addresses for hosts that have only IPv4 ones, embedded under a
//! prefix as RFC 6052 lays down.

use crate::name::{in_zone, lower, Labels, Name};
use crate::names::ascii_name;
use crate::net::{
    be_bytes, be_nat, lemma_be_nat_bound, lemma_be_roundtrip, lemma_be_unique,
    lemma_pow256_values, pow2, pow256, read_be, same_prefix, write_be, IpAddr, IpNet,
};
use crate::plain_names::{dotted, name_of};
use crate::recursor::iterative::addr_in;
use crate::recursor::reply::{bare, new_header, new_message, plain_header};
use crate::recursor::walk::names_v;
use crate::wire::{
    clone_queries, records_v, Header, Message, MessageV, Record, RecordV, CLASS_IN, OPCODE_QUERY,
    RCODE_NOERROR, RCODE_NXDOMAIN, TYPE_A, TYPE_AAAA, TYPE_PTR,
};
use vstd::prelude::*;

verus! {

/// The well-known prefix 64:ff9b::/96.
pub const WELL_KNOWN_ADDR: u128 = 0x0064_ff9b_0000_0000_0000_0000_0000_0000;

pub const WELL_KNOWN_LEN: u8 = 96;

/// An IPv6 prefix.
#[derive(Debug, Clone, Copy, PartialEq, Eq, Structural)]
pub struct Prefix {
    pub addr: u128,
    pub len: u8,
}

/// How DNS64 is configured.
#[derive(Debug)]
pub struct Dns64 {
    pub prefix: Option<String>,
    pub exclusions: Vec<String>,
}

/// Under which prefix addresses are made, and for which names they are not.
#[derive(Debug)]
pub struct Dns64Policy {
    pub prefix: Prefix,
    pub exclusions: Vec<Name>,
}

/// Why a DNS64 configuration was turned down.
#[derive(Debug, Clone, Copy, PartialEq, Eq, Structural)]
pub enum Dns64Error {
    BadPrefix,
    BadPrefixLength,
    BadExclusion,
}

/// What the `ipnet` crate reads from an IPv6 network in text form: address and prefix
/// length.
pub uninterp spec fn v6_net_text(s: Seq<char>) -> Option<(u128, u8)>;

/// The `FromStr` of `ipnet::Ipv6Net`, its address (host bits kept) and prefix length.
/// The result depends on the text alone.
#[verifier::external_body]
fn parse_v6_net(s: &str) -> (r: Option<(u128, u8)>)
    ensures
        r == v6_net_text(s@),
{
    let n = s.parse::<ipnet::Ipv6Net>().ok()?;
    Some((n.addr().into(), n.prefix_len()))
}

/// The prefix lengths that RFC 6052 defines.
pub open spec fn is_valid_length(len: u8) -> bool {
    len == 32 || len == 40 || len == 48 || len == 56 || len == 64 || len == 96
}

/// Whether RFC 6052 defines an embedding for the prefix length.
pub fn valid_prefix_length(len: u8) -> (r: bool)
    ensures
        r == is_valid_length(len),
{
    len == 32 || len == 40 || len == 48 || len == 56 || len == 64 || len == 96
}

/// Where byte `j` of the IPv4 address stands in the IPv6 address: behind the prefix,
/// byte 8 left out.
pub open spec fn v4_position(len: u8, j: int) -> int {
    let p = len as int / 8 + j;
    if len != 96 && p >= 8 {
        p + 1
    } else {
        p
    }
}

/// The bytes of the IPv6 address that an IPv4 address becomes.
pub open spec fn embedded(prefix: Seq<u8>, len: u8, v4: Seq<u8>) -> Seq<u8> {
    Seq::new(
        16,
        |i: int|
            if i == v4_position(len, 0) {
                v4[0]
            } else if i == v4_position(len, 1) {
                v4[1]
            } else if i == v4_position(len, 2) {
                v4[2]
            } else if i == v4_position(len, 3) {
                v4[3]
            } else if i == 8 && 40 <= len <= 64 {
                0
            } else {
                prefix[i]
            },
    )
}

/// The IPv6 address that an IPv4 address becomes.
pub open spec fn embed(p: Prefix, v4: u32) -> u128 {
    be_nat(embedded(be_bytes(p.addr as nat, 16), p.len, be_bytes(v4 as nat, 4))) as u128
}

/// The address lies under the prefix.
pub open spec fn under_prefix(p: Prefix, addr: u128) -> bool {
    same_prefix(p.addr as nat, addr as nat, p.len as nat, 128)
}

/// The bytes of the IPv4 address in an IPv6 address.
pub open spec fn extracted(len: u8, b: Seq<u8>) -> Seq<u8> {
    seq![
        b[v4_position(len, 0)],
        b[v4_position(len, 1)],
        b[v4_position(len, 2)],
        b[v4_position(len, 3)],
    ]
}

/// The IPv4 address in an IPv6 address under the prefix.
pub open spec fn extract(p: Prefix, addr: u128) -> Option<u32> {
    if under_prefix(p, addr) && is_valid_length(p.len) {
        Some(be_nat(extracted(p.len, be_bytes(addr as nat, 16))) as u32)
    } else {
        None
    }
}

/// The IPv6 address that an IPv4 address becomes.
pub fn embed_v4(prefix: &Prefix, v4: u32) -> (r: u128)
    requires
        is_valid_length(prefix.len),
    ensures
        r == embed(*prefix, v4),
{
    let mut b = write_be(prefix.addr, 16);
    let q = write_be(v4 as u128, 4);
    let start: usize = (prefix.len / 8) as usize;
    let ghost pb = b@;
    if 40 <= prefix.len && prefix.len <= 64 {
        b.set(8, 0);
    }
    let mut j: usize = 0;
    while j < 4
        invariant
            j <= 4,
            b@.len() == 16,
            q@.len() == 4,
            is_valid_length(prefix.len),
            start == prefix.len as int / 8,
            forall|i: int|
                0 <= i < 16 ==> #[trigger] b@[i] == (if j > 0 && i == v4_position(prefix.len, 0) {
                    q@[0]
                } else if j > 1 && i == v4_position(prefix.len, 1) {
                    q@[1]
                } else if j > 2 && i == v4_position(prefix.len, 2) {
                    q@[2]
                } else if j > 3 && i == v4_position(prefix.len, 3) {
                    q@[3]
                } else if i == 8 && 40 <= prefix.len <= 64 {
                    0
                } else {
                    pb[i]
                }),
        decreases 4 - j,
    {
        let mut p: usize = start + j;
        if prefix.len != 96 && p >= 8 {
            p = p + 1;
        }
        b.set(p, q[j]);
        j += 1;
    }
    assert(b@ =~= embedded(be_bytes(prefix.addr as nat, 16), prefix.len, be_bytes(v4 as nat, 4)));
    proof {
        lemma_be_nat_bound(b@);
        lemma_pow256_values();
    }
    read_be(b.as_slice())
}

/// The IPv4 address in an IPv6 address under the prefix.
pub fn extract_v4(prefix: &Prefix, addr: u128) -> (r: Option<u32>)
    ensures
        r == extract(*prefix, addr),
{
    let net = IpNet { addr: IpAddr::V6(prefix.addr), prefix_len: prefix.len };
    if !net.contains(IpAddr::V6(addr)) || !valid_prefix_length(prefix.len) {
        return None;
    }
    let b = write_be(addr, 16);
    let start: usize = (prefix.len / 8) as usize;
    let mut out: Vec<u8> = Vec::new();
    let mut j: usize = 0;
    while j < 4
        invariant
            j <= 4,
            b@.len() == 16,
            is_valid_length(prefix.len),
            start == prefix.len as int / 8,
            out@.len() == j,
            forall|i: int| 0 <= i < j ==> #[trigger] out@[i] == b@[v4_position(prefix.len, i)],
        decreases 4 - j,
    {
        let mut p: usize = start + j;
        if prefix.len != 96 && p >= 8 {
            p = p + 1;
        }
        out.push(b[p]);
        j += 1;
    }
    assert(out@ =~= extracted(prefix.len, b@));
    proof {
        lemma_be_nat_bound(out@);
        lemma_pow256_values();
    }
    Some(read_be(out.as_slice()) as u32)
}

proof fn lemma_pow2_of_bytes(k: nat)
    ensures
        pow2(8 * k) == pow256(k),
    decreases k,
{
    if k > 0 {
        lemma_pow2_of_bytes((k - 1) as nat);
        reveal_with_fuel(pow2, 9);
        assert(pow2(8 * k) == 256 * pow2((8 * k - 8) as nat));
    }
}

proof fn lemma_leading_bytes(b: Seq<u8>, k: nat)
    requires
        k <= b.len(),
    ensures
        be_nat(b) / pow256(k) == be_nat(b.subrange(0, b.len() - k)),
    decreases k,
{
    if k == 0 {
        assert(b.subrange(0, b.len() as int) =~= b);
        assert(pow256(0) == 1);
        assert(be_nat(b) / 1 == be_nat(b));
    } else {
        let init = b.drop_last();
        lemma_leading_bytes(init, (k - 1) as nat);
        assert(init.subrange(0, init.len() - (k - 1)) =~= b.subrange(0, b.len() - k));
        assert(be_nat(b) / 256 == be_nat(init));
        lemma_pow256_positive((k - 1) as nat);
        vstd::arithmetic::div_mod::lemma_div_denominator(
            be_nat(b) as int,
            256,
            pow256((k - 1) as nat) as int,
        );
    }
}

proof fn lemma_pow256_positive(k: nat)
    ensures
        pow256(k) > 0,
    decreases k,
{
    if k > 0 {
        lemma_pow256_positive((k - 1) as nat);
    }
}

/// What was embedded is extracted again, for every prefix length that RFC 6052 defines.
pub proof fn law_extract_undoes_embed(p: Prefix, v4: u32)
    requires
        is_valid_length(p.len),
    ensures
        under_prefix(p, embed(p, v4)),
        extract(p, embed(p, v4)) == Some(v4),
{
    let pb = be_bytes(p.addr as nat, 16);
    let q = be_bytes(v4 as nat, 4);
    let e = embedded(pb, p.len, q);
    lemma_pow256_values();
    lemma_be_roundtrip(p.addr as nat, 16);
    lemma_be_roundtrip(v4 as nat, 4);
    lemma_be_nat_bound(e);
    lemma_be_unique(e);
    assert(be_nat(e) == embed(p, v4));
    let k = (16 - p.len as int / 8) as nat;
    lemma_leading_bytes(e, k);
    lemma_leading_bytes(pb, k);
    assert(e.subrange(0, 16 - k) =~= pb.subrange(0, 16 - k));
    lemma_pow2_of_bytes(k);
    assert(8 * k == 128 - p.len);
    assert(extracted(p.len, e) =~= q);
}

/// The value of a hexadecimal digit.
pub open spec fn hex_value(b: u8) -> Option<u8> {
    if 48 <= b <= 57 {
        Some((b - 48) as u8)
    } else if 97 <= b <= 102 {
        Some((b - 87) as u8)
    } else if 65 <= b <= 70 {
        Some((b - 55) as u8)
    } else {
        None
    }
}

/// The label is one hexadecimal digit.
pub open spec fn is_nibble(l: Seq<u8>) -> bool {
    l.len() == 1 && hex_value(l[0]) is Some
}

/// The name is the reverse name of one IPv6 address: 32 digits, lowest first, under
/// ip6.arpa.
pub open spec fn is_ip6_arpa(n: Labels) -> bool {
    &&& n.len() == 34
    &&& in_zone(dotted("ip6.arpa."@), n)
    &&& forall|i: int| 0 <= i < 32 ==> is_nibble(#[trigger] n[i])
}

/// The bytes of the address that a reverse name stands for.
pub open spec fn arpa_bytes(n: Labels) -> Seq<u8> {
    Seq::new(
        16,
        |i: int|
            (hex_value(n[31 - 2 * i][0])->0 * 16 + hex_value(n[30 - 2 * i][0])->0) as u8,
    )
}

/// The address that a reverse name stands for.
pub open spec fn arpa_address(n: Labels) -> Option<u128> {
    if is_ip6_arpa(n) {
        Some(be_nat(arpa_bytes(n)) as u128)
    } else {
        None
    }
}

fn nibble(b: u8) -> (r: Option<u8>)
    ensures
        r == hex_value(b),
        r is Some ==> r->0 < 16,
{
    if 48 <= b && b <= 57 {
        Some(b - 48)
    } else if 97 <= b && b <= 102 {
        Some(b - 87)
    } else if 65 <= b && b <= 70 {
        Some(b - 55)
    } else {
        None
    }
}

fn label_nibble(l: &Vec<u8>) -> (r: Option<u8>)
    ensures
        r is Some <==> is_nibble(l@),
        r is Some ==> r == hex_value(l@[0]) && r->0 < 16,
{
    if l.len() != 1 {
        return None;
    }
    nibble(l[0])
}

/// The address that a reverse name stands for.
pub fn ip6_arpa_to_addr(name: &Name) -> (r: Option<u128>)
    ensures
        r == arpa_address(name@),
{
    if name.labels.len() != 34 || !name_of("ip6.arpa.").zone_of(name) {
        return None;
    }
    let mut b: Vec<u8> = Vec::new();
    let mut i: usize = 0;
    while i < 16
        invariant
            i <= 16,
            name.labels@.len() == 34,
            b@.len() == i,
            forall|j: int| 32 - 2 * i <= j < 32 ==> is_nibble(#[trigger] name@[j]),
            forall|j: int| 0 <= j < i ==> #[trigger] b@[j] == arpa_bytes(name@)[j],
        decreases 16 - i,
    {
        let hi = label_nibble(&name.labels[31 - 2 * i]);
        let lo = label_nibble(&name.labels[30 - 2 * i]);
        assert(name@[31 - 2 * i] == name.labels@[31 - 2 * i]@);
        assert(name@[30 - 2 * i] == name.labels@[30 - 2 * i]@);
        match (hi, lo) {
            (Some(h), Some(l)) => {
                b.push(h * 16 + l);
            },
            _ => {
                assert(!is_nibble(name@[31 - 2 * i]) || !is_nibble(name@[30 - 2 * i]));
                return None;
            },
        }
        i += 1;
    }
    assert(b@ =~= arpa_bytes(name@));
    proof {
        lemma_be_nat_bound(b@);
        lemma_pow256_values();
    }
    Some(read_be(b.as_slice()))
}

/// The decimal digits of a number, as bytes.
pub open spec fn dec_label(n: nat) -> Seq<u8>
    decreases n,
{
    if n < 10 {
        seq![(48 + n) as u8]
    } else {
        dec_label(n / 10).push((48 + n % 10) as u8)
    }
}

fn make_dec_label(n: u8) -> (r: Vec<u8>)
    ensures
        r@ == dec_label(n as nat),
    decreases n,
{
    if n < 10 {
        let mut v: Vec<u8> = Vec::new();
        v.push(48 + n);
        assert(v@ =~= dec_label(n as nat));
        v
    } else {
        let mut v = make_dec_label(n / 10);
        v.push(48 + n % 10);
        v
    }
}

/// The reverse name of an IPv4 address.
pub open spec fn v4_reverse(v4: u32) -> Labels {
    let o = be_bytes(v4 as nat, 4);
    seq![
        dec_label(o[3] as nat),
        dec_label(o[2] as nat),
        dec_label(o[1] as nat),
        dec_label(o[0] as nat),
    ] + dotted("in-addr.arpa."@)
}

/// The reverse name of an IPv4 address.
pub fn reverse_v4(v4: u32) -> (r: Name)
    ensures
        r@ == v4_reverse(v4),
{
    let o = write_be(v4 as u128, 4);
    let base = name_of("in-addr.arpa.");
    let a = base.prepend(make_dec_label(o[0]).as_slice());
    let b = a.prepend(make_dec_label(o[1]).as_slice());
    let c = b.prepend(make_dec_label(o[2]).as_slice());
    let d = c.prepend(make_dec_label(o[3]).as_slice());
    assert(d@ =~= v4_reverse(v4));
    d
}

/// The reverse name to ask for in place of that of a synthesised address.
pub open spec fn rewritten(p: Prefix, qname: Labels) -> Option<Labels> {
    match arpa_address(qname) {
        None => None,
        Some(addr) => match extract(p, addr) {
            None => None,
            Some(v4) => Some(v4_reverse(v4)),
        },
    }
}

/// The reverse name to ask for in place of that of a synthesised address.
pub fn rewrite_ptr_question(policy: &Dns64Policy, qname: &Name) -> (r: Option<Name>)
    ensures
        rewritten(policy.prefix, qname@) == (match r {
            Some(n) => Some(n@),
            None => None,
        }),
{
    match ip6_arpa_to_addr(qname) {
        None => None,
        Some(addr) => match extract_v4(&policy.prefix, addr) {
            None => None,
            Some(v4) => Some(reverse_v4(v4)),
        },
    }
}

/// The names for which no address is made: those at or below an exclusion.
pub open spec fn excluded(exclusions: Seq<Labels>, qname: Labels) -> bool {
    exists|i: int| 0 <= i < exclusions.len() && in_zone(#[trigger] exclusions[i], qname)
}

/// The exclusions that a list of texts stands for, in lower case; none where one of them
/// is no name.
pub open spec fn exclusions_of(texts: Seq<Seq<char>>) -> Option<Seq<Labels>>
    decreases texts.len(),
{
    if texts.len() == 0 {
        Some(Seq::empty())
    } else {
        match (exclusions_of(texts.drop_last()), ascii_name(texts.last())) {
            (Some(rest), Some((n, _))) => Some(rest.push(lower(n))),
            _ => None,
        }
    }
}

/// The values of a list of strings.
pub open spec fn strings_v(s: Seq<String>) -> Seq<Seq<char>> {
    Seq::new(s.len(), |i: int| s[i]@)
}

/// The prefix that is configured; the well-known one where none is.
pub open spec fn prefix_of(p: Option<Seq<char>>) -> Result<Prefix, Dns64Error> {
    match p {
        None => Ok(Prefix { addr: WELL_KNOWN_ADDR, len: WELL_KNOWN_LEN }),
        Some(s) => match v6_net_text(s) {
            None => Err(Dns64Error::BadPrefix),
            Some((addr, len)) => if is_valid_length(len) {
                Ok(Prefix { addr, len })
            } else {
                Err(Dns64Error::BadPrefixLength)
            },
        },
    }
}

/// The policy that a configuration stands for: prefix and exclusions, the built-in
/// exclusion first.
pub open spec fn policy_of(prefix: Option<Seq<char>>, exclusions: Seq<Seq<char>>) -> Result<
    (Prefix, Seq<Labels>),
    Dns64Error,
> {
    match prefix_of(prefix) {
        Err(e) => Err(e),
        Ok(p) => match exclusions_of(exclusions) {
            None => Err(Dns64Error::BadExclusion),
            Some(more) => Ok((p, seq![lower(dotted("ipv4only.arpa."@))] + more)),
        },
    }
}

impl Dns64Policy {
    /// The prefix has a length that RFC 6052 defines.
    pub open spec fn wf(&self) -> bool {
        is_valid_length(self.prefix.len)
    }

    /// The policy that a configuration stands for.
    pub fn from_config(cfg: &Dns64) -> (r: Result<Dns64Policy, Dns64Error>)
        ensures
            policy_of(
                match cfg.prefix {
                    Some(s) => Some(s@),
                    None => None,
                },
                strings_v(cfg.exclusions@),
            ) == (match r {
                Ok(p) => Ok((p.prefix, names_v(p.exclusions@))),
                Err(e) => Err(e),
            }),
            r is Ok ==> r->Ok_0.wf(),
    {
        let prefix: Prefix = match &cfg.prefix {
            None => Prefix { addr: WELL_KNOWN_ADDR, len: WELL_KNOWN_LEN },
            Some(s) => match parse_v6_net(s.as_str()) {
                None => return Err(Dns64Error::BadPrefix),
                Some((addr, len)) => {
                    if !valid_prefix_length(len) {
                        return Err(Dns64Error::BadPrefixLength);
                    }
                    Prefix { addr, len }
                },
            },
        };
        let ghost v = strings_v(cfg.exclusions@);
        let ghost first = seq![lower(dotted("ipv4only.arpa."@))];
        let mut exclusions: Vec<Name> = Vec::new();
        exclusions.push(name_of("ipv4only.arpa.").to_lowercase());
        assert(names_v(exclusions@) =~= first + Seq::<Labels>::empty());
        let mut ok: bool = true;
        let mut i: usize = 0;
        while i < cfg.exclusions.len()
            invariant
                i <= cfg.exclusions@.len(),
                v == strings_v(cfg.exclusions@),
                exclusions_of(v.subrange(0, i as int)) is Some <==> ok,
                ok ==> names_v(exclusions@) == first + exclusions_of(v.subrange(0, i as int))->0,
            decreases cfg.exclusions@.len() - i,
        {
            let ghost had = names_v(exclusions@);
            proof {
                assert(v.subrange(0, i + 1).drop_last() =~= v.subrange(0, i as int));
                assert(v.subrange(0, i + 1).last() == cfg.exclusions@[i as int]@);
            }
            match Name::from_ascii(cfg.exclusions[i].as_str()) {
                None => {
                    ok = false;
                },
                Some((n, _)) => {
                    let l = n.to_lowercase();
                    exclusions.push(l);
                    proof {
                        assert(names_v(exclusions@) =~= had.push(l@));
                        if ok {
                            assert(had.push(l@) =~= first + exclusions_of(
                                v.subrange(0, i as int),
                            )->0.push(l@));
                        }
                    }
                },
            }
            i += 1;
        }
        assert(v.subrange(0, v.len() as int) =~= v);
        if ok {
            Ok(Dns64Policy { prefix, exclusions })
        } else {
            Err(Dns64Error::BadExclusion)
        }
    }

    /// The policy with the well-known prefix and the built-in exclusion.
    pub fn default_wkp() -> (r: Dns64Policy)
        ensures
            r.wf(),
            r.prefix == (Prefix { addr: WELL_KNOWN_ADDR, len: WELL_KNOWN_LEN }),
            names_v(r.exclusions@) == seq![lower(dotted("ipv4only.arpa."@))],
    {
        let mut exclusions: Vec<Name> = Vec::new();
        exclusions.push(name_of("ipv4only.arpa.").to_lowercase());
        assert(names_v(exclusions@) =~= seq![lower(dotted("ipv4only.arpa."@))]);
        Dns64Policy {
            prefix: Prefix { addr: WELL_KNOWN_ADDR, len: WELL_KNOWN_LEN },
            exclusions,
        }
    }

    /// Whether no address is made for the name.
    pub fn is_excluded(&self, qname: &Name) -> (r: bool)
        ensures
            r == excluded(names_v(self.exclusions@), qname@),
    {
        let ghost v = names_v(self.exclusions@);
        let mut i: usize = 0;
        while i < self.exclusions.len()
            invariant
                i <= self.exclusions@.len(),
                v == names_v(self.exclusions@),
                forall|j: int| 0 <= j < i ==> !in_zone(#[trigger] v[j], qname@),
            decreases self.exclusions@.len() - i,
        {
            assert(v[i as int] == self.exclusions@[i as int]@);
            if self.exclusions[i].zone_of(qname) {
                return true;
            }
            i += 1;
        }
        false
    }
}

/// Addresses are made for this question and reply: an AAAA question on a DNS64 listener,
/// for a name that is not excluded, that got no answer.
pub open spec fn synthesis_due(
    exclusions: Option<Seq<Labels>>,
    listener_enabled: bool,
    qname: Labels,
    qtype: u16,
    resp: MessageV,
) -> bool {
    &&& listener_enabled
    &&& exclusions is Some
    &&& qtype == TYPE_AAAA
    &&& !excluded(exclusions->0, qname)
    &&& (resp.header.rcode == RCODE_NOERROR && resp.answers.len() == 0) || resp.header.rcode
        == RCODE_NXDOMAIN
}

/// Whether addresses are made for this question and reply.
pub fn should_synthesise(
    policy: Option<&Dns64Policy>,
    listener_enabled: bool,
    qname: &Name,
    qtype: u16,
    response: &Message,
) -> (r: bool)
    ensures
        r == synthesis_due(
            match policy {
                Some(p) => Some(names_v(p.exclusions@)),
                None => None,
            },
            listener_enabled,
            qname@,
            qtype,
            response@,
        ),
{
    if !listener_enabled || qtype != TYPE_AAAA {
        return false;
    }
    match policy {
        None => false,
        Some(p) => {
            if p.is_excluded(qname) {
                return false;
            }
            assert(response@.answers.len() == response.answers@.len());
            if response.header.rcode == RCODE_NOERROR {
                response.answers.len() == 0
            } else {
                response.header.rcode == RCODE_NXDOMAIN
            }
        },
    }
}

/// The AAAA records that the A records among `rs` become.
pub open spec fn synthesised_records(p: Prefix, rs: Seq<RecordV>) -> Seq<RecordV>
    decreases rs.len(),
{
    if rs.len() == 0 {
        Seq::empty()
    } else {
        let rest = synthesised_records(p, rs.drop_last());
        match addr_in(rs.last()) {
            Some(IpAddr::V4(v4)) => rest.push(
                RecordV {
                    rtype: TYPE_AAAA,
                    rdata: be_bytes(embed(p, v4) as nat, 16),
                    ..rs.last()
                },
            ),
            _ => rest,
        }
    }
}

/// The header of a reply that is made here: never authenticated.
pub open spec fn synthetic_header(query: MessageV, rcode: u16) -> Header {
    Header {
        recursion_desired: query.header.recursion_desired,
        recursion_available: true,
        rcode,
        ..plain_header(query.header.id, true, OPCODE_QUERY)
    }
}

/// The reply with AAAA records made from A records.
pub open spec fn synthesised(p: Prefix, query: MessageV, a_resp: MessageV) -> MessageV {
    MessageV {
        answers: synthesised_records(p, a_resp.answers),
        ..bare(synthetic_header(query, RCODE_NOERROR), query.queries)
    }
}

/// A reply that is made here, without answers yet.
pub fn synthetic_reply(query: &Message, rcode: u16) -> (r: Message)
    ensures
        r@ == bare(synthetic_header(query@, rcode), query@.queries),
{
    let mut h: Header = new_header(query.header.id, true, OPCODE_QUERY);
    h.recursion_desired = query.header.recursion_desired;
    h.recursion_available = true;
    h.rcode = rcode;
    new_message(h, clone_queries(&query.queries))
}

/// The reply with AAAA records made from the A records of `a_response`.
pub fn synthesise_from_a(
    policy: &Dns64Policy,
    original_query: &Message,
    a_response: &Message,
) -> (r: Message)
    requires
        policy.wf(),
    ensures
        r@ == synthesised(policy.prefix, original_query@, a_response@),
{
    let ghost v = records_v(a_response.answers@);
    let mut answers: Vec<Record> = Vec::new();
    let mut i: usize = 0;
    assert(records_v(answers@) =~= Seq::empty());
    while i < a_response.answers.len()
        invariant
            i <= a_response.answers@.len(),
            policy.wf(),
            v == records_v(a_response.answers@),
            records_v(answers@) == synthesised_records(policy.prefix, v.subrange(0, i as int)),
        decreases a_response.answers@.len() - i,
    {
        let rec: &Record = &a_response.answers[i];
        let ghost had = records_v(answers@);
        proof {
            assert(v.subrange(0, i + 1).drop_last() =~= v.subrange(0, i as int));
            assert(v.subrange(0, i + 1).last() == rec@);
        }
        if let Some(IpAddr::V4(v4)) = rec.address() {
            let n = Record {
                name: rec.name.clone(),
                rtype: TYPE_AAAA,
                class: rec.class,
                ttl: rec.ttl,
                rdata: write_be(embed_v4(&policy.prefix, v4), 16),
            };
            answers.push(n);
            assert(records_v(answers@) =~= had.push(n@));
        }
        i += 1;
    }
    assert(v.subrange(0, v.len() as int) =~= v);
    let mut resp = synthetic_reply(original_query, RCODE_NOERROR);
    resp.answers = answers;
    resp
}

/// The PTR records among `rs`, given to another owner.
pub open spec fn reowned_ptrs(owner: Labels, rs: Seq<RecordV>) -> Seq<RecordV>
    decreases rs.len(),
{
    if rs.len() == 0 {
        Seq::empty()
    } else {
        let rest = reowned_ptrs(owner, rs.drop_last());
        if rs.last().rtype == TYPE_PTR {
            rest.push(RecordV { name: owner, class: CLASS_IN, ..rs.last() })
        } else {
            rest
        }
    }
}

/// The reply to a reverse question for a synthesised address, made from that for the
/// IPv4 address.
pub open spec fn rewrapped(query: MessageV, v4_resp: MessageV) -> MessageV {
    if query.queries.len() == 0 {
        v4_resp
    } else {
        MessageV {
            answers: reowned_ptrs(query.queries[0].name, v4_resp.answers),
            ..bare(synthetic_header(query, v4_resp.header.rcode), query.queries)
        }
    }
}

/// The reply to a reverse question for a synthesised address, made from that for the
/// IPv4 address.
pub fn rewrap_ptr_response(original_query: &Message, v4_response: &Message) -> (r: Message)
    ensures
        r@ == rewrapped(original_query@, v4_response@),
{
    assert(original_query@.queries.len() == original_query.queries@.len());
    if original_query.queries.len() == 0 {
        return v4_response.clone();
    }
    let owner: &Name = &original_query.queries[0].name;
    assert(original_query@.queries[0].name == owner@);
    let ghost v = records_v(v4_response.answers@);
    let mut answers: Vec<Record> = Vec::new();
    let mut i: usize = 0;
    assert(records_v(answers@) =~= Seq::empty());
    while i < v4_response.answers.len()
        invariant
            i <= v4_response.answers@.len(),
            v == records_v(v4_response.answers@),
            records_v(answers@) == reowned_ptrs(owner@, v.subrange(0, i as int)),
        decreases v4_response.answers@.len() - i,
    {
        let rec: &Record = &v4_response.answers[i];
        let ghost had = records_v(answers@);
        proof {
            assert(v.subrange(0, i + 1).drop_last() =~= v.subrange(0, i as int));
            assert(v.subrange(0, i + 1).last() == rec@);
        }
        if rec.rtype == TYPE_PTR {
            let mut n = rec.clone();
            n.name = owner.clone();
            n.class = CLASS_IN;
            answers.push(n);
            assert(records_v(answers@) =~= had.push(n@));
        }
        i += 1;
    }
    assert(v.subrange(0, v.len() as int) =~= v);
    let mut resp = synthetic_reply(original_query, v4_response.header.rcode);
    resp.answers = answers;
    resp
}

/// What DNS64 makes is never marked as authenticated, whatever it was made from.
pub proof fn law_synthesised_replies_are_not_authenticated(
    p: Prefix,
    query: MessageV,
    resp: MessageV,
)
    requires
        query.queries.len() > 0,
    ensures
        !synthesised(p, query, resp).header.authentic_data,
        !rewrapped(query, resp).header.authentic_data,
{
}

/// A made reply has one IPv6 answer for each IPv4 address of the IPv4 reply, in the same
/// order, under the same owner, class and TTL, each the address with its IPv4 address
/// embedded in the prefix. It succeeds, and echoes the client's identifier and question.
pub proof fn law_each_address_is_mapped(p: Prefix, query: MessageV, a_resp: MessageV)
    ensures
        ({
            let r = synthesised(p, query, a_resp);
            &&& r.answers == a_resp.answers.filter(
                |x: RecordV| x.rtype == TYPE_A && x.rdata.len() == 4,
            ).map_values(
                |x: RecordV|
                    RecordV {
                        name: x.name,
                        rtype: TYPE_AAAA,
                        class: x.class,
                        ttl: x.ttl,
                        rdata: be_bytes(embed(p, be_nat(x.rdata) as u32) as nat, 16),
                    },
            )
            &&& r.header.id == query.header.id
            &&& r.header.response
            &&& r.header.rcode == RCODE_NOERROR
            &&& r.header.recursion_desired == query.header.recursion_desired
            &&& r.header.recursion_available
            &&& !r.header.authentic_data
            &&& r.queries == query.queries
            &&& r.authorities.len() == 0
            &&& r.additionals.len() == 0
        }),
{
    lemma_each_mapped(p, a_resp.answers);
}

proof fn lemma_each_mapped(p: Prefix, rs: Seq<RecordV>)
    ensures
        synthesised_records(p, rs) == rs.filter(
            |x: RecordV| x.rtype == TYPE_A && x.rdata.len() == 4,
        ).map_values(
            |x: RecordV|
                RecordV {
                    name: x.name,
                    rtype: TYPE_AAAA,
                    class: x.class,
                    ttl: x.ttl,
                    rdata: be_bytes(embed(p, be_nat(x.rdata) as u32) as nat, 16),
                },
        ),
    decreases rs.len(),
{
    let w = |x: RecordV| x.rtype == TYPE_A && x.rdata.len() == 4;
    let f = |x: RecordV|
        RecordV {
            name: x.name,
            rtype: TYPE_AAAA,
            class: x.class,
            ttl: x.ttl,
            rdata: be_bytes(embed(p, be_nat(x.rdata) as u32) as nat, 16),
        };
    if rs.len() == 0 {
        crate::lists::lemma_pick_none(rs, w, f);
    } else {
        lemma_each_mapped(p, rs.drop_last());
        crate::lists::lemma_pick_last(rs, w, f);
    }
}

/// A reply about an IPv4 address, given as one about the IPv6 address that was asked for,
/// holds every name of it, in order, under the question's own name, with the same TTL and
/// target, and has its response code.
pub proof fn law_each_target_is_passed_on(query: MessageV, v4: MessageV)
    requires
        query.queries.len() > 0,
    ensures
        ({
            let r = rewrapped(query, v4);
            &&& r.answers == v4.answers.filter(|x: RecordV| x.rtype == TYPE_PTR).map_values(
                |x: RecordV|
                    RecordV {
                        name: query.queries[0].name,
                        rtype: TYPE_PTR,
                        class: CLASS_IN,
                        ttl: x.ttl,
                        rdata: x.rdata,
                    },
            )
            &&& r.header.rcode == v4.header.rcode
            &&& r.header.id == query.header.id
            &&& r.header.response
            &&& r.header.recursion_desired == query.header.recursion_desired
            &&& r.header.recursion_available
            &&& !r.header.authentic_data
            &&& r.queries == query.queries
            &&& r.authorities.len() == 0
            &&& r.additionals.len() == 0
        }),
{
    lemma_each_reowned(query.queries[0].name, v4.answers);
}

proof fn lemma_each_reowned(owner: Labels, rs: Seq<RecordV>)
    ensures
        reowned_ptrs(owner, rs) == rs.filter(|x: RecordV| x.rtype == TYPE_PTR).map_values(
            |x: RecordV|
                RecordV {
                    name: owner,
                    rtype: TYPE_PTR,
                    class: CLASS_IN,
                    ttl: x.ttl,
                    rdata: x.rdata,
                },
        ),
    decreases rs.len(),
{
    let w = |x: RecordV| x.rtype == TYPE_PTR;
    let f = |x: RecordV|
        RecordV { name: owner, rtype: TYPE_PTR, class: CLASS_IN, ttl: x.ttl, rdata: x.rdata };
    if rs.len() == 0 {
        crate::lists::lemma_pick_none(rs, w, f);
    } else {
        lemma_each_reowned(owner, rs.drop_last());
        crate::lists::lemma_pick_last(rs, w, f);
    }
}

/// Addresses are made exactly for questions for IPv6 addresses, on a listener that makes
/// them, of names under no excluded domain, where the name is said not to exist or not to
/// have such addresses.
pub proof fn law_synthesis_is_for_missing_addresses(
    exclusions: Seq<Labels>,
    listener_enabled: bool,
    qname: Labels,
    qtype: u16,
    resp: MessageV,
)
    ensures
        synthesis_due(Some(exclusions), listener_enabled, qname, qtype, resp) <==> {
            &&& listener_enabled
            &&& qtype == TYPE_AAAA
            &&& forall|i: int|
                0 <= i < exclusions.len() ==> !in_zone(#[trigger] exclusions[i], qname)
            &&& resp.header.rcode == RCODE_NXDOMAIN || (resp.header.rcode == RCODE_NOERROR
                && resp.answers.len() == 0)
        },
        !synthesis_due(None, listener_enabled, qname, qtype, resp),
{
}

/// An embedded address keeps every bit of the prefix, has zeros in bits 64 to 71 where the
/// address reaches across them, and holds the four octets of the IPv4 address in order, from
/// the end of the prefix on, around those bits.
pub proof fn law_embedding_layout(prefix: Seq<u8>, len: u8, v4: Seq<u8>)
    requires
        prefix.len() == 16,
        v4.len() == 4,
        is_valid_length(len),
    ensures
        ({
            let r = embedded(prefix, len, v4);
            &&& r.len() == 16
            &&& forall|i: int| 0 <= i < len as int / 8 ==> #[trigger] r[i]
                == prefix[i]
            &&& len == 96 ==> r == prefix.subrange(0, 12) + v4
            &&& len == 64 ==> r[8] == 0 && r.subrange(9, 13) == v4
            &&& len == 56 ==> r[7] == v4[0] && r[8] == 0 && r.subrange(9, 12) == v4.subrange(1, 4)
            &&& len == 48 ==> r.subrange(6, 8) == v4.subrange(0, 2) && r[8] == 0 && r.subrange(
                9,
                11,
            ) == v4.subrange(2, 4)
            &&& len == 40 ==> r.subrange(5, 8) == v4.subrange(0, 3) && r[8] == 0 && r[9] == v4[3]
            &&& len == 32 ==> r.subrange(4, 8) == v4
        }),
{
    let r = embedded(prefix, len, v4);
    if len == 96 {
        assert(r =~= prefix.subrange(0, 12) + v4);
    } else if len == 64 {
        assert(r.subrange(9, 13) =~= v4);
    } else if len == 56 {
        assert(r.subrange(9, 12) =~= v4.subrange(1, 4));
    } else if len == 48 {
        assert(r.subrange(6, 8) =~= v4.subrange(0, 2));
        assert(r.subrange(9, 11) =~= v4.subrange(2, 4));
    } else if len == 40 {
        assert(r.subrange(5, 8) =~= v4.subrange(0, 3));
    } else {
        assert(r.subrange(4, 8) =~= v4);
    }
}

/// The name of an address under ip6.arpa gives the address back: its nibbles in reverse, one
/// label each, in either case, and then the zone.
pub proof fn law_reverse_names_read_back(n: Labels, b: Seq<u8>)
    requires
        b.len() == 16,
        n.len() == 34,
        in_zone(dotted("ip6.arpa."@), n),
        forall|i: int|
            0 <= i < 32 ==> (#[trigger] n[i]).len() == 1 && hex_value(n[i][0]) is Some,
        forall|i: int|
            0 <= i < 16 ==> hex_value(n[31 - 2 * i][0])->0 == #[trigger] b[i] / 16 && hex_value(
                n[30 - 2 * i][0],
            )->0 == b[i] % 16,
    ensures
        arpa_address(n) == Some(be_nat(b) as u128),
{
    assert forall|i: int| 0 <= i < 32 implies is_nibble(#[trigger] n[i]) by {}
    assert forall|i: int| 0 <= i < 16 implies #[trigger] arpa_bytes(n)[i] == b[i] by {
        assert(b[i] / 16 * 16 + b[i] % 16 == b[i]);
    }
    assert(arpa_bytes(n) =~= b);
}

/// Hexadecimal digits have their values, letters in either case, and nothing else is one.
pub proof fn law_hex_digits(b: u8)
    ensures
        '0' as u8 <= b <= '9' as u8 ==> hex_value(b) == Some((b - '0' as u8) as u8),
        'a' as u8 <= b <= 'f' as u8 ==> hex_value(b) == Some((b - 'a' as u8 + 10) as u8),
        'A' as u8 <= b <= 'F' as u8 ==> hex_value(b) == Some((b - 'A' as u8 + 10) as u8),
        hex_value(b) is Some ==> ('0' as u8 <= b <= '9' as u8) || ('a' as u8 <= b <= 'f' as u8) || (
        'A' as u8 <= b <= 'F' as u8),
{
}

/// A question under ip6.arpa is rewritten exactly where its address lies under the prefix: to
/// the name of the IPv4 address that is embedded there.
pub proof fn law_embedded_addresses_are_asked_for(p: Prefix, qname: Labels, v4: u32)
    requires
        is_valid_length(p.len),
        arpa_address(qname) == Some(embed(p, v4)),
    ensures
        rewritten(p, qname) == Some(v4_reverse(v4)),
{
    law_extract_undoes_embed(p, v4);
}

/// The reverse name of an IPv4 address has its four octets, in decimal, last first, below
/// in-addr.arpa.
pub proof fn law_reverse_ipv4_name(a: u8, b: u8, c: u8, d: u8)
    ensures
        v4_reverse((a * 0x100_0000 + b * 0x1_0000 + c * 0x100 + d) as u32) == seq![
            dec_label(d as nat),
            dec_label(c as nat),
            dec_label(b as nat),
            dec_label(a as nat),
        ] + dotted("in-addr.arpa."@),
{
    let o = seq![a, b, c, d];
    assert(be_nat(o) == a * 0x100_0000 + b * 0x1_0000 + c * 0x100 + d) by {
        reveal_with_fuel(be_nat, 5);
        assert(o.drop_last() =~= seq![a, b, c]);
        assert(o.drop_last().drop_last() =~= seq![a, b]);
        assert(o.drop_last().drop_last().drop_last() =~= seq![a]);
        assert(o.drop_last().drop_last().drop_last().drop_last() =~= Seq::<u8>::empty());
    }
    crate::net::lemma_be_unique(o);
}

/// Numbers are written with their decimal digits, the highest first.
pub proof fn law_decimal_labels(n: nat)
    ensures
        n < 10 ==> dec_label(n) == seq![(48 + n) as u8],
        n >= 10 ==> dec_label(n) == dec_label(n / 10).push((48 + n % 10) as u8),
{
}

/// A policy excludes the name by which clients look for DNS64 and every configured name, in
/// lower case, in order, and takes the configured prefix, where its length is one of those
/// allowed, or else the well-known one.
pub proof fn law_policy_takes_every_exclusion(
    prefix: Option<Seq<char>>,
    texts: Seq<Seq<char>>,
)
    ensures
        match policy_of(prefix, texts) {
            Ok((p, ex)) => {
                &&& ex.len() == texts.len() + 1
                &&& ex[0] == lower(dotted("ipv4only.arpa."@))
                &&& forall|i: int|
                    0 <= i < texts.len() ==> ascii_name(#[trigger] texts[i]) is Some && ex[i + 1]
                        == lower((ascii_name(texts[i])->0).0)
                &&& prefix is None ==> p.addr == 0x0064_ff9b_0000_0000_0000_0000_0000_0000 && p.len
                    == 96
                &&& prefix is Some ==> v6_net_text(prefix->0) == Some((p.addr, p.len))
                &&& p.len == 32 || p.len == 40 || p.len == 48 || p.len == 56 || p.len == 64 || p.len
                    == 96
            },
            Err(_) => (exists|i: int|
                0 <= i < texts.len() && ascii_name(#[trigger] texts[i]) is None) || (prefix is Some
                && (v6_net_text(prefix->0) is None || !is_valid_length(
                (v6_net_text(prefix->0)->0).1,
            ))),
        },
{
    lemma_exclusions(texts);
}

proof fn lemma_exclusions(texts: Seq<Seq<char>>)
    ensures
        match exclusions_of(texts) {
            Some(ex) => ex.len() == texts.len() && forall|i: int|
                0 <= i < texts.len() ==> ascii_name(#[trigger] texts[i]) is Some && ex[i] == lower(
                    (ascii_name(texts[i])->0).0,
                ),
            None => exists|i: int| 0 <= i < texts.len() && ascii_name(#[trigger] texts[i]) is None,
        },
    decreases texts.len(),
{
    if texts.len() > 0 {
        let rest = texts.drop_last();
        lemma_exclusions(rest);
        assert(forall|i: int| 0 <= i < rest.len() ==> #[trigger] rest[i] == texts[i]);
        assert(texts[texts.len() - 1] == texts.last());
        match exclusions_of(rest) {
            Some(ex) => {
                if exclusions_of(texts) is Some {
                    assert forall|i: int| 0 <= i < texts.len() implies ascii_name(
                        #[trigger] texts[i],
                    ) is Some && exclusions_of(texts)->0[i] == lower((ascii_name(texts[i])->0).0) by {
                        if i < rest.len() {
                            assert(rest[i] == texts[i]);
                        }
                    }
                }
            },
            None => {
                let i = choose|i: int| 0 <= i < rest.len() && ascii_name(#[trigger] rest[i]) is None;
                assert(texts[i] == rest[i]);
            },
        }
    }
}

} // verus!
