//! Record data that the resolver looks into, read from uncompressed wire form.

use crate::bytes::{be16_at, be16_bytes, be32_at, be32_bytes, copy_range, read_be16, read_be32};
use crate::codec::{labels_at, lemma_name_roundtrip, name_ok, name_wire, read_name};
use crate::name::{Labels, Name};
use crate::recursor::anchor::{Dnskey, DnskeyV};
use crate::wire::{
    Record, RecordV, TYPE_A, TYPE_AAAA, TYPE_DNSKEY, TYPE_NSEC, TYPE_NSEC3, TYPE_RRSIG,
};
use vstd::prelude::*;

verus! {

/// The fields of an RRSIG that validation looks at.
#[derive(Debug)]
pub struct Rrsig {
    pub type_covered: u16,
    pub labels: u8,
    pub expiration: u32,
    pub inception: u32,
    pub key_tag: u16,
    pub signer: Name,
}

/// The value of an [`Rrsig`].
#[verifier::ext_equal]
pub ghost struct RrsigV {
    pub type_covered: u16,
    pub labels: u8,
    pub expiration: u32,
    pub inception: u32,
    pub key_tag: u16,
    pub signer: Labels,
}

impl View for Rrsig {
    type V = RrsigV;

    open spec fn view(&self) -> RrsigV {
        RrsigV {
            type_covered: self.type_covered,
            labels: self.labels,
            expiration: self.expiration,
            inception: self.inception,
            key_tag: self.key_tag,
            signer: self.signer@,
        }
    }
}

/// The RRSIG that a record holds.
pub open spec fn rrsig_in(r: RecordV) -> Option<RrsigV> {
    if r.rtype != TYPE_RRSIG || r.rdata.len() < 18 {
        None
    } else {
        match labels_at(r.rdata, 18) {
            None => None,
            Some((signer, _)) => Some(
                RrsigV {
                    type_covered: be16_at(r.rdata, 0),
                    labels: r.rdata[3],
                    expiration: be32_at(r.rdata, 8),
                    inception: be32_at(r.rdata, 12),
                    key_tag: be16_at(r.rdata, 16),
                    signer,
                },
            ),
        }
    }
}

/// The DNSKEY that a record holds.
pub open spec fn dnskey_in(r: RecordV) -> Option<DnskeyV> {
    if r.rtype != TYPE_DNSKEY || r.rdata.len() < 4 || r.rdata[2] != 3 {
        None
    } else {
        Some(
            DnskeyV {
                flags: be16_at(r.rdata, 0),
                algorithm: r.rdata[3],
                public_key: r.rdata.subrange(4, r.rdata.len() as int),
            },
        )
    }
}

/// The name that a record of type `rtype` points at, for types whose data is one name.
pub open spec fn name_in(r: RecordV, rtype: u16) -> Option<Labels> {
    if r.rtype != rtype {
        None
    } else {
        match labels_at(r.rdata, 0) {
            Some((n, _)) => Some(n),
            None => None,
        }
    }
}

/// Whether the type bitmap that starts at `pos` has the bit of type `t`.
pub open spec fn bitmap_has(b: Seq<u8>, pos: int, t: u16) -> bool
    decreases b.len() - pos,
{
    if pos < 0 || pos + 2 > b.len() {
        false
    } else {
        let len = b[pos + 1] as int;
        let at = pos + 2 + (t % 256) / 8;
        ||| b[pos] == t / 256 && (t % 256) / 8 < len && at < b.len() && bit_of(
            b[at],
            (t % 8) as int,
        )
        ||| pos + 2 + len <= b.len() && bitmap_has(b, pos + 2 + len, t)
    }
}

/// Bit `k` of a byte, the highest one being bit 0.
pub open spec fn bit_of(b: u8, k: int) -> bool {
    let w: int = if k == 0 {
        128
    } else if k == 1 {
        64
    } else if k == 2 {
        32
    } else if k == 3 {
        16
    } else if k == 4 {
        8
    } else if k == 5 {
        4
    } else if k == 6 {
        2
    } else {
        1
    };
    (b as int / w) % 2 == 1
}

/// The next name of an NSEC record, and where its type bitmap starts.
pub open spec fn nsec_in(r: RecordV) -> Option<(Labels, int)> {
    if r.rtype == TYPE_NSEC {
        labels_at(r.rdata, 0)
    } else {
        None
    }
}

/// An NSEC3 record taken apart.
#[derive(Debug)]
pub struct Nsec3 {
    pub iterations: u16,
    pub salt: Vec<u8>,
    pub next: Vec<u8>,
    /// Where the type bitmap starts.
    pub bitmap: usize,
}

/// The value of an [`Nsec3`].
#[verifier::ext_equal]
pub ghost struct Nsec3V {
    pub iterations: u16,
    pub salt: Seq<u8>,
    pub next: Seq<u8>,
    pub bitmap: int,
}

impl View for Nsec3 {
    type V = Nsec3V;

    open spec fn view(&self) -> Nsec3V {
        Nsec3V {
            iterations: self.iterations,
            salt: self.salt@,
            next: self.next@,
            bitmap: self.bitmap as int,
        }
    }
}

/// The NSEC3 data that a record holds.
pub open spec fn nsec3_in(r: RecordV) -> Option<Nsec3V> {
    let b = r.rdata;
    if r.rtype != TYPE_NSEC3 || b.len() < 5 || b.len() < 6 + b[4] {
        None
    } else {
        let h = 5 + b[4];
        if b.len() < h + 1 + b[h] {
            None
        } else {
            Some(
                Nsec3V {
                    iterations: be16_at(b, 2),
                    salt: b.subrange(5, h),
                    next: b.subrange(h + 1, h + 1 + b[h]),
                    bitmap: h + 1 + b[h],
                },
            )
        }
    }
}

/// Whether the type bitmap that starts at `pos` has the bit of type `t`.
pub fn bitmap_contains(b: &[u8], start: usize, t: u16) -> (r: bool)
    ensures
        r == bitmap_has(b@, start as int, t),
{
    let mut pos: usize = start;
    loop
        invariant
            bitmap_has(b@, start as int, t) == bitmap_has(b@, pos as int, t),
        decreases b@.len() - pos,
    {
        if pos >= b.len() || b.len() - pos < 2 {
            return false;
        }
        let len: usize = b[pos + 1] as usize;
        let off: usize = (t % 256 / 8) as usize;
        if b[pos] as u16 == t / 256 && off < len && off < b.len() - pos - 2 && bit(
            b[pos + 2 + off],
            t % 8,
        ) {
            return true;
        }
        if len > b.len() - pos - 2 {
            return false;
        }
        pos = pos + 2 + len;
    }
}

fn bit(b: u8, k: u16) -> (r: bool)
    ensures
        r == bit_of(b, k as int),
{
    let w: u8 = if k == 0 {
        128
    } else if k == 1 {
        64
    } else if k == 2 {
        32
    } else if k == 3 {
        16
    } else if k == 4 {
        8
    } else if k == 5 {
        4
    } else if k == 6 {
        2
    } else {
        1
    };
    (b / w) % 2 == 1
}

impl Record {
    /// The RRSIG in this record.
    pub fn rrsig(&self) -> (r: Option<Rrsig>)
        ensures
            rrsig_in(self@) == (match r {
                Some(s) => Some(s@),
                None => None,
            }),
    {
        let b: &[u8] = self.rdata.as_slice();
        if self.rtype != TYPE_RRSIG || b.len() < 18 {
            return None;
        }
        match read_name(b, 18) {
            None => None,
            Some((signer, _)) => Some(
                Rrsig {
                    type_covered: read_be16(b, 0),
                    labels: b[3],
                    expiration: read_be32(b, 8),
                    inception: read_be32(b, 12),
                    key_tag: read_be16(b, 16),
                    signer,
                },
            ),
        }
    }

    /// The DNSKEY in this record.
    pub fn dnskey(&self) -> (r: Option<Dnskey>)
        ensures
            dnskey_in(self@) == (match r {
                Some(k) => Some(k@),
                None => None,
            }),
    {
        let b: &[u8] = self.rdata.as_slice();
        if self.rtype != TYPE_DNSKEY || b.len() < 4 || b[2] != 3 {
            return None;
        }
        Some(
            Dnskey {
                flags: read_be16(b, 0),
                algorithm: b[3],
                public_key: copy_range(b, 4, b.len()),
            },
        )
    }

    /// The name in this record, where its type is `rtype`.
    pub fn target(&self, rtype: u16) -> (r: Option<Name>)
        ensures
            name_in(self@, rtype) == (match r {
                Some(n) => Some(n@),
                None => None,
            }),
    {
        if self.rtype != rtype {
            return None;
        }
        match read_name(self.rdata.as_slice(), 0) {
            Some((n, _)) => Some(n),
            None => None,
        }
    }

    /// The next name in this NSEC record, and where its type bitmap starts.
    pub fn nsec(&self) -> (r: Option<(Name, usize)>)
        ensures
            nsec_in(self@) == (match r {
                Some((n, e)) => Some((n@, e as int)),
                None => None,
            }),
    {
        if self.rtype != TYPE_NSEC {
            return None;
        }
        read_name(self.rdata.as_slice(), 0)
    }

    /// The NSEC3 data in this record.
    pub fn nsec3(&self) -> (r: Option<Nsec3>)
        ensures
            nsec3_in(self@) == (match r {
                Some(n) => Some(n@),
                None => None,
            }),
    {
        let b: &[u8] = self.rdata.as_slice();
        if self.rtype != TYPE_NSEC3 || b.len() < 5 {
            return None;
        }
        let h: usize = 5 + b[4] as usize;
        if b.len() < h + 1 {
            return None;
        }
        let e: usize = h + 1 + b[h] as usize;
        if b.len() < e {
            return None;
        }
        Some(
            Nsec3 {
                iterations: read_be16(b, 2),
                salt: copy_range(b, 5, h),
                next: copy_range(b, h + 1, e),
                bitmap: e,
            },
        )
    }
}

/// A DNSKEY record reads back as its key: flags, the protocol number three, the algorithm,
/// and then the key; with another protocol number it is none.
pub proof fn law_dnskey_layout(r: RecordV, flags: u16, protocol: u8, algorithm: u8, key: Seq<u8>)
    requires
        r.rtype == TYPE_DNSKEY,
        r.rdata == be16_bytes(flags) + seq![protocol, algorithm] + key,
    ensures
        protocol == 3 ==> dnskey_in(r) == Some(DnskeyV { flags, algorithm, public_key: key }),
        protocol != 3 ==> dnskey_in(r) is None,
{
    crate::bytes::lemma_be16_roundtrip(flags);
    assert(r.rdata.subrange(4, r.rdata.len() as int) =~= key);
    assert(r.rdata[0] == be16_bytes(flags)[0] && r.rdata[1] == be16_bytes(flags)[1]);
}

/// A signature record reads back as its fields: the type covered, the algorithm, the number of
/// labels, the original TTL, expiration, inception, the key's tag and the signer, and then the
/// signature itself.
pub proof fn law_signature_layout(
    r: RecordV,
    covered: u16,
    algorithm: u8,
    labels: u8,
    ttl: u32,
    expiration: u32,
    inception: u32,
    tag: u16,
    signer: Labels,
    sig: Seq<u8>,
)
    requires
        r.rtype == TYPE_RRSIG,
        name_ok(signer),
        r.rdata == be16_bytes(covered) + seq![algorithm, labels] + be32_bytes(ttl) + be32_bytes(
            expiration,
        ) + be32_bytes(inception) + be16_bytes(tag) + name_wire(signer) + sig,
    ensures
        rrsig_in(r) == Some(
            RrsigV { type_covered: covered, labels, expiration, inception, key_tag: tag, signer },
        ),
{
    let pre = be16_bytes(covered) + seq![algorithm, labels] + be32_bytes(ttl) + be32_bytes(
        expiration,
    ) + be32_bytes(inception) + be16_bytes(tag);
    assert(pre.len() == 18);
    lemma_name_roundtrip(signer, pre, sig);
    let d = r.rdata;
    assert(forall|i: int| 0 <= i < 18 ==> #[trigger] d[i] == pre[i]);
    crate::bytes::lemma_be16_roundtrip(covered);
    crate::bytes::lemma_be16_roundtrip(tag);
    crate::bytes::lemma_be32_roundtrip(expiration);
    crate::bytes::lemma_be32_roundtrip(inception);
    assert(be16_at(d, 0) == covered);
    assert(d[8] == be32_bytes(expiration)[0] && d[9] == be32_bytes(expiration)[1] && d[10]
        == be32_bytes(expiration)[2] && d[11] == be32_bytes(expiration)[3]);
    assert(d[12] == be32_bytes(inception)[0] && d[13] == be32_bytes(inception)[1] && d[14]
        == be32_bytes(inception)[2] && d[15] == be32_bytes(inception)[3]);
    assert(d[16] == be16_bytes(tag)[0] && d[17] == be16_bytes(tag)[1]);
}

/// A record whose data is a name, and an NSEC record, which has a list of types behind it,
/// read back as that name; records of another type do not.
pub proof fn law_names_in_records(r: RecordV, rtype: u16, n: Labels, bits: Seq<u8>)
    requires
        name_ok(n),
        r.rdata == name_wire(n) + bits,
    ensures
        r.rtype == rtype ==> name_in(r, rtype) == Some(n),
        r.rtype != rtype ==> name_in(r, rtype) is None,
        r.rtype == TYPE_NSEC ==> nsec_in(r) == Some((n, name_wire(n).len() as int)),
        r.rtype != TYPE_NSEC ==> nsec_in(r) is None,
{
    lemma_name_roundtrip(n, Seq::empty(), bits);
    assert(Seq::<u8>::empty() + name_wire(n) + bits =~= r.rdata);
}

/// An NSEC3 record reads back as its fields: hash algorithm, flags, iterations, the salt and
/// the next hash, each behind its length, and then the list of types.
pub proof fn law_nsec3_layout(
    r: RecordV,
    hash: u8,
    flags: u8,
    iterations: u16,
    salt: Seq<u8>,
    next: Seq<u8>,
    bits: Seq<u8>,
)
    requires
        r.rtype == TYPE_NSEC3,
        salt.len() < 256,
        next.len() < 256,
        r.rdata == seq![hash, flags] + be16_bytes(iterations) + seq![salt.len() as u8] + salt
            + seq![next.len() as u8] + next + bits,
    ensures
        nsec3_in(r) == Some(
            Nsec3V { iterations, salt, next, bitmap: 6 + salt.len() as int + next.len() },
        ),
{
    let b = r.rdata;
    let h = 5 + salt.len() as int;
    crate::bytes::lemma_be16_roundtrip(iterations);
    assert(b[2] == be16_bytes(iterations)[0] && b[3] == be16_bytes(iterations)[1]);
    assert(b[4] == salt.len() as u8);
    assert(b[h] == next.len() as u8);
    assert(b.subrange(5, h) =~= salt);
    assert(b.subrange(h + 1, h + 1 + next.len()) =~= next);
}

/// A list of types that starts with a block has a type of that block's window exactly where
/// the block has the octet for it, and in that the bit, the highest for the first type; types
/// of other windows are looked for behind the block.
pub proof fn law_type_lists(
    pre: Seq<u8>,
    window: u8,
    block: Seq<u8>,
    post: Seq<u8>,
    t: u16,
)
    requires
        block.len() < 256,
    ensures
        ({
            let b = pre + seq![window, block.len() as u8] + block + post;
            let at = pre.len() as int;
            let here = t / 256 == window && (t % 256) / 8 < block.len() && bit_of(
                block[(t % 256) as int / 8],
                (t % 8) as int,
            );
            bitmap_has(b, at, t) <==> here || bitmap_has(b, at + 2 + block.len(), t)
        }),
{
    let b = pre + seq![window, block.len() as u8] + block + post;
    let at = pre.len() as int;
    assert(b[at] == window);
    assert(b[at + 1] == block.len() as u8);
    let k = (t % 256) as int / 8;
    if k < block.len() {
        assert(b[at + 2 + k] == block[k]);
    }
}

/// A list of types that has ended has none.
pub proof fn law_empty_type_list(b: Seq<u8>, t: u16)
    ensures
        !bitmap_has(b, b.len() as int, t),
{
}

/// The bits of an octet are counted from the highest.
pub proof fn law_bits_from_the_highest(b: u8)
    ensures
        bit_of(b, 0) <==> b & 0x80 != 0,
        bit_of(b, 1) <==> b & 0x40 != 0,
        bit_of(b, 2) <==> b & 0x20 != 0,
        bit_of(b, 3) <==> b & 0x10 != 0,
        bit_of(b, 4) <==> b & 0x08 != 0,
        bit_of(b, 5) <==> b & 0x04 != 0,
        bit_of(b, 6) <==> b & 0x02 != 0,
        bit_of(b, 7) <==> b & 0x01 != 0,
{
    assert((b / 128) % 2 == 1 <==> b & 0x80 != 0) by (bit_vector);
    assert((b / 64) % 2 == 1 <==> b & 0x40 != 0) by (bit_vector);
    assert((b / 32) % 2 == 1 <==> b & 0x20 != 0) by (bit_vector);
    assert((b / 16) % 2 == 1 <==> b & 0x10 != 0) by (bit_vector);
    assert((b / 8) % 2 == 1 <==> b & 0x08 != 0) by (bit_vector);
    assert((b / 4) % 2 == 1 <==> b & 0x04 != 0) by (bit_vector);
    assert((b / 2) % 2 == 1 <==> b & 0x02 != 0) by (bit_vector);
    assert((b / 1) % 2 == 1 <==> b & 0x01 != 0) by (bit_vector);
}

} // verus!
