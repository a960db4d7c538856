//! Signature, digest and hash checks of DNSSEC, made by `hickory_proto`.

use crate::codec::{name_ok, record_bytes, record_fits, record_ok, record_wire, records_ok};
use crate::name::{Labels, Name};
use crate::recursor::anchor::{dnskey_rdata, Dnskey, DnskeyV};
use crate::wire::{byte_strings, records_v, Record, RecordV, CLASS_IN, TYPE_DNSKEY, TYPE_DS};
use hickory_proto::dnssec::Verifier;
use hickory_proto::serialize::binary::BinDecodable;
use vstd::prelude::*;

verus! {

/// Whether `hickory_proto` finds that the signature in the record `sig` over the records
/// `set` was made with the key in the record `key`; each record in wire form.
pub uninterp spec fn rrsig_verifies(key: Seq<u8>, sig: Seq<u8>, set: Seq<Seq<u8>>) -> bool;

/// Whether `hickory_proto` finds that the digest in the DS record `ds` is that of the
/// key in the record `key`, under that record's owner; each record in wire form.
pub uninterp spec fn digest_matches(ds: Seq<u8>, key: Seq<u8>) -> bool;

/// The NSEC3 hash (SHA-1) that `hickory_proto` computes of the absolute name with these
/// labels.
pub uninterp spec fn nsec3_hashed(salt: Seq<u8>, name: Labels, iterations: u16) -> Option<
    Seq<u8>,
>;

/// `hickory_proto::dnssec::Verifier::verify_rrsig` of a DNSKEY, on records decoded with
/// `Record::from_bytes`; owner and class are those of the first of `set`. The result
/// depends on the bytes alone, and says `false` where one of them is no such record.
#[verifier::external_body]
fn verify_wire(key: &[u8], sig: &[u8], set: &Vec<Vec<u8>>) -> (r: bool)
    requires
        set@.len() > 0,
    ensures
        r == rrsig_verifies(key@, sig@, byte_strings(set@)),
{
    let read = |b: &[u8]| hickory_proto::rr::Record::from_bytes(b).ok();
    let records: Option<Vec<_>> = set.iter().map(|b| read(b)).collect();
    let (Some(set), Some(key), Some(sig)) = (records, read(key), read(sig)) else {
        return false;
    };
    match (key.data, sig.data) {
        (
            hickory_proto::rr::RData::DNSSEC(hickory_proto::dnssec::rdata::DNSSECRData::DNSKEY(k)),
            hickory_proto::rr::RData::DNSSEC(hickory_proto::dnssec::rdata::DNSSECRData::RRSIG(s)),
        ) => k.verify_rrsig(&set[0].name, set[0].dns_class, &s, set.iter()).is_ok(),
        _ => false,
    }
}

/// `hickory_proto::dnssec::rdata::DS::covers`, on records decoded with
/// `Record::from_bytes`; the name is the owner of `key`. The result depends on the bytes
/// alone, and says `false` where one of them is no such record.
#[verifier::external_body]
fn digest_wire(ds: &[u8], key: &[u8]) -> (r: bool)
    ensures
        r == digest_matches(ds@, key@),
{
    let read = |b: &[u8]| hickory_proto::rr::Record::from_bytes(b).ok();
    let (Some(ds), Some(key)) = (read(ds), read(key)) else {
        return false;
    };
    match (ds.data, key.data) {
        (
            hickory_proto::rr::RData::DNSSEC(hickory_proto::dnssec::rdata::DNSSECRData::DS(d)),
            hickory_proto::rr::RData::DNSSEC(hickory_proto::dnssec::rdata::DNSSECRData::DNSKEY(k)),
        ) => d.covers(&key.name, &k).unwrap_or(false),
        _ => false,
    }
}

/// `hickory_proto::dnssec::Nsec3HashAlgorithm::SHA1.hash`; `None` for its error or where
/// the labels make no name. The result depends on the arguments alone.
#[verifier::external_body]
fn hash_labels(salt: &[u8], labels: &Vec<Vec<u8>>, iterations: u16) -> (r: Option<Vec<u8>>)
    ensures
        nsec3_hashed(salt@, byte_strings(labels@), iterations) == (match r {
            Some(h) => Some(h@),
            None => None,
        }),
{
    let n = hickory_proto::rr::Name::from_labels(labels.iter().map(|l| l.as_slice())).ok()?;
    let sha1 = hickory_proto::dnssec::Nsec3HashAlgorithm::SHA1;
    sha1.hash(salt, &n, iterations).ok().map(|d| d.as_ref().to_vec())
}

/// The NSEC3 hash of a name.
pub fn nsec3_hash(salt: &[u8], name: &Name, iterations: u16) -> (r: Option<Vec<u8>>)
    ensures
        nsec3_hashed(salt@, name@, iterations) == (match r {
            Some(h) => Some(h@),
            None => None,
        }),
{
    assert(name@ =~= byte_strings(name.labels@));
    hash_labels(salt, &name.labels, iterations)
}

/// The DNSKEY record of a key at `owner`.
pub open spec fn key_record(owner: Labels, k: DnskeyV) -> RecordV {
    RecordV {
        name: owner,
        rtype: TYPE_DNSKEY,
        class: CLASS_IN,
        ttl: 0,
        rdata: dnskey_rdata(k),
    }
}

/// The wire forms of a list of records.
pub open spec fn wires(s: Seq<RecordV>) -> Seq<Seq<u8>> {
    Seq::new(s.len(), |i: int| record_wire(s[i]))
}

/// The signature `sig` over the records `set` was made with the key `k`.
pub open spec fn rrset_verifies(set: Seq<RecordV>, sig: RecordV, k: DnskeyV) -> bool {
    &&& set.len() > 0
    &&& records_ok(set)
    &&& record_ok(sig)
    &&& record_ok(key_record(Seq::empty(), k))
    &&& rrsig_verifies(
        record_wire(key_record(Seq::empty(), k)),
        record_wire(sig),
        wires(set),
    )
}

/// The digest in the record `ds` is that of the key `k` of `zone`.
pub open spec fn ds_covers(ds: RecordV, zone: Labels, k: DnskeyV) -> bool {
    &&& ds.rtype == TYPE_DS
    &&& record_ok(ds)
    &&& record_ok(key_record(zone, k))
    &&& digest_matches(record_wire(ds), record_wire(key_record(zone, k)))
}

/// Why a set of records did not verify.
#[derive(Debug, Clone, Copy, PartialEq, Eq, Structural)]
pub enum VerifyError {
    EmptyRrset,
    NotVerified,
}

fn key_bytes(owner: &Name, key: &Dnskey) -> (r: Option<Vec<u8>>)
    ensures
        r is Some <==> record_ok(key_record(owner@, key@)),
        r is Some ==> r->0@ == record_wire(key_record(owner@, key@)),
{
    let rec = Record {
        name: owner.clone(),
        rtype: TYPE_DNSKEY,
        class: CLASS_IN,
        ttl: 0,
        rdata: key.rdata(),
    };
    assert(rec@ == key_record(owner@, key@));
    if record_fits(&rec) {
        Some(record_bytes(&rec))
    } else {
        None
    }
}

/// Check the signature over one set of records with one key.
pub fn verify_rrset(rrset: &Vec<Record>, rrsig: &Record, key: &Dnskey) -> (r: Result<
    (),
    VerifyError,
>)
    ensures
        r is Ok <==> rrset_verifies(records_v(rrset@), rrsig@, key@),
        r is Err ==> r->Err_0 == (if rrset@.len() == 0 {
            VerifyError::EmptyRrset
        } else {
            VerifyError::NotVerified
        }),
{
    if rrset.len() == 0 {
        return Err(VerifyError::EmptyRrset);
    }
    let ghost v = records_v(rrset@);
    let mut flat: Vec<Vec<u8>> = Vec::new();
    let mut i: usize = 0;
    while i < rrset.len()
        invariant
            i <= rrset@.len(),
            v == records_v(rrset@),
            flat@.len() == i,
            forall|j: int|
                0 <= j < i ==> record_ok(#[trigger] v[j]) && flat@[j]@ == record_wire(v[j]),
        decreases rrset@.len() - i,
    {
        assert(v[i as int] == rrset@[i as int]@);
        if !record_fits(&rrset[i]) {
            assert(!record_ok(v[i as int]));
            return Err(VerifyError::NotVerified);
        }
        flat.push(record_bytes(&rrset[i]));
        i += 1;
    }
    assert(byte_strings(flat@) =~= wires(v));
    if !record_fits(rrsig) {
        return Err(VerifyError::NotVerified);
    }
    let root = Name::root();
    match key_bytes(&root, key) {
        None => Err(VerifyError::NotVerified),
        Some(k) => if verify_wire(k.as_slice(), record_bytes(rrsig).as_slice(), &flat) {
            Ok(())
        } else {
            Err(VerifyError::NotVerified)
        },
    }
}

/// Whether the digest in a DS record is that of a zone's key.
pub fn covers(ds: &Record, zone: &Name, key: &Dnskey) -> (r: bool)
    ensures
        r == ds_covers(ds@, zone@, key@),
{
    if ds.rtype != TYPE_DS || !record_fits(ds) {
        return false;
    }
    match key_bytes(zone, key) {
        None => false,
        Some(k) => digest_wire(record_bytes(ds).as_slice(), k.as_slice()),
    }
}

/// A signature is held against the whole set: every record of it, in order and in full, with
/// the key as a DNSKEY record; there is no set without records.
pub proof fn law_whole_set_is_verified(set: Seq<RecordV>, sig: RecordV, k: DnskeyV)
    requires
        records_ok(set),
        record_ok(sig),
        k.public_key.len() + 4 <= 0xffff,
    ensures
        rrset_verifies(set, sig, k) <==> set.len() > 0 && rrsig_verifies(
            record_wire(
                RecordV {
                    name: Seq::empty(),
                    rtype: TYPE_DNSKEY,
                    class: CLASS_IN,
                    ttl: 0,
                    rdata: dnskey_rdata(k),
                },
            ),
            record_wire(sig),
            set.map_values(|r: RecordV| record_wire(r)),
        ),
{
    assert(wires(set) =~= set.map_values(|r: RecordV| record_wire(r)));
    assert(dnskey_rdata(k).len() == k.public_key.len() + 4);
}

/// A DS record is held against the key as the zone's DNSKEY record, and only DS records are.
pub proof fn law_digests_are_of_the_zones_key(ds: RecordV, zone: Labels, k: DnskeyV)
    requires
        record_ok(ds),
        name_ok(zone),
        k.public_key.len() + 4 <= 0xffff,
    ensures
        ds_covers(ds, zone, k) <==> ds.rtype == TYPE_DS && digest_matches(
            record_wire(ds),
            record_wire(
                RecordV {
                    name: zone,
                    rtype: TYPE_DNSKEY,
                    class: CLASS_IN,
                    ttl: 0,
                    rdata: dnskey_rdata(k),
                },
            ),
        ),
{
    assert(dnskey_rdata(k).len() == k.public_key.len() + 4);
}

} // verus!
