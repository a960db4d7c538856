use dnsd::name::Name;
use dnsd::net::IpAddr;
use dnsd::recursor::anchor::Dnskey;
use dnsd::recursor::dnssec::{
    extract_dnskeys, validate_walk, ChainStep, ValidationStatus, Verdict, WalkChain, ZoneDnskeys,
};
use dnsd::recursor::reply::{new_header, new_message, one_query};
use dnsd::recursor::trust::{parse_presentation_format_str, TrustAnchors};
use dnsd::wire::{Message, Record, CLASS_IN, OPCODE_QUERY, TYPE_A};
use hickory_proto::dnssec::crypto::Ed25519SigningKey;
use hickory_proto::dnssec::rdata::{DNSSECRData, SigInput, DNSKEY, DS, RRSIG};
use hickory_proto::dnssec::{Algorithm, DigestType, SigningKey, TBS};
use hickory_proto::rr::rdata::A;
use hickory_proto::rr::{DNSClass, RData, SerialNumber};
use hickory_proto::serialize::binary::BinEncodable;

const NOW: u32 = 1_700_000_000;

fn n(s: &str) -> Name {
    Name::from_ascii(s).unwrap().0
}

fn outside(s: &str) -> hickory_proto::rr::Name {
    hickory_proto::rr::Name::from_ascii(s).unwrap()
}

fn data(owner: &str, data: RData) -> hickory_proto::rr::Record {
    hickory_proto::rr::Record::from_rdata(outside(owner), 3600, data)
}

fn inside(r: &hickory_proto::rr::Record) -> Record {
    Record {
        name: n(&r.name.to_ascii()),
        rtype: u16::from(r.record_type()),
        class: CLASS_IN,
        ttl: r.ttl,
        rdata: r.data.to_bytes().unwrap(),
    }
}

struct Signer {
    zone: &'static str,
    key: Ed25519SigningKey,
}

impl Signer {
    fn new(zone: &'static str) -> Signer {
        let pkcs8 = Ed25519SigningKey::generate_pkcs8().unwrap();
        Signer { zone, key: Ed25519SigningKey::from_pkcs8(&pkcs8).unwrap() }
    }

    fn dnskey(&self) -> DNSKEY {
        DNSKEY::with_flags(257, self.key.to_public_key().unwrap())
    }

    fn known(&self) -> Dnskey {
        Dnskey {
            flags: 257,
            algorithm: 15,
            public_key: self.key.to_public_key().unwrap().into_inner(),
        }
    }

    fn key_record(&self) -> hickory_proto::rr::Record {
        data(self.zone, RData::DNSSEC(DNSSECRData::DNSKEY(self.dnskey())))
    }

    fn ds_record(&self) -> hickory_proto::rr::Record {
        let digest = self.dnskey().to_digest(&outside(self.zone), DigestType::SHA256).unwrap();
        let tag = self.dnskey().calculate_key_tag().unwrap();
        let ds = DS::new(tag, Algorithm::ED25519, DigestType::SHA256, digest.as_ref().to_vec());
        data(self.zone, RData::DNSSEC(DNSSECRData::DS(ds)))
    }

    /// A signature over a set of records, good for an hour either way.
    fn sign(&self, set: &[hickory_proto::rr::Record]) -> Record {
        let input = SigInput {
            type_covered: set[0].record_type(),
            algorithm: Algorithm::ED25519,
            num_labels: set[0].name.num_labels(),
            original_ttl: set[0].ttl,
            sig_expiration: SerialNumber::new(NOW + 3600),
            sig_inception: SerialNumber::new(NOW - 3600),
            key_tag: self.dnskey().calculate_key_tag().unwrap(),
            signer_name: outside(self.zone),
        };
        let tbs = TBS::from_input(&set[0].name, DNSClass::IN, &input, set.iter()).unwrap();
        let sig = RRSIG::from_sig(input, self.key.sign(&tbs).unwrap());
        inside(&data(&set[0].name.to_ascii(), RData::DNSSEC(DNSSECRData::RRSIG(sig))))
    }

    /// The zone's DNSKEY set, signed with its key.
    fn key_set(&self) -> Vec<Record> {
        vec![inside(&self.key_record()), self.sign(&[self.key_record()])]
    }
}

struct World {
    root: Signer,
    child: Signer,
    anchors: TrustAnchors,
    walk: WalkChain,
    answer: Message,
}

impl World {
    fn new() -> World {
        let root = Signer::new(".");
        let child = Signer::new("example.");
        let b64 = base64::Engine::encode(
            &base64::engine::general_purpose::STANDARD,
            root.known().public_key,
        );
        let anchors =
            parse_presentation_format_str(&format!(". 3600 IN DNSKEY 257 3 15 {b64}\n")).unwrap();
        let step = ChainStep {
            zone: n("example."),
            ds: vec![inside(&child.ds_record())],
            ds_rrsig: vec![root.sign(&[child.ds_record()])],
            ns_ips: vec![IpAddr::V4(1)],
        };
        let mut answer = new_message(
            new_header(1, true, OPCODE_QUERY),
            one_query(&n("www.example."), TYPE_A, CLASS_IN),
        );
        let a = data("www.example.", RData::A(A::new(192, 0, 2, 1)));
        answer.answers.push(inside(&a));
        answer.answers.push(child.sign(&[a]));
        World { root, child, anchors, walk: WalkChain { steps: vec![step] }, answer }
    }

    fn judge(&self, root: ZoneDnskeys, known: ZoneDnskeys) -> Verdict {
        validate_walk(&self.anchors, &root, &self.walk, &vec![known], &self.answer, NOW)
    }
}

#[test]
fn signed_walks_are_secure() {
    let w = World::new();
    let v = w.judge(
        ZoneDnskeys::Fetched(w.root.key_set()),
        ZoneDnskeys::Fetched(w.child.key_set()),
    );
    assert!(matches!(v.status, ValidationStatus::Secure), "{:?}", v.status);
    assert_eq!(v.learned.len(), 2);
    assert!(v.learned[0].zone.is_root());
    assert!(v.learned[1].zone.same(&n("example.")));
    assert_eq!(v.learned[1].keys[0].public_key, w.child.known().public_key);
    assert_eq!(v.learned[1].ttl, 3600);
    let v = w.judge(
        ZoneDnskeys::Cached(vec![w.root.known()]),
        ZoneDnskeys::Cached(vec![w.child.known()]),
    );
    assert!(matches!(v.status, ValidationStatus::Secure), "{:?}", v.status);
    assert!(v.learned.is_empty());
}

#[test]
fn kept_keys_count_only_where_a_ds_record_matches() {
    let mut w = World::new();
    let other = Signer::new("example.");
    let root = || ZoneDnskeys::Cached(vec![w.root.known()]);
    let v = w.judge(root(), ZoneDnskeys::Cached(vec![other.known()]));
    assert!(matches!(v.status, ValidationStatus::Insecure), "{:?}", v.status);
    let v = w.judge(root(), ZoneDnskeys::Cached(vec![]));
    assert!(matches!(v.status, ValidationStatus::Insecure), "{:?}", v.status);
    // Beside a key that matches, others of the zone are trusted with it.
    let v = w.judge(root(), ZoneDnskeys::Cached(vec![other.known(), w.child.known()]));
    assert!(matches!(v.status, ValidationStatus::Secure), "{:?}", v.status);
    // An answer that only the kept key signed is not secure either.
    let a = data("www.example.", RData::A(A::new(192, 0, 2, 1)));
    w.answer.answers[1] = other.sign(&[a]);
    let v = w.judge(
        ZoneDnskeys::Cached(vec![w.root.known()]),
        ZoneDnskeys::Cached(vec![other.known()]),
    );
    assert!(matches!(v.status, ValidationStatus::Insecure), "{:?}", v.status);
}

#[test]
fn fetched_keys_must_be_signed_and_match() {
    let w = World::new();
    let other = Signer::new("example.");
    let root = || ZoneDnskeys::Fetched(w.root.key_set());
    let v = w.judge(root(), ZoneDnskeys::Fetched(other.key_set()));
    match v.status {
        ValidationStatus::Bogus(why) => {
            assert_eq!(why, "no DNSKEY for example. matches any DS from parent")
        }
        s => panic!("{s:?}"),
    }
    assert_eq!(v.learned.len(), 1, "only the root's keys have been validated");
    let unsigned = vec![inside(&w.child.key_record())];
    let v = w.judge(root(), ZoneDnskeys::Fetched(unsigned));
    match v.status {
        ValidationStatus::Bogus(why) => assert_eq!(why, "DNSKEY RRset for example. unsigned"),
        s => panic!("{s:?}"),
    }
    // A key beside the signed set breaks the signature, and one of another zone is no part
    // of it.
    let mut stuffed = w.child.key_set();
    stuffed.push(inside(&other.key_record()));
    let v = w.judge(root(), ZoneDnskeys::Fetched(stuffed));
    match v.status {
        ValidationStatus::Bogus(why) => {
            assert_eq!(why, "DNSKEY RRset for example. is not self-signed")
        }
        s => panic!("{s:?}"),
    }
    let mut mixed = w.child.key_set();
    mixed.push(inside(&Signer::new("other.").key_record()));
    let f = extract_dnskeys(&mixed, &n("example."));
    assert_eq!((f.records.len(), f.keys.len()), (1, 1));
    assert_eq!(f.keys[0].public_key, w.child.known().public_key);
    let v = w.judge(root(), ZoneDnskeys::Fetched(mixed));
    assert!(matches!(v.status, ValidationStatus::Secure), "{:?}", v.status);
}

#[test]
fn delegations_must_be_signed_by_the_parent() {
    let mut w = World::new();
    w.walk.steps[0].ds_rrsig = vec![w.child.sign(&[w.child.ds_record()])];
    let v = w.judge(
        ZoneDnskeys::Fetched(w.root.key_set()),
        ZoneDnskeys::Fetched(w.child.key_set()),
    );
    assert!(matches!(v.status, ValidationStatus::Bogus(_)), "{:?}", v.status);
    w.walk.steps[0].ds_rrsig = vec![];
    let v = w.judge(
        ZoneDnskeys::Fetched(w.root.key_set()),
        ZoneDnskeys::Fetched(w.child.key_set()),
    );
    match v.status {
        ValidationStatus::Bogus(why) => assert_eq!(why, "DS for example. came without an RRSIG"),
        s => panic!("{s:?}"),
    }
}

#[test]
fn root_keys_must_be_signed_by_an_anchor() {
    let w = World::new();
    let v = w.judge(
        ZoneDnskeys::Fetched(Signer::new(".").key_set()),
        ZoneDnskeys::Fetched(w.child.key_set()),
    );
    match v.status {
        ValidationStatus::Bogus(why) => assert!(
            why.starts_with("root DNSKEY bootstrap: . DNSKEY RRSIG did not verify"),
            "{why}"
        ),
        s => panic!("{s:?}"),
    }
    assert!(v.learned.is_empty());
    let v = w.judge(
        ZoneDnskeys::Fetched(w.root.key_set()),
        ZoneDnskeys::Unreachable,
    );
    assert!(matches!(v.status, ValidationStatus::Insecure), "{:?}", v.status);
}
