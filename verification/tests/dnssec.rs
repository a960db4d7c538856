use dnsd::config::{DnssecMode, Recursion};
use dnsd::name::Name;
use dnsd::net::IpAddr;
use dnsd::recursor::anchor::Dnskey;
use dnsd::recursor::chain::{check_rrsig_validity, closest_trusted_keys, seed_chain, ZoneKeys};
use dnsd::recursor::crypto::{covers, nsec3_hash, verify_rrset, VerifyError};
use dnsd::recursor::denial::{canonical_lt, closest_encloser, hash_in_range, prepend_wildcard};
use dnsd::recursor::dnssec::{
    apply_validation, plan_step_keys, validate_answer_against_chain, validate_response, validate_walk,
    ChainStep, DnssecPolicy, KeyPlan, ValidationStatus, WalkChain, ZoneDnskeys,
};
use dnsd::recursor::iterative::make_addr_record;
use dnsd::recursor::reply::{new_header, new_message, one_query};
use dnsd::recursor::trust::{parse_presentation_format_str, AnchorError, TrustAnchors};
use dnsd::wire::{Message, Record, CLASS_IN, OPCODE_QUERY, TYPE_A, TYPE_DS, TYPE_RRSIG};

fn n(s: &str) -> Name {
    Name::from_ascii(s).unwrap().0
}

fn make_response(ad: bool) -> Message {
    let mut m = new_message(new_header(0, true, OPCODE_QUERY), vec![]);
    m.header.authentic_data = ad;
    m
}

#[test]
fn pass_through_preserves_ad() {
    let mut m = make_response(true);
    DnssecPolicy::PassThrough.apply_to_response(&mut m);
    assert!(m.header.authentic_data);
}

#[test]
fn strip_clears_ad() {
    let mut m = make_response(true);
    DnssecPolicy::Strip.apply_to_response(&mut m);
    assert!(!m.header.authentic_data);
}

#[test]
fn validate_strips_until_chain_walk_lands() {
    let mut m = make_response(true);
    DnssecPolicy::Validate.apply_to_response(&mut m);
    assert!(!m.header.authentic_data, "without a real chain walker we must never leak AD=1");
}

#[test]
fn policy_from_config_defaults_to_pass_through() {
    assert_eq!(DnssecPolicy::from_recursion(None), DnssecPolicy::PassThrough);
}

#[test]
fn policy_validate_when_mode_is_validate() {
    let r = Recursion { enabled: true, dnssec: DnssecMode::Validate, ..Default::default() };
    assert_eq!(DnssecPolicy::from_recursion(Some(&r)), DnssecPolicy::Validate);
}

#[test]
fn policy_validate_honours_legacy_boolean() {
    let r = Recursion { enabled: true, dnssec_validate: true, ..Default::default() };
    assert_eq!(DnssecPolicy::from_recursion(Some(&r)), DnssecPolicy::Validate);
}

#[test]
fn policy_strip_when_mode_is_strip() {
    let r = Recursion { enabled: true, dnssec: DnssecMode::Strip, ..Default::default() };
    assert_eq!(DnssecPolicy::from_recursion(Some(&r)), DnssecPolicy::Strip);
}

#[test]
fn explicit_dnssec_overrides_legacy_boolean() {
    let r = Recursion {
        enabled: true,
        dnssec: DnssecMode::Strip,
        dnssec_validate: true,
        ..Default::default()
    };
    assert_eq!(DnssecPolicy::from_recursion(Some(&r)), DnssecPolicy::Strip);
}

#[test]
fn trust_anchor_parses_unbound_root_key() {
    let raw = r#"
; the root KSK
.       172800  IN      DNSKEY  257 3 8 AwEAAcoGlCP1+vrZMw/baseline=
.       172800  IN      DNSKEY  256 3 8 AwEAAfakeZSKeyMaterial=
"#;
    let ta = parse_presentation_format_str(raw).expect("parse");
    assert_eq!(ta.len(), 2, "expected KSK + ZSK");
    assert_eq!(ta.dnskeys_for(&n(".")).len(), 2);
}

#[test]
fn empty_trust_anchor_file_parses_cleanly() {
    let ta = parse_presentation_format_str("; just a comment\n\n\n").unwrap();
    assert!(ta.is_empty());
}

#[test]
fn validate_empty_answers_is_insecure() {
    let m = make_response(false);
    let ta = TrustAnchors::new();
    assert!(matches!(validate_response(&m, &ta), ValidationStatus::Insecure));
}

#[test]
fn anchor_lines_may_span_parentheses() {
    let raw = "example. IN DNSKEY 257 3 13 (\n  AQID\n  BAUG ) ; in two parts\n";
    let ta = parse_presentation_format_str(raw).unwrap();
    assert_eq!(ta.len(), 1);
    let keys = ta.dnskeys_for(&n("example."));
    assert_eq!(keys.len(), 1);
    assert_eq!(keys[0].public_key, vec![1, 2, 3, 4, 5, 6]);
    assert_eq!(keys[0].algorithm, 13);
    assert!(ta.dnskeys_for(&n("other.")).is_empty());
}

#[test]
fn each_anchor_error_has_its_line() {
    let cases = [
        (". IN DNSKEY x 3 8 AQID", AnchorError::BadFlags),
        (". IN DNSKEY 257 y 8 AQID", AnchorError::BadProtocol),
        (". IN DNSKEY 257 3 z AQID", AnchorError::BadAlgorithm),
        (". IN DNSKEY 257 3 8 *", AnchorError::BadBase64),
        ("a..b IN DNSKEY 257 3 8 AQID", AnchorError::BadName),
    ];
    for (raw, want) in cases {
        assert_eq!(parse_presentation_format_str(raw).unwrap_err(), want, "for {raw}");
    }
}

#[test]
fn verdicts_set_the_authenticated_bit() {
    let mut m = make_response(false);
    apply_validation(&mut m, &ValidationStatus::Secure);
    assert!(m.header.authentic_data);
    let mut m = make_response(true);
    apply_validation(&mut m, &ValidationStatus::Insecure);
    assert!(!m.header.authentic_data);
    let mut m = make_response(true);
    apply_validation(&mut m, &ValidationStatus::Bogus("x".to_string()));
    assert!(!m.header.authentic_data);
}

// A zone key and a signature made with it: RFC 8080, section 6, first example.
fn ed25519_key() -> Dnskey {
    let ta = parse_presentation_format_str(
        "example.com. 3600 IN DNSKEY 257 3 15 l02Woi0iS8Aa25FQkUd9RMzZHJpBoRQwAQEX1SxZJA4=",
    )
    .unwrap();
    ta.keys()[0].key.clone()
}

fn mx_record() -> Record {
    Record {
        name: n("example.com."),
        rtype: 15,
        class: CLASS_IN,
        ttl: 3600,
        rdata: b"\x00\x0a\x04mail\x07example\x03com\x00".to_vec(),
    }
}

fn mx_signature() -> Record {
    use_signature("oL9krJun7xfBOIWcGHi7mag5/hdZrKWw15jPGrHpjQeRAvTdszaPD+QLs3fx8A4M3e23mRZ9VrbpMngwcrqNAg==")
}

fn use_signature(b64: &str) -> Record {
    let sig = base64::Engine::decode(&base64::engine::general_purpose::STANDARD, b64).unwrap();
    let mut rdata = vec![];
    rdata.extend_from_slice(&15u16.to_be_bytes());
    rdata.push(15);
    rdata.push(2);
    rdata.extend_from_slice(&3600u32.to_be_bytes());
    rdata.extend_from_slice(&1_440_021_600u32.to_be_bytes());
    rdata.extend_from_slice(&1_438_207_200u32.to_be_bytes());
    rdata.extend_from_slice(&3613u16.to_be_bytes());
    rdata.extend_from_slice(b"\x07example\x03com\x00");
    rdata.extend_from_slice(&sig);
    Record { name: n("example.com."), rtype: TYPE_RRSIG, class: CLASS_IN, ttl: 3600, rdata }
}

#[test]
fn signatures_are_verified() {
    let key = ed25519_key();
    assert_eq!(key.calculate_key_tag(), Some(3613));
    assert_eq!(verify_rrset(&vec![mx_record()], &mx_signature(), &key), Ok(()));
    let mut other = mx_record();
    other.rdata[1] = 11;
    assert_eq!(
        verify_rrset(&vec![other], &mx_signature(), &key),
        Err(VerifyError::NotVerified)
    );
    assert_eq!(verify_rrset(&vec![], &mx_signature(), &key), Err(VerifyError::EmptyRrset));
}

fn signed_answer() -> Message {
    let mut m =
        new_message(new_header(1, true, OPCODE_QUERY), one_query(&n("example.com."), 15, CLASS_IN));
    m.answers.push(mx_record());
    m.answers.push(mx_signature());
    m
}

fn trusted() -> Vec<ZoneKeys> {
    vec![ZoneKeys { zone: n("example.com."), absolute: true, keys: vec![ed25519_key()] }]
}

#[test]
fn signed_answers_are_secure_in_their_window() {
    let m = signed_answer();
    let s = validate_answer_against_chain(&m, &trusted(), &n("example.com."), 15, 1_439_000_000);
    assert!(matches!(s, ValidationStatus::Secure), "{s:?}");
    let s = validate_answer_against_chain(&m, &trusted(), &n("example.com."), 15, 1_500_000_000);
    assert!(matches!(s, ValidationStatus::Bogus(_)), "{s:?}");
    let s = validate_answer_against_chain(&m, &trusted(), &n("example.com."), 15, 1_400_000_000);
    assert!(matches!(s, ValidationStatus::Bogus(_)), "{s:?}");
}

#[test]
fn unsigned_answers_are_not_secure() {
    let mut m = signed_answer();
    m.answers.pop();
    let s = validate_answer_against_chain(&m, &trusted(), &n("example.com."), 15, 1_439_000_000);
    assert!(!matches!(s, ValidationStatus::Secure), "{s:?}");
    let mut m = signed_answer();
    m.answers[0].rdata[1] = 11;
    let s = validate_answer_against_chain(&m, &trusted(), &n("example.com."), 15, 1_439_000_000);
    assert!(matches!(s, ValidationStatus::Bogus(_)), "{s:?}");
}

#[test]
fn signature_windows_allow_some_skew() {
    let sig = mx_signature().rrsig().unwrap();
    assert!(check_rrsig_validity(&sig, 1_438_207_200 - 300).is_ok());
    assert!(check_rrsig_validity(&sig, 1_438_207_200 - 301).is_err());
    assert!(check_rrsig_validity(&sig, 1_440_021_600 + 300).is_ok());
    assert!(check_rrsig_validity(&sig, 1_440_021_600 + 301).is_err());
}

#[test]
fn delegation_digests_are_compared() {
    // RFC 8080, section 6: the digest of the key above.
    let key = ed25519_key();
    let mut rdata = vec![];
    rdata.extend_from_slice(&3613u16.to_be_bytes());
    rdata.push(15);
    rdata.push(2);
    for pair in "3aa5ab37efce57f737fc1627013fee07bdf241bd10f3b1964ab55c78e79a304b".as_bytes().chunks(2) {
        rdata.push(u8::from_str_radix(std::str::from_utf8(pair).unwrap(), 16).unwrap());
    }
    let ds = Record {
        name: n("example.com."),
        rtype: TYPE_DS,
        class: CLASS_IN,
        ttl: 86400,
        rdata: rdata.clone(),
    };
    assert!(covers(&ds, &n("example.com."), &key));
    assert!(!covers(&ds, &n("example.net."), &key));
    rdata[10] ^= 1;
    let wrong = Record { rdata, ..ds };
    assert!(!covers(&wrong, &n("example.com."), &key));
}

#[test]
fn owner_names_are_hashed() {
    // RFC 5155, appendix A: salt aabbccdd, 12 iterations.
    let h = nsec3_hash(&[0xaa, 0xbb, 0xcc, 0xdd], &n("example."), 12).unwrap();
    let want = data_encoding::BASE32_DNSSEC.decode(b"0p9mhaveqvm6t7vbl5lop2u3t2rp3tom").unwrap();
    assert_eq!(h, want);
}

#[test]
fn canonical_order_of_names() {
    // RFC 4034, section 6.1.
    let order = ["example.", "a.example.", "yljkjljk.a.example.", "Z.a.example.", "zABC.a.EXAMPLE.",
        "z.example."];
    for w in order.windows(2) {
        assert!(canonical_lt(&n(w[0]), &n(w[1])), "{w:?}");
        assert!(!canonical_lt(&n(w[1]), &n(w[0])), "{w:?}");
    }
    assert!(!canonical_lt(&n("A.example."), &n("a.EXAMPLE.")));
}

#[test]
fn hash_ranges_are_open_and_wrap() {
    assert!(hash_in_range(&[5], &[1], &[9]));
    assert!(!hash_in_range(&[1], &[1], &[9]));
    assert!(!hash_in_range(&[9], &[1], &[9]));
    assert!(hash_in_range(&[10], &[9], &[1]));
    assert!(hash_in_range(&[0], &[9], &[1]));
    assert!(!hash_in_range(&[5], &[9], &[1]));
}

#[test]
fn wildcards_and_enclosers() {
    assert!(prepend_wildcard(&n("example.com.")).unwrap().same_case(&n("*.example.com.")));
    let e = closest_encloser(&n("a.b.example."), &n("example."), &n("x.b.example."));
    assert!(e.same(&n("b.example.")));
}

#[test]
fn deepest_trusted_zone_is_used() {
    let chain = vec![
        ZoneKeys { zone: Name::root(), absolute: true, keys: vec![] },
        ZoneKeys { zone: n("example.com."), absolute: true, keys: vec![ed25519_key()] },
    ];
    assert_eq!(closest_trusted_keys(&chain, &n("www.example.com.")).len(), 1);
    assert_eq!(closest_trusted_keys(&chain, &n("example.net.")).len(), 0);
}

#[test]
fn without_anchors_everything_is_insecure() {
    let v = validate_walk(
        &TrustAnchors::new(),
        &ZoneDnskeys::Failed,
        &WalkChain::default(),
        &vec![],
        &signed_answer(),
        1_439_000_000,
    );
    assert!(matches!(v.status, ValidationStatus::Insecure));
    assert!(v.learned.is_empty());
}

#[test]
fn anchors_seed_the_chain_by_zone() {
    let ta = parse_presentation_format_str(
        ". IN DNSKEY 257 3 8 AQID\n. IN DNSKEY 257 3 8 AQIE\nexample. IN DNSKEY 257 3 8 AQIF\n",
    )
    .unwrap();
    let chain = seed_chain(&ta.keys);
    assert_eq!(chain.len(), 2);
    let root = chain.iter().find(|z| z.zone.is_root()).unwrap();
    assert_eq!(root.keys.len(), 2);
}

#[test]
fn unsigned_delegations_need_no_keys() {
    let step = ChainStep {
        zone: n("example."),
        ds: vec![],
        ds_rrsig: vec![],
        ns_ips: vec![IpAddr::V4(1)],
    };
    let known = vec![ed25519_key()];
    assert!(!matches!(plan_step_keys(&step, Some(&known), false), KeyPlan::UseCached));
    assert!(matches!(plan_step_keys(&step, None, true), KeyPlan::Unreachable));
}

#[test]
fn addresses_alone_are_never_secure() {
    let mut m = make_response(false);
    m.answers.push(make_addr_record(&n("example.com."), 60, IpAddr::V4(1)));
    let s = validate_answer_against_chain(&m, &trusted(), &n("example.com."), TYPE_A, 0);
    assert!(!matches!(s, ValidationStatus::Secure));
}

#[test]
fn walks_are_secure_only_with_signed_delegations() {
    let ta = parse_presentation_format_str(
        "example.com. 3600 IN DNSKEY 257 3 15 l02Woi0iS8Aa25FQkUd9RMzZHJpBoRQwAQEX1SxZJA4=",
    )
    .unwrap();
    let root = ZoneDnskeys::Cached(vec![]);
    let answer = signed_answer();
    let now = 1_439_000_000;
    let v = validate_walk(&ta, &root, &WalkChain::default(), &vec![], &answer, now);
    assert!(matches!(v.status, ValidationStatus::Secure), "{:?}", v.status);
    let step = ChainStep {
        zone: n("example.com."),
        ds: vec![],
        ds_rrsig: vec![],
        ns_ips: vec![IpAddr::V4(1)],
    };
    let walk = WalkChain { steps: vec![step] };
    assert!(walk.answer_zone().unwrap().same(&n("example.com.")));
    let known = vec![ZoneDnskeys::Cached(vec![ed25519_key()])];
    let v = validate_walk(&ta, &root, &walk, &known, &answer, now);
    assert!(matches!(v.status, ValidationStatus::Insecure), "{:?}", v.status);
    let mut walk = walk;
    walk.steps[0].ds.push(Record {
        name: n("example.com."),
        rtype: TYPE_DS,
        class: CLASS_IN,
        ttl: 60,
        rdata: vec![0, 1, 15, 2, 1],
    });
    match validate_walk(&ta, &root, &walk, &known, &answer, now).status {
        ValidationStatus::Bogus(why) => {
            assert_eq!(why, "DS for example.com. came without an RRSIG")
        }
        other => panic!("expected bogus, got {other:?}"),
    }
    let v = validate_walk(&ta, &ZoneDnskeys::Failed, &walk, &known, &answer, now);
    assert!(matches!(v.status, ValidationStatus::Bogus(_)), "{:?}", v.status);
}

#[test]
fn worst_outcome_over_all_sets_counts() {
    let ta = parse_presentation_format_str(
        "example.com. 3600 IN DNSKEY 257 3 15 l02Woi0iS8Aa25FQkUd9RMzZHJpBoRQwAQEX1SxZJA4=",
    )
    .unwrap();
    let whole = signed_answer();
    assert!(matches!(validate_response(&whole, &ta), ValidationStatus::Secure));
    let mut mixed = signed_answer();
    mixed.answers.push(make_addr_record(&n("example.com."), 60, IpAddr::V4(1)));
    assert!(matches!(validate_response(&mixed, &ta), ValidationStatus::Insecure));
    assert!(matches!(validate_response(&whole, &TrustAnchors::new()), ValidationStatus::Insecure));
    mixed.answers[0].rdata[1] = 11;
    assert!(matches!(validate_response(&mixed, &ta), ValidationStatus::Bogus(_)));
}
