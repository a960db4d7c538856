use base64::engine::general_purpose::STANDARD;
use base64::Engine;
use dnsd::recursor::anchor::{
    apply_refresh, render_anchor_file, Dnskey, KeyStatus, ManagedKey, Observed, StateFile,
    DEFAULT_HOLD_DOWN,
};
use dnsd::recursor::refresh::{bootstrap, state_supported, tick, TickError, EMBEDDED_ROOT_KSKS};
use dnsd::recursor::reply::{new_header, new_message, one_query};
use dnsd::recursor::trust::{parse_presentation_format_str, TrustAnchors};
use dnsd::name::Name;
use dnsd::wire::{Record, CLASS_IN, OPCODE_QUERY, TYPE_DNSKEY};

const NOW: u64 = 1_735_689_600;

fn fake_key(byte: u8, sep: bool, revoke: bool) -> Dnskey {
    let mut flags: u16 = 0x0100;
    if sep {
        flags |= 0x0001;
    }
    if revoke {
        flags |= 0x0080;
    }
    Dnskey { flags, algorithm: 13, public_key: vec![byte; 64] }
}

fn seen(key: Dnskey) -> Vec<Observed> {
    vec![Observed { zone: ".".to_string(), key }]
}

fn pending_with_age(secs: u64) -> ManagedKey {
    ManagedKey {
        zone: ".".into(),
        key_tag: 1,
        algorithm: 13,
        flags: 257,
        public_key: STANDARD.encode([0x11; 64]),
        status: KeyStatus::PendingAdd { added_at: NOW.saturating_sub(secs) },
    }
}

fn assert_same(a: &ManagedKey, b: &ManagedKey) {
    assert_eq!(a.zone, b.zone);
    assert_eq!(a.key_tag, b.key_tag);
    assert_eq!(a.algorithm, b.algorithm);
    assert_eq!(a.flags, b.flags);
    assert_eq!(a.public_key, b.public_key);
    assert_eq!(a.status, b.status);
}

#[test]
fn new_ksk_starts_pending() {
    let key = fake_key(0xaa, true, false);
    let (next, diff) = apply_refresh(&vec![], &seen(key), NOW, DEFAULT_HOLD_DOWN);
    assert_eq!(next.len(), 1);
    assert_eq!(diff.added_pending.len(), 1);
    assert!(matches!(next[0].status, KeyStatus::PendingAdd { .. }));
}

#[test]
fn zsk_in_response_does_not_become_anchor() {
    let zsk = fake_key(0xbb, false, false);
    let (next, diff) = apply_refresh(&vec![], &seen(zsk), NOW, DEFAULT_HOLD_DOWN);
    assert!(next.is_empty());
    assert!(diff.added_pending.is_empty());
}

#[test]
fn pending_promotes_after_holddown() {
    let key = fake_key(0x11, true, false);
    let mut existing = pending_with_age(31 * 24 * 3600);
    existing.key_tag = key.calculate_key_tag().unwrap_or(0);
    existing.public_key = STANDARD.encode(&key.public_key);
    let (next, diff) = apply_refresh(&vec![existing], &seen(key), NOW, DEFAULT_HOLD_DOWN);
    assert_eq!(next.len(), 1);
    assert!(matches!(next[0].status, KeyStatus::Active));
    assert_eq!(diff.promoted.len(), 1);
}

#[test]
fn pending_under_holddown_stays_pending() {
    let key = fake_key(0x11, true, false);
    let mut existing = pending_with_age(5 * 24 * 3600);
    existing.key_tag = key.calculate_key_tag().unwrap_or(0);
    existing.public_key = STANDARD.encode(&key.public_key);
    let (next, diff) = apply_refresh(&vec![existing], &seen(key), NOW, DEFAULT_HOLD_DOWN);
    assert_eq!(next.len(), 1);
    assert!(matches!(next[0].status, KeyStatus::PendingAdd { .. }));
    assert!(diff.promoted.is_empty());
}

#[test]
fn pending_disappearing_gets_dropped() {
    let existing = pending_with_age(2 * 24 * 3600);
    let (next, diff) = apply_refresh(&vec![existing], &vec![], NOW, DEFAULT_HOLD_DOWN);
    assert!(next.is_empty());
    assert_eq!(diff.dropped_pending.len(), 1);
}

#[test]
fn revoke_bit_moves_active_to_revoked() {
    let key = fake_key(0x22, true, false);
    let key_tag = key.calculate_key_tag().unwrap_or(0);
    let active = ManagedKey::from_observed(".", &key, KeyStatus::Active);
    let revoked_key = fake_key(0x22, true, true);
    let (next, diff) = apply_refresh(&vec![active], &seen(revoked_key), NOW, DEFAULT_HOLD_DOWN);
    assert_eq!(next.len(), 1);
    assert!(matches!(next[0].status, KeyStatus::Revoked { .. }));
    assert_eq!(diff.revoked, vec![key_tag]);
}

#[test]
fn active_missing_from_response_is_kept() {
    let key = fake_key(0x33, true, false);
    let active = ManagedKey::from_observed(".", &key, KeyStatus::Active);
    let (next, diff) = apply_refresh(&vec![active.clone()], &vec![], NOW, DEFAULT_HOLD_DOWN);
    assert_eq!(next.len(), 1);
    assert_same(&next[0], &active);
    assert!(diff.is_empty());
}

#[test]
fn revoked_disappearing_gets_pruned() {
    let key = fake_key(0x44, true, true);
    let revoked =
        ManagedKey::from_observed(".", &key, KeyStatus::Revoked { revoked_at: NOW });
    let (next, diff) = apply_refresh(&vec![revoked], &vec![], NOW, DEFAULT_HOLD_DOWN);
    assert!(next.is_empty());
    assert_eq!(diff.pruned_revoked.len(), 1);
}

#[test]
fn anchor_file_renders_active_only() {
    let active = ManagedKey {
        zone: ".".into(),
        key_tag: 20326,
        algorithm: 8,
        flags: 257,
        public_key: STANDARD.encode([0xaa; 64]),
        status: KeyStatus::Active,
    };
    let pending = ManagedKey {
        status: KeyStatus::PendingAdd { added_at: 0 },
        key_tag: 38696,
        ..active.clone()
    };
    let revoked = ManagedKey {
        status: KeyStatus::Revoked { revoked_at: 0 },
        key_tag: 12345,
        flags: 257 | 0x0080,
        ..active.clone()
    };
    let rendered = render_anchor_file(&vec![active, pending, revoked], 172800);
    let dnskey_lines: Vec<&str> = rendered.lines().filter(|l| l.contains("DNSKEY")).collect();
    assert_eq!(dnskey_lines.len(), 1, "only Active should render");
    assert!(dnskey_lines[0].contains("257 3 8"));
}

#[test]
fn embedded_root_ksks_parse() {
    let parsed = parse_presentation_format_str(EMBEDDED_ROOT_KSKS).unwrap();
    assert_eq!(parsed.len(), 2, "expected KSK-2017 + KSK-2024");
    for a in parsed.keys() {
        assert!(a.zone.is_root(), "embedded keys must own the root zone");
        assert!(a.key.secure_entry_point(), "embedded keys must have SEP=1");
        assert!(!a.key.revoke(), "embedded keys must not have REVOKE set");
    }
}

#[test]
fn embedded_keys_have_the_published_tags() {
    let parsed = parse_presentation_format_str(EMBEDDED_ROOT_KSKS).unwrap();
    let tags: Vec<Option<u16>> =
        parsed.keys().iter().map(|a| a.key.calculate_key_tag()).collect();
    assert_eq!(tags, vec![Some(20326), Some(38696)]);
}

#[test]
fn bootstrap_writes_anchor_and_state() {
    let (anchors, managed) = bootstrap(EMBEDDED_ROOT_KSKS).unwrap();
    assert_eq!(anchors.len(), 2);

    let rendered = render_anchor_file(&managed, 172800);
    let reread = parse_presentation_format_str(&rendered).unwrap();
    assert_eq!(reread.len(), 2);

    assert_eq!(managed.len(), 2);
    assert!(managed.iter().all(|k| k.is_active()));
}

#[test]
fn anchor_file_reads_back_the_same_keys() {
    let (anchors, managed) = bootstrap(EMBEDDED_ROOT_KSKS).unwrap();
    let reread =
        parse_presentation_format_str(&render_anchor_file(&managed, 3600)).unwrap();
    for (a, b) in anchors.keys().iter().zip(reread.keys().iter()) {
        assert!(a.zone.same(&b.zone));
        assert_eq!(a.key.flags, b.key.flags);
        assert_eq!(a.key.algorithm, b.key.algorithm);
        assert_eq!(a.key.public_key, b.key.public_key);
    }
}

#[test]
fn anchor_file_holds_the_active_keys_alone() {
    let key = |seed: u8, status: KeyStatus, flags: u16| ManagedKey {
        flags,
        ..ManagedKey::from_observed(".", &fake_key(seed, true, false), status)
    };
    let keys = vec![
        key(1, KeyStatus::Active, 257),
        key(2, KeyStatus::PendingAdd { added_at: 5 }, 257),
        key(3, KeyStatus::Revoked { revoked_at: 5 }, 385),
        key(4, KeyStatus::Active, 0xffff),
        ManagedKey { zone: "example.".to_string(), ..key(5, KeyStatus::Active, 256) },
    ];
    let back = parse_presentation_format_str(&render_anchor_file(&keys, 60)).unwrap();
    let got: Vec<(String, u16, Vec<u8>)> = back
        .keys()
        .iter()
        .map(|a| (a.zone.text(), a.key.flags, a.key.public_key.clone()))
        .collect();
    let bytes = |seed: u8| fake_key(seed, true, false).public_key;
    assert_eq!(
        got,
        vec![
            (".".to_string(), 0x0101, bytes(1)),
            (".".to_string(), 0x0101, bytes(4)),
            ("example.".to_string(), 0x0100, bytes(5)),
        ]
    );
}

#[test]
fn managed_keys_round_trip_through_base64() {
    let key = fake_key(0x5a, true, false);
    let managed = ManagedKey::from_observed(".", &key, KeyStatus::Active);
    assert_eq!(managed.public_key, STANDARD.encode(&key.public_key));
    let back = managed.to_dnskey().unwrap();
    assert_eq!(back.public_key, key.public_key);
    assert_eq!(back.flags, key.flags);
    let broken = ManagedKey { public_key: "***".to_string(), ..managed };
    assert!(broken.to_dnskey().is_none());
}

#[test]
fn only_the_first_state_version_is_read() {
    let s = StateFile { version: 1, last_refresh: 1735689600, keys: vec![] };
    assert!(state_supported(&s));
    let s = StateFile { version: 2, last_refresh: 1735689600, keys: vec![] };
    assert!(!state_supported(&s));
}

#[test]
fn unsigned_refresh_is_rejected() {
    let (anchors, managed) = bootstrap(EMBEDDED_ROOT_KSKS).unwrap();
    let mut m =
        new_message(new_header(1, true, OPCODE_QUERY), one_query(&Name::root(), TYPE_DNSKEY, CLASS_IN));
    let key = &anchors.keys()[0].key;
    m.answers.push(Record {
        name: Name::root(),
        rtype: TYPE_DNSKEY,
        class: CLASS_IN,
        ttl: 172800,
        rdata: key.rdata(),
    });
    let out = tick(&m, &anchors, Some(managed), NOW, DEFAULT_HOLD_DOWN);
    assert!(matches!(out, Err(TickError::Unsigned)));
}

#[test]
fn managed_keys_become_anchors_when_active() {
    let key = fake_key(0x66, true, false);
    let keys = vec![
        ManagedKey::from_observed(".", &key, KeyStatus::Active),
        ManagedKey::from_observed(".", &fake_key(0x67, true, false), KeyStatus::PendingAdd {
            added_at: NOW,
        }),
    ];
    let anchors = TrustAnchors::from_managed_keys(&keys).unwrap();
    assert_eq!(anchors.len(), 1);
    assert_eq!(anchors.keys()[0].key.public_key, key.public_key);
}

#[test]
fn refresh_signed_by_a_stranger_is_rejected() {
    let (anchors, managed) = bootstrap(EMBEDDED_ROOT_KSKS).unwrap();
    let root = Name::root();
    let mut m = new_message(new_header(1, true, OPCODE_QUERY), one_query(&root, TYPE_DNSKEY, CLASS_IN));
    m.answers.push(Record {
        name: Name::root(),
        rtype: TYPE_DNSKEY,
        class: CLASS_IN,
        ttl: 172800,
        rdata: fake_key(0x77, true, false).rdata(),
    });
    let mut sig = vec![0, 48, 13, 0, 0, 0, 0, 60];
    sig.extend_from_slice(&2_000_000_000u32.to_be_bytes());
    sig.extend_from_slice(&1_000_000_000u32.to_be_bytes());
    sig.extend_from_slice(&[0, 1, 0]);
    sig.extend_from_slice(&[9; 64]);
    m.answers.push(Record { name: Name::root(), rtype: 46, class: CLASS_IN, ttl: 60, rdata: sig });
    let out = tick(&m, &anchors, Some(managed), NOW, DEFAULT_HOLD_DOWN);
    assert!(matches!(out, Err(TickError::Untrusted)));
}

#[test]
fn second_refresh_changes_nothing() {
    let active = ManagedKey::from_observed(".", &fake_key(1, true, false), KeyStatus::Active);
    let going = ManagedKey::from_observed(".", &fake_key(2, true, false), KeyStatus::Active);
    let observed = vec![
        Observed { zone: ".".to_string(), key: fake_key(2, true, true) },
        Observed { zone: ".".to_string(), key: fake_key(3, true, false) },
        Observed { zone: ".".to_string(), key: fake_key(4, false, false) },
    ];
    let state = vec![active, going, pending_with_age(0)];
    let (first, diff) = apply_refresh(&state, &observed, NOW, DEFAULT_HOLD_DOWN);
    assert!(!diff.is_empty());
    let (second, diff) = apply_refresh(&first, &observed, NOW, DEFAULT_HOLD_DOWN);
    assert!(diff.is_empty());
    assert_eq!(first.len(), second.len());
    for (a, b) in first.iter().zip(second.iter()) {
        assert_same(a, b);
    }
}
