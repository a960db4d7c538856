use dnsd::calendar::chrono_rfc3339;
use dnsd::config::{Acme, Tls};
use dnsd::tls::{
    acme_info, alpn_list, cert_chain, chain_of, file_info, fill_cert_fields, load_file_cert, plan_tls,
    show_cert, CertFields, ChainError, San, TlsError, TlsInfo, TlsPlan,
};

#[test]
fn rfc3339_formatter_renders_known_epoch() {
    assert_eq!(chrono_rfc3339(0), Some("1970-01-01T00:00:00Z".to_string()));
    // 2026-05-14T00:00:00Z
    assert_eq!(chrono_rfc3339(1_778_716_800), Some("2026-05-14T00:00:00Z".to_string()));
    // A leap day.
    assert_eq!(chrono_rfc3339(1_709_210_096), Some("2024-02-29T12:34:56Z".to_string()));
}

#[test]
fn later_times_print_later() {
    let times = [
        0,
        59,
        60,
        3_599,
        3_600,
        86_399,
        86_400,
        951_782_399,
        951_782_400,
        1_709_210_096,
        32_503_679_999,
        253_402_300_799,
    ];
    let texts: Vec<String> = times.iter().map(|t| chrono_rfc3339(*t).unwrap()).collect();
    for w in texts.windows(2) {
        assert!(w[0] < w[1], "{w:?}");
    }
    assert!(texts.iter().all(|t| t.len() == 20));
    assert_eq!(texts[11], "9999-12-31T23:59:59Z");
    assert_eq!(chrono_rfc3339(253_402_300_800), Some("10000-01-01T00:00:00Z".to_string()));
    assert_eq!(chrono_rfc3339(-1), None);
}

#[test]
fn fill_cert_fields_extracts_subject_san_and_not_after() {
    let mut params = rcgen::CertificateParams::new(vec![
        "dns.example.com".to_string(),
        "dot.example.com".to_string(),
    ])
    .expect("CertificateParams::new");
    params.distinguished_name = rcgen::DistinguishedName::new();
    params.distinguished_name.push(rcgen::DnType::CommonName, "dns.example.com");
    let key = rcgen::KeyPair::generate().expect("KeyPair::generate");
    let cert = params.self_signed(&key).expect("self_signed");
    let leaf_der = cert.der().as_ref().to_vec();

    let mut info = TlsInfo::default();
    fill_cert_fields(&leaf_der, &mut info);

    let subj = info.subject.expect("subject");
    assert!(subj.contains("dns.example.com"), "subject was {subj:?}");
    assert!(info.issuer.is_some());
    let nb = info.not_after.expect("not_after");
    assert!(nb.ends_with('Z') && nb.contains('T'), "not_after {nb:?}");
    assert!(
        info.sans.iter().any(|s| s == "DNS:dns.example.com"),
        "missing DNS:dns.example.com in {:?}",
        info.sans
    );
    assert!(info.sans.iter().any(|s| s == "DNS:dot.example.com"));
}

fn self_signed(host: &str) -> (String, Vec<u8>, String) {
    let mut params = rcgen::CertificateParams::new(vec![host.to_string()]).unwrap();
    params.distinguished_name = rcgen::DistinguishedName::new();
    params.distinguished_name.push(rcgen::DnType::CommonName, host);
    let key = rcgen::KeyPair::generate().unwrap();
    let cert = params.self_signed(&key).unwrap();
    (cert.pem(), cert.der().as_ref().to_vec(), key.serialize_pem())
}

#[test]
fn certificate_files_hold_a_chain() {
    let (leaf, leaf_der, key) = self_signed("dns.example.com");
    let (issuer, issuer_der, _) = self_signed("ca.example.com");
    let file = format!("a comment\n{leaf}{key}{issuer}");
    let want = vec![leaf_der.clone(), issuer_der];
    assert_eq!(cert_chain(file.as_bytes()), Ok(want.clone()));
    let cert = load_file_cert(file.as_bytes()).unwrap();
    assert_eq!(cert.chain, want);
    assert!(cert.info.present);
    assert_eq!(cert.info.cert_source, "file");
    assert_eq!(cert.info.alpn, ["dot", "h2", "http/1.1"]);
    assert_eq!(cert.info.subject.as_deref(), Some("CN=dns.example.com"));
    assert_eq!(cert.info.sans, ["DNS:dns.example.com"]);
    assert_eq!(file_info(&leaf_der).subject, cert.info.subject);
    assert!(file_info(b"not a certificate").subject.is_none());
}

#[test]
fn certificate_files_may_be_bad_or_empty() {
    let (leaf, _, key) = self_signed("dns.example.com");
    assert_eq!(cert_chain(b""), Err(ChainError::NoCertificate));
    assert_eq!(cert_chain(key.as_bytes()), Err(ChainError::NoCertificate));
    let cut = &leaf[..leaf.len() / 2];
    assert_eq!(cert_chain(cut.as_bytes()), Err(ChainError::BadPem));
    let second_bad = format!("{leaf}{cut}");
    assert_eq!(cert_chain(second_bad.as_bytes()), Err(ChainError::BadPem));
    assert_eq!(load_file_cert(second_bad.as_bytes()).unwrap_err(), ChainError::BadPem);
    assert_eq!(load_file_cert(b"").unwrap_err(), ChainError::NoCertificate);
    assert_eq!(chain_of(None), Err(ChainError::BadPem));
    assert_eq!(chain_of(Some(vec![])), Err(ChainError::NoCertificate));
    assert_eq!(chain_of(Some(vec![vec![1]])), Ok(vec![vec![1]]));
}

#[test]
fn unreadable_certificate_changes_nothing() {
    let mut info = TlsInfo::default();
    fill_cert_fields(b"not a certificate", &mut info);
    assert!(info.subject.is_none());
    assert!(info.issuer.is_none());
    assert!(info.not_after.is_none());
    assert!(info.sans.is_empty());
}

#[test]
fn alternative_names_are_shown_by_kind() {
    let fields = CertFields {
        subject: "CN=a".to_string(),
        issuer: "CN=b".to_string(),
        not_after: 0,
        sans: vec![
            San::Dns("a.example".to_string()),
            San::Ip(vec![192, 0, 2, 1]),
            San::Other,
        ],
    };
    let mut info = TlsInfo::default();
    show_cert(&fields, &mut info);
    assert_eq!(info.subject.as_deref(), Some("CN=a"));
    assert_eq!(info.issuer.as_deref(), Some("CN=b"));
    assert_eq!(info.not_after.as_deref(), Some("1970-01-01T00:00:00Z"));
    assert_eq!(info.sans[0], "DNS:a.example");
    assert_eq!(info.sans[1], "IP:192.0.2.1");
}

fn acme(domains: Vec<String>, challenge: &str) -> Acme {
    Acme {
        directory: "https://acme.example/directory".to_string(),
        email: "ops@example.com".to_string(),
        domains,
        challenge: challenge.to_string(),
        dns01: None,
    }
}

fn tls(source: &str, acme: Option<Acme>, cert: bool, key: bool) -> Tls {
    Tls {
        cert_source: source.to_string(),
        acme,
        cert_path: if cert { Some("/c.pem".to_string()) } else { None },
        key_path: if key { Some("/k.pem".to_string()) } else { None },
    }
}

#[test]
fn certificate_source_is_planned_from_the_block() {
    assert_eq!(plan_tls(&tls("file", None, true, true)), Ok(TlsPlan::File));
    assert_eq!(plan_tls(&tls("file", None, false, true)), Err(TlsError::MissingCertPath));
    assert_eq!(plan_tls(&tls("file", None, true, false)), Err(TlsError::MissingKeyPath));
    assert_eq!(plan_tls(&tls("acme", None, false, false)), Err(TlsError::MissingAcme));
    let none = acme(vec![], "tls-alpn-01");
    assert_eq!(plan_tls(&tls("acme", Some(none), false, false)), Err(TlsError::NoDomains));
    let d = vec!["dns.example.com".to_string()];
    assert_eq!(
        plan_tls(&tls("acme", Some(acme(d.clone(), "tls-alpn-01")), false, false)),
        Ok(TlsPlan::AcmeTlsAlpn01)
    );
    assert_eq!(
        plan_tls(&tls("acme", Some(acme(d.clone(), "dns-01")), false, false)),
        Err(TlsError::Dns01NotWired)
    );
    assert_eq!(
        plan_tls(&tls("acme", Some(acme(d, "http-01")), false, false)),
        Err(TlsError::UnknownChallenge)
    );
    assert_eq!(plan_tls(&tls("vault", None, false, false)), Err(TlsError::UnknownSource));
}

#[test]
fn acme_listeners_offer_the_challenge_protocol() {
    let file = alpn_list(TlsPlan::File);
    let acme_alpn = alpn_list(TlsPlan::AcmeTlsAlpn01);
    assert_eq!(file, vec!["dot", "h2", "http/1.1"]);
    assert_eq!(acme_alpn, vec!["dot", "h2", "http/1.1", "acme-tls/1"]);
}

#[test]
fn acme_details_name_the_domains() {
    let info = acme_info(&acme(vec!["dns.example.com".to_string()], "tls-alpn-01"));
    assert!(info.present);
    assert!(info.sans.iter().any(|s| s == "DNS:dns.example.com"));
}

#[test]
fn tls_info_default_is_absent() {
    let info = TlsInfo::default();
    assert_eq!(info.present, false);
    assert_eq!(info.cert_source, "");
}
