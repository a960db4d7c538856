//! Certificates: where they come from, and what operators are shown of them.

use crate::calendar::{chrono_rfc3339, falls_on, rfc3339};
use crate::config::{text_v, Acme, Tls};
use crate::net::{be_nat, lemma_be_nat_bound, lemma_pow256_values, read_be, IpAddr};
use crate::net_text::{print_v4, v4_text, v6_text};
use crate::recursor::dns64::strings_v;
use crate::text::{join2, str_eq};
use crate::wire::byte_strings;
use rustls_pki_types::pem::PemObject;
use vstd::prelude::*;

verus! {

/// What operators are shown of the certificate in use.
#[derive(Debug)]
pub struct TlsInfo {
    pub present: bool,
    pub cert_source: String,
    pub subject: Option<String>,
    pub issuer: Option<String>,
    pub not_after: Option<String>,
    pub sans: Vec<String>,
    pub alpn: Vec<String>,
}

impl Default for TlsInfo {
    fn default() -> (r: TlsInfo)
        ensures
            !r.present,
            r.cert_source@.len() == 0,
            r.subject is None,
            r.issuer is None,
            r.not_after is None,
            r.sans@.len() == 0,
            r.alpn@.len() == 0,
    {
        let cert_source = String::new();
        assert(cert_source@.len() == 0) by {
            reveal_strlit("");
        }
        TlsInfo {
            present: false,
            cert_source,
            subject: None,
            issuer: None,
            not_after: None,
            sans: Vec::new(),
            alpn: Vec::new(),
        }
    }
}

/// An alternative name of a certificate.
#[derive(Debug)]
pub enum San {
    Dns(String),
    Ip(Vec<u8>),
    Other,
}

/// The value of a [`San`].
pub enum SanV {
    Dns(Seq<char>),
    Ip(Seq<u8>),
    Other,
}

impl View for San {
    type V = SanV;

    open spec fn view(&self) -> SanV {
        match self {
            San::Dns(s) => SanV::Dns(s@),
            San::Ip(b) => SanV::Ip(b@),
            San::Other => SanV::Other,
        }
    }
}

/// The values of a list of names.
pub open spec fn sans_v(s: Seq<San>) -> Seq<SanV> {
    Seq::new(s.len(), |i: int| s[i]@)
}

/// The fields of a certificate that are shown.
#[derive(Debug)]
pub struct CertFields {
    pub subject: String,
    pub issuer: String,
    /// End of validity, in seconds since 1970.
    pub not_after: i64,
    pub sans: Vec<San>,
}

/// The value of [`CertFields`].
#[verifier::ext_equal]
pub ghost struct CertV {
    pub subject: Seq<char>,
    pub issuer: Seq<char>,
    pub not_after: i64,
    pub sans: Seq<SanV>,
}

impl View for CertFields {
    type V = CertV;

    open spec fn view(&self) -> CertV {
        CertV {
            subject: self.subject@,
            issuer: self.issuer@,
            not_after: self.not_after,
            sans: sans_v(self.sans@),
        }
    }
}

/// What `x509_parser` reads from a certificate in DER form.
pub uninterp spec fn cert_fields(der: Seq<u8>) -> Option<CertV>;

/// `x509_parser::parse_x509_certificate`: subject and issuer by `Display`, the end of
/// validity, and the alternative names, none where there is no readable extension. The
/// result depends on the bytes alone.
#[verifier::external_body]
fn parse_cert(der: &[u8]) -> (r: Option<CertFields>)
    ensures
        cert_fields(der@) == (match r {
            Some(c) => Some(c@),
            None => None,
        }),
{
    let (_, c) = x509_parser::parse_x509_certificate(der).ok()?;
    let names = c.subject_alternative_name().ok().flatten();
    let names = names.map(|s| s.value.general_names.clone()).unwrap_or_default();
    let sans = names.iter().map(|n| match n {
        x509_parser::extensions::GeneralName::DNSName(s) => San::Dns(s.to_string()),
        x509_parser::extensions::GeneralName::IPAddress(b) => San::Ip(b.to_vec()),
        _ => San::Other,
    });
    Some(CertFields {
        subject: c.subject().to_string(),
        issuer: c.issuer().to_string(),
        not_after: c.validity().not_after.timestamp(),
        sans: sans.collect(),
    })
}

/// How an alternative name is shown; names of other kinds, and addresses of other lengths,
/// are not.
pub open spec fn san_text(s: SanV) -> Option<Seq<char>> {
    match s {
        SanV::Dns(n) => Some("DNS:"@ + n),
        SanV::Ip(b) => if b.len() == 4 {
            Some("IP:"@ + v4_text(b))
        } else if b.len() == 16 {
            Some("IP:"@ + v6_text(be_nat(b) as u128))
        } else {
            None
        },
        SanV::Other => None,
    }
}

/// How a list of alternative names is shown.
pub open spec fn san_texts(s: Seq<SanV>) -> Seq<Seq<char>>
    decreases s.len(),
{
    if s.len() == 0 {
        Seq::empty()
    } else {
        let rest = san_texts(s.drop_last());
        match san_text(s.last()) {
            Some(t) => rest.push(t),
            None => rest,
        }
    }
}

fn show_san(s: &San) -> (r: Option<String>)
    ensures
        san_text(s@) == text_v(r),
{
    match s {
        San::Dns(n) => Some(join2("DNS:", n.as_str())),
        San::Ip(b) => {
            if b.len() == 4 {
                Some(join2("IP:", print_v4(b.as_slice()).as_str()))
            } else if b.len() == 16 {
                proof {
                    lemma_be_nat_bound(b@);
                    lemma_pow256_values();
                }
                let a = IpAddr::V6(read_be(b.as_slice()));
                Some(join2("IP:", a.text().as_str()))
            } else {
                None
            }
        },
        San::Other => None,
    }
}

/// Show the fields of a certificate.
pub fn show_cert(c: &CertFields, info: &mut TlsInfo)
    ensures
        final(info).present == old(info).present,
        final(info).cert_source == old(info).cert_source,
        final(info).alpn == old(info).alpn,
        text_v(final(info).subject) == Some(c@.subject),
        text_v(final(info).issuer) == Some(c@.issuer),
        match final(info).not_after {
            None => c.not_after < 0,
            Some(s) => c.not_after >= 0 && exists|y: int, m: int, d: int|
                #[trigger] falls_on(c.not_after as int, y, m, d) && s@ == rfc3339(
                    y,
                    m,
                    d,
                    c.not_after as int,
                ),
        },
        strings_v(final(info).sans@) == strings_v(old(info).sans@) + san_texts(c@.sans),
{
    info.subject = Some(c.subject.clone());
    info.issuer = Some(c.issuer.clone());
    info.not_after = chrono_rfc3339(c.not_after);
    let ghost start = *info;
    let ghost first = strings_v(info.sans@);
    let ghost v = sans_v(c.sans@);
    let mut i: usize = 0;
    assert(first + san_texts(v.subrange(0, 0)) =~= first);
    while i < c.sans.len()
        invariant
            i <= c.sans@.len(),
            v == sans_v(c.sans@),
            info.present == start.present,
            info.cert_source == start.cert_source,
            info.alpn == start.alpn,
            info.subject == start.subject,
            info.issuer == start.issuer,
            info.not_after == start.not_after,
            strings_v(info.sans@) == first + san_texts(v.subrange(0, i as int)),
        decreases c.sans@.len() - i,
    {
        let ghost had = strings_v(info.sans@);
        proof {
            assert(v.subrange(0, i + 1).drop_last() =~= v.subrange(0, i as int));
            assert(v.subrange(0, i + 1).last() == c.sans@[i as int]@);
        }
        if let Some(t) = show_san(&c.sans[i]) {
            let ghost tv = t@;
            info.sans.push(t);
            assert(strings_v(info.sans@) =~= had.push(tv));
            assert(had.push(tv) =~= first + san_texts(v.subrange(0, i + 1)));
        }
        i += 1;
    }
    assert(v.subrange(0, v.len() as int) =~= v);
}

/// The information shows the fields of a certificate, its alternative names behind the
/// given ones.
pub open spec fn shows(info: TlsInfo, c: CertV, sans: Seq<Seq<char>>) -> bool {
    &&& text_v(info.subject) == Some(c.subject)
    &&& text_v(info.issuer) == Some(c.issuer)
    &&& (info.not_after is None <==> c.not_after < 0)
    &&& info.not_after is Some ==> exists|y: int, m: int, d: int| #[trigger]
        falls_on(c.not_after as int, y, m, d) && info.not_after->0@ == rfc3339(
            y,
            m,
            d,
            c.not_after as int,
        )
    &&& strings_v(info.sans@) == sans + san_texts(c.sans)
}

/// Show what a certificate in DER form holds; one that cannot be read leaves the
/// information as it is.
pub fn fill_cert_fields(leaf_der: &[u8], info: &mut TlsInfo)
    ensures
        match cert_fields(leaf_der@) {
            None => *final(info) == *old(info),
            Some(c) => {
                &&& final(info).present == old(info).present
                &&& final(info).cert_source == old(info).cert_source
                &&& final(info).alpn == old(info).alpn
                &&& shows(*final(info), c, strings_v(old(info).sans@))
            },
        },
{
    if let Some(c) = parse_cert(leaf_der) {
        show_cert(&c, info);
    }
}

/// Why there is no certificate.
#[derive(Debug, Clone, Copy, PartialEq, Eq, Structural)]
pub enum TlsError {
    MissingCertPath,
    MissingKeyPath,
    MissingAcme,
    NoDomains,
    Dns01NotWired,
    UnknownChallenge,
    UnknownSource,
}

/// Where the certificate comes from.
#[derive(Debug, Clone, Copy, PartialEq, Eq, Structural)]
pub enum TlsPlan {
    /// From the configured files.
    File,
    /// By ACME, proved over TLS.
    AcmeTlsAlpn01,
}

/// Where the certificate comes from, or why there is none.
pub open spec fn tls_plan(t: Tls) -> Result<TlsPlan, TlsError> {
    if t.cert_source@ == "file"@ {
        if t.cert_path is None {
            Err(TlsError::MissingCertPath)
        } else if t.key_path is None {
            Err(TlsError::MissingKeyPath)
        } else {
            Ok(TlsPlan::File)
        }
    } else if t.cert_source@ == "acme"@ {
        match t.acme {
            None => Err(TlsError::MissingAcme),
            Some(a) => if a.domains@.len() == 0 {
                Err(TlsError::NoDomains)
            } else if a.challenge@ == "tls-alpn-01"@ || a.challenge@ == ""@ {
                Ok(TlsPlan::AcmeTlsAlpn01)
            } else if a.challenge@ == "dns-01"@ {
                Err(TlsError::Dns01NotWired)
            } else {
                Err(TlsError::UnknownChallenge)
            },
        }
    } else {
        Err(TlsError::UnknownSource)
    }
}

/// Where the certificate comes from.
pub fn plan_tls(t: &Tls) -> (r: Result<TlsPlan, TlsError>)
    ensures
        r == tls_plan(*t),
{
    if str_eq(t.cert_source.as_str(), "file") {
        if t.cert_path.is_none() {
            Err(TlsError::MissingCertPath)
        } else if t.key_path.is_none() {
            Err(TlsError::MissingKeyPath)
        } else {
            Ok(TlsPlan::File)
        }
    } else if str_eq(t.cert_source.as_str(), "acme") {
        match &t.acme {
            None => Err(TlsError::MissingAcme),
            Some(a) => {
                if a.domains.len() == 0 {
                    Err(TlsError::NoDomains)
                } else if str_eq(a.challenge.as_str(), "tls-alpn-01") || str_eq(
                    a.challenge.as_str(),
                    "",
                ) {
                    Ok(TlsPlan::AcmeTlsAlpn01)
                } else if str_eq(a.challenge.as_str(), "dns-01") {
                    Err(TlsError::Dns01NotWired)
                } else {
                    Err(TlsError::UnknownChallenge)
                }
            },
        }
    } else {
        Err(TlsError::UnknownSource)
    }
}

/// The protocols offered in TLS handshakes.
pub open spec fn alpn_protocols(p: TlsPlan) -> Seq<Seq<char>> {
    match p {
        TlsPlan::File => seq!["dot"@, "h2"@, "http/1.1"@],
        TlsPlan::AcmeTlsAlpn01 => seq!["dot"@, "h2"@, "http/1.1"@, "acme-tls/1"@],
    }
}

/// The protocols offered in TLS handshakes.
pub fn alpn_list(p: TlsPlan) -> (r: Vec<String>)
    ensures
        strings_v(r@) == alpn_protocols(p),
{
    let mut v: Vec<String> = Vec::new();
    v.push("dot".to_owned());
    v.push("h2".to_owned());
    v.push("http/1.1".to_owned());
    if p == TlsPlan::AcmeTlsAlpn01 {
        v.push("acme-tls/1".to_owned());
    }
    assert(strings_v(v@) =~= alpn_protocols(p));
    v
}

/// What operators are shown of certificates that are ordered: the configured domains.
pub fn acme_info(a: &Acme) -> (r: TlsInfo)
    ensures
        r.present,
        r.cert_source@ == "acme"@,
        r.subject is None,
        r.issuer is None,
        r.not_after is None,
        strings_v(r.alpn@) == alpn_protocols(TlsPlan::AcmeTlsAlpn01),
        r.sans@.len() == a.domains@.len(),
        forall|i: int|
            0 <= i < a.domains@.len() ==> (#[trigger] r.sans@[i])@ == "DNS:"@ + a.domains@[i]@,
{
    let mut sans: Vec<String> = Vec::new();
    let mut i: usize = 0;
    while i < a.domains.len()
        invariant
            i <= a.domains@.len(),
            sans@.len() == i,
            forall|j: int|
                0 <= j < i ==> (#[trigger] sans@[j])@ == "DNS:"@ + a.domains@[j]@,
        decreases a.domains@.len() - i,
    {
        sans.push(join2("DNS:", a.domains[i].as_str()));
        i += 1;
    }
    TlsInfo {
        present: true,
        cert_source: "acme".to_owned(),
        subject: None,
        issuer: None,
        not_after: None,
        sans,
        alpn: alpn_list(TlsPlan::AcmeTlsAlpn01),
    }
}

/// Why a file gives no chain of certificates.
#[derive(Debug, Clone, Copy, PartialEq, Eq, Structural)]
pub enum ChainError {
    /// A section of the file cannot be read.
    BadPem,
    /// No section of the file is a certificate.
    NoCertificate,
}

/// The certificates, in DER form and in order, that `rustls_pki_types` reads from a text in
/// PEM form; none where some section before the end cannot be read.
pub uninterp spec fn pem_certs(pem: Seq<u8>) -> Option<Seq<Seq<u8>>>;

/// `rustls_pki_types::CertificateDer::pem_slice_iter`, run to its end or to its first error,
/// which gives `None`. The result depends on the bytes alone.
#[verifier::external_body]
fn read_pem_certs(pem: &[u8]) -> (r: Option<Vec<Vec<u8>>>)
    ensures
        pem_certs(pem@) == (match r {
            Some(c) => Some(byte_strings(c@)),
            None => None,
        }),
{
    let certs = rustls_pki_types::CertificateDer::pem_slice_iter(pem);
    certs.map(|c| c.map(|c| c.as_ref().to_vec()).ok()).collect()
}

/// The chain of certificates, in DER form, that a text in PEM form holds, the leaf first.
pub fn cert_chain(pem: &[u8]) -> (r: Result<Vec<Vec<u8>>, ChainError>)
    ensures
        match pem_certs(pem@) {
            None => r == Err::<Vec<Vec<u8>>, ChainError>(ChainError::BadPem),
            Some(c) => if c.len() == 0 {
                r == Err::<Vec<Vec<u8>>, ChainError>(ChainError::NoCertificate)
            } else {
                r is Ok && byte_strings(r->Ok_0@) == c
            },
        },
{
    chain_of(read_pem_certs(pem))
}

/// The chain of certificates, given what was read from a text in PEM form.
pub fn chain_of(certs: Option<Vec<Vec<u8>>>) -> (r: Result<Vec<Vec<u8>>, ChainError>)
    ensures
        r == (match certs {
            None => Err(ChainError::BadPem),
            Some(c) => if c@.len() == 0 {
                Err(ChainError::NoCertificate)
            } else {
                Ok(c)
            },
        }),
{
    match certs {
        None => Err(ChainError::BadPem),
        Some(c) => {
            if c.len() == 0 {
                Err(ChainError::NoCertificate)
            } else {
                Ok(c)
            }
        },
    }
}

/// What operators are shown of a certificate from a file, given in DER form.
pub fn file_info(leaf_der: &[u8]) -> (r: TlsInfo)
    ensures
        r.present,
        r.cert_source@ == "file"@,
        strings_v(r.alpn@) == alpn_protocols(TlsPlan::File),
        match cert_fields(leaf_der@) {
            None => r.subject is None && r.issuer is None && r.not_after is None && r.sans@.len()
                == 0,
            Some(c) => shows(r, c, Seq::empty()),
        },
{
    let mut info = TlsInfo {
        present: true,
        cert_source: "file".to_owned(),
        subject: None,
        issuer: None,
        not_after: None,
        sans: Vec::new(),
        alpn: alpn_list(TlsPlan::File),
    };
    assert(strings_v(info.sans@) =~= Seq::empty());
    fill_cert_fields(leaf_der, &mut info);
    info
}

/// A chain of certificates from a file, with what operators are shown of it.
#[derive(Debug)]
pub struct FileCert {
    pub chain: Vec<Vec<u8>>,
    pub info: TlsInfo,
}

/// Read a chain of certificates from the bytes of a file. What is shown of it is what its
/// first certificate holds.
pub fn load_file_cert(pem: &[u8]) -> (r: Result<FileCert, ChainError>)
    ensures
        match pem_certs(pem@) {
            None => r == Err::<FileCert, ChainError>(ChainError::BadPem),
            Some(c) => if c.len() == 0 {
                r == Err::<FileCert, ChainError>(ChainError::NoCertificate)
            } else {
                &&& r is Ok
                &&& byte_strings(r->Ok_0.chain@) == c
                &&& r->Ok_0.info.present
                &&& r->Ok_0.info.cert_source@ == "file"@
                &&& strings_v(r->Ok_0.info.alpn@) == alpn_protocols(TlsPlan::File)
                &&& match cert_fields(c[0]) {
                    None => r->Ok_0.info.subject is None && r->Ok_0.info.issuer is None
                        && r->Ok_0.info.not_after is None && r->Ok_0.info.sans@.len() == 0,
                    Some(f) => shows(r->Ok_0.info, f, Seq::empty()),
                }
            },
        },
{
    match cert_chain(pem) {
        Err(e) => Err(e),
        Ok(chain) => {
            assert(byte_strings(chain@)[0] == chain@[0]@);
            let info = file_info(chain[0].as_slice());
            Ok(FileCert { chain, info })
        },
    }
}

/// All the names and addresses of a certificate are shown, in order.
pub proof fn law_alternative_names_are_shown(s: Seq<SanV>)
    ensures
        san_texts(s) == s.filter(|x: SanV| san_text(x) is Some).map_values(
            |x: SanV| san_text(x)->0,
        ),
    decreases s.len(),
{
    let p = |x: SanV| san_text(x) is Some;
    let f = |x: SanV| san_text(x)->0;
    if s.len() == 0 {
        crate::lists::lemma_pick_none(s, p, f);
    } else {
        law_alternative_names_are_shown(s.drop_last());
        crate::lists::lemma_pick_last(s, p, f);
    }
}


/// Names are shown as they are, and addresses of either family as addresses; other kinds are
/// not shown.
pub proof fn law_shown_names(n: Seq<char>, b: Seq<u8>)
    ensures
        san_text(SanV::Dns(n)) == Some("DNS:"@ + n),
        b.len() == 4 ==> san_text(SanV::Ip(b)) == Some("IP:"@ + v4_text(b)),
        b.len() == 16 ==> san_text(SanV::Ip(b)) == Some("IP:"@ + v6_text(be_nat(b) as u128)),
        b.len() != 4 && b.len() != 16 ==> san_text(SanV::Ip(b)) is None,
        san_text(SanV::Other) is None,
{
}

/// Certificates come from files where that is configured with both paths, and by ACME where
/// that is configured with a domain and a challenge over TLS; anything else is refused.
pub proof fn law_sources_of_certificates(t: Tls)
    ensures
        t.cert_source@ == "file"@ ==> (tls_plan(t) == Ok::<TlsPlan, TlsError>(TlsPlan::File)
            <==> t.cert_path is Some && t.key_path is Some),
        t.cert_source@ == "acme"@ ==> (tls_plan(t) == Ok::<TlsPlan, TlsError>(
            TlsPlan::AcmeTlsAlpn01,
        ) <==> t.acme is Some && t.acme->0.domains@.len() > 0 && (t.acme->0.challenge@
            == "tls-alpn-01"@ || t.acme->0.challenge@ == ""@)),
        t.cert_source@ == "file"@ && tls_plan(t) is Ok ==> tls_plan(t) == Ok::<TlsPlan, TlsError>(
            TlsPlan::File,
        ),
        t.cert_source@ != "file"@ && t.cert_source@ != "acme"@ ==> tls_plan(t) == Err::<
            TlsPlan,
            TlsError,
        >(TlsError::UnknownSource),
        alpn_protocols(TlsPlan::File) == seq!["dot"@, "h2"@, "http/1.1"@],
        alpn_protocols(TlsPlan::AcmeTlsAlpn01) == alpn_protocols(TlsPlan::File).push(
            "acme-tls/1"@,
        ),
{
    reveal_strlit("file");
    reveal_strlit("acme");
    assert("file"@[0] == 'f' && "acme"@[0] == 'a');
    assert(alpn_protocols(TlsPlan::AcmeTlsAlpn01) =~= alpn_protocols(TlsPlan::File).push(
        "acme-tls/1"@,
    ));
}

/// What is shown of a certificate is its subject and issuer, the end of its validity, where
/// that is not before 1970, and its names and addresses behind those shown before.
pub proof fn law_shown_fields(info: TlsInfo, c: CertV, sans: Seq<Seq<char>>)
    requires
        shows(info, c, sans),
    ensures
        text_v(info.subject) == Some(c.subject),
        text_v(info.issuer) == Some(c.issuer),
        info.not_after is Some <==> c.not_after >= 0,
        strings_v(info.sans@) == sans + san_texts(c.sans),
{
}

} // verus!
