//! Presentation form of names, and the base-64 and base-32 encodings.

use crate::name::{Labels, Name};
use crate::wire::byte_strings;
use base64::prelude::Engine;
use vstd::prelude::*;

verus! {

/// What `hickory_proto` reads from a name in presentation form: the labels, and whether
/// the text ended in the root.
pub uninterp spec fn ascii_name(s: Seq<char>) -> Option<(Labels, bool)>;

/// How `hickory_proto` writes the absolute name with these labels.
pub uninterp spec fn name_ascii(n: Labels) -> Option<Seq<char>>;

/// How `hickory_proto` displays the absolute name with these labels; empty where the
/// labels make no name.
pub uninterp spec fn name_text(n: Labels) -> Seq<char>;

/// How `hickory_proto` prints a record type for debugging.
pub uninterp spec fn type_text(t: u16) -> Seq<char>;

/// What the `base64` crate decodes with the standard alphabet and padding.
pub uninterp spec fn base64_decoded(s: Seq<u8>) -> Option<Seq<u8>>;

/// What the `base64` crate decodes with the standard alphabet where padding may be missing
/// and the last bits may be anything.
pub uninterp spec fn base64_lenient_decoded(s: Seq<u8>) -> Option<Seq<u8>>;

/// What the `base64` crate encodes with the standard alphabet and padding.
pub uninterp spec fn base64_encoded(b: Seq<u8>) -> Seq<char>;

/// What the `base64` crate decodes with the URL-safe alphabet and no padding.
pub uninterp spec fn base64_url_decoded(s: Seq<u8>) -> Option<Seq<u8>>;

/// What `data_encoding` decodes with the base-32 "extended hex" alphabet and no padding.
pub uninterp spec fn base32_hex_decoded(s: Seq<u8>) -> Option<Seq<u8>>;

/// `hickory_proto::rr::Name::from_ascii`, its result as labels and the `is_fqdn` flag.
/// The result depends on the text alone.
#[verifier::external_body]
fn parse_ascii(s: &str) -> (r: Option<(Vec<Vec<u8>>, bool)>)
    ensures
        ascii_name(s@) == (match r {
            Some((l, f)) => Some((byte_strings(l@), f)),
            None => None,
        }),
{
    let n = hickory_proto::rr::Name::from_ascii(s).ok()?;
    Some((n.iter().map(|l| l.to_vec()).collect(), n.is_fqdn()))
}

/// `hickory_proto::rr::Name::from_labels` followed by `Name::to_ascii`. `None` where
/// the labels make no name. The result depends on the labels alone.
#[verifier::external_body]
fn print_ascii(labels: &Vec<Vec<u8>>) -> (r: Option<String>)
    ensures
        name_ascii(byte_strings(labels@)) == (match r {
            Some(s) => Some(s@),
            None => None,
        }),
{
    let n = hickory_proto::rr::Name::from_labels(labels.iter().map(|l| l.as_slice())).ok()?;
    Some(n.to_ascii())
}

/// `hickory_proto::rr::Name::from_labels` followed by the `Display` form of `Name`. The
/// result depends on the labels alone.
#[verifier::external_body]
fn display_labels(labels: &Vec<Vec<u8>>) -> (r: String)
    ensures
        r@ == name_text(byte_strings(labels@)),
{
    let n = hickory_proto::rr::Name::from_labels(labels.iter().map(|l| l.as_slice()));
    n.map(|n| n.to_string()).unwrap_or_default()
}

/// The `Debug` form of `hickory_proto::rr::RecordType`. The result depends on the type
/// number alone.
#[verifier::external_body]
pub(crate) fn display_type(t: u16) -> (r: String)
    ensures
        r@ == type_text(t),
{
    format!("{:?}", hickory_proto::rr::RecordType::from(t))
}

/// `base64::engine::general_purpose::STANDARD.decode`, `None` for its error. The
/// result depends on the bytes alone.
#[verifier::external_body]
pub(crate) fn base64_decode(s: &[u8]) -> (r: Option<Vec<u8>>)
    ensures
        base64_decoded(s@) == (match r {
            Some(v) => Some(v@),
            None => None,
        }),
{
    base64::prelude::BASE64_STANDARD.decode(s).ok()
}

/// `base64::engine::GeneralPurpose` with the standard alphabet, indifferent to padding and
/// to trailing bits: `None` for its error. The result depends on the bytes alone.
#[verifier::external_body]
fn base64_decode_lenient(s: &[u8]) -> (r: Option<Vec<u8>>)
    ensures
        base64_lenient_decoded(s@) == (match r {
            Some(v) => Some(v@),
            None => None,
        }),
{
    let mode = base64::engine::DecodePaddingMode::Indifferent;
    let config = base64::engine::GeneralPurposeConfig::new()
        .with_decode_allow_trailing_bits(true)
        .with_decode_padding_mode(mode);
    let alphabet = base64::alphabet::STANDARD;
    base64::engine::GeneralPurpose::new(&alphabet, config).decode(s).ok()
}

/// A character of the standard alphabet, or the padding.
pub open spec fn base64_char(c: char) -> bool {
    'A' <= c <= 'Z' || 'a' <= c <= 'z' || '0' <= c <= '9' || c == '+' || c == '/' || c == '='
}

/// The text is base 64 by the standard: it is made of such characters, and decodes.
pub open spec fn standard_base64(s: Seq<char>) -> bool {
    &&& forall|i: int| 0 <= i < s.len() ==> base64_char(#[trigger] s[i])
    &&& base64_decoded(vstd::utf8::encode_utf8(s)) is Some
}

/// What a base-64 text stands for: what the standard says, and where that refuses it, what
/// it gives when padding may be missing.
pub open spec fn base64_bytes(s: Seq<u8>) -> Option<Seq<u8>> {
    match base64_decoded(s) {
        Some(b) => Some(b),
        None => base64_lenient_decoded(s),
    }
}

/// What a base-64 text stands for.
pub(crate) fn base64_read(s: &[u8]) -> (r: Option<Vec<u8>>)
    ensures
        base64_bytes(s@) == (match r {
            Some(v) => Some(v@),
            None => None,
        }),
{
    match base64_decode(s) {
        Some(b) => Some(b),
        None => base64_decode_lenient(s),
    }
}

/// `base64::engine::general_purpose::STANDARD.encode`. The result depends on the bytes
/// alone; it is made of four characters for every three bytes begun, all of the alphabet or
/// padding, and decoding it gives the bytes back.
#[verifier::external_body]
pub(crate) fn base64_encode(b: &[u8]) -> (r: String)
    ensures
        r@ == base64_encoded(b@),
        base64_decoded(vstd::utf8::encode_utf8(r@)) == Some(b@),
        r@.len() == (b@.len() + 2) / 3 * 4,
        forall|i: int| 0 <= i < r@.len() ==> base64_char(#[trigger] r@[i]),
{
    base64::prelude::BASE64_STANDARD.encode(b)
}

/// `base64::engine::general_purpose::URL_SAFE_NO_PAD.decode`, `None` for its error. The
/// result depends on the bytes alone.
#[verifier::external_body]
pub(crate) fn base64_url_decode(s: &[u8]) -> (r: Option<Vec<u8>>)
    ensures
        base64_url_decoded(s@) == (match r {
            Some(v) => Some(v@),
            None => None,
        }),
{
    base64::prelude::BASE64_URL_SAFE_NO_PAD.decode(s).ok()
}

/// `data_encoding::BASE32HEX_NOPAD.decode`, `None` for its error. The result depends on
/// the bytes alone.
#[verifier::external_body]
pub(crate) fn base32_hex_decode(s: &[u8]) -> (r: Option<Vec<u8>>)
    ensures
        base32_hex_decoded(s@) == (match r {
            Some(v) => Some(v@),
            None => None,
        }),
{
    data_encoding::BASE32HEX_NOPAD.decode(s).ok()
}

impl Name {
    /// Parse a name in presentation form; the flag says whether it ended in the root.
    pub fn from_ascii(s: &str) -> (r: Option<(Name, bool)>)
        ensures
            ascii_name(s@) == (match r {
                Some((n, f)) => Some((n@, f)),
                None => None,
            }),
    {
        match parse_ascii(s) {
            Some((labels, fqdn)) => {
                let n = Name { labels };
                assert(n@ =~= byte_strings(labels@));
                Some((n, fqdn))
            },
            None => None,
        }
    }

    /// The name as shown in messages.
    pub fn text(&self) -> (r: String)
        ensures
            r@ == name_text(self@),
    {
        assert(self@ =~= byte_strings(self.labels@));
        display_labels(&self.labels)
    }

    /// The name in presentation form.
    pub fn to_ascii(&self) -> (r: Option<String>)
        ensures
            name_ascii(self@) == (match r {
                Some(s) => Some(s@),
                None => None,
            }),
    {
        assert(self@ =~= byte_strings(self.labels@));
        print_ascii(&self.labels)
    }
}

} // verus!
