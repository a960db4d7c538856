//! DNS over HTTPS (RFC 8484): strict reading of HTTP/1.1 requests, and the replies.

use crate::bytes::{copy_bytes, push_all};
use crate::codec::decoded;
use crate::names::{base64_url_decode, base64_url_decoded};
use crate::recursor::cache::{min_ttl_of, smallest_ttl};
use crate::text::{
    all_digits, chars_of, dec, join3, lower_char, lower_text, number, parse_number, push_dec,
    push_text, str_eq, string_of, upper_char, upper_text,
};
use crate::wire::{Message, MessageV};
use vstd::prelude::*;
use vstd::utf8::{encode_utf8, valid_utf8};

verus! {

/// Where the search for the end of a request's head stops.
pub const MAX_HEADER_BYTES: usize = 8192;

/// The largest request body.
pub const MAX_BODY_BYTES: u64 = 65535;

/// Why a request was turned down without an answer.
#[derive(Debug, Clone, Copy, PartialEq, Eq, Structural)]
pub enum HeadError {
    NotUtf8,
    MissingPath,
    MissingVersion,
    ExtraTokens,
    UnsupportedVersion,
    InvalidMethod,
    InvalidPath,
    EmptyLine,
    LineFolding,
    MissingColon,
    InvalidHeaderName,
    ControlInValue,
}

/// Why a request's framing was turned down.
#[derive(Debug, Clone, Copy, PartialEq, Eq, Structural)]
pub enum FramingError {
    TransferEncoding,
    Trailer,
    DuplicateContentLength,
}

/// A request's head.
#[derive(Debug)]
pub struct RequestHead {
    pub method: String,
    pub path: String,
    /// Names in lower case, values without surrounding blanks.
    pub headers: Vec<(String, String)>,
}

/// The value of a [`RequestHead`].
#[verifier::ext_equal]
pub ghost struct HeadV {
    pub method: Seq<char>,
    pub path: Seq<char>,
    pub headers: Seq<(Seq<char>, Seq<char>)>,
}

/// The values of a list of headers.
pub open spec fn headers_v(s: Seq<(String, String)>) -> Seq<(Seq<char>, Seq<char>)> {
    Seq::new(s.len(), |i: int| (s[i].0@, s[i].1@))
}

impl View for RequestHead {
    type V = HeadV;

    open spec fn view(&self) -> HeadV {
        HeadV {
            method: self.method@,
            path: self.path@,
            headers: headers_v(self.headers@),
        }
    }
}

/// `std::str::from_utf8`: the text, if the bytes are UTF-8.
#[verifier::external_body]
fn utf8_text(b: &[u8]) -> (r: Option<&str>)
    ensures
        match r {
            Some(s) => valid_utf8(b@) && encode_utf8(s@) == b@,
            None => !valid_utf8(b@),
        },
{
    std::str::from_utf8(b).ok()
}

/// The first position, from `i` on, at which `needle` stands in `hay`.
pub open spec fn position_from(hay: Seq<u8>, needle: Seq<u8>, i: int) -> Option<int>
    decreases hay.len() - i,
{
    if i < 0 || i + needle.len() > hay.len() {
        None
    } else if hay.subrange(i, i + needle.len()) == needle {
        Some(i)
    } else if i < hay.len() {
        position_from(hay, needle, i + 1)
    } else {
        None
    }
}

/// The first position at which `needle` stands in `hay`.
pub fn find_subsequence(hay: &[u8], needle: &[u8]) -> (r: Option<usize>)
    requires
        needle@.len() > 0,
    ensures
        position_from(hay@, needle@, 0) == (match r {
            Some(p) => Some(p as int),
            None => None,
        }),
        r is Some ==> r->0 + needle@.len() <= hay@.len(),
{
    let n: usize = needle.len();
    let h: usize = hay.len();
    let mut i: usize = 0;
    while i <= h && n <= h - i
        invariant
            n == needle@.len(),
            h == hay@.len(),
            n > 0,
            position_from(hay@, needle@, 0) == position_from(hay@, needle@, i as int),
        decreases hay@.len() + 1 - i,
    {
        let mut j: usize = 0;
        let mut same: bool = true;
        while same && j < n
            invariant
                j <= n,
                n == needle@.len(),
                i + n <= h,
                h == hay@.len(),
                same ==> forall|k: int| 0 <= k < j ==> hay@[i + k] == needle@[k],
                !same ==> hay@.subrange(i as int, i + n) != needle@,
            decreases n - j,
                if same {
                    1int
                } else {
                    0int
                },
        {
            if hay[i + j] != needle[j] {
                assert(hay@.subrange(i as int, i + n)[j as int] != needle@[j as int]);
                same = false;
            } else {
                j += 1;
            }
        }
        if same {
            assert(hay@.subrange(i as int, i + n) =~= needle@);
            return Some(i);
        }
        i += 1;
    }
    None
}

/// What to do while a request's head is read.
#[derive(Debug, Clone, Copy, PartialEq, Eq, Structural)]
pub enum HeadScan {
    /// The head ends here; the body starts behind the blank line.
    Complete(usize),
    /// It is too long.
    TooLong,
    /// Read on.
    More,
}

/// The blank line that ends a head.
pub open spec fn head_end() -> Seq<u8> {
    seq![13u8, 10, 13, 10]
}

/// Where the reading of a head stands.
pub fn scan_head(buf: &[u8]) -> (r: HeadScan)
    ensures
        r == (match position_from(buf@, head_end(), 0) {
            Some(p) => HeadScan::Complete((p + 4) as usize),
            None => if buf@.len() >= MAX_HEADER_BYTES {
                HeadScan::TooLong
            } else {
                HeadScan::More
            },
        }),
{
    let needle: [u8; 4] = [13, 10, 13, 10];
    assert(needle@ =~= head_end());
    let len: usize = buf.len();
    match find_subsequence(buf, needle.as_slice()) {
        Some(p) => HeadScan::Complete(p + 4),
        None => if len >= MAX_HEADER_BYTES {
            HeadScan::TooLong
        } else {
            HeadScan::More
        },
    }
}

/// The bytes that may stand in a method or header name (RFC 7230, section 3.2.6).
pub open spec fn token_char(b: u8) -> bool {
    ||| 48 <= b <= 57
    ||| 65 <= b <= 90
    ||| 97 <= b <= 122
    ||| b == 33
    ||| 35 <= b <= 39
    ||| b == 42
    ||| b == 43
    ||| b == 45
    ||| b == 46
    ||| 94 <= b <= 96
    ||| b == 124
    ||| b == 126
}

/// Whether the byte may stand in a method or header name.
pub fn is_token_char(b: u8) -> (r: bool)
    ensures
        r == token_char(b),
{
    (48 <= b && b <= 57) || (65 <= b && b <= 90) || (97 <= b && b <= 122) || b == 33 || (35 <= b
        && b <= 39) || b == 42 || b == 43 || b == 45 || b == 46 || (94 <= b && b <= 96) || b == 124
        || b == 126
}

/// The text is a token: not empty, and every character may stand in one.
pub open spec fn is_token(s: Seq<char>) -> bool {
    s.len() > 0 && forall|i: int|
        0 <= i < s.len() ==> (#[trigger] s[i] as u32) < 128 && token_char((s[i] as u32) as u8)
}

/// The text is a path: not empty, and without control characters.
pub open spec fn is_path(s: Seq<char>) -> bool {
    s.len() > 0 && forall|i: int|
        0 <= i < s.len() ==> #[trigger] s[i] as u32 >= 0x20 && s[i] as u32 != 0x7f
}

/// The text holds NUL, CR or LF.
pub open spec fn has_control(s: Seq<char>) -> bool {
    exists|i: int|
        0 <= i < s.len() && (#[trigger] s[i] as u32 == 0 || s[i] as u32 == 13 || s[i] as u32 == 10)
}

/// The pieces between separators.
pub open spec fn split_at_char(s: Seq<char>, sep: char) -> Seq<Seq<char>>
    decreases s.len(),
{
    if s.len() == 0 {
        seq![s]
    } else {
        let rest = split_at_char(s.drop_last(), sep);
        if s.last() == sep {
            rest.push(Seq::empty())
        } else {
            rest.update(rest.len() - 1, rest.last().push(s.last()))
        }
    }
}

/// The lines of a text whose lines end in CR LF.
pub open spec fn split_lines(s: Seq<char>) -> Seq<Seq<char>>
    decreases s.len(),
{
    if s.len() == 0 {
        seq![s]
    } else {
        let rest = split_lines(s.drop_last());
        let cur = rest.last();
        if s.last() == '\n' && cur.len() > 0 && cur.last() == '\r' {
            rest.update(rest.len() - 1, cur.drop_last()).push(Seq::empty())
        } else {
            rest.update(rest.len() - 1, cur.push(s.last()))
        }
    }
}

/// The values of a list of texts.
pub open spec fn texts_v(s: Seq<Vec<char>>) -> Seq<Seq<char>> {
    Seq::new(s.len(), |i: int| s[i]@)
}

fn split_char(s: &[char], sep: char) -> (r: Vec<Vec<char>>)
    ensures
        texts_v(r@) == split_at_char(s@, sep),
        r@.len() > 0,
{
    let mut done: Vec<Vec<char>> = Vec::new();
    let mut cur: Vec<char> = Vec::new();
    let mut i: usize = 0;
    assert(cur@ =~= s@.subrange(0, 0));
    assert(texts_v(done@).push(cur@) =~= seq![s@.subrange(0, 0)]);
    while i < s.len()
        invariant
            i <= s@.len(),
            texts_v(done@).push(cur@) == split_at_char(s@.subrange(0, i as int), sep),
        decreases s@.len() - i,
    {
        let ghost had = texts_v(done@);
        let ghost was = cur@;
        proof {
            assert(s@.subrange(0, i + 1).drop_last() =~= s@.subrange(0, i as int));
        }
        if s[i] == sep {
            done.push(cur);
            cur = Vec::new();
            assert(texts_v(done@) =~= had.push(was));
            assert(cur@ =~= Seq::empty());
        } else {
            cur.push(s[i]);
            assert(had.push(was).update(had.len() as int, was.push(s@[i as int])) =~= had.push(
                cur@,
            ));
        }
        i += 1;
    }
    assert(s@.subrange(0, s@.len() as int) =~= s@);
    let ghost had = texts_v(done@);
    let ghost was = cur@;
    done.push(cur);
    assert(texts_v(done@) =~= had.push(was));
    done
}

fn split_crlf(s: &[char]) -> (r: Vec<Vec<char>>)
    ensures
        texts_v(r@) == split_lines(s@),
        r@.len() > 0,
{
    let mut done: Vec<Vec<char>> = Vec::new();
    let mut cur: Vec<char> = Vec::new();
    let mut i: usize = 0;
    assert(cur@ =~= s@.subrange(0, 0));
    assert(texts_v(done@).push(cur@) =~= seq![s@.subrange(0, 0)]);
    while i < s.len()
        invariant
            i <= s@.len(),
            texts_v(done@).push(cur@) == split_lines(s@.subrange(0, i as int)),
        decreases s@.len() - i,
    {
        let ghost had = texts_v(done@);
        let ghost was = cur@;
        proof {
            assert(s@.subrange(0, i + 1).drop_last() =~= s@.subrange(0, i as int));
            assert(had.push(was).last() == was);
        }
        if s[i] == '\n' && cur.len() > 0 && cur[cur.len() - 1] == '\r' {
            cur.pop();
            proof {
                assert(cur@ =~= was.drop_last());
                assert(had.push(was).update(had.len() as int, cur@) =~= had.push(cur@));
            }
            let ghost cut = cur@;
            done.push(cur);
            cur = Vec::new();
            assert(texts_v(done@) =~= had.push(cut));
            assert(cur@ =~= Seq::empty());
        } else {
            cur.push(s[i]);
            assert(had.push(was).update(had.len() as int, was.push(s@[i as int])) =~= had.push(
                cur@,
            ));
        }
        i += 1;
    }
    assert(s@.subrange(0, s@.len() as int) =~= s@);
    let ghost had = texts_v(done@);
    let ghost was = cur@;
    done.push(cur);
    assert(texts_v(done@) =~= had.push(was));
    done
}

/// The position of the first colon, from `i` on.
pub open spec fn colon_at(s: Seq<char>, i: int) -> Option<int>
    decreases s.len() - i,
{
    if i < 0 || i >= s.len() {
        None
    } else if s[i] == ':' {
        Some(i)
    } else {
        colon_at(s, i + 1)
    }
}

/// A blank or a tab.
pub open spec fn is_blank(c: char) -> bool {
    c == ' ' || c == '\t'
}

/// The first position, from `i` on, that is not blank.
pub open spec fn skip_blank(s: Seq<char>, i: int) -> int
    decreases s.len() - i,
{
    if i < 0 || i >= s.len() || !is_blank(s[i]) {
        i
    } else {
        skip_blank(s, i + 1)
    }
}

/// The text without trailing blanks.
pub open spec fn trim_end(s: Seq<char>) -> Seq<char>
    decreases s.len(),
{
    if s.len() > 0 && is_blank(s.last()) {
        trim_end(s.drop_last())
    } else {
        s
    }
}

/// The text without surrounding blanks.
pub open spec fn trimmed(s: Seq<char>) -> Seq<char> {
    trim_end(s.subrange(skip_blank(s, 0), s.len() as int))
}

/// What one header line says.
pub open spec fn header_in(line: Seq<char>) -> Result<(Seq<char>, Seq<char>), HeadError> {
    if line.len() == 0 {
        Err(HeadError::EmptyLine)
    } else if is_blank(line[0]) {
        Err(HeadError::LineFolding)
    } else {
        match colon_at(line, 0) {
            None => Err(HeadError::MissingColon),
            Some(p) => {
                let name = line.subrange(0, p);
                let value = trimmed(line.subrange(p + 1, line.len() as int));
                if !is_token(name) {
                    Err(HeadError::InvalidHeaderName)
                } else if has_control(value) {
                    Err(HeadError::ControlInValue)
                } else {
                    Ok((lower_text(name), value))
                }
            },
        }
    }
}

/// What the first `n` header lines say; the first fault decides.
pub open spec fn headers_in(lines: Seq<Seq<char>>, n: int) -> Result<
    Seq<(Seq<char>, Seq<char>)>,
    HeadError,
>
    decreases n,
{
    if n <= 1 {
        Ok(Seq::empty())
    } else {
        match headers_in(lines, n - 1) {
            Err(e) => Err(e),
            Ok(rest) => match header_in(lines[n - 1]) {
                Err(e) => Err(e),
                Ok(h) => Ok(rest.push(h)),
            },
        }
    }
}

/// What is wrong with the request line, if anything.
pub open spec fn request_line_error(parts: Seq<Seq<char>>) -> Option<HeadError> {
    if parts.len() < 2 {
        Some(HeadError::MissingPath)
    } else if parts.len() < 3 {
        Some(HeadError::MissingVersion)
    } else if parts.len() > 3 {
        Some(HeadError::ExtraTokens)
    } else if parts[2] != "HTTP/1.1"@ {
        Some(HeadError::UnsupportedVersion)
    } else if !is_token(parts[0]) {
        Some(HeadError::InvalidMethod)
    } else if !is_path(parts[1]) {
        Some(HeadError::InvalidPath)
    } else {
        None
    }
}

/// The head that a text stands for: the method in upper case, header names in lower case.
pub open spec fn head_in(text: Seq<char>) -> Result<HeadV, HeadError> {
    let lines = split_lines(text);
    let parts = split_at_char(lines[0], ' ');
    match request_line_error(parts) {
        Some(e) => Err(e),
        None => match headers_in(lines, lines.len() as int) {
            Err(e) => Err(e),
            Ok(headers) => Ok(
                HeadV { method: upper_text(parts[0]), path: parts[1], headers },
            ),
        },
    }
}

fn check_token(s: &[char]) -> (r: bool)
    ensures
        r == is_token(s@),
{
    let mut i: usize = 0;
    while i < s.len()
        invariant
            i <= s@.len(),
            forall|j: int|
                0 <= j < i ==> (#[trigger] s@[j] as u32) < 128 && token_char((s@[j] as u32) as u8),
        decreases s@.len() - i,
    {
        let u: u32 = s[i] as u32;
        if u >= 128 || !is_token_char(u as u8) {
            assert(!((s@[i as int] as u32) < 128 && token_char((s@[i as int] as u32) as u8)));
            return false;
        }
        i += 1;
    }
    s.len() > 0
}

fn check_path(s: &[char]) -> (r: bool)
    ensures
        r == is_path(s@),
{
    let mut i: usize = 0;
    while i < s.len()
        invariant
            i <= s@.len(),
            forall|j: int| 0 <= j < i ==> #[trigger] s@[j] as u32 >= 0x20 && s@[j] as u32 != 0x7f,
        decreases s@.len() - i,
    {
        let u: u32 = s[i] as u32;
        if u < 0x20 || u == 0x7f {
            assert(!(s@[i as int] as u32 >= 0x20 && s@[i as int] as u32 != 0x7f));
            return false;
        }
        i += 1;
    }
    s.len() > 0
}

fn check_control(s: &[char]) -> (r: bool)
    ensures
        r == has_control(s@),
{
    let mut i: usize = 0;
    while i < s.len()
        invariant
            i <= s@.len(),
            forall|j: int|
                0 <= j < i ==> !(#[trigger] s@[j] as u32 == 0 || s@[j] as u32 == 13 || s@[j] as u32
                    == 10),
        decreases s@.len() - i,
    {
        let u: u32 = s[i] as u32;
        if u == 0 || u == 13 || u == 10 {
            assert(s@[i as int] as u32 == u);
            return true;
        }
        i += 1;
    }
    false
}

fn sub_text(s: &[char], from: usize, to: usize) -> (r: Vec<char>)
    requires
        from <= to <= s@.len(),
    ensures
        r@ == s@.subrange(from as int, to as int),
{
    let mut out: Vec<char> = Vec::new();
    let mut i: usize = from;
    while i < to
        invariant
            from <= i <= to <= s@.len(),
            out@ == s@.subrange(from as int, i as int),
        decreases to - i,
    {
        out.push(s[i]);
        i += 1;
        assert(out@ =~= s@.subrange(from as int, i as int));
    }
    assert(s@.subrange(from as int, from as int) =~= Seq::<char>::empty());
    out
}

fn trim_blanks(s: &[char]) -> (r: Vec<char>)
    ensures
        r@ == trimmed(s@),
{
    let mut start: usize = 0;
    while start < s.len() && (s[start] == ' ' || s[start] == '\t')
        invariant
            start <= s@.len(),
            skip_blank(s@, 0) == skip_blank(s@, start as int),
        decreases s@.len() - start,
    {
        start += 1;
    }
    let mut out = sub_text(s, start, s.len());
    let ghost whole = out@;
    while out.len() > 0 && (out[out.len() - 1] == ' ' || out[out.len() - 1] == '\t')
        invariant
            trim_end(whole) == trim_end(out@),
        decreases out@.len(),
    {
        let ghost was = out@;
        out.pop();
        assert(out@ =~= was.drop_last());
    }
    out
}

fn lower_string(s: &[char]) -> (r: String)
    ensures
        r@ == lower_text(s@),
{
    let mut out: Vec<char> = Vec::new();
    let mut i: usize = 0;
    while i < s.len()
        invariant
            i <= s@.len(),
            out@.len() == i,
            forall|j: int| 0 <= j < i ==> out@[j] == lower_char(s@[j]),
        decreases s@.len() - i,
    {
        out.push(crate::text::char_lower(s[i]));
        i += 1;
    }
    assert(out@ =~= lower_text(s@));
    string_of(out.as_slice())
}

fn upper_string(s: &[char]) -> (r: String)
    ensures
        r@ == upper_text(s@),
{
    let mut out: Vec<char> = Vec::new();
    let mut i: usize = 0;
    while i < s.len()
        invariant
            i <= s@.len(),
            out@.len() == i,
            forall|j: int| 0 <= j < i ==> out@[j] == upper_char(s@[j]),
        decreases s@.len() - i,
    {
        out.push(crate::text::char_upper(s[i]));
        i += 1;
    }
    assert(out@ =~= upper_text(s@));
    string_of(out.as_slice())
}

fn read_header(line: &Vec<char>) -> (r: Result<(String, String), HeadError>)
    ensures
        header_in(line@) == (match r {
            Ok((n, v)) => Ok((n@, v@)),
            Err(e) => Err(e),
        }),
{
    if line.len() == 0 {
        return Err(HeadError::EmptyLine);
    }
    if line[0] == ' ' || line[0] == '\t' {
        return Err(HeadError::LineFolding);
    }
    let mut p: usize = 0;
    while p < line.len() && line[p] != ':'
        invariant
            p <= line@.len(),
            colon_at(line@, 0) == colon_at(line@, p as int),
        decreases line@.len() - p,
    {
        p += 1;
    }
    if p == line.len() {
        return Err(HeadError::MissingColon);
    }
    let name = sub_text(line.as_slice(), 0, p);
    if !check_token(name.as_slice()) {
        return Err(HeadError::InvalidHeaderName);
    }
    let value = trim_blanks(sub_text(line.as_slice(), p + 1, line.len()).as_slice());
    if check_control(value.as_slice()) {
        return Err(HeadError::ControlInValue);
    }
    Ok((lower_string(name.as_slice()), string_of(value.as_slice())))
}

fn chars_eq(a: &[char], b: &str) -> (r: bool)
    ensures
        r == (a@ == b@),
{
    str_eq(string_of(a).as_str(), b)
}

/// Read a request's head, without the blank line that ends it. Anything that two readers
/// could take differently is turned down.
pub fn parse_request_head(bytes: &[u8]) -> (r: Result<RequestHead, HeadError>)
    ensures
        match r {
            Err(HeadError::NotUtf8) => !valid_utf8(bytes@),
            _ => valid_utf8(bytes@) && exists|text: Seq<char>|
                #[trigger] encode_utf8(text) == bytes@ && head_in(text) == (match r {
                    Ok(h) => Ok(h@),
                    Err(e) => Err(e),
                }),
        },
{
    match utf8_text(bytes) {
        None => Err(HeadError::NotUtf8),
        Some(text) => {
            let r = parse_head_text(text);
            assert(encode_utf8(text@) == bytes@);
            proof {
                lemma_head_error(text@);
            }
            r
        },
    }
}

proof fn lemma_header_error(line: Seq<char>)
    ensures
        header_in(line) != Err::<(Seq<char>, Seq<char>), HeadError>(HeadError::NotUtf8),
{
}

proof fn lemma_headers_error(lines: Seq<Seq<char>>, n: int)
    ensures
        headers_in(lines, n) != Err::<Seq<(Seq<char>, Seq<char>)>, HeadError>(HeadError::NotUtf8),
    decreases n,
{
    if n > 1 {
        lemma_headers_error(lines, n - 1);
        lemma_header_error(lines[n - 1]);
    }
}

proof fn lemma_head_error(text: Seq<char>)
    ensures
        head_in(text) != Err::<HeadV, HeadError>(HeadError::NotUtf8),
{
    let lines = split_lines(text);
    lemma_headers_error(lines, lines.len() as int);
}

/// Read a request's head from text.
pub fn parse_head_text(text: &str) -> (r: Result<RequestHead, HeadError>)
    ensures
        head_in(text@) == (match r {
            Ok(h) => Ok(h@),
            Err(e) => Err(e),
        }),
{
    let chars = chars_of(text);
    let lines = split_crlf(chars.as_slice());
    let ghost lv = texts_v(lines@);
    assert(lv[0] == lines@[0]@);
    let parts = split_char(lines[0].as_slice(), ' ');
    let ghost pv = texts_v(parts@);
    assert(pv.len() == parts@.len());
    if parts.len() < 2 {
        return Err(HeadError::MissingPath);
    }
    if parts.len() < 3 {
        return Err(HeadError::MissingVersion);
    }
    if parts.len() > 3 {
        return Err(HeadError::ExtraTokens);
    }
    assert(pv[0] == parts@[0]@);
    assert(pv[1] == parts@[1]@);
    assert(pv[2] == parts@[2]@);
    if !chars_eq(parts[2].as_slice(), "HTTP/1.1") {
        return Err(HeadError::UnsupportedVersion);
    }
    if !check_token(parts[0].as_slice()) {
        return Err(HeadError::InvalidMethod);
    }
    if !check_path(parts[1].as_slice()) {
        return Err(HeadError::InvalidPath);
    }
    let mut headers: Vec<(String, String)> = Vec::new();
    let mut failed: Option<HeadError> = None;
    let mut i: usize = 1;
    assert(headers_v(headers@) =~= Seq::empty());
    while i < lines.len()
        invariant
            1 <= i <= lines@.len(),
            lv == texts_v(lines@),
            headers_in(lv, i as int) == (match failed {
                None => Ok(headers_v(headers@)),
                Some(e) => Err(e),
            }),
        decreases lines@.len() - i,
    {
        let ghost had = headers_v(headers@);
        assert(lv[i as int] == lines@[i as int]@);
        if failed.is_none() {
            match read_header(&lines[i]) {
                Ok(h) => {
                    let ghost hv = (h.0@, h.1@);
                    headers.push(h);
                    assert(headers_v(headers@) =~= had.push(hv));
                },
                Err(e) => {
                    failed = Some(e);
                },
            }
        }
        i += 1;
    }
    match failed {
        Some(e) => Err(e),
        None => Ok(
            RequestHead {
                method: upper_string(parts[0].as_slice()),
                path: string_of(parts[1].as_slice()),
                headers,
            },
        ),
    }
}

/// How many headers have this name, among the first `n`.
pub open spec fn count_named(h: Seq<(Seq<char>, Seq<char>)>, name: Seq<char>, n: int) -> nat
    decreases n,
{
    if n <= 0 {
        0
    } else {
        count_named(h, name, n - 1) + (if h[n - 1].0 == name {
            1nat
        } else {
            0
        })
    }
}

/// What is wrong with the framing that the headers announce, if anything.
pub open spec fn framing_error(h: Seq<(Seq<char>, Seq<char>)>) -> Option<FramingError> {
    if count_named(h, "transfer-encoding"@, h.len() as int) > 0 {
        Some(FramingError::TransferEncoding)
    } else if count_named(h, "trailer"@, h.len() as int) > 0 {
        Some(FramingError::Trailer)
    } else if count_named(h, "content-length"@, h.len() as int) > 1 {
        Some(FramingError::DuplicateContentLength)
    } else {
        None
    }
}

fn count_headers(headers: &Vec<(String, String)>, name: &str) -> (r: usize)
    ensures
        r == count_named(headers_v(headers@), name@, headers@.len() as int),
{
    let ghost v = headers_v(headers@);
    let mut n: usize = 0;
    let mut i: usize = 0;
    while i < headers.len()
        invariant
            i <= headers@.len(),
            v == headers_v(headers@),
            n == count_named(v, name@, i as int),
            n <= i,
        decreases headers@.len() - i,
    {
        assert(v[i as int].0 == headers@[i as int].0@);
        if str_eq(headers[i].0.as_str(), name) {
            n += 1;
        }
        i += 1;
    }
    n
}

/// Turn down headers by which two readers could disagree on where a request ends.
pub fn validate_framing(headers: &Vec<(String, String)>) -> (r: Result<(), FramingError>)
    ensures
        framing_error(headers_v(headers@)) == (match r {
            Ok(()) => None,
            Err(e) => Some(e),
        }),
{
    if count_headers(headers, "transfer-encoding") > 0 {
        return Err(FramingError::TransferEncoding);
    }
    if count_headers(headers, "trailer") > 0 {
        return Err(FramingError::Trailer);
    }
    if count_headers(headers, "content-length") > 1 {
        return Err(FramingError::DuplicateContentLength);
    }
    Ok(())
}

/// The value of the first header of this name, from `i` on.
pub open spec fn header_value(h: Seq<(Seq<char>, Seq<char>)>, name: Seq<char>, i: int) -> Option<
    Seq<char>,
>
    decreases h.len() - i,
{
    if i < 0 || i >= h.len() {
        None
    } else if h[i].0 == name {
        Some(h[i].1)
    } else {
        header_value(h, name, i + 1)
    }
}

/// The length that the headers announce: decimal digits only.
pub open spec fn announced_length(h: Seq<(Seq<char>, Seq<char>)>) -> Option<nat> {
    match header_value(h, "content-length"@, 0) {
        None => None,
        Some(v) => if v.len() > 0 && all_digits(v) {
            number(v, u64::MAX as nat)
        } else {
            None
        },
    }
}

fn check_digits(s: &[char]) -> (r: bool)
    ensures
        r == all_digits(s@),
{
    let mut i: usize = 0;
    while i < s.len()
        invariant
            i <= s@.len(),
            forall|j: int| 0 <= j < i ==> '0' <= #[trigger] s@[j] <= '9',
        decreases s@.len() - i,
    {
        if !('0' <= s[i] && s[i] <= '9') {
            assert(!('0' <= s@[i as int] <= '9'));
            return false;
        }
        i += 1;
    }
    true
}

/// The length that the headers announce.
pub fn content_length(headers: &Vec<(String, String)>) -> (r: Option<u64>)
    ensures
        announced_length(headers_v(headers@)) == (match r {
            Some(n) => Some(n as nat),
            None => None,
        }),
{
    let ghost v = headers_v(headers@);
    let mut i: usize = 0;
    while i < headers.len()
        invariant
            i <= headers@.len(),
            v == headers_v(headers@),
            header_value(v, "content-length"@, 0) == header_value(v, "content-length"@, i as int),
        decreases headers@.len() - i,
    {
        assert(v[i as int] == (headers@[i as int].0@, headers@[i as int].1@));
        if str_eq(headers[i].0.as_str(), "content-length") {
            let c = chars_of(headers[i].1.as_str());
            if c.len() == 0 || !check_digits(c.as_slice()) {
                return None;
            }
            return parse_number(c.as_slice(), u64::MAX);
        }
        i += 1;
    }
    None
}

/// Some header says that the body is a DNS message.
pub open spec fn says_dns_message(h: Seq<(Seq<char>, Seq<char>)>) -> bool {
    exists|i: int|
        0 <= i < h.len() && (#[trigger] h[i]).0 == "content-type"@ && h[i].1
            == "application/dns-message"@
}

/// Whether some header says that the body is a DNS message.
pub fn content_type_is_dns_message(headers: &Vec<(String, String)>) -> (r: bool)
    ensures
        r == says_dns_message(headers_v(headers@)),
{
    let ghost v = headers_v(headers@);
    let mut i: usize = 0;
    while i < headers.len()
        invariant
            i <= headers@.len(),
            v == headers_v(headers@),
            forall|j: int|
                0 <= j < i ==> !((#[trigger] v[j]).0 == "content-type"@ && v[j].1
                    == "application/dns-message"@),
        decreases headers@.len() - i,
    {
        assert(v[i as int] == (headers@[i as int].0@, headers@[i as int].1@));
        if str_eq(headers[i].0.as_str(), "content-type") && str_eq(
            headers[i].1.as_str(),
            "application/dns-message",
        ) {
            return true;
        }
        i += 1;
    }
    false
}

/// The part of a path before the first question mark, and the part behind it.
pub open spec fn split_query(path: Seq<char>, i: int) -> (Seq<char>, Option<Seq<char>>)
    decreases path.len() - i,
{
    if i < 0 || i >= path.len() {
        (path, None)
    } else if path[i] == '?' {
        (path.subrange(0, i), Some(path.subrange(i + 1, path.len() as int)))
    } else {
        split_query(path, i + 1)
    }
}

/// The text starts with the prefix.
pub open spec fn starts_with(s: Seq<char>, prefix: Seq<char>) -> bool {
    s.len() >= prefix.len() && s.subrange(0, prefix.len() as int) == prefix
}

/// The value of the first `dns` parameter, from piece `i` on.
pub open spec fn dns_param(pieces: Seq<Seq<char>>, i: int) -> Option<Seq<char>>
    decreases pieces.len() - i,
{
    if i < 0 || i >= pieces.len() {
        None
    } else if starts_with(pieces[i], "dns="@) {
        Some(pieces[i].subrange("dns="@.len() as int, pieces[i].len() as int))
    } else {
        dns_param(pieces, i + 1)
    }
}

/// The query in the `dns` parameter of a path.
pub open spec fn query_in_path(path: Seq<char>) -> Option<Seq<u8>> {
    match split_query(path, 0).1 {
        None => None,
        Some(qs) => match dns_param(split_at_char(qs, '&'), 0) {
            None => None,
            Some(v) => base64_url_decoded(encode_utf8(v)),
        },
    }
}

fn cut_query(path: &[char]) -> (r: (Vec<char>, Option<Vec<char>>))
    ensures
        split_query(path@, 0) == (
            r.0@,
            match r.1 {
                Some(q) => Some(q@),
                None => None,
            },
        ),
{
    let mut i: usize = 0;
    while i < path.len()
        invariant
            i <= path@.len(),
            split_query(path@, 0) == split_query(path@, i as int),
        decreases path@.len() - i,
    {
        if path[i] == '?' {
            return (sub_text(path, 0, i), Some(sub_text(path, i + 1, path.len())));
        }
        i += 1;
    }
    assert(path@.subrange(0, path@.len() as int) =~= path@);
    (sub_text(path, 0, path.len()), None)
}

/// The query in the `dns` parameter of a path.
pub fn parse_get_dns_param(path: &str) -> (r: Option<Vec<u8>>)
    ensures
        query_in_path(path@) == (match r {
            Some(b) => Some(b@),
            None => None,
        }),
{
    let qs = match cut_query(chars_of(path).as_slice()).1 {
        None => return None,
        Some(q) => q,
    };
    let pieces = split_char(qs.as_slice(), '&');
    let ghost v = texts_v(pieces@);
    let prefix = chars_of("dns=");
    let mut i: usize = 0;
    while i < pieces.len()
        invariant
            i <= pieces@.len(),
            v == texts_v(pieces@),
            prefix@ == "dns="@,
            dns_param(v, 0) == dns_param(v, i as int),
            query_in_path(path@) == (match dns_param(v, 0) {
                None => None,
                Some(x) => base64_url_decoded(encode_utf8(x)),
            }),
        decreases pieces@.len() - i,
    {
        let p: &Vec<char> = &pieces[i];
        assert(v[i as int] == p@);
        if p.len() >= prefix.len() && chars_eq(
            sub_text(p.as_slice(), 0, prefix.len()).as_slice(),
            "dns=",
        ) {
            let val = string_of(sub_text(p.as_slice(), prefix.len(), p.len()).as_slice());
            return base64_url_decode(val.as_str().as_bytes());
        }
        i += 1;
    }
    None
}

/// The path at which queries are answered: with the listener's token behind it, where it
/// has one.
pub open spec fn query_path(token: Option<Seq<char>>) -> Seq<char> {
    match token {
        None => "/dns-query"@,
        Some(t) => "/dns-query"@ + "/"@ + t,
    }
}

/// The path of a request is the one at which queries are answered.
pub open spec fn path_matches(path: Seq<char>, token: Option<Seq<char>>) -> bool {
    split_query(path, 0).0 == query_path(token)
}

/// Whether the path of a request is the one at which queries are answered.
pub fn is_query_path(path: &str, token: Option<&str>) -> (r: bool)
    ensures
        r == path_matches(
            path@,
            match token {
                Some(t) => Some(t@),
                None => None,
            },
        ),
{
    let only = cut_query(chars_of(path).as_slice()).0;
    match token {
        None => chars_eq(only.as_slice(), "/dns-query"),
        Some(t) => chars_eq(only.as_slice(), join3("/dns-query", "/", t).as_str()),
    }
}

/// An answer that carries no DNS message.
#[derive(Debug, Clone, Copy, PartialEq, Eq, Structural)]
pub enum HttpStatus {
    Forbidden,
    BadParameter,
    UnsupportedMediaType,
    PayloadTooLarge,
    MethodNotAllowed,
    NotFound,
    MalformedQuery,
}

/// Code, reason and body of an answer.
pub open spec fn status_parts(s: HttpStatus) -> (nat, Seq<char>, Seq<char>) {
    match s {
        HttpStatus::Forbidden => (403, "Forbidden"@, "ACL\n"@),
        HttpStatus::BadParameter => (
            400,
            "Bad Request"@,
            "missing or malformed dns= parameter\n"@,
        ),
        HttpStatus::UnsupportedMediaType => (
            415,
            "Unsupported Media Type"@,
            "expected application/dns-message\n"@,
        ),
        HttpStatus::PayloadTooLarge => (413, "Payload Too Large"@, "DoH body cap\n"@),
        HttpStatus::MethodNotAllowed => (405, "Method Not Allowed"@, "GET or POST\n"@),
        HttpStatus::NotFound => (404, "Not Found"@, "\n"@),
        HttpStatus::MalformedQuery => (400, "Bad Request"@, "malformed DNS query\n"@),
    }
}

/// What to do with a request.
#[derive(Debug)]
pub enum DohStep {
    /// Close the connection without an answer.
    Close,
    /// Answer with a status.
    Respond(HttpStatus),
    /// Read a body of at least this length, then go on.
    ReadBody(u64),
    /// Answer this query.
    Ask(Vec<u8>),
}

/// The value of a [`DohStep`].
pub enum DohStepV {
    Close,
    Respond(HttpStatus),
    ReadBody(nat),
    Ask(Seq<u8>),
}

impl View for DohStep {
    type V = DohStepV;

    open spec fn view(&self) -> DohStepV {
        match self {
            DohStep::Close => DohStepV::Close,
            DohStep::Respond(s) => DohStepV::Respond(*s),
            DohStep::ReadBody(n) => DohStepV::ReadBody(*n as nat),
            DohStep::Ask(q) => DohStepV::Ask(q@),
        }
    }
}

/// What to do with a query once it is there: answer it, if it came by the right path.
pub open spec fn ask_or_404(head: HeadV, token: Option<Seq<char>>, wire: Seq<u8>) -> DohStepV {
    if path_matches(head.path, token) {
        DohStepV::Ask(wire)
    } else {
        DohStepV::Respond(HttpStatus::NotFound)
    }
}

/// What to do with a request once its head is read; `allowed` is what the access list says
/// of the client.
pub open spec fn first_step(head: HeadV, allowed: bool, token: Option<Seq<char>>) -> DohStepV {
    if framing_error(head.headers) is Some {
        DohStepV::Close
    } else if !allowed {
        DohStepV::Respond(HttpStatus::Forbidden)
    } else if head.method == "GET"@ {
        match query_in_path(head.path) {
            None => DohStepV::Respond(HttpStatus::BadParameter),
            Some(wire) => ask_or_404(head, token, wire),
        }
    } else if head.method == "POST"@ {
        if !says_dns_message(head.headers) {
            DohStepV::Respond(HttpStatus::UnsupportedMediaType)
        } else {
            match announced_length(head.headers) {
                None => DohStepV::Close,
                Some(n) => if n > MAX_BODY_BYTES {
                    DohStepV::Respond(HttpStatus::PayloadTooLarge)
                } else {
                    DohStepV::ReadBody(n)
                },
            }
        }
    } else {
        DohStepV::Respond(HttpStatus::MethodNotAllowed)
    }
}

fn ask(head: &RequestHead, token: Option<&str>, wire: Vec<u8>) -> (r: DohStep)
    ensures
        r@ == ask_or_404(
            head@,
            match token {
                Some(t) => Some(t@),
                None => None,
            },
            wire@,
        ),
{
    if is_query_path(head.path.as_str(), token) {
        DohStep::Ask(wire)
    } else {
        DohStep::Respond(HttpStatus::NotFound)
    }
}

/// What to do with a request once its head is read.
pub fn plan_request(head: &RequestHead, allowed: bool, token: Option<&str>) -> (r: DohStep)
    ensures
        r@ == first_step(
            head@,
            allowed,
            match token {
                Some(t) => Some(t@),
                None => None,
            },
        ),
{
    if validate_framing(&head.headers).is_err() {
        return DohStep::Close;
    }
    if !allowed {
        return DohStep::Respond(HttpStatus::Forbidden);
    }
    if str_eq(head.method.as_str(), "GET") {
        return match parse_get_dns_param(head.path.as_str()) {
            None => DohStep::Respond(HttpStatus::BadParameter),
            Some(wire) => ask(head, token, wire),
        };
    }
    if str_eq(head.method.as_str(), "POST") {
        if !content_type_is_dns_message(&head.headers) {
            return DohStep::Respond(HttpStatus::UnsupportedMediaType);
        }
        return match content_length(&head.headers) {
            None => DohStep::Close,
            Some(n) => if n > MAX_BODY_BYTES {
                DohStep::Respond(HttpStatus::PayloadTooLarge)
            } else {
                DohStep::ReadBody(n)
            },
        };
    }
    DohStep::Respond(HttpStatus::MethodNotAllowed)
}

/// What to do with a request once its body is read.
pub fn plan_body(head: &RequestHead, token: Option<&str>, body: Vec<u8>) -> (r: DohStep)
    ensures
        r@ == ask_or_404(
            head@,
            match token {
                Some(t) => Some(t@),
                None => None,
            },
            body@,
        ),
{
    ask(head, token, body)
}

/// A client that the access list does not admit gets no query answered, whatever it asks.
pub proof fn law_denied_clients_get_no_answer(head: HeadV, token: Option<Seq<char>>)
    ensures
        first_step(head, false, token) == DohStepV::Close || first_step(head, false, token)
            == DohStepV::Respond(HttpStatus::Forbidden),
{
}

/// A listener with a token answers a query only at the path that holds the token.
pub proof fn law_token_is_required(
    head: HeadV,
    allowed: bool,
    token: Seq<char>,
    wire: Seq<u8>,
    body: Seq<u8>,
)
    requires
        first_step(head, allowed, Some(token)) == DohStepV::Ask(wire) || ask_or_404(
            head,
            Some(token),
            body,
        ) == DohStepV::Ask(body),
    ensures
        split_query(head.path, 0).0 == "/dns-query"@ + "/"@ + token,
{
}

/// The head of an answer without DNS message.
pub open spec fn simple_head(code: nat, reason: Seq<char>, len: nat) -> Seq<char> {
    "HTTP/1.1 "@ + dec(code) + " "@ + reason
        + "\r\ncontent-type: text/plain\r\ncontent-length: "@ + dec(len)
        + "\r\nconnection: close\r\n\r\n"@
}

/// The bytes of an answer without DNS message.
pub open spec fn simple_answer(s: HttpStatus) -> Seq<u8> {
    let (code, reason, body) = status_parts(s);
    encode_utf8(simple_head(code, reason, encode_utf8(body).len())) + encode_utf8(body)
}

fn status_code(s: HttpStatus) -> (r: (u64, &'static str, &'static str))
    ensures
        (r.0 as nat, r.1@, r.2@) == status_parts(s),
{
    match s {
        HttpStatus::Forbidden => (403, "Forbidden", "ACL\n"),
        HttpStatus::BadParameter => (
            400,
            "Bad Request",
            "missing or malformed dns= parameter\n",
        ),
        HttpStatus::UnsupportedMediaType => (
            415,
            "Unsupported Media Type",
            "expected application/dns-message\n",
        ),
        HttpStatus::PayloadTooLarge => (413, "Payload Too Large", "DoH body cap\n"),
        HttpStatus::MethodNotAllowed => (405, "Method Not Allowed", "GET or POST\n"),
        HttpStatus::NotFound => (404, "Not Found", "\n"),
        HttpStatus::MalformedQuery => (400, "Bad Request", "malformed DNS query\n"),
    }
}

/// The bytes of an answer without DNS message.
pub fn render_simple(s: HttpStatus) -> (r: Vec<u8>)
    ensures
        r@ == simple_answer(s),
{
    let (code, reason, body) = status_code(s);
    let bytes: &[u8] = body.as_bytes();
    let mut head = String::new();
    push_text(&mut head, "HTTP/1.1 ");
    push_dec(&mut head, code);
    push_text(&mut head, " ");
    push_text(&mut head, reason);
    push_text(&mut head, "\r\ncontent-type: text/plain\r\ncontent-length: ");
    push_dec(&mut head, bytes.len() as u64);
    push_text(&mut head, "\r\nconnection: close\r\n\r\n");
    assert(head@ =~= simple_head(code as nat, reason@, encode_utf8(body@).len()));
    let mut out = copy_bytes(head.as_str().as_bytes());
    push_all(&mut out, bytes);
    out
}

/// The head of an answer with a DNS message; it may be kept for `ttl` seconds.
pub open spec fn dns_head(len: nat, ttl: u32) -> Seq<char> {
    "HTTP/1.1 200 OK\r\ncontent-type: application/dns-message\r\ncontent-length: "@ + dec(len)
        + "\r\n"@ + (if ttl > 0 {
        "cache-control: max-age="@ + dec(ttl as nat) + "\r\n"@
    } else {
        Seq::empty()
    }) + "connection: close\r\n\r\n"@
}

/// The bytes of an answer with a DNS message.
pub fn render_dns_response(body: &[u8], ttl: u32) -> (r: Vec<u8>)
    ensures
        r@ == encode_utf8(dns_head(body@.len(), ttl)) + body@,
{
    let mut head = String::new();
    push_text(
        &mut head,
        "HTTP/1.1 200 OK\r\ncontent-type: application/dns-message\r\ncontent-length: ",
    );
    push_dec(&mut head, body.len() as u64);
    push_text(&mut head, "\r\n");
    if ttl > 0 {
        push_text(&mut head, "cache-control: max-age=");
        push_dec(&mut head, ttl as u64);
        push_text(&mut head, "\r\n");
    }
    push_text(&mut head, "connection: close\r\n\r\n");
    assert(head@ =~= dns_head(body@.len(), ttl));
    let mut out = copy_bytes(head.as_str().as_bytes());
    push_all(&mut out, body);
    out
}

/// The smallest TTL of the answers in a reply; none where there are none.
pub open spec fn reply_ttl(bytes: Seq<u8>) -> Option<u32> {
    match decoded(bytes) {
        None => None,
        Some(m) => if m.answers.len() == 0 {
            None
        } else {
            Some(smallest_ttl(m.answers))
        },
    }
}

/// The smallest TTL of the answers in a message; none where there are none.
pub fn min_ttl_of_answers(m: &Message) -> (r: Option<u32>)
    ensures
        r == (if m@.answers.len() == 0 {
            None
        } else {
            Some(smallest_ttl(m@.answers))
        }),
{
    assert(m@.answers.len() == m.answers@.len());
    if m.answers.len() == 0 {
        None
    } else {
        Some(min_ttl_of(&m.answers))
    }
}

/// The smallest TTL of the answers in a reply.
pub fn min_ttl_from_response(bytes: &[u8]) -> (r: Option<u32>)
    ensures
        r == reply_ttl(bytes@),
{
    match Message::from_bytes(bytes) {
        None => None,
        Some(m) => min_ttl_of_answers(&m),
    }
}

/// What a negotiated TLS protocol means for a connection.
#[derive(Debug, Clone, Copy, PartialEq, Eq, Structural)]
pub enum AlpnAction {
    /// Read a request.
    Serve,
    /// Close: the handshake was all, or the protocol is not spoken.
    Close,
}

/// What a negotiated TLS protocol means: certificate challenges are over with the
/// handshake, and HTTP/2 is not spoken.
pub fn alpn_action(alpn: Option<&str>) -> (r: AlpnAction)
    ensures
        r == (match alpn {
            Some(p) => if p@ == "acme-tls/1"@ || p@ == "h2"@ {
                AlpnAction::Close
            } else {
                AlpnAction::Serve
            },
            None => AlpnAction::Serve,
        }),
{
    match alpn {
        Some(p) => if str_eq(p, "acme-tls/1") || str_eq(p, "h2") {
            AlpnAction::Close
        } else {
            AlpnAction::Serve
        },
        None => AlpnAction::Serve,
    }
}

/// The pieces of a text, with the separator between them again.
pub open spec fn rejoined(pieces: Seq<Seq<char>>, between: Seq<char>) -> Seq<char>
    decreases pieces.len(),
{
    if pieces.len() == 0 {
        Seq::empty()
    } else if pieces.len() == 1 {
        pieces[0]
    } else {
        rejoined(pieces.drop_last(), between) + between + pieces.last()
    }
}

/// Splitting at a separator loses nothing: the pieces, with the separator between them, make
/// the text, and none of them holds the separator.
pub proof fn law_splitting_loses_nothing(s: Seq<char>, sep: char)
    ensures
        split_at_char(s, sep).len() > 0,
        rejoined(split_at_char(s, sep), seq![sep]) == s,
        forall|i: int|
            0 <= i < split_at_char(s, sep).len() ==> !(#[trigger] split_at_char(s, sep)[i]).contains(
                sep,
            ),
    decreases s.len(),
{
    let p = split_at_char(s, sep);
    if s.len() > 0 {
        let before = split_at_char(s.drop_last(), sep);
        law_splitting_loses_nothing(s.drop_last(), sep);
        assert(s.drop_last().push(s.last()) =~= s);
        if s.last() == sep {
            assert(p.drop_last() =~= before);
            assert(rejoined(p, seq![sep]) =~= s);
            assert forall|i: int| 0 <= i < p.len() implies !(#[trigger] p[i]).contains(sep) by {
                if i < before.len() {
                    assert(p[i] == before[i]);
                }
            }
        } else {
            let last = before.last();
            assert(p.drop_last() =~= before.drop_last());
            assert(p.last() == last.push(s.last()));
            assert(rejoined(p, seq![sep]) =~= rejoined(before, seq![sep]).push(s.last()));
            assert(!before[before.len() - 1].contains(sep));
            assert forall|i: int| 0 <= i < p.len() implies !(#[trigger] p[i]).contains(sep) by {
                if i < before.len() - 1 {
                    assert(p[i] == before[i]);
                } else {
                    let w = p[i];
                    if w.contains(sep) {
                        let k = choose|k: int| 0 <= k < w.len() && w[k] == sep;
                        assert(last[k] == sep);
                    }
                }
            }
        }
    }
}

proof fn lemma_split_tail(s: Seq<char>, w: Seq<char>, sep: char)
    requires
        !w.contains(sep),
    ensures
        split_at_char(s + w, sep) == split_at_char(s, sep).update(
            split_at_char(s, sep).len() - 1,
            split_at_char(s, sep).last() + w,
        ),
    decreases w.len(),
{
    law_splitting_loses_nothing(s, sep);
    let a = split_at_char(s, sep);
    if w.len() == 0 {
        assert(s + w =~= s);
        assert(a.last() + w =~= a.last());
        assert(a.update(a.len() - 1, a.last() + w) =~= a);
    } else {
        let v = w.drop_last();
        assert(w[w.len() - 1] == w.last());
        assert(!v.contains(sep)) by {
            if v.contains(sep) {
                let k = choose|k: int| 0 <= k < v.len() && v[k] == sep;
                assert(w[k] == sep);
            }
        }
        assert(w.last() != sep) by {
            assert(w.contains(w.last()));
        }
        lemma_split_tail(s, v, sep);
        assert((s + w).drop_last() =~= s + v);
        assert((s + w).last() == w.last());
        let b = split_at_char(s + v, sep);
        assert(b.last() == a.last() + v);
        assert((a.last() + v).push(w.last()) =~= a.last() + w);
        assert(split_at_char(s + w, sep) =~= a.update(a.len() - 1, a.last() + w));
    }
}

proof fn lemma_split_word(s: Seq<char>, w: Seq<char>, sep: char)
    requires
        !w.contains(sep),
    ensures
        split_at_char(s.push(sep) + w, sep) == split_at_char(s, sep).push(w),
        split_at_char(w, sep) == seq![w],
{
    let e = Seq::<char>::empty();
    lemma_split_tail(s.push(sep), w, sep);
    assert(s.push(sep).drop_last() =~= s);
    let a = split_at_char(s.push(sep), sep);
    assert(a == split_at_char(s, sep).push(e));
    assert(e + w =~= w);
    assert(a.update(a.len() - 1, a.last() + w) =~= split_at_char(s, sep).push(w));
    lemma_split_tail(e, w, sep);
    assert(split_at_char(e, sep) == seq![e]);
    assert(seq![e].update(0, e + w) =~= seq![w]);
}

/// A request line of a method, a path and the version, one space apart, gives the method in
/// upper case and the path; the headers follow, line by line.
pub proof fn law_request_line(text: Seq<char>, method: Seq<char>, path: Seq<char>)
    requires
        is_token(method),
        is_path(path),
        !path.contains(' '),
        split_lines(text)[0] == method.push(' ') + path.push(' ') + "HTTP/1.1"@,
    ensures
        match head_in(text) {
            Ok(h) => {
                &&& h.method == upper_text(method)
                &&& h.path == path
                &&& h.headers.len() == split_lines(text).len() - 1
                &&& forall|i: int|
                    0 <= i < h.headers.len() ==> header_in(split_lines(text)[i + 1]) == Ok::<
                        _,
                        HeadError,
                    >(#[trigger] h.headers[i])
            },
            Err(e) => exists|i: int|
                1 <= i < split_lines(text).len() && header_in(#[trigger] split_lines(text)[i])
                    == Err::<(Seq<char>, Seq<char>), HeadError>(e),
        },
{
    let line = split_lines(text)[0];
    let v = "HTTP/1.1"@;
    reveal_strlit("HTTP/1.1");
    assert(!v.contains(' ')) by {
        if v.contains(' ') {
            let k = choose|k: int| 0 <= k < v.len() && v[k] == ' ';
            assert(v[0] == 'H' && v[1] == 'T' && v[2] == 'T' && v[3] == 'P' && v[4] == '/' && v[5]
                == '1' && v[6] == '.' && v[7] == '1');
        }
    }
    assert(!method.contains(' ')) by {
        if method.contains(' ') {
            let k = choose|k: int| 0 <= k < method.len() && method[k] == ' ';
            assert(token_char((method[k] as u32) as u8));
        }
    }
    lemma_split_word(Seq::empty(), method, ' ');
    lemma_split_word(method, path, ' ');
    let two = method.push(' ') + path;
    lemma_split_word(two, v, ' ');
    assert(two.push(' ') + v =~= line);
    let parts = split_at_char(line, ' ');
    assert(parts =~= seq![method, path, v]);
    assert(split_lines(text).len() > 0) by {
        law_lines_lose_nothing(text);
    }
    lemma_headers(split_lines(text), split_lines(text).len() as int);
}

proof fn lemma_headers(lines: Seq<Seq<char>>, n: int)
    requires
        1 <= n <= lines.len(),
    ensures
        match headers_in(lines, n) {
            Ok(h) => h.len() == n - 1 && forall|i: int|
                0 <= i < h.len() ==> header_in(lines[i + 1]) == Ok::<_, HeadError>(#[trigger] h[i]),
            Err(e) => exists|i: int|
                1 <= i < n && header_in(#[trigger] lines[i]) == Err::<
                    (Seq<char>, Seq<char>),
                    HeadError,
                >(e),
        },
    decreases n,
{
    if n > 1 {
        lemma_headers(lines, n - 1);
        match headers_in(lines, n - 1) {
            Err(_) => {},
            Ok(_) => {
                assert(n - 1 >= 1);
                if header_in(lines[n - 1]) is Err {
                    assert(headers_in(lines, n) is Err);
                }
            },
        }
    }
}

/// Splitting into lines loses nothing: the lines, with line ends between them, make the text.
pub proof fn law_lines_lose_nothing(s: Seq<char>)
    ensures
        split_lines(s).len() > 0,
        rejoined(split_lines(s), seq!['\r', '\n']) == s,
    decreases s.len(),
{
    let p = split_lines(s);
    let e = seq!['\r', '\n'];
    if s.len() > 0 {
        let before = split_lines(s.drop_last());
        law_lines_lose_nothing(s.drop_last());
        assert(s.drop_last().push(s.last()) =~= s);
        let cur = before.last();
        if s.last() == '\n' && cur.len() > 0 && cur.last() == '\r' {
            let cut = before.update(before.len() - 1, cur.drop_last());
            assert(p == cut.push(Seq::empty()));
            assert(p.drop_last() =~= cut);
            assert(cut.drop_last() =~= before.drop_last());
            assert(cur.drop_last().push('\r') =~= cur);
            assert(rejoined(cut, e).push('\r') =~= rejoined(before, e));
            assert(rejoined(p, e) =~= s);
        } else {
            assert(p.drop_last() =~= before.drop_last());
            assert(rejoined(p, e) =~= rejoined(before, e).push(s.last()));
        }
    }
}

/// A header line of a name, a colon and a value gives the name in lower case and the value
/// without the blanks around it, and is refused where the value holds control characters.
pub proof fn law_header_line(name: Seq<char>, value: Seq<char>)
    requires
        is_token(name),
    ensures
        ({
            let line = name.push(':') + value;
            &&& !has_control(trimmed(value)) ==> header_in(line) == Ok::<_, HeadError>(
                (lower_text(name), trimmed(value)),
            )
            &&& has_control(trimmed(value)) ==> header_in(line) is Err
        }),
{
    let line = name.push(':') + value;
    assert(line[0] == name[0]);
    assert(token_char((name[0] as u32) as u8));
    assert forall|i: int| 0 <= i < name.len() implies #[trigger] line[i] != ':' by {
        assert(line[i] == name[i]);
        assert(token_char((name[i] as u32) as u8));
    }
    lemma_colon(line, name.len() as int, 0);
    assert(line.subrange(0, name.len() as int) =~= name);
    assert(line.subrange(name.len() as int + 1, line.len() as int) =~= value);
}

proof fn lemma_colon(s: Seq<char>, at: int, i: int)
    requires
        0 <= i <= at < s.len(),
        s[at] == ':',
        forall|j: int| i <= j < at ==> #[trigger] s[j] != ':',
    ensures
        colon_at(s, i) == Some(at),
    decreases at - i,
{
    if i < at {
        lemma_colon(s, at, i + 1);
    }
}

/// Only blanks are trimmed, and all of them at both ends.
pub proof fn law_only_blanks_are_trimmed(s: Seq<char>)
    ensures
        ({
            let t = trimmed(s);
            &&& t.len() > 0 ==> !is_blank(t[0]) && !is_blank(t.last())
            &&& exists|a: int, b: int|
                {
                    &&& 0 <= a <= b <= s.len()
                    &&& t == #[trigger] s.subrange(a, b)
                    &&& forall|i: int| 0 <= i < a ==> is_blank(#[trigger] s[i])
                    &&& forall|i: int| b <= i < s.len() ==> is_blank(#[trigger] s[i])
                }
        }),
{
    lemma_skip(s, 0);
    let a = skip_blank(s, 0);
    let rest = s.subrange(a, s.len() as int);
    lemma_trim(rest);
    let t = trimmed(s);
    let b = a + t.len();
    assert(t =~= s.subrange(a, b));
    assert forall|i: int| b <= i < s.len() implies is_blank(#[trigger] s[i]) by {
        assert(rest[i - a] == s[i]);
    }
    if t.len() > 0 {
        assert(t[0] == s[a]);
    }
}

proof fn lemma_skip(s: Seq<char>, i: int)
    requires
        0 <= i <= s.len(),
        forall|j: int| 0 <= j < i ==> is_blank(#[trigger] s[j]),
    ensures
        i <= skip_blank(s, i) <= s.len(),
        forall|j: int| 0 <= j < skip_blank(s, i) ==> is_blank(#[trigger] s[j]),
        skip_blank(s, i) < s.len() ==> !is_blank(s[skip_blank(s, i)]),
    decreases s.len() - i,
{
    if i < s.len() && is_blank(s[i]) {
        lemma_skip(s, i + 1);
    }
}

proof fn lemma_trim(s: Seq<char>)
    ensures
        trim_end(s).len() <= s.len(),
        trim_end(s) == s.subrange(0, trim_end(s).len() as int),
        trim_end(s).len() > 0 ==> !is_blank(trim_end(s).last()),
        forall|i: int| trim_end(s).len() <= i < s.len() ==> is_blank(#[trigger] s[i]),
    decreases s.len(),
{
    if s.len() > 0 && is_blank(s.last()) {
        let r = s.drop_last();
        lemma_trim(r);
        assert(trim_end(s) =~= s.subrange(0, trim_end(s).len() as int));
        assert forall|i: int| trim_end(s).len() <= i < s.len() implies is_blank(#[trigger] s[i]) by {
            if i < r.len() {
                assert(r[i] == s[i]);
            }
        }
    } else {
        assert(s =~= s.subrange(0, s.len() as int));
    }
}

/// The value of a header is that of the first line of its name.
pub proof fn law_first_header_counts(h: Seq<(Seq<char>, Seq<char>)>, name: Seq<char>, from: int)
    requires
        0 <= from <= h.len(),
    ensures
        match header_value(h, name, from) {
            Some(v) => exists|i: int|
                {
                    &&& from <= i < h.len()
                    &&& (#[trigger] h[i]).0 == name
                    &&& v == h[i].1
                    &&& forall|j: int| from <= j < i ==> !((#[trigger] h[j]).0 == name)
                },
            None => forall|j: int| from <= j < h.len() ==> !((#[trigger] h[j]).0 == name),
        },
    decreases h.len() - from,
{
    if from < h.len() {
        if h[from].0 == name {
            assert(header_value(h, name, from) == Some(h[from].1));
        } else {
            law_first_header_counts(h, name, from + 1);
        }
    }
}

/// The query in a path is what follows the first parameter of its name.
pub proof fn law_first_parameter_counts(pieces: Seq<Seq<char>>, from: int)
    requires
        0 <= from <= pieces.len(),
    ensures
        match dns_param(pieces, from) {
            Some(v) => exists|i: int|
                {
                    &&& from <= i < pieces.len()
                    &&& starts_with((#[trigger] pieces[i]), "dns="@)
                    &&& v == pieces[i].subrange("dns="@.len() as int, pieces[i].len() as int)
                    &&& forall|j: int| from <= j < i ==> !(starts_with((#[trigger] pieces[j]), "dns="@))
                },
            None => forall|j: int| from <= j < pieces.len() ==> !(starts_with((#[trigger] pieces[j]), "dns="@)),
        },
    decreases pieces.len() - from,
{
    if from < pieces.len() {
        if starts_with(pieces[from], "dns="@) {
            assert(dns_param(pieces, from) == Some(pieces[from].subrange("dns="@.len() as int, pieces[from].len() as int)));
        } else {
            law_first_parameter_counts(pieces, from + 1);
        }
    }
}


/// Some header line has the name.
pub open spec fn has_header(h: Seq<(Seq<char>, Seq<char>)>, name: Seq<char>) -> bool {
    exists|i: int| 0 <= i < h.len() && (#[trigger] h[i]).0 == name
}

/// Two header lines have the name.
pub open spec fn has_header_twice(h: Seq<(Seq<char>, Seq<char>)>, name: Seq<char>) -> bool {
    exists|i: int, j: int|
        0 <= i < j < h.len() && (#[trigger] h[i]).0 == name && (#[trigger] h[j]).0 == name
}

proof fn lemma_count_named(h: Seq<(Seq<char>, Seq<char>)>, name: Seq<char>, n: int)
    requires
        0 <= n <= h.len(),
    ensures
        count_named(h, name, n) > 0 <==> exists|i: int| 0 <= i < n && (#[trigger] h[i]).0 == name,
        count_named(h, name, n) > 1 <==> exists|i: int, j: int|
            0 <= i < j < n && (#[trigger] h[i]).0 == name && (#[trigger] h[j]).0 == name,
    decreases n,
{
    if n > 0 {
        lemma_count_named(h, name, n - 1);
        if h[n - 1].0 == name && count_named(h, name, n - 1) > 0 {
            let i = choose|i: int| 0 <= i < n - 1 && (#[trigger] h[i]).0 == name;
            assert(0 <= i < n - 1 < n && h[i].0 == name && h[n - 1].0 == name);
        }
    }
}

/// A request is refused for its framing exactly where it has a transfer encoding or a trailer,
/// or announces its length more than once.
pub proof fn law_framing_is_unambiguous(h: Seq<(Seq<char>, Seq<char>)>)
    ensures
        framing_error(h) is None <==> !has_header(h, "transfer-encoding"@) && !has_header(
            h,
            "trailer"@,
        ) && !has_header_twice(h, "content-length"@),
{
    lemma_count_named(h, "transfer-encoding"@, h.len() as int);
    lemma_count_named(h, "trailer"@, h.len() as int);
    lemma_count_named(h, "content-length"@, h.len() as int);
}

/// What stands before the first question mark of a path is its resource, and what follows
/// is its query; without one there is no query.
pub proof fn law_query_follows_the_question_mark(path: Seq<char>, rest: Seq<char>)
    requires
        !path.contains('?'),
    ensures
        split_query(path, 0) == (path, None::<Seq<char>>),
        split_query(path.push('?') + rest, 0) == (path, Some(rest)),
{
    let full = path.push('?') + rest;
    lemma_no_mark(path, 0);
    assert forall|i: int| 0 <= i < path.len() implies #[trigger] full[i] != '?' by {
        assert(full[i] == path[i]);
        if path[i] == '?' {
            assert(path.contains('?'));
        }
    }
    lemma_mark(full, path.len() as int, 0);
    assert(full.subrange(0, path.len() as int) =~= path);
    assert(full.subrange(path.len() as int + 1, full.len() as int) =~= rest);
}

proof fn lemma_no_mark(path: Seq<char>, i: int)
    requires
        !path.contains('?'),
        0 <= i <= path.len(),
    ensures
        split_query(path, i) == (path, None::<Seq<char>>),
    decreases path.len() - i,
{
    if i < path.len() {
        assert(path.contains(path[i]));
        lemma_no_mark(path, i + 1);
    }
}

proof fn lemma_mark(path: Seq<char>, at: int, i: int)
    requires
        0 <= i <= at < path.len(),
        path[at] == '?',
        forall|j: int| i <= j < at ==> #[trigger] path[j] != '?',
    ensures
        split_query(path, i) == (
            path.subrange(0, at),
            Some(path.subrange(at + 1, path.len() as int)),
        ),
    decreases at - i,
{
    if i < at {
        lemma_mark(path, at, i + 1);
    }
}

/// A path with one parameter, the query, gives the octets that its value decodes to.
pub proof fn law_query_in_the_path(resource: Seq<char>, value: Seq<char>)
    requires
        !resource.contains('?'),
        !value.contains('&'),
    ensures
        query_in_path(resource.push('?') + ("dns="@ + value)) == base64_url_decoded(
            encode_utf8(value),
        ),
{
    reveal_strlit("dns=");
    let p = "dns="@ + value;
    law_query_follows_the_question_mark(resource, p);
    assert(!p.contains('&')) by {
        if p.contains('&') {
            let k = choose|k: int| 0 <= k < p.len() && p[k] == '&';
            if k >= 4 {
                assert(value[k - 4] == '&');
            } else {
                assert(p[0] == 'd' && p[1] == 'n' && p[2] == 's' && p[3] == '=');
            }
        }
    }
    lemma_split_word(Seq::empty(), p, '&');
    assert(p.subrange(0, 4) =~= "dns="@);
    assert(p.subrange(4, p.len() as int) =~= value);
    let pieces = seq![p];
    assert(starts_with(pieces[0], "dns="@));
    assert(dns_param(pieces, 0) == Some(value));
}

/// A client that is admitted and sends a well-framed request gets its query asked: by GET with
/// the query in the path, by POST once the announced number of octets has been read, and in
/// either case only at the resource for queries.
pub proof fn law_good_requests_are_asked(head: HeadV, token: Option<Seq<char>>, wire: Seq<u8>, n: nat)
    requires
        framing_error(head.headers) is None,
        split_query(head.path, 0).0 == (match token {
            None => "/dns-query"@,
            Some(t) => "/dns-query"@ + "/"@ + t,
        }),
    ensures
        head.method == "GET"@ && query_in_path(head.path) == Some(wire) ==> first_step(
            head,
            true,
            token,
        ) == DohStepV::Ask(wire),
        head.method == "GET"@ && query_in_path(head.path) is None ==> first_step(head, true, token)
            == DohStepV::Respond(HttpStatus::BadParameter),
        head.method == "POST"@ && says_dns_message(head.headers) && announced_length(head.headers)
            == Some(n) && n <= 65535 ==> first_step(head, true, token) == DohStepV::ReadBody(n),
        head.method == "POST"@ && says_dns_message(head.headers) && announced_length(head.headers)
            == Some(n) && n > 65535 ==> first_step(head, true, token) == DohStepV::Respond(
            HttpStatus::PayloadTooLarge,
        ),
        head.method == "POST"@ && !says_dns_message(head.headers) ==> first_step(head, true, token)
            == DohStepV::Respond(HttpStatus::UnsupportedMediaType),
        ask_or_404(head, token, wire) == DohStepV::Ask(wire),
{
    reveal_strlit("GET");
    reveal_strlit("POST");
    assert("GET"@ != "POST"@) by {
        assert("GET"@.len() != "POST"@.len());
    }
}

/// A query at another resource is not found, and methods but GET and POST are not allowed.
pub proof fn law_other_requests_are_refused(head: HeadV, token: Option<Seq<char>>, body: Seq<u8>)
    ensures
        split_query(head.path, 0).0 != (match token {
            None => "/dns-query"@,
            Some(t) => "/dns-query"@ + "/"@ + t,
        }) ==> ask_or_404(head, token, body) == DohStepV::Respond(HttpStatus::NotFound),
        framing_error(head.headers) is None && head.method != "GET"@ && head.method != "POST"@
            ==> first_step(head, true, token) == DohStepV::Respond(HttpStatus::MethodNotAllowed),
        framing_error(head.headers) is Some ==> first_step(head, true, token) == DohStepV::Close,
{
}

/// An answer is announced with its exact length, as a DNS message, and may be kept by clients
/// for the given time, where that is not zero.
pub proof fn law_answers_are_announced(len: nat, ttl: u32)
    ensures
        ttl == 0 ==> dns_head(len, ttl)
            == "HTTP/1.1 200 OK\r\ncontent-type: application/dns-message\r\ncontent-length: "@ + dec(
            len,
        ) + ("\r\n"@ + "connection: close\r\n\r\n"@),
        ttl > 0 ==> dns_head(len, ttl)
            == "HTTP/1.1 200 OK\r\ncontent-type: application/dns-message\r\ncontent-length: "@ + dec(
            len,
        ) + ("\r\ncache-control: max-age="@ + dec(ttl as nat) + "\r\nconnection: close\r\n\r\n"@),
{
    reveal_strlit("\r\n");
    reveal_strlit("connection: close\r\n\r\n");
    reveal_strlit("cache-control: max-age=");
    reveal_strlit("\r\ncache-control: max-age=");
    reveal_strlit("\r\nconnection: close\r\n\r\n");
    let a = "HTTP/1.1 200 OK\r\ncontent-type: application/dns-message\r\ncontent-length: "@ + dec(len);
    let b = "\r\ncache-control: max-age="@ + dec(ttl as nat) + "\r\nconnection: close\r\n\r\n"@;
    if ttl == 0 {
        assert(dns_head(len, ttl) =~= a + ("\r\n"@ + "connection: close\r\n\r\n"@));
    } else {
        assert("\r\n"@ + "cache-control: max-age="@ =~= "\r\ncache-control: max-age="@);
        assert("\r\n"@ + "connection: close\r\n\r\n"@ =~= "\r\nconnection: close\r\n\r\n"@);
        assert(dns_head(len, ttl) =~= a + b);
    }
}

/// Clients may keep an answer for the shortest TTL of its records.
pub proof fn law_answers_may_be_kept(bytes: Seq<u8>, m: MessageV)
    requires
        decoded(bytes) == Some(m),
        m.answers.len() > 0,
    ensures
        reply_ttl(bytes) is Some,
        forall|i: int| 0 <= i < m.answers.len() ==> reply_ttl(bytes)->0 <= (#[trigger] m.answers[i]).ttl,
        exists|i: int| 0 <= i < m.answers.len() && reply_ttl(bytes)->0 == (#[trigger] m.answers[i]).ttl,
{
    crate::recursor::cache::law_smallest_ttl_is_one_of_them(m.answers);
}

/// The head of a request ends with the first empty line.
pub proof fn law_first_empty_line_ends_the_head(hay: Seq<u8>, needle: Seq<u8>, from: int)
    requires
        0 <= from <= hay.len(),
        needle.len() > 0,
    ensures
        match position_from(hay, needle, from) {
            Some(p) => {
                &&& from <= p
                &&& p + needle.len() <= hay.len()
                &&& hay.subrange(p, p + needle.len()) == needle
                &&& forall|q: int| from <= q < p ==> #[trigger] hay.subrange(q, q + needle.len())
                    != needle
            },
            None => forall|q: int|
                from <= q && q + needle.len() <= hay.len() ==> #[trigger] hay.subrange(
                    q,
                    q + needle.len(),
                ) != needle,
        },
    decreases hay.len() - from,
{
    if from + needle.len() <= hay.len() && hay.subrange(from, from + needle.len()) != needle {
        law_first_empty_line_ends_the_head(hay, needle, from + 1);
    }
}

/// A body is a DNS message exactly where some header line of the content type, any one, says
/// so.
pub proof fn law_media_type(h: Seq<(Seq<char>, Seq<char>)>)
    ensures
        says_dns_message(h) <==> h.contains(("content-type"@, "application/dns-message"@)),
{
    let x = ("content-type"@, "application/dns-message"@);
    if says_dns_message(h) {
        let i = choose|i: int|
            0 <= i < h.len() && (#[trigger] h[i]).0 == "content-type"@ && h[i].1
                == "application/dns-message"@;
        assert(h[i] == x);
    }
    if h.contains(x) {
        let i = choose|i: int| 0 <= i < h.len() && h[i] == x;
        assert(h[i].0 == "content-type"@);
    }
}

/// The announced length is the number that the first header line for it holds, in digits.
pub proof fn law_announced_length(h: Seq<(Seq<char>, Seq<char>)>, i: int, n: nat)
    requires
        0 <= i < h.len(),
        h[i].0 == "content-length"@,
        forall|j: int| 0 <= j < i ==> (#[trigger] h[j]).0 != "content-length"@,
        h[i].1 == dec(n),
        n <= u64::MAX,
    ensures
        announced_length(h) == Some(n),
{
    law_first_header_counts(h, "content-length"@, 0);
    crate::text::law_numbers_read_back(n, u64::MAX as nat);
    let k = choose|k: int|
        {
            &&& 0 <= k < h.len()
            &&& (#[trigger] h[k]).0 == "content-length"@
            &&& header_value(h, "content-length"@, 0)->0 == h[k].1
            &&& forall|j: int| 0 <= j < k ==> !((#[trigger] h[j]).0 == "content-length"@)
        };
    assert(k == i);
}

/// Tokens are made of letters, digits and fifteen signs.
pub proof fn law_token_characters(b: u8)
    ensures
        token_char(b) <==> {
            ||| '0' as u8 <= b <= '9' as u8
            ||| 'A' as u8 <= b <= 'Z' as u8
            ||| 'a' as u8 <= b <= 'z' as u8
            ||| b == '!' as u8 || b == '#' as u8 || b == '$' as u8 || b == '%' as u8 || b
                == '&' as u8 || b == '\'' as u8 || b == '*' as u8 || b == '+' as u8 || b == '-' as u8
                || b == '.' as u8 || b == '^' as u8 || b == '_' as u8 || b == '`' as u8 || b
                == '|' as u8 || b == '~' as u8
        },
        head_end() == seq!['\r' as u8, '\n' as u8, '\r' as u8, '\n' as u8],
{
    assert(head_end() =~= seq!['\r' as u8, '\n' as u8, '\r' as u8, '\n' as u8]);
}

/// Each refusal has its status code.
pub proof fn law_status_codes()
    ensures
        status_parts(HttpStatus::Forbidden).0 == 403,
        status_parts(HttpStatus::BadParameter).0 == 400,
        status_parts(HttpStatus::MalformedQuery).0 == 400,
        status_parts(HttpStatus::UnsupportedMediaType).0 == 415,
        status_parts(HttpStatus::PayloadTooLarge).0 == 413,
        status_parts(HttpStatus::MethodNotAllowed).0 == 405,
        status_parts(HttpStatus::NotFound).0 == 404,
{
}

/// A refusal is its head, with the code, the reason and the exact length, and then its body.
pub proof fn law_refusals_are_rendered(s: HttpStatus)
    ensures
        ({
            let (code, reason, body) = status_parts(s);
            simple_answer(s) == encode_utf8(
                "HTTP/1.1 "@ + dec(code) + " "@ + reason
                    + "\r\ncontent-type: text/plain\r\ncontent-length: "@ + dec(
                    encode_utf8(body).len(),
                ) + "\r\nconnection: close\r\n\r\n"@,
            ) + encode_utf8(body)
        }),
{
}

} // verus!
