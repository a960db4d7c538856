//! Trust anchors: the keys from which every chain of trust starts, and the
//! presentation form in which they are kept on disk.

use crate::name::{same_name, Labels, Name};
use crate::names::{ascii_name, base64_bytes, base64_decoded, base64_read};
use crate::recursor::anchor::{
    keys_v, unmanaged, Dnskey, DnskeyV, KeyStatus, ManagedKey, ManagedKeyV,
};
use crate::text::{
    char_is_space, chars_of, is_space, lower_text, number, parse_number, string_of, text_same,
};
use vstd::prelude::*;
use vstd::utf8::encode_utf8;

verus! {

/// A trusted key and the zone it is trusted for. A zone that was not written as an
/// absolute name is no name's equal.
#[derive(Debug)]
pub struct TrustAnchor {
    pub zone: Name,
    pub absolute: bool,
    pub key: Dnskey,
}

/// The value of a [`TrustAnchor`].
#[verifier::ext_equal]
pub ghost struct TrustAnchorV {
    pub zone: Labels,
    pub absolute: bool,
    pub key: DnskeyV,
}

impl View for TrustAnchor {
    type V = TrustAnchorV;

    open spec fn view(&self) -> TrustAnchorV {
        TrustAnchorV { zone: self.zone@, absolute: self.absolute, key: self.key@ }
    }
}

/// The values of a list of anchors.
pub open spec fn anchors_v(s: Seq<TrustAnchor>) -> Seq<TrustAnchorV> {
    Seq::new(s.len(), |i: int| s[i]@)
}

/// The values of a list of keys.
pub open spec fn dnskeys_v(s: Seq<Dnskey>) -> Seq<DnskeyV> {
    Seq::new(s.len(), |i: int| s[i]@)
}

/// The set of trusted keys.
#[derive(Debug)]
pub struct TrustAnchors {
    pub keys: Vec<TrustAnchor>,
}

impl View for TrustAnchors {
    type V = Seq<TrustAnchorV>;

    open spec fn view(&self) -> Seq<TrustAnchorV> {
        anchors_v(self.keys@)
    }
}

/// Why trust anchors could not be read.
#[derive(Debug, Clone, Copy, PartialEq, Eq, Structural)]
pub enum AnchorError {
    BadFlags,
    BadProtocol,
    BadAlgorithm,
    BadBase64,
    BadName,
}

impl Default for TrustAnchors {
    fn default() -> (r: TrustAnchors)
        ensures
            r@ == Seq::<TrustAnchorV>::empty(),
    {
        TrustAnchors::new()
    }
}

/// The anchors that a list of managed keys stands for: the active ones.
pub open spec fn managed_anchors(keys: Seq<ManagedKeyV>) -> Result<Seq<TrustAnchorV>, AnchorError>
    decreases keys.len(),
{
    if keys.len() == 0 {
        Ok(Seq::empty())
    } else {
        match managed_anchors(keys.drop_last()) {
            Err(e) => Err(e),
            Ok(rest) => {
                let k = keys.last();
                if k.status != KeyStatus::Active {
                    Ok(rest)
                } else {
                    match unmanaged(k) {
                        None => Err(AnchorError::BadBase64),
                        Some(key) => match ascii_name(k.zone) {
                            None => Err(AnchorError::BadName),
                            Some((zone, absolute)) => Ok(
                                rest.push(TrustAnchorV { zone, absolute, key }),
                            ),
                        },
                    }
                }
            },
        }
    }
}

/// The keys trusted for exactly this name.
pub open spec fn keys_for(s: Seq<TrustAnchorV>, owner: Labels) -> Seq<DnskeyV>
    decreases s.len(),
{
    if s.len() == 0 {
        Seq::empty()
    } else {
        let rest = keys_for(s.drop_last(), owner);
        if s.last().absolute && same_name(s.last().zone, owner) {
            rest.push(s.last().key)
        } else {
            rest
        }
    }
}

impl TrustAnchors {
    /// No anchors.
    pub fn new() -> (r: TrustAnchors)
        ensures
            r@ == Seq::<TrustAnchorV>::empty(),
    {
        let r = TrustAnchors { keys: Vec::new() };
        assert(r@ =~= Seq::empty());
        r
    }

    /// Whether there are no anchors.
    pub fn is_empty(&self) -> (r: bool)
        ensures
            r == (self@.len() == 0),
    {
        self.keys.len() == 0
    }

    /// The number of anchors.
    pub fn len(&self) -> (r: usize)
        ensures
            r == self@.len(),
    {
        self.keys.len()
    }

    /// The anchors.
    pub fn keys(&self) -> (r: &Vec<TrustAnchor>)
        ensures
            anchors_v(r@) == self@,
    {
        &self.keys
    }

    /// The anchors that the active ones of a list of managed keys stand for.
    pub fn from_managed_keys(keys: &Vec<ManagedKey>) -> (r: Result<TrustAnchors, AnchorError>)
        ensures
            managed_anchors(keys_v(keys@)) == (match r {
                Ok(t) => Ok(t@),
                Err(e) => Err(e),
            }),
    {
        let ghost v = keys_v(keys@);
        let mut out: Vec<TrustAnchor> = Vec::new();
        let mut i: usize = 0;
        let mut failed: Option<AnchorError> = None;
        assert(anchors_v(out@) =~= Seq::empty());
        while i < keys.len()
            invariant
                i <= keys@.len(),
                v == keys_v(keys@),
                managed_anchors(v.subrange(0, i as int)) == (match failed {
                    None => Ok(anchors_v(out@)),
                    Some(e) => Err(e),
                }),
            decreases keys@.len() - i,
        {
            let k: &ManagedKey = &keys[i];
            let ghost had = anchors_v(out@);
            proof {
                assert(v.subrange(0, i + 1).drop_last() =~= v.subrange(0, i as int));
                assert(v.subrange(0, i + 1).last() == k@);
            }
            if failed.is_none() && k.is_active() {
                match k.to_dnskey() {
                    None => {
                        failed = Some(AnchorError::BadBase64);
                    },
                    Some(key) => match Name::from_ascii(k.zone.as_str()) {
                        None => {
                            failed = Some(AnchorError::BadName);
                        },
                        Some((zone, absolute)) => {
                            let a = TrustAnchor { zone, absolute, key };
                            out.push(a);
                            assert(anchors_v(out@) =~= had.push(a@));
                        },
                    },
                }
            }
            i += 1;
        }
        assert(v.subrange(0, v.len() as int) =~= v);
        match failed {
            Some(e) => Err(e),
            None => Ok(TrustAnchors { keys: out }),
        }
    }

    /// The keys trusted for exactly this name.
    pub fn dnskeys_for(&self, owner: &Name) -> (r: Vec<Dnskey>)
        ensures
            dnskeys_v(r@) == keys_for(self@, owner@),
    {
        let ghost v = self@;
        let mut out: Vec<Dnskey> = Vec::new();
        let mut i: usize = 0;
        assert(dnskeys_v(out@) =~= Seq::empty());
        while i < self.keys.len()
            invariant
                i <= self.keys@.len(),
                v == anchors_v(self.keys@),
                dnskeys_v(out@) == keys_for(v.subrange(0, i as int), owner@),
            decreases self.keys@.len() - i,
        {
            let a: &TrustAnchor = &self.keys[i];
            let ghost had = dnskeys_v(out@);
            if a.absolute && a.zone.same(owner) {
                let k = a.key.clone();
                out.push(k);
                assert(dnskeys_v(out@) =~= had.push(k@));
            }
            proof {
                assert(v.subrange(0, i + 1).drop_last() =~= v.subrange(0, i as int));
                assert(v.subrange(0, i + 1).last() == a@);
            }
            i += 1;
        }
        assert(v.subrange(0, v.len() as int) =~= v);
        out
    }
}

/// The text with parentheses taken out, line ends inside them turned to blanks; with
/// the depth of nesting at the end.
pub open spec fn flattened(raw: Seq<char>) -> (Seq<char>, nat)
    decreases raw.len(),
{
    if raw.len() == 0 {
        (Seq::empty(), 0)
    } else {
        let (flat, depth) = flattened(raw.drop_last());
        let c = raw.last();
        if c == '(' {
            (flat, depth + 1)
        } else if c == ')' {
            (flat, if depth > 0 {
                (depth - 1) as nat
            } else {
                0
            })
        } else if c == '\n' && depth > 0 {
            (flat.push(' '), depth)
        } else {
            (flat.push(c), depth)
        }
    }
}

/// One line taken apart: the finished words, the word under way and whether a comment
/// has begun.
pub ghost struct LineV {
    pub words: Seq<Seq<char>>,
    pub word: Seq<char>,
    pub comment: bool,
}

/// Where the reading of words stands after a text without line ends.
pub open spec fn scan_line(s: Seq<char>) -> LineV
    decreases s.len(),
{
    if s.len() == 0 {
        LineV { words: Seq::empty(), word: Seq::empty(), comment: false }
    } else {
        let l = scan_line(s.drop_last());
        let c = s.last();
        if l.comment {
            l
        } else if c == ';' {
            LineV { comment: true, ..l }
        } else if !is_space(c) {
            LineV { word: l.word.push(c), ..l }
        } else if l.word.len() > 0 {
            LineV { words: l.words.push(l.word), word: Seq::empty(), comment: false }
        } else {
            l
        }
    }
}

/// The words of a line: what lies between white space, up to the first semicolon.
pub open spec fn words_of(s: Seq<char>) -> Seq<Seq<char>> {
    let l = scan_line(s);
    if l.word.len() > 0 {
        l.words.push(l.word)
    } else {
        l.words
    }
}

/// The position behind the first word, from `from` on, that reads DNSKEY in any case;
/// the number of words where none does.
pub open spec fn behind_dnskey(words: Seq<Seq<char>>, from: int) -> int
    decreases words.len() - from,
{
    if from < 0 || from >= words.len() {
        words.len() as int
    } else if lower_text(words[from]) == lower_text("DNSKEY"@) {
        from + 1
    } else {
        behind_dnskey(words, from + 1)
    }
}

/// The words from `from` on, joined.
pub open spec fn joined(words: Seq<Seq<char>>, from: int) -> Seq<char>
    decreases words.len() - from,
{
    if from < 0 || from >= words.len() {
        Seq::empty()
    } else {
        words[from] + joined(words, from + 1)
    }
}

/// What the words of a line say: nothing of interest, an anchor, or a malformed one.
pub open spec fn anchor_in(words: Seq<Seq<char>>) -> Result<Option<TrustAnchorV>, AnchorError> {
    let at = behind_dnskey(words, 1);
    if words.len() == 0 || words.len() - at < 4 {
        Ok(None)
    } else {
        match number(words[at], 0xffff) {
            None => Err(AnchorError::BadFlags),
            Some(flags) => match number(words[at + 1], 0xff) {
                None => Err(AnchorError::BadProtocol),
                Some(_) => match number(words[at + 2], 0xff) {
                    None => Err(AnchorError::BadAlgorithm),
                    Some(algorithm) => match base64_bytes(encode_utf8(joined(words, at + 3))) {
                        None => Err(AnchorError::BadBase64),
                        Some(public_key) => match ascii_name(words[0]) {
                            None => Err(AnchorError::BadName),
                            Some((zone, absolute)) => Ok(
                                Some(
                                    TrustAnchorV {
                                        zone,
                                        absolute,
                                        key: DnskeyV {
                                            flags: (flags as u16) & 0x0181,
                                            algorithm: algorithm as u8,
                                            public_key,
                                        },
                                    },
                                ),
                            ),
                        },
                    },
                },
            },
        }
    }
}

/// The lines of a text that are complete, and the one under way.
pub open spec fn split_lines(s: Seq<char>) -> (Seq<Seq<char>>, Seq<char>)
    decreases s.len(),
{
    if s.len() == 0 {
        (Seq::empty(), Seq::empty())
    } else {
        let (done, cur) = split_lines(s.drop_last());
        if s.last() == '\n' {
            (done.push(cur), Seq::empty())
        } else {
            (done, cur.push(s.last()))
        }
    }
}

/// Whether a text lies on one line.
pub open spec fn no_line_end(s: Seq<char>) -> bool {
    forall|i: int| 0 <= i < s.len() ==> #[trigger] s[i] != '\n'
}

proof fn lemma_split_tail(a: Seq<char>, b: Seq<char>)
    requires
        no_line_end(b),
    ensures
        split_lines(a + b) == (split_lines(a).0, split_lines(a).1 + b),
    decreases b.len(),
{
    if b.len() == 0 {
        assert(a + b =~= a);
        assert(split_lines(a).1 + b =~= split_lines(a).1);
    } else {
        let c = b.drop_last();
        assert(no_line_end(c)) by {
            assert forall|i: int| 0 <= i < c.len() implies #[trigger] c[i] != '\n' by {
                assert(c[i] == b[i]);
            }
        }
        lemma_split_tail(a, c);
        assert((a + b).drop_last() =~= a + c);
        assert((a + b).last() == b[b.len() - 1]);
        assert((split_lines(a).1 + c).push(b.last()) =~= split_lines(a).1 + b);
    }
}

/// A further line is one more line.
pub proof fn lemma_split_line(a: Seq<char>, b: Seq<char>)
    requires
        no_line_end(b),
        split_lines(a).1 == Seq::<char>::empty(),
    ensures
        split_lines((a + b).push('\n')) == (split_lines(a).0.push(b), Seq::<char>::empty()),
{
    lemma_split_tail(a, b);
    let s = (a + b).push('\n');
    assert(s.drop_last() =~= a + b);
    assert(s.last() == '\n');
    assert(Seq::<char>::empty() + b =~= b);
}

/// The anchors on a list of lines; the first malformed one decides.
pub open spec fn anchors_in(lines: Seq<Seq<char>>) -> Result<Seq<TrustAnchorV>, AnchorError>
    decreases lines.len(),
{
    if lines.len() == 0 {
        Ok(Seq::empty())
    } else {
        match anchors_in(lines.drop_last()) {
            Err(e) => Err(e),
            Ok(rest) => match anchor_in(words_of(lines.last())) {
                Err(e) => Err(e),
                Ok(None) => Ok(rest),
                Ok(Some(a)) => Ok(rest.push(a)),
            },
        }
    }
}

/// The anchors that a text in presentation form holds.
pub open spec fn anchors_of(raw: Seq<char>) -> Result<Seq<TrustAnchorV>, AnchorError> {
    let (done, cur) = split_lines(flattened(raw).0);
    anchors_in(done.push(cur))
}

/// The values of a list of words.
pub open spec fn words_v(s: Seq<Vec<char>>) -> Seq<Seq<char>> {
    Seq::new(s.len(), |i: int| s[i]@)
}

fn flatten(raw: &Vec<char>) -> (r: Vec<char>)
    ensures
        r@ == flattened(raw@).0,
{
    let mut out: Vec<char> = Vec::new();
    let mut depth: usize = 0;
    let mut i: usize = 0;
    while i < raw.len()
        invariant
            i <= raw@.len(),
            depth <= i,
            (out@, depth as nat) == flattened(raw@.subrange(0, i as int)),
        decreases raw@.len() - i,
    {
        let c: char = raw[i];
        proof {
            assert(raw@.subrange(0, i + 1).drop_last() =~= raw@.subrange(0, i as int));
        }
        if c == '(' {
            depth += 1;
        } else if c == ')' {
            if depth > 0 {
                depth -= 1;
            }
        } else if c == '\n' && depth > 0 {
            out.push(' ');
        } else {
            out.push(c);
        }
        i += 1;
    }
    assert(raw@.subrange(0, raw@.len() as int) =~= raw@);
    out
}

fn line_words(line: &Vec<char>) -> (r: Vec<Vec<char>>)
    ensures
        words_v(r@) == words_of(line@),
{
    let mut words: Vec<Vec<char>> = Vec::new();
    let mut word: Vec<char> = Vec::new();
    let mut comment: bool = false;
    let mut i: usize = 0;
    assert(words_v(words@) =~= Seq::empty());
    while i < line.len()
        invariant
            i <= line@.len(),
            scan_line(line@.subrange(0, i as int)) == (LineV {
                words: words_v(words@),
                word: word@,
                comment,
            }),
        decreases line@.len() - i,
    {
        let c: char = line[i];
        let ghost had = words_v(words@);
        proof {
            assert(line@.subrange(0, i + 1).drop_last() =~= line@.subrange(0, i as int));
        }
        if comment {
        } else if c == ';' {
            comment = true;
        } else if !char_is_space(c) {
            word.push(c);
        } else if word.len() > 0 {
            let ghost w = word@;
            words.push(word);
            word = Vec::new();
            assert(words_v(words@) =~= had.push(w));
        }
        i += 1;
    }
    assert(line@.subrange(0, line@.len() as int) =~= line@);
    let ghost had = words_v(words@);
    if word.len() > 0 {
        let ghost w = word@;
        words.push(word);
        assert(words_v(words@) =~= had.push(w));
    }
    words
}

fn find_dnskey(words: &Vec<Vec<char>>) -> (r: usize)
    requires
        words@.len() > 0,
    ensures
        r == behind_dnskey(words_v(words@), 1),
        1 <= r <= words@.len(),
{
    let tag = chars_of("DNSKEY");
    let mut i: usize = 1;
    while i < words.len()
        invariant
            1 <= i <= words@.len(),
            tag@ == "DNSKEY"@,
            behind_dnskey(words_v(words@), 1) == behind_dnskey(words_v(words@), i as int),
        decreases words@.len() - i,
    {
        assert(words_v(words@)[i as int] == words@[i as int]@);
        if text_same(words[i].as_slice(), tag.as_slice()) {
            return i + 1;
        }
        i += 1;
    }
    words.len()
}

fn join_words(words: &Vec<Vec<char>>, from: usize) -> (r: Vec<char>)
    requires
        from <= words@.len(),
    ensures
        r@ == joined(words_v(words@), from as int),
{
    let ghost v = words_v(words@);
    let mut out: Vec<char> = Vec::new();
    let mut i: usize = from;
    assert(joined(v, from as int) =~= out@ + joined(v, i as int));
    while i < words.len()
        invariant
            from <= i <= words@.len(),
            v == words_v(words@),
            joined(v, from as int) == out@ + joined(v, i as int),
        decreases words@.len() - i,
    {
        let w: &Vec<char> = &words[i];
        let ghost had = out@;
        let mut j: usize = 0;
        assert(had + w@.subrange(0, 0) =~= had);
        while j < w.len()
            invariant
                j <= w@.len(),
                out@ == had + w@.subrange(0, j as int),
            decreases w@.len() - j,
        {
            out.push(w[j]);
            j += 1;
            assert(out@ =~= had + w@.subrange(0, j as int));
        }
        proof {
            assert(w@.subrange(0, w@.len() as int) =~= w@);
            assert(v[i as int] == w@);
            assert(had + (w@ + joined(v, i + 1)) =~= out@ + joined(v, i + 1));
        }
        i += 1;
    }
    assert(out@ + Seq::<char>::empty() =~= out@);
    out
}

fn read_anchor(words: &Vec<Vec<char>>) -> (r: Result<Option<TrustAnchor>, AnchorError>)
    ensures
        anchor_in(words_v(words@)) == (match r {
            Ok(Some(a)) => Ok(Some(a@)),
            Ok(None) => Ok(None),
            Err(e) => Err(e),
        }),
{
    let ghost v = words_v(words@);
    if words.len() == 0 {
        return Ok(None);
    }
    let at: usize = find_dnskey(words);
    if words.len() - at < 4 {
        return Ok(None);
    }
    assert(v[at as int] == words@[at as int]@);
    assert(v[at + 1] == words@[at + 1]@);
    assert(v[at + 2] == words@[at + 2]@);
    assert(v[0] == words@[0]@);
    let flags: u16 = match parse_number(words[at].as_slice(), 0xffff) {
        Some(n) => n as u16,
        None => return Err(AnchorError::BadFlags),
    };
    if parse_number(words[at + 1].as_slice(), 0xff).is_none() {
        return Err(AnchorError::BadProtocol);
    }
    let algorithm: u8 = match parse_number(words[at + 2].as_slice(), 0xff) {
        Some(n) => n as u8,
        None => return Err(AnchorError::BadAlgorithm),
    };
    let b64 = string_of(join_words(words, at + 3).as_slice());
    let public_key = match base64_read(b64.as_str().as_bytes()) {
        Some(k) => k,
        None => return Err(AnchorError::BadBase64),
    };
    match Name::from_ascii(string_of(words[0].as_slice()).as_str()) {
        Some((zone, absolute)) => Ok(
            Some(
                TrustAnchor {
                    zone,
                    absolute,
                    key: Dnskey { flags: flags & 0x0181, algorithm, public_key },
                },
            ),
        ),
        None => Err(AnchorError::BadName),
    }
}

/// Read trust anchors in presentation form (the format of BIND and Unbound root-key
/// files). Lines that hold no DNSKEY record are passed over.
pub fn parse_presentation_format_str(raw: &str) -> (r: Result<TrustAnchors, AnchorError>)
    ensures
        anchors_of(raw@) == (match r {
            Ok(t) => Ok(t@),
            Err(e) => Err(e),
        }),
{
    let flat = flatten(&chars_of(raw));
    let mut keys: Vec<TrustAnchor> = Vec::new();
    let mut failed: Option<AnchorError> = None;
    let mut line: Vec<char> = Vec::new();
    let mut i: usize = 0;
    assert(anchors_v(keys@) =~= Seq::empty());
    while i < flat.len()
        invariant
            i <= flat@.len(),
            line@ == split_lines(flat@.subrange(0, i as int)).1,
            anchors_in(split_lines(flat@.subrange(0, i as int)).0) == (match failed {
                None => Ok(anchors_v(keys@)),
                Some(e) => Err(e),
            }),
        decreases flat@.len() - i,
    {
        let ghost done = split_lines(flat@.subrange(0, i as int)).0;
        let ghost had = anchors_v(keys@);
        proof {
            assert(flat@.subrange(0, i + 1).drop_last() =~= flat@.subrange(0, i as int));
            assert(done.push(line@).drop_last() =~= done);
        }
        if flat[i] == '\n' {
            if failed.is_none() {
                match read_anchor(&line_words(&line)) {
                    Err(e) => {
                        failed = Some(e);
                    },
                    Ok(Some(a)) => {
                        keys.push(a);
                        assert(anchors_v(keys@) =~= had.push(a@));
                    },
                    Ok(None) => {},
                }
            }
            line = Vec::new();
        } else {
            line.push(flat[i]);
        }
        i += 1;
    }
    assert(flat@.subrange(0, flat@.len() as int) =~= flat@);
    let ghost done = split_lines(flat@).0;
    assert(done.push(line@).drop_last() =~= done);
    if let Some(e) = failed {
        return Err(e);
    }
    let ghost had = anchors_v(keys@);
    match read_anchor(&line_words(&line)) {
        Err(e) => Err(e),
        Ok(Some(a)) => {
            keys.push(a);
            assert(anchors_v(keys@) =~= had.push(a@));
            Ok(TrustAnchors { keys })
        },
        Ok(None) => Ok(TrustAnchors { keys }),
    }
}

/// The published anchors are exactly the active keys, in order, each for its own zone, with
/// its algorithm and the bytes of its key, and with no flags that the stored key lacks.
pub proof fn law_published_anchors_are_the_active_keys(keys: Seq<ManagedKeyV>)
    ensures
        match managed_anchors(keys) {
            Ok(a) => a == keys.filter(|k: ManagedKeyV| k.status == KeyStatus::Active).map_values(
                |k: ManagedKeyV|
                    TrustAnchorV {
                        zone: (ascii_name(k.zone)->0).0,
                        absolute: (ascii_name(k.zone)->0).1,
                        key: DnskeyV {
                            flags: k.flags & 0x0181,
                            algorithm: k.algorithm,
                            public_key: base64_decoded(encode_utf8(k.public_key))->0,
                        },
                    },
            ) && forall|i: int|
                0 <= i < keys.len() && (#[trigger] keys[i]).status == KeyStatus::Active
                    ==> ascii_name(keys[i].zone) is Some && base64_decoded(
                    encode_utf8(keys[i].public_key),
                ) is Some,
            Err(_) => exists|i: int|
                0 <= i < keys.len() && (#[trigger] keys[i]).status == KeyStatus::Active && (
                ascii_name(keys[i].zone) is None || base64_decoded(
                    encode_utf8(keys[i].public_key),
                ) is None),
        },
    decreases keys.len(),
{
    let p = |k: ManagedKeyV| k.status == KeyStatus::Active;
    let f = |k: ManagedKeyV|
        TrustAnchorV {
            zone: (ascii_name(k.zone)->0).0,
            absolute: (ascii_name(k.zone)->0).1,
            key: DnskeyV {
                flags: k.flags & 0x0181,
                algorithm: k.algorithm,
                public_key: base64_decoded(encode_utf8(k.public_key))->0,
            },
        };
    if keys.len() == 0 {
        crate::lists::lemma_pick_none(keys, p, f);
    } else {
        let rest = keys.drop_last();
        law_published_anchors_are_the_active_keys(rest);
        crate::lists::lemma_pick_last(keys, p, f);
        assert(forall|i: int| 0 <= i < rest.len() ==> #[trigger] rest[i] == keys[i]);
        assert(keys[keys.len() - 1] == keys.last());
        match managed_anchors(rest) {
            Ok(_) => {
                if managed_anchors(keys) is Ok {
                    assert forall|i: int|
                        0 <= i < keys.len() && (#[trigger] keys[i]).status
                            == KeyStatus::Active implies ascii_name(keys[i].zone) is Some
                        && base64_decoded(encode_utf8(keys[i].public_key)) is Some by {
                        if i < rest.len() {
                            assert(rest[i] == keys[i]);
                        }
                    }
                    if p(keys.last()) {
                        assert(unmanaged(keys.last()) == Some(f(keys.last()).key));
                    }
                }
            },
            Err(_) => {
                let i = choose|i: int|
                    0 <= i < rest.len() && (#[trigger] rest[i]).status == KeyStatus::Active && (
                    ascii_name(rest[i].zone) is None || base64_decoded(
                        encode_utf8(rest[i].public_key),
                    ) is None);
                assert(keys[i] == rest[i]);
            },
        }
    }
}

/// The keys trusted for a zone are those of the anchors for its name, in order.
pub proof fn law_anchor_keys_by_zone(s: Seq<TrustAnchorV>, owner: Labels)
    ensures
        keys_for(s, owner) == s.filter(
            |a: TrustAnchorV| a.absolute && same_name(a.zone, owner),
        ).map_values(|a: TrustAnchorV| a.key),
    decreases s.len(),
{
    let p = |a: TrustAnchorV| a.absolute && same_name(a.zone, owner);
    let f = |a: TrustAnchorV| a.key;
    if s.len() == 0 {
        crate::lists::lemma_pick_none(s, p, f);
    } else {
        law_anchor_keys_by_zone(s.drop_last(), owner);
        crate::lists::lemma_pick_last(s, p, f);
    }
}

/// The key of an anchor line may be split into words; they are joined again.
pub proof fn law_key_text_may_be_split(words: Seq<Seq<char>>, w: Seq<char>, from: int)
    requires
        0 <= from <= words.len(),
    ensures
        joined(words.push(w), from) == joined(words, from) + w,
    decreases words.len() - from,
{
    let all = words.push(w);
    if from < words.len() {
        law_key_text_may_be_split(words, w, from + 1);
        assert(all[from] == words[from]);
        assert(joined(all, from) =~= joined(words, from) + w);
    } else {
        assert(all[from] == w);
        assert(joined(all, from + 1) =~= Seq::<char>::empty());
        assert(joined(all, from) =~= w);
        assert(joined(words, from) + w =~= w);
    }
}

/// What stands behind a semicolon counts for nothing, and a line without words holds no
/// anchor.
pub proof fn law_comments_do_not_count(line: Seq<char>, rest: Seq<char>)
    requires
        !line.contains(';'),
    ensures
        words_of(line.push(';') + rest) == words_of(line),
        anchor_in(Seq::empty()) == Ok::<Option<TrustAnchorV>, AnchorError>(None),
{
    lemma_no_comment(line);
    lemma_comment(line, rest);
}

proof fn lemma_no_comment(line: Seq<char>)
    requires
        !line.contains(';'),
    ensures
        !scan_line(line).comment,
    decreases line.len(),
{
    if line.len() > 0 {
        let rest = line.drop_last();
        assert(line[line.len() - 1] == line.last());
        assert(line.contains(line.last()));
        assert(!rest.contains(';')) by {
            if rest.contains(';') {
                let k = choose|k: int| 0 <= k < rest.len() && rest[k] == ';';
                assert(line[k] == ';');
            }
        }
        lemma_no_comment(rest);
    }
}

proof fn lemma_comment(line: Seq<char>, rest: Seq<char>)
    requires
        !scan_line(line).comment,
    ensures
        scan_line(line.push(';') + rest) == (LineV { comment: true, ..scan_line(line) }),
    decreases rest.len(),
{
    let all = line.push(';') + rest;
    if rest.len() == 0 {
        assert(all =~= line.push(';'));
        assert(all.drop_last() =~= line);
    } else {
        lemma_comment(line, rest.drop_last());
        assert(all.drop_last() =~= line.push(';') + rest.drop_last());
    }
}

/// The anchors of a file are those of all its lines, in order: a further line adds its anchor,
/// where it holds one, and changes nothing of those before.
pub proof fn law_every_line_counts(lines: Seq<Seq<char>>, line: Seq<char>, a: Seq<TrustAnchorV>)
    requires
        anchors_in(lines) == Ok::<Seq<TrustAnchorV>, AnchorError>(a),
    ensures
        anchors_in(Seq::empty()) == Ok::<Seq<TrustAnchorV>, AnchorError>(Seq::empty()),
        match anchor_in(words_of(line)) {
            Ok(None) => anchors_in(lines.push(line)) == Ok::<Seq<TrustAnchorV>, AnchorError>(a),
            Ok(Some(x)) => anchors_in(lines.push(line)) == Ok::<Seq<TrustAnchorV>, AnchorError>(
                a.push(x),
            ),
            Err(e) => anchors_in(lines.push(line)) == Err::<Seq<TrustAnchorV>, AnchorError>(e),
        },
{
    assert(lines.push(line).drop_last() =~= lines);
}

/// Parentheses are taken out, and a line end between them becomes a blank, so that what they
/// enclose lies on one line; outside of them nothing changes.
pub proof fn law_parentheses_join_lines(raw: Seq<char>, c: char)
    ensures
        ({
            let (flat, depth) = flattened(raw);
            let (next, now) = flattened(raw.push(c));
            &&& c == '(' ==> next == flat && now == depth + 1
            &&& c == ')' && depth > 0 ==> next == flat && now == depth - 1
            &&& c == ')' && depth == 0 ==> next == flat && now == 0
            &&& c == '\n' && depth > 0 ==> next == flat.push(' ') && now == depth
            &&& c == '\n' && depth == 0 ==> next == flat.push(c) && now == depth
            &&& c != '(' && c != ')' && c != '\n' ==> next == flat.push(c) && now == depth
        }),
{
    assert(raw.push(c).drop_last() =~= raw);
}

/// The data of an anchor follows the first word, behind the owner, that reads DNSKEY in any
/// case.
pub proof fn law_key_follows_the_type(words: Seq<Seq<char>>, at: int, from: int)
    requires
        0 <= from <= at < words.len(),
        lower_text(words[at]) == lower_text("DNSKEY"@),
        forall|j: int| from <= j < at ==> lower_text(#[trigger] words[j]) != lower_text("DNSKEY"@),
    ensures
        behind_dnskey(words, from) == at + 1,
    decreases at - from,
{
    if from < at {
        law_key_follows_the_type(words, at, from + 1);
    }
}

} // verus!
