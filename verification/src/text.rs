//! Text helpers: building strings, decimal numbers, lines and words.

use vstd::prelude::*;
use vstd::string::StringExecFns;

verus! {

/// `String::push` appends one character.
pub assume_specification[ String::push ](s: &mut String, c: char)
    ensures
        final(s)@ == old(s)@.push(c),
;

/// The decimal digit `d`.
pub open spec fn digit_char(d: nat) -> char {
    (48 + d) as char
}

/// `n` in decimal, without leading zeros.
pub open spec fn dec(n: nat) -> Seq<char>
    decreases n,
{
    if n < 10 {
        seq![digit_char(n)]
    } else {
        dec(n / 10).push(digit_char(n % 10))
    }
}

/// The low decimal digits of `n`, `width` of them.
pub open spec fn dec_padded(n: nat, width: nat) -> Seq<char>
    decreases width,
{
    if width == 0 {
        Seq::empty()
    } else {
        dec_padded(n / 10, (width - 1) as nat).push(digit_char(n % 10))
    }
}

/// Append the decimal form of `n`.
pub fn push_dec(s: &mut String, n: u64)
    ensures
        final(s)@ == old(s)@ + dec(n as nat),
    decreases n,
{
    if n >= 10 {
        push_dec(s, n / 10);
    }
    let d: u8 = 48 + (n % 10) as u8;
    s.push(d as char);
    assert(s@ =~= old(s)@ + dec(n as nat));
}

/// Append the low `width` decimal digits of `n`.
pub fn push_padded(s: &mut String, n: u64, width: u32)
    ensures
        final(s)@ == old(s)@ + dec_padded(n as nat, width as nat),
    decreases width,
{
    if width > 0 {
        push_padded(s, n / 10, width - 1);
        let d: u8 = 48 + (n % 10) as u8;
        s.push(d as char);
    }
    assert(s@ =~= old(s)@ + dec_padded(n as nat, width as nat));
}

/// Append a string.
pub fn push_text(s: &mut String, t: &str)
    ensures
        final(s)@ == old(s)@ + t@,
{
    s.append(t);
}

/// Two texts in a row.
pub fn join2(a: &str, b: &str) -> (r: String)
    ensures
        r@ == a@ + b@,
{
    let mut s = String::new();
    push_text(&mut s, a);
    push_text(&mut s, b);
    assert(s@ =~= a@ + b@);
    s
}

/// Three texts in a row.
pub fn join3(a: &str, b: &str, c: &str) -> (r: String)
    ensures
        r@ == a@ + b@ + c@,
{
    let mut s = String::new();
    push_text(&mut s, a);
    push_text(&mut s, b);
    push_text(&mut s, c);
    assert(s@ =~= a@ + b@ + c@);
    s
}

/// Four texts in a row.
pub fn join4(a: &str, b: &str, c: &str, d: &str) -> (r: String)
    ensures
        r@ == a@ + b@ + c@ + d@,
{
    let mut s = join3(a, b, c);
    push_text(&mut s, d);
    s
}

/// Five texts in a row.
pub fn join5(a: &str, b: &str, c: &str, d: &str, e: &str) -> (r: String)
    ensures
        r@ == a@ + b@ + c@ + d@ + e@,
{
    let mut s = join3(a, b, c);
    push_text(&mut s, d);
    push_text(&mut s, e);
    s
}

/// The characters of a string.
pub fn chars_of(s: &str) -> (r: Vec<char>)
    ensures
        r@ == s@,
{
    let mut out: Vec<char> = Vec::new();
    for c in iter: s.chars()
        invariant
            iter.seq() == s@,
            out@ == s@.subrange(0, iter.index() as int),
    {
        out.push(c);
        assert(out@ =~= s@.subrange(0, iter.index() + 1));
    }
    assert(out@ =~= s@);
    out
}

/// The string made of the given characters.
pub fn string_of(v: &[char]) -> (r: String)
    ensures
        r@ == v@,
{
    let mut s = String::new();
    let mut i: usize = 0;
    while i < v.len()
        invariant
            i <= v@.len(),
            s@ == v@.subrange(0, i as int),
        decreases v@.len() - i,
    {
        s.push(v[i]);
        i += 1;
        assert(s@ =~= v@.subrange(0, i as int));
    }
    assert(s@ =~= v@);
    s
}

/// The Unicode property White_Space.
pub open spec fn is_space(c: char) -> bool {
    let u = c as u32;
    ||| 9 <= u <= 13
    ||| u == 0x20
    ||| u == 0x85
    ||| u == 0xa0
    ||| u == 0x1680
    ||| 0x2000 <= u <= 0x200a
    ||| u == 0x2028
    ||| u == 0x2029
    ||| u == 0x202f
    ||| u == 0x205f
    ||| u == 0x3000
}

/// Whether the character is white space.
pub fn char_is_space(c: char) -> (r: bool)
    ensures
        r == is_space(c),
{
    let u: u32 = c as u32;
    (9 <= u && u <= 13) || u == 0x20 || u == 0x85 || u == 0xa0 || u == 0x1680 || (0x2000 <= u && u
        <= 0x200a) || u == 0x2028 || u == 0x2029 || u == 0x202f || u == 0x205f || u == 0x3000
}

/// ASCII lower case of a character.
pub open spec fn lower_char(c: char) -> char {
    if 'A' <= c <= 'Z' {
        ((c as u32 + 32) as u8) as char
    } else {
        c
    }
}

/// ASCII lower case of a text.
pub open spec fn lower_text(s: Seq<char>) -> Seq<char> {
    Seq::new(s.len(), |i: int| lower_char(s[i]))
}

/// ASCII lower case of a character.
pub fn char_lower(c: char) -> (r: char)
    ensures
        r == lower_char(c),
{
    if 'A' <= c && c <= 'Z' {
        let u: u8 = (c as u32 + 32) as u8;
        u as char
    } else {
        c
    }
}

/// ASCII upper case of a character.
pub open spec fn upper_char(c: char) -> char {
    if 'a' <= c <= 'z' {
        ((c as u32 - 32) as u8) as char
    } else {
        c
    }
}

/// ASCII upper case of a text.
pub open spec fn upper_text(s: Seq<char>) -> Seq<char> {
    Seq::new(s.len(), |i: int| upper_char(s[i]))
}

/// ASCII upper case of a character.
pub fn char_upper(c: char) -> (r: char)
    ensures
        r == upper_char(c),
{
    if 'a' <= c && c <= 'z' {
        let u: u8 = (c as u32 - 32) as u8;
        u as char
    } else {
        c
    }
}

/// Whether two texts are equal up to ASCII case.
pub fn text_same(a: &[char], b: &[char]) -> (r: bool)
    ensures
        r == (lower_text(a@) == lower_text(b@)),
{
    if a.len() != b.len() {
        assert(lower_text(a@).len() != lower_text(b@).len());
        return false;
    }
    let mut i: usize = 0;
    while i < a.len()
        invariant
            i <= a@.len(),
            a@.len() == b@.len(),
            forall|j: int| 0 <= j < i ==> lower_char(a@[j]) == lower_char(b@[j]),
        decreases a@.len() - i,
    {
        if char_lower(a[i]) != char_lower(b[i]) {
            assert(lower_text(a@)[i as int] != lower_text(b@)[i as int]);
            return false;
        }
        i += 1;
    }
    assert(lower_text(a@) =~= lower_text(b@));
    true
}

/// Whether two strings are equal up to ASCII case.
pub fn str_same(a: &str, b: &str) -> (r: bool)
    ensures
        r == (lower_text(a@) == lower_text(b@)),
{
    text_same(chars_of(a).as_slice(), chars_of(b).as_slice())
}

/// Whether two strings are equal.
pub fn str_eq(a: &str, b: &str) -> (r: bool)
    ensures
        r == (a@ == b@),
{
    let x = chars_of(a);
    let y = chars_of(b);
    if x.len() != y.len() {
        return false;
    }
    let mut i: usize = 0;
    while i < x.len()
        invariant
            i <= x@.len(),
            x@.len() == y@.len(),
            x@ == a@,
            y@ == b@,
            forall|j: int| 0 <= j < i ==> x@[j] == y@[j],
        decreases x@.len() - i,
    {
        if x[i] != y[i] {
            return false;
        }
        i += 1;
    }
    assert(x@ =~= y@);
    true
}

/// Every character is a decimal digit.
pub open spec fn all_digits(s: Seq<char>) -> bool {
    forall|i: int| 0 <= i < s.len() ==> '0' <= #[trigger] s[i] <= '9'
}

/// The value of a string of decimal digits.
pub open spec fn dec_value(s: Seq<char>) -> nat
    decreases s.len(),
{
    if s.len() == 0 {
        0
    } else {
        (dec_value(s.drop_last()) * 10 + (s.last() as u32 - 48)) as nat
    }
}

/// The text without one leading plus sign.
pub open spec fn unsigned_part(s: Seq<char>) -> Seq<char> {
    if s.len() > 0 && s[0] == '+' {
        s.drop_first()
    } else {
        s
    }
}

/// The number that a text denotes, if it is an optional plus sign and at least one
/// decimal digit, of value at most `max`.
pub open spec fn number(s: Seq<char>, max: nat) -> Option<nat> {
    let d = unsigned_part(s);
    if d.len() > 0 && all_digits(d) && dec_value(d) <= max {
        Some(dec_value(d))
    } else {
        None
    }
}

/// The number that a text denotes.
pub fn parse_number(s: &[char], max: u64) -> (r: Option<u64>)
    ensures
        number(s@, max as nat) == (match r {
            Some(n) => Some(n as nat),
            None => None,
        }),
{
    let start: usize = if s.len() > 0 && s[0] == '+' {
        1
    } else {
        0
    };
    let ghost d = unsigned_part(s@);
    assert(d =~= s@.subrange(start as int, s@.len() as int));
    if s.len() == start {
        return None;
    }
    let mut v: u64 = 0;
    let mut big: bool = false;
    let mut i: usize = start;
    while i < s.len()
        invariant
            start <= i <= s@.len(),
            start <= 1,
            d == unsigned_part(s@),
            d == s@.subrange(start as int, s@.len() as int),
            all_digits(d.subrange(0, i - start)),
            v <= max,
            !big ==> v == dec_value(d.subrange(0, i - start)),
            big ==> dec_value(d.subrange(0, i - start)) > max,
        decreases s@.len() - i,
    {
        let c: char = s[i];
        let ghost k = i - start;
        assert(d[k] == s@[i as int]);
        if !('0' <= c && c <= '9') {
            assert(!('0' <= d[k] <= '9'));
            assert(!all_digits(d));
            return None;
        }
        let x: u64 = (c as u32 - 48) as u64;
        proof {
            assert(d.subrange(0, k + 1).drop_last() =~= d.subrange(0, k));
            assert forall|j: int| 0 <= j < k + 1 implies '0' <= #[trigger] d.subrange(
                0,
                k + 1,
            )[j] <= '9' by {
                if j < k {
                    assert(d.subrange(0, k)[j] == d[j]);
                }
            }
        }
        if !big {
            if x > max || v > max / 10 || v * 10 > max - x {
                big = true;
            } else {
                v = v * 10 + x;
            }
        }
        i += 1;
    }
    assert(d.subrange(0, d.len() as int) =~= d);
    if big {
        None
    } else {
        Some(v)
    }
}

/// A number is written with its decimal digits, and reading them gives it back.
pub proof fn law_numbers_read_back(n: nat, max: nat)
    requires
        n <= max,
    ensures
        all_digits(dec(n)),
        dec(n).len() > 0,
        dec_value(dec(n)) == n,
        number(dec(n), max) == Some(n),
{
    lemma_dec_digits(n);
    assert(dec(n)[0] != '+');
}

proof fn lemma_dec_digits(n: nat)
    ensures
        all_digits(dec(n)),
        dec(n).len() > 0,
        dec_value(dec(n)) == n,
    decreases n,
{
    if n < 10 {
        assert(dec(n).drop_last() =~= Seq::<char>::empty());
        assert(dec_value(Seq::<char>::empty()) == 0);
    } else {
        lemma_dec_digits(n / 10);
        assert(dec(n).drop_last() =~= dec(n / 10));
        assert forall|i: int| 0 <= i < dec(n).len() implies '0' <= #[trigger] dec(n)[i] <= '9' by {
            if i < dec(n / 10).len() {
                assert(dec(n)[i] == dec(n / 10)[i]);
            }
        }
    }
}

/// What reads as a number is made of digits, perhaps behind a plus sign, and does not exceed
/// the limit; each further digit makes ten times as much.
pub proof fn law_numbers_are_digits(s: Seq<char>, max: nat, c: char)
    ensures
        match number(s, max) {
            Some(n) => n <= max && s.len() > 0 && forall|i: int|
                0 <= i < s.len() ==> '0' <= #[trigger] s[i] <= '9' || (i == 0 && s[i] == '+'
                    && s.len() > 1),
            None => true,
        },
        s.len() > 0 && all_digits(s) && dec_value(s) <= max ==> number(s, max) == Some(
            dec_value(s),
        ),
        '0' <= c <= '9' ==> dec_value(s.push(c)) == dec_value(s) * 10 + (c as u32 - '0' as u32),
{
    assert(s.push(c).drop_last() =~= s);
    if let Some(n) = number(s, max) {
        let d = unsigned_part(s);
        assert forall|i: int| 0 <= i < s.len() implies '0' <= #[trigger] s[i] <= '9' || (i == 0
            && s[i] == '+' && s.len() > 1) by {
            if s[0] == '+' {
                if i > 0 {
                    assert(d[i - 1] == s[i]);
                }
            } else {
                assert(d[i] == s[i]);
            }
        }
    }
}

/// A padded number has as many digits as asked for; where that is enough it is the number.
pub proof fn law_padded_numbers(n: nat, width: nat)
    ensures
        dec_padded(n, width).len() == width,
        all_digits(dec_padded(n, width)),
        dec(n).len() <= width ==> dec_value(dec_padded(n, width)) == n,
    decreases width,
{
    if width > 0 {
        let w = (width - 1) as nat;
        let s = dec_padded(n, width);
        law_padded_numbers(n / 10, w);
        assert(s.drop_last() =~= dec_padded(n / 10, w));
        assert forall|i: int| 0 <= i < s.len() implies '0' <= #[trigger] s[i] <= '9' by {
            if i < w {
                assert(s[i] == dec_padded(n / 10, w)[i]);
            }
        }
        if n < 10 {
            lemma_padded_zero(w);
            assert(n / 10 == 0);
        }
    } else {
        lemma_dec_digits(n);
    }
}

proof fn lemma_padded_zero(width: nat)
    ensures
        dec_value(dec_padded(0, width)) == 0,
    decreases width,
{
    if width > 0 {
        lemma_padded_zero((width - 1) as nat);
        assert(dec_padded(0, width).drop_last() =~= dec_padded(0, (width - 1) as nat));
    }
}

/// Texts are the same without case exactly where they agree letter for letter but for the
/// case of ASCII letters.
pub proof fn law_text_case(a: Seq<char>, b: Seq<char>)
    ensures
        lower_text(a) == lower_text(b) <==> a.len() == b.len() && forall|i: int|
            0 <= i < a.len() ==> same_but_case(#[trigger] a[i], b[i]),
{
    if lower_text(a) == lower_text(b) {
        assert(lower_text(a).len() == lower_text(b).len());
        assert forall|i: int| 0 <= i < a.len() implies same_but_case(#[trigger] a[i], b[i]) by {
            assert(lower_text(a)[i] == lower_text(b)[i]);
        }
    } else if a.len() == b.len() && forall|i: int|
        0 <= i < a.len() ==> same_but_case(#[trigger] a[i], b[i]) {
        assert forall|i: int| 0 <= i < a.len() implies #[trigger] lower_text(a)[i]
            == lower_text(b)[i] by {
            assert(same_but_case(a[i], b[i]));
        }
        assert(lower_text(a) =~= lower_text(b));
    }
}

/// Two characters that are equal, or are one ASCII letter in two cases.
pub open spec fn same_but_case(a: char, b: char) -> bool {
    ||| a == b
    ||| 'A' <= a <= 'Z' && b as u32 == a as u32 + 32
    ||| 'A' <= b <= 'Z' && a as u32 == b as u32 + 32
}

/// Upper case leaves no small ASCII letter, and changes nothing but case.
pub proof fn law_upper_case(s: Seq<char>, i: int)
    requires
        0 <= i < s.len(),
    ensures
        upper_text(s).len() == s.len(),
        !('a' <= upper_text(s)[i] <= 'z'),
        same_but_case(upper_text(s)[i], s[i]),
        !('a' <= s[i] <= 'z') ==> upper_text(s)[i] == s[i],
{
}

} // verus!
