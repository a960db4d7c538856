//! "0x20" encoding: random letter case in the question name of a query, which a genuine
//! reply echoes.

use crate::bytes::copy_range;
use crate::name::{lower_byte, lower_u8, Labels};
use vstd::prelude::*;

verus! {

/// Why a message has no readable question name.
#[derive(Debug, Clone, Copy, PartialEq, Eq, Structural)]
pub enum QnameError {
    TooShort,
    Unterminated,
    CompressionPointer,
    LabelOverrun,
}

/// Why a reply does not echo the question name.
#[derive(Debug, Clone, Copy, PartialEq, Eq, Structural)]
pub enum EchoError {
    Qname(QnameError),
    LengthMismatch,
    Mismatch,
}

/// The position behind the name whose next label starts at `i`.
pub open spec fn qname_end_from(msg: Seq<u8>, i: int) -> Result<int, QnameError>
    decreases msg.len() - i,
{
    if i < 0 || i >= msg.len() {
        Err(QnameError::Unterminated)
    } else if msg[i] == 0 {
        Ok(i + 1)
    } else if msg[i] >= 64 {
        Err(QnameError::CompressionPointer)
    } else if i + 1 + msg[i] > msg.len() {
        Err(QnameError::LabelOverrun)
    } else {
        qname_end_from(msg, i + 1 + msg[i])
    }
}

/// The position behind the question name, which starts behind the header.
pub open spec fn qname_end(msg: Seq<u8>) -> Result<int, QnameError> {
    if msg.len() < 12 {
        Err(QnameError::TooShort)
    } else {
        qname_end_from(msg, 12)
    }
}

proof fn lemma_qname_end(msg: Seq<u8>, i: int)
    requires
        0 <= i,
        qname_end_from(msg, i) is Ok,
    ensures
        i < qname_end_from(msg, i)->Ok_0 <= msg.len(),
    decreases msg.len() - i,
{
    if msg[i] != 0 {
        lemma_qname_end(msg, i + 1 + msg[i]);
    }
}

/// The range of the question name, its final zero byte with it.
pub fn qname_byte_range(msg: &[u8]) -> (r: Result<(usize, usize), QnameError>)
    ensures
        match r {
            Ok((s, e)) => s == 12 && qname_end(msg@) == Ok::<int, QnameError>(e as int) && 12 < e
                <= msg@.len(),
            Err(x) => qname_end(msg@) == Err::<int, QnameError>(x),
        },
{
    if msg.len() < 12 {
        return Err(QnameError::TooShort);
    }
    let mut i: usize = 12;
    loop
        invariant
            12 <= i,
            msg@.len() >= 12,
            qname_end(msg@) == qname_end_from(msg@, i as int),
        decreases msg@.len() - i,
    {
        if i >= msg.len() {
            return Err(QnameError::Unterminated);
        }
        let len: usize = msg[i] as usize;
        if len == 0 {
            return Ok((12, i + 1));
        }
        if len >= 64 {
            return Err(QnameError::CompressionPointer);
        }
        if len > msg.len() - i - 1 {
            return Err(QnameError::LabelOverrun);
        }
        i = i + 1 + len;
    }
}

/// The byte is an ASCII letter.
pub open spec fn is_letter(b: u8) -> bool {
    65 <= b <= 90 || 97 <= b <= 122
}

/// The letter in the other case; other bytes as they are.
pub open spec fn flip_case(b: u8) -> u8 {
    if 65 <= b <= 90 {
        (b + 32) as u8
    } else if 97 <= b <= 122 {
        (b - 32) as u8
    } else {
        b
    }
}

/// The message with the letters of its question name flipped where `flips` says so.
pub open spec fn flipped(msg: Seq<u8>, flips: Seq<bool>) -> Seq<u8> {
    Seq::new(
        msg.len(),
        |i: int|
            if 12 <= i < qname_end(msg)->Ok_0 && flips[i - 12] {
                flip_case(msg[i])
            } else {
                msg[i]
            },
    )
}

fn flip(b: u8) -> (r: u8)
    ensures
        r == flip_case(b),
{
    if 65 <= b && b <= 90 {
        b + 32
    } else if 97 <= b && b <= 122 {
        b - 32
    } else {
        b
    }
}

/// Flip the case of the letters of the question name where `flips` says so, and return
/// the name as it then stands.
pub fn encode_with(query: &mut Vec<u8>, flips: &Vec<bool>) -> (r: Result<Vec<u8>, QnameError>)
    requires
        old(query)@.len() <= flips@.len() + 12,
    ensures
        match r {
            Ok(name) => qname_end(old(query)@) is Ok && final(query)@ == flipped(
                old(query)@,
                flips@,
            ) && name@ == final(query)@.subrange(12, qname_end(old(query)@)->Ok_0),
            Err(e) => qname_end(old(query)@) == Err::<int, QnameError>(e) && final(query)@ == old(
                query,
            )@,
        },
{
    let end: usize = match qname_byte_range(query.as_slice()) {
        Ok((_, e)) => e,
        Err(e) => return Err(e),
    };
    let ghost start = query@;
    let mut i: usize = 12;
    while i < end
        invariant
            12 <= i <= end,
            end <= start.len(),
            start.len() <= flips@.len() + 12,
            query@.len() == start.len(),
            qname_end(start) == Ok::<int, QnameError>(end as int),
            forall|j: int| 0 <= j < i ==> #[trigger] query@[j] == flipped(start, flips@)[j],
            forall|j: int| i <= j < start.len() ==> #[trigger] query@[j] == start[j],
        decreases end - i,
    {
        if flips[i - 12] {
            let b: u8 = flip(query[i]);
            query.set(i, b);
        }
        i += 1;
    }
    assert(query@ =~= flipped(start, flips@));
    Ok(copy_range(query.as_slice(), 12, end))
}

/// `rand::random` gives either truth value; nothing is claimed of it.
#[verifier::external_body]
fn random_bit() -> bool {
    rand::random()
}

/// Give the letters of the question name random case, and return the name as it then
/// stands.
pub fn encode(query: &mut Vec<u8>) -> (r: Result<Vec<u8>, QnameError>)
    ensures
        match r {
            Ok(name) => exists|flips: Seq<bool>|
                {
                    &&& final(query)@ == #[trigger] flipped(old(query)@, flips)
                    &&& qname_end(old(query)@) is Ok
                    &&& name@ == final(query)@.subrange(12, qname_end(old(query)@)->Ok_0)
                },
            Err(e) => qname_end(old(query)@) == Err::<int, QnameError>(e) && final(query)@ == old(
                query,
            )@,
        },
{
    let mut flips: Vec<bool> = Vec::new();
    let n: usize = query.len();
    while flips.len() < n
        invariant
            flips@.len() <= n,
        decreases n - flips@.len(),
    {
        flips.push(random_bit());
    }
    encode_with(query, &flips)
}

/// The byte echoes the expected one: a letter in either case, anything else exactly.
pub open spec fn echoes(got: u8, expected: u8) -> bool {
    if is_letter(expected) {
        lower_byte(got) == lower_byte(expected)
    } else {
        got == expected
    }
}

/// What is wrong with the question name that a reply echoes, if anything.
pub open spec fn echo_error(resp: Seq<u8>, expected: Seq<u8>) -> Option<EchoError> {
    match qname_end(resp) {
        Err(e) => Some(EchoError::Qname(e)),
        Ok(end) => {
            let got = resp.subrange(12, end);
            if got.len() != expected.len() {
                Some(EchoError::LengthMismatch)
            } else if forall|i: int|
                0 <= i < got.len() ==> echoes(#[trigger] got[i], expected[i]) {
                None
            } else {
                Some(EchoError::Mismatch)
            }
        },
    }
}

/// Check that a reply echoes the question name. Letters may come back in another case,
/// since some servers put names in lower case.
pub fn verify(response: &[u8], expected: &[u8]) -> (r: Result<(), EchoError>)
    ensures
        echo_error(response@, expected@) == (match r {
            Ok(()) => None,
            Err(e) => Some(e),
        }),
{
    let end: usize = match qname_byte_range(response) {
        Ok((_, e)) => e,
        Err(e) => return Err(EchoError::Qname(e)),
    };
    let ghost got = response@.subrange(12, end as int);
    if end - 12 != expected.len() {
        return Err(EchoError::LengthMismatch);
    }
    let mut i: usize = 0;
    while i < expected.len()
        invariant
            i <= expected@.len(),
            end == expected@.len() + 12,
            end <= response@.len(),
            got == response@.subrange(12, end as int),
            qname_end(response@) == Ok::<int, QnameError>(end as int),
            forall|j: int| 0 <= j < i ==> echoes(#[trigger] got[j], expected@[j]),
        decreases expected@.len() - i,
    {
        let g: u8 = response[12 + i];
        let e: u8 = expected[i];
        assert(got[i as int] == g);
        let letter: bool = (65 <= e && e <= 90) || (97 <= e && e <= 122);
        let ok: bool = if letter {
            lower_u8(g) == lower_u8(e)
        } else {
            g == e
        };
        if !ok {
            assert(!echoes(got[i as int], expected@[i as int]));
            return Err(EchoError::Mismatch);
        }
        i += 1;
    }
    Ok(())
}

proof fn lemma_same_structure(a: Seq<u8>, b: Seq<u8>, i: int)
    requires
        0 <= i,
        a.len() == b.len(),
        forall|j: int| 0 <= j < a.len() ==> lower_byte(#[trigger] a[j]) == lower_byte(b[j]),
    ensures
        qname_end_from(a, i) == qname_end_from(b, i),
    decreases a.len() - i,
{
    if i < a.len() {
        assert(lower_byte(a[i]) == lower_byte(b[i]));
        if 0 < a[i] < 64 && i + 1 + a[i] <= a.len() {
            lemma_same_structure(a, b, i + 1 + a[i]);
        }
    }
}

/// Whatever the case pattern, an encoded query reads as the same name: only the case of
/// letters changes.
pub proof fn law_encoding_changes_case_only(msg: Seq<u8>, flips: Seq<bool>, i: int)
    requires
        0 <= i < msg.len(),
    ensures
        lower_byte(flipped(msg, flips)[i]) == lower_byte(msg[i]),
        flipped(msg, flips).len() == msg.len(),
{
}

/// A reply that echoes the name of an encoded query, in whatever case, is accepted.
pub proof fn law_echo_is_accepted(query: Seq<u8>, flips: Seq<bool>, reply: Seq<u8>)
    requires
        qname_end(query) is Ok,
        reply.len() >= query.len(),
        forall|j: int|
            0 <= j < query.len() ==> lower_byte(#[trigger] reply[j]) == lower_byte(query[j]),
    ensures
        echo_error(reply, flipped(query, flips).subrange(12, qname_end(query)->Ok_0)) is None,
{
    let e = qname_end(query)->Ok_0;
    lemma_qname_end(query, 12);
    lemma_end_is_local(query, reply, 12);
    let expected = flipped(query, flips).subrange(12, e);
    let got = reply.subrange(12, e);
    assert forall|i: int| 0 <= i < got.len() implies echoes(#[trigger] got[i], expected[i]) by {
        assert(lower_byte(reply[i + 12]) == lower_byte(query[i + 12]));
    }
}

proof fn lemma_end_is_local(a: Seq<u8>, b: Seq<u8>, i: int)
    requires
        0 <= i,
        a.len() <= b.len(),
        qname_end_from(a, i) is Ok,
        forall|j: int| 0 <= j < a.len() ==> lower_byte(#[trigger] b[j]) == lower_byte(a[j]),
    ensures
        qname_end_from(b, i) == qname_end_from(a, i),
    decreases a.len() - i,
{
    assert(lower_byte(b[i]) == lower_byte(a[i]));
    if a[i] != 0 {
        lemma_end_is_local(a, b, i + 1 + a[i]);
    }
}

/// The question's name ends behind the first empty label, which is reached label by label
/// from the end of the header.
pub proof fn law_question_name_ends(pre: Seq<u8>, n: Labels, post: Seq<u8>)
    requires
        pre.len() == 12,
        crate::codec::name_ok(n),
    ensures
        qname_end(pre + crate::codec::name_wire(n) + post) == Ok::<int, QnameError>(
            12 + crate::codec::name_wire(n).len() as int,
        ),
{
    lemma_name_ends(pre, n, post);
}

proof fn lemma_name_ends(pre: Seq<u8>, n: Labels, post: Seq<u8>)
    requires
        crate::codec::name_ok(n),
    ensures
        qname_end_from(pre + crate::codec::name_wire(n) + post, pre.len() as int) == Ok::<
            int,
            QnameError,
        >(pre.len() as int + crate::codec::name_wire(n).len()),
    decreases n.len(),
{
    let b = pre + crate::codec::name_wire(n) + post;
    if n.len() == 0 {
        assert(b[pre.len() as int] == 0);
    } else {
        let l = n[0];
        let rest = n.drop_first();
        let head = seq![l.len() as u8] + l;
        assert forall|i: int| 0 <= i < rest.len() implies 1 <= (#[trigger] rest[i]).len() <= 63 by {
            assert(rest[i] == n[i + 1]);
        }
        lemma_name_ends(pre + head, rest, post);
        assert(b =~= (pre + head) + crate::codec::name_wire(rest) + post);
        assert(b[pre.len() as int] == l.len() as u8);
    }
}

/// Where a bit was drawn for a letter of the name its case changes, where none was it stays;
/// nothing outside the name is touched.
pub proof fn law_drawn_bits_change_case(msg: Seq<u8>, flips: Seq<bool>, i: int)
    requires
        qname_end(msg) is Ok,
        0 <= i < msg.len(),
    ensures
        ({
            let named = 12 <= i < qname_end(msg)->Ok_0;
            let r = flipped(msg, flips)[i];
            &&& !named || !flips[i - 12] ==> r == msg[i]
            &&& named && flips[i - 12] && 'a' as u8 <= msg[i] <= 'z' as u8 ==> r == msg[i] - 32
            &&& named && flips[i - 12] && 'A' as u8 <= msg[i] <= 'Z' as u8 ==> r == msg[i] + 32
            &&& named && flips[i - 12] && !('a' as u8 <= msg[i] <= 'z' as u8) && !('A' as u8
                <= msg[i] <= 'Z' as u8) ==> r == msg[i]
        }),
{
}

/// A reply echoes the question exactly where its question name is as long as the one sent and
/// agrees with it octet for octet, letters in either case.
pub proof fn law_echo_must_agree(resp: Seq<u8>, expected: Seq<u8>)
    requires
        qname_end(resp) is Ok,
    ensures
        echo_error(resp, expected) is None <==> ({
            let got = resp.subrange(12, qname_end(resp)->Ok_0);
            got.len() == expected.len() && forall|i: int|
                0 <= i < got.len() ==> crate::name::same_letter(#[trigger] got[i], expected[i])
        }),
{
    let got = resp.subrange(12, qname_end(resp)->Ok_0);
    assert forall|i: int| 0 <= i < got.len() && got.len() == expected.len() implies echoes(
        #[trigger] got[i],
        expected[i],
    ) == crate::name::same_letter(got[i], expected[i]) by {}
}

} // verus!
