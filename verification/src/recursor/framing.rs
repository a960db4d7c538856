//! Messages on streams (RFC 1035, section 4.2.2): two bytes of length, then the message.

use crate::bytes::{be16_at, be16_bytes, lemma_be16_roundtrip, push_all, push_be16, read_be16};
use vstd::prelude::*;

verus! {

/// The largest message that a length prefix can announce.
pub const MAX_MESSAGE: usize = 65535;

/// The message with its length in front.
pub open spec fn framed(msg: Seq<u8>) -> Seq<u8> {
    be16_bytes(msg.len() as u16) + msg
}

/// The message with its length in front; none where the length does not fit.
pub fn frame_message(msg: &[u8]) -> (r: Option<Vec<u8>>)
    ensures
        r is Some <==> msg@.len() <= MAX_MESSAGE,
        r is Some ==> r->0@ == framed(msg@),
{
    if msg.len() > MAX_MESSAGE {
        return None;
    }
    let mut out: Vec<u8> = Vec::new();
    push_be16(&mut out, msg.len() as u16);
    push_all(&mut out, msg);
    assert(out@ =~= framed(msg@));
    Some(out)
}

/// How many bytes to read after a length prefix.
pub fn announced_len(prefix: [u8; 2]) -> (r: usize)
    ensures
        r == be16_at(prefix@, 0),
{
    read_be16(prefix.as_slice(), 0) as usize
}

/// How many bytes of query to read after a length prefix; an empty one ends the
/// connection.
pub fn query_len(prefix: [u8; 2]) -> (r: Option<usize>)
    ensures
        r == (if be16_at(prefix@, 0) == 0 {
            None
        } else {
            Some(be16_at(prefix@, 0) as usize)
        }),
{
    let n: usize = announced_len(prefix);
    if n == 0 {
        None
    } else {
        Some(n)
    }
}

/// How many bytes of reply to read after a length prefix; one too short for a header is
/// no reply.
pub fn response_len(prefix: [u8; 2]) -> (r: Option<usize>)
    ensures
        r == (if be16_at(prefix@, 0) < 12 {
            None
        } else {
            Some(be16_at(prefix@, 0) as usize)
        }),
{
    let n: usize = announced_len(prefix);
    if n < 12 {
        None
    } else {
        Some(n)
    }
}

/// A framed message is read back: its prefix announces its length, and what follows is
/// the message.
pub proof fn law_framing_roundtrip(msg: Seq<u8>)
    requires
        msg.len() <= MAX_MESSAGE,
    ensures
        be16_at(framed(msg), 0) == msg.len(),
        framed(msg).subrange(2, 2 + be16_at(framed(msg), 0)) == msg,
        framed(msg).len() == msg.len() + 2,
{
    lemma_be16_roundtrip(msg.len() as u16);
    assert(be16_at(framed(msg), 0) == be16_at(be16_bytes(msg.len() as u16), 0));
    assert(framed(msg).subrange(2, msg.len() as int + 2) =~= msg);
}

} // verus!
