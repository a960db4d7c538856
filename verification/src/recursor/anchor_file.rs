//! What is written to an anchor file is what is read from it.

use crate::names::{ascii_name, base64_bytes, base64_decoded, standard_base64};
use crate::recursor::anchor::{
    anchor_header, anchor_line, anchor_lines, DnskeyV, KeyStatus, ManagedKeyV,
};
use crate::recursor::trust::{
    anchor_in, anchors_in, anchors_of, behind_dnskey, flattened, joined, lemma_split_line,
    no_line_end, scan_line, split_lines, words_of, AnchorError, LineV, TrustAnchorV,
};
use crate::text::{all_digits, dec, dec_value, digit_char, is_space, lower_char, lower_text, number};
use vstd::prelude::*;
use vstd::utf8::encode_utf8;

verus! {

/// A text that stands as one word on a line: not empty, and free of white space, semicolons
/// and parentheses.
pub open spec fn plain_word(s: Seq<char>) -> bool {
    &&& s.len() > 0
    &&& forall|i: int|
        0 <= i < s.len() ==> !is_space(#[trigger] s[i]) && s[i] != ';' && s[i] != '(' && s[i] != ')'
}

/// Whether zone and key of every active key are plain words.
pub open spec fn plain_keys(keys: Seq<ManagedKeyV>) -> bool {
    forall|i: int|
        0 <= i < keys.len() && (#[trigger] keys[i]).status == KeyStatus::Active ==> plain_word(
            keys[i].zone,
        ) && plain_word(keys[i].public_key)
}

/// The anchor that an active key is written down as: without the REVOKE bit, and without
/// the flags that mean nothing.
pub open spec fn written_anchor(k: ManagedKeyV) -> Result<TrustAnchorV, AnchorError> {
    match base64_bytes(encode_utf8(k.public_key)) {
        None => Err(AnchorError::BadBase64),
        Some(public_key) => match ascii_name(k.zone) {
            None => Err(AnchorError::BadName),
            Some((zone, absolute)) => Ok(
                TrustAnchorV {
                    zone,
                    absolute,
                    key: DnskeyV {
                        flags: (k.flags & 0xff7f) & 0x0181,
                        algorithm: k.algorithm,
                        public_key,
                    },
                },
            ),
        },
    }
}

/// The anchors that the active ones of a list of keys are written down as.
pub open spec fn written_anchors(keys: Seq<ManagedKeyV>) -> Result<Seq<TrustAnchorV>, AnchorError>
    decreases keys.len(),
{
    if keys.len() == 0 {
        Ok(Seq::empty())
    } else {
        match written_anchors(keys.drop_last()) {
            Err(e) => Err(e),
            Ok(rest) => if keys.last().status != KeyStatus::Active {
                Ok(rest)
            } else {
                match written_anchor(keys.last()) {
                    Err(e) => Err(e),
                    Ok(a) => Ok(rest.push(a)),
                }
            },
        }
    }
}

spec fn no_parens(s: Seq<char>) -> bool {
    forall|i: int| 0 <= i < s.len() ==> #[trigger] s[i] != '(' && s[i] != ')'
}

proof fn lemma_flat_plain(raw: Seq<char>)
    requires
        no_parens(raw),
    ensures
        flattened(raw) == (raw, 0nat),
    decreases raw.len(),
{
    if raw.len() > 0 {
        assert(no_parens(raw.drop_last())) by {
            assert forall|i: int| 0 <= i < raw.drop_last().len() implies #[trigger] raw.drop_last()[i]
                != '(' && raw.drop_last()[i] != ')' by {
                assert(raw.drop_last()[i] == raw[i]);
            }
        }
        lemma_flat_plain(raw.drop_last());
        assert(raw[raw.len() - 1] == raw.last());
        assert(raw.drop_last().push(raw.last()) =~= raw);
    } else {
        assert(raw =~= Seq::empty());
    }
}

proof fn lemma_scan_word(s: Seq<char>, w: Seq<char>)
    requires
        !scan_line(s).comment,
        forall|i: int| 0 <= i < w.len() ==> !is_space(#[trigger] w[i]) && w[i] != ';',
    ensures
        scan_line(s + w) == (LineV { word: scan_line(s).word + w, ..scan_line(s) }),
    decreases w.len(),
{
    if w.len() == 0 {
        assert(s + w =~= s);
        assert(scan_line(s).word + w =~= scan_line(s).word);
    } else {
        let v = w.drop_last();
        assert forall|i: int| 0 <= i < v.len() implies !is_space(#[trigger] v[i]) && v[i] != ';' by {
            assert(v[i] == w[i]);
        }
        lemma_scan_word(s, v);
        assert((s + w).drop_last() =~= s + v);
        assert((s + w).last() == w[w.len() - 1]);
        assert((scan_line(s).word + v).push(w.last()) =~= scan_line(s).word + w);
    }
}

// One more word and the white space behind it.
proof fn lemma_scan_next(s: Seq<char>, w: Seq<char>, c: char)
    requires
        !scan_line(s).comment,
        scan_line(s).word == Seq::<char>::empty(),
        plain_word(w),
        is_space(c),
        c != ';',
    ensures
        scan_line((s + w).push(c)) == (LineV {
            words: scan_line(s).words.push(w),
            word: Seq::empty(),
            comment: false,
        }),
{
    lemma_scan_word(s, w);
    assert(Seq::<char>::empty() + w =~= w);
    let t = (s + w).push(c);
    assert(t.drop_last() =~= s + w);
    assert(t.last() == c);
}

proof fn lemma_comment_line(s: Seq<char>)
    requires
        s.len() > 0,
        s[0] == ';',
    ensures
        scan_line(s) == (LineV { words: Seq::empty(), word: Seq::empty(), comment: true }),
    decreases s.len(),
{
    if s.len() == 1 {
        assert(s.drop_last() =~= Seq::empty());
        assert(s.last() == ';');
        assert(scan_line(s.drop_last()) == (LineV {
            words: Seq::empty(),
            word: Seq::empty(),
            comment: false,
        }));
    } else {
        lemma_comment_line(s.drop_last());
    }
}

// Decimal digits read back as the number.
proof fn lemma_dec(n: nat)
    ensures
        dec(n).len() > 0,
        all_digits(dec(n)),
        dec_value(dec(n)) == n,
        plain_word(dec(n)),
    decreases n,
{
    let d = n % 10;
    assert(digit_char(d) as u32 == 48 + d);
    if n < 10 {
        assert(dec(n) =~= seq![digit_char(n)]);
        assert(dec(n).drop_last() =~= Seq::empty());
        assert(dec_value(dec(n).drop_last()) == 0);
    } else {
        lemma_dec(n / 10);
        assert(dec(n).drop_last() =~= dec(n / 10));
        assert(dec(n).last() == digit_char(d));
        assert forall|i: int| 0 <= i < dec(n).len() implies '0' <= #[trigger] dec(n)[i] <= '9' by {
            if i < dec(n).len() - 1 {
                assert(dec(n)[i] == dec(n / 10)[i]);
            }
        }
    }
    assert forall|i: int| 0 <= i < dec(n).len() implies !is_space(#[trigger] dec(n)[i]) && dec(n)[i]
        != ';' && dec(n)[i] != '(' && dec(n)[i] != ')' by {
        assert('0' <= dec(n)[i] <= '9');
    }
}

proof fn lemma_number_of_dec(n: nat, max: nat)
    requires
        n <= max,
    ensures
        number(dec(n), max) == Some(n),
{
    lemma_dec(n);
    assert('0' <= dec(n)[0] <= '9');
}

spec fn line_body(k: ManagedKeyV, ttl: u32) -> Seq<char> {
    k.zone + "\t"@ + dec(ttl as nat) + "\tIN\tDNSKEY\t"@ + dec((k.flags & 0xff7f) as nat) + " 3 "@ + dec(
        k.algorithm as nat,
    ) + " "@ + k.public_key
}

spec fn line_words(k: ManagedKeyV, ttl: u32) -> Seq<Seq<char>> {
    seq![
        k.zone,
        dec(ttl as nat),
        "IN"@,
        "DNSKEY"@,
        dec((k.flags & 0xff7f) as nat),
        "3"@,
        dec(k.algorithm as nat),
        k.public_key,
    ]
}

proof fn lemma_line_words(k: ManagedKeyV, ttl: u32)
    requires
        plain_word(k.zone),
        plain_word(k.public_key),
    ensures
        words_of(line_body(k, ttl)) == line_words(k, ttl),
{
    reveal_strlit("\t");
    reveal_strlit("\tIN\tDNSKEY\t");
    reveal_strlit(" 3 ");
    reveal_strlit(" ");
    reveal_strlit("IN");
    reveal_strlit("DNSKEY");
    reveal_strlit("3");
    let flags = dec((k.flags & 0xff7f) as nat);
    let alg = dec(k.algorithm as nat);
    let t = dec(ttl as nat);
    lemma_dec((k.flags & 0xff7f) as nat);
    lemma_dec(k.algorithm as nat);
    lemma_dec(ttl as nat);
    assert(plain_word("IN"@));
    assert(plain_word("DNSKEY"@));
    assert(plain_word("3"@));
    let s0 = Seq::<char>::empty();
    lemma_scan_next(s0, k.zone, '\t');
    let s1 = (s0 + k.zone).push('\t');
    assert(k.zone + "\t"@ =~= s1);
    lemma_scan_next(s1, t, '\t');
    let s2 = (s1 + t).push('\t');
    lemma_scan_next(s2, "IN"@, '\t');
    let s3 = (s2 + "IN"@).push('\t');
    lemma_scan_next(s3, "DNSKEY"@, '\t');
    let s4 = (s3 + "DNSKEY"@).push('\t');
    assert(s1 + t + "\tIN\tDNSKEY\t"@ =~= s4);
    lemma_scan_next(s4, flags, ' ');
    let s5 = (s4 + flags).push(' ');
    lemma_scan_next(s5, "3"@, ' ');
    let s6 = (s5 + "3"@).push(' ');
    assert(s4 + flags + " 3 "@ =~= s6);
    lemma_scan_next(s6, alg, ' ');
    let s7 = (s6 + alg).push(' ');
    assert(s6 + alg + " "@ =~= s7);
    lemma_scan_word(s7, k.public_key);
    assert(line_body(k, ttl) == s7 + k.public_key);
    assert(Seq::<char>::empty() + k.public_key =~= k.public_key);
    assert(scan_line(s7 + k.public_key).word == k.public_key);
    assert(words_of(line_body(k, ttl)) =~= line_words(k, ttl));
}

proof fn lemma_line_reads_back(k: ManagedKeyV, ttl: u32)
    requires
        plain_word(k.zone),
        plain_word(k.public_key),
    ensures
        anchor_in(words_of(line_body(k, ttl))) == (match written_anchor(k) {
            Err(e) => Err(e),
            Ok(a) => Ok(Some(a)),
        }),
{
    lemma_line_words(k, ttl);
    let w = line_words(k, ttl);
    reveal_strlit("IN");
    reveal_strlit("DNSKEY");
    reveal_strlit("3");
    lemma_dec(ttl as nat);
    assert(lower_text("DNSKEY"@)[0] == lower_char('D'));
    assert(lower_text(w[1])[0] == lower_char(w[1][0]));
    assert('0' <= w[1][0] <= '9');
    assert(lower_text(w[1]) != lower_text("DNSKEY"@));
    assert(lower_text(w[2]).len() == 2);
    assert(lower_text("DNSKEY"@).len() == 6);
    assert(behind_dnskey(w, 3) == 4);
    assert(behind_dnskey(w, 2) == 4);
    assert(behind_dnskey(w, 1) == 4);
    lemma_number_of_dec((k.flags & 0xff7f) as nat, 0xffff);
    lemma_number_of_dec(k.algorithm as nat, 0xff);
    lemma_number_of_dec(3, 0xff);
    assert(dec(3) =~= "3"@);
    assert(joined(w, 8) == Seq::<char>::empty());
    assert(joined(w, 7) =~= k.public_key);
}

proof fn lemma_line_shape(k: ManagedKeyV, ttl: u32)
    requires
        plain_word(k.zone),
        plain_word(k.public_key),
    ensures
        anchor_line(k, ttl) == line_body(k, ttl).push('\n'),
        no_line_end(line_body(k, ttl)),
        no_parens(anchor_line(k, ttl)),
{
    reveal_strlit("\t");
    reveal_strlit("\tIN\tDNSKEY\t");
    reveal_strlit(" 3 ");
    reveal_strlit(" ");
    reveal_strlit("\n");
    lemma_dec((k.flags & 0xff7f) as nat);
    lemma_dec(k.algorithm as nat);
    lemma_dec(ttl as nat);
    assert(anchor_line(k, ttl) =~= line_body(k, ttl).push('\n'));
}

// The two lines at the start hold no anchors.
proof fn lemma_header()
    ensures
        no_parens(anchor_header()),
        split_lines(anchor_header()).1 == Seq::<char>::empty(),
        anchors_in(split_lines(anchor_header()).0) == Ok::<_, AnchorError>(
            Seq::<TrustAnchorV>::empty(),
        ),
{
    let one = "; automated trust-anchor file managed by dnsd\n"@;
    let two =
        "; format: presentation; consume with `dig +trust-anchor` or any RFC 1035 parser\n"@;
    reveal_strlit("; automated trust-anchor file managed by dnsd\n");
    reveal_strlit(
        "; format: presentation; consume with `dig +trust-anchor` or any RFC 1035 parser\n",
    );
    let a = one.drop_last();
    let b = two.drop_last();
    assert(no_line_end(a));
    assert(no_line_end(b));
    assert(no_parens(one));
    assert(no_parens(two));
    let e = Seq::<char>::empty();
    lemma_split_line(e, a);
    assert((e + a).push('\n') =~= one);
    lemma_split_line(one, b);
    assert((one + b).push('\n') =~= one + two);
    lemma_comment_line(a);
    lemma_comment_line(b);
    let lines = split_lines(one + two).0;
    assert(lines =~= seq![a, b]);
    assert(lines.drop_last() =~= seq![a]);
    assert(seq![a].drop_last() =~= Seq::empty());
    assert(anchors_in(seq![a].drop_last()) == Ok::<_, AnchorError>(Seq::<TrustAnchorV>::empty()));
    assert(anchors_in(seq![a]) == Ok::<_, AnchorError>(Seq::<TrustAnchorV>::empty()));
}

proof fn lemma_body(keys: Seq<ManagedKeyV>, ttl: u32)
    requires
        plain_keys(keys),
    ensures
        no_parens(anchor_header() + anchor_lines(keys, ttl)),
        split_lines(anchor_header() + anchor_lines(keys, ttl)).1 == Seq::<char>::empty(),
        anchors_in(split_lines(anchor_header() + anchor_lines(keys, ttl)).0) == written_anchors(
            keys,
        ),
    decreases keys.len(),
{
    let h = anchor_header();
    if keys.len() == 0 {
        lemma_header();
        assert(h + anchor_lines(keys, ttl) =~= h);
    } else {
        let rest = keys.drop_last();
        let k = keys.last();
        assert(plain_keys(rest)) by {
            assert forall|i: int|
                0 <= i < rest.len() && (#[trigger] rest[i]).status
                    == KeyStatus::Active implies plain_word(rest[i].zone) && plain_word(
                rest[i].public_key,
            ) by {
                assert(rest[i] == keys[i]);
            }
        }
        lemma_body(rest, ttl);
        if k.status == KeyStatus::Active {
            assert(k == keys[keys.len() - 1]);
            lemma_line_shape(k, ttl);
            lemma_line_reads_back(k, ttl);
            let before = h + anchor_lines(rest, ttl);
            let body = line_body(k, ttl);
            lemma_split_line(before, body);
            assert(h + anchor_lines(keys, ttl) =~= (before + body).push('\n'));
            assert(h + anchor_lines(keys, ttl) =~= before + anchor_line(k, ttl));
            let done = split_lines(before).0;
            assert(done.push(body).drop_last() =~= done);
        }
    }
}

/// An anchor file holds what was written to it: reading the file that is rendered from a
/// list of keys gives the active ones, in order, without their REVOKE bits.
pub proof fn law_anchor_file_reads_back(keys: Seq<ManagedKeyV>, ttl: u32)
    requires
        plain_keys(keys),
    ensures
        anchors_of(anchor_header() + anchor_lines(keys, ttl)) == written_anchors(keys),
{
    lemma_body(keys, ttl);
    let raw = anchor_header() + anchor_lines(keys, ttl);
    lemma_flat_plain(raw);
    let done = split_lines(raw).0;
    let e = Seq::<char>::empty();
    assert(done.push(e).drop_last() =~= done);
    assert(scan_line(e).words == Seq::<Seq<char>>::empty());
    assert(words_of(e) == Seq::<Seq<char>>::empty());
}

/// Whether every active key can be written down: its zone is a name, and a plain word, and
/// its key is base 64 by the standard and not empty.
pub open spec fn sound_keys(keys: Seq<ManagedKeyV>) -> bool {
    forall|i: int|
        0 <= i < keys.len() && (#[trigger] keys[i]).status == KeyStatus::Active ==> {
            &&& plain_word(keys[i].zone)
            &&& ascii_name(keys[i].zone) is Some
            &&& keys[i].public_key.len() > 0
            &&& standard_base64(keys[i].public_key)
        }
}

/// The anchor that an active key stands for: the zone its name, the flags for zone keys and
/// secure entry points, the algorithm and the bytes of the key; REVOKE is never set.
pub open spec fn anchor_for(k: ManagedKeyV) -> TrustAnchorV {
    let (zone, absolute) = ascii_name(k.zone)->0;
    TrustAnchorV {
        zone,
        absolute,
        key: DnskeyV {
            flags: k.flags & 0x0101,
            algorithm: k.algorithm,
            public_key: base64_decoded(encode_utf8(k.public_key))->0,
        },
    }
}

/// The active ones of a list of keys, in order.
pub open spec fn active_keys(keys: Seq<ManagedKeyV>) -> Seq<ManagedKeyV> {
    keys.filter(|k: ManagedKeyV| k.status == KeyStatus::Active)
}

proof fn lemma_written_sound(keys: Seq<ManagedKeyV>)
    requires
        sound_keys(keys),
    ensures
        written_anchors(keys) == Ok::<_, AnchorError>(
            active_keys(keys).map_values(|k: ManagedKeyV| anchor_for(k)),
        ),
    decreases keys.len(),
{
    reveal(Seq::filter);
    let f = |k: ManagedKeyV| anchor_for(k);
    if keys.len() == 0 {
        assert(active_keys(keys).map_values(f) =~= Seq::empty());
    } else {
        let rest = keys.drop_last();
        let k = keys.last();
        assert(sound_keys(rest)) by {
            assert forall|i: int|
                0 <= i < rest.len() && (#[trigger] rest[i]).status == KeyStatus::Active implies {
                &&& plain_word(rest[i].zone)
                &&& ascii_name(rest[i].zone) is Some
                &&& rest[i].public_key.len() > 0
                &&& standard_base64(rest[i].public_key)
            } by {
                assert(rest[i] == keys[i]);
            }
        }
        lemma_written_sound(rest);
        if k.status == KeyStatus::Active {
            assert(k == keys[keys.len() - 1]);
            let flags = k.flags;
            assert((flags & 0xff7f) & 0x0181 == flags & 0x0101) by (bit_vector);
            assert(active_keys(keys) == active_keys(rest).push(k));
            assert(active_keys(keys).map_values(f) =~= active_keys(rest).map_values(f).push(f(k)));
        }
    }
}

/// Reading the file that is rendered from a list of keys gives exactly the active ones, in
/// order, each with its zone, algorithm and key, and with REVOKE never set. Keys that wait
/// or are revoked do not come back.
pub proof fn law_anchor_file_gives_back_the_active_keys(keys: Seq<ManagedKeyV>, ttl: u32)
    requires
        sound_keys(keys),
    ensures
        anchors_of(anchor_header() + anchor_lines(keys, ttl)) == Ok::<_, AnchorError>(
            active_keys(keys).map_values(|k: ManagedKeyV| anchor_for(k)),
        ),
        forall|k: ManagedKeyV| (#[trigger] anchor_for(k)).key.flags & 0x0080 == 0,
{
    assert(plain_keys(keys)) by {
        assert forall|i: int|
            0 <= i < keys.len() && (#[trigger] keys[i]).status
                == KeyStatus::Active implies plain_word(keys[i].zone) && plain_word(
            keys[i].public_key,
        ) by {
            let s = keys[i].public_key;
            assert forall|j: int| 0 <= j < s.len() implies !is_space(#[trigger] s[j]) && s[j] != ';'
                && s[j] != '(' && s[j] != ')' by {
                assert(crate::names::base64_char(s[j]));
            }
        }
    }
    law_anchor_file_reads_back(keys, ttl);
    lemma_written_sound(keys);
    assert forall|k: ManagedKeyV| (#[trigger] anchor_for(k)).key.flags & 0x0080 == 0 by {
        let flags = k.flags;
        assert((flags & 0x0101) & 0x0080 == 0) by (bit_vector);
    }
}

} // verus!
