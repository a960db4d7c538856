//! Well-known names, written as plain dotted text without escapes.

use crate::name::{in_zone, same_name, Labels, Name};
use crate::text::chars_of;
use crate::wire::byte_strings;
use vstd::prelude::*;

verus! {

/// The labels that are complete, and the one under way.
pub open spec fn dotted_scan(s: Seq<char>) -> (Labels, Seq<u8>)
    decreases s.len(),
{
    if s.len() == 0 {
        (Seq::empty(), Seq::empty())
    } else {
        let (done, cur) = dotted_scan(s.drop_last());
        if s.last() == '.' {
            (done.push(cur), Seq::empty())
        } else {
            (done, cur.push(s.last() as u8))
        }
    }
}

/// The absolute name that plain dotted text, ending in a dot, stands for.
pub open spec fn dotted(s: Seq<char>) -> Labels {
    dotted_scan(s).0
}

/// The absolute name that plain dotted text, ending in a dot, stands for.
pub fn name_of(s: &str) -> (r: Name)
    ensures
        r@ == dotted(s@),
{
    let c = chars_of(s);
    let mut labels: Vec<Vec<u8>> = Vec::new();
    let mut cur: Vec<u8> = Vec::new();
    let mut i: usize = 0;
    assert(byte_strings(labels@) =~= Seq::empty());
    while i < c.len()
        invariant
            i <= c@.len(),
            (byte_strings(labels@), cur@) == dotted_scan(c@.subrange(0, i as int)),
        decreases c@.len() - i,
    {
        let ghost had = byte_strings(labels@);
        let ghost now = cur@;
        proof {
            assert(c@.subrange(0, i + 1).drop_last() =~= c@.subrange(0, i as int));
        }
        if c[i] == '.' {
            labels.push(cur);
            cur = Vec::new();
            assert(byte_strings(labels@) =~= had.push(now));
        } else {
            cur.push(c[i] as u8);
        }
        i += 1;
    }
    assert(c@.subrange(0, c@.len() as int) =~= c@);
    let n = Name { labels };
    assert(n@ =~= byte_strings(labels@));
    n
}

/// No label of the dotted text is empty.
pub open spec fn well_dotted(s: Seq<char>) -> bool {
    forall|i: int| 0 <= i < s.len() && #[trigger] s[i] == '.' ==> i > 0 && s[i - 1] != '.'
}

/// A short dotted text without empty labels stands for a name that has a wire form.
pub proof fn lemma_dotted_ok(s: Seq<char>)
    requires
        well_dotted(s),
        s.len() <= 63,
    ensures
        crate::codec::name_ok(dotted(s)),
        dotted_scan(s).1.len() <= s.len(),
        dotted_scan(s).1.len() == 0 <==> s.len() == 0 || s.last() == '.',
    decreases s.len(),
{
    if s.len() > 0 {
        let t = s.drop_last();
        assert forall|i: int| 0 <= i < t.len() && #[trigger] t[i] == '.' implies i > 0 && t[i - 1]
            != '.' by {
            assert(s[i] == t[i]);
        }
        lemma_dotted_ok(t);
        if s.last() == '.' {
            assert(s[s.len() - 1] == '.');
            assert(t.last() == s[s.len() - 2]);
        }
    }
}

/// Whether the name is the given well-known one.
pub fn is_name(n: &Name, s: &str) -> (r: bool)
    ensures
        r == same_name(n@, dotted(s@)),
{
    n.same(&name_of(s))
}

/// Whether the name is the given well-known one or lies below it.
pub fn is_under(n: &Name, s: &str) -> (r: bool)
    ensures
        r == in_zone(dotted(s@), n@),
{
    name_of(s).zone_of(n)
}

/// A name in dotted form is read label by label: each text up to a dot is one, octet for
/// octet.
pub proof fn law_dotted_names(s: Seq<char>, w: Seq<char>)
    requires
        s.len() == 0 || s.last() == '.',
        !w.contains('.'),
    ensures
        dotted(s + w.push('.')) == dotted(s).push(Seq::new(w.len(), |i: int| w[i] as u8)),
        dotted(Seq::empty()) == Seq::<Seq<u8>>::empty(),
{
    lemma_dotted_word(s, w);
    assert((s + w.push('.')).drop_last() =~= s + w);
}

proof fn lemma_dotted_word(s: Seq<char>, w: Seq<char>)
    requires
        s.len() == 0 || s.last() == '.',
        !w.contains('.'),
    ensures
        dotted_scan(s + w) == (dotted(s), Seq::new(w.len(), |i: int| w[i] as u8)),
    decreases w.len(),
{
    if w.len() == 0 {
        assert(s + w =~= s);
        assert(Seq::new(w.len(), |i: int| w[i] as u8) =~= Seq::<u8>::empty());
    } else {
        let v = w.drop_last();
        assert(w[w.len() - 1] == w.last());
        assert(w.contains(w.last()));
        assert(!v.contains('.')) by {
            if v.contains('.') {
                let k = choose|k: int| 0 <= k < v.len() && v[k] == '.';
                assert(w[k] == '.');
            }
        }
        lemma_dotted_word(s, v);
        assert((s + w).drop_last() =~= s + v);
        assert((s + w).last() == w.last());
        assert(Seq::new(v.len(), |i: int| v[i] as u8).push(w.last() as u8) =~= Seq::new(
            w.len(),
            |i: int| w[i] as u8,
        ));
    }
}

} // verus!
