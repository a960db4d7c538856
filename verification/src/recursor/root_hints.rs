//! The file in which root-server addresses are kept: one address a line.

use crate::net::IpAddr;
use crate::net_text::{ip_in_text, ip_text};
use crate::recursor::trust::{lemma_split_line, no_line_end, split_lines};
use crate::text::{char_is_space, chars_of, is_space, push_text, string_of};
use vstd::prelude::*;

verus! {

/// The text without leading white space.
pub open spec fn trim_left(s: Seq<char>) -> Seq<char>
    decreases s.len(),
{
    if s.len() > 0 && is_space(s[0]) {
        trim_left(s.drop_first())
    } else {
        s
    }
}

/// The text without trailing white space.
pub open spec fn trim_right(s: Seq<char>) -> Seq<char>
    decreases s.len(),
{
    if s.len() > 0 && is_space(s.last()) {
        trim_right(s.drop_last())
    } else {
        s
    }
}

/// The address on a line; blank lines, comments and anything else hold none.
pub open spec fn hint_in(line: Seq<char>) -> Option<IpAddr> {
    let t = trim_right(trim_left(line));
    if t.len() == 0 || t[0] == '#' {
        None
    } else {
        ip_in_text(t)
    }
}

/// The addresses on a list of lines, in order.
pub open spec fn hints_in(lines: Seq<Seq<char>>) -> Seq<IpAddr>
    decreases lines.len(),
{
    if lines.len() == 0 {
        Seq::empty()
    } else {
        let rest = hints_in(lines.drop_last());
        match hint_in(lines.last()) {
            Some(ip) => rest.push(ip),
            None => rest,
        }
    }
}

/// The addresses in a file.
pub open spec fn hints_of(text: Seq<char>) -> Seq<IpAddr> {
    let (done, cur) = split_lines(text);
    hints_in(done.push(cur))
}

fn read_hint(line: &Vec<char>) -> (r: Option<IpAddr>)
    ensures
        r == hint_in(line@),
{
    let n: usize = line.len();
    let mut a: usize = 0;
    assert(line@.subrange(0, n as int) =~= line@);
    while a < n && char_is_space(line[a])
        invariant
            a <= n,
            n == line@.len(),
            trim_left(line@) == trim_left(line@.subrange(a as int, n as int)),
        decreases n - a,
    {
        assert(line@.subrange(a as int, n as int).drop_first() =~= line@.subrange(
            a + 1,
            n as int,
        ));
        a += 1;
    }
    let ghost left = line@.subrange(a as int, n as int);
    assert(trim_left(line@) == left);
    let mut b: usize = n;
    while b > a && char_is_space(line[b - 1])
        invariant
            a <= b <= n,
            n == line@.len(),
            trim_right(left) == trim_right(line@.subrange(a as int, b as int)),
        decreases b,
    {
        assert(line@.subrange(a as int, b as int).drop_last() =~= line@.subrange(
            a as int,
            b - 1,
        ));
        b -= 1;
    }
    let mut t: Vec<char> = Vec::new();
    let mut i: usize = a;
    while i < b
        invariant
            a <= i <= b <= n,
            n == line@.len(),
            t@ == line@.subrange(a as int, i as int),
        decreases b - i,
    {
        t.push(line[i]);
        i += 1;
        assert(t@ =~= line@.subrange(a as int, i as int));
    }
    assert(t@ =~= line@.subrange(a as int, b as int));
    if t.len() == 0 || t[0] == '#' {
        return None;
    }
    IpAddr::parse(string_of(t.as_slice()).as_str())
}

/// The addresses in a file; none where there are none at all.
pub fn parse_root_hints(text: &str) -> (r: Option<Vec<IpAddr>>)
    ensures
        r is Some <==> hints_of(text@).len() > 0,
        r is Some ==> r->0@ == hints_of(text@),
{
    let c = chars_of(text);
    let mut out: Vec<IpAddr> = Vec::new();
    let mut line: Vec<char> = Vec::new();
    let mut i: usize = 0;
    while i < c.len()
        invariant
            i <= c@.len(),
            line@ == split_lines(c@.subrange(0, i as int)).1,
            out@ == hints_in(split_lines(c@.subrange(0, i as int)).0),
        decreases c@.len() - i,
    {
        let ghost done = split_lines(c@.subrange(0, i as int)).0;
        proof {
            assert(c@.subrange(0, i + 1).drop_last() =~= c@.subrange(0, i as int));
            assert(done.push(line@).drop_last() =~= done);
        }
        if c[i] == '\n' {
            if let Some(ip) = read_hint(&line) {
                out.push(ip);
            }
            line = Vec::new();
        } else {
            line.push(c[i]);
        }
        i += 1;
    }
    assert(c@.subrange(0, c@.len() as int) =~= c@);
    let ghost done = split_lines(c@).0;
    assert(done.push(line@).drop_last() =~= done);
    if let Some(ip) = read_hint(&line) {
        out.push(ip);
    }
    if out.len() == 0 {
        None
    } else {
        Some(out)
    }
}

/// The lines for a list of addresses.
pub open spec fn hint_lines(ips: Seq<IpAddr>) -> Seq<char>
    decreases ips.len(),
{
    if ips.len() == 0 {
        Seq::empty()
    } else {
        hint_lines(ips.drop_last()) + ip_text(ips.last()) + "\n"@
    }
}

/// The file for a list of addresses.
pub fn render_root_hints(ips: &Vec<IpAddr>) -> (r: String)
    ensures
        r@ == "# dnsd primed root hints — machine-generated, do not edit\n"@
            + "# Refreshed on each successful `./NS` priming query.\n"@ + hint_lines(ips@),
{
    let mut s = String::new();
    push_text(&mut s, "# dnsd primed root hints — machine-generated, do not edit\n");
    push_text(&mut s, "# Refreshed on each successful `./NS` priming query.\n");
    let ghost head = s@;
    assert(head =~= "# dnsd primed root hints — machine-generated, do not edit\n"@
        + "# Refreshed on each successful `./NS` priming query.\n"@);
    let mut i: usize = 0;
    assert(head + hint_lines(ips@.subrange(0, 0)) =~= head);
    while i < ips.len()
        invariant
            i <= ips@.len(),
            s@ == head + hint_lines(ips@.subrange(0, i as int)),
        decreases ips@.len() - i,
    {
        proof {
            assert(ips@.subrange(0, i + 1).drop_last() =~= ips@.subrange(0, i as int));
        }
        push_text(&mut s, ips[i].text().as_str());
        push_text(&mut s, "\n");
        assert(s@ =~= head + hint_lines(ips@.subrange(0, i + 1)));
        i += 1;
    }
    assert(ips@.subrange(0, ips@.len() as int) =~= ips@);
    s
}

/// Whether the text of an address fills a line of its own and reads back as the address.
pub open spec fn reads_back(ip: IpAddr) -> bool {
    let t = ip_text(ip);
    &&& t.len() > 0
    &&& t[0] != '#'
    &&& forall|i: int| 0 <= i < t.len() ==> !is_space(#[trigger] t[i])
    &&& ip_in_text(t) == Some(ip)
}

spec fn hints_header() -> Seq<char> {
    "# dnsd primed root hints — machine-generated, do not edit\n"@
        + "# Refreshed on each successful `./NS` priming query.\n"@
}

proof fn lemma_header_holds_none()
    ensures
        split_lines(hints_header()).1 == Seq::<char>::empty(),
        hints_in(split_lines(hints_header()).0) == Seq::<IpAddr>::empty(),
{
    let one = "# dnsd primed root hints — machine-generated, do not edit\n"@;
    let two = "# Refreshed on each successful `./NS` priming query.\n"@;
    reveal_strlit("# dnsd primed root hints — machine-generated, do not edit\n");
    reveal_strlit("# Refreshed on each successful `./NS` priming query.\n");
    let a = one.drop_last();
    let b = two.drop_last();
    assert(no_line_end(a));
    assert(no_line_end(b));
    let e = Seq::<char>::empty();
    lemma_split_line(e, a);
    assert((e + a).push('\n') =~= one);
    lemma_split_line(one, b);
    assert((one + b).push('\n') =~= one + two);
    let lines = split_lines(one + two).0;
    assert(lines =~= seq![a, b]);
    assert(trim_right(trim_left(a)) == a);
    assert(trim_right(trim_left(b)) == b);
    assert(lines.drop_last() =~= seq![a]);
    assert(seq![a].drop_last() =~= Seq::empty());
    assert(hints_in(seq![a].drop_last()) == Seq::<IpAddr>::empty());
    assert(hints_in(seq![a]) == Seq::<IpAddr>::empty());
}

proof fn lemma_hint_lines(ips: Seq<IpAddr>)
    requires
        forall|i: int| 0 <= i < ips.len() ==> reads_back(#[trigger] ips[i]),
    ensures
        split_lines(hints_header() + hint_lines(ips)).1 == Seq::<char>::empty(),
        hints_in(split_lines(hints_header() + hint_lines(ips)).0) == ips,
    decreases ips.len(),
{
    let h = hints_header();
    if ips.len() == 0 {
        lemma_header_holds_none();
        assert(h + hint_lines(ips) =~= h);
        assert(ips =~= Seq::empty());
    } else {
        let rest = ips.drop_last();
        let ip = ips.last();
        let t = ip_text(ip);
        assert forall|i: int| 0 <= i < rest.len() implies reads_back(#[trigger] rest[i]) by {
            assert(rest[i] == ips[i]);
        }
        lemma_hint_lines(rest);
        assert(reads_back(ips[ips.len() - 1]));
        assert(no_line_end(t)) by {
            assert forall|i: int| 0 <= i < t.len() implies #[trigger] t[i] != '\n' by {
                assert(!is_space(t[i]));
            }
        }
        let before = h + hint_lines(rest);
        lemma_split_line(before, t);
        reveal_strlit("\n");
        assert(h + hint_lines(ips) =~= (before + t).push('\n'));
        let done = split_lines(before).0;
        assert(done.push(t).drop_last() =~= done);
        assert(!is_space(t[0]));
        assert(!is_space(t[t.len() - 1]));
        assert(trim_right(trim_left(t)) == t);
        assert(rest.push(ip) =~= ips);
    }
}

/// The file of root hints holds what was written to it, provided that each address reads
/// back from its own text.
pub proof fn law_root_hints_read_back(ips: Seq<IpAddr>)
    ensures
        (forall|i: int| 0 <= i < ips.len() ==> reads_back(#[trigger] ips[i])) ==> hints_of(
            "# dnsd primed root hints — machine-generated, do not edit\n"@
                + "# Refreshed on each successful `./NS` priming query.\n"@ + hint_lines(ips),
        ) == ips,
{
    if forall|i: int| 0 <= i < ips.len() ==> reads_back(#[trigger] ips[i]) {
        lemma_hint_lines(ips);
        let done = split_lines(hints_header() + hint_lines(ips)).0;
        let e = Seq::<char>::empty();
        assert(done.push(e).drop_last() =~= done);
        assert(hint_in(e) is None);
    }
}

/// The root hints are all the lines that hold an address, in order.
pub proof fn law_every_hint_counts(lines: Seq<Seq<char>>)
    ensures
        hints_in(lines) == lines.filter(|x: Seq<char>| hint_in(x) is Some).map_values(
            |x: Seq<char>| hint_in(x)->0,
        ),
    decreases lines.len(),
{
    let p = |x: Seq<char>| hint_in(x) is Some;
    let f = |x: Seq<char>| hint_in(x)->0;
    if lines.len() == 0 {
        crate::lists::lemma_pick_none(lines, p, f);
    } else {
        law_every_hint_counts(lines.drop_last());
        crate::lists::lemma_pick_last(lines, p, f);
    }
}

} // verus!
