//! Proofs that a name or a type does not exist: NSEC (RFC 4035) and NSEC3 (RFC 5155).

use crate::bytes::bytes_eq;
use crate::name::{counted_labels, in_zone, last_labels, lower, same_name, star, Labels, Name};
use crate::names::{base32_hex_decode, base32_hex_decoded, display_type, name_text, type_text};
use crate::order::{
    bytes_before, bytes_lt, lemma_bytes_order_antisymmetric, lemma_bytes_order_irreflexive,
    name_order,
};
use crate::rdata::{bitmap_contains, bitmap_has, nsec3_in, nsec_in, rrsig_in, Nsec3, Nsec3V};
use crate::recursor::chain::{
    any_key_verifies, chain_v, check_rrsig_validity, closest_trusted_keys, covering,
    find_covering, group_records, grouped, no_empty_set, sets_v, some_key_verifies, trusted_keys,
    window_error, ZoneKeys, ZoneKeysV,
};
use crate::recursor::crypto::{nsec3_hash, nsec3_hashed};
use crate::recursor::dnssec::{StatusV, ValidationStatus};
use crate::text::{join2, join3, join4, join5, push_text};
use crate::wire::{
    records_v, Message, MessageV, Record, RecordV, RCODE_NOERROR, RCODE_NXDOMAIN, TYPE_NSEC,
    TYPE_NSEC3,
};
use vstd::prelude::*;

verus! {

/// Whether the first name comes before the second in canonical order.
pub open spec fn name_before(a: Labels, b: Labels) -> bool {
    name_order(a, b) < 0
}

/// Whether the first name comes before the second in canonical order.
pub fn canonical_lt(a: &Name, b: &Name) -> (r: bool)
    ensures
        r == name_before(a@, b@),
{
    a.order(b) < 0
}

/// Whether a hash lies strictly inside an NSEC3 interval, which may run past the end
/// of the zone and on from its start.
pub open spec fn in_hash_range(target: Seq<u8>, owner: Seq<u8>, next: Seq<u8>) -> bool {
    ||| bytes_before(owner, target) && bytes_before(target, next)
    ||| bytes_before(next, owner) && (bytes_before(owner, target) || bytes_before(target, next))
}

/// Whether a hash lies strictly inside an NSEC3 interval.
pub fn hash_in_range(target: &[u8], owner_hash: &[u8], next_hash: &[u8]) -> (r: bool)
    ensures
        r == in_hash_range(target@, owner_hash@, next_hash@),
{
    if bytes_lt(owner_hash, target) && bytes_lt(target, next_hash) {
        true
    } else if bytes_lt(next_hash, owner_hash) {
        bytes_lt(owner_hash, target) || bytes_lt(target, next_hash)
    } else {
        false
    }
}

/// The two ends of an NSEC3 interval are not inside it: names that exist are never
/// covered.
pub proof fn law_hash_range_is_open(owner: Seq<u8>, next: Seq<u8>)
    ensures
        !in_hash_range(owner, owner, next),
        !in_hash_range(next, owner, next),
{
    lemma_bytes_order_irreflexive(owner, 0);
    lemma_bytes_order_irreflexive(next, 0);
    lemma_bytes_order_antisymmetric(owner, next, 0);
}

/// A hash other than the two ends lies inside an NSEC3 interval or inside the interval
/// that runs the other way round, not in both.
pub proof fn law_hash_ranges_partition(target: Seq<u8>, a: Seq<u8>, b: Seq<u8>)
    requires
        crate::order::bytes_order(target, a, 0) != 0,
        crate::order::bytes_order(target, b, 0) != 0,
        crate::order::bytes_order(a, b, 0) != 0,
    ensures
        in_hash_range(target, a, b) != in_hash_range(target, b, a),
{
    lemma_bytes_order_antisymmetric(a, b, 0);
    lemma_bytes_order_antisymmetric(a, target, 0);
    lemma_bytes_order_antisymmetric(b, target, 0);
}

/// Number of bytes of the wire form of a name.
pub open spec fn wire_len(n: Labels) -> nat
    decreases n.len(),
{
    if n.len() == 0 {
        1
    } else {
        wire_len(n.drop_last()) + 1 + n.last().len()
    }
}

/// The wildcard name below `owner`, in lower case; none where it would be too long.
pub open spec fn wildcard_below(owner: Labels) -> Option<Labels> {
    if wire_len(owner) + 2 <= 255 {
        Some(lower(seq![star()] + owner))
    } else {
        None
    }
}

fn fits_with_star(n: &Name) -> (r: bool)
    ensures
        r == (wire_len(n@) + 2 <= 255),
{
    let mut len: usize = 1;
    let mut i: usize = 0;
    let mut over: bool = false;
    assert(n@.subrange(0, 0) =~= Seq::empty());
    while i < n.labels.len()
        invariant
            i <= n.labels@.len(),
            !over ==> len == wire_len(n@.subrange(0, i as int)) && len <= 255,
            over ==> wire_len(n@.subrange(0, i as int)) > 255,
        decreases n.labels@.len() - i,
    {
        proof {
            assert(n@.subrange(0, i + 1).drop_last() =~= n@.subrange(0, i as int));
            assert(n@.subrange(0, i + 1).last() == n.labels@[i as int]@);
        }
        if !over {
            let l: usize = n.labels[i].len();
            if l > 254 || len + 1 + l > 255 {
                over = true;
            } else {
                len = len + 1 + l;
            }
        }
        i += 1;
    }
    assert(n@.subrange(0, n@.len() as int) =~= n@);
    !over && len + 2 <= 255
}

/// The wildcard name below `owner`.
pub fn prepend_wildcard(owner: &Name) -> (r: Option<Name>)
    ensures
        wildcard_below(owner@) == (match r {
            Some(n) => Some(n@),
            None => None,
        }),
{
    if !fits_with_star(owner) {
        return None;
    }
    let label: [u8; 1] = [42u8];
    let n = owner.prepend(label.as_slice());
    assert(label@ =~= star());
    Some(n.to_lowercase())
}

/// One step up, a leftmost wildcard label counting for nothing.
pub open spec fn step_up(n: Labels) -> Labels {
    last_labels(n, counted_labels(n) - 1)
}

/// The first of `anc` and its ancestors that holds `cand`; the root is not asked.
pub open spec fn first_common(anc: Labels, cand: Labels) -> Option<Labels>
    decreases anc.len(),
{
    if counted_labels(anc) == 0 {
        None
    } else if in_zone(anc, cand) {
        Some(anc)
    } else {
        first_common(step_up(anc), cand)
    }
}

/// The deeper of `best` and a common ancestor.
pub open spec fn deeper(best: Labels, common: Option<Labels>) -> Labels {
    match common {
        Some(c) => if counted_labels(c) > counted_labels(best) {
            c
        } else {
            best
        },
        None => best,
    }
}

/// The closest encloser of `qname` that the two ends of an NSEC interval show.
pub open spec fn encloser(qname: Labels, owner: Labels, next: Labels) -> Labels {
    deeper(deeper(Seq::empty(), first_common(qname, owner)), first_common(qname, next))
}

fn find_common(qname: &Name, cand: &Name) -> (r: Option<Name>)
    ensures
        first_common(qname@, cand@) == (match r {
            Some(n) => Some(n@),
            None => None,
        }),
{
    let mut anc = qname.clone();
    loop
        invariant
            first_common(qname@, cand@) == first_common(anc@, cand@),
        decreases anc@.len(),
    {
        let n: usize = anc.num_labels();
        if n == 0 {
            return None;
        }
        if anc.zone_of(cand) {
            return Some(anc);
        }
        anc = anc.trim_to(n - 1);
    }
}

/// The closest encloser of `qname` that the two ends of an NSEC interval show.
pub fn closest_encloser(qname: &Name, owner: &Name, next: &Name) -> (r: Name)
    ensures
        r@ == encloser(qname@, owner@, next@),
{
    let mut best = Name::root();
    if let Some(c) = find_common(qname, owner) {
        if c.num_labels() > best.num_labels() {
            best = c;
        }
    }
    if let Some(c) = find_common(qname, next) {
        if c.num_labels() > best.num_labels() {
            best = c;
        }
    }
    best
}

/// The NSEC record shows that `qname` falls between two neighbours.
pub open spec fn nsec_covers_name(r: RecordV, qname: Labels) -> bool {
    match nsec_in(r) {
        Some((next, _)) => name_before(r.name, lower(qname)) && name_before(lower(qname), next),
        None => false,
    }
}

/// The NSEC record shows that the wildcard at the closest encloser does not exist, or
/// lacks the type.
pub open spec fn nsec_covers_wildcard(r: RecordV, qname: Labels, qtype: u16) -> bool {
    match nsec_in(r) {
        Some((next, bits)) => match wildcard_below(encloser(lower(qname), r.name, next)) {
            Some(w) => {
                ||| name_before(r.name, w) && name_before(w, next)
                ||| same_name(r.name, w) && !bitmap_has(r.rdata, bits, qtype)
            },
            None => false,
        },
        None => false,
    }
}

/// The first set, from `i` on, that belongs to `qname` and holds an NSEC.
pub open spec fn nsec_at(sets: Seq<Seq<RecordV>>, qname: Labels, i: int) -> Option<RecordV>
    decreases sets.len() - i,
{
    if i < 0 || i >= sets.len() {
        None
    } else if same_name(sets[i][0].name, qname) && nsec_in(sets[i][0]) is Some {
        Some(sets[i][0])
    } else {
        nsec_at(sets, qname, i + 1)
    }
}

/// How a truth value is written.
pub open spec fn bool_text(b: bool) -> Seq<char> {
    if b {
        "true"@
    } else {
        "false"@
    }
}

/// Some set shows that `qname` falls between two neighbours.
pub open spec fn some_name_cover(sets: Seq<Seq<RecordV>>, qname: Labels) -> bool {
    exists|i: int| 0 <= i < sets.len() && nsec_covers_name((#[trigger] sets[i])[0], qname)
}

/// Some set shows that the wildcard does not exist or lacks the type.
pub open spec fn some_wildcard_cover(sets: Seq<Seq<RecordV>>, qname: Labels, qtype: u16) -> bool {
    exists|i: int|
        0 <= i < sets.len() && nsec_covers_wildcard((#[trigger] sets[i])[0], qname, qtype)
}

/// What a set of NSEC records proves of a name and type.
pub open spec fn nsec_status(
    sets: Seq<Seq<RecordV>>,
    qname: Labels,
    qtype: u16,
    rcode: u16,
) -> StatusV {
    if rcode == RCODE_NOERROR {
        match nsec_at(sets, qname, 0) {
            None => StatusV::Insecure,
            Some(r) => match nsec_in(r) {
                None => StatusV::Insecure,
                Some((_, bits)) => if !bitmap_has(r.rdata, bits, qtype) {
                    StatusV::Secure
                } else {
                    StatusV::Bogus(
                        "NODATA claimed for "@ + name_text(qname) + "/"@ + type_text(qtype)
                            + " but NSEC shows type present"@,
                    )
                },
            },
        }
    } else if rcode == RCODE_NXDOMAIN {
        if some_name_cover(sets, qname) && some_wildcard_cover(sets, qname, qtype) {
            StatusV::Secure
        } else {
            StatusV::Bogus(
                "NSEC NXDOMAIN proof incomplete for "@ + name_text(qname) + ": name_cover="@
                    + bool_text(some_name_cover(sets, qname)) + " wildcard_cover="@ + bool_text(
                    some_wildcard_cover(sets, qname, qtype),
                ),
            )
        }
    } else {
        StatusV::Insecure
    }
}

fn covers_wildcard(r: &Record, qname_lower: &Name, Ghost(qname): Ghost<Labels>, qtype: u16) -> (ok:
    bool)
    requires
        qname_lower@ == lower(qname),
    ensures
        ok == nsec_covers_wildcard(r@, qname, qtype),
{
    match r.nsec() {
        None => false,
        Some((next, bits)) => {
            let enc = closest_encloser(qname_lower, &r.name, &next);
            match prepend_wildcard(&enc) {
                None => false,
                Some(w) => {
                    (canonical_lt(&r.name, &w) && canonical_lt(&w, &next)) || (r.name.same(&w)
                        && !bitmap_contains(r.rdata.as_slice(), bits, qtype))
                },
            }
        },
    }
}

fn covers_name(r: &Record, qname_lower: &Name, Ghost(qname): Ghost<Labels>) -> (ok: bool)
    requires
        qname_lower@ == lower(qname),
    ensures
        ok == nsec_covers_name(r@, qname),
{
    match r.nsec() {
        None => false,
        Some((next, _)) => canonical_lt(&r.name, qname_lower) && canonical_lt(qname_lower, &next),
    }
}

fn bool_str(b: bool) -> (r: &'static str)
    ensures
        r@ == bool_text(b),
{
    if b {
        "true"
    } else {
        "false"
    }
}

/// What a set of NSEC records proves of a name and type.
pub fn prove_denial_nsec(sets: &Vec<Vec<Record>>, qname: &Name, qtype: u16, rcode: u16) -> (r:
    ValidationStatus)
    requires
        no_empty_set(sets_v(sets@)),
    ensures
        r@ == nsec_status(sets_v(sets@), qname@, qtype, rcode),
{
    let ghost v = sets_v(sets@);
    if rcode == RCODE_NOERROR {
        let mut i: usize = 0;
        while i < sets.len()
            invariant
                i <= sets@.len(),
                v == sets_v(sets@),
                no_empty_set(v),
                rcode == RCODE_NOERROR,
                nsec_at(v, qname@, 0) == nsec_at(v, qname@, i as int),
            decreases sets@.len() - i,
        {
            assert(v[i as int].len() > 0);
            let r: &Record = &sets[i][0];
            assert(v[i as int][0] == r@);
            if r.name.same(qname) {
                if let Some((_, bits)) = r.nsec() {
                    if !bitmap_contains(r.rdata.as_slice(), bits, qtype) {
                        return ValidationStatus::Secure;
                    }
                    return ValidationStatus::Bogus(
                        join5(
                            "NODATA claimed for ",
                            qname.text().as_str(),
                            "/",
                            display_type(qtype).as_str(),
                            " but NSEC shows type present",
                        ),
                    );
                }
            }
            i += 1;
        }
        return ValidationStatus::Insecure;
    }
    if rcode == RCODE_NXDOMAIN {
        let qname_lower = qname.to_lowercase();
        let mut name_cover: bool = false;
        let mut wildcard_cover: bool = false;
        let mut i: usize = 0;
        while i < sets.len()
            invariant
                i <= sets@.len(),
                v == sets_v(sets@),
                no_empty_set(v),
                qname_lower@ == lower(qname@),
                name_cover <==> exists|j: int|
                    0 <= j < i && nsec_covers_name((#[trigger] v[j])[0], qname@),
                wildcard_cover <==> exists|j: int|
                    0 <= j < i && nsec_covers_wildcard((#[trigger] v[j])[0], qname@, qtype),
            decreases sets@.len() - i,
        {
            assert(v[i as int].len() > 0);
            let r: &Record = &sets[i][0];
            assert(v[i as int][0] == r@);
            if covers_name(r, &qname_lower, Ghost(qname@)) {
                name_cover = true;
            }
            if covers_wildcard(r, &qname_lower, Ghost(qname@), qtype) {
                wildcard_cover = true;
            }
            i += 1;
        }
        assert(name_cover == some_name_cover(v, qname@));
        assert(wildcard_cover == some_wildcard_cover(v, qname@, qtype));
        if name_cover && wildcard_cover {
            return ValidationStatus::Secure;
        }
        let mut msg = join5(
            "NSEC NXDOMAIN proof incomplete for ",
            qname.text().as_str(),
            ": name_cover=",
            bool_str(name_cover),
            " wildcard_cover=",
        );
        push_text(&mut msg, bool_str(wildcard_cover));
        return ValidationStatus::Bogus(msg);
    }
    ValidationStatus::Insecure
}

/// One NSEC3 record: the hash of its owner, the next hash, and its data.
#[derive(Debug)]
pub struct Interval {
    pub owner: Vec<u8>,
    pub data: Nsec3,
    pub rdata: Vec<u8>,
}

/// The value of an [`Interval`].
#[verifier::ext_equal]
pub ghost struct IntervalV {
    pub owner: Seq<u8>,
    pub data: Nsec3V,
    pub rdata: Seq<u8>,
}

impl View for Interval {
    type V = IntervalV;

    open spec fn view(&self) -> IntervalV {
        IntervalV { owner: self.owner@, data: self.data@, rdata: self.rdata@ }
    }
}

/// The values of a list of intervals.
pub open spec fn intervals_v(s: Seq<Interval>) -> Seq<IntervalV> {
    Seq::new(s.len(), |i: int| s[i]@)
}

/// ASCII upper case of a byte.
pub open spec fn upper_byte(b: u8) -> u8 {
    if 97 <= b <= 122 {
        (b - 32) as u8
    } else {
        b
    }
}

/// The hash that the first label of an NSEC3 owner spells in base 32, in either case.
pub open spec fn owner_hash(name: Labels) -> Option<Seq<u8>> {
    if name.len() == 0 {
        None
    } else {
        base32_hex_decoded(Seq::new(name[0].len(), |i: int| upper_byte(name[0][i])))
    }
}

/// The interval of an NSEC3 record.
pub open spec fn interval_in(r: RecordV) -> Option<IntervalV> {
    match (nsec3_in(r), owner_hash(r.name)) {
        (Some(data), Some(owner)) => Some(IntervalV { owner, data, rdata: r.rdata }),
        _ => None,
    }
}

/// The intervals of the first records of the sets.
pub open spec fn intervals(sets: Seq<Seq<RecordV>>) -> Seq<IntervalV>
    decreases sets.len(),
{
    if sets.len() == 0 {
        Seq::empty()
    } else {
        let rest = intervals(sets.drop_last());
        match interval_in(sets.last()[0]) {
            Some(i) => rest.push(i),
            None => rest,
        }
    }
}

/// The parameters of the first NSEC3 record, from set `i` on.
pub open spec fn nsec3_params(sets: Seq<Seq<RecordV>>, i: int) -> Option<Nsec3V>
    decreases sets.len() - i,
{
    if i < 0 || i >= sets.len() {
        None
    } else if nsec3_in(sets[i][0]) is Some {
        nsec3_in(sets[i][0])
    } else {
        nsec3_params(sets, i + 1)
    }
}

/// The first interval, from `i` on, whose owner has this hash.
pub open spec fn interval_at(s: Seq<IntervalV>, h: Seq<u8>, i: int) -> Option<int>
    decreases s.len() - i,
{
    if i < 0 || i >= s.len() {
        None
    } else if s[i].owner == h {
        Some(i)
    } else {
        interval_at(s, h, i + 1)
    }
}

/// The hash of a name under the given parameters.
pub open spec fn hash_with(p: Nsec3V, n: Labels) -> Option<Seq<u8>> {
    nsec3_hashed(p.salt, n, p.iterations)
}

/// The deepest proper ancestor of `current` that an NSEC3 record belongs to.
pub open spec fn encloser3(s: Seq<IntervalV>, p: Nsec3V, current: Labels) -> Option<Labels>
    decreases current.len(),
{
    if counted_labels(current) == 0 {
        None
    } else {
        let up = step_up(current);
        match hash_with(p, up) {
            None => None,
            Some(h) => if interval_at(s, h, 0) is Some {
                Some(up)
            } else {
                encloser3(s, p, up)
            },
        }
    }
}

/// Some interval covers the hash.
pub open spec fn covered(s: Seq<IntervalV>, h: Seq<u8>) -> bool {
    exists|i: int| 0 <= i < s.len() && in_hash_range(h, (#[trigger] s[i]).owner, s[i].data.next)
}

/// The name one label longer than the closest encloser, on the way to `qname`.
pub open spec fn next_closer(qname: Labels, enc: Labels) -> Labels {
    last_labels(qname, counted_labels(enc) as int + 1)
}

/// What NSEC3 intervals prove of a name that is said not to exist.
pub open spec fn nsec3_nxdomain(s: Seq<IntervalV>, p: Nsec3V, qname: Labels) -> StatusV {
    match encloser3(s, p, qname) {
        None => StatusV::Bogus(
            "NSEC3 NXDOMAIN: no closest-encloser found for "@ + name_text(qname),
        ),
        Some(enc) => if counted_labels(enc) + 1 > counted_labels(qname) {
            StatusV::Bogus(
                "NSEC3 NXDOMAIN: "@ + name_text(qname) + " same as closest encloser "@ + name_text(
                    enc,
                ),
            )
        } else {
            match hash_with(p, next_closer(qname, enc)) {
                None => StatusV::Insecure,
                Some(nc) => if !covered(s, nc) {
                    StatusV::Bogus(
                        "NSEC3 NXDOMAIN: no NSEC3 covers next-closer "@ + name_text(
                            next_closer(qname, enc),
                        ),
                    )
                } else {
                    match wildcard_below(enc) {
                        None => StatusV::Insecure,
                        Some(w) => match hash_with(p, w) {
                            None => StatusV::Insecure,
                            Some(wc) => if covered(s, wc) || interval_at(s, wc, 0) is Some {
                                StatusV::Secure
                            } else {
                                StatusV::Bogus(
                                    "NSEC3 NXDOMAIN: no NSEC3 covers wildcard "@ + name_text(w),
                                )
                            },
                        },
                    }
                },
            }
        },
    }
}

/// What NSEC3 intervals prove of a type that is said not to exist at a name.
pub open spec fn nsec3_nodata(s: Seq<IntervalV>, p: Nsec3V, qname: Labels, qtype: u16) -> StatusV {
    match hash_with(p, qname) {
        None => StatusV::Insecure,
        Some(h) => match interval_at(s, h, 0) {
            None => StatusV::Insecure,
            Some(i) => if !bitmap_has(s[i].rdata, s[i].data.bitmap, qtype) {
                StatusV::Secure
            } else {
                StatusV::Bogus(
                    "NSEC3 NODATA claim contradicted by type bitmap for "@ + name_text(qname)
                        + "/"@ + type_text(qtype),
                )
            },
        },
    }
}

/// What a set of NSEC3 records proves of a name and type.
pub open spec fn nsec3_status(
    sets: Seq<Seq<RecordV>>,
    qname: Labels,
    qtype: u16,
    rcode: u16,
) -> StatusV {
    match nsec3_params(sets, 0) {
        None => StatusV::Insecure,
        Some(p) => if rcode == RCODE_NOERROR {
            nsec3_nodata(intervals(sets), p, qname, qtype)
        } else if rcode == RCODE_NXDOMAIN {
            nsec3_nxdomain(intervals(sets), p, qname)
        } else {
            StatusV::Insecure
        },
    }
}

fn read_owner_hash(name: &Name) -> (r: Option<Vec<u8>>)
    ensures
        owner_hash(name@) == (match r {
            Some(h) => Some(h@),
            None => None,
        }),
{
    if name.labels.len() == 0 {
        return None;
    }
    let l: &Vec<u8> = &name.labels[0];
    let mut up: Vec<u8> = Vec::new();
    let mut i: usize = 0;
    while i < l.len()
        invariant
            i <= l@.len(),
            up@.len() == i,
            forall|j: int| 0 <= j < i ==> up@[j] == upper_byte(l@[j]),
        decreases l@.len() - i,
    {
        let b: u8 = l[i];
        up.push(
            if 97 <= b && b <= 122 {
                b - 32
            } else {
                b
            },
        );
        i += 1;
    }
    assert(up@ =~= Seq::new(name@[0].len(), |i: int| upper_byte(name@[0][i])));
    base32_hex_decode(up.as_slice())
}

fn read_intervals(sets: &Vec<Vec<Record>>) -> (r: Vec<Interval>)
    requires
        no_empty_set(sets_v(sets@)),
    ensures
        intervals_v(r@) == intervals(sets_v(sets@)),
{
    let ghost v = sets_v(sets@);
    let mut out: Vec<Interval> = Vec::new();
    let mut i: usize = 0;
    assert(intervals_v(out@) =~= Seq::empty());
    while i < sets.len()
        invariant
            i <= sets@.len(),
            v == sets_v(sets@),
            no_empty_set(v),
            intervals_v(out@) == intervals(v.subrange(0, i as int)),
        decreases sets@.len() - i,
    {
        assert(v[i as int].len() > 0);
        let r: &Record = &sets[i][0];
        assert(v[i as int][0] == r@);
        let ghost had = intervals_v(out@);
        proof {
            assert(v.subrange(0, i + 1).drop_last() =~= v.subrange(0, i as int));
            assert(v.subrange(0, i + 1).last() == v[i as int]);
        }
        if let Some(data) = r.nsec3() {
            if let Some(owner) = read_owner_hash(&r.name) {
                let iv = Interval {
                    owner,
                    data,
                    rdata: crate::bytes::copy_bytes(r.rdata.as_slice()),
                };
                out.push(iv);
                assert(intervals_v(out@) =~= had.push(iv@));
            }
        }
        i += 1;
    }
    assert(v.subrange(0, v.len() as int) =~= v);
    out
}

fn read_params(sets: &Vec<Vec<Record>>) -> (r: Option<Nsec3>)
    requires
        no_empty_set(sets_v(sets@)),
    ensures
        nsec3_params(sets_v(sets@), 0) == (match r {
            Some(p) => Some(p@),
            None => None,
        }),
{
    let ghost v = sets_v(sets@);
    let mut i: usize = 0;
    while i < sets.len()
        invariant
            i <= sets@.len(),
            v == sets_v(sets@),
            no_empty_set(v),
            nsec3_params(v, 0) == nsec3_params(v, i as int),
        decreases sets@.len() - i,
    {
        assert(v[i as int].len() > 0);
        let r: &Record = &sets[i][0];
        assert(v[i as int][0] == r@);
        if let Some(p) = r.nsec3() {
            return Some(p);
        }
        i += 1;
    }
    None
}

fn find_interval(s: &Vec<Interval>, h: &[u8]) -> (r: Option<usize>)
    ensures
        interval_at(intervals_v(s@), h@, 0) == (match r {
            Some(i) => Some(i as int),
            None => None,
        }),
        r is Some ==> r->0 < s@.len(),
{
    let mut i: usize = 0;
    while i < s.len()
        invariant
            i <= s@.len(),
            interval_at(intervals_v(s@), h@, 0) == interval_at(intervals_v(s@), h@, i as int),
        decreases s@.len() - i,
    {
        assert(intervals_v(s@)[i as int] == s@[i as int]@);
        if bytes_eq(s[i].owner.as_slice(), h) {
            return Some(i);
        }
        i += 1;
    }
    None
}

fn is_covered(s: &Vec<Interval>, h: &[u8]) -> (r: bool)
    ensures
        r == covered(intervals_v(s@), h@),
{
    let ghost v = intervals_v(s@);
    let mut i: usize = 0;
    while i < s.len()
        invariant
            i <= s@.len(),
            v == intervals_v(s@),
            forall|j: int|
                0 <= j < i ==> !in_hash_range(h@, (#[trigger] v[j]).owner, v[j].data.next),
        decreases s@.len() - i,
    {
        assert(v[i as int] == s@[i as int]@);
        if hash_in_range(h, s[i].owner.as_slice(), s[i].data.next.as_slice()) {
            return true;
        }
        i += 1;
    }
    false
}

fn find_encloser(s: &Vec<Interval>, p: &Nsec3, qname: &Name) -> (r: Option<Name>)
    ensures
        encloser3(intervals_v(s@), p@, qname@) == (match r {
            Some(n) => Some(n@),
            None => None,
        }),
        r is Some ==> r->0@.len() < qname@.len(),
{
    let mut current = qname.clone();
    loop
        invariant
            encloser3(intervals_v(s@), p@, qname@) == encloser3(intervals_v(s@), p@, current@),
            current@.len() <= qname@.len(),
        decreases current@.len(),
    {
        let n: usize = current.num_labels();
        if n == 0 {
            return None;
        }
        let up = current.trim_to(n - 1);
        assert(up@ == step_up(current@));
        match nsec3_hash(p.salt.as_slice(), &up, p.iterations) {
            None => {
                return None;
            },
            Some(h) => {
                if find_interval(s, h.as_slice()).is_some() {
                    return Some(up);
                }
            },
        }
        current = up;
    }
}

fn prove_nsec3_nxdomain(s: &Vec<Interval>, p: &Nsec3, qname: &Name) -> (r: ValidationStatus)
    ensures
        r@ == nsec3_nxdomain(intervals_v(s@), p@, qname@),
{
    let enc = match find_encloser(s, p, qname) {
        Some(e) => e,
        None => {
            return ValidationStatus::Bogus(
                join2(
                    "NSEC3 NXDOMAIN: no closest-encloser found for ",
                    qname.text().as_str()),
            );
        },
    };
    if enc.num_labels() >= qname.num_labels() {
        return ValidationStatus::Bogus(
            join4(
                "NSEC3 NXDOMAIN: ",
                qname.text().as_str(),
                " same as closest encloser ",
                enc.text().as_str()),
        );
    }
    let closer = qname.trim_to(enc.num_labels() + 1);
    assert(closer@ == next_closer(qname@, enc@));
    let nc = match nsec3_hash(p.salt.as_slice(), &closer, p.iterations) {
        Some(h) => h,
        None => return ValidationStatus::Insecure,
    };
    if !is_covered(s, nc.as_slice()) {
        return ValidationStatus::Bogus(
            join2(
                "NSEC3 NXDOMAIN: no NSEC3 covers next-closer ",
                closer.text().as_str()),
        );
    }
    let w = match prepend_wildcard(&enc) {
        Some(w) => w,
        None => return ValidationStatus::Insecure,
    };
    let wc = match nsec3_hash(p.salt.as_slice(), &w, p.iterations) {
        Some(h) => h,
        None => return ValidationStatus::Insecure,
    };
    if is_covered(s, wc.as_slice()) || find_interval(s, wc.as_slice()).is_some() {
        ValidationStatus::Secure
    } else {
        ValidationStatus::Bogus(
            join2("NSEC3 NXDOMAIN: no NSEC3 covers wildcard ", w.text().as_str()),
        )
    }
}

/// What a set of NSEC3 records proves of a name and type.
pub fn prove_denial_nsec3(sets: &Vec<Vec<Record>>, qname: &Name, qtype: u16, rcode: u16) -> (r:
    ValidationStatus)
    requires
        no_empty_set(sets_v(sets@)),
    ensures
        r@ == nsec3_status(sets_v(sets@), qname@, qtype, rcode),
{
    let p = match read_params(sets) {
        Some(p) => p,
        None => return ValidationStatus::Insecure,
    };
    let s = read_intervals(sets);
    if rcode == RCODE_NOERROR {
        let h = match nsec3_hash(p.salt.as_slice(), qname, p.iterations) {
            Some(h) => h,
            None => return ValidationStatus::Insecure,
        };
        match find_interval(&s, h.as_slice()) {
            None => ValidationStatus::Insecure,
            Some(i) => {
                assert(intervals_v(s@)[i as int] == s@[i as int]@);
                if !bitmap_contains(s[i].rdata.as_slice(), s[i].data.bitmap, qtype) {
                    ValidationStatus::Secure
                } else {
                    ValidationStatus::Bogus(
                        join4(
                            "NSEC3 NODATA claim contradicted by type bitmap for ",
                            qname.text().as_str(),
                            "/",
                            display_type(qtype).as_str()),
                    )
                }
            },
        }
    } else if rcode == RCODE_NXDOMAIN {
        prove_nsec3_nxdomain(&s, &p, qname)
    } else {
        ValidationStatus::Insecure
    }
}

/// The first thing wrong, from set `i` on, with the signatures over the sets.
pub open spec fn authority_error(
    sets: Seq<Seq<RecordV>>,
    auth: Seq<RecordV>,
    chain: Seq<ZoneKeysV>,
    now: u32,
    i: int,
) -> Option<Seq<char>>
    decreases sets.len() - i,
{
    if i < 0 || i >= sets.len() {
        None
    } else {
        let owner = sets[i][0].name;
        match covering(auth, sets[i][0].rtype, Some(owner), 0) {
            None => Some("denial RRset at "@ + name_text(owner) + " has no RRSIG"@),
            Some(sig) => {
                let s = rrsig_in(sig)->0;
                match window_error(s, now) {
                    Some(e) => Some(
                        "denial RRSIG at "@ + name_text(owner) + " invalid: "@ + e,
                    ),
                    None => if trusted_keys(chain, s.signer).len() == 0 {
                        Some(
                            "no trusted keys under "@ + name_text(s.signer)
                                + " to verify denial at "@ + name_text(owner),
                        )
                    } else if !some_key_verifies(sets[i], sig, trusted_keys(chain, s.signer)) {
                        Some(
                            "denial RRSIG at "@ + name_text(owner) + " did not verify under "@
                                + name_text(s.signer),
                        )
                    } else {
                        authority_error(sets, auth, chain, now, i + 1)
                    },
                }
            },
        }
    }
}

/// Check the signatures over sets of denial records.
pub fn verify_authority_rrsets(
    sets: &Vec<Vec<Record>>,
    authorities: &Vec<Record>,
    chain: &Vec<ZoneKeys>,
    now: u32,
) -> (r: Result<(), String>)
    requires
        no_empty_set(sets_v(sets@)),
    ensures
        authority_error(sets_v(sets@), records_v(authorities@), chain_v(chain@), now, 0) == (
        match r {
            Ok(()) => None,
            Err(e) => Some(e@),
        }),
{
    let ghost v = sets_v(sets@);
    let ghost a = records_v(authorities@);
    let ghost c = chain_v(chain@);
    let mut i: usize = 0;
    while i < sets.len()
        invariant
            i <= sets@.len(),
            v == sets_v(sets@),
            a == records_v(authorities@),
            c == chain_v(chain@),
            no_empty_set(v),
            authority_error(v, a, c, now, 0) == authority_error(v, a, c, now, i as int),
        decreases sets@.len() - i,
    {
        assert(v[i as int].len() > 0);
        let r: &Record = &sets[i][0];
        assert(v[i as int][0] == r@);
        let (rec, sig) = match find_covering(authorities, r.rtype, Some(&r.name)) {
            Some(p) => p,
            None => {
                return Err(join3("denial RRset at ", r.name.text().as_str(), " has no RRSIG"));
            },
        };
        if let Err(e) = check_rrsig_validity(&sig, now) {
            return Err(
                join4(
                    "denial RRSIG at ",
                    r.name.text().as_str(),
                    " invalid: ",
                    e.as_str()),
            );
        }
        let keys = closest_trusted_keys(chain, &sig.signer);
        if keys.len() == 0 {
            return Err(
                join4(
                    "no trusted keys under ",
                    sig.signer.text().as_str(),
                    " to verify denial at ",
                    r.name.text().as_str()),
            );
        }
        if !any_key_verifies(&sets[i], &rec, &keys) {
            return Err(
                join4(
                    "denial RRSIG at ",
                    r.name.text().as_str(),
                    " did not verify under ",
                    sig.signer.text().as_str()),
            );
        }
        i += 1;
    }
    Ok(())
}

/// What the authority section of an empty answer proves of a name and type. NSEC3
/// records go before NSEC records.
pub open spec fn denial_status(
    resp: MessageV,
    chain: Seq<ZoneKeysV>,
    qname: Labels,
    qtype: u16,
    now: u32,
) -> StatusV {
    let nsec = grouped(resp.authorities, Some(TYPE_NSEC));
    let nsec3 = grouped(resp.authorities, Some(TYPE_NSEC3));
    if nsec.len() == 0 && nsec3.len() == 0 {
        StatusV::Insecure
    } else {
        match authority_error(nsec, resp.authorities, chain, now, 0) {
            Some(e) => StatusV::Bogus(e),
            None => match authority_error(nsec3, resp.authorities, chain, now, 0) {
                Some(e) => StatusV::Bogus(e),
                None => if nsec3.len() > 0 {
                    nsec3_status(nsec3, qname, qtype, resp.header.rcode)
                } else {
                    nsec_status(nsec, qname, qtype, resp.header.rcode)
                },
            },
        }
    }
}

/// What the authority section of an empty answer proves of a name and type.
pub fn validate_denial(
    resp: &Message,
    chain: &Vec<ZoneKeys>,
    qname: &Name,
    qtype: u16,
    now: u32,
) -> (r: ValidationStatus)
    ensures
        r@ == denial_status(resp@, chain_v(chain@), qname@, qtype, now),
{
    let nsec = group_records(&resp.authorities, Some(TYPE_NSEC));
    let nsec3 = group_records(&resp.authorities, Some(TYPE_NSEC3));
    assert(sets_v(nsec@).len() == nsec@.len());
    assert(sets_v(nsec3@).len() == nsec3@.len());
    if nsec.len() == 0 && nsec3.len() == 0 {
        return ValidationStatus::Insecure;
    }
    if let Err(e) = verify_authority_rrsets(&nsec, &resp.authorities, chain, now) {
        return ValidationStatus::Bogus(e);
    }
    if let Err(e) = verify_authority_rrsets(&nsec3, &resp.authorities, chain, now) {
        return ValidationStatus::Bogus(e);
    }
    if nsec3.len() > 0 {
        return prove_denial_nsec3(&nsec3, qname, qtype, resp.header.rcode);
    }
    prove_denial_nsec(&nsec, qname, qtype, resp.header.rcode)
}

/// Whether a set of denial records is signed at its owner, inside the signature's window,
/// with a trusted key.
pub open spec fn denial_signed(
    set: Seq<RecordV>,
    auth: Seq<RecordV>,
    chain: Seq<ZoneKeysV>,
    now: u32,
) -> bool {
    match covering(auth, set[0].rtype, Some(set[0].name), 0) {
        None => false,
        Some(sig) => {
            let s = rrsig_in(sig)->0;
            &&& window_error(s, now) is None
            &&& some_key_verifies(set, sig, trusted_keys(chain, s.signer))
        },
    }
}

proof fn lemma_no_error_means_signed(
    sets: Seq<Seq<RecordV>>,
    auth: Seq<RecordV>,
    chain: Seq<ZoneKeysV>,
    now: u32,
    i: int,
    j: int,
)
    requires
        0 <= i <= j < sets.len(),
        authority_error(sets, auth, chain, now, i) is None,
    ensures
        denial_signed(sets[j], auth, chain, now),
    decreases j - i,
{
    if i < j {
        lemma_no_error_means_signed(sets, auth, chain, now, i + 1, j);
    }
}

/// That there is nothing to answer counts as secure only on the word of signed records:
/// each set of NSEC or NSEC3 records in the reply is signed with a trusted key.
pub proof fn law_secure_denials_are_signed(
    resp: MessageV,
    chain: Seq<ZoneKeysV>,
    qname: Labels,
    qtype: u16,
    now: u32,
    j: int,
)
    requires
        denial_status(resp, chain, qname, qtype, now) == StatusV::Secure,
    ensures
        grouped(resp.authorities, Some(TYPE_NSEC)).len() + grouped(
            resp.authorities,
            Some(TYPE_NSEC3),
        ).len() > 0,
        0 <= j < grouped(resp.authorities, Some(TYPE_NSEC)).len() ==> denial_signed(
            grouped(resp.authorities, Some(TYPE_NSEC))[j],
            resp.authorities,
            chain,
            now,
        ),
        0 <= j < grouped(resp.authorities, Some(TYPE_NSEC3)).len() ==> denial_signed(
            grouped(resp.authorities, Some(TYPE_NSEC3))[j],
            resp.authorities,
            chain,
            now,
        ),
{
    let nsec = grouped(resp.authorities, Some(TYPE_NSEC));
    let nsec3 = grouped(resp.authorities, Some(TYPE_NSEC3));
    if 0 <= j < nsec.len() {
        lemma_no_error_means_signed(nsec, resp.authorities, chain, now, 0, j);
    }
    if 0 <= j < nsec3.len() {
        lemma_no_error_means_signed(nsec3, resp.authorities, chain, now, 0, j);
    }
}

/// The NSEC record at a name is the first of the sets with that owner.
pub proof fn law_first_nsec_at_the_name(sets: Seq<Seq<RecordV>>, qname: Labels, from: int)
    requires
        0 <= from <= sets.len(),
    ensures
        match nsec_at(sets, qname, from) {
            Some(v) => exists|i: int|
                {
                    &&& from <= i < sets.len()
                    &&& same_name((#[trigger] sets[i])[0].name, qname) && nsec_in((#[trigger] sets[i])[0]) is Some
                    &&& v == sets[i][0]
                    &&& forall|j: int| from <= j < i ==> !(same_name((#[trigger] sets[j])[0].name, qname) && nsec_in((#[trigger] sets[j])[0]) is Some)
                },
            None => forall|j: int| from <= j < sets.len() ==> !(same_name((#[trigger] sets[j])[0].name, qname) && nsec_in((#[trigger] sets[j])[0]) is Some),
        },
    decreases sets.len() - from,
{
    if from < sets.len() {
        if same_name(sets[from][0].name, qname) && nsec_in(sets[from][0]) is Some {
            assert(nsec_at(sets, qname, from) == Some(sets[from][0]));
        } else {
            law_first_nsec_at_the_name(sets, qname, from + 1);
        }
    }
}

/// Every NSEC3 record with a readable owner gives an interval of hashes, in order.
pub proof fn law_every_interval_counts(sets: Seq<Seq<RecordV>>)
    ensures
        intervals(sets) == sets.filter(|x: Seq<RecordV>| nsec3_in(x[0]) is Some && owner_hash(x[0].name) is Some).map_values(
            |x: Seq<RecordV>| IntervalV { owner: owner_hash(x[0].name)->0, data: nsec3_in(x[0])->0, rdata: x[0].rdata },
        ),
    decreases sets.len(),
{
    let p = |x: Seq<RecordV>| nsec3_in(x[0]) is Some && owner_hash(x[0].name) is Some;
    let f = |x: Seq<RecordV>| IntervalV { owner: owner_hash(x[0].name)->0, data: nsec3_in(x[0])->0, rdata: x[0].rdata };
    if sets.len() == 0 {
        crate::lists::lemma_pick_none(sets, p, f);
    } else {
        law_every_interval_counts(sets.drop_last());
        crate::lists::lemma_pick_last(sets, p, f);
    }
}

/// The parameters of the hash are those of the first NSEC3 record.
pub proof fn law_first_nsec3_parameters(sets: Seq<Seq<RecordV>>, from: int)
    requires
        0 <= from <= sets.len(),
    ensures
        match nsec3_params(sets, from) {
            Some(v) => exists|i: int|
                {
                    &&& from <= i < sets.len()
                    &&& nsec3_in((#[trigger] sets[i])[0]) is Some
                    &&& v == nsec3_in(sets[i][0])->0
                    &&& forall|j: int| from <= j < i ==> !(nsec3_in((#[trigger] sets[j])[0]) is Some)
                },
            None => forall|j: int| from <= j < sets.len() ==> !(nsec3_in((#[trigger] sets[j])[0]) is Some),
        },
    decreases sets.len() - from,
{
    if from < sets.len() {
        if nsec3_in(sets[from][0]) is Some {
            assert(nsec3_params(sets, from) == Some(nsec3_in(sets[from][0])->0));
        } else {
            law_first_nsec3_parameters(sets, from + 1);
        }
    }
}

/// The interval at a hash is the first that begins with it.
pub proof fn law_first_interval_at_a_hash(s: Seq<IntervalV>, h: Seq<u8>, from: int)
    requires
        0 <= from <= s.len(),
    ensures
        match interval_at(s, h, from) {
            Some(i) => {
                &&& from <= i < s.len()
                &&& s[i].owner == h
                &&& forall|j: int| from <= j < i ==> !((#[trigger] s[j]).owner == h)
            },
            None => forall|j: int| from <= j < s.len() ==> !((#[trigger] s[j]).owner == h),
        },
    decreases s.len() - from,
{
    if from < s.len() && !(s[from].owner == h) {
        law_first_interval_at_a_hash(s, h, from + 1);
    }
}


/// A hash lies in an interval that does not wrap exactly where it comes after the start and
/// before the end, and in one that wraps where it comes after the start or before the end.
pub proof fn law_hash_intervals(target: Seq<u8>, owner: Seq<u8>, next: Seq<u8>)
    ensures
        bytes_before(owner, next) ==> (in_hash_range(target, owner, next) <==> bytes_before(
            owner,
            target,
        ) && bytes_before(target, next)),
        bytes_before(next, owner) ==> (in_hash_range(target, owner, next) <==> bytes_before(
            owner,
            target,
        ) || bytes_before(target, next)),
{
    crate::order::lemma_bytes_order_antisymmetric(owner, next, 0);
}

/// That a name has no records of a type is proved by the NSEC record at the name exactly where
/// its list of types lacks the type; where the list has it the claim is refuted; and without
/// such a record nothing is proved.
pub proof fn law_nsec_nodata(sets: Seq<Seq<RecordV>>, qname: Labels, qtype: u16)
    ensures
        ({
            let status = nsec_status(sets, qname, qtype, RCODE_NOERROR);
            &&& (forall|i: int|
                0 <= i < sets.len() ==> !(same_name((#[trigger] sets[i])[0].name, qname)
                    && nsec_in(sets[i][0]) is Some)) ==> status == StatusV::Insecure
            &&& forall|i: int|
                0 <= i < sets.len() && same_name((#[trigger] sets[i])[0].name, qname) && nsec_in(
                    sets[i][0],
                ) is Some && (forall|j: int|
                    0 <= j < i ==> !(same_name((#[trigger] sets[j])[0].name, qname) && nsec_in(
                        sets[j][0],
                    ) is Some)) ==> if bitmap_has(
                    sets[i][0].rdata,
                    (nsec_in(sets[i][0])->0).1,
                    qtype,
                ) {
                    status is Bogus
                } else {
                    status == StatusV::Secure
                }
        }),
{
    law_first_nsec_at_the_name(sets, qname, 0);
    assert forall|i: int|
        0 <= i < sets.len() && same_name((#[trigger] sets[i])[0].name, qname) && nsec_in(
            sets[i][0],
        ) is Some && (forall|j: int|
            0 <= j < i ==> !(same_name((#[trigger] sets[j])[0].name, qname) && nsec_in(
                sets[j][0],
            ) is Some)) implies nsec_at(sets, qname, 0) == Some(sets[i][0]) by {
        let k = choose|k: int|
            {
                &&& 0 <= k < sets.len()
                &&& same_name((#[trigger] sets[k])[0].name, qname) && nsec_in(sets[k][0]) is Some
                &&& nsec_at(sets, qname, 0)->0 == sets[k][0]
                &&& forall|j: int|
                    0 <= j < k ==> !(same_name((#[trigger] sets[j])[0].name, qname) && nsec_in(
                        sets[j][0],
                    ) is Some)
            };
        assert(k == i);
    }
}

/// That a name does not exist is proved by NSEC records exactly where one of them, any one,
/// spans the name, and one of them, any one, rules out the wildcard; otherwise the claim is
/// bogus.
pub proof fn law_nsec_nxdomain(sets: Seq<Seq<RecordV>>, qname: Labels, qtype: u16)
    ensures
        ({
            let status = nsec_status(sets, qname, qtype, RCODE_NXDOMAIN);
            let spans = |i: int|
                0 <= i < sets.len() && nsec_in(sets[i][0]) is Some && name_order(
                    sets[i][0].name,
                    lower(qname),
                ) < 0 && name_order(lower(qname), (nsec_in(sets[i][0])->0).0) < 0;
            let rules_out = |i: int|
                0 <= i < sets.len() && nsec_covers_wildcard(sets[i][0], qname, qtype);
            &&& (exists|i: int| #[trigger] spans(i)) && (exists|i: int| #[trigger] rules_out(i))
                <==> status == StatusV::Secure
            &&& !(status == StatusV::Secure) ==> status is Bogus
        }),
{
    let spans = |i: int|
        0 <= i < sets.len() && nsec_in(sets[i][0]) is Some && name_order(
            sets[i][0].name,
            lower(qname),
        ) < 0 && name_order(lower(qname), (nsec_in(sets[i][0])->0).0) < 0;
    let rules_out = |i: int|
        0 <= i < sets.len() && nsec_covers_wildcard(sets[i][0], qname, qtype);
    if exists|i: int| #[trigger] spans(i) {
        let i = choose|i: int| #[trigger] spans(i);
        assert(nsec_covers_name(sets[i][0], qname));
    }
    if exists|i: int| #[trigger] rules_out(i) {
        let i = choose|i: int| #[trigger] rules_out(i);
        assert(nsec_covers_wildcard(sets[i][0], qname, qtype));
    }
    if some_name_cover(sets, qname) {
        let i = choose|i: int|
            0 <= i < sets.len() && nsec_covers_name((#[trigger] sets[i])[0], qname);
        assert(spans(i));
    }
    if some_wildcard_cover(sets, qname, qtype) {
        let i = choose|i: int|
            0 <= i < sets.len() && nsec_covers_wildcard((#[trigger] sets[i])[0], qname, qtype);
        assert(rules_out(i));
    }
}

/// A record rules a wildcard out where it spans it, or stands at it and its list of types
/// lacks the type: the asterisk below the closest ancestor of the name that the record shows
/// to exist.
pub proof fn law_nsec_rules_out_the_wildcard(r: RecordV, qname: Labels, qtype: u16, next: Labels, bits: int)
    requires
        nsec_in(r) == Some((next, bits)),
    ensures
        ({
            let enc = encloser(lower(qname), r.name, next);
            let w = lower(seq![seq![42u8]] + enc);
            wildcard_below(enc) is Some ==> (nsec_covers_wildcard(r, qname, qtype) <==> (name_order(
                r.name,
                w,
            ) < 0 && name_order(w, next) < 0) || (same_name(r.name, w) && !bitmap_has(
                r.rdata,
                bits,
                qtype,
            )))
        }),
{
}

proof fn lemma_first_common(anc: Labels, cand: Labels)
    requires
        forall|i: int| 0 <= i < anc.len() ==> #[trigger] anc[i] != seq![42u8],
    ensures
        match first_common(anc, cand) {
            Some(c) => {
                &&& c.len() > 0
                &&& c.len() <= anc.len()
                &&& c == last_labels(anc, c.len() as int)
                &&& in_zone(c, cand)
                &&& forall|k: int|
                    c.len() < k <= anc.len() ==> !in_zone(#[trigger] last_labels(anc, k), cand)
            },
            None => forall|k: int|
                0 < k <= anc.len() ==> !in_zone(#[trigger] last_labels(anc, k), cand),
        },
    decreases anc.len(),
{
    if anc.len() > 0 {
        assert(anc[0] != seq![42u8]);
        assert(counted_labels(anc) == anc.len());
        assert(last_labels(anc, anc.len() as int) =~= anc);
        if !in_zone(anc, cand) {
            let up = step_up(anc);
            assert(up == last_labels(anc, anc.len() - 1));
            assert forall|i: int| 0 <= i < up.len() implies #[trigger] up[i] != seq![42u8] by {
                assert(up[i] == anc[i + 1]);
            }
            lemma_first_common(up, cand);
            assert forall|k: int| 0 < k <= up.len() implies #[trigger] last_labels(anc, k)
                == last_labels(up, k) by {
                assert(last_labels(anc, k) =~= last_labels(up, k));
            }
            match first_common(up, cand) {
                Some(c) => {
                    assert forall|k: int| c.len() < k <= anc.len() implies !in_zone(
                        #[trigger] last_labels(anc, k),
                        cand,
                    ) by {
                        if k <= up.len() {
                            assert(last_labels(anc, k) == last_labels(up, k));
                        }
                    }
                },
                None => {
                    assert forall|k: int| 0 < k <= anc.len() implies !in_zone(
                        #[trigger] last_labels(anc, k),
                        cand,
                    ) by {
                        if k <= up.len() {
                            assert(last_labels(anc, k) == last_labels(up, k));
                        }
                    }
                },
            }
        }
    }
}

/// The closest encloser that a record shows is the longest ancestor of the name, or the name,
/// that one of the two ends of the record lies in.
pub proof fn law_closest_encloser_is_the_longest(qname: Labels, owner: Labels, next: Labels)
    requires
        forall|i: int| 0 <= i < qname.len() ==> #[trigger] qname[i] != seq![42u8],
    ensures
        ({
            let enc = encloser(qname, owner, next);
            &&& enc.len() <= qname.len()
            &&& enc == last_labels(qname, enc.len() as int)
            &&& enc.len() > 0 ==> in_zone(enc, owner) || in_zone(enc, next)
            &&& forall|k: int|
                enc.len() < k <= qname.len() ==> !in_zone(#[trigger] last_labels(qname, k), owner)
                    && !in_zone(last_labels(qname, k), next)
        }),
{
    lemma_first_common(qname, owner);
    lemma_first_common(qname, next);
    assert(last_labels(qname, 0) =~= Seq::<Seq<u8>>::empty());
    let a = first_common(qname, owner);
    let b = first_common(qname, next);
    if let Some(c) = a {
        assert(c.len() > 0 && c[0] == qname[qname.len() - c.len()]);
        assert(counted_labels(c) == c.len());
    }
    if let Some(c) = b {
        assert(c.len() > 0 && c[0] == qname[qname.len() - c.len()]);
        assert(counted_labels(c) == c.len());
    }
}

/// That a name has no records of a type is proved by the NSEC3 record at its hash exactly
/// where its list of types lacks the type, refuted where the list has it, and otherwise open.
pub proof fn law_nsec3_nodata(
    sets: Seq<Seq<RecordV>>,
    p: Nsec3V,
    qname: Labels,
    qtype: u16,
    h: Seq<u8>,
)
    requires
        nsec3_params(sets, 0) == Some(p),
        nsec3_hashed(p.salt, qname, p.iterations) == Some(h),
    ensures
        ({
            let s = intervals(sets);
            let status = nsec3_status(sets, qname, qtype, RCODE_NOERROR);
            &&& (forall|i: int| 0 <= i < s.len() ==> (#[trigger] s[i]).owner != h) ==> status
                == StatusV::Insecure
            &&& forall|i: int|
                0 <= i < s.len() && (#[trigger] s[i]).owner == h && (forall|j: int|
                    0 <= j < i ==> (#[trigger] s[j]).owner != h) ==> if bitmap_has(
                    s[i].rdata,
                    s[i].data.bitmap,
                    qtype,
                ) {
                    status is Bogus
                } else {
                    status == StatusV::Secure
                }
        }),
{
    law_first_interval_at_a_hash(intervals(sets), h, 0);
}

/// That a name does not exist is proved by NSEC3 records where some ancestor is the closest
/// one that stands at its hash, the hash of the name just below it lies in some interval, and
/// the hash of the wildcard below it lies in some interval, or at the start of one.
pub proof fn law_nsec3_nxdomain(
    sets: Seq<Seq<RecordV>>,
    p: Nsec3V,
    qname: Labels,
    qtype: u16,
    enc: Labels,
    below: Seq<u8>,
    wild: Seq<u8>,
)
    requires
        nsec3_params(sets, 0) == Some(p),
        encloser3(intervals(sets), p, qname) == Some(enc),
        counted_labels(enc) < counted_labels(qname),
        nsec3_hashed(p.salt, last_labels(qname, counted_labels(enc) as int + 1), p.iterations) == Some(
            below,
        ),
        wildcard_below(enc) is Some,
        nsec3_hashed(p.salt, wildcard_below(enc)->0, p.iterations) == Some(wild),
    ensures
        ({
            let s = intervals(sets);
            let status = nsec3_status(sets, qname, qtype, RCODE_NXDOMAIN);
            let spanned = |h: Seq<u8>|
                exists|i: int|
                    0 <= i < s.len() && in_hash_range(h, (#[trigger] s[i]).owner, s[i].data.next);
            let stands = exists|i: int| 0 <= i < s.len() && (#[trigger] s[i]).owner == wild;
            &&& status == StatusV::Secure <==> spanned(below) && (spanned(wild) || stands)
            &&& status != StatusV::Secure ==> status is Bogus
        }),
{
    let s = intervals(sets);
    law_first_interval_at_a_hash(s, wild, 0);
}

/// The closest encloser among NSEC3 records is the longest proper ancestor whose hash some
/// record stands at, as long as hashes can be computed.
pub proof fn law_nsec3_closest_encloser(s: Seq<IntervalV>, p: Nsec3V, current: Labels)
    requires
        forall|i: int| 0 <= i < current.len() ==> #[trigger] current[i] != seq![42u8],
        forall|n: Labels| (#[trigger] nsec3_hashed(p.salt, n, p.iterations)) is Some,
    ensures
        match encloser3(s, p, current) {
            Some(enc) => {
                &&& enc.len() < current.len()
                &&& enc == last_labels(current, enc.len() as int)
                &&& stands_at(s, p, enc)
                &&& forall|k: int|
                    enc.len() < k < current.len() ==> !stands_at(
                        s,
                        p,
                        #[trigger] last_labels(current, k),
                    )
            },
            None => forall|k: int|
                0 <= k < current.len() ==> !stands_at(s, p, #[trigger] last_labels(current, k)),
        },
    decreases current.len(),
{
    if current.len() > 0 {
        assert(current[0] != seq![42u8]);
        let up = step_up(current);
        assert(up == last_labels(current, current.len() - 1));
        assert(nsec3_hashed(p.salt, up, p.iterations) is Some);
        law_first_interval_at_a_hash(s, nsec3_hashed(p.salt, up, p.iterations)->0, 0);
        assert(stands_at(s, p, up) <==> interval_at(
            s,
            nsec3_hashed(p.salt, up, p.iterations)->0,
            0,
        ) is Some);
        if !stands_at(s, p, up) {
            assert forall|i: int| 0 <= i < up.len() implies #[trigger] up[i] != seq![42u8] by {
                assert(up[i] == current[i + 1]);
            }
            law_nsec3_closest_encloser(s, p, up);
            assert forall|k: int| 0 <= k <= up.len() implies #[trigger] last_labels(current, k)
                == last_labels(up, k) by {
                assert(last_labels(current, k) =~= last_labels(up, k));
            }
            assert(last_labels(up, up.len() as int) =~= up);
            match encloser3(s, p, up) {
                Some(enc) => {
                    assert forall|k: int| enc.len() < k < current.len() implies !stands_at(
                        s,
                        p,
                        #[trigger] last_labels(current, k),
                    ) by {
                        assert(last_labels(current, k) == last_labels(up, k));
                    }
                },
                None => {
                    assert forall|k: int| 0 <= k < current.len() implies !stands_at(
                        s,
                        p,
                        #[trigger] last_labels(current, k),
                    ) by {
                        assert(last_labels(current, k) == last_labels(up, k));
                    }
                },
            }
        }
    }
}

/// Some interval begins with the hash of a name.
pub open spec fn stands_at(s: Seq<IntervalV>, p: Nsec3V, n: Labels) -> bool {
    exists|i: int|
        0 <= i < s.len() && nsec3_hashed(p.salt, n, p.iterations) == Some((#[trigger] s[i]).owner)
}

/// A set of denial records that bears a signature, in its window, of one of the keys trusted
/// for the signer.
pub open spec fn good_denial(
    set: Seq<RecordV>,
    auth: Seq<RecordV>,
    chain: Seq<ZoneKeysV>,
    now: u32,
) -> bool {
    let sig = covering(auth, set[0].rtype, Some(set[0].name), 0);
    let s = rrsig_in(sig->0)->0;
    let keys = trusted_keys(chain, s.signer);
    &&& sig is Some
    &&& s.inception <= s.expiration
    &&& s.inception <= now + 300
    &&& now <= s.expiration + 300
    &&& exists|i: int|
        0 <= i < keys.len() && crate::recursor::crypto::rrset_verifies(
            set,
            sig->0,
            #[trigger] keys[i],
        )
}

/// Denial records are taken where every set of them is well signed, and only there.
pub proof fn law_signed_denials_are_taken(
    sets: Seq<Seq<RecordV>>,
    auth: Seq<RecordV>,
    chain: Seq<ZoneKeysV>,
    now: u32,
    from: int,
)
    requires
        0 <= from <= sets.len(),
    ensures
        authority_error(sets, auth, chain, now, from) is None <==> forall|i: int|
            from <= i < sets.len() ==> good_denial(#[trigger] sets[i], auth, chain, now),
    decreases sets.len() - from,
{
    if from < sets.len() {
        let sig = covering(auth, sets[from][0].rtype, Some(sets[from][0].name), 0);
        if sig is Some {
            crate::recursor::chain::law_signature_window(rrsig_in(sig->0)->0, now);
            crate::recursor::chain::law_any_one_key_suffices(
                sets[from],
                sig->0,
                trusted_keys(chain, rrsig_in(sig->0)->0.signer),
            );
        }
        law_signed_denials_are_taken(sets, auth, chain, now, from + 1);
    }
}

/// A denial says what its records prove: NSEC3 records where there are any, else NSEC records,
/// provided that all of them are well signed; it is bogus where one is not, and insecure where
/// there are none.
pub proof fn law_denials_say_what_is_proved(
    resp: MessageV,
    chain: Seq<ZoneKeysV>,
    qname: Labels,
    qtype: u16,
    now: u32,
)
    ensures
        ({
            let nsec = grouped(resp.authorities, Some(TYPE_NSEC));
            let nsec3 = grouped(resp.authorities, Some(TYPE_NSEC3));
            let signed = (forall|i: int|
                0 <= i < nsec.len() ==> good_denial(
                    #[trigger] nsec[i],
                    resp.authorities,
                    chain,
                    now,
                )) && (forall|i: int|
                0 <= i < nsec3.len() ==> good_denial(
                    #[trigger] nsec3[i],
                    resp.authorities,
                    chain,
                    now,
                ));
            let status = denial_status(resp, chain, qname, qtype, now);
            &&& nsec.len() == 0 && nsec3.len() == 0 ==> status == StatusV::Insecure
            &&& !signed ==> status is Bogus
            &&& signed && nsec3.len() > 0 ==> status == nsec3_status(
                nsec3,
                qname,
                qtype,
                resp.header.rcode,
            )
            &&& signed && nsec3.len() == 0 && nsec.len() > 0 ==> status == nsec_status(
                nsec,
                qname,
                qtype,
                resp.header.rcode,
            )
        }),
{
    law_signed_denials_are_taken(
        grouped(resp.authorities, Some(TYPE_NSEC)),
        resp.authorities,
        chain,
        now,
        0,
    );
    law_signed_denials_are_taken(
        grouped(resp.authorities, Some(TYPE_NSEC3)),
        resp.authorities,
        chain,
        now,
        0,
    );
}

/// The hash in an owner name is read in either case.
pub proof fn law_owner_hashes_in_any_case(a: Labels, b: Labels)
    requires
        same_name(a, b),
    ensures
        owner_hash(a) == owner_hash(b),
{
    assert(lower(a).len() == lower(b).len());
    if a.len() > 0 {
        crate::name::law_same_name_ignores_case_alone(a, b);
        assert(a[0].len() == b[0].len());
        let x = Seq::new(a[0].len(), |i: int| upper_byte(a[0][i]));
        let y = Seq::new(b[0].len(), |i: int| upper_byte(b[0][i]));
        assert forall|i: int| 0 <= i < x.len() implies #[trigger] x[i] == y[i] by {
            assert(crate::name::same_letter(a[0][i], b[0][i]));
        }
        assert(x =~= y);
    }
}

/// The wildcard below a name is an asterisk and its labels, in lower case, where that is short
/// enough for a name.
pub proof fn law_wildcards(owner: Labels)
    requires
        crate::codec::name_ok(owner),
    ensures
        wildcard_below(owner) is Some <==> crate::codec::name_wire(seq![seq![42u8]] + owner).len()
            <= 255,
        wildcard_below(owner) is Some ==> wildcard_below(owner)->0 == lower(
            seq![seq![42u8]] + owner,
        ),
{
    let w = seq![seq![42u8]] + owner;
    lemma_wire_len(owner);
    assert(w.drop_first() =~= owner);
    assert(w[0] == seq![42u8]);
}

proof fn lemma_wire_len(n: Labels)
    ensures
        crate::codec::name_wire(n).len() == wire_len(n),
    decreases n.len(),
{
    if n.len() > 0 {
        let rest = n.drop_first();
        lemma_wire_len(rest);
        lemma_wire_len_front(n);
    }
}

proof fn lemma_wire_len_front(n: Labels)
    requires
        n.len() > 0,
    ensures
        wire_len(n) == 1 + n[0].len() + wire_len(n.drop_first()),
    decreases n.len(),
{
    let init = n.drop_last();
    if n.len() > 1 {
        lemma_wire_len_front(init);
        assert(n.drop_first().drop_last() =~= init.drop_first());
        assert(n.drop_first().last() == n.last());
        assert(init[0] == n[0]);
        assert(wire_len(n.drop_first()) == wire_len(init.drop_first()) + 1 + n.last().len());
    } else {
        assert(wire_len(init) == 1);
        assert(n.last() == n[0]);
        assert(wire_len(n.drop_first()) == 1);
    }
    assert(wire_len(n) == wire_len(init) + 1 + n.last().len());
}

} // verus!
