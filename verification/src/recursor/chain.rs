//! Chains of trust: keys by zone, sets of records and the signatures that cover them.

use crate::name::{counted_labels, in_zone, same_name, Labels, Name};
use crate::order::{name_order, sign};
use crate::rdata::{rrsig_in, Rrsig, RrsigV};
use crate::recursor::anchor::{Dnskey, DnskeyV};
use crate::recursor::crypto::{rrset_verifies, verify_rrset};
use crate::recursor::trust::{dnskeys_v, TrustAnchor, TrustAnchorV};
use crate::text::{dec, push_dec, push_text};
use crate::wire::{records_v, Record, RecordV, TYPE_RRSIG};
use vstd::prelude::*;

verus! {

/// Tolerated clock skew, in seconds.
pub const CLOCK_SKEW: u32 = 300;

/// The trusted keys of one zone.
#[derive(Debug)]
pub struct ZoneKeys {
    pub zone: Name,
    pub absolute: bool,
    pub keys: Vec<Dnskey>,
}

/// The value of [`ZoneKeys`].
#[verifier::ext_equal]
pub ghost struct ZoneKeysV {
    pub zone: Labels,
    pub absolute: bool,
    pub keys: Seq<DnskeyV>,
}

impl View for ZoneKeys {
    type V = ZoneKeysV;

    open spec fn view(&self) -> ZoneKeysV {
        ZoneKeysV { zone: self.zone@, absolute: self.absolute, keys: dnskeys_v(self.keys@) }
    }
}

/// The value of a chain of trust.
pub open spec fn chain_v(s: Seq<ZoneKeys>) -> Seq<ZoneKeysV> {
    Seq::new(s.len(), |i: int| s[i]@)
}

/// A copy of a list of keys.
pub fn clone_keys(s: &Vec<Dnskey>) -> (r: Vec<Dnskey>)
    ensures
        dnskeys_v(r@) == dnskeys_v(s@),
{
    let mut out: Vec<Dnskey> = Vec::new();
    let mut i: usize = 0;
    while i < s.len()
        invariant
            i <= s@.len(),
            out@.len() == i,
            forall|j: int| 0 <= j < i ==> (#[trigger] out@[j])@ == s@[j]@,
        decreases s@.len() - i,
    {
        out.push(s[i].clone());
        i += 1;
    }
    assert(dnskeys_v(out@) =~= dnskeys_v(s@));
    out
}

/// The position of the entry for exactly this zone.
pub open spec fn entry_for(chain: Seq<ZoneKeysV>, zone: Labels, absolute: bool, i: int) -> Option<
    int,
>
    decreases chain.len() - i,
{
    if i < 0 || i >= chain.len() {
        None
    } else if chain[i].absolute == absolute && same_name(chain[i].zone, zone) {
        Some(i)
    } else {
        entry_for(chain, zone, absolute, i + 1)
    }
}

/// The chain with one more trusted key.
pub open spec fn with_key(chain: Seq<ZoneKeysV>, a: TrustAnchorV) -> Seq<ZoneKeysV> {
    match entry_for(chain, a.zone, a.absolute, 0) {
        Some(i) => chain.update(
            i,
            ZoneKeysV { keys: chain[i].keys.push(a.key), ..chain[i] },
        ),
        None => chain.push(
            ZoneKeysV { zone: a.zone, absolute: a.absolute, keys: seq![a.key] },
        ),
    }
}

/// The chain that the trust anchors make: their keys by zone.
pub open spec fn seeded(anchors: Seq<TrustAnchorV>) -> Seq<ZoneKeysV>
    decreases anchors.len(),
{
    if anchors.len() == 0 {
        Seq::empty()
    } else {
        with_key(seeded(anchors.drop_last()), anchors.last())
    }
}

/// The position of the entry for exactly this zone.
pub fn find_entry(chain: &Vec<ZoneKeys>, zone: &Name, absolute: bool) -> (r: Option<usize>)
    ensures
        entry_for(chain_v(chain@), zone@, absolute, 0) == (match r {
            Some(i) => Some(i as int),
            None => None,
        }),
        r is Some ==> r->0 < chain@.len(),
{
    let mut i: usize = 0;
    while i < chain.len()
        invariant
            i <= chain@.len(),
            entry_for(chain_v(chain@), zone@, absolute, 0) == entry_for(
                chain_v(chain@),
                zone@,
                absolute,
                i as int,
            ),
        decreases chain@.len() - i,
    {
        assert(chain_v(chain@)[i as int] == chain@[i as int]@);
        if chain[i].absolute == absolute && chain[i].zone.same(zone) {
            return Some(i);
        }
        i += 1;
    }
    None
}

/// The chain that the trust anchors make.
pub fn seed_chain(anchors: &Vec<TrustAnchor>) -> (r: Vec<ZoneKeys>)
    ensures
        chain_v(r@) == seeded(crate::recursor::trust::anchors_v(anchors@)),
{
    let ghost v = crate::recursor::trust::anchors_v(anchors@);
    let mut chain: Vec<ZoneKeys> = Vec::new();
    let mut i: usize = 0;
    assert(chain_v(chain@) =~= Seq::empty());
    while i < anchors.len()
        invariant
            i <= anchors@.len(),
            v == crate::recursor::trust::anchors_v(anchors@),
            chain_v(chain@) == seeded(v.subrange(0, i as int)),
        decreases anchors@.len() - i,
    {
        let a: &TrustAnchor = &anchors[i];
        let ghost had = chain_v(chain@);
        match find_entry(&chain, &a.zone, a.absolute) {
            Some(p) => {
                let mut keys = clone_keys(&chain[p].keys);
                let ghost old_keys = dnskeys_v(keys@);
                let k = a.key.clone();
                keys.push(k);
                assert(dnskeys_v(keys@) =~= old_keys.push(a@.key));
                let e = ZoneKeys {
                    zone: chain[p].zone.clone(),
                    absolute: chain[p].absolute,
                    keys,
                };
                chain.set(p, e);
                assert(chain_v(chain@) =~= with_key(had, a@));
            },
            None => {
                let mut keys: Vec<Dnskey> = Vec::new();
                keys.push(a.key.clone());
                assert(dnskeys_v(keys@) =~= seq![a@.key]);
                let e = ZoneKeys { zone: a.zone.clone(), absolute: a.absolute, keys };
                chain.push(e);
                assert(chain_v(chain@) =~= with_key(had, a@));
            },
        }
        proof {
            assert(v.subrange(0, i + 1).drop_last() =~= v.subrange(0, i as int));
            assert(v.subrange(0, i + 1).last() == a@);
        }
        i += 1;
    }
    assert(v.subrange(0, v.len() as int) =~= v);
    chain
}

/// The chain without any entry for exactly this absolute zone.
pub open spec fn without(chain: Seq<ZoneKeysV>, zone: Labels) -> Seq<ZoneKeysV>
    decreases chain.len(),
{
    if chain.len() == 0 {
        Seq::empty()
    } else {
        let rest = without(chain.drop_last(), zone);
        if chain.last().absolute && same_name(chain.last().zone, zone) {
            rest
        } else {
            rest.push(chain.last())
        }
    }
}

/// The chain with the keys of one absolute zone replaced.
pub open spec fn replaced(chain: Seq<ZoneKeysV>, zone: Labels, keys: Seq<DnskeyV>) -> Seq<
    ZoneKeysV,
> {
    without(chain, zone).push(ZoneKeysV { zone, absolute: true, keys })
}

/// Replace the keys of one absolute zone.
pub fn replace_keys(chain: Vec<ZoneKeys>, zone: &Name, keys: Vec<Dnskey>) -> (r: Vec<ZoneKeys>)
    ensures
        chain_v(r@) == replaced(chain_v(chain@), zone@, dnskeys_v(keys@)),
{
    let ghost v = chain_v(chain@);
    let mut out: Vec<ZoneKeys> = Vec::new();
    let mut i: usize = 0;
    assert(chain_v(out@) =~= Seq::empty());
    while i < chain.len()
        invariant
            i <= chain@.len(),
            v == chain_v(chain@),
            chain_v(out@) == without(v.subrange(0, i as int), zone@),
        decreases chain@.len() - i,
    {
        let e: &ZoneKeys = &chain[i];
        let ghost had = chain_v(out@);
        if !(e.absolute && e.zone.same(zone)) {
            let c = ZoneKeys {
                zone: e.zone.clone(),
                absolute: e.absolute,
                keys: clone_keys(&e.keys),
            };
            out.push(c);
            assert(chain_v(out@) =~= had.push(e@));
        }
        proof {
            assert(v.subrange(0, i + 1).drop_last() =~= v.subrange(0, i as int));
            assert(v.subrange(0, i + 1).last() == e@);
        }
        i += 1;
    }
    assert(v.subrange(0, v.len() as int) =~= v);
    let ghost had = chain_v(out@);
    let e = ZoneKeys { zone: zone.clone(), absolute: true, keys };
    out.push(e);
    assert(chain_v(out@) =~= had.push(e@));
    out
}

/// The position of the deepest entry at or above `zone`; the first of equals.
pub open spec fn closest(chain: Seq<ZoneKeysV>, zone: Labels) -> Option<int>
    decreases chain.len(),
{
    if chain.len() == 0 {
        None
    } else {
        let e = chain.last();
        match closest(chain.drop_last(), zone) {
            None => if in_zone(e.zone, zone) {
                Some(chain.len() - 1)
            } else {
                None
            },
            Some(b) => if in_zone(e.zone, zone) && counted_labels(e.zone) > counted_labels(
                chain[b].zone,
            ) {
                Some(chain.len() - 1)
            } else {
                Some(b)
            },
        }
    }
}

/// The keys of the deepest zone at or above `zone` that the chain trusts.
pub open spec fn trusted_keys(chain: Seq<ZoneKeysV>, zone: Labels) -> Seq<DnskeyV> {
    match closest(chain, zone) {
        Some(i) => chain[i].keys,
        None => Seq::empty(),
    }
}

proof fn lemma_closest_bound(chain: Seq<ZoneKeysV>, zone: Labels)
    ensures
        match closest(chain, zone) {
            Some(i) => 0 <= i < chain.len(),
            None => true,
        },
    decreases chain.len(),
{
    if chain.len() > 0 {
        lemma_closest_bound(chain.drop_last(), zone);
    }
}

/// What the chain trusts for a name comes from a zone at or above the name, and from
/// none that is less deep than another such zone.
pub proof fn law_closest_is_deepest(chain: Seq<ZoneKeysV>, zone: Labels, j: int)
    requires
        0 <= j < chain.len(),
        in_zone(chain[j].zone, zone),
    ensures
        closest(chain, zone) is Some,
        0 <= closest(chain, zone)->0 < chain.len(),
        in_zone(chain[closest(chain, zone)->0].zone, zone),
        counted_labels(chain[j].zone) <= counted_labels(chain[closest(chain, zone)->0].zone),
    decreases chain.len(),
{
    let init = chain.drop_last();
    lemma_closest_bound(init, zone);
    lemma_closest_sound(init, zone);
    if j < init.len() {
        assert(init[j] == chain[j]);
        law_closest_is_deepest(init, zone, j);
    }
    match closest(init, zone) {
        Some(b) => {
            assert(init[b] == chain[b]);
        },
        None => {},
    }
}

proof fn lemma_closest_sound(chain: Seq<ZoneKeysV>, zone: Labels)
    ensures
        match closest(chain, zone) {
            Some(i) => 0 <= i < chain.len() && in_zone(chain[i].zone, zone),
            None => true,
        },
    decreases chain.len(),
{
    if chain.len() > 0 {
        lemma_closest_sound(chain.drop_last(), zone);
        match closest(chain.drop_last(), zone) {
            Some(b) => {
                assert(chain.drop_last()[b] == chain[b]);
            },
            None => {},
        }
    }
}

/// The keys of the deepest zone at or above `zone` that the chain trusts.
pub fn closest_trusted_keys(chain: &Vec<ZoneKeys>, zone: &Name) -> (r: Vec<Dnskey>)
    ensures
        dnskeys_v(r@) == trusted_keys(chain_v(chain@), zone@),
{
    let ghost v = chain_v(chain@);
    let mut best: Option<usize> = None;
    let mut i: usize = 0;
    while i < chain.len()
        invariant
            i <= chain@.len(),
            v == chain_v(chain@),
            closest(v.subrange(0, i as int), zone@) == (match best {
                Some(b) => Some(b as int),
                None => None,
            }),
            best is Some ==> best->0 < i,
        decreases chain@.len() - i,
    {
        proof {
            assert(v.subrange(0, i + 1).drop_last() =~= v.subrange(0, i as int));
            assert(v.subrange(0, i + 1).last() == chain@[i as int]@);
        }
        if chain[i].zone.zone_of(zone) {
            match best {
                None => {
                    best = Some(i);
                },
                Some(b) => {
                    assert(v.subrange(0, i + 1)[b as int] == chain@[b as int]@);
                    if chain[i].zone.num_labels() > chain[b].zone.num_labels() {
                        best = Some(i);
                    }
                },
            }
        }
        i += 1;
    }
    assert(v.subrange(0, v.len() as int) =~= v);
    match best {
        Some(b) => clone_keys(&chain[b].keys),
        None => {
            let r: Vec<Dnskey> = Vec::new();
            assert(dnskeys_v(r@) =~= Seq::empty());
            r
        },
    }
}

/// One of the keys made the signature.
pub open spec fn some_key_verifies(set: Seq<RecordV>, sig: RecordV, keys: Seq<DnskeyV>) -> bool {
    exists|i: int| 0 <= i < keys.len() && rrset_verifies(set, sig, #[trigger] keys[i])
}

/// Whether one of the keys made the signature.
pub fn any_key_verifies(set: &Vec<Record>, sig: &Record, keys: &Vec<Dnskey>) -> (r: bool)
    ensures
        r == some_key_verifies(records_v(set@), sig@, dnskeys_v(keys@)),
        forall|i: int|
            0 <= i < keys@.len() && rrset_verifies(records_v(set@), sig@, (#[trigger] keys@[i])@)
                ==> r,
        r ==> exists|i: int|
            0 <= i < keys@.len() && rrset_verifies(records_v(set@), sig@, (#[trigger] keys@[i])@),
{
    let mut i: usize = 0;
    while i < keys.len()
        invariant
            i <= keys@.len(),
            forall|j: int|
                0 <= j < i ==> !rrset_verifies(
                    records_v(set@),
                    sig@,
                    #[trigger] dnskeys_v(keys@)[j],
                ),
            forall|j: int|
                0 <= j < i ==> !rrset_verifies(records_v(set@), sig@, (#[trigger] keys@[j])@),
        decreases keys@.len() - i,
    {
        assert(dnskeys_v(keys@)[i as int] == keys@[i as int]@);
        if verify_rrset(set, sig, &keys[i]).is_ok() {
            return true;
        }
        i += 1;
    }
    false
}

/// What is wrong with the validity window of a signature at `now`, if anything.
pub open spec fn window_error(s: RrsigV, now: u32) -> Option<Seq<char>> {
    if s.expiration < s.inception {
        Some(
            "RRSIG expiration "@ + dec(s.expiration as nat) + " precedes inception "@ + dec(
                s.inception as nat,
            ),
        )
    } else if now + CLOCK_SKEW < s.inception {
        Some(
            "RRSIG inception "@ + dec(s.inception as nat) + " is > clock+skew "@ + dec(
                (now + CLOCK_SKEW) as nat,
            ),
        )
    } else if now > s.expiration + CLOCK_SKEW {
        Some(
            "RRSIG expired at "@ + dec(s.expiration as nat) + " (now="@ + dec(now as nat)
                + ", skew="@ + dec(CLOCK_SKEW as nat) + ")"@,
        )
    } else {
        None
    }
}

/// Check the validity window of a signature; `now` is in seconds since 1970.
pub fn check_rrsig_validity(sig: &Rrsig, now: u32) -> (r: Result<(), String>)
    ensures
        window_error(sig@, now) == (match r {
            Ok(()) => None,
            Err(e) => Some(e@),
        }),
{
    let mut e = String::new();
    if sig.expiration < sig.inception {
        push_text(&mut e, "RRSIG expiration ");
        push_dec(&mut e, sig.expiration as u64);
        push_text(&mut e, " precedes inception ");
        push_dec(&mut e, sig.inception as u64);
        assert(e@ =~= window_error(sig@, now)->0);
        return Err(e);
    }
    if now as u64 + (CLOCK_SKEW as u64) < sig.inception as u64 {
        push_text(&mut e, "RRSIG inception ");
        push_dec(&mut e, sig.inception as u64);
        push_text(&mut e, " is > clock+skew ");
        push_dec(&mut e, now as u64 + CLOCK_SKEW as u64);
        assert(e@ =~= window_error(sig@, now)->0);
        return Err(e);
    }
    if now as u64 > sig.expiration as u64 + CLOCK_SKEW as u64 {
        push_text(&mut e, "RRSIG expired at ");
        push_dec(&mut e, sig.expiration as u64);
        push_text(&mut e, " (now=");
        push_dec(&mut e, now as u64);
        push_text(&mut e, ", skew=");
        push_dec(&mut e, CLOCK_SKEW as u64);
        push_text(&mut e, ")");
        assert(e@ =~= window_error(sig@, now)->0);
        return Err(e);
    }
    Ok(())
}

/// The first signature, from `i` on, that covers type `rtype`, and, where an owner is
/// given, belongs to it.
pub open spec fn covering(rs: Seq<RecordV>, rtype: u16, owner: Option<Labels>, i: int) -> Option<
    RecordV,
>
    decreases rs.len() - i,
{
    if i < 0 || i >= rs.len() {
        None
    } else if rrsig_in(rs[i]) is Some && rrsig_in(rs[i])->0.type_covered == rtype && (owner is Some
        ==> same_name(owner->0, rs[i].name)) {
        Some(rs[i])
    } else {
        covering(rs, rtype, owner, i + 1)
    }
}

/// The first signature that covers type `rtype`.
pub fn find_covering(rs: &Vec<Record>, rtype: u16, owner: Option<&Name>) -> (r: Option<
    (Record, Rrsig),
>)
    ensures
        covering(
            records_v(rs@),
            rtype,
            match owner {
                Some(o) => Some(o@),
                None => None,
            },
            0,
        ) == (match r {
            Some((rec, _)) => Some(rec@),
            None => None,
        }),
        match r {
            Some((rec, s)) => rrsig_in(rec@) == Some(s@) && s@.type_covered == rtype,
            None => true,
        },
{
    let ghost o: Option<Labels> = match owner {
        Some(o) => Some(o@),
        None => None,
    };
    let mut i: usize = 0;
    while i < rs.len()
        invariant
            i <= rs@.len(),
            o == (match owner {
                Some(o) => Some(o@),
                None => None,
            }),
            covering(records_v(rs@), rtype, o, 0) == covering(
                records_v(rs@),
                rtype,
                o,
                i as int,
            ),
        decreases rs@.len() - i,
    {
        let rec: &Record = &rs[i];
        assert(records_v(rs@)[i as int] == rec@);
        if let Some(s) = rec.rrsig() {
            let mine = match owner {
                Some(n) => n.same(&rec.name),
                None => true,
            };
            if s.type_covered == rtype && mine {
                return Some((rec.clone(), s));
            }
        }
        i += 1;
    }
    None
}

/// Order by which sets of records are visited: owner, then, unless only owners count,
/// type and class.
pub open spec fn key_order(a: RecordV, b: RecordV, owner_only: bool) -> int {
    let n = name_order(a.name, b.name);
    if n != 0 || owner_only {
        n
    } else if a.rtype != b.rtype {
        sign(a.rtype as int, b.rtype as int)
    } else {
        sign(a.class as int, b.class as int)
    }
}

/// The first position, from `i` on, of a set that does not come before the record.
pub open spec fn place(groups: Seq<Seq<RecordV>>, r: RecordV, owner_only: bool, i: int) -> int
    decreases groups.len() - i,
{
    if i < 0 || i >= groups.len() {
        i
    } else if key_order(groups[i][0], r, owner_only) < 0 {
        place(groups, r, owner_only, i + 1)
    } else {
        i
    }
}

/// The sets with one more record, put with its like or as a set of its own.
pub open spec fn grouped_with(groups: Seq<Seq<RecordV>>, r: RecordV, owner_only: bool) -> Seq<
    Seq<RecordV>,
> {
    let p = place(groups, r, owner_only, 0);
    if p < groups.len() && key_order(groups[p][0], r, owner_only) == 0 {
        groups.update(p, groups[p].push(r))
    } else {
        groups.insert(p, seq![r])
    }
}

/// The record is asked for: it has the wanted type, or is no signature where none is
/// given.
pub open spec fn wanted(r: RecordV, want: Option<u16>) -> bool {
    match want {
        None => r.rtype != TYPE_RRSIG,
        Some(t) => r.rtype == t,
    }
}

/// The wanted records as sets, in order. Where a type is wanted, only owners tell sets
/// apart.
pub open spec fn grouped(rs: Seq<RecordV>, want: Option<u16>) -> Seq<Seq<RecordV>>
    decreases rs.len(),
{
    if rs.len() == 0 {
        Seq::empty()
    } else {
        let rest = grouped(rs.drop_last(), want);
        if wanted(rs.last(), want) {
            grouped_with(rest, rs.last(), want is Some)
        } else {
            rest
        }
    }
}

/// The value of a list of sets.
pub open spec fn sets_v(s: Seq<Vec<Record>>) -> Seq<Seq<RecordV>> {
    Seq::new(s.len(), |i: int| records_v(s[i]@))
}

/// No set is empty.
pub open spec fn no_empty_set(s: Seq<Seq<RecordV>>) -> bool {
    forall|i: int| 0 <= i < s.len() ==> (#[trigger] s[i]).len() > 0
}

fn compare_keys(a: &Record, b: &Record, owner_only: bool) -> (r: i8)
    ensures
        r == key_order(a@, b@, owner_only),
{
    let n: i8 = a.name.order(&b.name);
    if n != 0 || owner_only {
        n
    } else if a.rtype != b.rtype {
        if a.rtype < b.rtype {
            -1
        } else {
            1
        }
    } else if a.class < b.class {
        -1
    } else if a.class > b.class {
        1
    } else {
        0
    }
}

fn add_to_groups(groups: &mut Vec<Vec<Record>>, r: Record, owner_only: bool)
    requires
        no_empty_set(sets_v(old(groups)@)),
    ensures
        sets_v(final(groups)@) == grouped_with(sets_v(old(groups)@), r@, owner_only),
        no_empty_set(sets_v(final(groups)@)),
{
    let ghost v = sets_v(groups@);
    let n: usize = groups.len();
    let mut p: usize = 0;
    let mut done: bool = false;
    while !done && p < n
        invariant
            p <= n,
            n == groups@.len(),
            v == sets_v(groups@),
            no_empty_set(v),
            place(v, r@, owner_only, 0) == place(v, r@, owner_only, p as int),
            done ==> p < n && key_order(v[p as int][0], r@, owner_only) >= 0,
        decreases n - p,
            if done {
                0int
            } else {
                1int
            },
    {
        assert(v[p as int].len() > 0);
        assert(v[p as int][0] == groups@[p as int]@[0]@);
        if compare_keys(&groups[p][0], &r, owner_only) < 0 {
            p += 1;
        } else {
            done = true;
        }
    }
    assert(place(v, r@, owner_only, 0) == p);
    let mut same = false;
    if p < n {
        assert(v[p as int].len() > 0);
        assert(v[p as int][0] == groups@[p as int]@[0]@);
        same = compare_keys(&groups[p][0], &r, owner_only) == 0;
    }
    if same {
        let ghost had = v[p as int];
        let mut set = crate::wire::clone_records(&groups[p]);
        let ghost rv = r@;
        set.push(r);
        assert(records_v(set@) =~= had.push(rv));
        groups.set(p, set);
        assert(sets_v(groups@) =~= v.update(p as int, had.push(rv)));
    } else {
        let mut set: Vec<Record> = Vec::new();
        let ghost rv = r@;
        set.push(r);
        assert(records_v(set@) =~= seq![rv]);
        groups.insert(p, set);
        assert(sets_v(groups@) =~= v.insert(p as int, seq![rv]));
    }
    assert forall|i: int| 0 <= i < groups@.len() implies (#[trigger] sets_v(groups@)[i]).len()
        > 0 by {
        if same {
            if i != p {
                assert(v[i].len() > 0);
            }
        } else if i < p {
            assert(v[i].len() > 0);
        } else if i > p {
            assert(v[i - 1].len() > 0);
        }
    }
}

/// The wanted records as sets, in order.
pub fn group_records(rs: &Vec<Record>, want: Option<u16>) -> (r: Vec<Vec<Record>>)
    ensures
        sets_v(r@) == grouped(records_v(rs@), want),
        no_empty_set(sets_v(r@)),
{
    let ghost v = records_v(rs@);
    let mut groups: Vec<Vec<Record>> = Vec::new();
    let mut i: usize = 0;
    assert(sets_v(groups@) =~= Seq::empty());
    while i < rs.len()
        invariant
            i <= rs@.len(),
            v == records_v(rs@),
            sets_v(groups@) == grouped(v.subrange(0, i as int), want),
            no_empty_set(sets_v(groups@)),
        decreases rs@.len() - i,
    {
        proof {
            assert(v.subrange(0, i + 1).drop_last() =~= v.subrange(0, i as int));
            assert(v.subrange(0, i + 1).last() == rs@[i as int]@);
        }
        let take = match want {
            None => rs[i].rtype != TYPE_RRSIG,
            Some(t) => rs[i].rtype == t,
        };
        if take {
            add_to_groups(&mut groups, rs[i].clone(), want.is_some());
        }
        i += 1;
    }
    assert(v.subrange(0, v.len() as int) =~= v);
    groups
}

/// A signature counts where any one of the keys made it, wherever in the list that key
/// stands, and where none did it does not.
pub proof fn law_any_one_key_suffices(set: Seq<RecordV>, sig: RecordV, keys: Seq<DnskeyV>)
    ensures
        forall|i: int|
            0 <= i < keys.len() && rrset_verifies(set, sig, #[trigger] keys[i])
                ==> some_key_verifies(set, sig, keys),
        (forall|i: int| 0 <= i < keys.len() ==> !rrset_verifies(set, sig, #[trigger] keys[i]))
            ==> !some_key_verifies(set, sig, keys),
{
}

/// Further keys, before or behind, never make a good signature bad.
pub proof fn law_more_keys_verify_more(
    set: Seq<RecordV>,
    sig: RecordV,
    before: Seq<DnskeyV>,
    keys: Seq<DnskeyV>,
    behind: Seq<DnskeyV>,
)
    requires
        some_key_verifies(set, sig, keys),
    ensures
        some_key_verifies(set, sig, before + keys + behind),
{
    let i = choose|i: int| 0 <= i < keys.len() && rrset_verifies(set, sig, #[trigger] keys[i]);
    assert((before + keys + behind)[before.len() + i] == keys[i]);
}

/// A signature is in its window from five minutes before its inception to five minutes after
/// its expiration, where these come in that order, and at no other time.
pub proof fn law_signature_window(s: RrsigV, now: u32)
    ensures
        window_error(s, now) is None <==> s.inception <= s.expiration && s.inception <= now + 300
            && now <= s.expiration + 300,
{
}

/// Two records belong to one set: they have the same owner and, unless the owner alone
/// counts, the same type and class.
pub open spec fn one_set(a: RecordV, b: RecordV, owner_only: bool) -> bool {
    same_name(a.name, b.name) && (owner_only || (a.rtype == b.rtype && a.class == b.class))
}

/// A record is one of those asked for: of the type, or, without one, any but a signature.
pub open spec fn asked_for(r: RecordV, want: Option<u16>) -> bool {
    &&& want is None ==> r.rtype != TYPE_RRSIG
    &&& want is Some ==> r.rtype == want->0
}

proof fn lemma_key_order(a: RecordV, b: RecordV, c: RecordV, owner_only: bool)
    ensures
        key_order(a, b, owner_only) == 0 <==> one_set(a, b, owner_only),
        key_order(a, b, owner_only) == -key_order(b, a, owner_only),
        key_order(a, b, owner_only) <= 0 && key_order(b, c, owner_only) < 0 ==> key_order(
            a,
            c,
            owner_only,
        ) < 0,
        key_order(a, b, owner_only) < 0 && key_order(b, c, owner_only) <= 0 ==> key_order(
            a,
            c,
            owner_only,
        ) < 0,
{
    crate::order::law_names_are_ordered(a.name, b.name, c.name);
    crate::order::law_equal_places_are_the_same_name(a.name, b.name);
    crate::order::law_equal_places_are_the_same_name(b.name, c.name);
    crate::order::law_equal_places_are_the_same_name(a.name, c.name);
}

spec fn sets_ascend(g: Seq<Seq<RecordV>>, owner_only: bool) -> bool {
    forall|i: int, j: int|
        0 <= i < j < g.len() ==> key_order((#[trigger] g[i])[0], (#[trigger] g[j])[0], owner_only)
            < 0
}

proof fn lemma_place(g: Seq<Seq<RecordV>>, r: RecordV, owner_only: bool, i: int)
    requires
        0 <= i <= g.len(),
        forall|j: int| 0 <= j < i ==> key_order((#[trigger] g[j])[0], r, owner_only) < 0,
    ensures
        i <= place(g, r, owner_only, i) <= g.len(),
        forall|j: int|
            0 <= j < place(g, r, owner_only, i) ==> key_order(
                (#[trigger] g[j])[0],
                r,
                owner_only,
            ) < 0,
        place(g, r, owner_only, i) < g.len() ==> key_order(
            g[place(g, r, owner_only, i)][0],
            r,
            owner_only,
        ) >= 0,
    decreases g.len() - i,
{
    if i < g.len() && key_order(g[i][0], r, owner_only) < 0 {
        lemma_place(g, r, owner_only, i + 1);
    }
}

spec fn set_of(rs: Seq<RecordV>, want: Option<u16>, first: RecordV) -> Seq<RecordV> {
    rs.filter(|x: RecordV| asked_for(x, want) && one_set(first, x, want is Some))
}

spec fn is_partition(g: Seq<Seq<RecordV>>, rs: Seq<RecordV>, want: Option<u16>) -> bool {
    &&& no_empty_set(g)
    &&& sets_ascend(g, want is Some)
    &&& forall|s: int| 0 <= s < g.len() ==> #[trigger] g[s] == set_of(rs, want, g[s][0])
    &&& forall|i: int|
        0 <= i < rs.len() && asked_for(#[trigger] rs[i], want) ==> in_some_set(g, rs[i], want)
}

spec fn in_some_set(g: Seq<Seq<RecordV>>, r: RecordV, want: Option<u16>) -> bool {
    exists|s: int| 0 <= s < g.len() && one_set((#[trigger] g[s])[0], r, want is Some)
}

proof fn lemma_set_last(rs: Seq<RecordV>, want: Option<u16>, first: RecordV)
    requires
        rs.len() > 0,
    ensures
        set_of(rs, want, first) == (if asked_for(rs.last(), want) && one_set(
            first,
            rs.last(),
            want is Some,
        ) {
            set_of(rs.drop_last(), want, first).push(rs.last())
        } else {
            set_of(rs.drop_last(), want, first)
        }),
{
    crate::lists::lemma_filter_last(
        rs,
        |x: RecordV| asked_for(x, want) && one_set(first, x, want is Some),
    );
}

proof fn lemma_no_set(rs: Seq<RecordV>, want: Option<u16>, first: RecordV)
    requires
        forall|i: int|
            0 <= i < rs.len() && asked_for(#[trigger] rs[i], want) ==> !one_set(
                first,
                rs[i],
                want is Some,
            ),
    ensures
        set_of(rs, want, first) == Seq::<RecordV>::empty(),
    decreases rs.len(),
{
    if rs.len() == 0 {
        crate::lists::lemma_filter_last(
            rs,
            |x: RecordV| asked_for(x, want) && one_set(first, x, want is Some),
        );
    } else {
        lemma_set_last(rs, want, first);
        assert(rs[rs.len() - 1] == rs.last());
        assert forall|i: int|
            0 <= i < rs.drop_last().len() && asked_for(#[trigger] rs.drop_last()[i], want) implies !one_set(
            first,
            rs.drop_last()[i],
            want is Some,
        ) by {
            assert(rs.drop_last()[i] == rs[i]);
        }
        lemma_no_set(rs.drop_last(), want, first);
    }
}

proof fn lemma_partition(rs: Seq<RecordV>, want: Option<u16>)
    ensures
        is_partition(grouped(rs, want), rs, want),
    decreases rs.len(),
{
    if rs.len() > 0 {
        let rest = rs.drop_last();
        let r = rs.last();
        let oo = want is Some;
        let g = grouped(rest, want);
        let h = grouped(rs, want);
        lemma_partition(rest, want);
        assert(forall|i: int| 0 <= i < rest.len() ==> #[trigger] rest[i] == rs[i]);
        assert(wanted(r, want) == asked_for(r, want));
        if !asked_for(r, want) {
            assert(h == g);
            assert forall|s: int| 0 <= s < g.len() implies #[trigger] g[s] == set_of(
                rs,
                want,
                g[s][0],
            ) by {
                lemma_set_last(rs, want, g[s][0]);
            }
            assert forall|i: int|
                0 <= i < rs.len() && asked_for(#[trigger] rs[i], want) implies in_some_set(
                h,
                rs[i],
                want,
            ) by {
                assert(rest[i] == rs[i]);
            }
        } else {
            lemma_place(g, r, oo, 0);
            let p = place(g, r, oo, 0);
            assert forall|s: int| 0 <= s < g.len() && s != p implies !one_set(
                (#[trigger] g[s])[0],
                r,
                oo,
            ) by {
                lemma_key_order(g[s][0], r, r, oo);
                if s > p {
                    lemma_key_order(g[p][0], g[s][0], r, oo);
                    lemma_key_order(g[p][0], r, r, oo);
                    lemma_key_order(r, g[p][0], g[s][0], oo);
                    lemma_key_order(r, g[s][0], r, oo);
                }
            }
            if p < g.len() && key_order(g[p][0], r, oo) == 0 {
                lemma_key_order(g[p][0], r, r, oo);
                assert(h == g.update(p, g[p].push(r)));
                assert forall|s: int| 0 <= s < h.len() implies #[trigger] h[s] == set_of(
                    rs,
                    want,
                    h[s][0],
                ) && h[s][0] == g[s][0] by {
                    assert(g[s] == set_of(rest, want, g[s][0]));
                    lemma_set_last(rs, want, g[s][0]);
                }
                assert(sets_ascend(h, oo));
                assert forall|i: int|
                    0 <= i < rs.len() && asked_for(#[trigger] rs[i], want) implies in_some_set(
                    h,
                    rs[i],
                    want,
                ) by {
                    if i < rest.len() {
                        assert(rest[i] == rs[i]);
                        let s = choose|s: int|
                            0 <= s < g.len() && one_set((#[trigger] g[s])[0], rest[i], oo);
                        assert(one_set(h[s][0], rs[i], oo));
                    } else {
                        assert(one_set(h[p][0], rs[i], oo));
                    }
                }
            } else {
                assert(h == g.insert(p, seq![r]));
                if p < g.len() {
                    lemma_key_order(g[p][0], r, r, oo);
                    assert(!one_set(g[p][0], r, oo));
                }
                assert forall|i: int|
                    0 <= i < rest.len() && asked_for(#[trigger] rest[i], want) implies !one_set(
                    r,
                    rest[i],
                    oo,
                ) by {
                    let s = choose|s: int|
                        0 <= s < g.len() && one_set((#[trigger] g[s])[0], rest[i], oo);
                    assert(!one_set(g[s][0], r, oo));
                }
                lemma_no_set(rest, want, r);
                lemma_set_last(rs, want, r);
                assert(one_set(r, r, oo));
                assert forall|s: int| 0 <= s < h.len() implies #[trigger] h[s] == set_of(
                    rs,
                    want,
                    h[s][0],
                ) by {
                    if s == p {
                        assert(Seq::<RecordV>::empty().push(r) =~= seq![r]);
                    } else {
                        let t = if s < p {
                            s
                        } else {
                            s - 1
                        };
                        assert(h[s] == g[t]);
                        lemma_set_last(rs, want, g[t][0]);
                        assert(!one_set(g[t][0], r, oo));
                    }
                }
                assert forall|a: int, b: int| 0 <= a < b < h.len() implies key_order(
                    (#[trigger] h[a])[0],
                    (#[trigger] h[b])[0],
                    oo,
                ) < 0 by {
                    let x = if a < p {
                        a
                    } else {
                        a - 1
                    };
                    let y = if b < p {
                        b
                    } else {
                        b - 1
                    };
                    if a == p {
                        assert(h[b] == g[b - 1]);
                        lemma_key_order(r, g[p][0], g[b - 1][0], oo);
                        lemma_key_order(g[p][0], r, r, oo);
                    } else if b == p {
                        assert(h[a] == g[a]);
                    } else {
                        assert(h[a] == g[x] && h[b] == g[y]);
                    }
                }
                assert forall|i: int|
                    0 <= i < rs.len() && asked_for(#[trigger] rs[i], want) implies in_some_set(
                    h,
                    rs[i],
                    want,
                ) by {
                    if i < rest.len() {
                        assert(rest[i] == rs[i]);
                        let s = choose|s: int|
                            0 <= s < g.len() && one_set((#[trigger] g[s])[0], rest[i], oo);
                        let t = if s < p {
                            s
                        } else {
                            s + 1
                        };
                        assert(h[t] == g[s]);
                        assert(one_set(h[t][0], rs[i], oo));
                    } else {
                        assert(h[p][0] == r);
                        assert(one_set(h[p][0], rs[i], oo));
                    }
                }
            }
        }
    }
}

/// Records are grouped into sets without loss: each set holds all the records asked for that
/// have its owner (and type and class), in order, and nothing else; each record asked for is
/// in a set; and no two sets are of one kind.
pub proof fn law_sets_hold_every_record(rs: Seq<RecordV>, want: Option<u16>)
    ensures
        ({
            let g = grouped(rs, want);
            &&& forall|s: int| 0 <= s < g.len() ==> (#[trigger] g[s]).len() > 0
            &&& forall|s: int|
                0 <= s < g.len() ==> #[trigger] g[s] == rs.filter(
                    |x: RecordV| asked_for(x, want) && one_set(g[s][0], x, want is Some),
                )
            &&& forall|i: int|
                0 <= i < rs.len() && asked_for(#[trigger] rs[i], want) ==> exists|s: int|
                    0 <= s < g.len() && one_set((#[trigger] g[s])[0], rs[i], want is Some)
            &&& forall|s: int, t: int|
                0 <= s < t < g.len() ==> !one_set(
                    (#[trigger] g[s])[0],
                    (#[trigger] g[t])[0],
                    want is Some,
                )
        }),
{
    lemma_partition(rs, want);
    let g = grouped(rs, want);
    assert forall|i: int| 0 <= i < rs.len() && asked_for(#[trigger] rs[i], want) implies exists|
        s: int,
    |
        0 <= s < g.len() && one_set((#[trigger] g[s])[0], rs[i], want is Some) by {
        assert(in_some_set(g, rs[i], want));
    }
    assert forall|s: int, t: int| 0 <= s < t < g.len() implies !one_set(
        (#[trigger] g[s])[0],
        (#[trigger] g[t])[0],
        want is Some,
    ) by {
        lemma_key_order(g[s][0], g[t][0], g[t][0], want is Some);
    }
}

/// The signature over a type is the first one in the list that covers it (and has the owner,
/// where one is given).
pub proof fn law_first_covering_signature(
    rs: Seq<RecordV>,
    rtype: u16,
    owner: Option<Labels>,
    from: int,
)
    requires
        0 <= from <= rs.len(),
    ensures
        match covering(rs, rtype, owner, from) {
            Some(sig) => exists|i: int|
                {
                    &&& from <= i < rs.len()
                    &&& sig == #[trigger] rs[i]
                    &&& covers_type(rs[i], rtype, owner)
                    &&& forall|j: int| from <= j < i ==> !covers_type(#[trigger] rs[j], rtype, owner)
                },
            None => forall|j: int|
                from <= j < rs.len() ==> !covers_type(#[trigger] rs[j], rtype, owner),
        },
    decreases rs.len() - from,
{
    if from < rs.len() {
        if covers_type(rs[from], rtype, owner) {
            assert(covering(rs, rtype, owner, from) == Some(rs[from]));
        } else {
            law_first_covering_signature(rs, rtype, owner, from + 1);
        }
    }
}

/// A record is a signature over sets of a type, of an owner where one is given.
pub open spec fn covers_type(r: RecordV, rtype: u16, owner: Option<Labels>) -> bool {
    &&& rrsig_in(r) is Some
    &&& rrsig_in(r)->0.type_covered == rtype
    &&& owner is Some ==> same_name(r.name, owner->0)
}

proof fn lemma_entry(chain: Seq<ZoneKeysV>, zone: Labels, absolute: bool, from: int)
    requires
        0 <= from <= chain.len(),
    ensures
        match entry_for(chain, zone, absolute, from) {
            Some(i) => {
                &&& from <= i < chain.len()
                &&& chain[i].absolute == absolute && same_name(chain[i].zone, zone)
                &&& forall|j: int|
                    from <= j < i ==> !((#[trigger] chain[j]).absolute == absolute && same_name(
                        chain[j].zone,
                        zone,
                    ))
            },
            None => forall|j: int|
                from <= j < chain.len() ==> !((#[trigger] chain[j]).absolute == absolute
                    && same_name(chain[j].zone, zone)),
        },
    decreases chain.len() - from,
{
    if from < chain.len() && !(chain[from].absolute == absolute && same_name(
        chain[from].zone,
        zone,
    )) {
        lemma_entry(chain, zone, absolute, from + 1);
    }
}

/// The chain of trust starts with every anchor: under a zone stand the keys of all the
/// anchors for it, in order.
pub proof fn law_every_anchor_is_seeded(anchors: Seq<TrustAnchorV>, zone: Labels)
    ensures
        (match entry_for(seeded(anchors), zone, true, 0) {
            Some(i) => seeded(anchors)[i].keys,
            None => Seq::empty(),
        }) == anchors.filter(
            |a: TrustAnchorV| a.absolute && same_name(a.zone, zone),
        ).map_values(|a: TrustAnchorV| a.key),
        anchors.len() > 0 ==> seeded(anchors).len() > 0,
    decreases anchors.len(),
{
    let p = |a: TrustAnchorV| a.absolute && same_name(a.zone, zone);
    let f = |a: TrustAnchorV| a.key;
    if anchors.len() == 0 {
        crate::lists::lemma_pick_none(anchors, p, f);
    } else {
        let a = anchors.last();
        let before = seeded(anchors.drop_last());
        let after = seeded(anchors);
        law_every_anchor_is_seeded(anchors.drop_last(), zone);
        crate::lists::lemma_pick_last(anchors, p, f);
        lemma_entry(before, zone, true, 0);
        lemma_entry(before, a.zone, a.absolute, 0);
        lemma_entry(after, zone, true, 0);
        match entry_for(before, a.zone, a.absolute, 0) {
            Some(i) => {
                assert(forall|j: int|
                    0 <= j < before.len() ==> (#[trigger] after[j]).zone == before[j].zone
                        && after[j].absolute == before[j].absolute);
                match entry_for(before, zone, true, 0) {
                    Some(k) => {
                        assert(after[k].zone == before[k].zone);
                        assert(entry_for(after, zone, true, 0) == Some(k)) by {
                            let m = entry_for(after, zone, true, 0)->0;
                            assert(before[m].zone == after[m].zone);
                        }
                    },
                    None => {
                        if entry_for(after, zone, true, 0) is Some {
                            let m = entry_for(after, zone, true, 0)->0;
                            assert(before[m].zone == after[m].zone);
                        }
                    },
                }
            },
            None => {
                let e = ZoneKeysV { zone: a.zone, absolute: a.absolute, keys: seq![a.key] };
                assert(after == before.push(e));
                match entry_for(before, zone, true, 0) {
                    Some(k) => {
                        assert(after[k] == before[k]);
                        assert(entry_for(after, zone, true, 0) == Some(k)) by {
                            let m = entry_for(after, zone, true, 0)->0;
                            if m < before.len() {
                                assert(before[m] == after[m]);
                            }
                        }
                    },
                    None => {
                        assert(after[before.len() as int] == e);
                        if p(a) {
                            assert(entry_for(after, zone, true, 0) == Some(before.len() as int)) by {
                                let m = entry_for(after, zone, true, 0)->0;
                                if m < before.len() {
                                    assert(before[m] == after[m]);
                                }
                            }
                            assert(Seq::<DnskeyV>::empty().push(a.key) =~= seq![a.key]);
                        } else if entry_for(after, zone, true, 0) is Some {
                            let m = entry_for(after, zone, true, 0)->0;
                            if m < before.len() {
                                assert(before[m] == after[m]);
                            }
                        }
                    },
                }
            },
        }
    }
}

/// Replacing a zone's keys touches no other zone, and leaves the new keys as the zone's only
/// ones.
pub proof fn law_replacing_keys_touches_one_zone(
    chain: Seq<ZoneKeysV>,
    zone: Labels,
    keys: Seq<DnskeyV>,
)
    ensures
        replaced(chain, zone, keys) == chain.filter(
            |e: ZoneKeysV| !(e.absolute && same_name(e.zone, zone)),
        ).push(ZoneKeysV { zone, absolute: true, keys }),
    decreases chain.len(),
{
    let p = |e: ZoneKeysV| !(e.absolute && same_name(e.zone, zone));
    crate::lists::lemma_filter_last(chain, p);
    if chain.len() > 0 {
        law_replacing_keys_touches_one_zone(chain.drop_last(), zone, keys);
        let rest = without(chain.drop_last(), zone);
        let e = ZoneKeysV { zone, absolute: true, keys };
        assert(rest.push(e).drop_last() =~= rest);
        assert(chain.drop_last().filter(p).push(e).drop_last() =~= chain.drop_last().filter(p));
    }
}

/// The keys trusted for a name are those of a zone that it lies in, the deepest there is in
/// the chain; there are none only where it lies in none of the zones.
pub proof fn law_trusted_keys_are_of_the_deepest_zone(chain: Seq<ZoneKeysV>, zone: Labels)
    ensures
        (forall|j: int| 0 <= j < chain.len() ==> !in_zone((#[trigger] chain[j]).zone, zone))
            ==> trusted_keys(chain, zone).len() == 0,
        forall|j: int|
            0 <= j < chain.len() && in_zone((#[trigger] chain[j]).zone, zone) ==> exists|i: int|
                {
                    &&& 0 <= i < chain.len()
                    &&& in_zone((#[trigger] chain[i]).zone, zone)
                    &&& trusted_keys(chain, zone) == chain[i].keys
                    &&& counted_labels(chain[j].zone) <= counted_labels(chain[i].zone)
                },
{
    if forall|j: int| 0 <= j < chain.len() ==> !in_zone((#[trigger] chain[j]).zone, zone) {
        lemma_no_zone(chain, zone);
    }
    assert forall|j: int|
        0 <= j < chain.len() && in_zone((#[trigger] chain[j]).zone, zone) implies exists|i: int|
        {
            &&& 0 <= i < chain.len()
            &&& in_zone((#[trigger] chain[i]).zone, zone)
            &&& trusted_keys(chain, zone) == chain[i].keys
            &&& counted_labels(chain[j].zone) <= counted_labels(chain[i].zone)
        } by {
        law_closest_is_deepest(chain, zone, j);
        let i = closest(chain, zone)->0;
        assert(in_zone(chain[i].zone, zone));
    }
}

proof fn lemma_no_zone(chain: Seq<ZoneKeysV>, zone: Labels)
    requires
        forall|j: int| 0 <= j < chain.len() ==> !in_zone((#[trigger] chain[j]).zone, zone),
    ensures
        closest(chain, zone) is None,
    decreases chain.len(),
{
    if chain.len() > 0 {
        assert forall|j: int| 0 <= j < chain.drop_last().len() implies !in_zone(
            (#[trigger] chain.drop_last()[j]).zone,
            zone,
        ) by {
            assert(chain.drop_last()[j] == chain[j]);
        }
        lemma_no_zone(chain.drop_last(), zone);
        assert(chain[chain.len() - 1] == chain.last());
    }
}

} // verus!
